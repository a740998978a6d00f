//! The innertube keys embedded in a YouTube watch page.

use vstd::prelude::*;
use crate::error::Error;
use crate::text::{chars_of, find, find_in, push_str, slice_chars, string_of};

verus! {

/// The API key and visitor data that the player API wants.
#[derive(Debug, Clone)]
pub struct PageKeys {
    pub api_key: String,
    pub visitor_data: String,
}

/// The string value of `"key":"` in the page, up to the next `"`; a missing key or an
/// unterminated value is refused with the reason.
pub open spec fn json_string_of(html: Seq<char>, key: Seq<char>) -> Result<Seq<char>, Seq<char>> {
    let needle = "\""@ + key + "\":\""@;
    match find(html, needle) {
        None => Err("page missing `"@ + key + "`"@),
        Some(k) => {
            let rest = html.subrange(k + needle.len(), html.len() as int);
            match find(rest, "\""@) {
                None => Err("truncated page"@),
                Some(e) => Ok(rest.subrange(0, e)),
            }
        },
    }
}

pub fn extract_json_string(html: &str, key: &str) -> (r: Result<String, Error>)
    ensures
        match json_string_of(html@, key@) {
            Ok(v) => r matches Ok(s) && s@ == v,
            Err(m) => r matches Err(Error::InvalidUrl(x)) && x@ == m,
        },
{
    let h = chars_of(html);
    let mut needle = chars_of("\"");
    push_str(&mut needle, key);
    push_str(&mut needle, "\":\"");
    assert(h@.subrange(0, h@.len() as int) =~= h@);
    let k = match find_in(&h, 0, &needle) {
        Some(k) => k,
        None => {
            let mut m = chars_of("page missing `");
            push_str(&mut m, key);
            push_str(&mut m, "`");
            return Err(Error::InvalidUrl(string_of(m.as_slice())));
        },
    };
    proof {
        crate::text::lemma_find_props(h@, needle@);
        assert(h@.len() == h.len());
    }
    let start = k + needle.len();
    let quote = chars_of("\"");
    match find_in(&h, start, &quote) {
        Some(e) => {
            proof {
                crate::text::lemma_find_props(h@.subrange(start as int, h@.len() as int), quote@);
            }
            let v = slice_chars(&h, start, start + e);
            assert(v@ =~= h@.subrange(start as int, h@.len() as int).subrange(0, e as int));
            Ok(string_of(v.as_slice()))
        },
        None => Err(Error::InvalidUrl(string_of(chars_of("truncated page").as_slice()))),
    }
}

impl PageKeys {
    /// The keys `INNERTUBE_API_KEY` and `VISITOR_DATA` of a watch page, in that order.
    pub fn from_html(html: &str) -> (r: Result<PageKeys, Error>)
        ensures
            match json_string_of(html@, "INNERTUBE_API_KEY"@) {
                Err(m) => r matches Err(Error::InvalidUrl(x)) && x@ == m,
                Ok(a) => match json_string_of(html@, "VISITOR_DATA"@) {
                    Err(m) => r matches Err(Error::InvalidUrl(x)) && x@ == m,
                    Ok(v) => r matches Ok(k) && k.api_key@ == a && k.visitor_data@ == v,
                },
            },
    {
        let api_key = match extract_json_string(html, "INNERTUBE_API_KEY") {
            Ok(a) => a,
            Err(e) => {
                return Err(e);
            },
        };
        let visitor_data = match extract_json_string(html, "VISITOR_DATA") {
            Ok(v) => v,
            Err(e) => {
                return Err(e);
            },
        };
        Ok(PageKeys { api_key, visitor_data })
    }
}

} // verus!
