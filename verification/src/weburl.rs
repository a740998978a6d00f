//! URLs as plain values: what the extraction logic reads of a parsed URL.

use vstd::prelude::*;
use crate::text::{chars_of, occurs, slice_chars, split_char, split_spec, views};

verus! {

/// A parsed absolute URL, held as the plain strings that the logic reads.
///
/// `href` is the full serialization; two URLs are the same URL when their
/// serializations are equal.
#[derive(Debug, Clone, PartialEq, Eq)]
pub struct WebUrl {
    pub href: String,
    pub scheme: String,
    pub host: Option<String>,
    pub path: String,
    pub query: Option<String>,
}

/// What the logic reads of a parsed URL: serialization, scheme, host, path, query.
pub type UrlView = (Seq<char>, Seq<char>, Option<Seq<char>>, Seq<char>, Option<Seq<char>>);

pub open spec fn opt_view(o: Option<String>) -> Option<Seq<char>> {
    match o {
        Some(s) => Some(s@),
        None => None,
    }
}

impl View for WebUrl {
    type V = (Seq<char>, Seq<char>, Option<Seq<char>>, Seq<char>, Option<Seq<char>>);

    open spec fn view(&self) -> Self::V {
        (self.href@, self.scheme@, opt_view(self.host), self.path@, opt_view(self.query))
    }
}

/// What `url::Url::parse` makes of `input`: `None` when it refuses the input,
/// else the serialization, scheme, host, path and query of the result.
pub uninterp spec fn url_parse(input: Seq<char>) -> Option<
    (Seq<char>, Seq<char>, Option<Seq<char>>, Seq<char>, Option<Seq<char>>),
>;

/// What `url::Url::join` makes of `reference` against the URL whose serialization is `base`.
pub uninterp spec fn url_join(base: Seq<char>, reference: Seq<char>) -> Option<
    (Seq<char>, Seq<char>, Option<Seq<char>>, Seq<char>, Option<Seq<char>>),
>;

/// The pairs that `form_urlencoded::parse` decodes from a query string.
pub uninterp spec fn form_pairs(query: Seq<char>) -> Seq<(Seq<char>, Seq<char>)>;

/// Calls `url::Url::parse`. The contract claims that the result is `url_parse` of the
/// input, read field by field; the text of the error message is left unsaid.
#[verifier::external_body]
pub(crate) fn parse_web_url(input: &str) -> (r: Result<WebUrl, String>)
    ensures
        match r {
            Ok(u) => url_parse(input@) == Some(u@),
            Err(_) => url_parse(input@) is None,
        },
{
    match url::Url::parse(input) {
        Ok(u) => Ok(WebUrl {
            href: u.as_str().to_string(),
            scheme: u.scheme().to_string(),
            host: u.host_str().map(|h| h.to_string()),
            path: u.path().to_string(),
            query: u.query().map(|q| q.to_string()),
        }),
        Err(e) => Err(e.to_string()),
    }
}

/// Calls `url::Url::join` on the URL that `base.href` serializes. The contract claims
/// that the result is `url_join` of the base's serialization and the reference; the
/// text of the error message is left unsaid.
#[verifier::external_body]
pub(crate) fn join_web_url(base: &WebUrl, reference: &str) -> (r: Result<WebUrl, String>)
    ensures
        match r {
            Ok(u) => url_join(base.href@, reference@) == Some(u@),
            Err(_) => url_join(base.href@, reference@) is None,
        },
{
    match url::Url::parse(&base.href).and_then(|b| b.join(reference)) {
        Ok(u) => Ok(WebUrl {
            href: u.as_str().to_string(),
            scheme: u.scheme().to_string(),
            host: u.host_str().map(|h| h.to_string()),
            path: u.path().to_string(),
            query: u.query().map(|q| q.to_string()),
        }),
        Err(e) => Err(e.to_string()),
    }
}

pub open spec fn pair_views(v: Seq<(String, String)>) -> Seq<(Seq<char>, Seq<char>)> {
    v.map_values(|p: (String, String)| (p.0@, p.1@))
}

/// Calls `form_urlencoded::parse` on the bytes of `query` and collects the decoded
/// pairs; the contract claims that they are `form_pairs` of the query.
#[verifier::external_body]
pub(crate) fn decode_form_pairs(query: &str) -> (r: Vec<(String, String)>)
    ensures
        pair_views(r@) == form_pairs(query@),
{
    url::form_urlencoded::parse(query.as_bytes())
        .map(|(k, v)| (k.into_owned(), v.into_owned()))
        .collect()
}

/// `Url::query_pairs`: the decoded pairs of the query (none without a query).
pub open spec fn query_pairs_of(u: WebUrl) -> Seq<(Seq<char>, Seq<char>)> {
    match u.query {
        Some(q) => form_pairs(q@),
        None => Seq::empty(),
    }
}

/// The value of the first query pair whose key is `key`.
pub open spec fn first_value(pairs: Seq<(Seq<char>, Seq<char>)>, key: Seq<char>) -> Option<Seq<char>>
    decreases pairs.len(),
{
    if pairs.len() == 0 {
        None
    } else if pairs[0].0 == key {
        Some(pairs[0].1)
    } else {
        first_value(pairs.drop_first(), key)
    }
}

/// `url.query_pairs().find(|(k, _)| k == key).map(|(_, v)| v)`.
pub fn query_value(u: &WebUrl, key: &str) -> (r: Option<String>)
    ensures
        opt_view(r) == first_value(query_pairs_of(*u), key@),
{
    let pairs: Vec<(String, String)> = match &u.query {
        Some(q) => decode_form_pairs(q.as_str()),
        None => Vec::new(),
    };
    let ghost all = pair_views(pairs@);
    assert(all == query_pairs_of(*u));
    let kv = chars_of(key);
    let mut i: usize = 0;
    assert(all.subrange(0, all.len() as int) =~= all);
    while i < pairs.len()
        invariant
            i <= pairs@.len(),
            all == pair_views(pairs@),
            all == query_pairs_of(*u),
            kv@ == key@,
            first_value(all, key@) == first_value(all.subrange(i as int, all.len() as int), key@),
        decreases pairs@.len() - i,
    {
        let ghost rest = all.subrange(i as int, all.len() as int);
        assert(all.len() == pairs@.len());
        assert(rest.drop_first() =~= all.subrange(i + 1, all.len() as int));
        assert(rest[0] == (pairs@[i as int].0@, pairs@[i as int].1@));
        let k = chars_of(pairs[i].0.as_str());
        if k.len() == kv.len() && occurs(&k, 0, &kv) {
            assert(k@ =~= kv@) by {
                assert(k@.subrange(0, kv@.len() as int) =~= k@);
            }
            let v = pairs[i].1.clone();
            assert(rest[0].0 == key@);
            assert(v@ == rest[0].1);
            assert(rest.len() > 0);
            assert(first_value(rest, key@) == Some(rest[0].1));
            return Some(v);
        }
        proof {
            if rest[0].0 == key@ {
                assert(k@.subrange(0, kv@.len() as int) =~= k@);
            }
        }
        i = i + 1;
    }
    None
}

/// `Url::path_segments`: `None` unless the path starts with `/`, else the pieces
/// of the path after that `/`, split at each `/`.
pub open spec fn path_segments(path: Seq<char>) -> Option<Seq<Seq<char>>> {
    if path.len() > 0 && path[0] == '/' {
        Some(split_spec(path.drop_first(), '/'))
    } else {
        None
    }
}

/// `Url::path_segments` on the path of `u`.
pub fn segments(u: &WebUrl) -> (r: Option<Vec<Vec<char>>>)
    ensures
        match r {
            Some(v) => path_segments(u.path@) == Some(views(v@)) && v@.len() >= 1,
            None => path_segments(u.path@) is None,
        },
{
    let p = chars_of(u.path.as_str());
    if p.len() > 0 && p[0] == '/' {
        let rest = slice_chars(&p, 1, p.len());
        assert(rest@ =~= p@.drop_first());
        Some(split_char(&rest, '/'))
    } else {
        None
    }
}

} // verus!
