//! Page URL checks and page titles.

use vstd::prelude::*;
use crate::error::Error;
use crate::extract::html::{html_title, title_text};
use crate::text::{chars_of, push_str, split_spec, string_of, trim, trimmed, views};
use crate::weburl::{opt_view, parse_web_url, path_segments, segments, url_parse, WebUrl};

verus! {

/// The page title: the trimmed text of the first `<title>`, when not empty.
pub open spec fn title_of(html: Seq<char>) -> Option<Seq<char>> {
    match html_title(html) {
        Some(t) => if trim(t).len() > 0 {
            Some(trim(t))
        } else {
            None
        },
        None => None,
    }
}

pub fn extract_title(html: &str) -> (r: Option<String>)
    ensures
        opt_view(r) == title_of(html@),
{
    match title_text(html) {
        Some(t) => {
            let v = trimmed(&chars_of(t.as_str()));
            if v.len() > 0 {
                Some(string_of(v.as_slice()))
            } else {
                None
            }
        },
        None => None,
    }
}

/// The title used when the page has none: the last path segment, or `page`.
pub open spec fn fallback_title_of(path: Seq<char>) -> Seq<char> {
    match path_segments(path) {
        Some(segs) => if segs.last().len() > 0 {
            segs.last()
        } else {
            "page"@
        },
        None => "page"@,
    }
}

pub fn fallback_title(url: &WebUrl) -> (r: String)
    ensures
        r@ == fallback_title_of(url.path@),
{
    match segments(url) {
        Some(segs) => {
            let last = &segs[segs.len() - 1];
            assert(views(segs@).last() == last@);
            if last.len() > 0 {
                string_of(last.as_slice())
            } else {
                String::from_str("page")
            }
        },
        None => String::from_str("page"),
    }
}

/// The title a fetched page gets: its `<title>` text, else the fallback from its URL.
pub open spec fn page_title(html: Seq<char>, path: Seq<char>) -> Seq<char> {
    match title_of(html) {
        Some(t) => t,
        None => fallback_title_of(path),
    }
}

pub fn title_for(html: &str, final_url: &WebUrl) -> (r: String)
    ensures
        r@ == page_title(html@, final_url.path@),
{
    match extract_title(html) {
        Some(t) => t,
        None => fallback_title(final_url),
    }
}

/// The outcome of checking a page URL: an empty (after trimming) input, or the parse
/// of the trimmed input, which must have the `http` or `https` scheme.
pub open spec fn page_url_ok(raw: Seq<char>, r: Result<WebUrl, Error>) -> bool {
    let t = trim(raw);
    if t.len() == 0 {
        r matches Err(Error::InvalidUrl(m)) && m@ == "URL must not be empty"@
    } else {
        match url_parse(t) {
            None => r matches Err(Error::InvalidUrl(_)),
            Some(u) => if u.1 == "http"@ || u.1 == "https"@ {
                r matches Ok(x) && x@ == u
            } else {
                r matches Err(Error::InvalidUrl(m)) && m@ == "unsupported scheme `"@ + u.1
                    + "` (use http or https)"@
            },
        }
    }
}

/// Validate a page URL before any network I/O.
pub fn validate_page_url(raw: &str) -> (r: Result<WebUrl, Error>)
    ensures
        page_url_ok(raw@, r),
{
    let t = trimmed(&chars_of(raw));
    if t.len() == 0 {
        return Err(Error::InvalidUrl(String::from_str("URL must not be empty")));
    }
    let s = string_of(t.as_slice());
    let parsed = match parse_web_url(s.as_str()) {
        Ok(u) => u,
        Err(e) => {
            return Err(Error::InvalidUrl(e));
        },
    };
    let scheme = chars_of(parsed.scheme.as_str());
    if crate::text::same(&scheme, &chars_of("http")) || crate::text::same(&scheme, &chars_of("https")) {
        Ok(parsed)
    } else {
        let mut m = chars_of("unsupported scheme `");
        crate::text::push_chars(&mut m, &scheme);
        push_str(&mut m, "` (use http or https)");
        Err(Error::InvalidUrl(string_of(m.as_slice())))
    }
}

/// The outcome of checking an optional output directory, given whether the path exists
/// and whether it is a directory.
pub open spec fn output_dir_ok(path: Option<Seq<char>>, exists: bool, is_dir: bool, r: Result<(), Error>) -> bool {
    match path {
        None => r == Ok::<(), Error>(()),
        Some(p) => if p.len() == 0 {
            r matches Err(Error::InvalidOutput(m)) && m@ == "output path must not be empty"@
        } else if exists && !is_dir {
            r matches Err(Error::InvalidOutput(m)) && m@ == "`"@ + p + "` exists and is not a directory"@
        } else {
            r == Ok::<(), Error>(())
        },
    }
}

/// Validate an optional output directory; `exists` and `is_dir` describe the path on disk.
pub fn validate_output_dir(path: Option<&str>, exists: bool, is_dir: bool) -> (r: Result<(), Error>)
    ensures
        output_dir_ok(crate::extract::html::opt_str_view(path), exists, is_dir, r),
{
    let p = match path {
        Some(p) => p,
        None => {
            return Ok(());
        },
    };
    let v = chars_of(p);
    if v.len() == 0 {
        return Err(Error::InvalidOutput(String::from_str("output path must not be empty")));
    }
    if exists && !is_dir {
        let mut m = chars_of("`");
        push_str(&mut m, p);
        push_str(&mut m, "` exists and is not a directory");
        return Err(Error::InvalidOutput(string_of(m.as_slice())));
    }
    Ok(())
}

} // verus!
