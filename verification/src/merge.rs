//! What ffmpeg is told when it fetches an HLS playlist.

use vstd::prelude::*;
use crate::sites::common::BROWSER_UA;
use crate::text::{chars_of, push_str, string_of};

verus! {

/// The HTTP headers ffmpeg sends for an HLS download: the browser User-Agent, then the
/// Referer when there is one, each line ended by CR LF.
pub open spec fn hls_headers_of(referer: Option<Seq<char>>) -> Seq<char> {
    let ua = "User-Agent: "@ + BROWSER_UA@ + "\r\n"@;
    match referer {
        Some(r) => ua + "Referer: "@ + r + "\r\n"@,
        None => ua,
    }
}

pub fn hls_headers(referer: Option<&str>) -> (r: String)
    ensures
        r@ == hls_headers_of(crate::extract::html::opt_str_view(referer)),
{
    let mut v = chars_of("User-Agent: ");
    push_str(&mut v, BROWSER_UA);
    push_str(&mut v, "\r\n");
    if let Some(r) = referer {
        push_str(&mut v, "Referer: ");
        push_str(&mut v, r);
        push_str(&mut v, "\r\n");
    }
    string_of(v.as_slice())
}

} // verus!
