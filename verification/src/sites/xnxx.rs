//! XNXX and XVideos: pages that use the shared `html5player` embed.

use vstd::prelude::*;
use crate::model::Stream;
use crate::sites::common::{host_chars, strip_www, strip_www_of};
use crate::text::{chars_of, contains, contains_seq, ends_with, has_prefix, has_suffix, is_alnum, starts_with};
use crate::weburl::{opt_view, WebUrl};

verus! {

pub open spec fn xnxx_host(host: Seq<char>) -> bool {
    let h = strip_www(host);
    contains_seq(h, "xnxx"@) || ends_with(h, "xvideos.com"@) || ends_with(h, ".xvideos.com"@)
}

pub fn matches_host(url: &WebUrl) -> (r: bool)
    ensures
        r == (opt_view(url.host) matches Some(h) && xnxx_host(h)),
{
    match host_chars(url) {
        Some(host) => {
            let h = strip_www_of(&host);
            contains(&h, &chars_of("xnxx")) || has_suffix(&h, &chars_of("xvideos.com")) || has_suffix(
                &h,
                &chars_of(".xvideos.com"),
            )
        },
        None => false,
    }
}

/// A video page: its path starts with `/video-` or `/video.`, or `/video` followed by an
/// ASCII letter or digit.
pub open spec fn video_page(path: Seq<char>) -> bool {
    starts_with(path, "/video-"@) || starts_with(path, "/video."@) || (starts_with(path, "/video"@)
        && path.len() > 6 && is_alnum(path[6]))
}

pub fn is_video_page(url: &WebUrl) -> (r: bool)
    ensures
        r == video_page(url.path@),
{
    let p = chars_of(url.path.as_str());
    if has_prefix(&p, &chars_of("/video-")) || has_prefix(&p, &chars_of("/video.")) {
        return true;
    }
    if !has_prefix(&p, &chars_of("/video")) {
        return false;
    }
    proof {
        reveal_strlit("/video");
    }
    if p.len() <= 6 {
        return false;
    }
    let c = p[6];
    ('0' <= c && c <= '9') || ('A' <= c && c <= 'Z') || ('a' <= c && c <= 'z')
}

/// A stream on the XNXX CDN, whose signed URLs are fetched anew before download.
pub open spec fn on_cdn(s: Stream) -> bool {
    opt_view(s.url.host) matches Some(h) && contains_seq(h, "xnxx-cdn.com"@)
}

pub fn needs_refresh(stream: &Stream) -> (r: bool)
    ensures
        r == on_cdn(*stream),
{
    match host_chars(&stream.url) {
        Some(h) => contains(&h, &chars_of("xnxx-cdn.com")),
        None => false,
    }
}

} // verus!
