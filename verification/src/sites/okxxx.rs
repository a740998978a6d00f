//! ok.xxx: KTPlayer pages whose `<source>` tags redirect to an HLS master playlist.

use vstd::prelude::*;
use crate::error::Error;
use crate::extract::generic::{playable_specs, playable_video_sources, selected, streams_match};
use crate::hls::parse_master;
use crate::model::{MediaKind, Stream};
use crate::sites::common::{host_chars, master_streams_with, streams_from_master};
use crate::text::{chars_of, ends_with, has_suffix, same};
use crate::weburl::{opt_view, UrlView, WebUrl};

verus! {

pub open spec fn okxxx_host(h: Seq<char>) -> bool {
    h == "ok.xxx"@ || ends_with(h, ".ok.xxx"@)
}

pub fn matches_host(url: &WebUrl) -> (r: bool)
    ensures
        r == (opt_view(url.host) matches Some(h) && okxxx_host(h)),
{
    match host_chars(url) {
        Some(h) => same(&h, &chars_of("ok.xxx")) || has_suffix(&h, &chars_of(".ok.xxx")),
        None => false,
    }
}

/// The page's first full-length `<video source>`, which redirects to the master playlist.
pub open spec fn first_source_spec(html: Seq<char>, base: Seq<char>) -> Option<UrlView> {
    let ps = playable_specs(selected(html, "video source"@, "src"@, base, Some(MediaKind::Video), Some("label"@)));
    if ps.len() > 0 {
        Some(ps[0].0)
    } else {
        None
    }
}

/// The page's first playable source, which redirects to the HLS playlist; a page
/// without one has no streams.
pub fn first_source(html: &str, page_url: &WebUrl) -> (r: Result<WebUrl, Error>)
    ensures
        match first_source_spec(html@, page_url.href@) {
            Some(u) => r matches Ok(g) && g@ == u,
            None => r == Err::<WebUrl, Error>(Error::NoStreamsFound),
        },
{
    let sources = playable_video_sources(html, page_url);
    if sources.len() == 0 {
        return Err(Error::NoStreamsFound);
    }
    Ok(sources[0].url.copy_of())
}

/// The streams of the playlist found behind that source: one HLS video stream per
/// variant, whose URLs must be absolute.
pub fn streams_from_playlist(master: &str) -> (r: Result<Vec<Stream>, Error>)
    ensures
        master_streams_with(master@, None, r),
{
    let parsed = parse_master(master);
    streams_from_master(parsed, Ghost(master@), Ghost(None))
}

} // verus!
