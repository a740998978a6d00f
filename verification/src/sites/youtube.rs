//! YouTube: host recognition, video ids, and the innertube client it is asked as.

use vstd::prelude::*;
use crate::error::Error;
use crate::innertube::{ClientConfig, PageKeys};
use crate::sites::common::host_chars;
use crate::text::{chars_of, ends_with, has_suffix, push_str, same, string_of, views};
use crate::weburl::{first_value, opt_view, path_segments, query_pairs_of, query_value, segments, WebUrl};

verus! {

/// YouTube hosts: `youtu.be`, and hosts ending in `youtube.com` or `youtube-nocookie.com`.
pub open spec fn youtube_host(h: Seq<char>) -> bool {
    h == "youtu.be"@ || ends_with(h, "youtube.com"@) || ends_with(h, "youtube-nocookie.com"@)
}

pub fn matches_host(url: &WebUrl) -> (r: bool)
    ensures
        r == (opt_view(url.host) matches Some(h) && youtube_host(h)),
        opt_view(url.host) == Some("youtu.be"@) ==> r,
{
    match host_chars(url) {
        Some(h) => same(&h, &chars_of("youtu.be")) || has_suffix(&h, &chars_of("youtube.com"))
            || has_suffix(&h, &chars_of("youtube-nocookie.com")),
        None => false,
    }
}

/// YouTube pages are recognized by their host: the share host `youtu.be`, and every host
/// ending in `youtube.com` or `youtube-nocookie.com` (`www.`, `m.`, `music.` and the
/// like); a page on any of them goes to the YouTube family, the first in the registry.
pub proof fn law_youtube_hosts(url: WebUrl)
    requires
        opt_view(url.host) matches Some(h) && (h == "youtu.be"@ || ends_with(h, "youtube.com"@)
            || ends_with(h, "youtube-nocookie.com"@)),
    ensures
        crate::sites::registry::site_matches(crate::sites::registry::SiteId::Youtube, url),
        crate::sites::registry::first_match(url) == Some(0int),
        crate::sites::registry::site_order()[0] == crate::sites::registry::SiteId::Youtube,
{
}

/// The video id: the first path segment on `youtu.be`, else the `v` query value; empty
/// ids do not count.
pub open spec fn youtube_id(url: WebUrl) -> Option<Seq<char>> {
    if opt_view(url.host) == Some("youtu.be"@) {
        match path_segments(url.path@) {
            Some(segs) => if segs[0].len() > 0 {
                Some(segs[0])
            } else {
                None
            },
            None => None,
        }
    } else {
        match first_value(query_pairs_of(url), "v"@) {
            Some(v) => if v.len() > 0 {
                Some(v)
            } else {
                None
            },
            None => None,
        }
    }
}

pub fn video_id(url: &WebUrl) -> (r: Option<String>)
    ensures
        opt_view(r) == youtube_id(*url),
{
    let short = match host_chars(url) {
        Some(h) => same(&h, &chars_of("youtu.be")),
        None => false,
    };
    if short {
        match segments(url) {
            Some(segs) => {
                assert(views(segs@)[0] == segs@[0]@);
                if segs[0].len() > 0 {
                    Some(crate::text::string_of(segs[0].as_slice()))
                } else {
                    None
                }
            },
            None => None,
        }
    } else {
        match query_value(url, "v") {
            Some(v) => {
                if chars_of(v.as_str()).len() > 0 {
                    Some(v)
                } else {
                    None
                }
            },
            None => None,
        }
    }
}

/// The User-Agent of the innertube client the player API is asked as.
pub const USER_AGENT: &'static str = "com.google.android.apps.youtube.vr.oculus/1.65.10 (Linux; U; Android 12L; eureka-user Build/SQ3A.220605.009.A1) gzip";

/// The innertube client identity: the Android VR client.
pub fn client() -> (r: ClientConfig)
    ensures
        r.name == "ANDROID_VR",
        r.version == "1.65.10",
        r.user_agent == USER_AGENT,
        r.device_make == "Oculus",
        r.device_model == "Quest 3",
        r.android_sdk == 32,
        r.os_name == "Android",
        r.os_version == "12L",
{
    ClientConfig {
        name: "ANDROID_VR",
        version: "1.65.10",
        user_agent: USER_AGENT,
        device_make: "Oculus",
        device_model: "Quest 3",
        android_sdk: 32,
        os_name: "Android",
        os_version: "12L",
    }
}

/// The player API endpoint for the page's API key.
pub fn player_endpoint(keys: &PageKeys) -> (r: String)
    ensures
        r@ == "https://www.youtube.com/youtubei/v1/player?key="@ + keys.api_key@,
{
    let mut v = chars_of("https://www.youtube.com/youtubei/v1/player?key=");
    push_str(&mut v, keys.api_key.as_str());
    string_of(v.as_slice())
}

/// The video id of a page, which the player API needs.
pub fn required_video_id(url: &WebUrl) -> (r: Result<String, Error>)
    ensures
        match youtube_id(*url) {
            Some(id) => r matches Ok(s) && s@ == id,
            None => r matches Err(Error::InvalidUrl(m)) && m@ == "missing YouTube video id"@,
        },
{
    match video_id(url) {
        Some(id) => Ok(id),
        None => Err(Error::InvalidUrl(string_of(chars_of("missing YouTube video id").as_slice()))),
    }
}

} // verus!
