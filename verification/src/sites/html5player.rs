//! XVideos-family `html5player.setVideoUrl*` / `setVideoHLS` embed.

use vstd::prelude::*;
use crate::error::Error;
use crate::model::Stream;
use crate::sites::common::{is_video_stream, video_stream};
use crate::text::{
    after_first, after_first_of, before_first, before_first_of, chars_of, digit_prefix,
    digit_prefix_of, find, find_in, parse_u32, parse_uint, push_str, slice_chars, string_of,
};
use crate::weburl::{parse_web_url, url_parse, UrlView};

verus! {

/// The URL passed to `html5player.{method}('...')` in `html`: the text after the first
/// such call up to the next `'`.
pub open spec fn player_url(html: Seq<char>, method: Seq<char>) -> Option<Seq<char>> {
    let needle = "html5player."@ + method + "('"@;
    match find(html, needle) {
        Some(k) => {
            let rest = html.subrange(k + needle.len(), html.len() as int);
            match find(rest, "'"@) {
                Some(e) => Some(rest.subrange(0, e)),
                None => None,
            }
        },
        None => None,
    }
}

pub fn parse_player_url(html: &str, method: &str) -> (r: Option<String>)
    ensures
        crate::weburl::opt_view(r) == player_url(html@, method@),
{
    let h = chars_of(html);
    let mut needle = chars_of("html5player.");
    push_str(&mut needle, method);
    push_str(&mut needle, "('");
    assert(h@.subrange(0, h@.len() as int) =~= h@);
    let k = match find_in(&h, 0, &needle) {
        Some(k) => k,
        None => {
            return None;
        },
    };
    proof {
        crate::text::lemma_find_props(h@, needle@);
        assert(h@.len() == h.len());
    }
    let start = k + needle.len();
    let quote = chars_of("'");
    match find_in(&h, start, &quote) {
        Some(e) => {
            proof {
                crate::text::lemma_find_props(h@.subrange(start as int, h@.len() as int), quote@);
            }
            let v = slice_chars(&h, start, start + e);
            assert(v@ =~= h@.subrange(start as int, h@.len() as int).subrange(0, e as int));
            Some(string_of(v.as_slice()))
        },
        None => None,
    }
}

/// The height in an MP4 file name: the digits right after the first `video_`.
pub open spec fn mp4_height_of(url: Seq<char>) -> Option<nat> {
    match after_first(url, "video_"@) {
        Some(rest) => parse_uint(digit_prefix(before_first(rest, "video_"@)), u32::MAX as nat),
        None => None,
    }
}

pub fn mp4_height(url: &str) -> (r: Option<u32>)
    ensures
        match mp4_height_of(url@) {
            Some(h) => r == Some(h as u32),
            None => r is None,
        },
{
    let key = chars_of("video_");
    match after_first_of(&chars_of(url), &key) {
        Some(rest) => {
            let piece = before_first_of(&rest, &key);
            parse_u32(&digit_prefix_of(&piece))
        },
        None => None,
    }
}

/// The height assumed for a player method when the file name has none.
pub open spec fn fallback_height(method: Seq<char>) -> nat {
    if method == "setVideoUrlLow"@ {
        240
    } else if method == "setVideoUrlHigh"@ {
        360
    } else if method == "setVideoUrlHD"@ {
        720
    } else {
        0
    }
}

pub fn fallback_mp4_height(method: &str) -> (r: u32)
    ensures
        r as nat == fallback_height(method@),
{
    let m = chars_of(method);
    if crate::text::same(&m, &chars_of("setVideoUrlLow")) {
        240
    } else if crate::text::same(&m, &chars_of("setVideoUrlHigh")) {
        360
    } else if crate::text::same(&m, &chars_of("setVideoUrlHD")) {
        720
    } else {
        0
    }
}

/// The MP4 player methods, lowest quality first.
pub open spec fn mp4_methods() -> Seq<Seq<char>> {
    seq!["setVideoUrlLow"@, "setVideoUrlHigh"@, "setVideoUrlHD"@]
}

/// The MP4 entries of the embed: for each method with a URL, the URL text and height.
pub open spec fn mp4_entries(html: Seq<char>, n: nat) -> Seq<(Seq<char>, nat)>
    decreases n,
{
    if n == 0 {
        Seq::empty()
    } else {
        let prev = mp4_entries(html, (n - 1) as nat);
        let m = mp4_methods()[n - 1];
        match player_url(html, m) {
            Some(u) => prev.push(
                (
                    u,
                    match mp4_height_of(u) {
                        Some(h) => h,
                        None => fallback_height(m),
                    },
                ),
            ),
            None => prev,
        }
    }
}

/// The progressive streams of the embed: one per MP4 method with a URL; a URL that
/// does not parse makes it an `InvalidUrl` error.
pub open spec fn mp4_result(html: Seq<char>, r: Result<Vec<Stream>, Error>) -> bool {
    let es = mp4_entries(html, 3);
    if exists|i: int| 0 <= i < es.len() && url_parse(#[trigger] es[i].0) is None {
        r matches Err(Error::InvalidUrl(_))
    } else {
        r matches Ok(v) && v@.len() == es.len() && forall|i: int|
            0 <= i < es.len() ==> is_video_stream(
                #[trigger] v@[i],
                url_parse(es[i].0).unwrap(),
                es[i].1,
                false,
                None,
            )
    }
}

pub fn mp4_streams(html: &str) -> (r: Result<Vec<Stream>, Error>)
    ensures
        mp4_result(html@, r),
{
    let methods: [&str; 3] = ["setVideoUrlLow", "setVideoUrlHigh", "setVideoUrlHD"];
    let mut streams: Vec<Stream> = Vec::new();
    let mut i: usize = 0;
    while i < 3
        invariant
            i <= 3,
            methods@.len() == 3,
            forall|j: int| 0 <= j < 3 ==> (#[trigger] methods@[j])@ == mp4_methods()[j],
            forall|j: int| 0 <= j < mp4_entries(html@, i as nat).len() ==> url_parse(#[trigger] mp4_entries(html@, i as nat)[j].0) is Some,
            streams@.len() == mp4_entries(html@, i as nat).len(),
            forall|j: int|
                0 <= j < streams@.len() ==> is_video_stream(
                    #[trigger] streams@[j],
                    url_parse(mp4_entries(html@, i as nat)[j].0).unwrap(),
                    mp4_entries(html@, i as nat)[j].1,
                    false,
                    None,
                ),
        decreases 3 - i,
    {
        let method = methods[i];
        let ghost prev = mp4_entries(html@, i as nat);
        if let Some(url) = parse_player_url(html, method) {
            let height = match mp4_height(url.as_str()) {
                Some(h) => h,
                None => fallback_mp4_height(method),
            };
            match parse_web_url(url.as_str()) {
                Ok(u) => {
                    let ghost old = streams@;
                    streams.push(video_stream(u, height, false, None));
                    assert(forall|j: int| 0 <= j < old.len() ==> streams@[j] == old[j]);
                },
                Err(e) => {
                    proof {
                        let es = mp4_entries(html@, 3);
                        lemma_entries_prefix(html@, (i + 1) as nat, 3);
                        assert(url_parse(es[prev.len() as int].0) is None);
                    }
                    return Err(Error::InvalidUrl(e));
                },
            }
        }
        i = i + 1;
    }
    Ok(streams)
}

/// Entries for fewer methods are a prefix of those for more.
pub proof fn lemma_entries_prefix(html: Seq<char>, n: nat, m: nat)
    requires
        n <= m,
    ensures
        mp4_entries(html, n).len() <= mp4_entries(html, m).len(),
        forall|j: int| 0 <= j < mp4_entries(html, n).len() ==> #[trigger] mp4_entries(html, m)[j] == mp4_entries(html, n)[j],
    decreases m - n,
{
    if n < m {
        lemma_entries_prefix(html, n, (m - 1) as nat);
    }
}

/// All streams of the embed: the progressive ones, then those from the HLS master;
/// none at all is an error.
pub fn combine_streams(mp4: Vec<Stream>, hls: Vec<Stream>) -> (r: Result<Vec<Stream>, Error>)
    ensures
        if mp4@.len() + hls@.len() == 0 {
            r == Err::<Vec<Stream>, Error>(Error::NoStreamsFound)
        } else {
            r matches Ok(v) && v@ == mp4@ + hls@
        },
{
    let mut all = mp4;
    let mut rest = hls;
    all.append(&mut rest);
    if all.len() == 0 {
        Err(Error::NoStreamsFound)
    } else {
        Ok(all)
    }
}

} // verus!
