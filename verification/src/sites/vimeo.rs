//! Vimeo: ids and hashes from page URLs and HTML, the API's answer (progressive MP4 and
//! HLS links) turned into streams, and the freshness of the cached API token.

use vstd::prelude::*;
use crate::error::Error;
use crate::json_value::{
    de_opt_string, de_opt_u32, decode_opt_string, decode_opt_u32, field_at, is_struct_shape,
    struct_field, struct_shape, JsonValue, opt_ref,
};
use crate::model::Stream;
use crate::quality::{height_hint, height_of};
use crate::sites::common::{host_chars, is_video_stream, lemma_video_stream_height, video_stream};
use crate::text::{
    all_digits, alnum_prefix, alnum_prefix_of, before_any, before_any_of, chars_of, contains,
    contains_seq, digit_prefix, digit_prefix_of, ends_with, find, find_in, has_prefix,
    has_suffix, is_digit, parse_u32, parse_uint, push_str, same, slice_chars, starts_with,
    string_of, strip_end_in, strip_end_len,
};
use crate::weburl::{
    first_value, opt_view, parse_web_url, path_segments, query_pairs_of, query_value, segments,
    url_parse, WebUrl,
};

verus! {

/// Referer that the Vimeo CDN expects.
pub const REFERER: &'static str = "https://vimeo.com/";

pub open spec fn vimeo_host(h: Seq<char>) -> bool {
    h == "vimeo.com"@ || ends_with(h, ".vimeo.com"@) || h == "player.vimeo.com"@
}

pub fn matches_host(url: &WebUrl) -> (r: bool)
    ensures
        r == (opt_view(url.host) matches Some(h) && vimeo_host(h)),
{
    match host_chars(url) {
        Some(h) => same(&h, &chars_of("vimeo.com")) || has_suffix(&h, &chars_of(".vimeo.com"))
            || same(&h, &chars_of("player.vimeo.com")),
        None => false,
    }
}

pub open spec fn numeric(s: Seq<char>) -> bool {
    s.len() > 0 && all_digits(s)
}

/// The numeric video id: on `player.vimeo.com`, what follows `/video/` up to a `/` or
/// `?`; elsewhere the first path segment.
pub open spec fn vimeo_id(url: WebUrl) -> Option<Seq<char>> {
    if opt_view(url.host) == Some("player.vimeo.com"@) {
        if starts_with(url.path@, "/video/"@) {
            let id = before_any(url.path@.subrange(7, url.path@.len() as int), seq!['/', '?']);
            if numeric(id) {
                Some(id)
            } else {
                None
            }
        } else {
            None
        }
    } else {
        match path_segments(url.path@) {
            Some(segs) => if numeric(segs[0]) {
                Some(segs[0])
            } else {
                None
            },
            None => None,
        }
    }
}

fn is_numeric(v: &[char]) -> (r: bool)
    ensures
        r == numeric(v@),
{
    v.len() > 0 && crate::text::all_digits_of(v)
}

pub fn video_id(url: &WebUrl) -> (r: Option<String>)
    ensures
        opt_view(r) == vimeo_id(*url),
{
    let player = match host_chars(url) {
        Some(h) => same(&h, &chars_of("player.vimeo.com")),
        None => false,
    };
    if player {
        let p = chars_of(url.path.as_str());
        if !has_prefix(&p, &chars_of("/video/")) {
            return None;
        }
        proof {
            reveal_strlit("/video/");
        }
        let rest = slice_chars(&p, 7, p.len());
        let stops = ['/', '?'];
        assert(stops@ =~= seq!['/', '?']);
        let id = before_any_of(&rest, &stops);
        if is_numeric(&id) {
            Some(string_of(id.as_slice()))
        } else {
            None
        }
    } else {
        match segments(url) {
            Some(segs) => {
                assert(crate::text::views(segs@)[0] == segs@[0]@);
                if is_numeric(&segs[0]) {
                    Some(string_of(segs[0].as_slice()))
                } else {
                    None
                }
            },
            None => None,
        }
    }
}

/// The hash of an unlisted video: the `h` query value when not empty; else, after a
/// numeric first path segment, a second segment that is not empty and not all digits.
pub open spec fn vimeo_hash(url: WebUrl) -> Option<Seq<char>> {
    match first_value(query_pairs_of(url), "h"@) {
        Some(h) if h.len() > 0 => Some(h),
        _ => match path_segments(url.path@) {
            Some(segs) => if numeric(segs[0]) && segs.len() > 1 && segs[1].len() > 0 && !all_digits(
                segs[1],
            ) {
                Some(segs[1])
            } else {
                None
            },
            None => None,
        },
    }
}

pub fn unlisted_hash(url: &WebUrl) -> (r: Option<String>)
    ensures
        opt_view(r) == vimeo_hash(*url),
{
    if let Some(h) = query_value(url, "h") {
        if chars_of(h.as_str()).len() > 0 {
            return Some(h);
        }
    }
    match segments(url) {
        Some(segs) => {
            assert(crate::text::views(segs@)[0] == segs@[0]@);
            if !is_numeric(&segs[0]) || segs.len() < 2 {
                return None;
            }
            assert(crate::text::views(segs@)[1] == segs@[1]@);
            if segs[1].len() == 0 || is_numeric(&segs[1]) {
                return None;
            }
            Some(string_of(segs[1].as_slice()))
        },
        None => None,
    }
}

/// The hash in the embed URL after `marker`: skip the video id's digits, then take the
/// ASCII letters and digits after the next `h=`, when there are any.
pub open spec fn hash_after(html: Seq<char>, marker: Seq<char>) -> Option<Seq<char>> {
    match find(html, marker) {
        Some(pos) => {
            let after = html.subrange(pos + marker.len(), html.len() as int);
            let rest = after.subrange(digit_prefix(after).len() as int, after.len() as int);
            match find(rest, "h="@) {
                Some(hp) => {
                    let hash = alnum_prefix(rest.subrange(hp + 2, rest.len() as int));
                    if hash.len() > 0 {
                        Some(hash)
                    } else {
                        None
                    }
                },
                None => None,
            }
        },
        None => None,
    }
}

/// The embed markers, in the order they are tried.
pub open spec fn hash_markers() -> Seq<Seq<char>> {
    seq![
        "player.vimeo.com/video/"@,
        "og:video:secure_url\" content=\"https://player.vimeo.com/video/"@,
        "og:video:url\" content=\"https://player.vimeo.com/video/"@,
    ]
}

/// The first hash that a marker yields.
pub open spec fn player_hash(html: Seq<char>) -> Option<Seq<char>> {
    match hash_after(html, hash_markers()[0]) {
        Some(h) => Some(h),
        None => match hash_after(html, hash_markers()[1]) {
            Some(h) => Some(h),
            None => hash_after(html, hash_markers()[2]),
        },
    }
}

fn hash_after_marker(h: &Vec<char>, marker: &str) -> (r: Option<Vec<char>>)
    ensures
        match hash_after(h@, marker@) {
            Some(x) => r matches Some(v) && v@ == x,
            None => r is None,
        },
{
    let m = chars_of(marker);
    assert(h@.subrange(0, h@.len() as int) =~= h@);
    let pos = match find_in(h, 0, &m) {
        Some(p) => p,
        None => {
            return None;
        },
    };
    proof {
        crate::text::lemma_find_props(h@, m@);
        assert(h@.len() == h.len());
    }
    let after = slice_chars(h, pos + m.len(), h.len());
    let digits = digit_prefix_of(&after);
    proof {
        lemma_digit_prefix_len(after@);
    }
    let rest = slice_chars(&after, digits.len(), after.len());
    let hq = chars_of("h=");
    assert(rest@.subrange(0, rest@.len() as int) =~= rest@);
    let hp = match find_in(&rest, 0, &hq) {
        Some(p) => p,
        None => {
            return None;
        },
    };
    proof {
        crate::text::lemma_find_props(rest@, hq@);
        reveal_strlit("h=");
        assert(rest@.len() == rest.len());
    }
    let hash = alnum_prefix_of(&slice_chars(&rest, hp + 2, rest.len()));
    if hash.len() > 0 {
        Some(hash)
    } else {
        None
    }
}

proof fn lemma_digit_prefix_len(s: Seq<char>)
    ensures
        digit_prefix(s).len() <= s.len(),
    decreases s.len(),
{
    if s.len() > 0 && is_digit(s[0]) {
        lemma_digit_prefix_len(s.drop_first());
    }
}

/// The unlisted-video hash in an embed URL or `og:video` meta tag of the page.
pub fn player_hash_from_html(html: &str) -> (r: Option<String>)
    ensures
        opt_view(r) == player_hash(html@),
{
    let h = chars_of(html);
    match hash_after_marker(&h, "player.vimeo.com/video/") {
        Some(x) => {
            return Some(string_of(x.as_slice()));
        },
        None => {},
    }
    match hash_after_marker(&h, "og:video:secure_url\" content=\"https://player.vimeo.com/video/") {
        Some(x) => {
            return Some(string_of(x.as_slice()));
        },
        None => {},
    }
    match hash_after_marker(&h, "og:video:url\" content=\"https://player.vimeo.com/video/") {
        Some(x) => Some(string_of(x.as_slice())),
        None => None,
    }
}

/// The API URL of a video: `https://api.vimeo.com/videos/{id}`, with `:{hash}` for an
/// unlisted one.
pub open spec fn api_url(id: Seq<char>, hash: Option<Seq<char>>) -> Seq<char> {
    match hash {
        Some(h) => "https://api.vimeo.com/videos/"@ + id + ":"@ + h,
        None => "https://api.vimeo.com/videos/"@ + id,
    }
}

pub fn video_api_url(id: &str, hash: Option<&str>) -> (r: String)
    ensures
        r@ == api_url(id@, crate::extract::html::opt_str_view(hash)),
{
    let mut v = chars_of("https://api.vimeo.com/videos/");
    push_str(&mut v, id);
    match hash {
        Some(h) => {
            push_str(&mut v, ":");
            push_str(&mut v, h);
        },
        None => {},
    }
    string_of(v.as_slice())
}

/// How long a token lives when the API does not say.
pub fn default_token_ttl() -> (r: u64)
    ensures
        r == 3600,
{
    3600
}

/// A cached API token and the moment it expires, in milliseconds on the caller's
/// monotonic clock.
pub struct CachedToken {
    pub value: String,
    pub expires_at: u128,
}

/// The cached token, unless it expires within two minutes of `now`.
pub fn cached_value(cache: &Option<CachedToken>, now: u128) -> (r: Option<String>)
    requires
        now <= u64::MAX,
    ensures
        match cache {
            Some(c) => if c.expires_at > now + 120_000 {
                r matches Some(v) && v@ == c.value@
            } else {
                r is None
            },
            None => r is None,
        },
{
    match cache {
        Some(c) => if c.expires_at > now + 120_000 {
            Some(c.value.clone())
        } else {
            None
        },
        None => None,
    }
}

/// The token to cache from an answer that grants it for `expires_in` seconds: it is
/// kept a minute less than that.
pub fn token_to_cache(access_token: String, expires_in: u64, now: u128) -> (r: CachedToken)
    requires
        now <= u64::MAX,
    ensures
        r.value == access_token,
        r.expires_at == now + (if expires_in >= 60 { expires_in - 60 } else { 0 }) * 1000,
{
    let ttl: u64 = expires_in.saturating_sub(60);
    CachedToken { value: access_token, expires_at: now + (ttl as u128) * 1000 }
}

/// serde's reading of the OAuth answer: a string `access_token`, and `expires_in` as
/// `u64`, 3600 when missing (a trailing item in the array form).
pub open spec fn oauth_of(v: JsonValue) -> Option<(Seq<char>, u64)> {
    match v {
        JsonValue::Object(m) => match (
            crate::json_value::de_string(crate::json_value::member(m@, "access_token"@)),
            crate::json_value::member(m@, "expires_in"@),
        ) {
            (Some(t), None) => Some((t, 3600)),
            (Some(t), Some(JsonValue::Number(n))) => match n.as_u64 {
                Some(x) => Some((t, x)),
                None => None,
            },
            _ => None,
        },
        JsonValue::Array(a) => if a@.len() == 1 {
            match a@[0] {
                JsonValue::Str(t) => Some((t@, 3600)),
                _ => None,
            }
        } else if a@.len() == 2 {
            match (a@[0], a@[1]) {
                (JsonValue::Str(t), JsonValue::Number(n)) => match n.as_u64 {
                    Some(x) => Some((t@, x)),
                    None => None,
                },
                _ => None,
            }
        } else {
            None
        },
        _ => None,
    }
}

/// The token and its lifetime in seconds; an answer serde would refuse is an error.
pub fn oauth_from_json(v: &JsonValue) -> (r: Result<(String, u64), Error>)
    ensures
        match oauth_of(*v) {
            Some((t, x)) => r matches Ok((s, y)) && s@ == t && y == x,
            None => r matches Err(Error::InvalidUrl(_)),
        },
{
    let bad = Error::InvalidUrl(string_of(chars_of("malformed OAuth answer").as_slice()));
    match v {
        JsonValue::Object(_) => {
            let token = match crate::json_value::decode_string(v.get("access_token")) {
                Some(t) => t,
                None => {
                    return Err(bad);
                },
            };
            match v.get("expires_in") {
                None => Ok((token, default_token_ttl())),
                Some(JsonValue::Number(n)) => match n.as_u64 {
                    Some(x) => Ok((token, x)),
                    None => Err(bad),
                },
                Some(_) => Err(bad),
            }
        },
        JsonValue::Array(a) => {
            if a.len() == 0 || a.len() > 2 {
                return Err(bad);
            }
            let token = match &a[0] {
                JsonValue::Str(t) => t.clone(),
                _ => {
                    return Err(bad);
                },
            };
            if a.len() == 1 {
                return Ok((token, default_token_ttl()));
            }
            match &a[1] {
                JsonValue::Number(n) => match n.as_u64 {
                    Some(x) => Ok((token, x)),
                    None => Err(bad),
                },
                _ => Err(bad),
            }
        },
        _ => Err(bad),
    }
}

/// A file entry of the API answer.
pub struct VimeoFile {
    pub link: Option<String>,
    pub height: Option<u32>,
    pub rendition: Option<String>,
    pub quality: Option<String>,
    pub kind: Option<String>,
}

/// A file as plain values: link, height, rendition, quality, type.
pub type FileView = (Option<Seq<char>>, Option<u32>, Option<Seq<char>>, Option<Seq<char>>, Option<Seq<char>>);

impl View for VimeoFile {
    type V = FileView;

    open spec fn view(&self) -> FileView {
        (opt_view(self.link), self.height, opt_view(self.rendition), opt_view(self.quality), opt_view(self.kind))
    }
}

pub open spec fn file_views(f: Seq<VimeoFile>) -> Seq<FileView> {
    f.map_values(|x: VimeoFile| x@)
}

/// The `play` part of the answer.
pub struct VimeoPlay {
    pub progressive: Option<Vec<VimeoFile>>,
}

/// The API answer for a video.
pub struct VimeoVideo {
    pub files: Option<Vec<VimeoFile>>,
    pub play: Option<VimeoPlay>,
}

pub open spec fn opt_files(f: Option<Vec<VimeoFile>>) -> Option<Seq<FileView>> {
    match f {
        Some(v) => Some(file_views(v@)),
        None => None,
    }
}

/// The answer as plain values: its `files`, and its `play` with that part's `progressive`.
pub type VideoView = (Option<Seq<FileView>>, Option<Option<Seq<FileView>>>);

impl View for VimeoVideo {
    type V = VideoView;

    open spec fn view(&self) -> VideoView {
        (
            opt_files(self.files),
            match self.play {
                Some(p) => Some(opt_files(p.progressive)),
                None => None,
            },
        )
    }
}

/// serde's reading of a file: five optional fields (`type` is the kind).
pub open spec fn file_of(e: JsonValue) -> Option<FileView> {
    if !struct_shape(e, 5) {
        None
    } else {
        match (
            de_opt_string(field_at(e, "link"@, 0)),
            de_opt_u32(field_at(e, "height"@, 1)),
            de_opt_string(field_at(e, "rendition"@, 2)),
            de_opt_string(field_at(e, "quality"@, 3)),
            de_opt_string(field_at(e, "type"@, 4)),
        ) {
            (Some(l), Some(h), Some(r), Some(q), Some(k)) => Some((l, h, r, q, k)),
            _ => None,
        }
    }
}

/// serde's reading of an optional list of files (missing or null is none).
pub open spec fn files_of(v: Option<JsonValue>) -> Option<Option<Seq<FileView>>> {
    match v {
        None => Some(None),
        Some(JsonValue::Null) => Some(None),
        Some(JsonValue::Array(a)) => if forall|i: int| 0 <= i < a@.len() ==> file_of(#[trigger] a@[i]) is Some {
            Some(Some(a@.map_values(|x: JsonValue| file_of(x).unwrap())))
        } else {
            None
        },
        _ => None,
    }
}

/// serde's reading of the optional `play` part.
pub open spec fn play_of(v: Option<JsonValue>) -> Option<Option<Option<Seq<FileView>>>> {
    match v {
        None => Some(None),
        Some(JsonValue::Null) => Some(None),
        Some(p) => if struct_shape(p, 1) {
            match files_of(field_at(p, "progressive"@, 0)) {
                Some(f) => Some(Some(f)),
                None => None,
            }
        } else {
            None
        },
    }
}

/// serde's reading of the answer.
pub open spec fn video_of(v: JsonValue) -> Option<VideoView> {
    if !struct_shape(v, 2) {
        None
    } else {
        match (files_of(field_at(v, "files"@, 0)), play_of(field_at(v, "play"@, 1))) {
            (Some(f), Some(p)) => Some((f, p)),
            _ => None,
        }
    }
}

fn decode_file(e: &JsonValue) -> (r: Option<VimeoFile>)
    ensures
        match file_of(*e) {
            Some(f) => r matches Some(x) && x@ == f,
            None => r is None,
        },
{
    if !is_struct_shape(e, 5) {
        return None;
    }
    let link = decode_opt_string(struct_field(e, "link", 0));
    let height = decode_opt_u32(struct_field(e, "height", 1));
    let rendition = decode_opt_string(struct_field(e, "rendition", 2));
    let quality = decode_opt_string(struct_field(e, "quality", 3));
    let kind = decode_opt_string(struct_field(e, "type", 4));
    match (link, height, rendition, quality, kind) {
        (Some(l), Some(h), Some(r), Some(q), Some(k)) => Some(
            VimeoFile { link: l, height: h, rendition: r, quality: q, kind: k },
        ),
        _ => None,
    }
}

fn decode_files(v: Option<&JsonValue>) -> (r: Option<Option<Vec<VimeoFile>>>)
    ensures
        match files_of(opt_ref(v)) {
            Some(f) => r matches Some(x) && opt_files(x) == f,
            None => r is None,
        },
{
    let items = match v {
        None => {
            return Some(None);
        },
        Some(JsonValue::Null) => {
            return Some(None);
        },
        Some(JsonValue::Array(a)) => a,
        Some(_) => {
            return None;
        },
    };
    let mut out: Vec<VimeoFile> = Vec::new();
    let mut i: usize = 0;
    while i < items.len()
        invariant
            i <= items@.len(),
            opt_ref(v) == Some(JsonValue::Array(*items)),
            out@.len() == i,
            forall|j: int| 0 <= j < i ==> file_of(#[trigger] items@[j]) == Some(out@[j]@),
        decreases items@.len() - i,
    {
        match decode_file(&items[i]) {
            Some(f) => {
                out.push(f);
            },
            None => {
                assert(file_of(items@[i as int]) is None);
                return None;
            },
        }
        i = i + 1;
    }
    assert(file_views(out@) =~= items@.map_values(|x: JsonValue| file_of(x).unwrap()));
    Some(Some(out))
}

/// The API answer, as serde reads it; an answer it would refuse is an error.
pub fn video_from_json(v: &JsonValue) -> (r: Result<VimeoVideo, Error>)
    ensures
        match video_of(*v) {
            Some(x) => r matches Ok(y) && y@ == x,
            None => r matches Err(Error::InvalidUrl(_)),
        },
{
    let bad = Error::InvalidUrl(string_of(chars_of("malformed Vimeo video answer").as_slice()));
    if !is_struct_shape(v, 2) {
        return Err(bad);
    }
    let files = match decode_files(struct_field(v, "files", 0)) {
        Some(f) => f,
        None => {
            return Err(bad);
        },
    };
    let play = match struct_field(v, "play", 1) {
        None => None,
        Some(JsonValue::Null) => None,
        Some(p) => {
            if !is_struct_shape(p, 1) {
                return Err(bad);
            }
            match decode_files(struct_field(p, "progressive", 0)) {
                Some(f) => Some(VimeoPlay { progressive: f }),
                None => {
                    return Err(bad);
                },
            }
        },
    };
    Ok(VimeoVideo { files, play })
}

/// `str::trim_end_matches('p').parse::<u32>()`.
pub open spec fn rendition_height_of(r: Seq<char>) -> Option<u32> {
    match parse_uint(strip_end_in(r, seq!['p']), u32::MAX as nat) {
        Some(n) => Some(n as u32),
        None => None,
    }
}

pub fn rendition_height(rendition: &str) -> (r: Option<u32>)
    ensures
        r == rendition_height_of(rendition@),
{
    let v = chars_of(rendition);
    let p = ['p'];
    assert(p@ =~= seq!['p']);
    let n = strip_end_len(&v, &p);
    parse_u32(&slice_chars(&v, 0, n))
}

/// What a file gives: nothing without a link, for an `hls` quality whose link is not a
/// playlist, for a non-playlist that is neither `video/mp4` nor a rendition, or without
/// a height (its own, else its rendition's); else its link, whether it is HLS (the link
/// has `.m3u8`), and its height.
pub open spec fn file_entry(f: FileView) -> Option<(Seq<char>, bool, u32)> {
    match f.0 {
        Some(link) => if link.len() == 0 {
            None
        } else if f.3 == Some("hls"@) && !contains_seq(link, ".m3u8"@) {
            None
        } else {
            let hls = contains_seq(link, ".m3u8"@);
            if !hls && f.4 != Some("video/mp4"@) && f.2 is None {
                None
            } else {
                let h: u32 = match f.1 {
                    Some(h) => h,
                    None => match f.2 {
                        Some(r) => match rendition_height_of(r) {
                            Some(x) => x,
                            None => 0,
                        },
                        None => 0,
                    },
                };
                if h == 0 {
                    None
                } else {
                    Some((link, hls, h))
                }
            }
        },
        None => None,
    }
}

fn entry_of_file(f: &VimeoFile) -> (r: Option<(String, bool, u32)>)
    ensures
        match file_entry(f@) {
            Some(e) => r matches Some(x) && x.0@ == e.0 && x.1 == e.1 && x.2 == e.2,
            None => r is None,
        },
{
    let link = match &f.link {
        Some(l) => l,
        None => {
            return None;
        },
    };
    let lv = chars_of(link.as_str());
    if lv.len() == 0 {
        return None;
    }
    let hls = contains(&lv, &chars_of(".m3u8"));
    let is_hls_quality = match &f.quality {
        Some(q) => same(&chars_of(q.as_str()), &chars_of("hls")),
        None => false,
    };
    if is_hls_quality && !hls {
        return None;
    }
    let is_mp4 = match &f.kind {
        Some(k) => same(&chars_of(k.as_str()), &chars_of("video/mp4")),
        None => false,
    };
    if !hls && !is_mp4 && f.rendition.is_none() {
        return None;
    }
    let h: u32 = match f.height {
        Some(h) => h,
        None => match &f.rendition {
            Some(r) => match rendition_height(r.as_str()) {
                Some(x) => x,
                None => 0,
            },
            None => 0,
        },
    };
    if h == 0 {
        return None;
    }
    Some((link.clone(), hls, h))
}

/// The files of an answer, in order: its `files`, then `play.progressive`.
pub open spec fn video_files(v: VideoView) -> Seq<FileView> {
    let files = match v.0 {
        Some(f) => f,
        None => Seq::empty(),
    };
    let progressive = match v.1 {
        Some(Some(p)) => p,
        _ => Seq::empty(),
    };
    files + progressive
}

/// The entries that the files give, in order.
pub open spec fn file_entries(fs: Seq<FileView>) -> Seq<(Seq<char>, bool, u32)>
    decreases fs.len(),
{
    if fs.len() == 0 {
        Seq::empty()
    } else {
        let prev = file_entries(fs.drop_last());
        match file_entry(fs.last()) {
            Some(e) => prev.push(e),
            None => prev,
        }
    }
}

pub proof fn lemma_file_entries_grow(fs: Seq<FileView>, n: nat, m: nat)
    requires
        n <= m <= fs.len(),
    ensures
        file_entries(fs.subrange(0, n as int)).len() <= file_entries(fs.subrange(0, m as int)).len(),
        forall|j: int|
            0 <= j < file_entries(fs.subrange(0, n as int)).len() ==> #[trigger] file_entries(
                fs.subrange(0, m as int),
            )[j] == file_entries(fs.subrange(0, n as int))[j],
    decreases m - n,
{
    if n < m {
        lemma_file_entries_grow(fs, n, (m - 1) as nat);
        assert(fs.subrange(0, m as int).drop_last() =~= fs.subrange(0, m - 1));
    }
}

/// `es[k]` is the first entry of its height.
pub open spec fn first_of_height(es: Seq<(Seq<char>, bool, u32)>, k: int) -> bool {
    0 <= k < es.len() && forall|j: int| 0 <= j < k ==> (#[trigger] es[j]).2 != es[k].2
}

/// The heights of `v` rise strictly.
pub open spec fn rising_heights(v: Seq<Stream>) -> bool {
    forall|i: int, j: int| 0 <= i < j < v.len() ==> height_of(#[trigger] v[i]) < height_of(#[trigger] v[j])
}

/// `s` is made from the first entry of its height.
pub open spec fn from_first(es: Seq<(Seq<char>, bool, u32)>, s: Stream) -> bool {
    exists|k: int|
        first_of_height(es, k) && is_video_stream(
            s,
            url_parse(es[k].0).unwrap(),
            es[k].2 as nat,
            es[k].1,
            Some(REFERER),
        )
}

/// Each stream of `v` is made from the first entry of its height.
pub open spec fn made_from_firsts(es: Seq<(Seq<char>, bool, u32)>, v: Seq<Stream>) -> bool {
    forall|i: int| 0 <= i < v.len() ==> from_first(es, #[trigger] v[i])
}

/// Some stream of `v` has height `h`.
pub open spec fn has_height(v: Seq<Stream>, h: u32) -> bool {
    exists|i: int| 0 <= i < v.len() && height_of(#[trigger] v[i]) == h
}

/// Every entry's height is the height of a stream of `v`.
pub open spec fn covers_heights(es: Seq<(Seq<char>, bool, u32)>, v: Seq<Stream>) -> bool {
    forall|k: int| 0 <= k < es.len() ==> has_height(v, #[trigger] es[k].2)
}

/// `v` holds one stream per height of the entries, lowest first, each made from the
/// first entry of that height.
pub open spec fn lowest_first(es: Seq<(Seq<char>, bool, u32)>, v: Seq<Stream>) -> bool {
    rising_heights(v) && made_from_firsts(es, v) && covers_heights(es, v)
}

/// The streams of an answer: a link that does not parse is an error; no entries is no
/// streams; else one stream per height, lowest first, the first file of each height.
pub open spec fn video_streams(v: VideoView, r: Result<Vec<Stream>, Error>) -> bool {
    let es = file_entries(video_files(v));
    if exists|i: int| 0 <= i < es.len() && url_parse(#[trigger] es[i].0) is None {
        r matches Err(Error::InvalidUrl(_))
    } else if es.len() == 0 {
        r == Err::<Vec<Stream>, Error>(Error::NoStreamsFound)
    } else {
        r matches Ok(s) && lowest_first(es, s@)
    }
}

/// The streams of the entries in order: a link that does not parse is an error.
pub open spec fn entry_streams(es: Seq<(Seq<char>, bool, u32)>, r: Result<Vec<Stream>, Error>) -> bool {
    if exists|i: int| 0 <= i < es.len() && url_parse(#[trigger] es[i].0) is None {
        r matches Err(Error::InvalidUrl(_))
    } else {
        r matches Ok(v) && v@.len() == es.len() && forall|i: int|
            0 <= i < es.len() ==> is_video_stream(
                #[trigger] v@[i],
                url_parse(es[i].0).unwrap(),
                es[i].2 as nat,
                es[i].1,
                Some(REFERER),
            )
    }
}

fn all_files(video: &VimeoVideo) -> (r: Vec<&VimeoFile>)
    ensures
        r@.map_values(|x: &VimeoFile| x@) == video_files(video@),
{
    let mut out: Vec<&VimeoFile> = Vec::new();
    if let Some(files) = &video.files {
        let mut i: usize = 0;
        while i < files.len()
            invariant
                i <= files@.len(),
                out@.map_values(|x: &VimeoFile| x@) == file_views(files@.subrange(0, i as int)),
            decreases files@.len() - i,
        {
            let ghost before = out@.map_values(|x: &VimeoFile| x@);
            out.push(&files[i]);
            assert(out@.map_values(|x: &VimeoFile| x@) =~= before.push(files@[i as int]@));
            assert(file_views(files@.subrange(0, i + 1)) =~= file_views(files@.subrange(0, i as int)).push(files@[i as int]@));
            i = i + 1;
        }
        assert(files@.subrange(0, files@.len() as int) =~= files@);
    }
    let ghost first = out@.map_values(|x: &VimeoFile| x@);
    assert(first =~= match video@.0 {
        Some(f) => f,
        None => Seq::<FileView>::empty(),
    });
    if let Some(play) = &video.play {
        if let Some(progressive) = &play.progressive {
            let mut i: usize = 0;
            while i < progressive.len()
                invariant
                    i <= progressive@.len(),
                    out@.map_values(|x: &VimeoFile| x@) == first + file_views(progressive@.subrange(0, i as int)),
                decreases progressive@.len() - i,
            {
                let ghost before = out@.map_values(|x: &VimeoFile| x@);
                out.push(&progressive[i]);
                assert(out@.map_values(|x: &VimeoFile| x@) =~= before.push(progressive@[i as int]@));
                assert(file_views(progressive@.subrange(0, i + 1)) =~= file_views(progressive@.subrange(0, i as int)).push(progressive@[i as int]@));
                i = i + 1;
                assert(out@.map_values(|x: &VimeoFile| x@) =~= first + file_views(progressive@.subrange(0, i as int)));
            }
            assert(progressive@.subrange(0, progressive@.len() as int) =~= progressive@);
        }
    }
    assert(out@.map_values(|x: &VimeoFile| x@) =~= video_files(video@));
    out
}

fn streams_of_files(files: &Vec<&VimeoFile>) -> (r: Result<Vec<Stream>, Error>)
    ensures
        entry_streams(file_entries(files@.map_values(|x: &VimeoFile| x@)), r),
{
    let ghost fs = files@.map_values(|x: &VimeoFile| x@);
    let mut streams: Vec<Stream> = Vec::new();
    let mut i: usize = 0;
    while i < files.len()
        invariant
            i <= files@.len(),
            fs == files@.map_values(|x: &VimeoFile| x@),
            forall|j: int| 0 <= j < file_entries(fs.subrange(0, i as int)).len() ==> url_parse(#[trigger] file_entries(fs.subrange(0, i as int))[j].0) is Some,
            streams@.len() == file_entries(fs.subrange(0, i as int)).len(),
            forall|j: int|
                0 <= j < streams@.len() ==> is_video_stream(
                    #[trigger] streams@[j],
                    url_parse(file_entries(fs.subrange(0, i as int))[j].0).unwrap(),
                    file_entries(fs.subrange(0, i as int))[j].2 as nat,
                    file_entries(fs.subrange(0, i as int))[j].1,
                    Some(REFERER),
                ),
        decreases files@.len() - i,
    {
        assert(fs.subrange(0, i + 1).drop_last() =~= fs.subrange(0, i as int));
        assert(fs.subrange(0, i + 1).last() == files@[i as int]@);
        if let Some((link, hls, h)) = entry_of_file(files[i]) {
            match parse_web_url(link.as_str()) {
                Ok(u) => {
                    let ghost old = streams@;
                    streams.push(video_stream(u, h, hls, Some(REFERER)));
                    assert(forall|j: int| 0 <= j < old.len() ==> streams@[j] == old[j]);
                },
                Err(e) => {
                    proof {
                        lemma_file_entries_grow(fs, (i + 1) as nat, fs.len());
                        let es = file_entries(fs);
                        assert(fs.subrange(0, fs.len() as int) =~= fs);
                        let k = file_entries(fs.subrange(0, i as int)).len() as int;
                        assert(url_parse(es[k].0) is None);
                    }
                    return Err(Error::InvalidUrl(e));
                },
            }
        }
        i = i + 1;
    }
    assert(fs.subrange(0, fs.len() as int) =~= fs);
    Ok(streams)
}

/// The first position in `v` (ascending by height) whose height is at least `h`.
fn lower_bound(v: &Vec<Stream>, h: u32) -> (p: usize)
    requires
        forall|i: int, j: int| 0 <= i < j < v@.len() ==> height_of(#[trigger] v@[i]) < height_of(#[trigger] v@[j]),
    ensures
        p <= v@.len(),
        forall|i: int| 0 <= i < p ==> height_of(#[trigger] v@[i]) < h,
        forall|i: int| p <= i < v@.len() ==> height_of(#[trigger] v@[i]) >= h,
{
    let mut p: usize = 0;
    while p < v.len()
        invariant_except_break
            p <= v@.len(),
            forall|i: int| 0 <= i < p ==> height_of(#[trigger] v@[i]) < h,
        ensures
            p <= v@.len(),
            forall|i: int| 0 <= i < p ==> height_of(#[trigger] v@[i]) < h,
            p < v@.len() ==> height_of(v@[p as int]) >= h,
        decreases v@.len() - p,
    {
        if height_hint(&v[p]) >= h {
            break;
        }
        p = p + 1;
    }
    assert forall|i: int| p <= i < v@.len() implies height_of(#[trigger] v@[i]) >= h by {
        if i > p {
            assert(height_of(v@[p as int]) < height_of(v@[i]));
        }
    }
    p
}

/// One stream per height, lowest first, keeping the first stream of each height (a
/// stable sort by height followed by dropping repeated heights).
fn lowest_first_streams(all: Vec<Stream>, Ghost(es): Ghost<Seq<(Seq<char>, bool, u32)>>) -> (r: Vec<Stream>)
    requires
        all@.len() == es.len(),
        forall|i: int|
            0 <= i < es.len() ==> is_video_stream(
                #[trigger] all@[i],
                url_parse(es[i].0).unwrap(),
                es[i].2 as nat,
                es[i].1,
                Some(REFERER),
            ),
    ensures
        lowest_first(es, r@),
{
    let mut out: Vec<Stream> = Vec::new();
    let ghost mut src: Seq<int> = Seq::empty();
    let mut k: usize = 0;
    while k < all.len()
        invariant
            k <= all@.len(),
            all@.len() == es.len(),
            forall|i: int|
                0 <= i < es.len() ==> is_video_stream(
                    #[trigger] all@[i],
                    url_parse(es[i].0).unwrap(),
                    es[i].2 as nat,
                    es[i].1,
                    Some(REFERER),
                ),
            src.len() == out@.len(),
            forall|i: int, j: int| 0 <= i < j < out@.len() ==> height_of(#[trigger] out@[i]) < height_of(#[trigger] out@[j]),
            forall|i: int| 0 <= i < out@.len() ==> 0 <= #[trigger] src[i] < k && first_of_height(es, src[i]) && out@[i] == all@[src[i]],
            forall|j: int| 0 <= j < k ==> has_height(out@, #[trigger] es[j].2),
        decreases all@.len() - k,
    {
        proof {
            lemma_video_stream_height(all@[k as int], url_parse(es[k as int].0).unwrap(), es[k as int].2, es[k as int].1, Some(REFERER));
        }
        let h = height_hint(&all[k]);
        let p = lower_bound(&out, h);
        if p < out.len() && height_hint(&out[p]) == h {
            assert(height_of(out@[p as int]) == es[k as int].2);
            assert(has_height(out@, es[k as int].2));
        } else {
            proof {
                assert forall|j: int| 0 <= j < k implies (#[trigger] es[j]).2 != es[k as int].2 by {
                    assert(has_height(out@, es[j].2));
                    let i = choose|i: int| 0 <= i < out@.len() && height_of(#[trigger] out@[i]) == es[j].2;
                    if i < p {
                        assert(height_of(out@[i]) < h);
                    } else {
                        assert(height_of(out@[i]) >= h);
                        if i > p {
                            assert(height_of(out@[p as int]) < height_of(out@[i]));
                        }
                    }
                }
                assert(first_of_height(es, k as int));
            }
            let ghost old_out = out@;
            let ghost old_src = src;
            out.insert(p, all[k].copy_of());
            proof {
                src = old_src.insert(p as int, k as int);
                assert forall|i: int, j: int| 0 <= i < j < out@.len() implies height_of(#[trigger] out@[i]) < height_of(#[trigger] out@[j]) by {
                    if j < p {
                        assert(out@[i] == old_out[i] && out@[j] == old_out[j]);
                    } else if j == p {
                        assert(out@[i] == old_out[i]);
                    } else if i < p {
                        assert(out@[i] == old_out[i] && out@[j] == old_out[j - 1]);
                    } else if i == p {
                        assert(out@[j] == old_out[j - 1]);
                    } else {
                        assert(out@[i] == old_out[i - 1] && out@[j] == old_out[j - 1]);
                    }
                }
                assert forall|i: int| 0 <= i < out@.len() implies 0 <= #[trigger] src[i] < k + 1 && first_of_height(es, src[i]) && out@[i] == all@[src[i]] by {
                    if i < p {
                        assert(src[i] == old_src[i]);
                    } else if i > p {
                        assert(src[i] == old_src[i - 1]);
                    }
                }
                assert forall|j: int| 0 <= j < k + 1 implies has_height(out@, #[trigger] es[j].2) by {
                    if j == k {
                        assert(height_of(out@[p as int]) == es[j].2);
                    } else {
                        assert(has_height(old_out, es[j].2));
                        let i = choose|i: int| 0 <= i < old_out.len() && height_of(#[trigger] old_out[i]) == es[j].2;
                        if i < p {
                            assert(out@[i] == old_out[i]);
                        } else {
                            assert(out@[i + 1] == old_out[i]);
                        }
                    }
                }
            }
        }
        k = k + 1;
    }
    proof {
        assert(rising_heights(out@));
        assert(made_from_firsts(es, out@)) by {
            assert forall|i: int| 0 <= i < out@.len() implies from_first(es, #[trigger] out@[i]) by {
                let k = src[i];
                assert(is_video_stream(all@[k], url_parse(es[k].0).unwrap(), es[k].2 as nat, es[k].1, Some(REFERER)));
            }
        }
        assert(covers_heights(es, out@)) by {
            assert forall|j: int| 0 <= j < es.len() implies has_height(out@, #[trigger] es[j].2) by {
                assert(j < k);
            }
        }
    }
    out
}

/// The streams of an API answer: one per height, lowest first.
pub fn streams_from_video(video: &VimeoVideo) -> (r: Result<Vec<Stream>, Error>)
    ensures
        video_streams(video@, r),
{
    let files = all_files(video);
    let ghost es = file_entries(video_files(video@));
    let all = match streams_of_files(&files) {
        Ok(s) => s,
        Err(e) => {
            return Err(e);
        },
    };
    if all.len() == 0 {
        return Err(Error::NoStreamsFound);
    }
    Ok(lowest_first_streams(all, Ghost(es)))
}

/// A stream served by Vimeo, whose signed URLs are fetched anew before download.
pub open spec fn on_vimeo(s: Stream) -> bool {
    opt_view(s.url.host) matches Some(h) && contains_seq(h, "vimeo"@)
}

pub fn needs_refresh(stream: &Stream) -> (r: bool)
    ensures
        r == on_vimeo(*stream),
{
    match host_chars(&stream.url) {
        Some(h) => contains(&h, &chars_of("vimeo")),
        None => false,
    }
}

} // verus!
