//! The player API's answer, and the choice of streams among its formats.

use vstd::prelude::*;
use crate::error::Error;
use crate::extract::{wants_kind, ExtractOptions};
use crate::json_value::{
    de_opt_string, de_opt_u32, decode_opt_string, decode_opt_u32, field_at, is_struct_shape,
    opt_ref, struct_field, struct_shape, JsonValue,
};
use crate::model::{MediaKind, MuxPart, Stream};
use crate::quality::{picked_heights, Quality};
use crate::text::{chars_of, contains, contains_seq, dec, has_prefix, push_dec, starts_with, string_of};
use crate::weburl::{opt_view, parse_web_url, url_parse, UrlView, WebUrl};

verus! {

/// One format of the answer.
pub struct Format {
    pub url: Option<String>,
    pub mime_type: Option<String>,
    pub quality_label: Option<String>,
    pub itag: Option<u32>,
    pub height: Option<u32>,
    pub bitrate: Option<u32>,
    pub audio_channels: Option<u32>,
}

/// A format as plain values: URL, MIME type, quality label, itag, height, bitrate,
/// audio channels.
pub type FormatView = (
    Option<Seq<char>>,
    Option<Seq<char>>,
    Option<Seq<char>>,
    Option<u32>,
    Option<u32>,
    Option<u32>,
    Option<u32>,
);

impl View for Format {
    type V = FormatView;

    open spec fn view(&self) -> FormatView {
        (
            opt_view(self.url),
            opt_view(self.mime_type),
            opt_view(self.quality_label),
            self.itag,
            self.height,
            self.bitrate,
            self.audio_channels,
        )
    }
}

pub open spec fn fviews(f: Seq<&Format>) -> Seq<FormatView> {
    f.map_values(|x: &Format| x@)
}

pub open spec fn format_views(f: Seq<Format>) -> Seq<FormatView> {
    f.map_values(|x: Format| x@)
}

/// Whether the video is playable, and why not.
pub struct Playability {
    pub status: Option<String>,
    pub reason: Option<String>,
}

/// The formats of the answer.
pub struct StreamingData {
    pub formats: Option<Vec<Format>>,
    pub adaptive_formats: Option<Vec<Format>>,
}

/// The player API's answer.
pub struct PlayerResponse {
    pub playability: Playability,
    pub streaming_data: Option<StreamingData>,
}

pub open spec fn opt_formats(f: Option<Vec<Format>>) -> Option<Seq<FormatView>> {
    match f {
        Some(v) => Some(format_views(v@)),
        None => None,
    }
}

/// The streaming data as plain values: its formats and its adaptive formats.
pub type DataView = (Option<Seq<FormatView>>, Option<Seq<FormatView>>);

impl View for StreamingData {
    type V = DataView;

    open spec fn view(&self) -> DataView {
        (opt_formats(self.formats), opt_formats(self.adaptive_formats))
    }
}

/// serde's reading of a format: seven optional fields.
pub open spec fn format_of(e: JsonValue) -> Option<FormatView> {
    if !struct_shape(e, 7) {
        None
    } else {
        match (
            de_opt_string(field_at(e, "url"@, 0)),
            de_opt_string(field_at(e, "mimeType"@, 1)),
            de_opt_string(field_at(e, "qualityLabel"@, 2)),
            de_opt_u32(field_at(e, "itag"@, 3)),
            de_opt_u32(field_at(e, "height"@, 4)),
            de_opt_u32(field_at(e, "bitrate"@, 5)),
            de_opt_u32(field_at(e, "audioChannels"@, 6)),
        ) {
            (Some(a), Some(b), Some(c), Some(d), Some(h), Some(br), Some(ch)) => Some(
                (a, b, c, d, h, br, ch),
            ),
            _ => None,
        }
    }
}

/// serde's reading of an optional list of formats.
pub open spec fn formats_of(v: Option<JsonValue>) -> Option<Option<Seq<FormatView>>> {
    match v {
        None => Some(None),
        Some(JsonValue::Null) => Some(None),
        Some(JsonValue::Array(a)) => if forall|i: int| 0 <= i < a@.len() ==> format_of(#[trigger] a@[i]) is Some {
            Some(Some(a@.map_values(|x: JsonValue| format_of(x).unwrap())))
        } else {
            None
        },
        _ => None,
    }
}

/// serde's reading of the optional streaming data.
pub open spec fn data_of(v: Option<JsonValue>) -> Option<Option<DataView>> {
    match v {
        None => Some(None),
        Some(JsonValue::Null) => Some(None),
        Some(d) => if struct_shape(d, 2) {
            match (formats_of(field_at(d, "formats"@, 0)), formats_of(field_at(d, "adaptiveFormats"@, 1))) {
                (Some(a), Some(b)) => Some(Some((a, b))),
                _ => None,
            }
        } else {
            None
        },
    }
}

/// serde's reading of the playability status (required).
pub open spec fn playability_of(v: Option<JsonValue>) -> Option<(Option<Seq<char>>, Option<Seq<char>>)> {
    match v {
        Some(p) => if struct_shape(p, 2) {
            match (de_opt_string(field_at(p, "status"@, 0)), de_opt_string(field_at(p, "reason"@, 1))) {
                (Some(s), Some(r)) => Some((s, r)),
                _ => None,
            }
        } else {
            None
        },
        None => None,
    }
}

/// serde's reading of the answer.
pub open spec fn response_of(v: JsonValue) -> Option<((Option<Seq<char>>, Option<Seq<char>>), Option<DataView>)> {
    if !struct_shape(v, 2) {
        None
    } else {
        match (playability_of(field_at(v, "playabilityStatus"@, 0)), data_of(field_at(v, "streamingData"@, 1))) {
            (Some(p), Some(d)) => Some((p, d)),
            _ => None,
        }
    }
}

pub open spec fn response_view(r: PlayerResponse) -> ((Option<Seq<char>>, Option<Seq<char>>), Option<DataView>) {
    (
        (opt_view(r.playability.status), opt_view(r.playability.reason)),
        match r.streaming_data {
            Some(d) => Some(d@),
            None => None,
        },
    )
}

fn decode_format(e: &JsonValue) -> (r: Option<Format>)
    ensures
        match format_of(*e) {
            Some(f) => r matches Some(x) && x@ == f,
            None => r is None,
        },
{
    if !is_struct_shape(e, 7) {
        return None;
    }
    let a = decode_opt_string(struct_field(e, "url", 0));
    let b = decode_opt_string(struct_field(e, "mimeType", 1));
    let c = decode_opt_string(struct_field(e, "qualityLabel", 2));
    let d = decode_opt_u32(struct_field(e, "itag", 3));
    let h = decode_opt_u32(struct_field(e, "height", 4));
    let br = decode_opt_u32(struct_field(e, "bitrate", 5));
    let ch = decode_opt_u32(struct_field(e, "audioChannels", 6));
    match (a, b, c, d, h, br, ch) {
        (Some(a), Some(b), Some(c), Some(d), Some(h), Some(br), Some(ch)) => Some(
            Format {
                url: a,
                mime_type: b,
                quality_label: c,
                itag: d,
                height: h,
                bitrate: br,
                audio_channels: ch,
            },
        ),
        _ => None,
    }
}

fn decode_formats(v: Option<&JsonValue>) -> (r: Option<Option<Vec<Format>>>)
    ensures
        match formats_of(opt_ref(v)) {
            Some(f) => r matches Some(x) && opt_formats(x) == f,
            None => r is None,
        },
{
    let items = match v {
        None => {
            return Some(None);
        },
        Some(JsonValue::Null) => {
            return Some(None);
        },
        Some(JsonValue::Array(a)) => a,
        Some(_) => {
            return None;
        },
    };
    let mut out: Vec<Format> = Vec::new();
    let mut i: usize = 0;
    while i < items.len()
        invariant
            i <= items@.len(),
            opt_ref(v) == Some(JsonValue::Array(*items)),
            out@.len() == i,
            forall|j: int| 0 <= j < i ==> format_of(#[trigger] items@[j]) == Some(out@[j]@),
        decreases items@.len() - i,
    {
        match decode_format(&items[i]) {
            Some(f) => {
                out.push(f);
            },
            None => {
                assert(format_of(items@[i as int]) is None);
                return None;
            },
        }
        i = i + 1;
    }
    assert(format_views(out@) =~= items@.map_values(|x: JsonValue| format_of(x).unwrap()));
    Some(Some(out))
}

/// The player API's answer, as serde reads it; one it would refuse is an HTTP error (the
/// body could not be read as the answer).
pub fn response_from_json(v: &JsonValue) -> (r: Result<PlayerResponse, Error>)
    ensures
        match response_of(*v) {
            Some(x) => r matches Ok(p) && response_view(p) == x,
            None => r matches Err(Error::Http(_)),
        },
{
    let bad = Error::Http(string_of(chars_of("malformed player answer").as_slice()));
    if !is_struct_shape(v, 2) {
        return Err(bad);
    }
    let playability = match struct_field(v, "playabilityStatus", 0) {
        Some(p) => {
            if !is_struct_shape(p, 2) {
                return Err(bad);
            }
            let s = decode_opt_string(struct_field(p, "status", 0));
            let r = decode_opt_string(struct_field(p, "reason", 1));
            match (s, r) {
                (Some(s), Some(r)) => Playability { status: s, reason: r },
                _ => {
                    return Err(bad);
                },
            }
        },
        None => {
            return Err(bad);
        },
    };
    let streaming_data = match struct_field(v, "streamingData", 1) {
        None => None,
        Some(JsonValue::Null) => None,
        Some(d) => {
            if !is_struct_shape(d, 2) {
                return Err(bad);
            }
            let a = decode_formats(struct_field(d, "formats", 0));
            let b = decode_formats(struct_field(d, "adaptiveFormats", 1));
            match (a, b) {
                (Some(a), Some(b)) => Some(StreamingData { formats: a, adaptive_formats: b }),
                _ => {
                    return Err(bad);
                },
            }
        },
    };
    Ok(PlayerResponse { playability, streaming_data })
}

/// A playable answer has status `OK`; otherwise its reason (else "video unavailable")
/// is the error.
pub fn check_playability(p: &Playability) -> (r: Result<(), Error>)
    ensures
        if opt_view(p.status) == Some("OK"@) {
            r is Ok
        } else {
            r matches Err(Error::InvalidUrl(m)) && m@ == match opt_view(p.reason) {
                Some(x) => x,
                None => "video unavailable"@,
            }
        },
{
    let ok = match &p.status {
        Some(s) => crate::text::same(&chars_of(s.as_str()), &chars_of("OK")),
        None => false,
    };
    if ok {
        return Ok(());
    }
    match &p.reason {
        Some(x) => Err(Error::InvalidUrl(x.clone())),
        None => Err(Error::InvalidUrl(string_of(chars_of("video unavailable").as_slice()))),
    }
}

/// All formats of the streaming data: the formats, then the adaptive formats.
pub open spec fn all_of(sd: DataView) -> Seq<FormatView> {
    (match sd.0 {
        Some(f) => f,
        None => Seq::empty(),
    }) + (match sd.1 {
        Some(f) => f,
        None => Seq::empty(),
    })
}

fn all_formats(sd: &StreamingData) -> (r: Vec<&Format>)
    ensures
        fviews(r@) == all_of(sd@),
{
    let mut out: Vec<&Format> = Vec::new();
    if let Some(fs) = &sd.formats {
        let mut i: usize = 0;
        while i < fs.len()
            invariant
                i <= fs@.len(),
                fviews(out@) == format_views(fs@.subrange(0, i as int)),
            decreases fs@.len() - i,
        {
            let ghost before = fviews(out@);
            out.push(&fs[i]);
            assert(fviews(out@) =~= before.push(fs@[i as int]@));
            assert(format_views(fs@.subrange(0, i + 1)) =~= format_views(fs@.subrange(0, i as int)).push(fs@[i as int]@));
            i = i + 1;
        }
        assert(fs@.subrange(0, fs@.len() as int) =~= fs@);
    }
    let ghost first = fviews(out@);
    if let Some(fs) = &sd.adaptive_formats {
        let mut i: usize = 0;
        while i < fs.len()
            invariant
                i <= fs@.len(),
                fviews(out@) == first + format_views(fs@.subrange(0, i as int)),
            decreases fs@.len() - i,
        {
            let ghost before = fviews(out@);
            out.push(&fs[i]);
            assert(fviews(out@) =~= before.push(fs@[i as int]@));
            assert(format_views(fs@.subrange(0, i + 1)) =~= format_views(fs@.subrange(0, i as int)).push(fs@[i as int]@));
            i = i + 1;
        }
        assert(fs@.subrange(0, fs@.len() as int) =~= fs@);
    }
    assert(fviews(out@) =~= all_of(sd@));
    out
}

/// A video format with audio: a `video/` MIME type that names `mp4a` or has audio
/// channels.
pub open spec fn muxed(f: FormatView) -> bool {
    f.1 matches Some(m) && starts_with(m, "video/"@) && (contains_seq(m, "mp4a"@) || f.6 is Some)
}

/// A video format without audio.
pub open spec fn video_only(f: FormatView) -> bool {
    f.1 matches Some(m) && starts_with(m, "video/"@) && !contains_seq(m, "mp4a"@) && f.6 is None
}

/// An audio format.
pub open spec fn audio_format(f: FormatView) -> bool {
    f.1 matches Some(m) && starts_with(m, "audio/"@)
}

fn mime_starts(f: &Format, p: &str) -> (r: bool)
    ensures
        r == (opt_view(f.mime_type) matches Some(m) && starts_with(m, p@)),
{
    match &f.mime_type {
        Some(m) => has_prefix(&chars_of(m.as_str()), &chars_of(p)),
        None => false,
    }
}

fn mime_has(f: &Format, p: &str) -> (r: bool)
    ensures
        r == (opt_view(f.mime_type) matches Some(m) && contains_seq(m, p@)),
{
    match &f.mime_type {
        Some(m) => contains(&chars_of(m.as_str()), &chars_of(p)),
        None => false,
    }
}

fn is_muxed(f: &Format) -> (r: bool)
    ensures
        r == muxed(f@),
{
    mime_starts(f, "video/") && (mime_has(f, "mp4a") || f.audio_channels.is_some())
}

fn is_video_only(f: &Format) -> (r: bool)
    ensures
        r == video_only(f@),
{
    mime_starts(f, "video/") && !mime_has(f, "mp4a") && f.audio_channels.is_none()
}

fn is_audio(f: &Format) -> (r: bool)
    ensures
        r == audio_format(f@),
{
    mime_starts(f, "audio/")
}

/// A format whose URL parses.
pub open spec fn usable(f: FormatView) -> bool {
    f.0 matches Some(u) && url_parse(u) is Some
}

/// The height of a format (0 when it has none).
pub open spec fn fheight(f: FormatView) -> u32 {
    match f.4 {
        Some(h) => h,
        None => 0,
    }
}

/// The label of a format's stream: its quality label, else its itag.
pub open spec fn format_label(f: FormatView) -> Option<Seq<char>> {
    match f.2 {
        Some(l) => Some(l),
        None => match f.3 {
            Some(t) => Some(dec(t as nat)),
            None => None,
        },
    }
}

/// An audio track to mux in, as plain values: its URL and User-Agent.
pub type MuxView = (UrlView, Option<&'static str>);

pub open spec fn mux_view(m: Option<MuxPart>) -> Option<MuxView> {
    match m {
        Some(p) => Some((p.url@, p.download_user_agent)),
        None => None,
    }
}

/// The stream made from a format: its parsed URL and label, with the client's
/// User-Agent, not HLS, no referer.
pub open spec fn format_stream(s: Stream, f: FormatView, kind: MediaKind, ua: &'static str, mux: Option<MuxView>) -> bool {
    &&& f.0 matches Some(u) && url_parse(u) == Some(s.url@)
    &&& s.kind == kind
    &&& opt_view(s.label) == format_label(f)
    &&& s.download_user_agent == Some(ua)
    &&& mux_view(s.mux_audio) == mux
    &&& !s.hls
    &&& s.download_referer is None
}

fn stream_from(f: &Format, kind: MediaKind, ua: &'static str, mux: Option<MuxPart>) -> (r: Option<Stream>)
    ensures
        if usable(f@) {
            r matches Some(s) && format_stream(s, f@, kind, ua, mux_view(mux))
        } else {
            r is None
        },
{
    let raw = match &f.url {
        Some(u) => u,
        None => {
            return None;
        },
    };
    let url = match parse_web_url(raw.as_str()) {
        Ok(u) => u,
        Err(_) => {
            return None;
        },
    };
    let label = match &f.quality_label {
        Some(l) => Some(l.clone()),
        None => match f.itag {
            Some(t) => {
                let mut v: Vec<char> = Vec::new();
                push_dec(&mut v, t as u64);
                Some(string_of(v.as_slice()))
            },
            None => None,
        },
    };
    Some(
        Stream {
            url,
            kind,
            label,
            download_user_agent: Some(ua),
            mux_audio: mux,
            hls: false,
            download_referer: None,
        },
    )
}

/// An audio candidate: a format with a URL and an audio MIME type.
pub open spec fn audio_cand(f: FormatView) -> bool {
    f.0 is Some && audio_format(f)
}

pub open spec fn bitrate_of(f: FormatView) -> u32 {
    match f.5 {
        Some(b) => b,
        None => 0,
    }
}

/// `k` is the last audio candidate of the highest bitrate (what `max_by_key` picks).
pub open spec fn is_best_audio(fs: Seq<FormatView>, k: int) -> bool {
    &&& 0 <= k < fs.len()
    &&& audio_cand(fs[k])
    &&& forall|j: int| 0 <= j < fs.len() && audio_cand(#[trigger] fs[j]) ==> bitrate_of(fs[j]) <= bitrate_of(fs[k])
    &&& forall|j: int| k < j < fs.len() && audio_cand(#[trigger] fs[j]) ==> bitrate_of(fs[j]) < bitrate_of(fs[k])
}

/// The audio stream: none without candidates; else the best candidate's stream, none
/// when its URL does not parse.
pub open spec fn audio_result(fs: Seq<FormatView>, ua: &'static str, a: Option<Stream>) -> bool {
    if forall|j: int| 0 <= j < fs.len() ==> !audio_cand(#[trigger] fs[j]) {
        a is None
    } else {
        exists|k: int|
            is_best_audio(fs, k) && if usable(fs[k]) {
                a matches Some(s) && format_stream(s, fs[k], MediaKind::Audio, ua, None)
            } else {
                a is None
            }
    }
}

fn best_audio(fs: &Vec<&Format>, ua: &'static str) -> (r: Option<Stream>)
    ensures
        audio_result(fviews(fs@), ua, r),
{
    let ghost v = fviews(fs@);
    let mut best: Option<usize> = None;
    let mut best_br: u32 = 0;
    let mut i: usize = 0;
    while i < fs.len()
        invariant
            i <= fs@.len(),
            v == fviews(fs@),
            match best {
                None => forall|j: int| 0 <= j < i ==> !audio_cand(#[trigger] v[j]),
                Some(b) => {
                    &&& b < i
                    &&& audio_cand(v[b as int])
                    &&& best_br == bitrate_of(v[b as int])
                    &&& forall|j: int| 0 <= j < i && audio_cand(#[trigger] v[j]) ==> bitrate_of(v[j]) <= best_br
                    &&& forall|j: int| b < j < i && audio_cand(#[trigger] v[j]) ==> bitrate_of(v[j]) < best_br
                },
            },
        decreases fs@.len() - i,
    {
        let f = fs[i];
        assert(v[i as int] == f@);
        if f.url.is_some() && is_audio(f) {
            let br: u32 = match f.bitrate {
                Some(b) => b,
                None => 0,
            };
            let better = match best {
                None => true,
                Some(_) => br >= best_br,
            };
            if better {
                best = Some(i);
                best_br = br;
            }
        }
        i = i + 1;
    }
    match best {
        None => None,
        Some(b) => {
            assert(is_best_audio(v, b as int));
            assert(v[b as int] == fs@[b as int]@);
            stream_from(fs[b], MediaKind::Audio, ua, None)
        },
    }
}

/// `k` is a usable format of height `h` with audio.
pub open spec fn muxed_at(fs: Seq<FormatView>, k: int, h: u32) -> bool {
    0 <= k < fs.len() && usable(fs[k]) && muxed(fs[k]) && fheight(fs[k]) == h
}

/// `k` is a usable video-only format of height `h`.
pub open spec fn video_only_at(fs: Seq<FormatView>, k: int, h: u32) -> bool {
    0 <= k < fs.len() && usable(fs[k]) && video_only(fs[k]) && fheight(fs[k]) == h
}

/// A format that gives a video stream of height `h`: one with audio, or, when there is
/// audio to mux in, a video-only one.
pub open spec fn cand_at(fs: Seq<FormatView>, k: int, h: u32, audio: bool) -> bool {
    muxed_at(fs, k, h) || (audio && video_only_at(fs, k, h))
}

/// Some format gives a video stream of height `h`.
pub open spec fn offers(fs: Seq<FormatView>, h: u32, audio: bool) -> bool {
    exists|k: int| cand_at(fs, k, h, audio)
}

/// The heights on offer, each once, lowest first.
pub open spec fn offered_heights(fs: Seq<FormatView>, audio: bool, keys: Seq<u32>) -> bool {
    &&& forall|i: int, j: int| 0 <= i < j < keys.len() ==> #[trigger] keys[i] < #[trigger] keys[j]
    &&& forall|i: int| 0 <= i < keys.len() ==> offers(fs, #[trigger] keys[i], audio)
    &&& forall|h: u32| offers(fs, h, audio) ==> #[trigger] keys.contains(h)
}

/// The stream for height `h`: with audio to mux in, the last video-only format of that
/// height (muxed with it); else the first format with audio of that height.
pub open spec fn video_for(fs: Seq<FormatView>, audio: Option<MuxView>, ua: &'static str, h: u32, s: Stream) -> bool {
    if audio is Some && exists|k: int| video_only_at(fs, k, h) {
        exists|k: int|
            video_only_at(fs, k, h) && (forall|j: int| k < j < fs.len() ==> !video_only_at(fs, j, h))
                && format_stream(s, fs[k], MediaKind::Video, ua, audio)
    } else {
        exists|k: int|
            muxed_at(fs, k, h) && (forall|j: int| 0 <= j < k ==> !muxed_at(fs, j, h)) && format_stream(
                s,
                fs[k],
                MediaKind::Video,
                ua,
                None,
            )
    }
}

/// The video streams for the quality: one per picked height among those on offer
/// (lowest first).
pub open spec fn videos_for(fs: Seq<FormatView>, audio: Option<MuxView>, ua: &'static str, q: Quality, v: Seq<Stream>) -> bool {
    exists|keys: Seq<u32>|
        offered_heights(fs, audio is Some, keys) && v.len() == picked_heights(q, keys).len() && forall|i: int|
            0 <= i < v.len() ==> video_for(fs, audio, ua, picked_heights(q, keys)[i], #[trigger] v[i])
}

fn lower_bound_u32(v: &Vec<u32>, h: u32) -> (p: usize)
    requires
        forall|i: int, j: int| 0 <= i < j < v@.len() ==> #[trigger] v@[i] < #[trigger] v@[j],
    ensures
        p <= v@.len(),
        forall|i: int| 0 <= i < p ==> #[trigger] v@[i] < h,
        forall|i: int| p <= i < v@.len() ==> #[trigger] v@[i] >= h,
{
    let mut p: usize = 0;
    while p < v.len()
        invariant_except_break
            p <= v@.len(),
            forall|i: int| 0 <= i < p ==> #[trigger] v@[i] < h,
        ensures
            p <= v@.len(),
            forall|i: int| 0 <= i < p ==> #[trigger] v@[i] < h,
            p < v@.len() ==> v@[p as int] >= h,
        decreases v@.len() - p,
    {
        if v[p] >= h {
            break;
        }
        p = p + 1;
    }
    assert forall|i: int| p <= i < v@.len() implies #[trigger] v@[i] >= h by {
        if i > p {
            assert(v@[p as int] < v@[i]);
        }
    }
    p
}

fn parses(f: &Format) -> (r: bool)
    ensures
        r == usable(f@),
{
    match &f.url {
        Some(u) => parse_web_url(u.as_str()).is_ok(),
        None => false,
    }
}

/// The heights on offer, lowest first.
fn heights_on_offer(fs: &Vec<&Format>, audio: bool) -> (keys: Vec<u32>)
    ensures
        offered_heights(fviews(fs@), audio, keys@),
{
    let ghost v = fviews(fs@);
    let mut keys: Vec<u32> = Vec::new();
    let mut k: usize = 0;
    while k < fs.len()
        invariant
            k <= fs@.len(),
            v == fviews(fs@),
            forall|i: int, j: int| 0 <= i < j < keys@.len() ==> #[trigger] keys@[i] < #[trigger] keys@[j],
            forall|i: int| 0 <= i < keys@.len() ==> offers(v, #[trigger] keys@[i], audio),
            forall|j: int, h: u32| 0 <= j < k && #[trigger] cand_at(v, j, h, audio) ==> keys@.contains(h),
        decreases fs@.len() - k,
    {
        let f = fs[k];
        assert(v[k as int] == f@);
        let ok = parses(f) && (is_muxed(f) || (audio && is_video_only(f)));
        if ok {
            let h: u32 = match f.height {
                Some(h) => h,
                None => 0,
            };
            assert(cand_at(v, k as int, h, audio));
            let p = lower_bound_u32(&keys, h);
            if p < keys.len() && keys[p] == h {
                assert(keys@.contains(h));
            } else {
                let ghost old = keys@;
                keys.insert(p, h);
                assert forall|i: int, j: int| 0 <= i < j < keys@.len() implies #[trigger] keys@[i] < #[trigger] keys@[j] by {
                    if j < p {
                        assert(keys@[i] == old[i] && keys@[j] == old[j]);
                    } else if j == p {
                        assert(keys@[i] == old[i]);
                    } else if i < p {
                        assert(keys@[i] == old[i] && keys@[j] == old[j - 1]);
                    } else if i == p {
                        assert(keys@[j] == old[j - 1]);
                        if j - 1 > p {
                            assert(old[p as int] < old[j - 1]);
                        }
                    } else {
                        assert(keys@[i] == old[i - 1] && keys@[j] == old[j - 1]);
                    }
                }
                assert forall|i: int| 0 <= i < keys@.len() implies offers(v, #[trigger] keys@[i], audio) by {
                    if i < p {
                        assert(keys@[i] == old[i]);
                    } else if i > p {
                        assert(keys@[i] == old[i - 1]);
                    }
                }
                assert forall|j: int, h2: u32| 0 <= j < k && #[trigger] cand_at(v, j, h2, audio) implies keys@.contains(h2) by {
                    assert(old.contains(h2));
                    let t = choose|t: int| 0 <= t < old.len() && old[t] == h2;
                    if t < p {
                        assert(keys@[t] == h2);
                    } else {
                        assert(keys@[t + 1] == h2);
                    }
                }
                assert(keys@[p as int] == h);
            }
        }
        proof {
            assert forall|j: int, h2: u32| 0 <= j < k + 1 && #[trigger] cand_at(v, j, h2, audio) implies keys@.contains(h2) by {
                if j == k {
                    assert(v[j] == f@);
                }
            }
        }
        k = k + 1;
    }
    proof {
        assert forall|h: u32| offers(v, h, audio) implies #[trigger] keys@.contains(h) by {
            let j = choose|j: int| cand_at(v, j, h, audio);
        }
    }
    keys
}

/// The video stream for a height on offer.
fn video_of_height(fs: &Vec<&Format>, audio: &Option<MuxPart>, ua: &'static str, h: u32) -> (r: Stream)
    requires
        offers(fviews(fs@), h, audio is Some),
    ensures
        video_for(fviews(fs@), mux_view(*audio), ua, h, r),
{
    let ghost v = fviews(fs@);
    if let Some(a) = audio {
        let mut k: usize = fs.len();
        while k > 0
            invariant
                k <= fs@.len(),
                v == fviews(fs@),
                *audio == Some(*a),
                forall|j: int| k <= j < fs@.len() ==> !video_only_at(v, j, h),
            decreases k,
        {
            let f = fs[k - 1];
            assert(v[k - 1] == f@);
            if parses(f) && is_video_only(f) && (match f.height {
                Some(x) => x,
                None => 0,
            }) == h {
                assert(video_only_at(v, k - 1, h));
                match stream_from(f, MediaKind::Video, ua, Some(a.copy_of())) {
                    Some(s) => {
                        assert(format_stream(s, v[k - 1], MediaKind::Video, ua, mux_view(*audio)));
                        return s;
                    },
                    None => {
                        proof {
                            assert(false);
                        }
                    },
                }
            }
            k = k - 1;
        }
    }
    let mut k: usize = 0;
    while k < fs.len()
        invariant
            k <= fs@.len(),
            v == fviews(fs@),
            offers(v, h, audio is Some),
            audio is Some ==> forall|j: int| 0 <= j < fs@.len() ==> !video_only_at(v, j, h),
            forall|j: int| 0 <= j < k ==> !muxed_at(v, j, h),
        decreases fs@.len() - k,
    {
        let f = fs[k];
        assert(v[k as int] == f@);
        if parses(f) && is_muxed(f) && (match f.height {
            Some(x) => x,
            None => 0,
        }) == h {
            assert(muxed_at(v, k as int, h));
            match stream_from(f, MediaKind::Video, ua, None) {
                Some(s) => {
                    return s;
                },
                None => {
                    proof {
                        assert(false);
                    }
                },
            }
        }
        k = k + 1;
    }
    proof {
        let a = audio is Some;
        let j = choose|j: int| cand_at(v, j, h, a);
        assert(cand_at(v, j, h, a));
    }
    Stream {
        url: WebUrl {
            href: String::new(),
            scheme: String::new(),
            host: None,
            path: String::new(),
            query: None,
        },
        kind: MediaKind::Video,
        label: None,
        download_user_agent: None,
        mux_audio: None,
        hls: false,
        download_referer: None,
    }
}

/// The streams chosen from a player answer for the requested kinds: the videos for the
/// quality (when video is wanted), then the best audio (when audio is wanted and there
/// is one); nothing without streaming data.
pub open spec fn selection(response: PlayerResponse, kinds: Seq<MediaKind>, q: Quality, ua: &'static str, r: Seq<Stream>) -> bool {
    match response.streaming_data {
        None => r.len() == 0,
        Some(sd) => {
            let fs = all_of(sd@);
            exists|a: Option<Stream>, vids: Seq<Stream>|
                audio_result(fs, ua, a) && (if kinds.contains(MediaKind::Video) {
                    videos_for(
                        fs,
                        match a {
                            Some(s) => Some((s.url@, s.download_user_agent)),
                            None => None,
                        },
                        ua,
                        q,
                        vids,
                    )
                } else {
                    vids.len() == 0
                }) && r == vids + (if kinds.contains(MediaKind::Audio) && a is Some {
                    seq![a.unwrap()]
                } else {
                    Seq::empty()
                })
        },
    }
}

/// The streams to download from a player answer.
pub fn select_for_kinds(response: &PlayerResponse, options: &ExtractOptions, user_agent: &'static str) -> (r: Vec<Stream>)
    ensures
        selection(*response, options.kinds@, options.quality, user_agent, r@),
{
    let sd = match &response.streaming_data {
        Some(sd) => sd,
        None => {
            return Vec::new();
        },
    };
    let fs = all_formats(sd);
    let ghost v = fviews(fs@);
    let audio = best_audio(&fs, user_agent);
    let part: Option<MuxPart> = match &audio {
        Some(s) => Some(MuxPart { url: s.url.copy_of(), download_user_agent: s.download_user_agent }),
        None => None,
    };
    let mut out: Vec<Stream> = Vec::new();
    if wants_kind(&options.kinds, MediaKind::Video) {
        let keys = heights_on_offer(&fs, part.is_some());
        let picked = options.quality.pick(keys.as_slice());
        let mut i: usize = 0;
        while i < picked.len()
            invariant
                i <= picked@.len(),
                v == fviews(fs@),
                picked@ == picked_heights(options.quality, keys@),
                offered_heights(v, part is Some, keys@),
                out@.len() == i,
                forall|j: int| 0 <= j < i ==> video_for(v, mux_view(part), user_agent, picked@[j], #[trigger] out@[j]),
            decreases picked@.len() - i,
        {
            proof {
                lemma_picked_offered(options.quality, keys@, i as int);
                assert(keys@.contains(picked@[i as int]));
                let t = choose|t: int| 0 <= t < keys@.len() && keys@[t] == picked@[i as int];
                assert(offers(v, keys@[t], part is Some));
            }
            let s = video_of_height(&fs, &part, user_agent, picked[i]);
            let ghost old = out@;
            out.push(s);
            assert(forall|j: int| 0 <= j < old.len() ==> out@[j] == old[j]);
            i = i + 1;
        }
        assert(videos_for(v, mux_view(part), user_agent, options.quality, out@));
    }
    let ghost vids = out@;
    let ghost ga = audio;
    let ghost gm = match ga {
        Some(s) => Some((s.url@, s.download_user_agent)),
        None => None::<MuxView>,
    };
    assert(gm == mux_view(part));
    let want_audio = wants_kind(&options.kinds, MediaKind::Audio);
    match audio {
        Some(a) => {
            if want_audio {
                out.push(a);
            }
        },
        None => {},
    }
    assert(out@ == vids + (if options.kinds@.contains(MediaKind::Audio) && ga is Some {
        seq![ga.unwrap()]
    } else {
        Seq::empty()
    }));
    assert(audio_result(v, user_agent, ga));
    out
}

/// Every height a pick keeps is one of the heights it was given.
pub proof fn lemma_picked_offered(q: Quality, keys: Seq<u32>, i: int)
    requires
        0 <= i < picked_heights(q, keys).len(),
    ensures
        keys.contains(picked_heights(q, keys)[i]),
{
    match q {
        Quality::All => {
            assert(keys[i] == picked_heights(q, keys)[i]);
        },
        Quality::Best => {
            crate::quality::lemma_max_height(keys);
        },
        Quality::Height(h) => {
            lemma_heights_equal_in(keys, h, i);
        },
    }
}

proof fn lemma_heights_equal_in(hs: Seq<u32>, h: u32, i: int)
    requires
        0 <= i < crate::quality::heights_equal(hs, h).len(),
    ensures
        crate::quality::heights_equal(hs, h)[i] == h,
        hs.contains(h),
    decreases hs.len(),
{
    if hs.len() > 0 {
        let prev = crate::quality::heights_equal(hs.drop_last(), h);
        if hs.last() == h {
            assert(hs[hs.len() - 1] == h);
            if i < prev.len() {
                lemma_heights_equal_in(hs.drop_last(), h, i);
            }
        } else {
            lemma_heights_equal_in(hs.drop_last(), h, i);
            let k = choose|k: int| 0 <= k < hs.drop_last().len() && hs.drop_last()[k] == h;
            assert(hs[k] == h);
        }
    }
}

} // verus!
