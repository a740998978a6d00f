//! The Yandex VH player: content ids, and the streams of the player API's answer.

use vstd::prelude::*;
use crate::error::Error;
use crate::json_value::{
    de_opt_string, decode_opt_string, field_at, is_struct_shape, opt_ref, struct_field,
    struct_shape, JsonValue,
};
use crate::model::{MediaKind, Stream};
use crate::quality::Quality;
use crate::sites::common::host_chars;
use crate::text::{chars_of, contains, contains_seq, is_alnum, is_digit, same, string_of};
use crate::weburl::{
    first_value, opt_view, parse_web_url, path_segments, query_pairs_of, query_value, segments,
    url_parse, UrlView, WebUrl,
};

verus! {

/// Referer that the VH CDN expects.
pub const REFERER: &'static str = "https://frontend.vh.yandex.ru/";

pub open spec fn is_hex(c: char) -> bool {
    is_digit(c) || ('a' <= c && c <= 'f') || ('A' <= c && c <= 'F')
}

/// A content id: 32 hexadecimal digits, or 9 to 13 ASCII letters, digits, `-` or `_`.
pub open spec fn is_cid(id: Seq<char>) -> bool {
    (id.len() == 32 && forall|i: int| 0 <= i < id.len() ==> is_hex(#[trigger] id[i])) || (9
        <= id.len() <= 13 && forall|i: int|
        0 <= i < id.len() ==> is_alnum(#[trigger] id[i]) || id[i] == '-' || id[i] == '_')
}

pub fn is_content_id(id: &[char]) -> (r: bool)
    ensures
        r == is_cid(id@),
{
    let mut hex = true;
    let mut word = true;
    let mut i: usize = 0;
    while i < id.len()
        invariant
            i <= id@.len(),
            hex == forall|j: int| 0 <= j < i ==> is_hex(#[trigger] id@[j]),
            word == forall|j: int| 0 <= j < i ==> is_alnum(#[trigger] id@[j]) || id@[j] == '-' || id@[j] == '_',
        decreases id@.len() - i,
    {
        let c = id[i];
        let is_h = ('0' <= c && c <= '9') || ('a' <= c && c <= 'f') || ('A' <= c && c <= 'F');
        let is_w = ('0' <= c && c <= '9') || ('a' <= c && c <= 'z') || ('A' <= c && c <= 'Z') || c == '-'
            || c == '_';
        if !is_h {
            assert(!is_hex(id@[i as int]));
        }
        if !is_w {
            assert(!(is_alnum(id@[i as int]) || id@[i as int] == '-' || id@[i as int] == '_'));
        }
        hex = hex && is_h;
        word = word && is_w;
        i = i + 1;
    }
    (id.len() == 32 && hex) || (9 <= id.len() && id.len() <= 13 && word)
}

/// The content id: on the VH player host the last path segment, elsewhere the
/// `stream_id` query value; either must look like a content id.
pub open spec fn vh_content_id(url: WebUrl) -> Option<Seq<char>> {
    if opt_view(url.host) == Some("frontend.vh.yandex.ru"@) {
        match path_segments(url.path@) {
            Some(segs) => if is_cid(segs.last()) {
                Some(segs.last())
            } else {
                None
            },
            None => None,
        }
    } else {
        match first_value(query_pairs_of(url), "stream_id"@) {
            Some(v) => if is_cid(v) {
                Some(v)
            } else {
                None
            },
            None => None,
        }
    }
}

pub fn content_id(url: &WebUrl) -> (r: Option<String>)
    ensures
        opt_view(r) == vh_content_id(*url),
{
    let player = match host_chars(url) {
        Some(h) => same(&h, &chars_of("frontend.vh.yandex.ru")),
        None => false,
    };
    if player {
        match segments(url) {
            Some(segs) => {
                let n = segs.len();
                assert(crate::text::views(segs@)[n - 1] == segs@[n - 1]@);
                if is_content_id(&segs[n - 1]) {
                    Some(string_of(segs[n - 1].as_slice()))
                } else {
                    None
                }
            },
            None => None,
        }
    } else {
        match query_value(url, "stream_id") {
            Some(v) => if is_content_id(&chars_of(v.as_str())) {
                Some(v)
            } else {
                None
            },
            None => None,
        }
    }
}

/// The content of a player answer.
pub struct VhContent {
    pub computed_title: Option<String>,
    pub content_url: Option<String>,
    pub title: Option<String>,
    pub streams: Option<Vec<Option<String>>>,
}

/// The content as plain values: computed title, content URL, title, and the URL of each
/// stream.
pub type ContentView = (Option<Seq<char>>, Option<Seq<char>>, Option<Seq<char>>, Option<Seq<Option<Seq<char>>>>);

pub open spec fn opt_views(v: Seq<Option<String>>) -> Seq<Option<Seq<char>>> {
    v.map_values(|x: Option<String>| opt_view(x))
}

impl View for VhContent {
    type V = ContentView;

    open spec fn view(&self) -> ContentView {
        (
            opt_view(self.computed_title),
            opt_view(self.content_url),
            opt_view(self.title),
            match self.streams {
                Some(s) => Some(opt_views(s@)),
                None => None,
            },
        )
    }
}

/// serde's reading of a stream entry (one optional `url`).
pub open spec fn vh_stream_of(e: JsonValue) -> Option<Option<Seq<char>>> {
    if struct_shape(e, 1) {
        de_opt_string(field_at(e, "url"@, 0))
    } else {
        None
    }
}

/// serde's reading of the optional stream list.
pub open spec fn vh_streams_of(v: Option<JsonValue>) -> Option<Option<Seq<Option<Seq<char>>>>> {
    match v {
        None => Some(None),
        Some(JsonValue::Null) => Some(None),
        Some(JsonValue::Array(a)) => if forall|i: int| 0 <= i < a@.len() ==> vh_stream_of(#[trigger] a@[i]) is Some {
            Some(Some(a@.map_values(|x: JsonValue| vh_stream_of(x).unwrap())))
        } else {
            None
        },
        _ => None,
    }
}

/// serde's reading of the content.
pub open spec fn content_of(e: JsonValue) -> Option<ContentView> {
    if !struct_shape(e, 4) {
        None
    } else {
        match (
            de_opt_string(field_at(e, "computed_title"@, 0)),
            de_opt_string(field_at(e, "content_url"@, 1)),
            de_opt_string(field_at(e, "title"@, 2)),
            vh_streams_of(field_at(e, "streams"@, 3)),
        ) {
            (Some(a), Some(b), Some(c), Some(d)) => Some((a, b, c, d)),
            _ => None,
        }
    }
}

/// serde's reading of the answer: its optional `content`.
pub open spec fn answer_of(v: JsonValue) -> Option<Option<ContentView>> {
    if !struct_shape(v, 1) {
        None
    } else {
        match field_at(v, "content"@, 0) {
            None => Some(None),
            Some(JsonValue::Null) => Some(None),
            Some(c) => match content_of(c) {
                Some(x) => Some(Some(x)),
                None => None,
            },
        }
    }
}

fn decode_streams(v: Option<&JsonValue>) -> (r: Option<Option<Vec<Option<String>>>>)
    ensures
        match vh_streams_of(opt_ref(v)) {
            Some(Some(s)) => r matches Some(Some(x)) && opt_views(x@) == s,
            Some(None) => r matches Some(None),
            None => r is None,
        },
{
    let items = match v {
        None => {
            return Some(None);
        },
        Some(JsonValue::Null) => {
            return Some(None);
        },
        Some(JsonValue::Array(a)) => a,
        Some(_) => {
            return None;
        },
    };
    let mut out: Vec<Option<String>> = Vec::new();
    let mut i: usize = 0;
    while i < items.len()
        invariant
            i <= items@.len(),
            opt_ref(v) == Some(JsonValue::Array(*items)),
            out@.len() == i,
            forall|j: int| 0 <= j < i ==> vh_stream_of(#[trigger] items@[j]) == Some(opt_view(out@[j])),
        decreases items@.len() - i,
    {
        let e = &items[i];
        if !is_struct_shape(e, 1) {
            return None;
        }
        match decode_opt_string(struct_field(e, "url", 0)) {
            Some(u) => {
                out.push(u);
            },
            None => {
                return None;
            },
        }
        i = i + 1;
    }
    assert(opt_views(out@) =~= items@.map_values(|x: JsonValue| vh_stream_of(x).unwrap()));
    Some(Some(out))
}

fn decode_content(e: &JsonValue) -> (r: Option<VhContent>)
    ensures
        match content_of(*e) {
            Some(c) => r matches Some(x) && x@ == c,
            None => r is None,
        },
{
    if !is_struct_shape(e, 4) {
        return None;
    }
    let a = decode_opt_string(struct_field(e, "computed_title", 0));
    let b = decode_opt_string(struct_field(e, "content_url", 1));
    let c = decode_opt_string(struct_field(e, "title", 2));
    let d = decode_streams(struct_field(e, "streams", 3));
    match (a, b, c, d) {
        (Some(a), Some(b), Some(c), Some(d)) => Some(
            VhContent { computed_title: a, content_url: b, title: c, streams: d },
        ),
        _ => None,
    }
}

/// The content of a player answer: an answer serde would refuse is an HTTP error (the
/// body could not be read as the answer); one without content has no streams.
pub fn content_from_json(v: &JsonValue) -> (r: Result<VhContent, Error>)
    ensures
        match answer_of(*v) {
            Some(Some(c)) => r matches Ok(x) && x@ == c,
            Some(None) => r == Err::<VhContent, Error>(Error::NoStreamsFound),
            None => r matches Err(Error::Http(_)),
        },
{
    let bad = Error::Http(string_of(chars_of("malformed VH player answer").as_slice()));
    if !is_struct_shape(v, 1) {
        return Err(bad);
    }
    match struct_field(v, "content", 0) {
        None => Err(Error::NoStreamsFound),
        Some(JsonValue::Null) => Err(Error::NoStreamsFound),
        Some(c) => match decode_content(c) {
            Some(x) => Ok(x),
            None => Err(bad),
        },
    }
}

/// The URLs of the stream entries that have one, each marked as signed.
pub open spec fn stream_urls(s: Seq<Option<Seq<char>>>) -> Seq<(Seq<char>, bool)>
    decreases s.len(),
{
    if s.len() == 0 {
        Seq::empty()
    } else {
        let prev = stream_urls(s.drop_last());
        match s.last() {
            Some(u) => prev.push((u, true)),
            None => prev,
        }
    }
}

/// The HLS playlists (URLs with `.m3u8`) among the candidates, in order.
pub open spec fn keep_m3u8(c: Seq<(Seq<char>, bool)>) -> Seq<(Seq<char>, bool)>
    decreases c.len(),
{
    if c.len() == 0 {
        Seq::empty()
    } else {
        let prev = keep_m3u8(c.drop_last());
        if contains_seq(c.last().0, ".m3u8"@) {
            prev.push(c.last())
        } else {
            prev
        }
    }
}

/// The candidate playlists of a content: its streams' URLs (signed), then its content
/// URL (unsigned), keeping the HLS playlists.
pub open spec fn vh_candidates(c: ContentView) -> Seq<(Seq<char>, bool)> {
    let from_streams = match c.3 {
        Some(s) => stream_urls(s),
        None => Seq::empty(),
    };
    let all = match c.1 {
        Some(u) => from_streams.push((u, false)),
        None => from_streams,
    };
    keep_m3u8(all)
}

/// Every candidate URL parses.
pub open spec fn all_parse(es: Seq<(Seq<char>, bool)>) -> bool {
    forall|i: int| 0 <= i < es.len() ==> url_parse(#[trigger] es[i].0) is Some
}

/// A candidate whose parsed URL carries a `ysign1=` signature ranks first.
pub open spec fn is_signed(e: (Seq<char>, bool)) -> bool {
    contains_seq(url_parse(e.0).unwrap().0, "ysign1="@)
}

/// The candidates that are (or are not) signed, in order.
pub open spec fn with_signature(es: Seq<(Seq<char>, bool)>, signed: bool) -> Seq<(Seq<char>, bool)>
    decreases es.len(),
{
    if es.len() == 0 {
        Seq::empty()
    } else {
        let prev = with_signature(es.drop_last(), signed);
        if is_signed(es.last()) == signed {
            prev.push(es.last())
        } else {
            prev
        }
    }
}

/// The candidates in a stable order by rank, highest first: signed ones, then the rest.
pub open spec fn ranked(es: Seq<(Seq<char>, bool)>) -> Seq<(Seq<char>, bool)> {
    with_signature(es, true) + with_signature(es, false)
}

/// The title the streams get: the caller's hint, else the content's title, else its
/// computed title.
pub open spec fn vh_title(c: ContentView, hint: Option<Seq<char>>) -> Option<Seq<char>> {
    match hint {
        Some(t) => Some(t),
        None => match c.2 {
            Some(t) => Some(t),
            None => c.0,
        },
    }
}

/// A VH stream: the candidate's playlist, labelled by the title (else `best` for a
/// signed stream entry and `auto` for the content URL), with the VH referer.
pub open spec fn is_vh_stream(s: Stream, e: (Seq<char>, bool), title: Option<Seq<char>>) -> bool {
    &&& s.url@ == url_parse(e.0).unwrap()
    &&& s.kind == MediaKind::Video
    &&& opt_view(s.label) == Some(
        match title {
            Some(t) => t,
            None => if e.1 {
                "best"@
            } else {
                "auto"@
            },
        },
    )
    &&& s.download_user_agent is None
    &&& s.mux_audio is None
    &&& s.hls
    &&& s.download_referer == Some(REFERER)
}

/// The streams of a content: none is no streams; `All` is every candidate by rank;
/// otherwise the first by rank.
pub open spec fn vh_result(c: ContentView, hint: Option<Seq<char>>, q: Quality, r: Result<Vec<Stream>, Error>) -> bool {
    let es = vh_candidates(c);
    let o = ranked(es);
    let t = vh_title(c, hint);
    if es.len() == 0 {
        r == Err::<Vec<Stream>, Error>(Error::NoStreamsFound)
    } else {
        match q {
            Quality::All => r matches Ok(v) && v@.len() == o.len() && forall|i: int|
                0 <= i < o.len() ==> is_vh_stream(#[trigger] v@[i], o[i], t),
            _ => r matches Ok(v) && v@.len() == 1 && is_vh_stream(v@[0], o[0], t),
        }
    }
}

pub open spec fn pair_views(v: Seq<(String, bool)>) -> Seq<(Seq<char>, bool)> {
    v.map_values(|p: (String, bool)| (p.0@, p.1))
}

fn candidates(content: &VhContent) -> (r: Vec<(String, bool)>)
    ensures
        pair_views(r@) == vh_candidates(content@),
{
    let mut all: Vec<(String, bool)> = Vec::new();
    if let Some(streams) = &content.streams {
        let mut i: usize = 0;
        while i < streams.len()
            invariant
                i <= streams@.len(),
                pair_views(all@) == stream_urls(opt_views(streams@.subrange(0, i as int))),
            decreases streams@.len() - i,
        {
            let ghost before = pair_views(all@);
            assert(opt_views(streams@.subrange(0, i + 1)).drop_last() =~= opt_views(streams@.subrange(0, i as int)));
            if let Some(u) = &streams[i] {
                all.push((u.clone(), true));
                assert(pair_views(all@) =~= before.push((u@, true)));
            }
            i = i + 1;
        }
        assert(streams@.subrange(0, streams@.len() as int) =~= streams@);
    }
    if let Some(u) = &content.content_url {
        let ghost before = pair_views(all@);
        all.push((u.clone(), false));
        assert(pair_views(all@) =~= before.push((u@, false)));
    }
    let ghost c = pair_views(all@);
    let m3u8 = chars_of(".m3u8");
    let mut out: Vec<(String, bool)> = Vec::new();
    let mut i: usize = 0;
    while i < all.len()
        invariant
            i <= all@.len(),
            c == pair_views(all@),
            m3u8@ == ".m3u8"@,
            pair_views(out@) == keep_m3u8(c.subrange(0, i as int)),
        decreases all@.len() - i,
    {
        let ghost before = pair_views(out@);
        assert(c.subrange(0, i + 1).drop_last() =~= c.subrange(0, i as int));
        if contains(&chars_of(all[i].0.as_str()), &m3u8) {
            out.push((all[i].0.clone(), all[i].1));
            assert(pair_views(out@) =~= before.push(c[i as int]));
        }
        i = i + 1;
    }
    assert(c.subrange(0, c.len() as int) =~= c);
    out
}

fn make_stream(url: WebUrl, signed: bool, title: &Option<String>) -> (s: Stream)
    ensures
        s.url == url,
        s.kind == MediaKind::Video,
        opt_view(s.label) == Some(
            match opt_view(*title) {
                Some(t) => t,
                None => if signed {
                    "best"@
                } else {
                    "auto"@
                },
            },
        ),
        s.download_user_agent is None,
        s.mux_audio is None,
        s.hls,
        s.download_referer == Some(REFERER),
{
    let label = match title {
        Some(t) => t.clone(),
        None => if signed {
            string_of(chars_of("best").as_slice())
        } else {
            string_of(chars_of("auto").as_slice())
        },
    };
    Stream {
        url,
        kind: MediaKind::Video,
        label: Some(label),
        download_user_agent: None,
        mux_audio: None,
        hls: true,
        download_referer: Some(REFERER),
    }
}

/// The streams of a content, given that every candidate playlist URL parses.
pub fn vh_streams(content: &VhContent, title_hint: Option<&str>, quality: Quality) -> (r: Result<Vec<Stream>, Error>)
    requires
        all_parse(vh_candidates(content@)),
    ensures
        vh_result(content@, crate::extract::html::opt_str_view(title_hint), quality, r),
{
    let cands = candidates(content);
    let ghost es = vh_candidates(content@);
    if cands.len() == 0 {
        return Err(Error::NoStreamsFound);
    }
    let title: Option<String> = match title_hint {
        Some(t) => Some(string_of(chars_of(t).as_slice())),
        None => match &content.title {
            Some(t) => Some(t.clone()),
            None => match &content.computed_title {
                Some(t) => Some(t.clone()),
                None => None,
            },
        },
    };
    let ghost t = vh_title(content@, crate::extract::html::opt_str_view(title_hint));
    assert(opt_view(title) == t);
    let ysign = chars_of("ysign1=");
    let mut first: Vec<Stream> = Vec::new();
    let mut rest: Vec<Stream> = Vec::new();
    let mut i: usize = 0;
    while i < cands.len()
        invariant
            i <= cands@.len(),
            es == pair_views(cands@),
            all_parse(es),
            ysign@ == "ysign1="@,
            opt_view(title) == t,
            first@.len() == with_signature(es.subrange(0, i as int), true).len(),
            rest@.len() == with_signature(es.subrange(0, i as int), false).len(),
            forall|j: int| 0 <= j < first@.len() ==> is_vh_stream(#[trigger] first@[j], with_signature(es.subrange(0, i as int), true)[j], t),
            forall|j: int| 0 <= j < rest@.len() ==> is_vh_stream(#[trigger] rest@[j], with_signature(es.subrange(0, i as int), false)[j], t),
        decreases cands@.len() - i,
    {
        assert(es.subrange(0, i + 1).drop_last() =~= es.subrange(0, i as int));
        assert(es.subrange(0, i + 1).last() == es[i as int]);
        assert(url_parse(es[i as int].0) is Some);
        let u = match parse_web_url(cands[i].0.as_str()) {
            Ok(u) => u,
            Err(_) => {
                return Err(Error::NoStreamsFound);
            },
        };
        let signed = contains(&chars_of(u.href.as_str()), &ysign);
        let s = make_stream(u, cands[i].1, &title);
        if signed {
            let ghost old = first@;
            first.push(s);
            assert(forall|j: int| 0 <= j < old.len() ==> first@[j] == old[j]);
        } else {
            let ghost old = rest@;
            rest.push(s);
            assert(forall|j: int| 0 <= j < old.len() ==> rest@[j] == old[j]);
        }
        i = i + 1;
    }
    assert(es.subrange(0, es.len() as int) =~= es);
    let ghost o = ranked(es);
    let ghost nf = first@.len();
    let mut all = first;
    all.append(&mut rest);
    assert forall|j: int| 0 <= j < o.len() implies is_vh_stream(#[trigger] all@[j], o[j], t) by {
        if j >= nf {
            assert(o[j] == with_signature(es, false)[j - nf]);
        }
    }
    match quality {
        Quality::All => Ok(all),
        _ => {
            let mut v: Vec<Stream> = Vec::new();
            v.push(all.remove(0));
            Ok(v)
        },
    }
}

/// The streams of a content; `None` when a candidate playlist URL does not parse (where
/// the player logic gives up).
pub fn checked_vh_streams(content: &VhContent, title_hint: Option<&str>, quality: Quality) -> (r: Option<Result<Vec<Stream>, Error>>)
    ensures
        match r {
            Some(x) => all_parse(vh_candidates(content@)) && vh_result(
                content@,
                crate::extract::html::opt_str_view(title_hint),
                quality,
                x,
            ),
            None => !all_parse(vh_candidates(content@)),
        },
{
    let cands = candidates(content);
    let ghost es = vh_candidates(content@);
    let mut i: usize = 0;
    while i < cands.len()
        invariant
            i <= cands@.len(),
            es == pair_views(cands@),
            es == vh_candidates(content@),
            forall|j: int| 0 <= j < i ==> url_parse(#[trigger] es[j].0) is Some,
        decreases cands@.len() - i,
    {
        match parse_web_url(cands[i].0.as_str()) {
            Ok(_) => {},
            Err(_) => {
                assert(url_parse(es[i as int].0) is None);
                return None;
            },
        }
        i = i + 1;
    }
    Some(vh_streams(content, title_hint, quality))
}

} // verus!
