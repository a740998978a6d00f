//! Rutube: host recognition, video ids, and the play-options API's streams.

use vstd::prelude::*;
use crate::error::Error;
use crate::model::{MediaKind, Stream};
use crate::order::{desc_order, lemma_desc_order_bounds, stable_desc_order};
use crate::quality::{reorder, Quality};
use crate::sites::common::host_chars;
use crate::text::{
    chars_of, contains, contains_seq, ends_with, has_prefix, has_suffix, parse_u32, parse_uint,
    push_str, rfind_ch, rfind_char, same, slice_chars, starts_with, string_of, strip_end_in,
    strip_end_len,
};
use crate::weburl::{opt_view, parse_web_url, url_parse, UrlView, WebUrl};
use crate::json_value::{field_at, is_struct_shape, struct_field, struct_shape, JsonValue};
use crate::model::copy_string;

verus! {

/// Referer that the Rutube CDN expects.
pub const REFERER: &'static str = "https://rutube.ru/";

pub open spec fn rutube_host(h: Seq<char>) -> bool {
    h == "rutube.ru"@ || ends_with(h, ".rutube.ru"@)
}

pub fn matches_host(url: &WebUrl) -> (r: bool)
    ensures
        r == (opt_view(url.host) matches Some(h) && rutube_host(h)),
{
    match host_chars(url) {
        Some(h) => same(&h, &chars_of("rutube.ru")) || has_suffix(&h, &chars_of(".rutube.ru")),
        None => false,
    }
}

/// The id after `/video/`, without trailing slashes, when not empty.
pub open spec fn rutube_id(path: Seq<char>) -> Option<Seq<char>> {
    if starts_with(path, "/video/"@) {
        let id = strip_end_in(path.subrange(7, path.len() as int), seq!['/']);
        if id.len() > 0 {
            Some(id)
        } else {
            None
        }
    } else {
        None
    }
}

pub fn video_id(url: &WebUrl) -> (r: Option<String>)
    ensures
        opt_view(r) == rutube_id(url.path@),
{
    let p = chars_of(url.path.as_str());
    if !has_prefix(&p, &chars_of("/video/")) {
        return None;
    }
    proof {
        reveal_strlit("/video/");
    }
    let rest = slice_chars(&p, 7, p.len());
    let slash = ['/'];
    assert(slash@ =~= seq!['/']);
    let n = strip_end_len(&rest, &slash);
    if n == 0 {
        return None;
    }
    Some(string_of(slice_chars(&rest, 0, n).as_slice()))
}

/// A Rutube stream: labelled `{title} ({name})`, HLS when its URL has `.m3u8`, with the
/// Rutube referer.
pub open spec fn is_rutube_stream(s: Stream, u: UrlView, url_text: Seq<char>, label: Seq<char>) -> bool {
    &&& s.url@ == u
    &&& s.kind == MediaKind::Video
    &&& opt_view(s.label) == Some(label)
    &&& s.download_user_agent is None
    &&& s.mux_audio is None
    &&& s.hls == contains_seq(url_text, ".m3u8"@)
    &&& s.download_referer == Some(REFERER)
}

pub open spec fn balancer_views(b: Seq<(String, String)>) -> Seq<(Seq<char>, Seq<char>)> {
    b.map_values(|p: (String, String)| (p.0@, p.1@))
}

/// The streams of the play options' `video_balancer` entries (name, URL), in the order
/// given: none is no streams; a URL that does not parse is an error.
pub open spec fn balancer_streams(balancer: Option<Seq<(Seq<char>, Seq<char>)>>, title: Seq<char>, r: Result<Vec<Stream>, Error>) -> bool {
    match balancer {
        None => r == Err::<Vec<Stream>, Error>(Error::NoStreamsFound),
        Some(es) => if exists|i: int| 0 <= i < es.len() && url_parse(#[trigger] es[i].1) is None {
            r matches Err(Error::InvalidUrl(_))
        } else if es.len() == 0 {
            r == Err::<Vec<Stream>, Error>(Error::NoStreamsFound)
        } else {
            r matches Ok(v) && v@.len() == es.len() && forall|i: int|
                0 <= i < es.len() ==> is_rutube_stream(
                    #[trigger] v@[i],
                    url_parse(es[i].1).unwrap(),
                    es[i].1,
                    title + " ("@ + es[i].0 + ")"@,
                )
        },
    }
}

pub open spec fn opt_balancer(b: Option<Vec<(String, String)>>) -> Option<Seq<(Seq<char>, Seq<char>)>> {
    match b {
        Some(v) => Some(balancer_views(v@)),
        None => None,
    }
}

/// The text of a JSON string (empty for any other value).
pub open spec fn str_text(v: JsonValue) -> Seq<char> {
    match v {
        JsonValue::Str(s) => s@,
        _ => Seq::empty(),
    }
}

/// serde's reading of the `video_balancer` map of names to URLs: missing or `null` is
/// none; an object whose values are all strings gives its members in order; anything
/// else is refused.
pub open spec fn balancer_of(v: Option<JsonValue>) -> Option<Option<Seq<(Seq<char>, Seq<char>)>>> {
    match v {
        None => Some(None),
        Some(JsonValue::Null) => Some(None),
        Some(JsonValue::Object(m)) => if forall|i: int| 0 <= i < m@.len() ==> (#[trigger] m@[i]).1 is Str {
            Some(Some(m@.map_values(|p: (String, JsonValue)| (p.0@, str_text(p.1)))))
        } else {
            None
        },
        _ => None,
    }
}

/// serde's reading of the play options answer (one field, `video_balancer`).
pub open spec fn play_options_of(v: JsonValue) -> Option<Option<Seq<(Seq<char>, Seq<char>)>>> {
    if struct_shape(v, 1) {
        balancer_of(field_at(v, "video_balancer"@, 0))
    } else {
        None
    }
}

/// The balancer of a play options answer; an answer serde would refuse is an HTTP error
/// (the body could not be read as the answer).
pub fn balancer_from_json(v: &JsonValue) -> (r: Result<Option<Vec<(String, String)>>, Error>)
    ensures
        match play_options_of(*v) {
            Some(b) => r matches Ok(x) && opt_balancer(x) == b,
            None => r matches Err(Error::Http(_)),
        },
{
    if !is_struct_shape(v, 1) {
        return Err(Error::Http(string_of(chars_of("malformed play options").as_slice())));
    }
    let f = struct_field(v, "video_balancer", 0);
    let m = match f {
        None => {
            return Ok(None);
        },
        Some(JsonValue::Null) => {
            return Ok(None);
        },
        Some(JsonValue::Object(m)) => m,
        Some(_) => {
            return Err(Error::Http(string_of(chars_of("malformed play options").as_slice())));
        },
    };
    let mut out: Vec<(String, String)> = Vec::new();
    let mut i: usize = 0;
    while i < m.len()
        invariant
            i <= m@.len(),
            field_at(*v, "video_balancer"@, 0) == Some(JsonValue::Object(*m)),
            out@.len() == i,
            forall|j: int| 0 <= j < i ==> (#[trigger] m@[j]).1 is Str,
            forall|j: int| 0 <= j < i ==> balancer_views(out@)[j] == (m@[j].0@, str_text(m@[j].1)),
        decreases m@.len() - i,
    {
        match &m[i].1 {
            JsonValue::Str(u) => {
                let ghost before = out@;
                out.push((copy_string(&m[i].0), copy_string(u)));
                assert forall|j: int| 0 <= j < i + 1 implies balancer_views(out@)[j] == (m@[j].0@, str_text(m@[j].1)) by {
                    if j < i {
                        assert(out@[j] == before[j]);
                        assert(balancer_views(before)[j] == (before[j].0@, before[j].1@));
                    } else {
                        assert(m@[j].1 == JsonValue::Str(*u));
                        assert(out@[j].1@ == u@);
                        assert(out@[j].0@ == m@[j].0@);
                    }
                    assert(balancer_views(out@)[j] == (out@[j].0@, out@[j].1@));
                }
            },
            _ => {
                return Err(Error::Http(string_of(chars_of("malformed play options").as_slice())));
            },
        }
        i = i + 1;
    }
    assert(balancer_views(out@) =~= m@.map_values(|p: (String, JsonValue)| (p.0@, str_text(p.1))));
    Ok(Some(out))
}

pub fn streams_from_options(video_balancer: &Option<Vec<(String, String)>>, title: &str) -> (r: Result<Vec<Stream>, Error>)
    ensures
        balancer_streams(opt_balancer(*video_balancer), title@, r),
{
    let balancer = match video_balancer {
        Some(b) => b,
        None => {
            return Err(Error::NoStreamsFound);
        },
    };
    let ghost es = balancer_views(balancer@);
    let mut out: Vec<Stream> = Vec::new();
    let mut i: usize = 0;
    while i < balancer.len()
        invariant
            i <= balancer@.len(),
            es == balancer_views(balancer@),
            opt_balancer(*video_balancer) == Some(es),
            forall|j: int| 0 <= j < i ==> url_parse(#[trigger] es[j].1) is Some,
            out@.len() == i,
            forall|j: int|
                0 <= j < i ==> is_rutube_stream(
                    #[trigger] out@[j],
                    url_parse(es[j].1).unwrap(),
                    es[j].1,
                    title@ + " ("@ + es[j].0 + ")"@,
                ),
        decreases balancer@.len() - i,
    {
        let (name, url) = (&balancer[i].0, &balancer[i].1);
        assert(es[i as int] == (name@, url@));
        let is_hls = contains(&chars_of(url.as_str()), &chars_of(".m3u8"));
        let u = match parse_web_url(url.as_str()) {
            Ok(u) => u,
            Err(e) => {
                assert(url_parse(es[i as int].1) is None);
                return Err(Error::InvalidUrl(e));
            },
        };
        let mut label = chars_of(title);
        push_str(&mut label, " (");
        push_str(&mut label, name.as_str());
        push_str(&mut label, ")");
        out.push(Stream {
            url: u,
            kind: MediaKind::Video,
            label: Some(string_of(label.as_slice())),
            download_user_agent: None,
            mux_audio: None,
            hls: is_hls,
            download_referer: Some(REFERER),
        });
        i = i + 1;
    }
    if out.len() == 0 {
        return Err(Error::NoStreamsFound);
    }
    Ok(out)
}

/// The number in the label after its last `(`, without trailing `)`s; 0 when none.
pub open spec fn rank_of_label(label: Option<Seq<char>>) -> nat {
    match label {
        Some(l) => {
            let after = match rfind_char(l, '(') {
                Some(i) => l.subrange(i + 1, l.len() as int),
                None => l,
            };
            match parse_uint(strip_end_in(after, seq![')']), u32::MAX as nat) {
                Some(n) => n,
                None => 0,
            }
        },
        None => 0,
    }
}

pub fn height_rank(stream: &Stream) -> (r: u32)
    ensures
        r as nat == rank_of_label(opt_view(stream.label)),
{
    match &stream.label {
        Some(l) => {
            let v = chars_of(l.as_str());
            let after = match rfind_ch(&v, '(') {
                Some(i) => {
                    proof {
                        crate::text::lemma_rfind_char(v@, '(');
                        assert(v@.len() == v.len());
                    }
                    slice_chars(&v, i + 1, v.len())
                },
                None => slice_chars(&v, 0, v.len()),
            };
            assert(v@.subrange(0, v@.len() as int) =~= v@);
            let close = [')'];
            assert(close@ =~= seq![')']);
            let n = strip_end_len(&after, &close);
            match parse_u32(&slice_chars(&after, 0, n)) {
                Some(h) => h,
                None => 0,
            }
        },
        None => 0,
    }
}

pub open spec fn rank_keys(s: Seq<Stream>) -> Seq<u64> {
    s.map_values(|x: Stream| rank_of_label(opt_view(x.label)) as u64)
}

/// `s` sorted stably by label rank, highest first.
pub open spec fn rank_sorted(s: Seq<Stream>) -> Seq<Stream> {
    desc_order(rank_keys(s), s.len()).map_values(|i: int| s[i])
}

/// The streams of `s` whose label rank is `h`, in order.
pub open spec fn of_rank(s: Seq<Stream>, h: nat) -> Seq<Stream>
    decreases s.len(),
{
    if s.len() == 0 {
        Seq::empty()
    } else if rank_of_label(opt_view(s.last().label)) == h {
        of_rank(s.drop_last(), h).push(s.last())
    } else {
        of_rank(s.drop_last(), h)
    }
}

/// Rutube's pick on streams sorted by label rank: all; the first; those of the
/// requested rank, or no streams.
pub open spec fn rutube_pick(s: Seq<Stream>, q: Quality, r: Result<Vec<Stream>, Error>) -> bool {
    let sorted = rank_sorted(s);
    match q {
        Quality::All => r matches Ok(v) && v@ == sorted,
        Quality::Best => r matches Ok(v) && v@ == seq![sorted[0]],
        Quality::Height(h) => if of_rank(sorted, h as nat).len() > 0 {
            r matches Ok(v) && v@ == of_rank(sorted, h as nat)
        } else {
            r == Err::<Vec<Stream>, Error>(Error::NoStreamsFound)
        },
    }
}

pub fn pick_quality(streams: Vec<Stream>, quality: Quality) -> (r: Result<Vec<Stream>, Error>)
    requires
        quality is Best ==> streams@.len() > 0,
    ensures
        streams@.len() == 0 && quality is All ==> (r matches Ok(v) && v@.len() == 0),
        streams@.len() == 0 && quality is Height ==> r == Err::<Vec<Stream>, Error>(Error::NoStreamsFound),
        rutube_pick(streams@, quality, r),
{
    let mut keys: Vec<u64> = Vec::new();
    let mut i: usize = 0;
    while i < streams.len()
        invariant
            i <= streams@.len(),
            keys@ == rank_keys(streams@.subrange(0, i as int)),
        decreases streams@.len() - i,
    {
        keys.push(height_rank(&streams[i]) as u64);
        i = i + 1;
        assert(keys@ =~= rank_keys(streams@.subrange(0, i as int)));
    }
    assert(streams@.subrange(0, streams@.len() as int) =~= streams@);
    let order = stable_desc_order(&keys);
    let sorted = reorder(&streams, &order);
    proof {
        lemma_desc_order_bounds(keys@, keys@.len());
        assert forall|j: int| 0 <= j < sorted@.len() implies #[trigger] sorted@[j] == rank_sorted(streams@)[j] by {
            assert(crate::order::usize_ints(order@)[j] == order@[j] as int);
        }
        assert(sorted@ =~= rank_sorted(streams@));
    }
    match quality {
        Quality::All => {
            let r: Result<Vec<Stream>, Error> = Ok(sorted);
            assert(rutube_pick(streams@, quality, r));
            r
        },
        Quality::Best => {
            let mut v: Vec<Stream> = Vec::new();
            v.push(sorted[0].copy_of());
            assert(v@ =~= seq![sorted@[0]]);
            let r: Result<Vec<Stream>, Error> = Ok(v);
            assert(rutube_pick(streams@, quality, r));
            r
        },
        Quality::Height(h) => {
            let mut picked: Vec<Stream> = Vec::new();
            let mut j: usize = 0;
            while j < sorted.len()
                invariant
                    j <= sorted@.len(),
                    picked@ == of_rank(sorted@.subrange(0, j as int), h as nat),
                decreases sorted@.len() - j,
            {
                assert(sorted@.subrange(0, j + 1).drop_last() =~= sorted@.subrange(0, j as int));
                if height_rank(&sorted[j]) == h {
                    picked.push(sorted[j].copy_of());
                }
                j = j + 1;
            }
            assert(sorted@.subrange(0, sorted@.len() as int) =~= sorted@);
            if picked.len() == 0 {
                let r: Result<Vec<Stream>, Error> = Err(Error::NoStreamsFound);
                assert(rutube_pick(streams@, quality, r));
                return r;
            }
            let r: Result<Vec<Stream>, Error> = Ok(picked);
            assert(rutube_pick(streams@, quality, r));
            r
        },
    }
}

} // verus!
