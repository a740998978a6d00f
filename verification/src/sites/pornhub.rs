//! Pornhub: the `flashvars_*` embed JSON and its `mediaDefinitions` (HLS and a remote
//! list of progressive MP4s).

use vstd::prelude::*;
use crate::error::Error;
use crate::extract::json::json_object_prefix;
use crate::extract::json::extract_json_object;
use crate::json_value::{
    de_opt_bool, de_opt_string, de_opt_u32, de_string, decode_opt_bool, decode_opt_string,
    decode_opt_u32, decode_string, jget, member, opt_ref, JsonValue,
};
use crate::model::Stream;
use crate::sites::common::{host_chars, is_video_stream, strip_www, strip_www_of, video_stream};
use crate::text::{
    chars_of, contains, contains_seq, ends_with, find, find_in, has_suffix, parse_u32, parse_uint,
    replace_all, replace_chars, same, slice_chars, string_of, trim, trimmed,
};
use crate::weburl::{first_value, opt_view, parse_web_url, query_pairs_of, query_value, url_parse, WebUrl};

verus! {

pub open spec fn pornhub_host(host: Seq<char>) -> bool {
    let h = strip_www(host);
    ends_with(h, "pornhub.com"@) || ends_with(h, ".pornhub.com"@) || ends_with(h, "pornhub.org"@)
        || ends_with(h, ".pornhub.org"@)
}

pub fn matches_host(url: &WebUrl) -> (r: bool)
    ensures
        r == (opt_view(url.host) matches Some(h) && pornhub_host(h)),
{
    match host_chars(url) {
        Some(host) => {
            let h = strip_www_of(&host);
            has_suffix(&h, &chars_of("pornhub.com")) || has_suffix(&h, &chars_of(".pornhub.com"))
                || has_suffix(&h, &chars_of("pornhub.org")) || has_suffix(
                &h,
                &chars_of(".pornhub.org"),
            )
        },
        None => false,
    }
}

/// The `viewkey` query value, when present and not empty.
pub open spec fn view_key_of(url: WebUrl) -> Option<Seq<char>> {
    match first_value(query_pairs_of(url), "viewkey"@) {
        Some(k) => if k.len() > 0 {
            Some(k)
        } else {
            None
        },
        None => None,
    }
}

pub fn view_key(url: &WebUrl) -> (r: Option<String>)
    ensures
        opt_view(r) == view_key_of(*url),
{
    match query_value(url, "viewkey") {
        Some(k) => if chars_of(k.as_str()).len() == 0 {
            None
        } else {
            Some(k)
        },
        None => None,
    }
}

/// The JSON text of the `var flashvars_<id> = {...}` object: after the first
/// `var flashvars_`, the balanced object that starts at the next `{`.
pub open spec fn flashvars_spec(html: Seq<char>) -> Option<Seq<char>> {
    let marker = "var flashvars_"@;
    match find(html, marker) {
        Some(p) => {
            let after = html.subrange(p + marker.len(), html.len() as int);
            match find(after, "{"@) {
                Some(b) => json_object_prefix(after.subrange(b, after.len() as int)),
                None => None,
            }
        },
        None => None,
    }
}

/// The flashvars object's text; a page without one has no streams.
pub fn flashvars_text(html: &str) -> (r: Result<String, Error>)
    ensures
        match flashvars_spec(html@) {
            Some(t) => r matches Ok(s) && s@ == t,
            None => r == Err::<String, Error>(Error::NoStreamsFound),
        },
{
    let h = chars_of(html);
    let marker = chars_of("var flashvars_");
    assert(h@.subrange(0, h@.len() as int) =~= h@);
    let p = match find_in(&h, 0, &marker) {
        Some(p) => p,
        None => {
            return Err(Error::NoStreamsFound);
        },
    };
    proof {
        crate::text::lemma_find_props(h@, marker@);
        assert(h@.len() == h.len());
    }
    let start = p + marker.len();
    let brace = chars_of("{");
    let b = match find_in(&h, start, &brace) {
        Some(b) => b,
        None => {
            return Err(Error::NoStreamsFound);
        },
    };
    proof {
        crate::text::lemma_find_props(h@.subrange(start as int, h@.len() as int), brace@);
    }
    let rest = slice_chars(&h, start + b, h.len());
    assert(rest@ =~= h@.subrange(start as int, h@.len() as int).subrange(
        b as int,
        h@.len() - start,
    ));
    match extract_json_object(string_of(rest.as_slice()).as_str()) {
        Some(t) => Ok(t),
        None => Err(Error::NoStreamsFound),
    }
}

/// What a `quality` value gives as a height: a string is parsed as `u32` (0 when it is
/// not one); a non-negative integer is cut to its low 32 bits; anything else is 0.
pub open spec fn quality_height(v: JsonValue) -> u32 {
    match v {
        JsonValue::Str(s) => match parse_uint(s@, u32::MAX as nat) {
            Some(n) => n as u32,
            None => 0,
        },
        JsonValue::Number(n) => match n.as_u64 {
            Some(x) => x as u32,
            None => 0,
        },
        _ => 0,
    }
}

pub fn parse_quality(value: &JsonValue) -> (r: u32)
    ensures
        r == quality_height(*value),
{
    match value {
        JsonValue::Str(s) => match parse_u32(&chars_of(s.as_str())) {
            Some(n) => n,
            None => 0,
        },
        JsonValue::Number(n) => match n.as_u64 {
            Some(x) => x as u32,
            None => 0,
        },
        _ => 0,
    }
}

/// One entry of `mediaDefinitions`. Of its `quality` value only the height it gives is
/// kept, which is all the stream logic reads.
pub struct MediaDefinition {
    pub height: Option<u32>,
    pub quality: u32,
    pub format: Option<String>,
    pub video_url: String,
    pub remote: Option<bool>,
}

/// A definition as plain values: height, quality height, format, URL text, remote.
pub type DefView = (Option<u32>, u32, Option<Seq<char>>, Seq<char>, Option<bool>);

impl View for MediaDefinition {
    type V = DefView;

    open spec fn view(&self) -> DefView {
        (self.height, self.quality, opt_view(self.format), self.video_url@, self.remote)
    }
}

pub open spec fn def_views(d: Seq<MediaDefinition>) -> Seq<DefView> {
    d.map_values(|x: MediaDefinition| x@)
}

/// The five fields of a definition: by name in an object, by position in an array of
/// exactly five (serde reads a struct from either); nothing from other values.
pub open spec fn def_fields(e: JsonValue) -> Option<Seq<Option<JsonValue>>> {
    match e {
        JsonValue::Object(m) => Some(
            seq![
                member(m@, "height"@),
                member(m@, "quality"@),
                member(m@, "format"@),
                member(m@, "videoUrl"@),
                member(m@, "remote"@),
            ],
        ),
        JsonValue::Array(a) => if a@.len() == 5 {
            Some(seq![Some(a@[0]), Some(a@[1]), Some(a@[2]), Some(a@[3]), Some(a@[4])])
        } else {
            None
        },
        _ => None,
    }
}

/// serde's reading of one definition: `quality` and a string `videoUrl` are required;
/// `height`, `format` and `remote` may be missing or null.
pub open spec fn decode_def(e: JsonValue) -> Option<DefView> {
    match def_fields(e) {
        None => None,
        Some(f) => match (de_opt_u32(f[0]), f[1], de_opt_string(f[2]), de_string(f[3]), de_opt_bool(f[4])) {
            (Some(h), Some(q), Some(fm), Some(u), Some(rm)) => Some((h, quality_height(q), fm, u, rm)),
            _ => None,
        },
    }
}

fn field<'a>(e: &'a JsonValue, key: &str, idx: usize) -> (r: Option<&'a JsonValue>)
    requires
        def_fields(*e) is Some,
        idx < 5,
        key@ == seq!["height"@, "quality"@, "format"@, "videoUrl"@, "remote"@][idx as int],
    ensures
        opt_ref(r) == def_fields(*e).unwrap()[idx as int],
{
    match e {
        JsonValue::Array(a) => Some(&a[idx]),
        _ => e.get(key),
    }
}

/// One definition, as serde reads it.
pub fn decode_definition(e: &JsonValue) -> (r: Option<MediaDefinition>)
    ensures
        match decode_def(*e) {
            Some(d) => r matches Some(m) && m@ == d,
            None => r is None,
        },
{
    let ok_shape = match e {
        JsonValue::Object(_) => true,
        JsonValue::Array(a) => a.len() == 5,
        _ => false,
    };
    if !ok_shape {
        return None;
    }
    proof {
        reveal_strlit("height");
        reveal_strlit("quality");
        reveal_strlit("format");
        reveal_strlit("videoUrl");
        reveal_strlit("remote");
    }
    let height = decode_opt_u32(field(e, "height", 0));
    let quality = field(e, "quality", 1);
    let format = decode_opt_string(field(e, "format", 2));
    let url = decode_string(field(e, "videoUrl", 3));
    let remote = decode_opt_bool(field(e, "remote", 4));
    match (height, quality, format, url, remote) {
        (Some(h), Some(q), Some(fm), Some(u), Some(rm)) => Some(
            MediaDefinition { height: h, quality: parse_quality(q), format: fm, video_url: u, remote: rm },
        ),
        _ => None,
    }
}

/// serde's reading of a list of definitions: an array all of whose items read.
pub open spec fn definitions_of(v: JsonValue) -> Option<Seq<DefView>> {
    match v {
        JsonValue::Array(a) => if forall|i: int| 0 <= i < a@.len() ==> decode_def(#[trigger] a@[i]) is Some {
            Some(a@.map_values(|x: JsonValue| decode_def(x).unwrap()))
        } else {
            None
        },
        _ => None,
    }
}

/// A list of definitions (the flashvars' `mediaDefinitions`, or the remote list); one
/// that serde would refuse is an error.
pub fn definitions_from_json(v: &JsonValue) -> (r: Result<Vec<MediaDefinition>, Error>)
    ensures
        match definitions_of(*v) {
            Some(ds) => r matches Ok(d) && def_views(d@) == ds,
            None => r matches Err(Error::InvalidUrl(_)),
        },
{
    let items = match v {
        JsonValue::Array(a) => a,
        _ => {
            return Err(Error::InvalidUrl(string_of(chars_of("media definitions are not a list").as_slice())));
        },
    };
    let mut out: Vec<MediaDefinition> = Vec::new();
    let mut i: usize = 0;
    while i < items.len()
        invariant
            i <= items@.len(),
            *v == JsonValue::Array(*items),
            out@.len() == i,
            forall|j: int| 0 <= j < i ==> decode_def(#[trigger] items@[j]) == Some(out@[j]@),
        decreases items@.len() - i,
    {
        match decode_definition(&items[i]) {
            Some(d) => {
                out.push(d);
            },
            None => {
                assert(decode_def(items@[i as int]) is None);
                return Err(Error::InvalidUrl(string_of(chars_of("malformed media definition").as_slice())));
            },
        }
        i = i + 1;
    }
    assert(def_views(out@) =~= items@.map_values(|x: JsonValue| decode_def(x).unwrap()));
    Ok(out)
}

/// The flashvars' `mediaDefinitions`: missing means no streams; malformed is an error.
pub fn media_definitions(flashvars: &JsonValue) -> (r: Result<Vec<MediaDefinition>, Error>)
    ensures
        match jget(*flashvars, "mediaDefinitions"@) {
            None => r == Err::<Vec<MediaDefinition>, Error>(Error::NoStreamsFound),
            Some(v) => match definitions_of(v) {
                Some(ds) => r matches Ok(d) && def_views(d@) == ds,
                None => r matches Err(Error::InvalidUrl(_)),
            },
        },
{
    match flashvars.get("mediaDefinitions") {
        Some(v) => definitions_from_json(v),
        None => Err(Error::NoStreamsFound),
    }
}

/// The index of the first definition marked `remote: true`.
pub open spec fn first_remote(ds: Seq<DefView>) -> Option<int>
    decreases ds.len(),
{
    if ds.len() == 0 {
        None
    } else if ds[0].4 == Some(true) {
        Some(0)
    } else {
        match first_remote(ds.drop_first()) {
            Some(k) => Some(k + 1),
            None => None,
        }
    }
}

/// The URL (trimmed) of the first remote definition, whose list replaces the
/// definitions; none when no definition is remote.
pub fn remote_url(defs: &Vec<MediaDefinition>) -> (r: Option<String>)
    ensures
        match first_remote(def_views(defs@)) {
            Some(k) => r matches Some(u) && u@ == trim(def_views(defs@)[k].3),
            None => r is None,
        },
{
    let ghost ds = def_views(defs@);
    let mut i: usize = 0;
    assert(ds.subrange(0, ds.len() as int) =~= ds);
    while i < defs.len()
        invariant
            i <= defs@.len(),
            ds == def_views(defs@),
            first_remote(ds) == (match first_remote(ds.subrange(i as int, ds.len() as int)) {
                Some(k) => Some(k + i),
                None => None::<int>,
            }),
        decreases defs@.len() - i,
    {
        let ghost rest = ds.subrange(i as int, ds.len() as int);
        assert(rest.drop_first() =~= ds.subrange(i + 1, ds.len() as int));
        assert(rest[0] == defs@[i as int]@);
        if defs[i].remote == Some(true) {
            let t = trimmed(&chars_of(defs[i].video_url.as_str()));
            return Some(string_of(t.as_slice()));
        }
        i = i + 1;
    }
    None
}

/// The URL of a definition with `\/` unescaped.
pub open spec fn unescaped(raw: Seq<char>) -> Seq<char> {
    replace_all(raw, "\\/"@, "/"@)
}

pub fn unescape_url(raw: &str) -> (r: String)
    ensures
        r@ == unescaped(raw@),
{
    let pat = chars_of("\\/");
    proof {
        reveal_strlit("\\/");
    }
    string_of(replace_chars(&chars_of(raw), &pat, &chars_of("/")).as_slice())
}

/// The streams the definitions give, in order, as (URL text, HLS, height): remote entries
/// and those of height 0 are skipped; the height is `height`, else the quality's.
pub open spec fn def_entries(ds: Seq<DefView>) -> Seq<(Seq<char>, bool, u32)>
    decreases ds.len(),
{
    if ds.len() == 0 {
        Seq::empty()
    } else {
        let prev = def_entries(ds.drop_last());
        let d = ds.last();
        let url = unescaped(d.3);
        let hls = d.2 == Some("hls"@) || contains_seq(url, ".m3u8"@);
        let h = match d.0 {
            Some(h) => h,
            None => d.1,
        };
        if d.4 == Some(true) || h == 0 {
            prev
        } else {
            prev.push((url, hls, h))
        }
    }
}

/// The streams of the definitions: a URL that does not parse is an error, and no entries
/// means no streams.
pub open spec fn definition_streams(ds: Seq<DefView>, r: Result<Vec<Stream>, Error>) -> bool {
    let es = def_entries(ds);
    if exists|i: int| 0 <= i < es.len() && url_parse(#[trigger] es[i].0) is None {
        r matches Err(Error::InvalidUrl(_))
    } else if es.len() == 0 {
        r == Err::<Vec<Stream>, Error>(Error::NoStreamsFound)
    } else {
        r matches Ok(v) && v@.len() == es.len() && forall|i: int|
            0 <= i < es.len() ==> is_video_stream(
                #[trigger] v@[i],
                url_parse(es[i].0).unwrap(),
                es[i].2 as nat,
                es[i].1,
                None,
            )
    }
}

/// Entries of a shorter prefix are a prefix of the entries of a longer one.
pub proof fn lemma_def_entries_grow(ds: Seq<DefView>, n: nat, m: nat)
    requires
        n <= m <= ds.len(),
    ensures
        def_entries(ds.subrange(0, n as int)).len() <= def_entries(ds.subrange(0, m as int)).len(),
        forall|j: int|
            0 <= j < def_entries(ds.subrange(0, n as int)).len() ==> #[trigger] def_entries(
                ds.subrange(0, m as int),
            )[j] == def_entries(ds.subrange(0, n as int))[j],
    decreases m - n,
{
    if n < m {
        lemma_def_entries_grow(ds, n, (m - 1) as nat);
        assert(ds.subrange(0, m as int).drop_last() =~= ds.subrange(0, m - 1));
    }
}

pub fn streams_from_definitions(defs: &Vec<MediaDefinition>) -> (r: Result<Vec<Stream>, Error>)
    ensures
        definition_streams(def_views(defs@), r),
{
    let ghost ds = def_views(defs@);
    let hls_name = chars_of("hls");
    let m3u8 = chars_of(".m3u8");
    let mut streams: Vec<Stream> = Vec::new();
    let mut i: usize = 0;
    while i < defs.len()
        invariant
            i <= defs@.len(),
            ds == def_views(defs@),
            hls_name@ == "hls"@,
            m3u8@ == ".m3u8"@,
            forall|j: int| 0 <= j < def_entries(ds.subrange(0, i as int)).len() ==> url_parse(#[trigger] def_entries(ds.subrange(0, i as int))[j].0) is Some,
            streams@.len() == def_entries(ds.subrange(0, i as int)).len(),
            forall|j: int|
                0 <= j < streams@.len() ==> is_video_stream(
                    #[trigger] streams@[j],
                    url_parse(def_entries(ds.subrange(0, i as int))[j].0).unwrap(),
                    def_entries(ds.subrange(0, i as int))[j].2 as nat,
                    def_entries(ds.subrange(0, i as int))[j].1,
                    None,
                ),
        decreases defs@.len() - i,
    {
        let d = &defs[i];
        assert(ds.subrange(0, i + 1).drop_last() =~= ds.subrange(0, i as int));
        assert(ds.subrange(0, i + 1).last() == d@);
        let h: u32 = match d.height {
            Some(h) => h,
            None => d.quality,
        };
        if d.remote != Some(true) && h != 0 {
            let url = unescape_url(d.video_url.as_str());
            let is_fmt = match &d.format {
                Some(f) => same(&chars_of(f.as_str()), &hls_name),
                None => false,
            };
            let is_hls = is_fmt || contains(&chars_of(url.as_str()), &m3u8);
            match parse_web_url(url.as_str()) {
                Ok(u) => {
                    let ghost old = streams@;
                    streams.push(video_stream(u, h, is_hls, None));
                    assert(forall|j: int| 0 <= j < old.len() ==> streams@[j] == old[j]);
                },
                Err(e) => {
                    proof {
                        lemma_def_entries_grow(ds, (i + 1) as nat, ds.len());
                        let es = def_entries(ds);
                        assert(ds.subrange(0, ds.len() as int) =~= ds);
                        let k = def_entries(ds.subrange(0, i as int)).len() as int;
                        assert(url_parse(es[k].0) is None);
                    }
                    return Err(Error::InvalidUrl(e));
                },
            }
        }
        i = i + 1;
    }
    assert(ds.subrange(0, ds.len() as int) =~= ds);
    if streams.len() == 0 {
        return Err(Error::NoStreamsFound);
    }
    Ok(streams)
}

/// A stream on the Pornhub CDN, whose tokens are bound to IP and time and so are signed
/// anew before download.
pub open spec fn on_cdn(s: Stream) -> bool {
    opt_view(s.url.host) matches Some(h) && contains_seq(h, "phncdn.com"@)
}

pub fn needs_refresh(stream: &Stream) -> (r: bool)
    ensures
        r == on_cdn(*stream),
{
    match host_chars(&stream.url) {
        Some(h) => contains(&h, &chars_of("phncdn.com")),
        None => false,
    }
}

} // verus!
