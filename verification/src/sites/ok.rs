//! OK.ru (Odnoklassniki): embed page metadata with per-quality MP4 URLs.

use vstd::prelude::*;
use crate::error::Error;
use crate::json_value::{get_bool, get_str, jbool, jget, jstr, opt_ref, JsonValue};
use crate::model::Stream;
use crate::quality::{exact_pick, pick_exact, Quality};
use crate::sites::common::{is_video_stream, video_stream};
use crate::text::{
    chars_of, ends_with, find, find_in, push_str, replace_all, replace_chars, same, slice_chars,
    starts_with, string_of, strip_end_in, strip_end_len,
};
use crate::weburl::{opt_view, parse_web_url, url_parse, UrlView, WebUrl};

verus! {

/// Referer that the OK.ru CDN expects.
pub const REFERER: &'static str = "https://ok.ru/";

/// Hosts of OK.ru: `ok.ru`, `m.ok.ru`, `mobile.ok.ru`, `odnoklassniki.ru`, and any
/// subdomain of `ok.ru`.
pub open spec fn ok_host(h: Seq<char>) -> bool {
    h == "ok.ru"@ || h == "m.ok.ru"@ || h == "mobile.ok.ru"@ || h == "odnoklassniki.ru"@
        || ends_with(h, ".ok.ru"@)
}

pub fn matches_host(url: &WebUrl) -> (r: bool)
    ensures
        r == (opt_view(url.host) matches Some(h) && ok_host(h)),
{
    match &url.host {
        Some(h) => {
            let v = chars_of(h.as_str());
            same(&v, &chars_of("ok.ru")) || same(&v, &chars_of("m.ok.ru")) || same(
                &v,
                &chars_of("mobile.ok.ru"),
            ) || same(&v, &chars_of("odnoklassniki.ru")) || crate::text::has_suffix(
                &v,
                &chars_of(".ok.ru"),
            )
        },
        None => false,
    }
}

pub open spec fn id_char(c: char) -> bool {
    ('0' <= c && c <= '9') || c == '-'
}

/// The id after `prefix` in `path`, without trailing slashes, when it is non-empty and
/// made of digits and dashes.
pub open spec fn id_after(path: Seq<char>, prefix: Seq<char>) -> Option<Seq<char>> {
    if starts_with(path, prefix) {
        let id = strip_end_in(path.subrange(prefix.len() as int, path.len() as int), seq!['/']);
        if id.len() > 0 && forall|i: int| 0 <= i < id.len() ==> id_char(#[trigger] id[i]) {
            Some(id)
        } else {
            None
        }
    } else {
        None
    }
}

/// The video id in an OK.ru path `/video/{id}` or `/videoembed/{id}`.
pub open spec fn ok_video_id(path: Seq<char>) -> Option<Seq<char>> {
    match id_after(path, "/video/"@) {
        Some(id) => Some(id),
        None => id_after(path, "/videoembed/"@),
    }
}

fn id_after_exec(path: &[char], prefix: &str) -> (r: Option<Vec<char>>)
    ensures
        match id_after(path@, prefix@) {
            Some(id) => r matches Some(v) && v@ == id,
            None => r is None,
        },
{
    let pre = chars_of(prefix);
    if !crate::text::has_prefix(path, &pre) {
        return None;
    }
    let rest = slice_chars(path, pre.len(), path.len());
    let slash = ['/'];
    assert(slash@ =~= seq!['/']);
    let n = strip_end_len(&rest, &slash);
    let id = slice_chars(&rest, 0, n);
    if id.len() == 0 {
        return None;
    }
    let mut i: usize = 0;
    while i < id.len()
        invariant
            i <= id@.len(),
            id@.len() > 0,
            pre@ == prefix@,
            starts_with(path@, prefix@),
            id@ == strip_end_in(path@.subrange(prefix@.len() as int, path@.len() as int), seq!['/']),
            forall|j: int| 0 <= j < i ==> id_char(#[trigger] id@[j]),
        decreases id@.len() - i,
    {
        let c = id[i];
        if !(('0' <= c && c <= '9') || c == '-') {
            assert(!id_char(id@[i as int]));
            return None;
        }
        i = i + 1;
    }
    Some(id)
}

pub fn video_id(url: &WebUrl) -> (r: Option<String>)
    ensures
        opt_view(r) == ok_video_id(url.path@),
{
    let p = chars_of(url.path.as_str());
    match id_after_exec(&p, "/video/") {
        Some(id) => Some(string_of(id.as_slice())),
        None => match id_after_exec(&p, "/videoembed/") {
            Some(id) => Some(string_of(id.as_slice())),
            None => None,
        },
    }
}

/// The height of an OK.ru quality name.
pub open spec fn name_height(name: Seq<char>) -> nat {
    if name == "full"@ {
        1080
    } else if name == "hd"@ {
        720
    } else if name == "sd"@ {
        480
    } else if name == "low"@ {
        360
    } else if name == "lowest"@ {
        240
    } else if name == "mobile"@ {
        144
    } else {
        0
    }
}

/// OK.ru's quality names, lowest first.
pub open spec fn ok_ladder() -> Seq<Seq<char>> {
    seq!["mobile"@, "lowest"@, "low"@, "sd"@, "hd"@, "full"@]
}

/// OK.ru's quality names climb the usual video heights: `mobile` 144, `lowest` 240,
/// `low` 360, `sd` 480, `hd` 720, `full` 1080, so a higher name always means a taller
/// picture; any other name has no known height (0).
pub proof fn law_ok_name_ladder(name: Seq<char>)
    ensures
        name_height(ok_ladder()[0]) == 144,
        name_height(ok_ladder()[1]) == 240,
        name_height(ok_ladder()[2]) == 360,
        name_height(ok_ladder()[3]) == 480,
        name_height(ok_ladder()[4]) == 720,
        name_height(ok_ladder()[5]) == 1080,
        forall|i: int, j: int|
            0 <= i < j < ok_ladder().len() ==> name_height(#[trigger] ok_ladder()[i]) < name_height(
                #[trigger] ok_ladder()[j],
            ),
        !ok_ladder().contains(name) ==> name_height(name) == 0,
{
    reveal_strlit("mobile");
    reveal_strlit("lowest");
    reveal_strlit("low");
    reveal_strlit("sd");
    reveal_strlit("hd");
    reveal_strlit("full");
    let l = ok_ladder();
    assert(l[0] == "mobile"@ && l[1] == "lowest"@ && l[2] == "low"@ && l[3] == "sd"@ && l[4] == "hd"@ && l[5] == "full"@);
    assert("mobile"@[0] != "lowest"@[0]);
    assert("hd"@[0] != "sd"@[0]);
    assert(l[0] != "full"@ && l[0] != "hd"@ && l[0] != "sd"@ && l[0] != "low"@ && l[0] != "lowest"@);
    assert("lowest"@.len() == 6 && "full"@.len() == 4 && "hd"@.len() == 2 && "sd"@.len() == 2 && "low"@.len() == 3);
    assert(l[1] != "full"@);
    assert(l[1] != "hd"@);
    assert(l[1] != "sd"@);
    assert(l[1] != "low"@);
    assert(l[2] != "full"@ && l[2] != "hd"@ && l[2] != "sd"@);
    assert(l[3] != "full"@ && l[3] != "hd"@);
    assert(l[4] != "full"@);
    if !l.contains(name) {
        assert(name != l[0] && name != l[1] && name != l[2] && name != l[3] && name != l[4] && name != l[5]);
    }
}

pub fn ok_name_height(name: &str) -> (r: u32)
    ensures
        r as nat == name_height(name@),
{
    let n = chars_of(name);
    if same(&n, &chars_of("full")) {
        1080
    } else if same(&n, &chars_of("hd")) {
        720
    } else if same(&n, &chars_of("sd")) {
        480
    } else if same(&n, &chars_of("low")) {
        360
    } else if same(&n, &chars_of("lowest")) {
        240
    } else if same(&n, &chars_of("mobile")) {
        144
    } else {
        0
    }
}

/// The `data-options` attribute value of the embed page, with `&quot;` decoded.
pub open spec fn data_options_text(html: Seq<char>) -> Option<Seq<char>> {
    let marker = "data-options=\""@;
    match find(html, marker) {
        Some(k) => {
            let rest = html.subrange(k + marker.len(), html.len() as int);
            match find(rest, "\""@) {
                Some(e) => Some(replace_all(rest.subrange(0, e), "&quot;"@, "\""@)),
                None => None,
            }
        },
        None => None,
    }
}

/// The JSON text of the embed's `data-options` (missing means no streams).
pub fn parse_data_options(html: &str) -> (r: Result<String, Error>)
    ensures
        match data_options_text(html@) {
            Some(t) => r matches Ok(s) && s@ == t,
            None => r == Err::<String, Error>(Error::NoStreamsFound),
        },
{
    let h = chars_of(html);
    let marker = chars_of("data-options=\"");
    assert(h@.subrange(0, h@.len() as int) =~= h@);
    let k = match find_in(&h, 0, &marker) {
        Some(k) => k,
        None => {
            return Err(Error::NoStreamsFound);
        },
    };
    proof {
        crate::text::lemma_find_props(h@, marker@);
        assert(h@.len() == h.len());
    }
    let start = k + marker.len();
    let quote = chars_of("\"");
    match find_in(&h, start, &quote) {
        Some(e) => {
            proof {
                crate::text::lemma_find_props(h@.subrange(start as int, h@.len() as int), quote@);
            }
            let raw = slice_chars(&h, start, start + e);
            assert(raw@ =~= h@.subrange(start as int, h@.len() as int).subrange(0, e as int));
            let pat = chars_of("&quot;");
            proof {
                reveal_strlit("&quot;");
            }
            let out = replace_chars(&raw, &pat, &chars_of("\""));
            Ok(string_of(out.as_slice()))
        },
        None => Err(Error::NoStreamsFound),
    }
}

/// Where the video metadata comes from.
pub enum MetadataSource<'a> {
    /// Embedded as a JSON value.
    Inline(&'a JsonValue),
    /// Embedded as JSON text, to parse.
    Text(&'a str),
    /// To fetch from this URL.
    Fetch(&'a str),
}

/// How the embed options point at the metadata: no `flashvars` is no stream; a
/// `flashvars.url` of an external player is refused; else `flashvars.metadata` (text or
/// value), else `flashvars.metadataUrl`.
pub open spec fn metadata_step(options: JsonValue, r: Result<MetadataSource, Error>) -> bool {
    match jget(options, "flashvars"@) {
        None => r == Err::<MetadataSource, Error>(Error::NoStreamsFound),
        Some(fv) => if jstr(jget(fv, "url"@)) is Some && jbool(jget(options, "isExternalPlayer"@))
            == Some(true) {
            r matches Err(Error::InvalidUrl(m)) && m@ == "external player: "@ + jstr(
                jget(fv, "url"@),
            ).unwrap()
        } else {
            match jget(fv, "metadata"@) {
                Some(JsonValue::Str(s)) => r matches Ok(MetadataSource::Text(t)) && t@ == s@,
                Some(v) => r matches Ok(MetadataSource::Inline(x)) && *x == v,
                None => match jstr(jget(fv, "metadataUrl"@)) {
                    Some(u) => r matches Ok(MetadataSource::Fetch(t)) && t@ == u,
                    None => r == Err::<MetadataSource, Error>(Error::NoStreamsFound),
                },
            }
        },
    }
}

pub fn metadata_source<'a>(options: &'a JsonValue) -> (r: Result<MetadataSource<'a>, Error>)
    ensures
        metadata_step(*options, r),
{
    let flashvars = match options.get("flashvars") {
        Some(f) => f,
        None => {
            return Err(Error::NoStreamsFound);
        },
    };
    if let Some(url) = get_str(flashvars, "url") {
        if get_bool(options, "isExternalPlayer") == Some(true) {
            let mut m = chars_of("external player: ");
            push_str(&mut m, url);
            return Err(Error::InvalidUrl(string_of(m.as_slice())));
        }
    }
    match flashvars.get("metadata") {
        Some(raw) => match raw {
            JsonValue::Str(s) => Ok(MetadataSource::Text(s.as_str())),
            _ => Ok(MetadataSource::Inline(raw)),
        },
        None => match get_str(flashvars, "metadataUrl") {
            Some(u) => Ok(MetadataSource::Fetch(u)),
            None => Err(Error::NoStreamsFound),
        },
    }
}

/// The usable entries of `videos`: each with a string `url` and not `disallowed`, as its
/// URL text and the height of its `name` (`?` when missing).
pub open spec fn video_entries(videos: Seq<JsonValue>) -> Seq<(Seq<char>, nat)>
    decreases videos.len(),
{
    if videos.len() == 0 {
        Seq::empty()
    } else {
        let prev = video_entries(videos.drop_last());
        let v = videos.last();
        match jstr(jget(v, "url"@)) {
            Some(u) => if jbool(jget(v, "disallowed"@)) == Some(true) {
                prev
            } else {
                prev.push(
                    (
                        u,
                        name_height(
                            match jstr(jget(v, "name"@)) {
                                Some(n) => n,
                                None => "?"@,
                            },
                        ),
                    ),
                )
            },
            None => prev,
        }
    }
}

pub open spec fn metadata_videos(metadata: JsonValue) -> Seq<JsonValue> {
    match jget(metadata, "videos"@) {
        Some(JsonValue::Array(a)) => a@,
        _ => Seq::empty(),
    }
}

/// The streams in OK.ru metadata: progressive MP4 per usable entry of `videos`, labelled
/// by height, with the OK.ru referer; a URL that does not parse is an error, and no
/// entries means no streams.
pub open spec fn metadata_streams(metadata: JsonValue, r: Result<Vec<Stream>, Error>) -> bool {
    let es = video_entries(metadata_videos(metadata));
    if exists|i: int| 0 <= i < es.len() && url_parse(#[trigger] es[i].0) is None {
        r matches Err(Error::InvalidUrl(_))
    } else if es.len() == 0 {
        r == Err::<Vec<Stream>, Error>(Error::NoStreamsFound)
    } else {
        r matches Ok(v) && v@.len() == es.len() && forall|i: int|
            0 <= i < es.len() ==> is_video_stream(
                #[trigger] v@[i],
                url_parse(es[i].0).unwrap(),
                es[i].1,
                false,
                Some(REFERER),
            )
    }
}

pub fn streams_from_metadata(metadata: &JsonValue) -> (r: Result<Vec<Stream>, Error>)
    ensures
        metadata_streams(*metadata, r),
{
    let empty: Vec<JsonValue> = Vec::new();
    let videos: &Vec<JsonValue> = match metadata.get("videos") {
        Some(JsonValue::Array(a)) => a,
        _ => &empty,
    };
    let ghost vs = metadata_videos(*metadata);
    assert(videos@ == vs);
    let mut streams: Vec<Stream> = Vec::new();
    let mut i: usize = 0;
    while i < videos.len()
        invariant
            i <= videos@.len(),
            videos@ == vs,
            vs == metadata_videos(*metadata),
            forall|j: int| 0 <= j < video_entries(vs.subrange(0, i as int)).len() ==> url_parse(#[trigger] video_entries(vs.subrange(0, i as int))[j].0) is Some,
            streams@.len() == video_entries(vs.subrange(0, i as int)).len(),
            forall|j: int|
                0 <= j < streams@.len() ==> is_video_stream(
                    #[trigger] streams@[j],
                    url_parse(video_entries(vs.subrange(0, i as int))[j].0).unwrap(),
                    video_entries(vs.subrange(0, i as int))[j].1,
                    false,
                    Some(REFERER),
                ),
        decreases videos@.len() - i,
    {
        let video = &videos[i];
        assert(vs.subrange(0, i + 1).drop_last() =~= vs.subrange(0, i as int));
        assert(vs.subrange(0, i + 1).last() == *video);
        if let Some(url) = get_str(video, "url") {
            if get_bool(video, "disallowed") != Some(true) {
                let name: &str = match get_str(video, "name") {
                    Some(n) => n,
                    None => "?",
                };
                let height = ok_name_height(name);
                match parse_web_url(url) {
                    Ok(u) => {
                        let ghost old = streams@;
                        streams.push(video_stream(u, height, false, Some(REFERER)));
                        assert(forall|j: int| 0 <= j < old.len() ==> streams@[j] == old[j]);
                    },
                    Err(e) => {
                        proof {
                            lemma_entries_grow(vs, (i + 1) as nat, vs.len());
                            let es = video_entries(vs);
                            assert(vs.subrange(0, vs.len() as int) =~= vs);
                            let k = video_entries(vs.subrange(0, i as int)).len() as int;
                            assert(url_parse(es[k].0) is None);
                        }
                        return Err(Error::InvalidUrl(e));
                    },
                }
            }
        }
        i = i + 1;
    }
    assert(vs.subrange(0, vs.len() as int) =~= vs);
    if streams.len() == 0 {
        return Err(Error::NoStreamsFound);
    }
    Ok(streams)
}

/// Entries of a shorter prefix are a prefix of the entries of a longer one.
pub proof fn lemma_entries_grow(vs: Seq<JsonValue>, n: nat, m: nat)
    requires
        n <= m <= vs.len(),
    ensures
        video_entries(vs.subrange(0, n as int)).len() <= video_entries(vs.subrange(0, m as int)).len(),
        forall|j: int|
            0 <= j < video_entries(vs.subrange(0, n as int)).len() ==> #[trigger] video_entries(
                vs.subrange(0, m as int),
            )[j] == video_entries(vs.subrange(0, n as int))[j],
    decreases m - n,
{
    if n < m {
        lemma_entries_grow(vs, n, (m - 1) as nat);
        assert(vs.subrange(0, m as int).drop_last() =~= vs.subrange(0, m - 1));
    }
}

/// Pick by height with OK.ru's rules (all streams of the requested height, else the
/// highest below it).
pub fn pick_quality(streams: Vec<Stream>, quality: Quality) -> (r: Result<Vec<Stream>, Error>)
    requires
        quality is Best ==> streams@.len() > 0,
    ensures
        streams@.len() == 0 && quality is All ==> (r matches Ok(v) && v@.len() == 0),
        streams@.len() == 0 && quality is Height ==> r == Err::<Vec<Stream>, Error>(Error::NoStreamsFound),
        exact_pick(streams@, quality, false, r),
{
    pick_exact(streams, quality, false)
}

} // verus!
