//! VK Video: video keys from page URLs, and the `al_video.php` embed answer's sources.

use vstd::prelude::*;
use crate::error::Error;
use crate::model::Stream;
use crate::quality::{exact_pick, pick_exact, Quality};
use crate::sites::common::{host_chars, is_video_stream, video_stream};
use crate::text::{
    after_first, after_first_of, char_is_ws, chars_of, contains, contains_seq, ends_with, find,
    find_in, has_prefix, has_suffix, is_digit, is_ws, push_chars, push_str, replace_all,
    replace_chars, same, slice_chars, starts_with, string_of, strip_start_in, strip_start_pos,
};
use crate::weburl::{form_pairs, opt_view, pair_views, parse_web_url, query_pairs_of, url_parse, WebUrl};

verus! {

/// Referer that the VK CDN expects.
pub const REFERER: &'static str = "https://vk.com/";

pub open spec fn vk_host(h: Seq<char>) -> bool {
    h == "vk.com"@ || h == "vk.ru"@ || h == "m.vk.com"@ || h == "vkvideo.ru"@ || ends_with(h, ".vk.com"@)
}

pub fn matches_host(url: &WebUrl) -> (r: bool)
    ensures
        r == (opt_view(url.host) matches Some(h) && vk_host(h)),
{
    match host_chars(url) {
        Some(h) => same(&h, &chars_of("vk.com")) || same(&h, &chars_of("vk.ru")) || same(&h, &chars_of("m.vk.com"))
            || same(&h, &chars_of("vkvideo.ru")) || has_suffix(&h, &chars_of(".vk.com")),
        None => false,
    }
}

/// The key `-{owner}_{video}`: leading `-`s dropped, split at the first `_`, both parts
/// non-empty, the owner given a `-`.
pub open spec fn key_of(raw: Seq<char>) -> Option<Seq<char>> {
    let key = strip_start_in(raw, seq!['-']);
    match find(key, "_"@) {
        Some(u) => {
            let oid = key.subrange(0, u);
            let id = key.subrange(u + 1, key.len() as int);
            if oid.len() == 0 || id.len() == 0 {
                None
            } else {
                Some("-"@ + oid + "_"@ + id)
            }
        },
        None => None,
    }
}

pub fn normalize_key(raw: &str) -> (r: Option<String>)
    ensures
        opt_view(r) == key_of(raw@),
{
    let v = chars_of(raw);
    let dash = ['-'];
    assert(dash@ =~= seq!['-']);
    let a = strip_start_pos(&v, &dash);
    let key = slice_chars(&v, a, v.len());
    let us = chars_of("_");
    assert(key@.subrange(0, key@.len() as int) =~= key@);
    let u = match find_in(&key, 0, &us) {
        Some(u) => u,
        None => {
            return None;
        },
    };
    proof {
        crate::text::lemma_find_props(key@, us@);
        reveal_strlit("_");
        assert(key@.len() == key.len());
    }
    if u == 0 || u + 1 >= key.len() {
        return None;
    }
    let mut out = chars_of("-");
    push_chars(&mut out, &slice_chars(&key, 0, u));
    push_str(&mut out, "_");
    push_chars(&mut out, &slice_chars(&key, u + 1, key.len()));
    Some(string_of(out.as_slice()))
}

/// The value of the first query pair whose key is `z` or `id`.
pub open spec fn z_or_id(pairs: Seq<(Seq<char>, Seq<char>)>) -> Option<Seq<char>>
    decreases pairs.len(),
{
    if pairs.len() == 0 {
        None
    } else if pairs[0].0 == "z"@ || pairs[0].0 == "id"@ {
        Some(pairs[0].1)
    } else {
        z_or_id(pairs.drop_first())
    }
}

/// The video key from the `z` or `id` query value, else from the path after `/video`.
pub open spec fn vk_key(url: WebUrl) -> Option<Seq<char>> {
    match z_or_id(query_pairs_of(url)) {
        Some(q) => key_of(q),
        None => if starts_with(url.path@, "/video"@) {
            key_of(url.path@.subrange(6, url.path@.len() as int))
        } else {
            None
        },
    }
}

pub fn video_key(url: &WebUrl) -> (r: Option<String>)
    ensures
        opt_view(r) == vk_key(*url),
{
    let pairs: Vec<(String, String)> = match &url.query {
        Some(q) => crate::weburl::decode_form_pairs(q.as_str()),
        None => Vec::new(),
    };
    let ghost all = pair_views(pairs@);
    assert(all == query_pairs_of(*url));
    let z = chars_of("z");
    let id = chars_of("id");
    let mut i: usize = 0;
    assert(all.subrange(0, all.len() as int) =~= all);
    while i < pairs.len()
        invariant
            i <= pairs@.len(),
            all == pair_views(pairs@),
            all == query_pairs_of(*url),
            z@ == "z"@,
            id@ == "id"@,
            z_or_id(all) == z_or_id(all.subrange(i as int, all.len() as int)),
        decreases pairs@.len() - i,
    {
        let ghost rest = all.subrange(i as int, all.len() as int);
        assert(rest.drop_first() =~= all.subrange(i + 1, all.len() as int));
        assert(rest[0] == (pairs@[i as int].0@, pairs@[i as int].1@));
        let k = chars_of(pairs[i].0.as_str());
        if same(&k, &z) || same(&k, &id) {
            assert(rest[0].0 == "z"@ || rest[0].0 == "id"@);
            assert(z_or_id(rest) == Some(rest[0].1));
            return normalize_key(pairs[i].1.as_str());
        }
        i = i + 1;
    }
    assert(all.subrange(i as int, all.len() as int).len() == 0);
    let p = chars_of(url.path.as_str());
    if !has_prefix(&p, &chars_of("/video")) {
        return None;
    }
    proof {
        reveal_strlit("/video");
    }
    normalize_key(string_of(slice_chars(&p, 6, p.len()).as_slice()).as_str())
}

/// The embed answer with `\/`, `\"` and `&amp;` decoded, in that order.
pub open spec fn decoded_payload(text: Seq<char>) -> Seq<char> {
    replace_all(replace_all(replace_all(text, "\\/"@, "/"@), "\\\""@, "\""@), "&amp;"@, "&"@)
}

pub fn decode_vk_payload(text: &str) -> (r: String)
    ensures
        r@ == decoded_payload(text@),
{
    proof {
        reveal_strlit("\\/");
        reveal_strlit("\\\"");
        reveal_strlit("&amp;");
    }
    let a = replace_chars(&chars_of(text), &chars_of("\\/"), &chars_of("/"));
    let b = replace_chars(&a, &chars_of("\\\""), &chars_of("\""));
    let c = replace_chars(&b, &chars_of("&amp;"), &chars_of("&"));
    string_of(c.as_slice())
}

/// A character that ends a URL in the answer: a quote, `<`, or whitespace.
pub open spec fn stops_url(c: char) -> bool {
    c == '"' || c == '\'' || c == '<' || is_ws(c)
}

/// The characters of `s` before the first one that ends a URL.
pub open spec fn before_stop(s: Seq<char>) -> Seq<char>
    decreases s.len(),
{
    if s.len() > 0 && !stops_url(s[0]) {
        seq![s[0]] + before_stop(s.drop_first())
    } else {
        Seq::empty()
    }
}

proof fn lemma_before_stop_len(s: Seq<char>)
    ensures
        before_stop(s).len() <= s.len(),
        before_stop(s) == s.subrange(0, before_stop(s).len() as int),
    decreases s.len(),
{
    if s.len() > 0 && !stops_url(s[0]) {
        lemma_before_stop_len(s.drop_first());
        assert(before_stop(s) =~= s.subrange(0, before_stop(s).len() as int));
    } else {
        assert(before_stop(s) =~= s.subrange(0, 0));
    }
}

/// The URLs in `t` from position `from` on: each starts at the next `https://` and runs
/// to the character that ends it (or the end of the text).
pub open spec fn url_candidates(t: Seq<char>, from: int) -> Seq<Seq<char>>
    decreases t.len() - from,
{
    if from < 0 || from >= t.len() {
        Seq::empty()
    } else {
        match find(t.subrange(from, t.len() as int), "https://"@) {
            Some(idx) => {
                let start = from + idx;
                let end = start + 8 + before_stop(t.subrange(start + 8, t.len() as int)).len();
                if 0 <= idx && start + 8 <= end <= t.len() {
                    seq![t.subrange(start, end)] + url_candidates(t, end)
                } else {
                    Seq::empty()
                }
            },
            None => Seq::empty(),
        }
    }
}

/// The height a `type=` digit of a VK CDN URL stands for.
pub open spec fn type_digit_height(d: nat) -> u32 {
    if 5 <= d <= 7 {
        1080
    } else if d == 3 {
        720
    } else if d == 2 {
        480
    } else if d == 1 {
        360
    } else if d == 0 {
        240
    } else if d == 4 {
        144
    } else {
        0
    }
}

/// The height from the digit right after the first `type=`, if there is one.
pub open spec fn type_height(url: Seq<char>) -> Option<u32> {
    match after_first(url, "type="@) {
        Some(rest) => if rest.len() > 0 && is_digit(rest[0]) {
            Some(type_digit_height(((rest[0] as u32) - ('0' as u32)) as nat))
        } else {
            None
        },
        None => None,
    }
}

pub fn vk_type_height(url: &str) -> (r: Option<u32>)
    ensures
        r == type_height(url@),
{
    let v = chars_of(url);
    proof {
        reveal_strlit("type=");
    }
    match after_first_of(&v, &chars_of("type=")) {
        Some(rest) => {
            if rest.len() > 0 && '0' <= rest[0] && rest[0] <= '9' {
                let d = (rest[0] as u32) - 48;
                let h: u32 = if 5 <= d && d <= 7 {
                    1080
                } else if d == 3 {
                    720
                } else if d == 2 {
                    480
                } else if d == 1 {
                    360
                } else if d == 0 {
                    240
                } else if d == 4 {
                    144
                } else {
                    0
                };
                Some(h)
            } else {
                None
            }
        },
        None => None,
    }
}

/// What a URL of the answer gives: nothing for a preview, or for what is neither an HLS
/// playlist nor a progressive file on the CDN; else whether it is HLS, and its height
/// (from `type=`, else 1080 for HLS and 720 for a file).
pub open spec fn source_entry(url: Seq<char>) -> Option<(Seq<char>, bool, u32)> {
    if contains_seq(url, "getVideoPreview"@) {
        None
    } else {
        let hls = contains_seq(url, ".m3u8"@);
        let mp4 = contains_seq(url, "vkvd"@) && contains_seq(url, "okcdn.ru"@) && !hls;
        if hls || mp4 {
            let h = match type_height(url) {
                Some(h) => h,
                None => if hls {
                    1080u32
                } else {
                    720u32
                },
            };
            Some((url, hls, h))
        } else {
            None
        }
    }
}

/// The sources of a list of candidate URLs, in order.
pub open spec fn source_entries(c: Seq<Seq<char>>) -> Seq<(Seq<char>, bool, u32)>
    decreases c.len(),
{
    if c.len() == 0 {
        Seq::empty()
    } else {
        match source_entry(c[0]) {
            Some(e) => seq![e] + source_entries(c.drop_first()),
            None => source_entries(c.drop_first()),
        }
    }
}

/// The streams in the (decoded) embed answer: a source URL that does not parse is an
/// error; no sources is no streams.
pub open spec fn sources_result(text: Seq<char>, r: Result<Vec<Stream>, Error>) -> bool {
    let es = source_entries(url_candidates(text, 0));
    if exists|i: int| 0 <= i < es.len() && url_parse(#[trigger] es[i].0) is None {
        r matches Err(Error::InvalidUrl(_))
    } else if es.len() == 0 {
        r == Err::<Vec<Stream>, Error>(Error::NoStreamsFound)
    } else {
        r matches Ok(v) && v@.len() == es.len() && forall|i: int|
            0 <= i < es.len() ==> is_video_stream(
                #[trigger] v@[i],
                url_parse(es[i].0).unwrap(),
                es[i].2 as nat,
                es[i].1,
                Some(REFERER),
            )
    }
}

fn source_of(url: &Vec<char>) -> (r: Option<(bool, u32)>)
    ensures
        match source_entry(url@) {
            Some(e) => r == Some((e.1, e.2)),
            None => r is None,
        },
{
    if contains(url, &chars_of("getVideoPreview")) {
        return None;
    }
    let hls = contains(url, &chars_of(".m3u8"));
    let mp4 = contains(url, &chars_of("vkvd")) && contains(url, &chars_of("okcdn.ru")) && !hls;
    if !hls && !mp4 {
        return None;
    }
    let h = match vk_type_height(string_of(url.as_slice()).as_str()) {
        Some(h) => h,
        None => if hls {
            1080
        } else {
            720
        },
    };
    Some((hls, h))
}

/// The end of the URL that starts at `start` (just past its last character).
fn url_end(t: &Vec<char>, start: usize) -> (end: usize)
    requires
        start + 8 <= t@.len(),
    ensures
        end == start + 8 + before_stop(t@.subrange(start + 8, t@.len() as int)).len(),
        end <= t@.len(),
{
    assert(t@.len() == t.len());
    let mut i: usize = start + 8;
    proof {
        lemma_before_stop_len(t@.subrange(start + 8, t@.len() as int));
    }
    while i < t.len() && !(t[i] == '"' || t[i] == '\'' || t[i] == '<' || char_is_ws(t[i]))
        invariant
            start + 8 <= i <= t@.len(),
            before_stop(t@.subrange(start + 8, t@.len() as int)) == t@.subrange(start + 8, i as int)
                + before_stop(t@.subrange(i as int, t@.len() as int)),
        decreases t@.len() - i,
    {
        let ghost rest = t@.subrange(i as int, t@.len() as int);
        assert(rest.drop_first() =~= t@.subrange(i + 1, t@.len() as int));
        assert(t@.subrange(start + 8, i + 1) =~= t@.subrange(start + 8, i as int) + seq![rest[0]]);
        i = i + 1;
    }
    assert(before_stop(t@.subrange(i as int, t@.len() as int)) =~= Seq::<char>::empty());
    assert(t@.subrange(start + 8, i as int).len() == i - start - 8);
    i
}

/// The video sources in the decoded embed answer, in order of appearance.
pub fn parse_sources(text: &str) -> (r: Result<Vec<Stream>, Error>)
    ensures
        sources_result(text@, r),
{
    let t = chars_of(text);
    let needle = chars_of("https://");
    proof {
        reveal_strlit("https://");
    }
    let ghost full = source_entries(url_candidates(t@, 0));
    let ghost mut done: Seq<(Seq<char>, bool, u32)> = Seq::empty();
    let mut streams: Vec<Stream> = Vec::new();
    let mut pos: usize = 0;
    loop
        invariant
            pos <= t@.len(),
            t@ == text@,
            needle@ == "https://"@,
            full == source_entries(url_candidates(t@, 0)),
            full == done + source_entries(url_candidates(t@, pos as int)),
            forall|j: int| 0 <= j < done.len() ==> url_parse(#[trigger] done[j].0) is Some,
            streams@.len() == done.len(),
            forall|j: int|
                0 <= j < done.len() ==> is_video_stream(
                    #[trigger] streams@[j],
                    url_parse(done[j].0).unwrap(),
                    done[j].2 as nat,
                    done[j].1,
                    Some(REFERER),
                ),
        ensures
            full == done,
            t@ == text@,
            full == source_entries(url_candidates(t@, 0)),
            forall|j: int| 0 <= j < done.len() ==> url_parse(#[trigger] done[j].0) is Some,
            streams@.len() == done.len(),
            forall|j: int|
                0 <= j < done.len() ==> is_video_stream(
                    #[trigger] streams@[j],
                    url_parse(done[j].0).unwrap(),
                    done[j].2 as nat,
                    done[j].1,
                    Some(REFERER),
                ),
        decreases t@.len() - pos,
    {
        if pos >= t.len() {
            assert(url_candidates(t@, pos as int) =~= Seq::<Seq<char>>::empty());
            assert(full =~= done);
            break;
        }
        let idx = match find_in(&t, pos, &needle) {
            Some(i) => i,
            None => {
                assert(url_candidates(t@, pos as int) =~= Seq::<Seq<char>>::empty());
                assert(full =~= done);
                break;
            },
        };
        proof {
            reveal_strlit("https://");
            crate::text::lemma_find_props(t@.subrange(pos as int, t@.len() as int), needle@);
            assert(t@.len() == t.len());
        }
        let start = pos + idx;
        let end = url_end(&t, start);
        let url = slice_chars(&t, start, end);
        let ghost cands = url_candidates(t@, pos as int);
        assert(cands == seq![url@] + url_candidates(t@, end as int));
        assert((seq![url@] + url_candidates(t@, end as int)).drop_first() =~= url_candidates(t@, end as int));
        assert((seq![url@] + url_candidates(t@, end as int))[0] == url@);
        match source_of(&url) {
            Some((hls, h)) => {
                let ghost e = (url@, hls, h);
                assert(source_entries(cands) == seq![e] + source_entries(url_candidates(t@, end as int)));
                match parse_web_url(string_of(url.as_slice()).as_str()) {
                    Ok(u) => {
                        let ghost old = streams@;
                        streams.push(video_stream(u, h, hls, Some(REFERER)));
                        proof {
                            assert(forall|j: int| 0 <= j < old.len() ==> streams@[j] == old[j]);
                            done = done.push(e);
                            assert(full =~= done + source_entries(url_candidates(t@, end as int)));
                        }
                    },
                    Err(msg) => {
                        proof {
                            assert(full[done.len() as int] == e);
                            assert(url_parse(full[done.len() as int].0) is None);
                        }
                        return Err(Error::InvalidUrl(msg));
                    },
                }
            },
            None => {
                assert(source_entries(cands) == source_entries(url_candidates(t@, end as int)));
            },
        }
        pos = end;
    }
    if streams.len() == 0 {
        return Err(Error::NoStreamsFound);
    }
    Ok(streams)
}

/// Pick by height with VK's rules: progressive files first, then by height, highest
/// first; all streams of the requested height, else the first below it.
pub fn pick_quality(streams: Vec<Stream>, quality: Quality) -> (r: Result<Vec<Stream>, Error>)
    requires
        quality is Best ==> streams@.len() > 0,
    ensures
        streams@.len() == 0 && quality is All ==> (r matches Ok(v) && v@.len() == 0),
        streams@.len() == 0 && quality is Height ==> r == Err::<Vec<Stream>, Error>(Error::NoStreamsFound),
        exact_pick(streams@, quality, true, r),
{
    pick_exact(streams, quality, true)
}

} // verus!
