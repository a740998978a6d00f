//! Shared helpers for site plugins.

use vstd::prelude::*;
use crate::error::Error;
use crate::hls::{master_result, parse_master_with_base, scan_master, variant_views, MasterScan, MasterVariant};
use crate::model::{MediaKind, Stream};
use crate::quality::{height_hint, height_of, label_height};
use crate::text::{all_digits, chars_of, dec, is_digit, lines_spec, strip_end_in, push_dec, push_str, starts_with, string_of, trim_start};
use crate::weburl::{join_web_url, opt_view, url_join, url_parse, UrlView, WebUrl};

verus! {

/// The browser User-Agent sent to sites and CDNs.
pub const BROWSER_UA: &'static str = "Mozilla/5.0 (Macintosh; Intel Mac OS X 10_15_7) AppleWebKit/537.36 (KHTML, like Gecko) Chrome/131.0.0.0 Safari/537.36";

/// The label `"{height}p"`.
pub open spec fn height_label(h: nat) -> Seq<char> {
    dec(h) + "p"@
}

pub fn height_label_of(height: u32) -> (r: String)
    ensures
        r@ == height_label(height as nat),
{
    let mut v: Vec<char> = Vec::new();
    push_dec(&mut v, height as u64);
    push_str(&mut v, "p");
    string_of(v.as_slice())
}

/// The label `"{h}p"` announces the height `h` again.
pub proof fn lemma_height_label(h: u32)
    ensures
        label_height(Some(height_label(h as nat))) == h,
{
    reveal_strlit("p");
    crate::text::lemma_dec_reads_back(h as nat);
    let d = dec(h as nat);
    let l = height_label(h as nat);
    assert(l.drop_last() =~= d);
    assert(l.last() == 'p');
    assert(seq!['p'].contains('p')) by {
        assert(seq!['p'][0] == 'p');
    }
    assert(is_digit(d.last()));
    assert(!seq!['p'].contains(d.last())) by {
        if seq!['p'].contains(d.last()) {
            let k = choose|k: int| 0 <= k < 1 && seq!['p'][k] == d.last();
            assert(seq!['p'][k] == 'p');
        }
    }
    assert(strip_end_in(l, seq!['p']) == strip_end_in(d, seq!['p']));
    assert(strip_end_in(d, seq!['p']) == d);
    assert(is_digit(d[0]));
}

/// Every site stream reports, as its height, the height it was made with.
pub proof fn lemma_video_stream_height(s: Stream, url: UrlView, h: u32, hls: bool, referer: Option<&'static str>)
    requires
        is_video_stream(s, url, h as nat, hls, referer),
    ensures
        height_of(s) == h,
{
    lemma_height_label(h);
}

/// The label `"{h}p"` that a site gives a stream, typed as a quality, selects height `h`.
pub proof fn law_label_selects_height(h: u32)
    ensures
        crate::quality::quality_of(height_label(h as nat)) == Some(crate::quality::Quality::Height(h)),
{
    reveal_strlit("p");
    reveal_strlit("all");
    reveal_strlit("best");
    reveal_strlit("4k");
    crate::text::lemma_dec_reads_back(h as nat);
    let d = dec(h as nat);
    let l = height_label(h as nat);
    assert(l.drop_last() =~= d);
    assert(l[0] == d[0]);
    assert(is_digit(d[0]));
    assert(is_digit(d.last()));
    assert(l.last() == 'p');
    assert(crate::text::trim(l) == l) by {
        lemma_trim_fixed(l);
    }
    assert(!crate::text::eq_ic(l, "all"@)) by {
        if crate::text::eq_ic(l, "all"@) {
            assert(crate::text::lower_seq(l)[0] == crate::text::lower_seq("all"@)[0]);
        }
    }
    assert(!crate::text::eq_ic(l, "best"@)) by {
        if crate::text::eq_ic(l, "best"@) {
            assert(crate::text::lower_seq(l)[0] == crate::text::lower_seq("best"@)[0]);
        }
    }
    assert(!crate::text::eq_ic(l, "4k"@)) by {
        if crate::text::eq_ic(l, "4k"@) {
            assert(crate::text::lower_seq(l)[1] == crate::text::lower_seq("4k"@)[1]);
        }
    }
    let set = seq!['p', 'P'];
    assert(set.contains('p')) by {
        assert(set[0] == 'p');
    }
    assert(!set.contains(d.last())) by {
        if set.contains(d.last()) {
            let k = choose|k: int| 0 <= k < 2 && set[k] == d.last();
        }
    }
    assert(strip_end_in(l, set) == strip_end_in(d, set));
    assert(strip_end_in(d, set) == d);
}

proof fn lemma_trim_fixed(l: Seq<char>)
    requires
        l.len() > 0,
        !crate::text::is_ws(l[0]),
        !crate::text::is_ws(l.last()),
    ensures
        crate::text::trim(l) == l,
{
}

/// A video stream as sites report it: labelled `{height}p`, fetched with the browser
/// User-Agent.
pub open spec fn is_video_stream(s: Stream, url: UrlView, height: nat, hls: bool, referer: Option<&'static str>) -> bool {
    &&& s.url@ == url
    &&& s.kind == MediaKind::Video
    &&& opt_view(s.label) == Some(height_label(height))
    &&& s.download_user_agent == Some(BROWSER_UA)
    &&& s.mux_audio is None
    &&& s.hls == hls
    &&& s.download_referer == referer
}

pub fn video_stream(url: WebUrl, height: u32, hls: bool, referer: Option<&'static str>) -> (r: Stream)
    ensures
        is_video_stream(r, url@, height as nat, hls, referer),
{
    Stream {
        url,
        kind: MediaKind::Video,
        label: Some(height_label_of(height)),
        download_user_agent: Some(BROWSER_UA),
        mux_audio: None,
        hls,
        download_referer: referer,
    }
}

/// `s[k]` is the first stream with the height of `stream` (and, when `match_hls`, its
/// delivery).
pub open spec fn same_kind_at(stream: Stream, s: Seq<Stream>, k: int, match_hls: bool) -> bool {
    height_of(s[k]) == height_of(stream) && (!match_hls || s[k].hls == stream.hls)
}

pub open spec fn has_same(stream: Stream, s: Seq<Stream>, match_hls: bool) -> bool {
    exists|k: int| 0 <= k < s.len() && same_kind_at(stream, s, k, match_hls)
}

/// `s[k]` is the last stream of the largest height (what `max_by_key` picks).
pub open spec fn is_last_highest(s: Seq<Stream>, k: int) -> bool {
    &&& 0 <= k < s.len()
    &&& forall|j: int| 0 <= j < s.len() ==> height_of(#[trigger] s[j]) <= height_of(s[k])
    &&& forall|j: int| k < j < s.len() ==> height_of(#[trigger] s[j]) < height_of(s[k])
}

/// The refreshed counterpart of `stream` among `streams`: the first of the same height
/// (and delivery, when asked), else the last of the largest height.
pub fn match_refreshed(stream: &Stream, streams: &Vec<Stream>, match_hls: bool) -> (r: Result<Stream, Error>)
    ensures
        if has_same(*stream, streams@, match_hls) {
            exists|k: int|
                0 <= k < streams@.len() && same_kind_at(*stream, streams@, k, match_hls) && (
                forall|j: int| 0 <= j < k ==> !same_kind_at(*stream, streams@, j, match_hls))
                    && r == Ok::<Stream, Error>(streams@[k])
        } else if streams@.len() > 0 {
            exists|k: int| is_last_highest(streams@, k) && r == Ok::<Stream, Error>(streams@[k])
        } else {
            r == Err::<Stream, Error>(Error::NoStreamsFound)
        },
{
    let h = height_hint(stream);
    let mut i: usize = 0;
    while i < streams.len()
        invariant
            i <= streams@.len(),
            h as nat == height_of(*stream),
            forall|j: int| 0 <= j < i ==> !same_kind_at(*stream, streams@, j, match_hls),
        decreases streams@.len() - i,
    {
        if height_hint(&streams[i]) == h && (!match_hls || streams[i].hls == stream.hls) {
            assert(same_kind_at(*stream, streams@, i as int, match_hls));
            return Ok(streams[i].copy_of());
        }
        i = i + 1;
    }
    if streams.len() == 0 {
        return Err(Error::NoStreamsFound);
    }
    let mut best: usize = 0;
    let mut best_h: u32 = height_hint(&streams[0]);
    let mut j: usize = 1;
    while j < streams.len()
        invariant
            1 <= j <= streams@.len(),
            best < j,
            best_h as nat == height_of(streams@[best as int]),
            forall|t: int| 0 <= t < j ==> height_of(#[trigger] streams@[t]) <= best_h,
            forall|t: int| best < t < j ==> height_of(#[trigger] streams@[t]) < best_h,
        decreases streams@.len() - j,
    {
        let hj = height_hint(&streams[j]);
        if hj >= best_h {
            best = j;
            best_h = hj;
        }
        j = j + 1;
    }
    assert(is_last_highest(streams@, best as int));
    Ok(streams[best].copy_of())
}

/// A stream for an HLS variant (labelled by height, browser User-Agent).
pub open spec fn hls_variant_stream(s: Stream, v: MasterVariant) -> bool {
    is_video_stream(s, v.url@, v.height as nat, true, None)
}

pub open spec fn hls_streams_of(r: Seq<Stream>, vs: Seq<MasterVariant>) -> bool {
    r.len() == vs.len() && forall|i: int| 0 <= i < r.len() ==> hls_variant_stream(#[trigger] r[i], vs[i])
}

/// The streams of a master playlist `body`: relative variant URLs are resolved against
/// the playlist URL's directory (`./` joined onto `master`); each variant becomes an HLS
/// video stream labelled by its height.
pub open spec fn master_streams(master: Seq<char>, body: Seq<char>, r: Result<Vec<Stream>, Error>) -> bool {
    match url_join(master, "./"@) {
        None => r matches Err(Error::InvalidUrl(_)),
        Some(b) => master_streams_with(body, Some(b.0), r),
    }
}

/// `parse_master_with_base`, with each variant made into an HLS video stream.
pub open spec fn master_streams_with(body: Seq<char>, base: Option<Seq<char>>, r: Result<Vec<Stream>, Error>) -> bool {
    if !starts_with(trim_start(body), "#EXTM3U"@) {
        r == Err::<Vec<Stream>, Error>(Error::NoStreamsFound)
    } else {
        match scan_master(lines_spec(body), 0, base) {
            MasterScan::Variants(vs) => if vs.len() == 0 {
                r == Err::<Vec<Stream>, Error>(Error::NoStreamsFound)
            } else {
                r matches Ok(ss) && ss@.len() == vs.len() && forall|i: int|
                    0 <= i < vs.len() ==> is_video_stream(#[trigger] ss@[i], vs[i].1, vs[i].0 as nat, true, None)
            },
            MasterScan::BadUrl => r matches Err(Error::InvalidUrl(_)),
            MasterScan::NoBase(t) => r matches Err(Error::InvalidUrl(m)) && m@
                == "relative HLS URL without base: "@ + t,
        }
    }
}

/// Turn a master playlist's parse into HLS video streams.
pub fn streams_from_master(parsed: Result<Vec<MasterVariant>, Error>, Ghost(body): Ghost<Seq<char>>, Ghost(base): Ghost<Option<Seq<char>>>) -> (r: Result<Vec<Stream>, Error>)
    requires
        master_result(body, base, parsed),
    ensures
        master_streams_with(body, base, r),
{
    match parsed {
        Ok(vs) => {
            let ghost vv = variant_views(vs@);
            let ss = streams_from_variants(vs);
            assert forall|i: int| 0 <= i < vv.len() implies is_video_stream(#[trigger] ss@[i], vv[i].1, vv[i].0 as nat, true, None) by {
                assert(hls_variant_stream(ss@[i], vs@[i]));
            }
            Ok(ss)
        },
        Err(e) => Err(e),
    }
}

/// Turn HLS variants into labelled video streams.
pub fn streams_from_variants(vs: Vec<MasterVariant>) -> (r: Vec<Stream>)
    ensures
        hls_streams_of(r@, vs@),
{
    let mut r: Vec<Stream> = Vec::new();
    let mut i: usize = 0;
    while i < vs.len()
        invariant
            i <= vs@.len(),
            r@.len() == i,
            forall|j: int| 0 <= j < i ==> hls_variant_stream(#[trigger] r@[j], vs@[j]),
        decreases vs@.len() - i,
    {
        let v = &vs[i];
        r.push(video_stream(v.url.copy_of(), v.height, true, None));
        i = i + 1;
    }
    r
}

/// Streams for the variants of the master playlist `body` fetched from `master`.
pub fn hls_streams_from_body(master: &WebUrl, body: &str) -> (r: Result<Vec<Stream>, Error>)
    ensures
        master_streams(master.href@, body@, r),
{
    let base = match join_web_url(master, "./") {
        Ok(b) => b,
        Err(e) => {
            return Err(Error::InvalidUrl(e));
        },
    };
    let parsed = parse_master_with_base(body, Some(&base));
    streams_from_master(parsed, Ghost(body@), Ghost(Some(base.href@)))
}


/// `host.strip_prefix("www.").unwrap_or(host)`.
pub open spec fn strip_www(h: Seq<char>) -> Seq<char> {
    if starts_with(h, "www."@) {
        h.subrange(4, h.len() as int)
    } else {
        h
    }
}

pub fn strip_www_of(h: &[char]) -> (r: Vec<char>)
    ensures
        r@ == strip_www(h@),
{
    if crate::text::has_prefix(h, &chars_of("www.")) {
        proof {
            reveal_strlit("www.");
        }
        crate::text::slice_chars(h, 4, h.len())
    } else {
        crate::text::slice_chars(h, 0, h.len())
    }
}

/// The characters of the host of `url`, if it has one.
pub fn host_chars(url: &WebUrl) -> (r: Option<Vec<char>>)
    ensures
        match opt_view(url.host) {
            Some(h) => r matches Some(v) && v@ == h,
            None => r is None,
        },
{
    match &url.host {
        Some(h) => Some(chars_of(h.as_str())),
        None => None,
    }
}

/// `Url::parse`, its refusal reported as an invalid URL.
pub fn parse_url(raw: &str) -> (r: Result<WebUrl, Error>)
    ensures
        match url_parse(raw@) {
            Some(u) => r matches Ok(w) && w@ == u,
            None => r matches Err(Error::InvalidUrl(_)),
        },
{
    match crate::weburl::parse_web_url(raw) {
        Ok(u) => Ok(u),
        Err(e) => Err(Error::InvalidUrl(e)),
    }
}

} // verus!
