//! Which file(s) to keep when a page offers several resolutions.

use vstd::prelude::*;
use crate::error::Error;
use crate::model::Stream;
use crate::order::{desc_order, lemma_desc_order_bounds, stable_desc_order};
use crate::text::{
    chars_of, eq_ic, eq_ignore_case, parse_u32, parse_uint, string_of, strip_end_in,
    strip_end_len, trim, trim_bounds,
};
use crate::weburl::opt_view;

verus! {

/// Which file(s) to pick when a page offers multiple resolutions.
#[derive(Debug, Clone, Copy, PartialEq, Eq, Structural)]
pub enum Quality {
    Best,
    All,
    Height(u32),
}

impl Default for Quality {
    fn default() -> (r: Self)
        ensures
            r == Quality::Best,
    {
        Quality::Best
    }
}

/// The height a label announces: the number before any trailing `p`s (`"720p"` is 720),
/// or 0 when there is no label or no number.
pub open spec fn label_height(label: Option<Seq<char>>) -> nat {
    match label {
        Some(l) => match parse_uint(strip_end_in(l, seq!['p']), u32::MAX as nat) {
            Some(n) => n,
            None => 0,
        },
        None => 0,
    }
}

/// The height of a stream, from its label.
pub open spec fn height_of(s: Stream) -> nat {
    label_height(opt_view(s.label))
}

/// The height a stream's label announces (0 when unknown).
pub fn height_hint(stream: &Stream) -> (r: u32)
    ensures
        r as nat == height_of(*stream),
{
    match &stream.label {
        Some(l) => {
            let v = chars_of(l.as_str());
            let p = ['p'];
            let n = strip_end_len(&v, &p);
            proof {
                assert(p@ =~= seq!['p']);
            }
            let body = crate::text::slice_chars(&v, 0, n);
            match parse_u32(&body) {
                Some(h) => h,
                None => 0,
            }
        },
        None => 0,
    }
}

/// The quality that a user's text names: `all`, `best`, `4k` (2160) in any case, or a
/// height with optional trailing `p`/`P`s, after trimming whitespace.
pub open spec fn quality_of(raw: Seq<char>) -> Option<Quality> {
    let s = trim(raw);
    if eq_ic(s, "all"@) {
        Some(Quality::All)
    } else if eq_ic(s, "best"@) {
        Some(Quality::Best)
    } else if eq_ic(s, "4k"@) {
        Some(Quality::Height(2160))
    } else {
        match parse_uint(strip_end_in(s, seq!['p', 'P']), u32::MAX as nat) {
            Some(n) => Some(Quality::Height(n as u32)),
            None => None,
        }
    }
}

/// Heights that `pick` keeps from `hs`.
pub open spec fn picked_heights(q: Quality, hs: Seq<u32>) -> Seq<u32> {
    match q {
        Quality::All => hs,
        Quality::Best => if hs.len() == 0 {
            Seq::empty()
        } else {
            seq![max_height(hs)]
        },
        Quality::Height(h) => heights_equal(hs, h),
    }
}

/// The largest of `hs` (0 for none).
pub open spec fn max_height(hs: Seq<u32>) -> u32
    decreases hs.len(),
{
    if hs.len() == 0 {
        0
    } else {
        let m = max_height(hs.drop_last());
        if hs.last() > m {
            hs.last()
        } else {
            m
        }
    }
}

/// The entries of `hs` equal to `h`, in order.
pub open spec fn heights_equal(hs: Seq<u32>, h: u32) -> Seq<u32>
    decreases hs.len(),
{
    if hs.len() == 0 {
        Seq::empty()
    } else if hs.last() == h {
        heights_equal(hs.drop_last(), h).push(h)
    } else {
        heights_equal(hs.drop_last(), h)
    }
}

pub proof fn lemma_max_height(hs: Seq<u32>)
    ensures
        forall|i: int| 0 <= i < hs.len() ==> hs[i] <= max_height(hs),
        hs.len() > 0 ==> hs.contains(max_height(hs)),
    decreases hs.len(),
{
    if hs.len() > 0 {
        lemma_max_height(hs.drop_last());
        let m = max_height(hs.drop_last());
        assert forall|i: int| 0 <= i < hs.len() implies hs[i] <= max_height(hs) by {
            if i < hs.len() - 1 {
                assert(hs[i] == hs.drop_last()[i]);
            }
        }
        if hs.last() > m {
            assert(hs[hs.len() - 1] == max_height(hs));
        } else if hs.len() > 1 {
            let k = choose|k: int| 0 <= k < hs.drop_last().len() && hs.drop_last()[k] == m;
            assert(hs[k] == m);
        } else {
            assert(hs[0] == max_height(hs));
        }
    }
}

/// The streams of `s` whose height is `h`, in order.
pub open spec fn streams_of_height(s: Seq<Stream>, h: nat) -> Seq<Stream>
    decreases s.len(),
{
    if s.len() == 0 {
        Seq::empty()
    } else if height_of(s.last()) == h {
        streams_of_height(s.drop_last(), h).push(s.last())
    } else {
        streams_of_height(s.drop_last(), h)
    }
}

/// The heights of the streams in `s`.
pub open spec fn heights_of(s: Seq<Stream>) -> Seq<u32> {
    s.map_values(|x: Stream| height_of(x) as u32)
}

/// What `filter_streams` keeps: everything for `All`, else the streams whose height
/// `pick` keeps (all streams of the largest height for `Best`).
pub open spec fn filtered(q: Quality, s: Seq<Stream>) -> Seq<Stream> {
    match q {
        Quality::All => s,
        Quality::Best => if s.len() == 0 {
            Seq::empty()
        } else {
            streams_of_height(s, max_height(heights_of(s)) as nat)
        },
        Quality::Height(h) => streams_of_height(s, h as nat),
    }
}

impl Quality {
    /// Parse a quality from user text (`best`, `all`, `4k`, `720p`, `1080`, ...).
    pub fn parse(raw: &str) -> (r: Result<Quality, Error>)
        ensures
            match quality_of(raw@) {
                Some(q) => r == Ok::<Quality, Error>(q),
                None => r matches Err(Error::InvalidUrl(m)) && m@ == "bad quality `"@ + raw@
                    + "`"@,
            },
    {
        let v = chars_of(raw);
        let (a, b) = trim_bounds(&v);
        let s = crate::text::slice_chars(&v, a, b);
        if eq_ignore_case(&s, &chars_of("all")) {
            return Ok(Quality::All);
        }
        if eq_ignore_case(&s, &chars_of("best")) {
            return Ok(Quality::Best);
        }
        if eq_ignore_case(&s, &chars_of("4k")) {
            return Ok(Quality::Height(2160));
        }
        let set = ['p', 'P'];
        proof {
            assert(set@ =~= seq!['p', 'P']);
        }
        let n = strip_end_len(&s, &set);
        let body = crate::text::slice_chars(&s, 0, n);
        match parse_u32(&body) {
            Some(h) => Ok(Quality::Height(h)),
            None => {
                let mut m = chars_of("bad quality `");
                let mut mid = chars_of(raw);
                let mut tail = chars_of("`");
                m.append(&mut mid);
                m.append(&mut tail);
                Err(Error::InvalidUrl(string_of(&m)))
            },
        }
    }

    /// Keep the streams whose height this quality picks (all of them for `All`).
    pub fn filter_streams(&self, streams: Vec<Stream>) -> (r: Vec<Stream>)
        ensures
            r@ == filtered(*self, streams@),
    {
        let target: u32 = match self {
            Quality::All => {
                return streams;
            },
            Quality::Height(h) => *h,
            Quality::Best => {
                if streams.len() == 0 {
                    return Vec::new();
                }
                let mut hs: Vec<u32> = Vec::new();
                let mut i: usize = 0;
                while i < streams.len()
                    invariant
                        i <= streams@.len(),
                        hs@ == heights_of(streams@.subrange(0, i as int)),
                    decreases streams@.len() - i,
                {
                    hs.push(height_hint(&streams[i]));
                    i = i + 1;
                    assert(hs@ =~= heights_of(streams@.subrange(0, i as int)));
                }
                assert(streams@.subrange(0, streams@.len() as int) =~= streams@);
                let picked = Quality::Best.pick(&hs);
                picked[0]
            },
        };
        let ghost t: nat = match self {
            Quality::Best => max_height(heights_of(streams@)) as nat,
            Quality::Height(h) => *h as nat,
            Quality::All => 0,
        };
        assert(target as nat == t);
        let mut r: Vec<Stream> = Vec::new();
        let mut i: usize = 0;
        while i < streams.len()
            invariant
                i <= streams@.len(),
                r@ == streams_of_height(streams@.subrange(0, i as int), t),
                target as nat == t,
            decreases streams@.len() - i,
        {
            assert(streams@.subrange(0, i + 1).drop_last() =~= streams@.subrange(0, i as int));
            if height_hint(&streams[i]) == target {
                r.push(streams[i].copy_of());
            }
            i = i + 1;
        }
        assert(streams@.subrange(0, streams@.len() as int) =~= streams@);
        r
    }

    /// The heights to keep from `heights`: all of them, the largest, or those equal to
    /// the requested height.
    pub fn pick(&self, heights: &[u32]) -> (r: Vec<u32>)
        ensures
            r@ == picked_heights(*self, heights@),
    {
        match self {
            Quality::All => {
                let mut r: Vec<u32> = Vec::new();
                let mut i: usize = 0;
                while i < heights.len()
                    invariant
                        i <= heights@.len(),
                        r@ == heights@.subrange(0, i as int),
                    decreases heights@.len() - i,
                {
                    r.push(heights[i]);
                    i = i + 1;
                    assert(r@ =~= heights@.subrange(0, i as int));
                }
                assert(heights@.subrange(0, heights@.len() as int) =~= heights@);
                r
            },
            Quality::Best => {
                if heights.len() == 0 {
                    return Vec::new();
                }
                let mut m: u32 = 0;
                let mut i: usize = 0;
                while i < heights.len()
                    invariant
                        i <= heights@.len(),
                        m == max_height(heights@.subrange(0, i as int)),
                    decreases heights@.len() - i,
                {
                    assert(heights@.subrange(0, i + 1).drop_last() =~= heights@.subrange(
                        0,
                        i as int,
                    ));
                    if heights[i] > m {
                        m = heights[i];
                    }
                    i = i + 1;
                }
                assert(heights@.subrange(0, heights@.len() as int) =~= heights@);
                let mut r: Vec<u32> = Vec::new();
                r.push(m);
                assert(r@ =~= seq![m]);
                r
            },
            Quality::Height(h) => {
                let h = *h;
                let mut r: Vec<u32> = Vec::new();
                let mut i: usize = 0;
                while i < heights.len()
                    invariant
                        i <= heights@.len(),
                        r@ == heights_equal(heights@.subrange(0, i as int), h),
                    decreases heights@.len() - i,
                {
                    assert(heights@.subrange(0, i + 1).drop_last() =~= heights@.subrange(
                        0,
                        i as int,
                    ));
                    if heights[i] == h {
                        r.push(h);
                    }
                    i = i + 1;
                }
                assert(heights@.subrange(0, heights@.len() as int) =~= heights@);
                r
            },
        }
    }
}


/// Which streams a pick may take, by height.
#[derive(Debug, Clone, Copy, PartialEq, Eq, Structural)]
pub enum HeightWindow {
    Any,
    Exactly(u32),
    AtMost(u32),
}

pub open spec fn fits(x: Stream, w: HeightWindow) -> bool {
    match w {
        HeightWindow::Any => true,
        HeightWindow::Exactly(h) => height_of(x) == h,
        HeightWindow::AtMost(h) => height_of(x) <= h,
    }
}

/// The sort key of a stream: its height, and when progressive files are preferred,
/// every progressive file ranks above every HLS playlist.
pub open spec fn rank(x: Stream, prefer_progressive: bool) -> u64 {
    if prefer_progressive && !x.hls {
        (0x1_0000_0000 + height_of(x)) as u64
    } else {
        height_of(x) as u64
    }
}

pub open spec fn ranks(s: Seq<Stream>, prefer_progressive: bool) -> Seq<u64> {
    s.map_values(|x: Stream| rank(x, prefer_progressive))
}

/// `s` sorted stably by rank, highest first.
pub open spec fn sorted_streams(s: Seq<Stream>, prefer_progressive: bool) -> Seq<Stream> {
    desc_order(ranks(s, prefer_progressive), s.len()).map_values(|i: int| s[i])
}

pub open spec fn has_fit(s: Seq<Stream>, w: HeightWindow) -> bool {
    exists|j: int| 0 <= j < s.len() && fits(#[trigger] s[j], w)
}

/// `s[k]` fits `w`, no stream that fits ranks higher, and none before it ranks as high:
/// the stream that a stable sort by rank puts first among those that fit.
pub open spec fn is_first_best(s: Seq<Stream>, k: int, prefer_progressive: bool, w: HeightWindow) -> bool {
    &&& 0 <= k < s.len()
    &&& fits(s[k], w)
    &&& forall|j: int|
        0 <= j < s.len() && fits(#[trigger] s[j], w) ==> rank(s[j], prefer_progressive) <= rank(
            s[k],
            prefer_progressive,
        )
    &&& forall|j: int|
        0 <= j < k && fits(#[trigger] s[j], w) ==> rank(s[j], prefer_progressive) < rank(
            s[k],
            prefer_progressive,
        )
}

/// The index of the first highest-ranked stream that fits `w`, if any fits.
pub fn first_best(s: &Vec<Stream>, prefer_progressive: bool, w: HeightWindow) -> (r: Option<usize>)
    ensures
        match r {
            Some(k) => is_first_best(s@, k as int, prefer_progressive, w),
            None => !has_fit(s@, w),
        },
{
    let mut best: Option<usize> = None;
    let mut best_rank: u64 = 0;
    let mut i: usize = 0;
    while i < s.len()
        invariant
            i <= s@.len(),
            match best {
                Some(k) => k < i && best_rank == rank(s@[k as int], prefer_progressive)
                    && fits(s@[k as int], w) && (forall|j: int|
                    0 <= j < i && fits(#[trigger] s@[j], w) ==> rank(s@[j], prefer_progressive)
                        <= best_rank) && (forall|j: int|
                    0 <= j < k && fits(#[trigger] s@[j], w) ==> rank(s@[j], prefer_progressive)
                        < best_rank),
                None => forall|j: int| 0 <= j < i ==> !fits(#[trigger] s@[j], w),
            },
        decreases s@.len() - i,
    {
        let h = height_hint(&s[i]);
        let ok = match w {
            HeightWindow::Any => true,
            HeightWindow::Exactly(t) => h == t,
            HeightWindow::AtMost(t) => h <= t,
        };
        if ok {
            let r: u64 = if prefer_progressive && !s[i].hls {
                4294967296u64 + h as u64
            } else {
                h as u64
            };
            assert(r == rank(s@[i as int], prefer_progressive));
            match best {
                Some(_) => {
                    if r > best_rank {
                        best = Some(i);
                        best_rank = r;
                    }
                },
                None => {
                    best = Some(i);
                    best_rank = r;
                },
            }
        }
        i = i + 1;
    }
    best
}

/// The items of `s` at the positions `order`.
pub fn reorder(s: &Vec<Stream>, order: &Vec<usize>) -> (r: Vec<Stream>)
    requires
        forall|j: int| 0 <= j < order@.len() ==> #[trigger] order@[j] < s@.len(),
    ensures
        r@.len() == order@.len(),
        forall|j: int| 0 <= j < order@.len() ==> #[trigger] r@[j] == s@[order@[j] as int],
{
    let mut r: Vec<Stream> = Vec::new();
    let mut i: usize = 0;
    while i < order.len()
        invariant
            i <= order@.len(),
            forall|j: int| 0 <= j < order@.len() ==> #[trigger] order@[j] < s@.len(),
            r@.len() == i,
            forall|j: int| 0 <= j < i ==> #[trigger] r@[j] == s@[order@[j] as int],
        decreases order@.len() - i,
    {
        r.push(s[order[i]].copy_of());
        i = i + 1;
    }
    r
}

/// `s` sorted stably by rank, highest first.
pub fn sort_streams(s: &Vec<Stream>, prefer_progressive: bool) -> (r: Vec<Stream>)
    ensures
        r@ == sorted_streams(s@, prefer_progressive),
{
    let mut keys: Vec<u64> = Vec::new();
    let mut i: usize = 0;
    while i < s.len()
        invariant
            i <= s@.len(),
            keys@ == ranks(s@.subrange(0, i as int), prefer_progressive),
        decreases s@.len() - i,
    {
        let h = height_hint(&s[i]);
        let k: u64 = if prefer_progressive && !s[i].hls {
            4294967296u64 + h as u64
        } else {
            h as u64
        };
        keys.push(k);
        i = i + 1;
        assert(keys@ =~= ranks(s@.subrange(0, i as int), prefer_progressive));
    }
    assert(s@.subrange(0, s@.len() as int) =~= s@);
    let order = stable_desc_order(&keys);
    let r = reorder(s, &order);
    proof {
        lemma_desc_order_bounds(keys@, keys@.len());
        let d = desc_order(ranks(s@, prefer_progressive), s@.len());
        assert forall|j: int| 0 <= j < r@.len() implies #[trigger] r@[j] == sorted_streams(
            s@,
            prefer_progressive,
        )[j] by {
            assert(crate::order::usize_ints(order@)[j] == order@[j] as int);
        }
        assert(r@ =~= sorted_streams(s@, prefer_progressive));
    }
    r
}

/// The result of a pick with fallback: empty input or nothing fitting is an error;
/// `All` is everything, sorted; `Best` is the first highest-ranked stream; a height is
/// the first highest-ranked stream of that height, else of the highest height below it.
pub open spec fn pick_result(s: Seq<Stream>, q: Quality, prefer_progressive: bool, r: Result<Vec<Stream>, Error>) -> bool {
    if s.len() == 0 {
        r == Err::<Vec<Stream>, Error>(Error::NoStreamsFound)
    } else {
        match q {
            Quality::All => r matches Ok(v) && v@ == sorted_streams(s, prefer_progressive),
            Quality::Best => r matches Ok(v) && exists|k: int|
                is_first_best(s, k, prefer_progressive, HeightWindow::Any) && v@ == seq![s[k]],
            Quality::Height(h) => if has_fit(s, HeightWindow::Exactly(h)) {
                r matches Ok(v) && exists|k: int|
                    is_first_best(s, k, prefer_progressive, HeightWindow::Exactly(h)) && v@
                        == seq![s[k]]
            } else if has_fit(s, HeightWindow::AtMost(h)) {
                r matches Ok(v) && exists|k: int|
                    is_first_best(s, k, prefer_progressive, HeightWindow::AtMost(h)) && v@
                        == seq![s[k]]
            } else {
                r == Err::<Vec<Stream>, Error>(Error::NoStreamsFound)
            },
        }
    }
}

fn one_of(s: &Vec<Stream>, k: usize) -> (r: Vec<Stream>)
    requires
        k < s@.len(),
    ensures
        r@ == seq![s@[k as int]],
{
    let mut r: Vec<Stream> = Vec::new();
    r.push(s[k].copy_of());
    assert(r@ =~= seq![s@[k as int]]);
    r
}

fn pick_sorted(streams: Vec<Stream>, quality: Quality, prefer_progressive: bool) -> (r: Result<Vec<Stream>, Error>)
    ensures
        pick_result(streams@, quality, prefer_progressive, r),
{
    if streams.len() == 0 {
        return Err(Error::NoStreamsFound);
    }
    match quality {
        Quality::All => Ok(sort_streams(&streams, prefer_progressive)),
        Quality::Best => {
            match first_best(&streams, prefer_progressive, HeightWindow::Any) {
                Some(k) => Ok(one_of(&streams, k)),
                None => {
                    assert(fits(streams@[0], HeightWindow::Any));
                    Err(Error::NoStreamsFound)
                },
            }
        },
        Quality::Height(h) => {
            match first_best(&streams, prefer_progressive, HeightWindow::Exactly(h)) {
                Some(k) => Ok(one_of(&streams, k)),
                None => match first_best(&streams, prefer_progressive, HeightWindow::AtMost(h)) {
                    Some(k) => Ok(one_of(&streams, k)),
                    None => Err(Error::NoStreamsFound),
                },
            }
        },
    }
}

/// Pick by height (highest first), falling back to the next lower resolution.
pub fn pick_streams(streams: Vec<Stream>, quality: Quality) -> (r: Result<Vec<Stream>, Error>)
    ensures
        pick_result(streams@, quality, false, r),
{
    pick_sorted(streams, quality, false)
}

/// Like [`pick_streams`], but prefers progressive files over HLS at any height.
pub fn pick_streams_prefer_progressive(streams: Vec<Stream>, quality: Quality) -> (r: Result<Vec<Stream>, Error>)
    ensures
        pick_result(streams@, quality, true, r),
{
    pick_sorted(streams, quality, true)
}

/// A pick on streams sorted by rank (highest first): all; the first; those of
/// the requested height; else the first below it; else none.
pub open spec fn exact_pick(s: Seq<Stream>, q: Quality, prefer_progressive: bool, r: Result<Vec<Stream>, Error>) -> bool {
    let sorted = sorted_streams(s, prefer_progressive);
    match q {
        Quality::All => r matches Ok(v) && v@ == sorted,
        Quality::Best => r matches Ok(v) && v@ == seq![sorted[0]],
        Quality::Height(h) => if streams_of_height(sorted, h as nat).len() > 0 {
            r matches Ok(v) && v@ == streams_of_height(sorted, h as nat)
        } else {
            match first_at_most(sorted, h as nat) {
                Some(k) => r matches Ok(v) && v@ == seq![sorted[k]],
                None => r == Err::<Vec<Stream>, Error>(Error::NoStreamsFound),
            }
        },
    }
}

/// The index of the first stream in `s` no higher than `h`.
pub open spec fn first_at_most(s: Seq<Stream>, h: nat) -> Option<int>
    decreases s.len(),
{
    if s.len() == 0 {
        None
    } else if height_of(s[0]) <= h {
        Some(0)
    } else {
        match first_at_most(s.drop_first(), h) {
            Some(k) => Some(k + 1),
            None => None,
        }
    }
}

pub fn first_at_most_exec(s: &Vec<Stream>, h: u32) -> (r: Option<usize>)
    ensures
        match first_at_most(s@, h as nat) {
            Some(k) => r == Some(k as usize) && 0 <= k < s@.len(),
            None => r is None,
        },
{
    let mut i: usize = 0;
    assert(s@.subrange(0, s@.len() as int) =~= s@);
    while i < s.len()
        invariant
            i <= s@.len(),
            match first_at_most(s@, h as nat) {
                Some(k) => match first_at_most(s@.subrange(i as int, s@.len() as int), h as nat) {
                    Some(k2) => k == k2 + i,
                    None => false,
                },
                None => first_at_most(s@.subrange(i as int, s@.len() as int), h as nat) is None,
            },
        decreases s@.len() - i,
    {
        let ghost rest = s@.subrange(i as int, s@.len() as int);
        assert(rest.drop_first() =~= s@.subrange(i + 1, s@.len() as int));
        assert(rest[0] == s@[i as int]);
        if height_hint(&s[i]) <= h {
            return Some(i);
        }
        i = i + 1;
    }
    None
}

/// Keep the streams of height `h`, in order.
pub fn keep_height(s: &Vec<Stream>, h: u32) -> (r: Vec<Stream>)
    ensures
        r@ == streams_of_height(s@, h as nat),
{
    let mut r: Vec<Stream> = Vec::new();
    let mut i: usize = 0;
    while i < s.len()
        invariant
            i <= s@.len(),
            r@ == streams_of_height(s@.subrange(0, i as int), h as nat),
        decreases s@.len() - i,
    {
        assert(s@.subrange(0, i + 1).drop_last() =~= s@.subrange(0, i as int));
        if height_hint(&s[i]) == h {
            r.push(s[i].copy_of());
        }
        i = i + 1;
    }
    assert(s@.subrange(0, s@.len() as int) =~= s@);
    r
}

pub fn pick_exact(streams: Vec<Stream>, quality: Quality, prefer_progressive: bool) -> (r: Result<Vec<Stream>, Error>)
    requires
        quality is Best ==> streams@.len() > 0,
    ensures
        streams@.len() == 0 && quality is All ==> (r matches Ok(v) && v@.len() == 0),
        streams@.len() == 0 && quality is Height ==> r == Err::<Vec<Stream>, Error>(Error::NoStreamsFound),
        exact_pick(streams@, quality, prefer_progressive, r),
{
    let sorted = sort_streams(&streams, prefer_progressive);
    proof {
        crate::order::lemma_desc_order_bounds(ranks(streams@, prefer_progressive), streams@.len());
    }
    assert(sorted@ == sorted_streams(streams@, prefer_progressive));
    match quality {
        Quality::All => {
            let r: Result<Vec<Stream>, Error> = Ok(sorted);
            assert(exact_pick(streams@, quality, prefer_progressive, r));
            r
        },
        Quality::Best => {
            let mut v: Vec<Stream> = Vec::new();
            v.push(sorted[0].copy_of());
            assert(v@ =~= seq![sorted@[0]]);
            let r: Result<Vec<Stream>, Error> = Ok(v);
            assert(exact_pick(streams@, quality, prefer_progressive, r));
            r
        },
        Quality::Height(h) => {
            let exact = keep_height(&sorted, h);
            if exact.len() > 0 {
                let r: Result<Vec<Stream>, Error> = Ok(exact);
                assert(exact_pick(streams@, quality, prefer_progressive, r));
                return r;
            }
            match first_at_most_exec(&sorted, h) {
                Some(k) => {
                    let mut v: Vec<Stream> = Vec::new();
                    v.push(sorted[k].copy_of());
                    assert(v@ =~= seq![sorted@[k as int]]);
                    assert(streams_of_height(sorted@, h as nat).len() == 0);
                    assert(first_at_most(sorted_streams(streams@, prefer_progressive), h as nat) == Some(k as int));
                    let r: Result<Vec<Stream>, Error> = Ok(v);
                    assert(exact_pick(streams@, quality, prefer_progressive, r));
                    r
                },
                None => {
                    let r: Result<Vec<Stream>, Error> = Err(Error::NoStreamsFound);
                    assert(exact_pick(streams@, quality, prefer_progressive, r));
                    r
                },
            }
        },
    }
}

/// A pick only hands back streams it was given, and never an empty list.
pub proof fn law_pick_from_input(s: Seq<Stream>, q: Quality, prefer_progressive: bool, r: Result<Vec<Stream>, Error>)
    requires
        pick_result(s, q, prefer_progressive, r),
    ensures
        r matches Ok(v) ==> v@.len() > 0 && forall|i: int| 0 <= i < v@.len() ==> s.contains(#[trigger] v@[i]),
{
    if let Ok(v) = r {
        match q {
            Quality::All => {
                crate::order::lemma_desc_order_bounds(ranks(s, prefer_progressive), s.len());
                assert forall|i: int| 0 <= i < v@.len() implies s.contains(#[trigger] v@[i]) by {
                    let o = desc_order(ranks(s, prefer_progressive), s.len());
                    assert(v@[i] == s[o[i]]);
                }
            },
            _ => {
                let k = choose|k: int| 0 <= k < s.len() && v@ == seq![s[k]] && (exists|w: HeightWindow| is_first_best(s, k, prefer_progressive, w));
                assert forall|i: int| 0 <= i < v@.len() implies s.contains(#[trigger] v@[i]) by {
                    assert(v@[i] == s[k]);
                }
            },
        }
    }
}


proof fn lemma_height_fits_u32(x: Stream)
    ensures
        height_of(x) <= u32::MAX,
        rank(x, false) == height_of(x),
{
}

/// `Best` with streams to choose from takes one of them, and none of the others is
/// higher.
pub proof fn law_best_is_highest(s: Seq<Stream>, r: Result<Vec<Stream>, Error>)
    requires
        s.len() > 0,
        pick_result(s, Quality::Best, false, r),
    ensures
        r matches Ok(v) && v@.len() == 1 && s.contains(v@[0]) && forall|i: int|
            0 <= i < s.len() ==> height_of(#[trigger] s[i]) <= height_of(v@[0]),
{
    let v = r->Ok_0;
    let k = choose|k: int| is_first_best(s, k, false, HeightWindow::Any) && v@ == seq![s[k]];
    assert(v@[0] == s[k]);
    assert forall|i: int| 0 <= i < s.len() implies height_of(#[trigger] s[i]) <= height_of(v@[0]) by {
        assert(fits(s[i], HeightWindow::Any));
        lemma_height_fits_u32(s[i]);
        lemma_height_fits_u32(s[k]);
    }
}

/// A wanted height: a stream of exactly that height when there is one, else the highest
/// stream below it; an error exactly when every stream is higher.
pub proof fn law_height_or_next_lower(s: Seq<Stream>, h: u32, r: Result<Vec<Stream>, Error>)
    requires
        pick_result(s, Quality::Height(h), false, r),
    ensures
        r is Err <==> (forall|i: int| 0 <= i < s.len() ==> height_of(#[trigger] s[i]) > h),
        r matches Ok(v) ==> {
            &&& v@.len() == 1
            &&& s.contains(v@[0])
            &&& height_of(v@[0]) <= h
            &&& (exists|i: int| 0 <= i < s.len() && height_of(#[trigger] s[i]) == h) ==> height_of(v@[0]) == h
            &&& forall|i: int| 0 <= i < s.len() && height_of(#[trigger] s[i]) <= h ==> height_of(s[i]) <= height_of(v@[0])
        },
{
    if s.len() == 0 {
        return;
    }
    if has_fit(s, HeightWindow::Exactly(h)) {
        let v = r->Ok_0;
        let k = choose|k: int| is_first_best(s, k, false, HeightWindow::Exactly(h)) && v@ == seq![s[k]];
        assert(v@[0] == s[k]);
        let j = choose|j: int| 0 <= j < s.len() && fits(#[trigger] s[j], HeightWindow::Exactly(h));
        assert(height_of(s[j]) > h ==> false);
    } else if has_fit(s, HeightWindow::AtMost(h)) {
        let v = r->Ok_0;
        let k = choose|k: int| is_first_best(s, k, false, HeightWindow::AtMost(h)) && v@ == seq![s[k]];
        assert(v@[0] == s[k]);
        assert forall|i: int| 0 <= i < s.len() && height_of(#[trigger] s[i]) <= h implies height_of(s[i]) <= height_of(v@[0]) by {
            assert(fits(s[i], HeightWindow::AtMost(h)));
            lemma_height_fits_u32(s[i]);
            lemma_height_fits_u32(s[k]);
        }
        assert((exists|i: int| 0 <= i < s.len() && height_of(#[trigger] s[i]) == h) ==> false) by {
            if exists|i: int| 0 <= i < s.len() && height_of(#[trigger] s[i]) == h {
                let i = choose|i: int| 0 <= i < s.len() && height_of(#[trigger] s[i]) == h;
                assert(fits(s[i], HeightWindow::Exactly(h)));
            }
        }
        assert(height_of(s[k]) <= h);
    } else {
        assert forall|i: int| 0 <= i < s.len() implies height_of(#[trigger] s[i]) > h by {
            if height_of(s[i]) <= h {
                assert(fits(s[i], HeightWindow::AtMost(h)));
            }
        }
    }
}

/// When progressive files are preferred and the page has one, `Best` takes a
/// progressive file.
pub proof fn law_prefers_progressive(s: Seq<Stream>, r: Result<Vec<Stream>, Error>)
    requires
        pick_result(s, Quality::Best, true, r),
        exists|i: int| 0 <= i < s.len() && !(#[trigger] s[i]).hls,
    ensures
        r matches Ok(v) && v@.len() == 1 && !v@[0].hls,
{
    let v = r->Ok_0;
    let k = choose|k: int| is_first_best(s, k, true, HeightWindow::Any) && v@ == seq![s[k]];
    let i = choose|i: int| 0 <= i < s.len() && !(#[trigger] s[i]).hls;
    assert(fits(s[i], HeightWindow::Any));
    lemma_height_fits_u32(s[i]);
    lemma_height_fits_u32(s[k]);
    assert(v@[0] == s[k]);
}

} // verus!
