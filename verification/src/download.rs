//! Download planning: parallel chunking, retries, progress throttling, file names.

use vstd::prelude::*;
use crate::text::{
    chars_of, contains, contains_seq, dec, parse_u64, parse_uint, push_dec, push_str, split_char,
    split_spec, string_of, views,
};
use crate::model::{MediaKind, MuxPart, Stream};
use crate::weburl::WebUrl;

verus! {

/// Files smaller than this are fetched with one request.
pub const MIN_PARALLEL_BYTES: u64 = 2097152;

/// Parallel chunks are at least this large.
pub const MIN_CHUNK_BYTES: u64 = 8388608;

/// At most this many parallel chunks.
pub const MAX_PARALLEL_CHUNKS: usize = 16;

/// HTTP statuses after which a request is tried again.
pub open spec fn retryable_status(s: u16) -> bool {
    s == 429 || s == 502 || s == 503
}

/// How many requests a download gets at most.
pub const RETRY_ATTEMPTS: u32 = 4;

/// The number of parallel chunks for a file of `total` bytes on `host`: 2, 4, 8 or 16 by
/// size (below 20 MiB, 100 MiB, 512 MiB, or more), no more than whole 8 MiB chunks, at
/// least 1, and at most 4 on the `phncdn.com` and `xnxx-cdn.com` CDNs.
pub open spec fn chunks_for(total: nat, host: Option<Seq<char>>) -> nat {
    let by_size: nat = if total < 20 * 1024 * 1024 {
        2
    } else if total < 100 * 1024 * 1024 {
        4
    } else if total < 512 * 1024 * 1024 {
        8
    } else {
        16
    };
    let by_chunk = total / (MIN_CHUNK_BYTES as nat);
    let m = if by_chunk < by_size {
        by_chunk
    } else {
        by_size
    };
    let clamped = if m < 1 {
        1
    } else if m > 16 {
        16
    } else {
        m
    };
    let throttled = match host {
        Some(h) => contains_seq(h, "phncdn.com"@) || contains_seq(h, "xnxx-cdn.com"@),
        None => false,
    };
    if throttled && clamped > 4 {
        4
    } else {
        clamped
    }
}

/// How many parallel range requests to split a download of `total` bytes into.
pub fn parallel_chunks(total: u64, url: &WebUrl) -> (r: usize)
    ensures
        r as nat == chunks_for(total as nat, crate::weburl::opt_view(url.host)),
        1 <= r <= 16,
{
    let by_size: u64 = if total < 20 * 1024 * 1024 {
        2
    } else if total < 100 * 1024 * 1024 {
        4
    } else if total < 512 * 1024 * 1024 {
        8
    } else {
        16
    };
    let by_chunk: u64 = total / MIN_CHUNK_BYTES;
    let m = if by_chunk < by_size {
        by_chunk
    } else {
        by_size
    };
    let mut chunks: u64 = if m < 1 {
        1
    } else if m > 16 {
        16
    } else {
        m
    };
    let throttled = match &url.host {
        Some(h) => {
            let hv = chars_of(h.as_str());
            contains(&hv, &chars_of("phncdn.com")) || contains(&hv, &chars_of("xnxx-cdn.com"))
        },
        None => false,
    };
    if throttled && chunks > 4 {
        chunks = 4;
    }
    chunks as usize
}

/// `ceil(total / chunks)`.
pub open spec fn chunk_size(total: nat, chunks: nat) -> nat {
    ((total + chunks - 1) as nat) / chunks
}

/// The inclusive byte ranges of the parallel parts: part `i` starts at `i * size` and
/// ends before the next part or at the last byte; parts starting at or past the end
/// are not made.
pub open spec fn ranges_for(total: nat, chunks: nat) -> Seq<(nat, nat)>
    decreases chunks,
{
    if chunks == 0 {
        Seq::empty()
    } else {
        let size = chunk_size(total, chunks);
        ranges_upto(total, size, chunks)
    }
}

/// The first `n` parts of size `size` of `total` bytes.
pub open spec fn ranges_upto(total: nat, size: nat, n: nat) -> Seq<(nat, nat)>
    decreases n,
{
    if n == 0 {
        Seq::empty()
    } else {
        let prev = ranges_upto(total, size, (n - 1) as nat);
        let start = ((n - 1) * size) as nat;
        if prev.len() < n - 1 || start >= total {
            prev
        } else {
            let end = if start + size < total {
                start + size
            } else {
                total
            };
            prev.push((start, (end - 1) as nat))
        }
    }
}

/// The byte ranges `(start, end)` (inclusive) of `chunks` parallel parts of a file of
/// `total` bytes.
pub fn chunk_ranges(total: u64, chunks: usize) -> (r: Vec<(u64, u64)>)
    requires
        1 <= chunks <= 16,
    ensures
        r@.len() <= chunks,
        forall|i: int| 0 <= i < r@.len() ==> (#[trigger] r@[i]).0 as nat == ranges_for(
            total as nat,
            chunks as nat,
        )[i].0 && r@[i].1 as nat == ranges_for(total as nat, chunks as nat)[i].1,
        r@.len() == ranges_for(total as nat, chunks as nat).len(),
{
    let t: u128 = total as u128;
    let c: u128 = chunks as u128;
    let wide: u128 = (t + c - 1) / c;
    proof {
        let ti = t as int;
        let ci = c as int;
        assert(ti >= 1 ==> (ti + ci - 1) / ci <= ti) by (nonlinear_arith)
            requires
                ci >= 1,
        {
        }
        assert(ti >= 1 ==> (ti + ci - 1) / ci >= 1) by (nonlinear_arith)
            requires
                ci >= 1,
        {
        }
        assert(ti == 0 ==> (ti + ci - 1) / ci == 0) by (nonlinear_arith)
            requires
                ci >= 1,
        {
        }
    }
    let size: u64 = wide as u64;
    assert(size as nat == chunk_size(total as nat, chunks as nat));
    let mut r: Vec<(u64, u64)> = Vec::new();
    let mut i: usize = 0;
    let mut stopped = false;
    while i < chunks
        invariant
            i <= chunks <= 16,
            size as nat == chunk_size(total as nat, chunks as nat),
            total > 0 ==> size >= 1,
            size <= total,
            r@.len() <= i,
            stopped <==> r@.len() < i,
            r@.len() == ranges_upto(total as nat, size as nat, i as nat).len(),
            forall|k: int| 0 <= k < r@.len() ==> (#[trigger] r@[k]).0 as nat == ranges_upto(
                total as nat,
                size as nat,
                i as nat,
            )[k].0 && r@[k].1 as nat == ranges_upto(total as nat, size as nat, i as nat)[k].1,
        decreases chunks - i,
    {
        let ghost prev = ranges_upto(total as nat, size as nat, i as nat);
        assert((i as int) * (size as int) <= 16 * 0x1_0000_0000_0000_0000) by (nonlinear_arith)
            requires
                i <= 16,
                size < 0x1_0000_0000_0000_0000,
        {
        }
        let start: u128 = i as u128 * size as u128;
        if stopped || start >= total as u128 {
            stopped = true;
        } else {
            let end: u128 = if start + (size as u128) < total as u128 {
                start + size as u128
            } else {
                total as u128
            };
            r.push((start as u64, (end - 1) as u64));
        }
        i = i + 1;
    }
    r
}

/// Whether to split the download: the server takes ranges and the size is known and at
/// least 2 MiB.
pub fn use_parallel(total: Option<u64>, ranges: bool) -> (r: bool)
    ensures
        r == (ranges && (total matches Some(t) && t >= MIN_PARALLEL_BYTES)),
{
    match total {
        Some(t) => ranges && t >= MIN_PARALLEL_BYTES,
        None => false,
    }
}

/// The total size in a `Content-Range` value (`bytes 0-0/1234`): the text between the
/// first and second `/`, as an unsigned number.
pub open spec fn range_total(value: Seq<char>) -> Option<nat> {
    let parts = split_spec(value, '/');
    if parts.len() >= 2 {
        parse_uint(parts[1], u64::MAX as nat)
    } else {
        None
    }
}

pub fn content_range_total(value: Option<&str>) -> (r: Option<u64>)
    ensures
        match value {
            Some(v) => match range_total(v@) {
                Some(n) => r == Some(n as u64),
                None => r is None,
            },
            None => r is None,
        },
{
    let v = match value {
        Some(v) => v,
        None => {
            return None;
        },
    };
    let parts = split_char(&chars_of(v), '/');
    if parts.len() >= 2 {
        assert(views(parts@)[1] == parts@[1]@);
        parse_u64(&parts[1])
    } else {
        None
    }
}

/// Whether a failed request's status (if it had one) is worth retrying.
pub fn retriable_http(status: Option<u16>) -> (r: bool)
    ensures
        r == (status matches Some(s) && retryable_status(s)),
{
    match status {
        Some(s) => s == 429 || s == 502 || s == 503,
        None => false,
    }
}

/// Whether attempt `attempt` (from 0) that got `status` is followed by another attempt.
pub fn retry_after_status(status: u16, attempt: u32) -> (r: bool)
    ensures
        r == (retryable_status(status) && attempt + 1 < RETRY_ATTEMPTS),
{
    (status == 429 || status == 502 || status == 503) && attempt < RETRY_ATTEMPTS - 1
}

/// The throttling of progress reports: with a known positive total, report when the
/// whole percentage changes or the download is complete; without one, report when the
/// 512 KiB bucket changes or nothing has arrived yet. Returns whether to report and the
/// value to remember.
pub open spec fn report_step(downloaded: u64, total: Option<u64>, last: Option<u32>) -> (bool, Option<u32>) {
    match total {
        Some(t) => if t > 0 {
            let scaled: nat = if downloaded * 100 > u64::MAX {
                u64::MAX as nat
            } else {
                (downloaded * 100) as nat
            };
            let p = scaled / (t as nat);
            let pct: u32 = if p > 100 {
                100
            } else {
                p as u32
            };
            if downloaded < t && last == Some(pct) {
                (false, last)
            } else {
                (true, Some(pct))
            }
        } else {
            bucket_step(downloaded, last)
        },
        None => bucket_step(downloaded, last),
    }
}

pub open spec fn bucket_step(downloaded: u64, last: Option<u32>) -> (bool, Option<u32>) {
    let bucket = ((downloaded / 524288) % 0x1_0000_0000) as u32;
    if downloaded > 0 && last == Some(bucket) {
        (false, last)
    } else {
        (true, Some(bucket))
    }
}

/// Decide whether a progress report is due; updates the remembered percentage or bucket.
pub fn report(downloaded: u64, total: Option<u64>, last_pct: &mut Option<u32>) -> (r: bool)
    ensures
        (r, *final(last_pct)) == report_step(downloaded, total, *old(last_pct)),
{
    let known: Option<u64> = match total {
        Some(t) => if t > 0 {
            Some(t)
        } else {
            None
        },
        None => None,
    };
    match known {
        Some(t) => {
            let scaled: u64 = if (downloaded as u128) * 100 > 18446744073709551615u128 {
                18446744073709551615u64
            } else {
                downloaded * 100
            };
            let p = scaled / t;
            let pct: u32 = if p > 100 {
                100
            } else {
                p as u32
            };
            if downloaded < t && *last_pct == Some(pct) {
                return false;
            }
            *last_pct = Some(pct);
            true
        },
        None => {
            let bucket: u32 = ((downloaded / 524288) % 4294967296) as u32;
            if downloaded > 0 && *last_pct == Some(bucket) {
                return false;
            }
            *last_pct = Some(bucket);
            true
        },
    }
}

/// The file name tried for the `index`-th collision: `stem-index`, then `.ext` when
/// there is an extension.
pub open spec fn collision_name(stem: Seq<char>, ext: Seq<char>, index: nat) -> Seq<char> {
    if ext.len() == 0 {
        stem + "-"@ + dec(index)
    } else {
        stem + "-"@ + dec(index) + "."@ + ext
    }
}

pub fn collision_candidate(stem: &str, ext: &str, index: u32) -> (r: String)
    ensures
        r@ == collision_name(stem@, ext@, index as nat),
{
    let mut out = chars_of(stem);
    push_str(&mut out, "-");
    push_dec(&mut out, index as u64);
    if chars_of(ext).len() > 0 {
        push_str(&mut out, ".");
        push_str(&mut out, ext);
    }
    string_of(out.as_slice())
}

/// The name of the `i`-th part file of the download into `name`.
pub open spec fn part_name(name: Seq<char>, i: nat) -> Seq<char> {
    "."@ + name + ".part"@ + dec(i)
}

pub fn part_file_name(name: &str, i: usize) -> (r: String)
    ensures
        r@ == part_name(name@, i as nat),
{
    let mut out = chars_of(".");
    push_str(&mut out, name);
    push_str(&mut out, ".part");
    push_dec(&mut out, i as u64);
    string_of(out.as_slice())
}

/// Whether `entry` is a part file of the download into `name`.
pub fn is_part_file(entry: &str, name: &str) -> (r: bool)
    ensures
        r == crate::text::starts_with(entry@, "."@ + name@ + ".part"@),
{
    let mut p = chars_of(".");
    push_str(&mut p, name);
    push_str(&mut p, ".part");
    crate::text::has_prefix(&chars_of(entry), &p)
}

/// Where to save, and the page to name as `Referer` for CDN hotlink checks. (Progress
/// callbacks are the caller's.)
#[derive(Debug, Clone, Copy)]
pub struct DownloadOptions<'a> {
    pub output_dir: &'a str,
    pub referer: Option<&'a str>,
}

/// How a stream is fetched.
#[derive(Debug, Clone, Copy, PartialEq, Eq, Structural)]
pub enum DownloadPlan {
    /// Video and audio fetched apart and muxed.
    Muxed,
    /// An HLS playlist, fetched by ffmpeg.
    Hls,
    /// One file, in parallel ranges when the server allows.
    File,
}

/// A stream with audio to mux in is muxed; else an HLS playlist goes to ffmpeg; else it
/// is a plain file.
pub fn plan_for(stream: &Stream) -> (r: DownloadPlan)
    ensures
        r == (if stream.mux_audio is Some {
            DownloadPlan::Muxed
        } else if stream.hls {
            DownloadPlan::Hls
        } else {
            DownloadPlan::File
        }),
{
    if stream.mux_audio.is_some() {
        DownloadPlan::Muxed
    } else if stream.hls {
        DownloadPlan::Hls
    } else {
        DownloadPlan::File
    }
}

/// The `Referer` to send: the stream's own, else the page's.
pub fn request_referer<'a>(stream: &Stream, page_referer: Option<&'a str>) -> (r: Option<&'a str>)
    ensures
        r == (match stream.download_referer {
            Some(x) => Some(x),
            None => page_referer,
        }),
{
    match stream.download_referer {
        Some(x) => Some(x),
        None => page_referer,
    }
}

/// The `Range` header value `bytes={start}-{end}`.
pub fn range_header(start: u64, end: u64) -> (r: String)
    ensures
        r@ == "bytes="@ + dec(start as nat) + "-"@ + dec(end as nat),
{
    let mut out = chars_of("bytes=");
    push_dec(&mut out, start);
    push_str(&mut out, "-");
    push_dec(&mut out, end);
    string_of(out.as_slice())
}

/// The part files of a muxed download into a file with stem `stem`:
/// `.{stem}-video.part` and `.{stem}-audio.part`.
pub fn mux_part_names(stem: &str) -> (r: (String, String))
    ensures
        r.0@ == "."@ + stem@ + "-video.part"@,
        r.1@ == "."@ + stem@ + "-audio.part"@,
{
    let mut v = chars_of(".");
    push_str(&mut v, stem);
    push_str(&mut v, "-video.part");
    let mut a = chars_of(".");
    push_str(&mut a, stem);
    push_str(&mut a, "-audio.part");
    (string_of(v.as_slice()), string_of(a.as_slice()))
}

/// The progress labels of a muxed download's two parts.
pub fn mux_labels(label: &str) -> (r: (String, String))
    ensures
        r.0@ == label@ + " (video)"@,
        r.1@ == label@ + " (audio)"@,
{
    let mut v = chars_of(label);
    push_str(&mut v, " (video)");
    let mut a = chars_of(label);
    push_str(&mut a, " (audio)");
    (string_of(v.as_slice()), string_of(a.as_slice()))
}

/// The audio part of a muxed download, as a stream of its own: its URL and User-Agent,
/// nothing else.
pub fn audio_part_stream(audio: &MuxPart) -> (r: Stream)
    ensures
        r.url == audio.url,
        r.kind == MediaKind::Audio,
        r.label is None,
        r.download_user_agent == audio.download_user_agent,
        r.mux_audio is None,
        !r.hls,
        r.download_referer is None,
{
    Stream {
        url: audio.url.copy_of(),
        kind: MediaKind::Audio,
        label: None,
        download_user_agent: audio.download_user_agent,
        mux_audio: None,
        hls: false,
        download_referer: None,
    }
}

/// The wait before retry `attempt + 1`, in milliseconds: 400, doubling each time.
pub open spec fn retry_delay(attempt: nat) -> nat
    decreases attempt,
{
    if attempt == 0 {
        400
    } else {
        2 * retry_delay((attempt - 1) as nat)
    }
}

pub fn retry_delay_ms(attempt: u32) -> (r: u64)
    requires
        attempt < RETRY_ATTEMPTS,
    ensures
        r == retry_delay(attempt as nat),
{
    let mut d: u64 = 400;
    let mut i: u32 = 0;
    while i < attempt
        invariant
            i <= attempt < RETRY_ATTEMPTS,
            d == retry_delay(i as nat),
            d <= 400 * 8,
        decreases attempt - i,
    {
        proof {
            assert(retry_delay((i + 1) as nat) == 2 * retry_delay(i as nat));
        }
        d = d * 2;
        i = i + 1;
        assert(d <= 400 * 8) by {
            assert(i <= 3);
            assert(retry_delay(0) == 400);
            if i == 1 {
                assert(retry_delay(1) == 800);
            } else if i == 2 {
                assert(retry_delay(1) == 800);
                assert(retry_delay(2) == 1600);
            } else {
                assert(retry_delay(1) == 800);
                assert(retry_delay(2) == 1600);
                assert(retry_delay(3) == 3200);
            }
        }
    }
    d
}

/// Whether a request that failed to connect or timed out at attempt `attempt` (from
/// 0) is tried again.
pub fn retry_after_failure(timeout_or_connect: bool, attempt: u32) -> (r: bool)
    ensures
        r == (timeout_or_connect && attempt + 1 < RETRY_ATTEMPTS),
{
    timeout_or_connect && attempt < RETRY_ATTEMPTS - 1
}

/// How many collision names are tried before keeping the original path.
pub const MAX_COLLISION_INDEX: u32 = 999;

/// Progress reporting never drops the first report nor the one that completes a known
/// size; the same progress reported again right after is suppressed, except at
/// completion, or before any byte when the size is unknown.
pub proof fn law_report_throttle(downloaded: u64, total: Option<u64>, last: Option<u32>)
    ensures
        last is None ==> report_step(downloaded, total, last).0,
        (total matches Some(t) && t > 0 && downloaded >= t) ==> report_step(downloaded, total, last).0,
        report_step(downloaded, total, report_step(downloaded, total, last).1).0 == (match total {
            Some(t) => if t > 0 {
                downloaded >= t
            } else {
                downloaded == 0
            },
            None => downloaded == 0,
        }),
{
}

/// A collision name is never the name it stands in for: it always carries the `-n`
/// index.
pub proof fn law_collision_differs(stem: Seq<char>, ext: Seq<char>, index: nat)
    ensures
        collision_name(stem, ext, index) != (if ext.len() == 0 {
            stem
        } else {
            stem + "."@ + ext
        }),
{
    reveal_strlit("-");
    reveal_strlit(".");
    crate::text::lemma_dec_reads_back(index);
    let c = collision_name(stem, ext, index);
    if ext.len() == 0 {
        assert(c.len() > stem.len());
    } else {
        let orig = stem + "."@ + ext;
        assert(c.len() == stem.len() + 1 + dec(index).len() + 1 + ext.len());
        assert(c.len() > orig.len());
    }
}

/// Part `i` of parts of size `size` of `total` bytes: it starts inside the file, at
/// `i * size`, and ends before the next part or at the last byte.
pub open spec fn part_at(total: nat, size: nat, i: int, e: (nat, nat)) -> bool {
    &&& i * size < total
    &&& e.0 == i * size
    &&& e.1 == (if (i + 1) * size < total {
        (i + 1) * size
    } else {
        total as int
    }) - 1
}

proof fn lemma_ranges_upto(total: nat, size: nat, n: nat)
    requires
        size >= 1,
    ensures
        ranges_upto(total, size, n).len() <= n,
        ranges_upto(total, size, n).len() == n || ranges_upto(total, size, n).len() * size >= total,
        forall|i: int|
            0 <= i < ranges_upto(total, size, n).len() ==> part_at(total, size, i, #[trigger] ranges_upto(total, size, n)[i]),
    decreases n,
{
    if n > 0 {
        let m = (n - 1) as nat;
        lemma_ranges_upto(total, size, m);
        let prev = ranges_upto(total, size, m);
        let start = (m * size) as nat;
        if prev.len() < m {
            assert(prev.len() * size <= m * size) by (nonlinear_arith)
                requires
                    prev.len() < m,
                    size >= 1,
            ;
            assert(ranges_upto(total, size, n) == prev);
        } else if start >= total {
            assert(ranges_upto(total, size, n) == prev);
            assert(prev.len() * size == m * size);
        } else {
            let r = ranges_upto(total, size, n);
            let e = (start, ((if start + size < total { start + size } else { total }) - 1) as nat);
            assert(r == prev.push(e));
            assert((m + 1) * size == m * size + size) by (nonlinear_arith);
            assert(part_at(total, size, m as int, e));
            assert forall|i: int| 0 <= i < r.len() implies part_at(total, size, i, #[trigger] r[i]) by {
                if i < prev.len() {
                    assert(r[i] == prev[i]);
                }
            }
        }
    }
}

/// The parallel parts of a download cover the file exactly: the first starts at byte
/// 0, each starts right after the previous one ends, none is empty, and the last ends
/// at the last byte.
pub proof fn law_ranges_cover(total: nat, chunks: nat)
    requires
        total > 0,
        chunks >= 1,
    ensures
        ranges_for(total, chunks).len() >= 1,
        ranges_for(total, chunks).len() <= chunks,
        ranges_for(total, chunks)[0].0 == 0,
        ranges_for(total, chunks).last().1 == total - 1,
        forall|i: int|
            0 <= i < ranges_for(total, chunks).len() - 1 ==> #[trigger] ranges_for(total, chunks)[i + 1].0
                == ranges_for(total, chunks)[i].1 + 1,
        forall|i: int|
            0 <= i < ranges_for(total, chunks).len() ==> (#[trigger] ranges_for(total, chunks)[i]).0
                <= ranges_for(total, chunks)[i].1,
{
    let size = chunk_size(total, chunks);
    assert(size >= 1) by (nonlinear_arith)
        requires
            size == ((total + chunks - 1) as nat) / chunks,
            total > 0,
            chunks >= 1,
    ;
    assert(size * chunks >= total) by (nonlinear_arith)
        requires
            size == ((total + chunks - 1) as nat) / chunks,
            chunks >= 1,
    ;
    lemma_ranges_upto(total, size, chunks);
    let r = ranges_for(total, chunks);
    assert(r == ranges_upto(total, size, chunks));
    assert(r.len() * size >= total) by {
        if r.len() == chunks {
            assert(chunks * size == size * chunks) by (nonlinear_arith);
        }
    }
    assert(r.len() >= 1) by {
        if r.len() == 0 {
            assert(r.len() * size == 0) by (nonlinear_arith)
                requires
                    r.len() == 0,
            ;
        }
    }
    let l = r.len() - 1;
    assert(part_at(total, size, l, r[l]));
    assert(r[l].0 == l * size);
    assert((l + 1) * size >= total);
    assert forall|i: int| 0 <= i < r.len() - 1 implies #[trigger] r[i + 1].0 == r[i].1 + 1 by {
        assert(part_at(total, size, i + 1, r[i + 1]));
        assert(part_at(total, size, i, r[i]));
        assert((i + 1) * size < total);
    }
    assert forall|i: int| 0 <= i < r.len() implies (#[trigger] r[i]).0 <= r[i].1 by {
        assert(part_at(total, size, i, r[i]));
        assert((i + 1) * size == i * size + size) by (nonlinear_arith);
    }
}

} // verus!
