//! Human-readable progress lines.

use vstd::prelude::*;
use crate::text::{dec, push_dec, push_str, string_of};

verus! {

/// Bytes transferred for one file (or one part of a muxed download).
#[derive(Debug, Clone, Copy, PartialEq, Eq)]
pub struct DownloadProgress<'a> {
    pub label: &'a str,
    pub downloaded: u64,
    pub total: Option<u64>,
}

/// `x / d` rounded to the nearest integer, ties to even.
pub open spec fn round_even(x: nat, d: nat) -> nat
    recommends
        d > 0,
{
    let q = x / d;
    let r = x % d;
    if 2 * r > d || (2 * r == d && q % 2 == 1) {
        q + 1
    } else {
        q
    }
}

/// The spacing of `f64` values near `n`, starting the search at `d`: the smallest power
/// of two `d` (from the start value on) with `n < 2^53 * d`.
pub open spec fn f64_spacing(n: nat, d: nat) -> nat
    decreases n - d,
    when d >= 1
{
    if n < 0x20_0000_0000_0000 * d {
        d
    } else {
        f64_spacing(n, 2 * d)
    }
}

/// `n as f64`: `n` rounded to the nearest multiple of the `f64` spacing there, ties to even.
pub open spec fn as_f64(n: nat) -> nat {
    let d = f64_spacing(n, 1);
    round_even(n, d) * d
}

/// `{:.1}` of `tenths / 10` followed by a unit: integer part, a dot, one digit.
pub open spec fn one_decimal(tenths: nat) -> Seq<char> {
    dec(tenths / 10) + "."@ + dec(tenths % 10)
}

/// `format_bytes`: bytes below 1 KiB as `n B`, else KB, MB or GB (powers of 1024) with
/// one decimal, the value rounded to the nearest tenth with ties to even.
pub open spec fn bytes_text(n: nat) -> Seq<char> {
    if n < 1024 {
        dec(n) + " B"@
    } else if n < 1024 * 1024 {
        one_decimal(round_even(10 * n, 1024)) + " KB"@
    } else if n < 1024 * 1024 * 1024 {
        one_decimal(round_even(10 * n, 1024 * 1024)) + " MB"@
    } else {
        one_decimal(round_even(10 * as_f64(n), 1024 * 1024 * 1024)) + " GB"@
    }
}

fn round_even_exec(x: u128, d: u128) -> (r: u128)
    requires
        d > 0,
        d < 0x1_0000_0000_0000_0000_0000,
        x < 0x1_0000_0000_0000_0000_0000_0000_0000,
    ensures
        r == round_even(x as nat, d as nat),
{
    let q = x / d;
    let r = x % d;
    if 2 * r > d || (2 * r == d && q % 2 == 1) {
        q + 1
    } else {
        q
    }
}

fn push_one_decimal(out: &mut Vec<char>, tenths: u128)
    requires
        tenths < 0x1_0000_0000_0000_0000,
    ensures
        final(out)@ == old(out)@ + one_decimal(tenths as nat),
{
    push_dec(out, (tenths / 10) as u64);
    push_str(out, ".");
    push_dec(out, (tenths % 10) as u64);
}

/// `n as f64`, as an integer.
fn f64_value(n: u64) -> (r: u128)
    ensures
        r == as_f64(n as nat),
        r <= 0x2_0000_0000_0000_0000,
{
    let mut d: u128 = 1;
    while !((n as u128) < 0x20_0000_0000_0000u128 * d)
        invariant
            1 <= d <= n + 1,
            f64_spacing(n as nat, 1) == f64_spacing(n as nat, d as nat),
            d <= 0x1_0000_0000_0000_0000,
        decreases n - d,
    {
        d = 2 * d;
    }
    let q = round_even_exec(n as u128, d);
    let ghost ni = n as int;
    let ghost di = d as int;
    let ghost qi = q as int;
    assert(qi <= ni / di + 1);
    assert(qi * di <= ni + di) by (nonlinear_arith)
        requires
            qi <= ni / di + 1,
            di >= 1,
            ni >= 0,
    {
    }
    assert(q * d <= 0x2_0000_0000_0000_0000);
    q * d
}

/// Human-readable size of `n` bytes.
pub fn format_bytes(n: u64) -> (r: String)
    ensures
        r@ == bytes_text(n as nat),
{
    let mut out: Vec<char> = Vec::new();
    if n < 1024 {
        push_dec(&mut out, n);
        push_str(&mut out, " B");
    } else if n < 1024 * 1024 {
        let t = round_even_exec(10 * (n as u128), 1024);
        push_one_decimal(&mut out, t);
        push_str(&mut out, " KB");
    } else if n < 1024 * 1024 * 1024 {
        let t = round_even_exec(10 * (n as u128), 1024 * 1024);
        push_one_decimal(&mut out, t);
        push_str(&mut out, " MB");
    } else {
        let b = f64_value(n);
        let t = round_even_exec(10 * b, 1024 * 1024 * 1024);
        push_one_decimal(&mut out, t);
        push_str(&mut out, " GB");
    }
    string_of(out.as_slice())
}


/// `n` copies of `c`.
pub open spec fn repeat(c: char, n: nat) -> Seq<char> {
    Seq::new(n, |i: int| c)
}

/// Width of the progress bar.
pub const BAR_WIDTH: usize = 24;

/// Full cells of the bar: `filled`, at most the bar's width.
pub open spec fn bar_fill(filled: nat) -> nat {
    if filled > 24 {
        24
    } else {
        filled
    }
}

/// The progress bar with `filled` of its 24 cells full.
pub open spec fn bar_text(filled: nat) -> Seq<char> {
    "["@ + repeat('\u{2588}', filled) + repeat('\u{2591}', (24 - filled) as nat) + "]"@
}

/// A line for a known total: the label, the percentage as already formatted, the bar,
/// and done/total sizes.
pub open spec fn known_total_text(
    label: Seq<char>,
    percent: Seq<char>,
    filled: nat,
    done: nat,
    total: nat,
) -> Seq<char> {
    label + "  "@ + percent + "% "@ + bar_text(bar_fill(filled)) + " "@ + bytes_text(done) + "/"@
        + bytes_text(total)
}

/// A line without a known total: the label and the size downloaded so far.
pub open spec fn unknown_total_text(label: Seq<char>, done: nat) -> Seq<char> {
    label + "  "@ + bytes_text(done) + " downloaded"@
}

/// The total that a progress line measures against: a positive one, else none.
pub fn measured_total(total: Option<u64>) -> (r: Option<u64>)
    ensures
        r == (if total is Some && total->0 > 0 {
            total
        } else {
            None
        }),
{
    match total {
        Some(t) => if t > 0 {
            Some(t)
        } else {
            None
        },
        None => None,
    }
}

fn push_repeat(out: &mut Vec<char>, c: char, n: usize)
    ensures
        final(out)@ == old(out)@ + repeat(c, n as nat),
{
    let ghost o = out@;
    let mut i: usize = 0;
    while i < n
        invariant
            i <= n,
            out@ == o + repeat(c, i as nat),
        decreases n - i,
    {
        out.push(c);
        i = i + 1;
        assert(out@ =~= o + repeat(c, i as nat));
    }
}

/// The bar `[████░░░…]` with `filled` cells full (at most all 24).
pub fn bar(filled: usize) -> (r: String)
    ensures
        r@ == bar_text(bar_fill(filled as nat)),
{
    let f: usize = if filled > BAR_WIDTH {
        BAR_WIDTH
    } else {
        filled
    };
    let mut out: Vec<char> = Vec::new();
    push_str(&mut out, "[");
    push_repeat(&mut out, '\u{2588}', f);
    push_repeat(&mut out, '\u{2591}', BAR_WIDTH - f);
    push_str(&mut out, "]");
    string_of(out.as_slice())
}

/// The progress line for a known positive total, with the percentage already formatted
/// (five columns, one decimal) and the number of full bar cells.
pub fn known_total_line(label: &str, percent: &str, filled: usize, downloaded: u64, total: u64) -> (r:
    String)
    ensures
        r@ == known_total_text(label@, percent@, filled as nat, downloaded as nat, total as nat),
{
    let mut out: Vec<char> = Vec::new();
    push_str(&mut out, label);
    push_str(&mut out, "  ");
    push_str(&mut out, percent);
    push_str(&mut out, "% ");
    let b = bar(filled);
    push_str(&mut out, b.as_str());
    push_str(&mut out, " ");
    let a = format_bytes(downloaded);
    push_str(&mut out, a.as_str());
    push_str(&mut out, "/");
    let t = format_bytes(total);
    push_str(&mut out, t.as_str());
    string_of(out.as_slice())
}

/// The progress line when no positive total is known.
pub fn unknown_total_line(label: &str, downloaded: u64) -> (r: String)
    ensures
        r@ == unknown_total_text(label@, downloaded as nat),
{
    let mut out: Vec<char> = Vec::new();
    push_str(&mut out, label);
    push_str(&mut out, "  ");
    let a = format_bytes(downloaded);
    push_str(&mut out, a.as_str());
    push_str(&mut out, " downloaded");
    string_of(out.as_slice())
}

} // verus!
