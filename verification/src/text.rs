//! Character-level string helpers shared by the parsers of this crate.

use vstd::prelude::*;

verus! {

/// The characters of `s`, in order (`str::chars` collected into a vector).
#[verifier::external_body]
pub(crate) fn chars_of(s: &str) -> (r: Vec<char>)
    ensures
        r@ == s@,
{
    s.chars().collect()
}

/// The string made of the characters `v`, in order (`FromIterator<&char>` for `String`).
#[verifier::external_body]
pub(crate) fn string_of(v: &[char]) -> (r: String)
    ensures
        r@ == v@,
{
    v.iter().collect()
}

/// Unicode `White_Space`, the set that `char::is_whitespace` tests.
pub open spec fn is_ws(c: char) -> bool {
    ||| ('\u{9}' <= c && c <= '\u{d}')
    ||| c == ' '
    ||| c == '\u{85}'
    ||| c == '\u{a0}'
    ||| c == '\u{1680}'
    ||| ('\u{2000}' <= c && c <= '\u{200a}')
    ||| c == '\u{2028}'
    ||| c == '\u{2029}'
    ||| c == '\u{202f}'
    ||| c == '\u{205f}'
    ||| c == '\u{3000}'
}

pub fn char_is_ws(c: char) -> (r: bool)
    ensures
        r == is_ws(c),
{
    ('\u{9}' <= c && c <= '\u{d}') || c == ' ' || c == '\u{85}' || c == '\u{a0}' || c == '\u{1680}'
        || ('\u{2000}' <= c && c <= '\u{200a}') || c == '\u{2028}' || c == '\u{2029}'
        || c == '\u{202f}' || c == '\u{205f}' || c == '\u{3000}'
}

pub open spec fn is_digit(c: char) -> bool {
    '0' <= c && c <= '9'
}

pub open spec fn is_upper(c: char) -> bool {
    'A' <= c && c <= 'Z'
}

pub open spec fn is_lower(c: char) -> bool {
    'a' <= c && c <= 'z'
}

pub open spec fn is_alnum(c: char) -> bool {
    is_digit(c) || is_upper(c) || is_lower(c)
}

/// `char::to_ascii_lowercase`.
pub open spec fn lower(c: char) -> char {
    if is_upper(c) {
        ((c as u32) + 32) as char
    } else {
        c
    }
}

pub fn to_lower(c: char) -> (r: char)
    ensures
        r == lower(c),
{
    if 'A' <= c && c <= 'Z' {
        let b: u8 = (c as u8) + 32;
        b as char
    } else {
        c
    }
}


pub open spec fn lower_seq(s: Seq<char>) -> Seq<char> {
    s.map_values(|c: char| lower(c))
}

/// `str::to_ascii_lowercase` on the characters of `v`.
pub fn lowercase(v: &[char]) -> (r: Vec<char>)
    ensures
        r@ == lower_seq(v@),
{
    let mut r: Vec<char> = Vec::new();
    let mut i: usize = 0;
    while i < v.len()
        invariant
            i <= v@.len(),
            r@ == lower_seq(v@.subrange(0, i as int)),
        decreases v@.len() - i,
    {
        r.push(to_lower(v[i]));
        i = i + 1;
        assert(lower_seq(v@.subrange(0, i as int)) =~= lower_seq(v@.subrange(0, i - 1)).push(lower(v@[i - 1])));
    }
    assert(v@.subrange(0, v@.len() as int) =~= v@);
    r
}

/// The characters `v[i..j]` as a new vector.
pub fn slice_chars(v: &[char], i: usize, j: usize) -> (r: Vec<char>)
    requires
        i <= j <= v@.len(),
    ensures
        r@ == v@.subrange(i as int, j as int),
{
    let mut r: Vec<char> = Vec::new();
    let mut k: usize = i;
    while k < j
        invariant
            i <= k <= j <= v@.len(),
            r@ == v@.subrange(i as int, k as int),
        decreases j - k,
    {
        r.push(v[k]);
        k = k + 1;
        assert(r@ =~= v@.subrange(i as int, k as int));
    }
    r
}

/// `needle` occurs in `s` at index `i`.
pub open spec fn occurs_at(s: Seq<char>, needle: Seq<char>, i: int) -> bool {
    0 <= i && i + needle.len() <= s.len() && s.subrange(i, i + needle.len()) == needle
}

pub open spec fn starts_with(s: Seq<char>, p: Seq<char>) -> bool {
    occurs_at(s, p, 0)
}

pub open spec fn ends_with(s: Seq<char>, p: Seq<char>) -> bool {
    p.len() <= s.len() && occurs_at(s, p, s.len() - p.len())
}

/// First index at or after `i` where `needle` occurs in `s`.
pub open spec fn find_from(s: Seq<char>, needle: Seq<char>, i: int) -> Option<int>
    decreases s.len() + 1 - i,
{
    if i < 0 || i + needle.len() > s.len() {
        None
    } else if occurs_at(s, needle, i) {
        Some(i)
    } else {
        find_from(s, needle, i + 1)
    }
}

/// `str::find`: index of the first occurrence of `needle` in `s`.
pub open spec fn find(s: Seq<char>, needle: Seq<char>) -> Option<int> {
    find_from(s, needle, 0)
}

pub proof fn lemma_find_from_props(s: Seq<char>, needle: Seq<char>, i: int)
    requires
        0 <= i,
    ensures
        find_from(s, needle, i) matches Some(k) ==> i <= k && occurs_at(s, needle, k)
            && forall|j: int| i <= j < k ==> !occurs_at(s, needle, j),
        find_from(s, needle, i) is None ==> forall|j: int| i <= j ==> !occurs_at(s, needle, j),
    decreases s.len() + 1 - i,
{
    if i + needle.len() > s.len() {
    } else if occurs_at(s, needle, i) {
    } else {
        lemma_find_from_props(s, needle, i + 1);
    }
}

pub proof fn lemma_find_props(s: Seq<char>, needle: Seq<char>)
    ensures
        find(s, needle) matches Some(k) ==> 0 <= k && occurs_at(s, needle, k)
            && forall|j: int| 0 <= j < k ==> !occurs_at(s, needle, j),
        find(s, needle) is None ==> forall|j: int| 0 <= j ==> !occurs_at(s, needle, j),
{
    lemma_find_from_props(s, needle, 0);
}

/// Whether `needle` occurs in `v` at index `i`.
pub fn occurs(v: &[char], i: usize, needle: &[char]) -> (r: bool)
    ensures
        r == occurs_at(v@, needle@, i as int),
{
    if i > v.len() || needle.len() > v.len() - i {
        return false;
    }
    let mut k: usize = 0;
    while k < needle.len()
        invariant
            i + needle@.len() <= v@.len(),
            k <= needle@.len(),
            forall|t: int| 0 <= t < k ==> v@[i + t] == needle@[t],
            v@.len() == v.len(),
            needle@.len() == needle.len(),
        decreases needle@.len() - k,
    {
        if v[i + k] != needle[k] {
            assert(v@.subrange(i as int, i + needle@.len())[k as int] != needle@[k as int]);
            return false;
        }
        k = k + 1;
    }
    assert(v@.subrange(i as int, i + needle@.len()) =~= needle@);
    true
}

/// `s[start..].find(needle)`, as an index into `s[start..]`.
pub fn find_in(v: &[char], start: usize, needle: &[char]) -> (r: Option<usize>)
    requires
        start <= v@.len(),
    ensures
        match r {
            Some(k) => find(v@.subrange(start as int, v@.len() as int), needle@) == Some(k as int),
            None => find(v@.subrange(start as int, v@.len() as int), needle@) is None,
        },
{
    let ghost t = v@.subrange(start as int, v@.len() as int);
    if needle.len() > v.len() {
        return None;
    }
    let mut i: usize = start;
    while i <= v.len() - needle.len()
        invariant
            start <= i <= v@.len(),
            needle@.len() <= v@.len(),
            t == v@.subrange(start as int, v@.len() as int),
            find(t, needle@) == find_from(t, needle@, i - start),
        decreases v@.len() + 1 - i,
    {
        let hit = occurs(v, i, needle);
        assert(hit == occurs_at(t, needle@, i - start)) by {
            assert(t.subrange(i - start, i - start + needle@.len()) =~= v@.subrange(
                i as int,
                i + needle@.len(),
            ));
        }
        if hit {
            return Some(i - start);
        }
        assert(needle@.len() > 0) by {
            if needle@.len() == 0 {
                assert(t.subrange(i - start, i - start) =~= needle@);
            }
        }
        i = i + 1;
    }
    None
}

/// Whether `v[i..]` starts with `p`, tolerating any `i`.
pub fn starts_with_at(v: &[char], i: usize, p: &[char]) -> (r: bool)
    ensures
        r == occurs_at(v@, p@, i as int),
{
    occurs(v, i, p)
}

pub fn has_prefix(v: &[char], p: &[char]) -> (r: bool)
    ensures
        r == starts_with(v@, p@),
{
    occurs(v, 0, p)
}

pub fn has_suffix(v: &[char], p: &[char]) -> (r: bool)
    ensures
        r == ends_with(v@, p@),
{
    if p.len() > v.len() {
        false
    } else {
        occurs(v, v.len() - p.len(), p)
    }
}

/// Whether `needle` occurs anywhere in `v` (`str::contains`).
pub open spec fn contains_seq(s: Seq<char>, needle: Seq<char>) -> bool {
    exists|i: int| occurs_at(s, needle, i)
}

pub fn contains(v: &[char], needle: &[char]) -> (r: bool)
    ensures
        r == contains_seq(v@, needle@),
{
    let f = find_in(v, 0, needle);
    proof {
        assert(v@.subrange(0, v@.len() as int) =~= v@);
        lemma_find_props(v@, needle@);
    }
    f.is_some()
}


/// `str::trim_start`: drop leading Unicode whitespace.
pub open spec fn trim_start(s: Seq<char>) -> Seq<char>
    decreases s.len(),
{
    if s.len() > 0 && is_ws(s[0]) {
        trim_start(s.drop_first())
    } else {
        s
    }
}

/// `str::trim_end`: drop trailing Unicode whitespace.
pub open spec fn trim_end(s: Seq<char>) -> Seq<char>
    decreases s.len(),
{
    if s.len() > 0 && is_ws(s.last()) {
        trim_end(s.drop_last())
    } else {
        s
    }
}

/// `str::trim`.
pub open spec fn trim(s: Seq<char>) -> Seq<char> {
    trim_end(trim_start(s))
}

/// The bounds `(a, b)` with `v[a..b] == trim(v)`.
pub fn trim_bounds(v: &[char]) -> (r: (usize, usize))
    ensures
        r.0 <= r.1 <= v@.len(),
        v@.subrange(r.0 as int, r.1 as int) == trim(v@),
        v@.subrange(r.0 as int, v@.len() as int) == trim_start(v@),
{
    let mut a: usize = 0;
    assert(v@.subrange(0, v@.len() as int) =~= v@);
    while a < v.len() && char_is_ws(v[a])
        invariant
            a <= v@.len(),
            trim_start(v@) == trim_start(v@.subrange(a as int, v@.len() as int)),
        decreases v@.len() - a,
    {
        assert(v@.subrange(a as int, v@.len() as int).drop_first() =~= v@.subrange(
            a + 1,
            v@.len() as int,
        ));
        a = a + 1;
    }
    assert(v@.subrange(0, v@.len() as int) =~= v@);
    let ghost ts = v@.subrange(a as int, v@.len() as int);
    let mut b: usize = v.len();
    while b > a && char_is_ws(v[b - 1])
        invariant
            a <= b <= v@.len(),
            ts == v@.subrange(a as int, v@.len() as int),
            trim_end(ts) == trim_end(v@.subrange(a as int, b as int)),
        decreases b - a,
    {
        assert(v@.subrange(a as int, b as int).drop_last() =~= v@.subrange(a as int, b - 1));
        b = b - 1;
    }
    (a, b)
}

/// `str::trim` on characters.
pub fn trimmed(v: &[char]) -> (r: Vec<char>)
    ensures
        r@ == trim(v@),
{
    let (a, b) = trim_bounds(v);
    slice_chars(v, a, b)
}

/// The decimal digit character for `d < 10`.
pub open spec fn digit_char(d: nat) -> char {
    (('0' as u32) + d) as char
}

/// Decimal representation of `n` (`Display` for unsigned integers).
pub open spec fn dec(n: nat) -> Seq<char>
    decreases n,
{
    if n < 10 {
        seq![digit_char(n)]
    } else {
        dec(n / 10).push(digit_char(n % 10))
    }
}

/// The decimal text of `n` is a non-empty run of digits that reads back as `n`.
pub proof fn lemma_dec_reads_back(n: nat)
    ensures
        dec(n).len() > 0,
        all_digits(dec(n)),
        digits_value(dec(n)) == n,
    decreases n,
{
    let d = n % 10;
    assert((('0' as u32) + d) as char as u32 == ('0' as u32) + d);
    if n >= 10 {
        lemma_dec_reads_back(n / 10);
        let s = dec(n);
        assert(s.drop_last() =~= dec(n / 10));
        assert(s.last() == digit_char(d));
        assert((n / 10) * 10 + n % 10 == n) by (nonlinear_arith);
        assert((s.last() as u32) - ('0' as u32) == d);
        assert(digits_value(s) == digits_value(s.drop_last()) * 10 + ((s.last() as u32) - ('0' as u32)) as nat);
        assert(digits_value(s.drop_last()) == n / 10);
        assert(digits_value(s) == n);
        assert forall|i: int| 0 <= i < s.len() implies is_digit(#[trigger] s[i]) by {
            if i < s.len() - 1 {
                assert(s[i] == dec(n / 10)[i]);
            }
        }
    } else {
        assert(dec(n).drop_last() =~= Seq::<char>::empty());
        assert((dec(n).last() as u32) - ('0' as u32) == d);
        assert(digits_value(dec(n).drop_last()) == 0);
        assert(digits_value(dec(n)) == n);
    }
}

/// Append the decimal representation of `n` to `out`.
pub fn push_dec(out: &mut Vec<char>, n: u64)
    ensures
        final(out)@ == old(out)@ + dec(n as nat),
    decreases n,
{
    if n >= 10 {
        push_dec(out, n / 10);
    }
    let d: u8 = (n % 10) as u8;
    let c: char = (48u8 + d) as char;
    out.push(c);
    proof {
        if n < 10 {
            assert(old(out)@ + dec(n as nat) =~= old(out)@.push(c));
        } else {
            assert(old(out)@ + dec(n as nat) =~= (old(out)@ + dec((n / 10) as nat)).push(c));
        }
    }
}

/// Value of a string of decimal digits.
pub open spec fn digits_value(s: Seq<char>) -> nat
    decreases s.len(),
{
    if s.len() == 0 {
        0
    } else {
        digits_value(s.drop_last()) * 10 + ((s.last() as u32) - ('0' as u32)) as nat
    }
}

pub open spec fn all_digits(s: Seq<char>) -> bool {
    forall|i: int| 0 <= i < s.len() ==> is_digit(#[trigger] s[i])
}

pub fn all_digits_of(v: &[char]) -> (r: bool)
    ensures
        r == all_digits(v@),
{
    let mut i: usize = 0;
    while i < v.len()
        invariant
            i <= v@.len(),
            forall|j: int| 0 <= j < i ==> is_digit(#[trigger] v@[j]),
        decreases v@.len() - i,
    {
        if !('0' <= v[i] && v[i] <= '9') {
            return false;
        }
        i = i + 1;
    }
    true
}

/// `FromStr` for an unsigned integer type whose largest value is `max`:
/// an optional `+`, then one or more ASCII digits, with a value of at most `max`.
pub open spec fn parse_uint(s: Seq<char>, max: nat) -> Option<nat> {
    let body = if s.len() > 0 && s[0] == '+' {
        s.drop_first()
    } else {
        s
    };
    if body.len() > 0 && all_digits(body) && digits_value(body) <= max {
        Some(digits_value(body))
    } else {
        None
    }
}

/// `str::parse::<u64>`.
pub fn parse_u64(v: &[char]) -> (r: Option<u64>)
    ensures
        match parse_uint(v@, u64::MAX as nat) {
            Some(n) => r == Some(n as u64),
            None => r is None,
        },
{
    let ghost body = if v@.len() > 0 && v@[0] == '+' {
        v@.drop_first()
    } else {
        v@
    };
    let start: usize = if v.len() > 0 && v[0] == '+' {
        1
    } else {
        0
    };
    assert(body =~= v@.subrange(start as int, v@.len() as int));
    if start >= v.len() {
        return None;
    }
    let mut acc: u128 = 0;
    let mut over = false;
    let mut i: usize = start;
    while i < v.len()
        invariant
            start <= i <= v@.len(),
            body == v@.subrange(start as int, v@.len() as int),
            body == (if v@.len() > 0 && v@[0] == '+' {
                v@.drop_first()
            } else {
                v@
            }),
            all_digits(v@.subrange(start as int, i as int)),
            !over ==> acc == digits_value(v@.subrange(start as int, i as int)) && acc
                <= u64::MAX,
            over ==> digits_value(v@.subrange(start as int, i as int)) > u64::MAX,
        decreases v@.len() - i,
    {
        let c = v[i];
        if !('0' <= c && c <= '9') {
            assert(body[i - start] == c);
            assert(!is_digit(body[i - start]));
            assert(!all_digits(body));
            return None;
        }
        let ghost prev = v@.subrange(start as int, i as int);
        let ghost next = v@.subrange(start as int, i + 1);
        assert(next.drop_last() =~= prev);
        assert(next.last() == c);
        if !over {
            let d: u128 = ((c as u32) - 48) as u128;
            acc = acc * 10 + d;
            if acc > 18446744073709551615u128 {
                over = true;
            }
        }
        i = i + 1;
    }
    assert(v@.subrange(start as int, v@.len() as int) =~= body);
    if over {
        None
    } else {
        Some(acc as u64)
    }
}

/// `str::parse::<u32>`.
pub fn parse_u32(v: &[char]) -> (r: Option<u32>)
    ensures
        match parse_uint(v@, u32::MAX as nat) {
            Some(n) => r == Some(n as u32),
            None => r is None,
        },
{
    match parse_u64(v) {
        Some(n) => {
            if n <= 4294967295u64 {
                Some(n as u32)
            } else {
                None
            }
        },
        None => None,
    }
}


/// `str::split(sep)`: the pieces between occurrences of `sep` (n separators give n + 1 pieces).
pub open spec fn split_spec(s: Seq<char>, sep: char) -> Seq<Seq<char>>
    decreases s.len(),
{
    if s.len() == 0 {
        seq![Seq::<char>::empty()]
    } else {
        let r = split_spec(s.drop_last(), sep);
        if s.last() == sep {
            r.push(Seq::<char>::empty())
        } else {
            r.update(r.len() - 1, r.last().push(s.last()))
        }
    }
}

pub proof fn lemma_split_nonempty(s: Seq<char>, sep: char)
    ensures
        split_spec(s, sep).len() >= 1,
    decreases s.len(),
{
    if s.len() > 0 {
        lemma_split_nonempty(s.drop_last(), sep);
    }
}

/// The character sequences held by a vector of character vectors.
pub open spec fn views(v: Seq<Vec<char>>) -> Seq<Seq<char>> {
    v.map_values(|x: Vec<char>| x@)
}

/// `str::split` on a character separator.
pub fn split_char(v: &[char], sep: char) -> (r: Vec<Vec<char>>)
    ensures
        views(r@) == split_spec(v@, sep),
        r@.len() >= 1,
{
    let mut cur: Vec<char> = Vec::new();
    let mut done: Vec<Vec<char>> = Vec::new();
    let mut i: usize = 0;
    assert(v@.subrange(0, 0) =~= Seq::<char>::empty());
    assert(views(done@).push(cur@) =~= split_spec(v@.subrange(0, 0), sep));
    while i < v.len()
        invariant
            i <= v@.len(),
            views(done@).push(cur@) == split_spec(v@.subrange(0, i as int), sep),
        decreases v@.len() - i,
    {
        let c = v[i];
        let ghost before = v@.subrange(0, i as int);
        let ghost old_done = done@;
        assert(v@.subrange(0, i + 1).drop_last() =~= before);
        proof {
            lemma_split_nonempty(before, sep);
        }
        if c == sep {
            let finished = cur;
            done.push(finished);
            cur = Vec::new();
            assert(views(done@) =~= views(old_done).push(finished@));
            assert(views(done@).push(cur@) =~= split_spec(before, sep).push(Seq::<char>::empty()));
        } else {
            cur.push(c);
            assert(views(done@).push(cur@) =~= split_spec(before, sep).update(
                split_spec(before, sep).len() - 1,
                split_spec(before, sep).last().push(c),
            ));
        }
        i = i + 1;
    }
    assert(v@.subrange(0, v@.len() as int) =~= v@);
    let ghost old_done = done@;
    let last = cur;
    done.push(last);
    assert(views(done@) =~= views(old_done).push(last@));
    done
}


/// `str::trim_end_matches` with a set of characters: drop trailing characters in `set`.
pub open spec fn strip_end_in(s: Seq<char>, set: Seq<char>) -> Seq<char>
    decreases s.len(),
{
    if s.len() > 0 && set.contains(s.last()) {
        strip_end_in(s.drop_last(), set)
    } else {
        s
    }
}

/// `str::trim_start_matches` with a set of characters: drop leading characters in `set`.
pub open spec fn strip_start_in(s: Seq<char>, set: Seq<char>) -> Seq<char>
    decreases s.len(),
{
    if s.len() > 0 && set.contains(s[0]) {
        strip_start_in(s.drop_first(), set)
    } else {
        s
    }
}

pub fn in_set(set: &[char], c: char) -> (r: bool)
    ensures
        r == set@.contains(c),
{
    let mut i: usize = 0;
    while i < set.len()
        invariant
            i <= set@.len(),
            forall|j: int| 0 <= j < i ==> set@[j] != c,
        decreases set@.len() - i,
    {
        if set[i] == c {
            return true;
        }
        i = i + 1;
    }
    false
}

/// The length of `strip_end_in(v, set)` (it is a prefix of `v`).
pub fn strip_end_len(v: &[char], set: &[char]) -> (r: usize)
    ensures
        r <= v@.len(),
        v@.subrange(0, r as int) == strip_end_in(v@, set@),
{
    let mut b: usize = v.len();
    assert(v@.subrange(0, v@.len() as int) =~= v@);
    while b > 0 && in_set(set, v[b - 1])
        invariant
            b <= v@.len(),
            strip_end_in(v@, set@) == strip_end_in(v@.subrange(0, b as int), set@),
        decreases b,
    {
        assert(v@.subrange(0, b as int).drop_last() =~= v@.subrange(0, b - 1));
        b = b - 1;
    }
    b
}

/// Where `strip_start_in(v, set)` begins in `v` (it is a suffix of `v`).
pub fn strip_start_pos(v: &[char], set: &[char]) -> (r: usize)
    ensures
        r <= v@.len(),
        v@.subrange(r as int, v@.len() as int) == strip_start_in(v@, set@),
{
    let mut a: usize = 0;
    assert(v@.subrange(0, v@.len() as int) =~= v@);
    while a < v.len() && in_set(set, v[a])
        invariant
            a <= v@.len(),
            strip_start_in(v@, set@) == strip_start_in(v@.subrange(a as int, v@.len() as int), set@),
        decreases v@.len() - a,
    {
        assert(v@.subrange(a as int, v@.len() as int).drop_first() =~= v@.subrange(a + 1, v@.len() as int));
        a = a + 1;
    }
    a
}

/// `str::eq_ignore_ascii_case`.
pub open spec fn eq_ic(a: Seq<char>, b: Seq<char>) -> bool {
    a.len() == b.len() && lower_seq(a) == lower_seq(b)
}

pub fn eq_ignore_case(a: &[char], b: &[char]) -> (r: bool)
    ensures
        r == eq_ic(a@, b@),
{
    if a.len() != b.len() {
        return false;
    }
    let mut i: usize = 0;
    while i < a.len()
        invariant
            i <= a@.len(),
            a@.len() == b@.len(),
            forall|j: int| 0 <= j < i ==> lower(a@[j]) == lower(b@[j]),
        decreases a@.len() - i,
    {
        if to_lower(a[i]) != to_lower(b[i]) {
            assert(lower_seq(a@)[i as int] != lower_seq(b@)[i as int]);
            return false;
        }
        i = i + 1;
    }
    assert(lower_seq(a@) =~= lower_seq(b@));
    true
}

/// Whether two character sequences are equal.
pub fn same(a: &[char], b: &[char]) -> (r: bool)
    ensures
        r == (a@ == b@),
{
    if a.len() != b.len() {
        return false;
    }
    let r = occurs(a, 0, b);
    assert(a@.subrange(0, b@.len() as int) =~= a@);
    r
}


/// `str::rfind` of a character: the index of its last occurrence.
pub open spec fn rfind_char(s: Seq<char>, c: char) -> Option<int>
    decreases s.len(),
{
    if s.len() == 0 {
        None
    } else if s.last() == c {
        Some(s.len() - 1)
    } else {
        rfind_char(s.drop_last(), c)
    }
}

pub proof fn lemma_rfind_char(s: Seq<char>, c: char)
    ensures
        rfind_char(s, c) matches Some(i) ==> 0 <= i < s.len() && s[i] == c && forall|j: int|
            i < j < s.len() ==> s[j] != c,
        rfind_char(s, c) is None ==> forall|j: int| 0 <= j < s.len() ==> s[j] != c,
    decreases s.len(),
{
    if s.len() > 0 && s.last() != c {
        lemma_rfind_char(s.drop_last(), c);
        assert forall|j: int| 0 <= j < s.len() - 1 implies s[j] == s.drop_last()[j] by {}
    }
}

pub fn rfind_ch(v: &[char], c: char) -> (r: Option<usize>)
    ensures
        match r {
            Some(i) => rfind_char(v@, c) == Some(i as int),
            None => rfind_char(v@, c) is None,
        },
{
    let mut n: usize = v.len();
    assert(v@.subrange(0, v@.len() as int) =~= v@);
    while n > 0
        invariant
            n <= v@.len(),
            rfind_char(v@, c) == rfind_char(v@.subrange(0, n as int), c),
        decreases n,
    {
        if v[n - 1] == c {
            return Some(n - 1);
        }
        assert(v@.subrange(0, n as int).drop_last() =~= v@.subrange(0, n - 1));
        n = n - 1;
    }
    None
}

/// Append the characters of `s` to `out`.
pub fn push_str(out: &mut Vec<char>, s: &str)
    ensures
        final(out)@ == old(out)@ + s@,
{
    let mut t = chars_of(s);
    out.append(&mut t);
}

/// Append the characters `s` to `out`.
pub fn push_chars(out: &mut Vec<char>, s: &[char])
    ensures
        final(out)@ == old(out)@ + s@,
{
    let mut i: usize = 0;
    let ghost o = out@;
    while i < s.len()
        invariant
            i <= s@.len(),
            out@ == o + s@.subrange(0, i as int),
        decreases s@.len() - i,
    {
        out.push(s[i]);
        i = i + 1;
        assert(out@ =~= o + s@.subrange(0, i as int));
    }
    assert(s@.subrange(0, s@.len() as int) =~= s@);
}


/// A line without the `\r` that ends it, if any.
pub open spec fn strip_cr(l: Seq<char>) -> Seq<char> {
    if l.len() > 0 && l.last() == '\r' {
        l.drop_last()
    } else {
        l
    }
}

/// `str::lines`: the pieces between `\n`s, without a final empty piece; each piece that
/// a `\n` ended loses one trailing `\r`.
pub open spec fn lines_spec(s: Seq<char>) -> Seq<Seq<char>> {
    let parts = split_spec(s, '\n');
    let kept = if parts.last().len() == 0 {
        parts.drop_last()
    } else {
        parts
    };
    Seq::new(
        kept.len(),
        |i: int|
            if i < parts.len() - 1 {
                strip_cr(kept[i])
            } else {
                kept[i]
            },
    )
}

pub fn lines_of(v: &[char]) -> (r: Vec<Vec<char>>)
    ensures
        views(r@) == lines_spec(v@),
{
    let parts = split_char(v, '\n');
    let ghost ps = views(parts@);
    let n = parts.len();
    let kept: usize = if parts[n - 1].len() == 0 {
        n - 1
    } else {
        n
    };
    assert(ps[n - 1] == parts@[n - 1]@);
    let mut r: Vec<Vec<char>> = Vec::new();
    let mut i: usize = 0;
    while i < kept
        invariant
            i <= kept <= n,
            n == parts@.len(),
            n >= 1,
            ps == views(parts@),
            ps == split_spec(v@, '\n'),
            kept == lines_spec(v@).len(),
            forall|j: int| 0 <= j < i ==> #[trigger] views(r@)[j] == lines_spec(v@)[j],
            r@.len() == i,
        decreases kept - i,
    {
        let p = &parts[i];
        assert(ps[i as int] == p@);
        let line: Vec<char> = if i < n - 1 && p.len() > 0 && p[p.len() - 1] == '\r' {
            slice_chars(p, 0, p.len() - 1)
        } else {
            slice_chars(p, 0, p.len())
        };
        assert(p@.subrange(0, p@.len() as int) =~= p@);
        assert(p@.subrange(0, p@.len() - 1) =~= p@.drop_last());
        let ghost old_r = r@;
        r.push(line);
        assert(views(r@) =~= views(old_r).push(line@));
        i = i + 1;
    }
    assert(views(r@) =~= lines_spec(v@));
    r
}


/// `s.split(pat).next()`: the text before the first occurrence of `pat` (all of `s` without one).
pub open spec fn before_first(s: Seq<char>, pat: Seq<char>) -> Seq<char> {
    match find(s, pat) {
        Some(k) => s.subrange(0, k),
        None => s,
    }
}

/// The text after the first occurrence of `pat`, if `pat` occurs.
pub open spec fn after_first(s: Seq<char>, pat: Seq<char>) -> Option<Seq<char>> {
    match find(s, pat) {
        Some(k) => Some(s.subrange(k + pat.len(), s.len() as int)),
        None => None,
    }
}

pub fn before_first_of(v: &[char], pat: &[char]) -> (r: Vec<char>)
    ensures
        r@ == before_first(v@, pat@),
{
    assert(v@.subrange(0, v@.len() as int) =~= v@);
    proof {
        lemma_find_props(v@, pat@);
    }
    match find_in(v, 0, pat) {
        Some(k) => slice_chars(v, 0, k),
        None => slice_chars(v, 0, v.len()),
    }
}

pub fn after_first_of(v: &[char], pat: &[char]) -> (r: Option<Vec<char>>)
    ensures
        match after_first(v@, pat@) {
            Some(a) => r matches Some(x) && x@ == a,
            None => r is None,
        },
{
    assert(v@.subrange(0, v@.len() as int) =~= v@);
    proof {
        lemma_find_props(v@, pat@);
    }
    match find_in(v, 0, pat) {
        Some(k) => {
            assert(v@.len() == v.len());
            Some(slice_chars(v, k + pat.len(), v.len()))
        },
        None => None,
    }
}


/// The longest prefix of `s` made of ASCII digits.
pub open spec fn digit_prefix(s: Seq<char>) -> Seq<char>
    decreases s.len(),
{
    if s.len() > 0 && is_digit(s[0]) {
        seq![s[0]] + digit_prefix(s.drop_first())
    } else {
        Seq::empty()
    }
}

pub fn digit_prefix_of(v: &[char]) -> (r: Vec<char>)
    ensures
        r@ == digit_prefix(v@),
{
    let mut i: usize = 0;
    assert(v@.subrange(0, v@.len() as int) =~= v@);
    assert(v@.subrange(0, 0) =~= Seq::<char>::empty());
    while i < v.len() && '0' <= v[i] && v[i] <= '9'
        invariant
            i <= v@.len(),
            digit_prefix(v@) == v@.subrange(0, i as int) + digit_prefix(
                v@.subrange(i as int, v@.len() as int),
            ),
        decreases v@.len() - i,
    {
        let ghost rest = v@.subrange(i as int, v@.len() as int);
        assert(rest.drop_first() =~= v@.subrange(i + 1, v@.len() as int));
        assert(v@.subrange(0, i + 1) =~= v@.subrange(0, i as int) + seq![rest[0]]);
        i = i + 1;
    }
    assert(digit_prefix(v@.subrange(i as int, v@.len() as int)) =~= Seq::<char>::empty());
    slice_chars(v, 0, i)
}


/// The leading ASCII letters and digits of `s`.
pub open spec fn alnum_prefix(s: Seq<char>) -> Seq<char>
    decreases s.len(),
{
    if s.len() > 0 && is_alnum(s[0]) {
        seq![s[0]] + alnum_prefix(s.drop_first())
    } else {
        Seq::empty()
    }
}

pub fn alnum_prefix_of(v: &[char]) -> (r: Vec<char>)
    ensures
        r@ == alnum_prefix(v@),
{
    let mut i: usize = 0;
    assert(v@.subrange(0, v@.len() as int) =~= v@);
    assert(v@.subrange(0, 0) =~= Seq::<char>::empty());
    while i < v.len() && (('0' <= v[i] && v[i] <= '9') || ('A' <= v[i] && v[i] <= 'Z') || ('a' <= v[i]
        && v[i] <= 'z'))
        invariant
            i <= v@.len(),
            alnum_prefix(v@) == v@.subrange(0, i as int) + alnum_prefix(
                v@.subrange(i as int, v@.len() as int),
            ),
        decreases v@.len() - i,
    {
        let ghost rest = v@.subrange(i as int, v@.len() as int);
        assert(rest.drop_first() =~= v@.subrange(i + 1, v@.len() as int));
        assert(v@.subrange(0, i + 1) =~= v@.subrange(0, i as int) + seq![rest[0]]);
        i = i + 1;
    }
    assert(alnum_prefix(v@.subrange(i as int, v@.len() as int)) =~= Seq::<char>::empty());
    slice_chars(v, 0, i)
}

/// The text before the first character of `set` (all of `s` when there is none): the
/// first piece of `str::split` on a set of characters.
pub open spec fn before_any(s: Seq<char>, set: Seq<char>) -> Seq<char>
    decreases s.len(),
{
    if s.len() > 0 && !set.contains(s[0]) {
        seq![s[0]] + before_any(s.drop_first(), set)
    } else {
        Seq::empty()
    }
}

pub fn before_any_of(v: &[char], set: &[char]) -> (r: Vec<char>)
    ensures
        r@ == before_any(v@, set@),
{
    let mut i: usize = 0;
    assert(v@.subrange(0, v@.len() as int) =~= v@);
    assert(v@.subrange(0, 0) =~= Seq::<char>::empty());
    while i < v.len() && !in_set(set, v[i])
        invariant
            i <= v@.len(),
            before_any(v@, set@) == v@.subrange(0, i as int) + before_any(
                v@.subrange(i as int, v@.len() as int),
                set@,
            ),
        decreases v@.len() - i,
    {
        let ghost rest = v@.subrange(i as int, v@.len() as int);
        assert(rest.drop_first() =~= v@.subrange(i + 1, v@.len() as int));
        assert(v@.subrange(0, i + 1) =~= v@.subrange(0, i as int) + seq![rest[0]]);
        i = i + 1;
    }
    assert(before_any(v@.subrange(i as int, v@.len() as int), set@) =~= Seq::<char>::empty());
    slice_chars(v, 0, i)
}

/// `str::replace`: every occurrence of `pat`, left to right and not overlapping, replaced
/// by `rep`.
pub open spec fn replace_all(s: Seq<char>, pat: Seq<char>, rep: Seq<char>) -> Seq<char>
    recommends
        pat.len() > 0,
    decreases s.len(),
{
    if pat.len() == 0 {
        s
    } else {
        match find(s, pat) {
            Some(k) => if 0 <= k && k + pat.len() <= s.len() {
                s.subrange(0, k) + rep + replace_all(s.subrange(k + pat.len(), s.len() as int), pat, rep)
            } else {
                s
            },
            None => s,
        }
    }
}

pub fn replace_chars(v: &[char], pat: &[char], rep: &[char]) -> (r: Vec<char>)
    requires
        pat@.len() > 0,
    ensures
        r@ == replace_all(v@, pat@, rep@),
{
    let mut out: Vec<char> = Vec::new();
    let mut i: usize = 0;
    assert(v@.subrange(0, v@.len() as int) =~= v@);
    loop
        invariant
            i <= v@.len(),
            pat@.len() > 0,
            replace_all(v@, pat@, rep@) == out@ + replace_all(
                v@.subrange(i as int, v@.len() as int),
                pat@,
                rep@,
            ),
        decreases v@.len() - i,
    {
        let ghost rest = v@.subrange(i as int, v@.len() as int);
        proof {
            lemma_find_props(rest, pat@);
        }
        match find_in(v, i, pat) {
            Some(k) => {
                assert(v@.len() == v.len());
                let ghost o = out@;
                push_chars(&mut out, &slice_chars(v, i, i + k));
                push_chars(&mut out, rep);
                assert(rest.subrange(0, k as int) =~= v@.subrange(i as int, i + k));
                assert(rest.subrange(k + pat@.len(), rest.len() as int) =~= v@.subrange(
                    i + k + pat@.len(),
                    v@.len() as int,
                ));
                assert(out@ =~= o + rest.subrange(0, k as int) + rep@);
                i = i + k + pat.len();
            },
            None => {
                push_chars(&mut out, &slice_chars(v, i, v.len()));
                return out;
            },
        }
    }
}

} // verus!
