//! HLS master playlist parsing.

use vstd::prelude::*;
use crate::error::Error;
use crate::text::{
    after_first, after_first_of, before_first, before_first_of, chars_of, lines_of, lines_spec,
    parse_u32, parse_uint, slice_chars, starts_with, string_of, trim, trim_start, trimmed, views,
};
use crate::weburl::{join_web_url, parse_web_url, url_join, url_parse, WebUrl};

verus! {

/// One entry from an HLS master playlist (`#EXT-X-STREAM-INF` + URL).
#[derive(Debug, Clone, PartialEq, Eq)]
pub struct MasterVariant {
    pub height: u32,
    pub url: WebUrl,
}

/// The height in a `RESOLUTION=WxH` attribute: between the first `x` and the next `x`
/// of the text after `RESOLUTION=` up to a `,` or the next `RESOLUTION=`.
pub open spec fn resolution_of(attrs: Seq<char>) -> Option<nat> {
    match after_first(attrs, "RESOLUTION="@) {
        Some(a) => {
            let value = before_first(before_first(a, "RESOLUTION="@), ","@);
            match after_first(value, "x"@) {
                Some(h) => parse_uint(before_first(h, "x"@), u32::MAX as nat),
                None => None,
            }
        },
        None => None,
    }
}

pub fn resolution_height(attrs: &[char]) -> (r: Option<u32>)
    ensures
        match resolution_of(attrs@) {
            Some(h) => r == Some(h as u32),
            None => r is None,
        },
{
    let key = chars_of("RESOLUTION=");
    let a = match after_first_of(attrs, &key) {
        Some(a) => a,
        None => {
            return None;
        },
    };
    let piece = before_first_of(&a, &key);
    let value = before_first_of(&piece, &chars_of(","));
    let h = match after_first_of(&value, &chars_of("x")) {
        Some(h) => h,
        None => {
            return None;
        },
    };
    parse_u32(&before_first_of(&h, &chars_of("x")))
}

/// The outcome of reading a master playlist's lines: the variants, a URL that the URL
/// parser refused, or a relative URL with no base to resolve it against.
pub enum MasterScan {
    Variants(Seq<(u32, (Seq<char>, Seq<char>, Option<Seq<char>>, Seq<char>, Option<Seq<char>>))>),
    BadUrl,
    NoBase(Seq<char>),
}

/// Read the lines `ls` from `i` on: each `#EXT-X-STREAM-INF:` line takes the next line
/// as its URL (a next line starting with `#` is skipped with it; no next line ends the
/// scan).
pub open spec fn scan_master(ls: Seq<Seq<char>>, i: int, base: Option<Seq<char>>) -> MasterScan
    decreases ls.len() - i,
{
    if i < 0 || i >= ls.len() {
        MasterScan::Variants(Seq::empty())
    } else if !starts_with(ls[i], "#EXT-X-STREAM-INF:"@) {
        scan_master(ls, i + 1, base)
    } else if i + 1 >= ls.len() {
        MasterScan::Variants(Seq::empty())
    } else if starts_with(ls[i + 1], "#"@) {
        scan_master(ls, i + 2, base)
    } else {
        let attrs = ls[i].subrange(18, ls[i].len() as int);
        let h: u32 = match resolution_of(attrs) {
            Some(h) => h as u32,
            None => 0,
        };
        let t = trim(ls[i + 1]);
        let absolute = starts_with(t, "http://"@) || starts_with(t, "https://"@);
        if !absolute && base is None {
            MasterScan::NoBase(t)
        } else {
            let resolved = if absolute {
                url_parse(t)
            } else {
                url_join(base.unwrap(), t)
            };
            match resolved {
                None => MasterScan::BadUrl,
                Some(u) => match scan_master(ls, i + 2, base) {
                    MasterScan::Variants(rest) => MasterScan::Variants(seq![(h, u)] + rest),
                    other => other,
                },
            }
        }
    }
}

/// A variant URL is refused for want of a base only when there is no base and the URL
/// is relative: a line starting with `http://` or `https://` is absolute and is parsed
/// as it is, with or without a base.
pub proof fn law_absolute_urls_need_no_base(ls: Seq<Seq<char>>, i: int, base: Option<Seq<char>>)
    ensures
        scan_master(ls, i, base) matches MasterScan::NoBase(t) ==> base is None && !starts_with(
            t,
            "http://"@,
        ) && !starts_with(t, "https://"@),
    decreases ls.len() - i,
{
    if 0 <= i < ls.len() {
        law_absolute_urls_need_no_base(ls, i + 1, base);
        if i + 2 <= ls.len() {
            law_absolute_urls_need_no_base(ls, i + 2, base);
        }
    }
}

/// With every variant URL absolute, the base makes no difference: whatever a playlist
/// yields without a base, it yields with any base.
pub proof fn law_base_unused_when_absolute(ls: Seq<Seq<char>>, i: int, base: Seq<char>)
    requires
        !(scan_master(ls, i, None) is NoBase),
    ensures
        scan_master(ls, i, Some(base)) == scan_master(ls, i, None),
    decreases ls.len() - i,
{
    if 0 <= i < ls.len() {
        if !starts_with(ls[i], "#EXT-X-STREAM-INF:"@) {
            law_base_unused_when_absolute(ls, i + 1, base);
        } else if i + 1 >= ls.len() {
        } else if starts_with(ls[i + 1], "#"@) {
            law_base_unused_when_absolute(ls, i + 2, base);
        } else {
            let t = trim(ls[i + 1]);
            if starts_with(t, "http://"@) || starts_with(t, "https://"@) {
                if url_parse(t) is Some {
                    if !(scan_master(ls, i + 2, None) is NoBase) {
                        law_base_unused_when_absolute(ls, i + 2, base);
                    }
                }
            }
        }
    }
}

pub open spec fn variant_views(v: Seq<MasterVariant>) -> Seq<
    (u32, (Seq<char>, Seq<char>, Option<Seq<char>>, Seq<char>, Option<Seq<char>>)),
> {
    v.map_values(|m: MasterVariant| (m.height, m.url@))
}

/// What `parse_master_with_base` returns for `body` and the base URL's serialization.
pub open spec fn master_result(body: Seq<char>, base: Option<Seq<char>>, r: Result<Vec<MasterVariant>, Error>) -> bool {
    if !starts_with(trim_start(body), "#EXTM3U"@) {
        r == Err::<Vec<MasterVariant>, Error>(Error::NoStreamsFound)
    } else {
        match scan_master(lines_spec(body), 0, base) {
            MasterScan::Variants(vs) => if vs.len() == 0 {
                r == Err::<Vec<MasterVariant>, Error>(Error::NoStreamsFound)
            } else {
                r matches Ok(v) && variant_views(v@) == vs
            },
            MasterScan::BadUrl => r matches Err(Error::InvalidUrl(_)),
            MasterScan::NoBase(t) => r matches Err(Error::InvalidUrl(m)) && m@
                == "relative HLS URL without base: "@ + t,
        }
    }
}

pub open spec fn base_view(base: Option<&WebUrl>) -> Option<Seq<char>> {
    match base {
        Some(b) => Some(b.href@),
        None => None,
    }
}

/// Parse variant URLs and heights from an HLS master playlist body.
pub fn parse_master(body: &str) -> (r: Result<Vec<MasterVariant>, Error>)
    ensures
        master_result(body@, None, r),
{
    parse_master_with_base(body, None)
}

/// Like [`parse_master`], but resolves relative variant URLs against `base`.
pub fn parse_master_with_base(body: &str, base: Option<&WebUrl>) -> (r: Result<Vec<MasterVariant>, Error>)
    ensures
        master_result(body@, base_view(base), r),
{
    let v = chars_of(body);
    let (a, _) = crate::text::trim_bounds(&v);
    let head = slice_chars(&v, a, v.len());
    if !crate::text::has_prefix(&head, &chars_of("#EXTM3U")) {
        return Err(Error::NoStreamsFound);
    }
    let ls = lines_of(&v);
    let ghost lv = views(ls@);
    let ghost bv = base_view(base);
    let tag = chars_of("#EXT-X-STREAM-INF:");
    let hash = chars_of("#");
    let http = chars_of("http://");
    let https = chars_of("https://");
    let mut out: Vec<MasterVariant> = Vec::new();
    let mut i: usize = 0;
    let ghost mut done: bool = false;
    while i < ls.len()
        invariant
            i <= ls@.len() + 1,
            lv == views(ls@),
            lv == lines_spec(body@),
            tag@ == "#EXT-X-STREAM-INF:"@,
            hash@ == "#"@,
            http@ == "http://"@,
            https@ == "https://"@,
            bv == base_view(base),
            starts_with(trim_start(body@), "#EXTM3U"@),
            match scan_master(lv, 0, bv) {
                MasterScan::Variants(all) => match scan_master(lv, i as int, bv) {
                    MasterScan::Variants(rest) => all == variant_views(out@) + rest,
                    _ => false,
                },
                other => scan_master(lv, i as int, bv) == other,
            },
        decreases ls@.len() + 1 - i,
    {
        let line = &ls[i];
        assert(lv[i as int] == line@);
        if !crate::text::has_prefix(line, &tag) {
            i = i + 1;
            continue;
        }
        if i + 1 >= ls.len() {
            i = i + 1;
            continue;
        }
        let next = &ls[i + 1];
        assert(lv[i + 1] == next@);
        if crate::text::has_prefix(next, &hash) {
            i = i + 2;
            continue;
        }
        proof {
            reveal_strlit("#EXT-X-STREAM-INF:");
        }
        let attrs = slice_chars(line, 18, line.len());
        let h: u32 = match resolution_height(&attrs) {
            Some(h) => h,
            None => 0,
        };
        let t = trimmed(next);
        let ts = string_of(t.as_slice());
        let absolute = crate::text::has_prefix(&t, &http) || crate::text::has_prefix(&t, &https);
        let parsed = if absolute {
            parse_web_url(ts.as_str())
        } else {
            match base {
                Some(b) => join_web_url(b, ts.as_str()),
                None => {
                    assert(scan_master(lv, i as int, bv) == MasterScan::NoBase(t@));
                    let mut m = chars_of("relative HLS URL without base: ");
                    crate::text::push_chars(&mut m, &t);
                    return Err(Error::InvalidUrl(string_of(m.as_slice())));
                },
            }
        };
        match parsed {
            Ok(u) => {
                let ghost old_out = out@;
                out.push(MasterVariant { height: h, url: u });
                assert(variant_views(out@) =~= variant_views(old_out).push((h, u@)));
                i = i + 2;
            },
            Err(e) => {
                assert(scan_master(lv, i as int, bv) == MasterScan::BadUrl);
                return Err(Error::InvalidUrl(e));
            },
        }
    }
    assert(scan_master(lv, i as int, bv) == MasterScan::Variants(Seq::empty()));
    assert(variant_views(out@) + Seq::empty() =~= variant_views(out@));
    if out.len() == 0 {
        Err(Error::NoStreamsFound)
    } else {
        Ok(out)
    }
}

} // verus!
