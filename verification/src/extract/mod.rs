//! Finding media file URLs in fetched pages.

pub mod html;
pub mod engine;
pub mod generic;
pub mod json;
pub mod profile;

use vstd::prelude::*;
use crate::model::{exts, MediaKind, Stream};
use crate::quality::Quality;
use crate::text::{chars_of, ends_with, lower_seq, lowercase, push_str, string_of, trim, trimmed};
use crate::weburl::{join_web_url, url_join, WebUrl};

verus! {

/// Options passed to extractors.
#[derive(Debug, Clone)]
pub struct ExtractOptions {
    pub kinds: Vec<MediaKind>,
    pub quality: Quality,
}

/// Whether the options ask for video.
pub fn wants_video(options: &ExtractOptions) -> (r: bool)
    ensures
        r == options.kinds@.contains(MediaKind::Video),
{
    wants_kind(&options.kinds, MediaKind::Video)
}

/// Whether `kinds` holds `kind`.
pub fn wants_kind(kinds: &Vec<MediaKind>, kind: MediaKind) -> (r: bool)
    ensures
        r == kinds@.contains(kind),
{
    let mut i: usize = 0;
    while i < kinds.len()
        invariant
            i <= kinds@.len(),
            forall|j: int| 0 <= j < i ==> kinds@[j] != kind,
        decreases kinds@.len() - i,
    {
        if kinds[i] == kind {
            return true;
        }
        i = i + 1;
    }
    false
}

/// `reference`, trimmed, resolved against `base`; `None` when the URL parser refuses it.
pub fn resolve_url(base: &WebUrl, reference: &str) -> (r: Option<WebUrl>)
    ensures
        match url_join(base.href@, trim(reference@)) {
            Some(u) => r matches Some(x) && x@ == u,
            None => r is None,
        },
{
    let t = trimmed(&chars_of(reference));
    let s = string_of(t.as_slice());
    match join_web_url(base, s.as_str()) {
        Ok(u) => Some(u),
        Err(_) => None,
    }
}

/// The lower-cased path ends with `.` and one of the extensions of `kind`.
pub open spec fn path_has_ext(path: Seq<char>, kind: MediaKind) -> bool {
    exists|i: int|
        0 <= i < exts(kind).len() && ends_with(lower_seq(path), "."@ + #[trigger] exts(kind)[i])
}

/// Whether the lower-cased `path` ends with `.ext` for an extension of `kind`.
pub fn path_ends_with_ext(path: &[char], kind: MediaKind) -> (r: bool)
    ensures
        r == path_has_ext(path@, kind),
{
    let p = lowercase(path);
    let list = kind.file_extensions();
    let mut i: usize = 0;
    while i < list.len()
        invariant
            i <= list@.len(),
            p@ == lower_seq(path@),
            crate::model::str_views(list@) == exts(kind),
            forall|j: int|
                0 <= j < i ==> !ends_with(lower_seq(path@), "."@ + #[trigger] exts(kind)[j]),
        decreases list@.len() - i,
    {
        let mut e = chars_of(".");
        push_str(&mut e, list[i]);
        assert(exts(kind)[i as int] == list@[i as int]@);
        if crate::text::has_suffix(&p, &e) {
            return true;
        }
        i = i + 1;
    }
    false
}

/// The kind a URL points at: the hint when given, else audio when the path ends with an
/// audio extension, else video.
pub open spec fn kind_of(url: WebUrl, hint: Option<MediaKind>) -> MediaKind {
    match hint {
        Some(k) => k,
        None => if path_has_ext(url.path@, MediaKind::Audio) {
            MediaKind::Audio
        } else {
            MediaKind::Video
        },
    }
}

pub fn infer_kind(url: &WebUrl, hint: Option<MediaKind>) -> (r: MediaKind)
    ensures
        r == kind_of(*url, hint),
{
    match hint {
        Some(k) => k,
        None => {
            let p = chars_of(url.path.as_str());
            if path_ends_with_ext(&p, MediaKind::Audio) {
                MediaKind::Audio
            } else {
                MediaKind::Video
            }
        },
    }
}

/// Whether `url`'s path ends with one of the extensions of `kind`.
pub fn has_known_extension(url: &WebUrl, kind: MediaKind) -> (r: bool)
    ensures
        r == path_has_ext(url.path@, kind),
{
    let p = chars_of(url.path.as_str());
    path_ends_with_ext(&p, kind)
}

/// `s[i]`'s URL already occurred before index `i`.
pub open spec fn seen_before(s: Seq<Stream>, i: int) -> bool {
    exists|j: int| 0 <= j < i && (#[trigger] s[j]).url.href@ == s[i].url.href@
}

/// The streams of `s` whose URL did not occur earlier, in order.
pub open spec fn deduped(s: Seq<Stream>) -> Seq<Stream>
    decreases s.len(),
{
    if s.len() == 0 {
        Seq::empty()
    } else if seen_before(s, s.len() - 1) {
        deduped(s.drop_last())
    } else {
        deduped(s.drop_last()).push(s.last())
    }
}

/// Dropping repeated URLs keeps one stream per URL: no two kept streams share a URL,
/// every URL of the input is kept, and every kept stream comes from the input.
pub proof fn law_deduped(s: Seq<Stream>)
    ensures
        forall|i: int, j: int|
            0 <= i < j < deduped(s).len() ==> (#[trigger] deduped(s)[i]).url.href@ != (
            #[trigger] deduped(s)[j]).url.href@,
        forall|k: int|
            0 <= k < s.len() ==> exists|i: int|
                0 <= i < deduped(s).len() && (#[trigger] deduped(s)[i]).url.href@ == (
                #[trigger] s[k]).url.href@,
        forall|i: int| 0 <= i < deduped(s).len() ==> s.contains(#[trigger] deduped(s)[i]),
    decreases s.len(),
{
    if s.len() > 0 {
        let t = s.drop_last();
        law_deduped(t);
        let d = deduped(t);
        let n = (s.len() - 1) as int;
        if seen_before(s, n) {
            assert(deduped(s) == d);
            assert forall|k: int| 0 <= k < s.len() implies exists|i: int|
                0 <= i < deduped(s).len() && (#[trigger] deduped(s)[i]).url.href@ == (
                #[trigger] s[k]).url.href@ by {
                if k < n {
                    assert(s[k] == t[k]);
                } else {
                    let j = choose|j: int| 0 <= j < n && (#[trigger] s[j]).url.href@ == s[n].url.href@;
                    assert(s[j] == t[j]);
                }
            }
            assert forall|i: int| 0 <= i < deduped(s).len() implies s.contains(#[trigger] deduped(s)[i]) by {
                let k = choose|k: int| 0 <= k < t.len() && t[k] == d[i];
                assert(s[k] == t[k]);
            }
        } else {
            let d2 = d.push(s.last());
            assert(deduped(s) == d2);
            assert forall|i: int| 0 <= i < d.len() implies (#[trigger] d[i]).url.href@ != s[n].url.href@ by {
                let k = choose|k: int| 0 <= k < t.len() && t[k] == d[i];
                assert(s[k] == t[k]);
                assert(!((s[k]).url.href@ == s[n].url.href@));
            }
            assert forall|i: int, j: int|
                0 <= i < j < d2.len() implies (#[trigger] d2[i]).url.href@ != (#[trigger] d2[j]).url.href@ by {
                if j == d.len() {
                    assert(d2[i] == d[i]);
                } else {
                    assert(d2[i] == d[i] && d2[j] == d[j]);
                }
            }
            assert forall|k: int| 0 <= k < s.len() implies exists|i: int|
                0 <= i < d2.len() && (#[trigger] d2[i]).url.href@ == (#[trigger] s[k]).url.href@ by {
                if k < n {
                    assert(s[k] == t[k]);
                    let i = choose|i: int| 0 <= i < d.len() && (#[trigger] d[i]).url.href@ == t[k].url.href@;
                    assert(d2[i] == d[i]);
                } else {
                    assert(d2[d.len() as int] == s[k]);
                }
            }
            assert forall|i: int| 0 <= i < d2.len() implies s.contains(#[trigger] d2[i]) by {
                if i < d.len() {
                    let k = choose|k: int| 0 <= k < t.len() && t[k] == d[i];
                    assert(s[k] == t[k]);
                    assert(d2[i] == d[i]);
                } else {
                    assert(s[n] == d2[i]);
                }
            }
        }
    }
}

/// Drop every stream whose URL an earlier stream already has.
pub fn dedupe_streams(streams: Vec<Stream>) -> (r: Vec<Stream>)
    ensures
        r@ == deduped(streams@),
{
    let mut r: Vec<Stream> = Vec::new();
    let mut i: usize = 0;
    while i < streams.len()
        invariant
            i <= streams@.len(),
            r@ == deduped(streams@.subrange(0, i as int)),
        decreases streams@.len() - i,
    {
        let ghost pre = streams@.subrange(0, i + 1);
        assert(pre.drop_last() =~= streams@.subrange(0, i as int));
        let mut seen = false;
        let mut j: usize = 0;
        while j < i
            invariant
                j <= i < streams@.len(),
                pre == streams@.subrange(0, i + 1),
                seen == exists|k: int| 0 <= k < j && (#[trigger] pre[k]).url.href@ == pre[i as int].url.href@,
            decreases i - j,
        {
            if streams[j].url.href == streams[i].url.href {
                assert(pre[j as int] == streams@[j as int]);
                seen = true;
            } else {
                assert forall|k: int| 0 <= k < j + 1 && (#[trigger] pre[k]).url.href@ == pre[i as int].url.href@ implies k < j by {
                    if k == j {
                        assert(pre[k] == streams@[j as int]);
                    }
                }
            }
            j = j + 1;
        }
        assert(seen == seen_before(pre, i as int));
        if !seen {
            r.push(streams[i].copy_of());
        }
        i = i + 1;
    }
    assert(streams@.subrange(0, streams@.len() as int) =~= streams@);
    r
}

} // verus!
