//! On-disk file names for downloaded streams.

use vstd::prelude::*;
use crate::model::{exts, is_extension_of, MediaKind, PageInfo, Stream};
use crate::text::{
    chars_of, ends_with, is_alnum, is_digit, is_lower, lower, lower_seq, lowercase, push_chars, push_str, rfind_char,
    rfind_ch, same, slice_chars, split_char, split_spec, starts_with, string_of, trim, trimmed,
    views,
};
use crate::weburl::{opt_view, path_segments, segments};

verus! {

/// Resolved on-disk filename for a stream.
#[derive(Debug, Clone, PartialEq, Eq)]
pub struct OutputName {
    pub file_name: String,
}

/// One step of slugging: alphanumerics are kept in lower case, and each run of other
/// characters after some output becomes a single `-`.
pub open spec fn slug_step(st: (Seq<char>, bool), c: char) -> (Seq<char>, bool) {
    if is_alnum(c) {
        (st.0.push(lower(c)), false)
    } else if !st.1 && st.0.len() > 0 {
        (st.0.push('-'), true)
    } else {
        st
    }
}

pub open spec fn slug_scan(s: Seq<char>) -> (Seq<char>, bool)
    decreases s.len(),
{
    if s.len() == 0 {
        (Seq::empty(), false)
    } else {
        slug_step(slug_scan(s.drop_last()), s.last())
    }
}

/// The slug of `s`: lower-case ASCII alphanumerics joined by single dashes, without a
/// trailing dash, or `page` when nothing is left.
pub open spec fn slug(s: Seq<char>) -> Seq<char> {
    let o = slug_scan(s).0;
    let o2 = if o.len() > 0 && o.last() == '-' {
        o.drop_last()
    } else {
        o
    };
    if o2.len() == 0 {
        "page"@
    } else {
        o2
    }
}

/// A slug character: a lower-case ASCII letter, a digit, or `-`.
pub open spec fn slug_char(c: char) -> bool {
    is_lower(c) || is_digit(c) || c == '-'
}

/// The shape of slug text: slug characters only, not starting with `-`, and no two
/// `-` in a row.
pub open spec fn slug_shape(o: Seq<char>) -> bool {
    &&& forall|i: int| 0 <= i < o.len() ==> slug_char(#[trigger] o[i])
    &&& (o.len() > 0 ==> o[0] != '-')
    &&& forall|i: int| 0 <= i < o.len() - 1 ==> !(#[trigger] o[i] == '-' && o[i + 1] == '-')
}

proof fn lemma_scan_shape(s: Seq<char>)
    ensures
        slug_shape(slug_scan(s).0),
        slug_scan(s).1 <==> (slug_scan(s).0.len() > 0 && slug_scan(s).0.last() == '-'),
    decreases s.len(),
{
    if s.len() > 0 {
        lemma_scan_shape(s.drop_last());
        let st = slug_scan(s.drop_last());
        let o = st.0;
        let c = s.last();
        if is_alnum(c) {
            let o2 = o.push(lower(c));
            assert(slug_char(lower(c)));
            assert forall|i: int| 0 <= i < o2.len() implies slug_char(#[trigger] o2[i]) by {
                if i < o.len() {
                    assert(o2[i] == o[i]);
                }
            }
            assert forall|i: int| 0 <= i < o2.len() - 1 implies !(#[trigger] o2[i] == '-' && o2[i + 1] == '-') by {
                if i < o.len() - 1 {
                    assert(o2[i] == o[i] && o2[i + 1] == o[i + 1]);
                }
            }
        } else if !st.1 && o.len() > 0 {
            let o2 = o.push('-');
            assert forall|i: int| 0 <= i < o2.len() implies slug_char(#[trigger] o2[i]) by {
                if i < o.len() {
                    assert(o2[i] == o[i]);
                }
            }
            assert forall|i: int| 0 <= i < o2.len() - 1 implies !(#[trigger] o2[i] == '-' && o2[i + 1] == '-') by {
                if i < o.len() - 1 {
                    assert(o2[i] == o[i] && o2[i + 1] == o[i + 1]);
                } else {
                    assert(o2[i] == o.last());
                }
            }
        }
    }
}

/// Every slug is non-empty, made of lower-case ASCII letters, digits and single dashes,
/// and neither starts nor ends with a dash.
pub proof fn law_slug_shape(s: Seq<char>)
    ensures
        slug(s).len() > 0,
        slug_shape(slug(s)),
        slug(s).last() != '-',
{
    lemma_scan_shape(s);
    reveal_strlit("page");
    let o = slug_scan(s).0;
    if o.len() > 0 && o.last() == '-' {
        let o2 = o.drop_last();
        assert forall|i: int| 0 <= i < o2.len() implies slug_char(#[trigger] o2[i]) by {
            assert(o2[i] == o[i]);
        }
        assert forall|i: int| 0 <= i < o2.len() - 1 implies !(#[trigger] o2[i] == '-' && o2[i + 1] == '-') by {
            assert(o2[i] == o[i] && o2[i + 1] == o[i + 1]);
        }
        if o2.len() > 0 {
            assert(o2.last() == o[o.len() - 2]);
            assert(!(o[o.len() - 2] == '-' && o[o.len() - 1] == '-'));
        }
    }
    let p = "page"@;
    assert(slug_char(p[0]) && slug_char(p[1]) && slug_char(p[2]) && slug_char(p[3]));
}

/// Scanning text that already has slug shape changes nothing: it comes back as it was,
/// with the dash flag telling whether it ends in `-`.
proof fn lemma_scan_of_shape(t: Seq<char>)
    requires
        slug_shape(t),
    ensures
        slug_scan(t) == (t, t.len() > 0 && t.last() == '-'),
    decreases t.len(),
{
    if t.len() > 0 {
        let p = t.drop_last();
        assert forall|i: int| 0 <= i < p.len() implies slug_char(#[trigger] p[i]) by {
            assert(p[i] == t[i]);
        }
        assert forall|i: int| 0 <= i < p.len() - 1 implies !(#[trigger] p[i] == '-' && p[i + 1] == '-') by {
            assert(p[i] == t[i] && p[i + 1] == t[i + 1]);
        }
        if p.len() > 0 {
            assert(p[0] == t[0]);
        }
        lemma_scan_of_shape(p);
        let c = t.last();
        assert(slug_char(t[t.len() - 1]));
        if c == '-' {
            assert(p.len() > 0);
            assert(p.last() == t[t.len() - 2]);
            assert(!(t[t.len() - 2] == '-' && t[t.len() - 1] == '-'));
            assert(p.push('-') =~= t);
        } else {
            assert(is_alnum(c));
            assert(lower(c) == c);
            assert(p.push(c) =~= t);
        }
    }
}

/// Slugging a slug gives it back unchanged.
pub proof fn law_slug_idempotent(s: Seq<char>)
    ensures
        slug(slug(s)) == slug(s),
{
    law_slug_shape(s);
    let u = slug(s);
    lemma_scan_of_shape(u);
    assert(slug_scan(u).0 == u);
}

proof fn lemma_scan_without_alnum(s: Seq<char>)
    requires
        forall|i: int| 0 <= i < s.len() ==> !is_alnum(#[trigger] s[i]),
    ensures
        slug_scan(s).0.len() == 0,
    decreases s.len(),
{
    if s.len() > 0 {
        let p = s.drop_last();
        assert forall|i: int| 0 <= i < p.len() implies !is_alnum(#[trigger] p[i]) by {
            assert(p[i] == s[i]);
        }
        lemma_scan_without_alnum(p);
        assert(!is_alnum(s[s.len() - 1]));
    }
}

/// Text without an ASCII letter or digit slugs to `page`.
pub proof fn law_slug_of_nothing(s: Seq<char>)
    requires
        forall|i: int| 0 <= i < s.len() ==> !is_alnum(#[trigger] s[i]),
    ensures
        slug(s) == "page"@,
{
    lemma_scan_without_alnum(s);
}

pub fn slugify_chars(input: &[char]) -> (r: Vec<char>)
    ensures
        r@ == slug(input@),
{
    let mut out: Vec<char> = Vec::new();
    let mut last_dash = false;
    let mut i: usize = 0;
    assert(input@.subrange(0, 0) =~= Seq::<char>::empty());
    while i < input.len()
        invariant
            i <= input@.len(),
            slug_scan(input@.subrange(0, i as int)) == (out@, last_dash),
        decreases input@.len() - i,
    {
        let ch = input[i];
        assert(input@.subrange(0, i + 1).drop_last() =~= input@.subrange(0, i as int));
        if ('0' <= ch && ch <= '9') || ('a' <= ch && ch <= 'z') || ('A' <= ch && ch <= 'Z') {
            out.push(crate::text::to_lower(ch));
            last_dash = false;
        } else if !last_dash && out.len() > 0 {
            out.push('-');
            last_dash = true;
        }
        i = i + 1;
    }
    assert(input@.subrange(0, input@.len() as int) =~= input@);
    if out.len() > 0 && out[out.len() - 1] == '-' {
        out.pop();
    }
    if out.len() == 0 {
        chars_of("page")
    } else {
        out
    }
}

/// Lower-case ASCII slug of `input` (`page` when it has no alphanumerics).
pub fn slugify(input: &str) -> (r: String)
    ensures
        r@ == slug(input@),
{
    let v = chars_of(input);
    string_of(slugify_chars(&v).as_slice())
}

/// The title with surrounding whitespace and one trailing ` - YouTube` removed.
pub open spec fn clean_title(title: Seq<char>) -> Seq<char> {
    let t = trim(title);
    let suffix = " - YouTube"@;
    if ends_with(t, suffix) {
        trim(t.subrange(0, t.len() - suffix.len()))
    } else {
        trim(t)
    }
}

pub fn clean_title_for_filename(title: &str) -> (r: String)
    ensures
        r@ == clean_title(title@),
{
    let v = chars_of(title);
    let t = trimmed(&v);
    let suffix = chars_of(" - YouTube");
    if crate::text::has_suffix(&t, &suffix) {
        let head = slice_chars(&t, 0, t.len() - suffix.len());
        string_of(trimmed(&head).as_slice())
    } else {
        string_of(trimmed(&t).as_slice())
    }
}

/// The last path component, as `Path::file_name` sees it: empty and `.` pieces are
/// skipped; `..` or no component at all gives none.
pub open spec fn last_component(segs: Seq<Seq<char>>) -> Option<Seq<char>>
    decreases segs.len(),
{
    if segs.len() == 0 {
        None
    } else if segs.last().len() == 0 || segs.last() == "."@ {
        last_component(segs.drop_last())
    } else {
        Some(segs.last())
    }
}

/// `Path::file_name` of a `/`-separated path.
pub open spec fn file_name_of(path: Seq<char>) -> Option<Seq<char>> {
    match last_component(split_spec(path, '/')) {
        Some(n) => if n == ".."@ {
            None
        } else {
            Some(n)
        },
        None => None,
    }
}

/// `Path::file_stem` of a file name: up to its last dot, unless that dot starts it.
pub open spec fn stem_of(name: Seq<char>) -> Seq<char> {
    match rfind_char(name, '.') {
        Some(i) => if i == 0 {
            name
        } else {
            name.subrange(0, i)
        },
        None => name,
    }
}

/// `Path::extension` of a file name: after its last dot, unless that dot starts it.
pub open spec fn extension_of(name: Seq<char>) -> Option<Seq<char>> {
    match rfind_char(name, '.') {
        Some(i) => if i == 0 {
            None
        } else {
            Some(name.subrange(i + 1, name.len() as int))
        },
        None => None,
    }
}

/// The extension for a stream: the URL path's own, in lower case, when it is one of
/// the kind's extensions, else the kind's default.
pub open spec fn ext_for(path: Seq<char>, kind: MediaKind) -> Seq<char> {
    match file_name_of(path) {
        Some(n) => match extension_of(n) {
            Some(e) => if exts(kind).contains(lower_seq(e)) {
                lower_seq(e)
            } else {
                default_ext(kind)
            },
            None => default_ext(kind),
        },
        None => default_ext(kind),
    }
}

pub open spec fn default_ext(kind: MediaKind) -> Seq<char> {
    match kind {
        MediaKind::Video => "mp4"@,
        MediaKind::Audio => "mp3"@,
    }
}

/// The slug of the stem of the last URL path segment, when it has a non-empty stem.
pub open spec fn stem_slug(path: Seq<char>) -> Option<Seq<char>> {
    match path_segments(path) {
        Some(segs) => match file_name_of(segs.last()) {
            Some(n) => if stem_of(n).len() > 0 {
                Some(slug(stem_of(n)))
            } else {
                None
            },
            None => None,
        },
        None => None,
    }
}

/// The file name for `stream` found on `page`.
pub open spec fn name_for(page_title: Seq<char>, s: Stream) -> Seq<char> {
    let page_slug = slug(clean_title(page_title));
    let ext = if s.mux_audio is Some {
        "mp4"@
    } else {
        ext_for(s.url.path@, s.kind)
    };
    match opt_view(s.label) {
        Some(q) => if q.len() > 0 {
            page_slug + "-"@ + slug(q) + "."@ + ext
        } else {
            unlabeled_name(page_slug, s.url.path@, ext)
        },
        None => unlabeled_name(page_slug, s.url.path@, ext),
    }
}

pub open spec fn unlabeled_name(page_slug: Seq<char>, path: Seq<char>, ext: Seq<char>) -> Seq<char> {
    let stem = match stem_slug(path) {
        Some(t) => t,
        None => "stream"@,
    };
    if starts_with(stem, page_slug) || page_slug == "page"@ {
        stem + "."@ + ext
    } else {
        page_slug + "-"@ + stem + "."@ + ext
    }
}

/// `Path::file_name` of the path `p`.
pub fn file_name_in(p: &[char]) -> (r: Option<Vec<char>>)
    ensures
        match file_name_of(p@) {
            Some(n) => r matches Some(v) && v@ == n,
            None => r is None,
        },
{
    let segs = split_char(p, '/');
    let ghost all = views(segs@);
    let dot = chars_of(".");
    let mut n: usize = segs.len();
    assert(all.subrange(0, all.len() as int) =~= all);
    while n > 0
        invariant
            n <= segs@.len(),
            all == views(segs@),
            all == split_spec(p@, '/'),
            dot@ == "."@,
            last_component(all) == last_component(all.subrange(0, n as int)),
        decreases n,
    {
        let s = &segs[n - 1];
        assert(all[n - 1] == s@);
        assert(all.subrange(0, n as int).last() == s@);
        if s.len() == 0 || same(s, &dot) {
            assert(all.subrange(0, n as int).drop_last() =~= all.subrange(0, n - 1));
            n = n - 1;
        } else {
            let dd = chars_of("..");
            if same(s, &dd) {
                return None;
            }
            return Some(slice_chars(s, 0, s.len()));
        }
    }
    None
}

/// The stem of a file name.
pub fn stem_in(name: &[char]) -> (r: Vec<char>)
    ensures
        r@ == stem_of(name@),
{
    match rfind_ch(name, '.') {
        Some(i) => {
            if i == 0 {
                slice_chars(name, 0, name.len())
            } else {
                proof {
                    crate::text::lemma_rfind_char(name@, '.');
                }
                slice_chars(name, 0, i)
            }
        },
        None => {
            assert(name@.subrange(0, name@.len() as int) =~= name@);
            slice_chars(name, 0, name.len())
        },
    }
}

/// The extension of a file name.
pub fn extension_in(name: &[char]) -> (r: Option<Vec<char>>)
    ensures
        match extension_of(name@) {
            Some(e) => r matches Some(v) && v@ == e,
            None => r is None,
        },
{
    match rfind_ch(name, '.') {
        Some(i) => {
            proof {
                crate::text::lemma_rfind_char(name@, '.');
            }
            assert(i < name@.len());
            assert(name@.len() == name.len());
            if i == 0 {
                None
            } else {
                Some(slice_chars(name, i + 1, name.len()))
            }
        },
        None => None,
    }
}

fn default_extension(kind: MediaKind) -> (r: &'static str)
    ensures
        r@ == default_ext(kind),
{
    match kind {
        MediaKind::Video => "mp4",
        MediaKind::Audio => "mp3",
    }
}

fn extension_from_path(path: &[char], kind: MediaKind) -> (r: Vec<char>)
    ensures
        r@ == ext_for(path@, kind),
{
    match file_name_in(path) {
        Some(n) => match extension_in(&n) {
            Some(e) => {
                let l = lowercase(&e);
                if is_extension_of(kind, &l) {
                    l
                } else {
                    chars_of(default_extension(kind))
                }
            },
            None => chars_of(default_extension(kind)),
        },
        None => chars_of(default_extension(kind)),
    }
}

fn segment_stem(path: &String) -> (r: Option<Vec<char>>)
    ensures
        match stem_slug(path@) {
            Some(t) => r matches Some(v) && v@ == t,
            None => r is None,
        },
{
    let p = chars_of(path.as_str());
    if !(p.len() > 0 && p[0] == '/') {
        return None;
    }
    let rest = slice_chars(&p, 1, p.len());
    assert(rest@ =~= p@.drop_first());
    let segs = split_char(&rest, '/');
    let last = &segs[segs.len() - 1];
    assert(views(segs@).last() == last@);
    match file_name_in(last) {
        Some(n) => {
            let st = stem_in(&n);
            if st.len() > 0 {
                Some(slugify_chars(&st))
            } else {
                None
            }
        },
        None => None,
    }
}

impl OutputName {
    /// The file name for `stream` found on `page`: the page title's slug, then the
    /// label's slug or the URL's file stem, then the file extension.
    pub fn for_stream(page: &PageInfo, stream: &Stream) -> (r: OutputName)
        ensures
            r.file_name@ == name_for(page.title@, *stream),
            exists|e: Seq<char>|
                #![trigger ends_with(r.file_name@, "."@ + e)]
                ends_with(r.file_name@, "."@ + e) && (if stream.mux_audio is Some {
                    e == "mp4"@
                } else {
                    exts(stream.kind).contains(e)
                }),
    {
        let t = clean_title_for_filename(page.title.as_str());
        let tv = chars_of(t.as_str());
        let page_slug = slugify_chars(&tv);
        let ext: Vec<char> = if stream.mux_audio.is_some() {
            chars_of("mp4")
        } else {
            let path = chars_of(stream.url.path.as_str());
            extension_from_path(&path, stream.kind)
        };
        let mut out: Vec<char> = Vec::new();
        let label: Option<Vec<char>> = match &stream.label {
            Some(l) => {
                let lv = chars_of(l.as_str());
                if lv.len() > 0 {
                    Some(lv)
                } else {
                    None
                }
            },
            None => None,
        };
        match label {
            Some(q) => {
                push_chars(&mut out, &page_slug);
                push_str(&mut out, "-");
                push_chars(&mut out, &slugify_chars(&q));
                push_str(&mut out, ".");
                push_chars(&mut out, &ext);
            },
            None => {
                let stem = match segment_stem(&stream.url.path) {
                    Some(t) => t,
                    None => chars_of("stream"),
                };
                if crate::text::has_prefix(&stem, &page_slug) || same(&page_slug, &chars_of("page")) {
                    push_chars(&mut out, &stem);
                    push_str(&mut out, ".");
                    push_chars(&mut out, &ext);
                } else {
                    push_chars(&mut out, &page_slug);
                    push_str(&mut out, "-");
                    push_chars(&mut out, &stem);
                    push_str(&mut out, ".");
                    push_chars(&mut out, &ext);
                }
            },
        }
        let r = OutputName { file_name: string_of(out.as_slice()) };
        proof {
            law_name_extension(page.title@, *stream);
            let e = choose|e: Seq<char>|
                #![trigger ends_with(name_for(page.title@, *stream), "."@ + e)]
                ends_with(name_for(page.title@, *stream), "."@ + e) && (if stream.mux_audio is Some {
                    e == "mp4"@
                } else {
                    exts(stream.kind).contains(e)
                });
            assert(ends_with(r.file_name@, "."@ + e));
        }
        r
    }
}

proof fn lemma_ends_with_dot_ext(p: Seq<char>, e: Seq<char>)
    ensures
        ends_with(p + "."@ + e, "."@ + e),
{
    let n = p + "."@ + e;
    let d = "."@ + e;
    assert(n.subrange(n.len() - d.len(), n.len() as int) =~= d);
}

/// Every output name ends in `.` and an extension the file can have: `mp4` for video
/// muxed with separate audio, else one of the stream kind's file extensions (the URL's
/// own extension when it is one of them, the kind's default otherwise).
pub proof fn law_name_extension(page_title: Seq<char>, s: Stream)
    ensures
        exists|e: Seq<char>|
            #![trigger ends_with(name_for(page_title, s), "."@ + e)]
            ends_with(name_for(page_title, s), "."@ + e) && (if s.mux_audio is Some {
                e == "mp4"@
            } else {
                exts(s.kind).contains(e)
            }),
{
    reveal_strlit("mp4");
    reveal_strlit("mp3");
    let page_slug = slug(clean_title(page_title));
    let ext = if s.mux_audio is Some {
        "mp4"@
    } else {
        ext_for(s.url.path@, s.kind)
    };
    if s.mux_audio is None {
        match s.kind {
            MediaKind::Video => assert(exts(s.kind)[0] == default_ext(s.kind)),
            MediaKind::Audio => assert(exts(s.kind)[0] == default_ext(s.kind)),
        }
        assert(exts(s.kind).contains(ext));
    }
    let stem = match stem_slug(s.url.path@) {
        Some(t) => t,
        None => "stream"@,
    };
    match opt_view(s.label) {
        Some(q) => if q.len() > 0 {
            lemma_ends_with_dot_ext(page_slug + "-"@ + slug(q), ext);
        } else if starts_with(stem, page_slug) || page_slug == "page"@ {
            lemma_ends_with_dot_ext(stem, ext);
        } else {
            lemma_ends_with_dot_ext(page_slug + "-"@ + stem, ext);
        },
        None => if starts_with(stem, page_slug) || page_slug == "page"@ {
            lemma_ends_with_dot_ext(stem, ext);
        } else {
            lemma_ends_with_dot_ext(page_slug + "-"@ + stem, ext);
        },
    }
    assert(ends_with(name_for(page_title, s), "."@ + ext));
}

/// `Path::join` on Unix: a name that starts with `/` replaces the directory; otherwise
/// it is appended, with a `/` between unless the directory is empty or ends with one.
pub open spec fn joined(dir: Seq<char>, name: Seq<char>) -> Seq<char> {
    if name.len() > 0 && name[0] == '/' {
        name
    } else if dir.len() == 0 || dir.last() == '/' {
        dir + name
    } else {
        dir + "/"@ + name
    }
}

impl OutputName {
    /// The path of the file in `dir`.
    pub fn path_in(&self, dir: &str) -> (r: String)
        ensures
            r@ == joined(dir@, self.file_name@),
    {
        let n = chars_of(self.file_name.as_str());
        if n.len() > 0 && n[0] == '/' {
            return string_of(n.as_slice());
        }
        let mut d = chars_of(dir);
        if d.len() > 0 && d[d.len() - 1] != '/' {
            push_str(&mut d, "/");
        }
        push_chars(&mut d, &n);
        string_of(d.as_slice())
    }
}

} // verus!
