//! Generic HTML discovery: `<video>`, `<audio>`, `<source>` and links to media files.

use vstd::prelude::*;
use crate::extract::html::{html_select, opt_str_view, select_attrs};
use crate::extract::{has_known_extension, infer_kind, path_has_ext, resolve_url, wants_kind, ExtractOptions};
use crate::model::{MediaKind, Stream};
use crate::text::{chars_of, contains_seq, ends_with, eq_ic, lower_seq, trim};
use crate::model::exts;
use crate::weburl::{opt_view, url_join, UrlView, WebUrl};

verus! {

/// A stream found in markup: only its URL, kind and label are set.
pub open spec fn plain_stream(s: Stream, u: UrlView, kind: MediaKind, label: Option<Seq<char>>) -> bool {
    &&& s.url@ == u
    &&& s.kind == kind
    &&& opt_view(s.label) == label
    &&& s.download_user_agent is None
    &&& s.mux_audio is None
    &&& !s.hls
    &&& s.download_referer is None
}

/// `r` holds exactly the plain streams described by `specs`, in order.
pub open spec fn streams_match(r: Seq<Stream>, specs: Seq<(UrlView, MediaKind, Option<Seq<char>>)>) -> bool {
    r.len() == specs.len() && forall|i: int|
        0 <= i < r.len() ==> plain_stream(#[trigger] r[i], specs[i].0, specs[i].1, specs[i].2)
}

/// `infer_kind` on a URL view.
pub open spec fn kind_from(u: UrlView, hint: Option<MediaKind>) -> MediaKind {
    match hint {
        Some(k) => k,
        None => if path_has_ext(u.3, MediaKind::Audio) {
            MediaKind::Audio
        } else {
            MediaKind::Video
        },
    }
}

/// The streams made from selector matches: each match with the attribute whose value
/// resolves against `base` gives a stream of the hinted (or inferred) kind.
pub open spec fn select_specs(ms: Seq<(Option<Seq<char>>, Option<Seq<char>>)>, base: Seq<char>, hint: Option<MediaKind>) -> Seq<
    (UrlView, MediaKind, Option<Seq<char>>),
>
    decreases ms.len(),
{
    if ms.len() == 0 {
        Seq::empty()
    } else {
        let prev = select_specs(ms.drop_last(), base, hint);
        let m = ms.last();
        match m.0 {
            Some(src) => match url_join(base, trim(src)) {
                Some(u) => prev.push((u, kind_from(u, hint), m.1)),
                None => prev,
            },
            None => prev,
        }
    }
}

/// The streams that `select_attr` finds.
pub open spec fn selected(html: Seq<char>, selector: Seq<char>, attr: Seq<char>, base: Seq<char>, hint: Option<MediaKind>, label_attr: Option<Seq<char>>) -> Seq<
    (UrlView, MediaKind, Option<Seq<char>>),
> {
    match html_select(html, selector, attr, label_attr) {
        Some(ms) => select_specs(ms, base, hint),
        None => Seq::empty(),
    }
}

/// Streams for the elements that `selector` matches in `html`, from the URL in `attr`
/// resolved against `base` and the label in `label_attr`.
pub fn select_attr(html: &str, selector: &str, attr: &str, base: &WebUrl, kind_hint: Option<MediaKind>, label_attr: Option<&str>) -> (r: Vec<Stream>)
    ensures
        streams_match(r@, selected(html@, selector@, attr@, base.href@, kind_hint, opt_str_view(label_attr))),
{
    let found = match select_attrs(html, selector, attr, label_attr) {
        Some(v) => v,
        None => {
            return Vec::new();
        },
    };
    let ghost ms = crate::extract::html::attr_pair_views(found@);
    let mut r: Vec<Stream> = Vec::new();
    let mut i: usize = 0;
    while i < found.len()
        invariant
            i <= found@.len(),
            ms == crate::extract::html::attr_pair_views(found@),
            streams_match(r@, select_specs(ms.subrange(0, i as int), base.href@, kind_hint)),
        decreases found@.len() - i,
    {
        assert(ms.subrange(0, i + 1).drop_last() =~= ms.subrange(0, i as int));
        assert(ms.subrange(0, i + 1).last() == ms[i as int]);
        let (src, label) = (&found[i].0, &found[i].1);
        if let Some(src) = src {
            if let Some(url) = resolve_url(base, src.as_str()) {
                let kind = infer_kind(&url, kind_hint);
                let ghost old_r = r@;
                r.push(Stream {
                    url,
                    kind,
                    label: crate::model::copy_opt_string(label),
                    download_user_agent: None,
                    mux_audio: None,
                    hls: false,
                    download_referer: None,
                });
                assert(forall|j: int| 0 <= j < old_r.len() ==> r@[j] == old_r[j]);
            }
        }
        i = i + 1;
    }
    assert(ms.subrange(0, ms.len() as int) =~= ms);
    r
}

/// Links (`a[href]`) whose URL ends in a known extension of a wanted kind.
pub open spec fn link_specs(ms: Seq<(Option<Seq<char>>, Option<Seq<char>>)>, base: Seq<char>, kinds: Seq<MediaKind>) -> Seq<
    (UrlView, MediaKind, Option<Seq<char>>),
>
    decreases ms.len(),
{
    if ms.len() == 0 {
        Seq::empty()
    } else {
        let prev = link_specs(ms.drop_last(), base, kinds);
        match ms.last().0 {
            Some(href) => match url_join(base, trim(href)) {
                Some(u) => {
                    let k = kind_from(u, None);
                    if kinds.contains(k) && path_has_ext(u.3, k) {
                        prev.push((u, k, None))
                    } else {
                        prev
                    }
                },
                None => prev,
            },
            None => prev,
        }
    }
}

pub open spec fn linked(html: Seq<char>, base: Seq<char>, kinds: Seq<MediaKind>) -> Seq<(UrlView, MediaKind, Option<Seq<char>>)> {
    match html_select(html, "a[href]"@, "href"@, None) {
        Some(ms) => link_specs(ms, base, kinds),
        None => Seq::empty(),
    }
}

/// Every stream taken from a link is of a wanted kind, has no label, and its URL's path
/// (lower-cased) ends in `.` and one of that kind's file extensions: a link to a page is
/// never taken for a media file.
pub proof fn law_links_have_media_extension(
    ms: Seq<(Option<Seq<char>>, Option<Seq<char>>)>,
    base: Seq<char>,
    kinds: Seq<MediaKind>,
)
    ensures
        forall|j: int|
            0 <= j < link_specs(ms, base, kinds).len() ==> {
                let sp = #[trigger] link_specs(ms, base, kinds)[j];
                &&& kinds.contains(sp.1)
                &&& sp.2 is None
                &&& exists|x: int|
                    0 <= x < exts(sp.1).len() && ends_with(
                        lower_seq(sp.0.3),
                        "."@ + #[trigger] exts(sp.1)[x],
                    )
            },
    decreases ms.len(),
{
    if ms.len() > 0 {
        law_links_have_media_extension(ms.drop_last(), base, kinds);
        let prev = link_specs(ms.drop_last(), base, kinds);
        let cur = link_specs(ms, base, kinds);
        assert forall|j: int| 0 <= j < cur.len() implies {
            let sp = #[trigger] cur[j];
            &&& kinds.contains(sp.1)
            &&& sp.2 is None
            &&& exists|x: int|
                0 <= x < exts(sp.1).len() && ends_with(lower_seq(sp.0.3), "."@ + #[trigger] exts(sp.1)[x])
        } by {
            if j < prev.len() {
                assert(cur[j] == prev[j]);
            }
        }
    }
}

/// The links part of generic discovery, read from the page: the law above for every page.
pub proof fn law_linked_streams_have_media_extension(html: Seq<char>, base: Seq<char>, kinds: Seq<MediaKind>)
    ensures
        forall|j: int|
            0 <= j < linked(html, base, kinds).len() ==> {
                let sp = #[trigger] linked(html, base, kinds)[j];
                &&& kinds.contains(sp.1)
                &&& exists|x: int|
                    0 <= x < exts(sp.1).len() && ends_with(
                        lower_seq(sp.0.3),
                        "."@ + #[trigger] exts(sp.1)[x],
                    )
            },
{
    match html_select(html, "a[href]"@, "href"@, None) {
        Some(ms) => law_links_have_media_extension(ms, base, kinds),
        None => {},
    }
}

fn links_by_extension(html: &str, base: &WebUrl, kinds: &Vec<MediaKind>) -> (r: Vec<Stream>)
    ensures
        streams_match(r@, linked(html@, base.href@, kinds@)),
{
    let found = match select_attrs(html, "a[href]", "href", None) {
        Some(v) => v,
        None => {
            return Vec::new();
        },
    };
    let ghost ms = crate::extract::html::attr_pair_views(found@);
    let mut r: Vec<Stream> = Vec::new();
    let mut i: usize = 0;
    while i < found.len()
        invariant
            i <= found@.len(),
            ms == crate::extract::html::attr_pair_views(found@),
            streams_match(r@, link_specs(ms.subrange(0, i as int), base.href@, kinds@)),
        decreases found@.len() - i,
    {
        assert(ms.subrange(0, i + 1).drop_last() =~= ms.subrange(0, i as int));
        assert(ms.subrange(0, i + 1).last() == ms[i as int]);
        if let Some(href) = &found[i].0 {
            if let Some(url) = resolve_url(base, href.as_str()) {
                let kind = infer_kind(&url, None);
                if wants_kind(kinds, kind) && has_known_extension(&url, kind) {
                    let ghost old_r = r@;
                    r.push(Stream {
                        url,
                        kind,
                        label: None,
                        download_user_agent: None,
                        mux_audio: None,
                        hls: false,
                        download_referer: None,
                    });
                    assert(forall|j: int| 0 <= j < old_r.len() ==> r@[j] == old_r[j]);
                }
            }
        }
        i = i + 1;
    }
    assert(ms.subrange(0, ms.len() as int) =~= ms);
    r
}

/// What generic discovery finds: `video[src]` and `video source[src]` (with labels) when
/// video is wanted, the same for audio, then links to files of a wanted kind.
pub open spec fn generic_specs(html: Seq<char>, base: Seq<char>, kinds: Seq<MediaKind>) -> Seq<(UrlView, MediaKind, Option<Seq<char>>)> {
    let video = if kinds.contains(MediaKind::Video) {
        selected(html, "video"@, "src"@, base, Some(MediaKind::Video), None) + selected(
            html,
            "video source"@,
            "src"@,
            base,
            Some(MediaKind::Video),
            Some("label"@),
        )
    } else {
        Seq::empty()
    };
    let audio = if kinds.contains(MediaKind::Audio) {
        selected(html, "audio"@, "src"@, base, Some(MediaKind::Audio), None) + selected(
            html,
            "audio source"@,
            "src"@,
            base,
            Some(MediaKind::Audio),
            Some("label"@),
        )
    } else {
        Seq::empty()
    };
    video + audio + linked(html, base, kinds)
}

fn append_streams(out: &mut Vec<Stream>, more: Vec<Stream>, Ghost(specs): Ghost<Seq<(UrlView, MediaKind, Option<Seq<char>>)>>, Ghost(more_specs): Ghost<Seq<(UrlView, MediaKind, Option<Seq<char>>)>>)
    requires
        streams_match(old(out)@, specs),
        streams_match(more@, more_specs),
    ensures
        streams_match(final(out)@, specs + more_specs),
{
    let mut more = more;
    let ghost o = out@;
    out.append(&mut more);
    assert forall|i: int| 0 <= i < out@.len() implies plain_stream(
        #[trigger] out@[i],
        (specs + more_specs)[i].0,
        (specs + more_specs)[i].1,
        (specs + more_specs)[i].2,
    ) by {
        if i < o.len() {
            assert(out@[i] == o[i]);
        }
    }
}

/// Streams that generic HTML rules find on a page.
pub fn extract(html: &str, base: &WebUrl, options: &ExtractOptions) -> (r: Vec<Stream>)
    ensures
        streams_match(r@, generic_specs(html@, base.href@, options.kinds@)),
{
    let kinds = &options.kinds;
    let mut streams: Vec<Stream> = Vec::new();
    let ghost mut acc: Seq<(UrlView, MediaKind, Option<Seq<char>>)> = Seq::empty();
    if wants_kind(kinds, MediaKind::Video) {
        let a = select_attr(html, "video", "src", base, Some(MediaKind::Video), None);
        append_streams(&mut streams, a, Ghost(acc), Ghost(selected(html@, "video"@, "src"@, base.href@, Some(MediaKind::Video), None)));
        proof { acc = acc + selected(html@, "video"@, "src"@, base.href@, Some(MediaKind::Video), None); }
        let b = select_attr(html, "video source", "src", base, Some(MediaKind::Video), Some("label"));
        append_streams(&mut streams, b, Ghost(acc), Ghost(selected(html@, "video source"@, "src"@, base.href@, Some(MediaKind::Video), Some("label"@))));
        proof { acc = acc + selected(html@, "video source"@, "src"@, base.href@, Some(MediaKind::Video), Some("label"@)); }
    }
    if wants_kind(kinds, MediaKind::Audio) {
        let a = select_attr(html, "audio", "src", base, Some(MediaKind::Audio), None);
        append_streams(&mut streams, a, Ghost(acc), Ghost(selected(html@, "audio"@, "src"@, base.href@, Some(MediaKind::Audio), None)));
        proof { acc = acc + selected(html@, "audio"@, "src"@, base.href@, Some(MediaKind::Audio), None); }
        let b = select_attr(html, "audio source", "src", base, Some(MediaKind::Audio), Some("label"));
        append_streams(&mut streams, b, Ghost(acc), Ghost(selected(html@, "audio source"@, "src"@, base.href@, Some(MediaKind::Audio), Some("label"@))));
        proof { acc = acc + selected(html@, "audio source"@, "src"@, base.href@, Some(MediaKind::Audio), Some("label"@)); }
    }
    let l = links_by_extension(html, base, kinds);
    append_streams(&mut streams, l, Ghost(acc), Ghost(linked(html@, base.href@, kinds@)));
    proof {
        acc = acc + linked(html@, base.href@, kinds@);
        let g = generic_specs(html@, base.href@, options.kinds@);
        assert(acc =~= g);
    }
    streams
}

/// Full-length sources keep: no `preview` in the URL path and a label other than `auto`.
pub open spec fn playable_specs(specs: Seq<(UrlView, MediaKind, Option<Seq<char>>)>) -> Seq<(UrlView, MediaKind, Option<Seq<char>>)>
    decreases specs.len(),
{
    if specs.len() == 0 {
        Seq::empty()
    } else {
        let prev = playable_specs(specs.drop_last());
        let s = specs.last();
        let is_auto = match s.2 {
            Some(l) => eq_ic(l, "auto"@),
            None => false,
        };
        if !contains_seq(s.0.3, "preview"@) && !is_auto {
            prev.push(s)
        } else {
            prev
        }
    }
}

/// Full-length `<video source>` entries, skipping preview clips and Auto duplicates.
pub fn playable_video_sources(html: &str, base: &WebUrl) -> (r: Vec<Stream>)
    ensures
        streams_match(r@, playable_specs(selected(html@, "video source"@, "src"@, base.href@, Some(MediaKind::Video), Some("label"@)))),
{
    let all = select_attr(html, "video source", "src", base, Some(MediaKind::Video), Some("label"));
    let ghost specs = selected(html@, "video source"@, "src"@, base.href@, Some(MediaKind::Video), Some("label"@));
    let preview = chars_of("preview");
    let auto = chars_of("auto");
    let mut r: Vec<Stream> = Vec::new();
    let mut i: usize = 0;
    while i < all.len()
        invariant
            i <= all@.len(),
            streams_match(all@, specs),
            preview@ == "preview"@,
            auto@ == "auto"@,
            streams_match(r@, playable_specs(specs.subrange(0, i as int))),
        decreases all@.len() - i,
    {
        assert(specs.subrange(0, i + 1).drop_last() =~= specs.subrange(0, i as int));
        assert(specs.subrange(0, i + 1).last() == specs[i as int]);
        assert(plain_stream(all@[i as int], specs[i as int].0, specs[i as int].1, specs[i as int].2));
        let path = chars_of(all[i].url.path.as_str());
        let is_auto = match &all[i].label {
            Some(l) => crate::text::eq_ignore_case(&chars_of(l.as_str()), &auto),
            None => false,
        };
        if !crate::text::contains(&path, &preview) && !is_auto {
            let ghost old_r = r@;
            r.push(all[i].copy_of());
            assert(forall|j: int| 0 <= j < old_r.len() ==> r@[j] == old_r[j]);
        }
        i = i + 1;
    }
    assert(specs.subrange(0, specs.len() as int) =~= specs);
    r
}

} // verus!
