//! The values that discovery produces: media kinds, pages and streams.

use vstd::prelude::*;
use crate::text::chars_of;
use crate::weburl::WebUrl;

verus! {

/// Media kind filter for discovery.
#[derive(Debug, Clone, Copy, PartialEq, Eq, Hash, Structural)]
pub enum MediaKind {
    Video,
    Audio,
}

/// The file extensions that mark a file of `kind`.
pub open spec fn exts(kind: MediaKind) -> Seq<Seq<char>> {
    match kind {
        MediaKind::Video => seq!["mp4"@, "webm"@, "mkv"@, "m4v"@, "mov"@],
        MediaKind::Audio => seq!["mp3"@, "m4a"@, "aac"@, "ogg"@, "wav"@, "flac"@],
    }
}

pub open spec fn str_views(v: Seq<&str>) -> Seq<Seq<char>> {
    v.map_values(|s: &str| s@)
}

impl MediaKind {
    /// The file extensions of this kind, lower case and without the dot.
    pub fn file_extensions(self) -> (r: &'static [&'static str])
        ensures
            str_views(r@) == exts(self),
    {
        match self {
            MediaKind::Video => {
                let r: &'static [&'static str] = &["mp4", "webm", "mkv", "m4v", "mov"];
                proof {
                    assert(str_views(r@) =~= exts(self));
                }
                r
            },
            MediaKind::Audio => {
                let r: &'static [&'static str] = &["mp3", "m4a", "aac", "ogg", "wav", "flac"];
                proof {
                    assert(str_views(r@) =~= exts(self));
                }
                r
            },
        }
    }
}


/// Whether `ext` is one of the extensions of `kind` (`file_extensions().contains(ext)`).
pub fn is_extension_of(kind: MediaKind, ext: &[char]) -> (r: bool)
    ensures
        r == exts(kind).contains(ext@),
{
    let list = kind.file_extensions();
    let mut i: usize = 0;
    while i < list.len()
        invariant
            i <= list@.len(),
            str_views(list@) == exts(kind),
            forall|j: int| 0 <= j < i ==> exts(kind)[j] != ext@,
        decreases list@.len() - i,
    {
        let e = chars_of(list[i]);
        assert(e@ == exts(kind)[i as int]);
        if e.len() == ext.len() && crate::text::occurs(&e, 0, ext) {
            assert(e@.subrange(0, ext@.len() as int) =~= e@);
            return true;
        }
        proof {
            if exts(kind)[i as int] == ext@ {
                assert(e@.subrange(0, ext@.len() as int) =~= e@);
            }
        }
        i = i + 1;
    }
    false
}

/// Companion audio track to mux with a video-only file.
#[derive(Debug, Clone, PartialEq, Eq)]
pub struct MuxPart {
    pub url: WebUrl,
    pub download_user_agent: Option<&'static str>,
}

/// Metadata fetched from the source page.
#[derive(Debug, Clone, PartialEq, Eq)]
pub struct PageInfo {
    pub url: WebUrl,
    pub title: String,
}

/// HTML body plus page metadata from a single fetch.
#[derive(Debug, Clone)]
pub struct FetchedPage {
    pub info: PageInfo,
    pub html: String,
}

/// A direct URL to a media file on a page.
#[derive(Debug, Clone, PartialEq, Eq)]
pub struct Stream {
    pub url: WebUrl,
    pub kind: MediaKind,
    /// Optional label from HTML or the site API (`720p`, a title, ...).
    pub label: Option<String>,
    /// Per-file User-Agent when the CDN expects a specific client.
    pub download_user_agent: Option<&'static str>,
    /// When set, download and mux with this audio.
    pub mux_audio: Option<MuxPart>,
    /// The URL is an HLS playlist (downloaded with ffmpeg).
    pub hls: bool,
    /// Referer the CDN expects, overriding the page URL.
    pub download_referer: Option<&'static str>,
}

pub fn copy_string(s: &String) -> (r: String)
    ensures
        r == *s,
{
    s.clone()
}

pub fn copy_opt_string(s: &Option<String>) -> (r: Option<String>)
    ensures
        r == *s,
{
    match s {
        Some(x) => Some(x.clone()),
        None => None,
    }
}

impl WebUrl {
    /// A copy equal to `self`.
    pub fn copy_of(&self) -> (r: WebUrl)
        ensures
            r == *self,
    {
        WebUrl {
            href: self.href.clone(),
            scheme: self.scheme.clone(),
            host: copy_opt_string(&self.host),
            path: self.path.clone(),
            query: copy_opt_string(&self.query),
        }
    }
}

impl MuxPart {
    /// A copy equal to `self`.
    pub fn copy_of(&self) -> (r: MuxPart)
        ensures
            r == *self,
    {
        MuxPart { url: self.url.copy_of(), download_user_agent: self.download_user_agent }
    }
}

impl Stream {
    /// A copy equal to `self`.
    pub fn copy_of(&self) -> (r: Stream)
        ensures
            r == *self,
    {
        Stream {
            url: self.url.copy_of(),
            kind: self.kind,
            label: copy_opt_string(&self.label),
            download_user_agent: self.download_user_agent,
            mux_audio: match &self.mux_audio {
                Some(m) => Some(m.copy_of()),
                None => None,
            },
            hls: self.hls,
            download_referer: self.download_referer,
        }
    }
}

} // verus!
