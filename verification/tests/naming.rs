use stream_downloader::model::{MediaKind, PageInfo, Stream};
use stream_downloader::naming::{slugify, OutputName};
use stream_downloader::sites::common::parse_url;

fn page(title: &str) -> PageInfo {
    PageInfo { url: parse_url("https://example.com/x").unwrap(), title: title.into() }
}

fn stream(url: &str, label: Option<&str>) -> Stream {
    Stream {
        url: parse_url(url).unwrap(),
        kind: MediaKind::Video,
        label: label.map(str::to_owned),
        download_user_agent: None,
        mux_audio: None,
        hls: false,
        download_referer: None,
    }
}

#[test]
fn combines_page_title_and_source_name() {
    let name = OutputName::for_stream(
        &page("My Cool Video!"),
        &stream("https://cdn.example.com/trailer.webm", None),
    );
    assert_eq!(name.file_name, "my-cool-video-trailer.webm");
}

#[test]
fn uses_label_when_present() {
    let name = OutputName::for_stream(
        &page("Episode 1"),
        &stream("https://cdn.example.com/v/1", Some("1080p")),
    );
    assert_eq!(name.file_name, "episode-1-1080p.mp4");
}

#[test]
fn keeps_full_title_and_appends_quality() {
    let name = OutputName::for_stream(
        &page("Bombs vs Brains | Low Quality Version - YouTube"),
        &stream("https://cdn.example.com/v/1", Some("1080p")),
    );
    assert_eq!(name.file_name, "bombs-vs-brains-low-quality-version-1080p.mp4");
}

#[test]
fn slugify_strips_noise() {
    assert_eq!(slugify("  Hello---World!! "), "hello-world");
}

#[test]
fn slug_of_nothing_is_page() {
    assert_eq!(slugify("!!!"), "page");
    assert_eq!(slugify(""), "page");
    assert_eq!(slugify("Ünïcode ÄB"), "n-code-b");
}

#[test]
fn untitled_page_uses_stream_stem() {
    let name = OutputName::for_stream(&page("  "), &stream("https://cdn.example.com/a/Clip_01.MP4", None));
    assert_eq!(name.file_name, "clip-01.mp4");
    let audio = Stream { kind: MediaKind::Audio, ..stream("https://cdn.example.com/a/", None) };
    let name = OutputName::for_stream(&page("Song"), &audio);
    assert_eq!(name.file_name, "song-stream.mp3");
}

#[test]
fn path_in_joins_with_one_slash() {
    let name = OutputName { file_name: "clip.mp4".into() };
    assert_eq!(name.path_in("/tmp/out"), "/tmp/out/clip.mp4");
    assert_eq!(name.path_in("/tmp/out/"), "/tmp/out/clip.mp4");
    assert_eq!(name.path_in(""), "clip.mp4");
    let abs = OutputName { file_name: "/abs/clip.mp4".into() };
    assert_eq!(abs.path_in("dir"), "/abs/clip.mp4");
}

#[test]
fn slugify_is_idempotent() {
    for s in ["  Hello---World!! ", "ÄÖÜ", "", "a--b", "Clip 42 (HD)", "page"] {
        let once = slugify(s);
        assert_eq!(slugify(&once), once);
    }
    assert_eq!(slugify("!!! ---"), "page");
    assert_eq!(slugify("ÄÖÜ"), "page");
}
