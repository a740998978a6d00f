use stream_downloader::extract::generic::{extract, playable_video_sources};
use stream_downloader::extract::json::{apply_rule_to, extract_embedded_json, extract_json_object, mime_kind};
use stream_downloader::extract::{dedupe_streams, resolve_url, ExtractOptions};
use stream_downloader::json_value::{JsonNumber, JsonValue};
use stream_downloader::model::{MediaKind, Stream};
use stream_downloader::quality::Quality;
use stream_downloader::sites::common::parse_url;
use stream_downloader::weburl::WebUrl;
use stream_downloader::{HostMatch, JsonMapRule};

fn page_url() -> WebUrl {
    parse_url("https://example.com/watch/episode").unwrap()
}

#[test]
fn finds_video_tags_and_sources() {
    let html = r#"
            <video src="/media/main.mp4"></video>
            <video><source src="../trailers/preview.webm" label="preview"></video>
        "#;
    let streams = extract(
        html,
        &page_url(),
        &ExtractOptions { kinds: vec![MediaKind::Video], quality: Quality::Best },
    );
    assert_eq!(streams.len(), 2);
}

#[test]
fn skips_preview_and_auto_sources() {
    let html = r#"
            <video>
                <source src="/preview.mp4" label="preview" />
                <source src="/360.mp4" label="Auto" />
                <source src="/720.mp4" label="720p" />
            </video>
        "#;
    let sources = playable_video_sources(html, &page_url());
    assert_eq!(sources.len(), 1);
    assert_eq!(sources[0].label.as_deref(), Some("720p"));
}

#[test]
fn respects_kind_filter() {
    let html = r#"<audio src="/song.mp3"></audio>"#;
    let streams = extract(
        html,
        &page_url(),
        &ExtractOptions { kinds: vec![MediaKind::Video], quality: Quality::Best },
    );
    assert!(streams.is_empty());
}

#[test]
fn resolves_relative_urls_against_page() {
    let base = parse_url("https://cdn.example.com/watch/").unwrap();
    let resolved = resolve_url(&base, "../media/clip.mp4").unwrap();
    assert_eq!(resolved.href, "https://cdn.example.com/media/clip.mp4");
}

#[test]
fn pulls_object_after_marker() {
    let html = r#"var ytInitialPlayerResponse = {"streamingData":{"formats":[]}};"#;
    let json = extract_embedded_json(html, "ytInitialPlayerResponse").unwrap();
    assert!(json.contains("streamingData"));
}

#[test]
fn suffix_matches_subdomains() {
    let hosts = HostMatch::Suffix(&["youtube.com", "youtu.be"]);
    assert!(hosts.matches("www.youtube.com"));
    assert!(hosts.matches("youtu.be"));
    assert!(!hosts.matches("notyoutube.com"));
}

#[test]
fn json_object_ignores_braces_in_strings() {
    assert_eq!(
        extract_json_object(r#"{"a":"}{\"}","b":{"c":1}} tail"#).as_deref(),
        Some(r#"{"a":"}{\"}","b":{"c":1}}"#)
    );
    assert_eq!(extract_json_object(r#"{"a":1"#), None);
    assert_eq!(extract_json_object(r#" {"a":1}"#), None);
    assert_eq!(extract_embedded_json("x = {}", "y"), None);
    assert_eq!(extract_embedded_json("y =   {\"k\":2};", "y").as_deref(), Some("{\"k\":2}"));
}

fn s(x: &str) -> JsonValue {
    JsonValue::Str(x.to_string())
}

fn obj(members: Vec<(&str, JsonValue)>) -> JsonValue {
    JsonValue::Object(members.into_iter().map(|(k, v)| (k.to_string(), v)).collect())
}

#[test]
fn embedded_json_rule_reads_items() {
    let root = obj(vec![(
        "streamingData",
        obj(vec![(
            "formats",
            JsonValue::Array(vec![
                obj(vec![("url", s("https://cdn.example.com/a.mp4")), ("mimeType", s("video/mp4; codecs=x")), ("qualityLabel", s("720p"))]),
                obj(vec![("signatureCipher", s("s=abc&url=https%3A%2F%2Fcdn.example.com%2Fb.m4a")), ("mimeType", s("audio/mp4")), ("itag", JsonValue::Number(JsonNumber { text: "140".into(), as_u64: Some(140) }))]),
                obj(vec![("url", s("not a url"))]),
            ]),
        )]),
    )]);
    let rule = JsonMapRule {
        marker: "ytInitialPlayerResponse",
        item_paths: &["streamingData.formats", "streamingData.adaptiveFormats"],
        url_key: "url",
        mime_key: Some("mimeType"),
        label_key: Some("qualityLabel"),
        alt_label_key: Some("itag"),
    };
    let both = ExtractOptions { kinds: vec![MediaKind::Video, MediaKind::Audio], quality: Quality::All };
    let streams = apply_rule_to(&root, &rule, &both);
    assert_eq!(streams.len(), 2);
    assert_eq!(streams[0].url.href, "https://cdn.example.com/a.mp4");
    assert_eq!(streams[0].kind, MediaKind::Video);
    assert_eq!(streams[0].label.as_deref(), Some("720p"));
    assert_eq!(streams[1].url.href, "https://cdn.example.com/b.m4a");
    assert_eq!(streams[1].kind, MediaKind::Audio);
    assert_eq!(streams[1].label.as_deref(), Some("140"));
    let audio_only = ExtractOptions { kinds: vec![MediaKind::Audio], quality: Quality::All };
    assert_eq!(apply_rule_to(&root, &rule, &audio_only).len(), 1);
    assert_eq!(mime_kind("audio/webm; codecs=\"opus\""), MediaKind::Audio);
    assert_eq!(mime_kind("video/mp4"), MediaKind::Video);
}

#[test]
fn dedupe_keeps_first_of_each_url() {
    let mk = |u: &str, l: &str| Stream {
        url: parse_url(u).unwrap(),
        kind: MediaKind::Video,
        label: Some(l.to_string()),
        download_user_agent: None,
        mux_audio: None,
        hls: false,
        download_referer: None,
    };
    let out = dedupe_streams(vec![
        mk("https://a.example/1.mp4", "x"),
        mk("https://a.example/2.mp4", "y"),
        mk("https://a.example/1.mp4", "z"),
    ]);
    assert_eq!(out.len(), 2);
    assert_eq!(out[0].label.as_deref(), Some("x"));
    assert_eq!(out[1].label.as_deref(), Some("y"));
}

#[test]
fn host_match_extends_to_subdomains_only() {
    let hosts = HostMatch::Suffix(&["youtube.com"]);
    assert!(hosts.matches("youtube.com"));
    assert!(hosts.matches("m.youtube.com"));
    assert!(hosts.matches("a.m.youtube.com"));
    assert!(!hosts.matches("notyoutube.com"));
    assert!(!hosts.matches("youtube.com.evil"));
}
