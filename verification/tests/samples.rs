//! Tests whose inputs stand in for captured pages and API answers: each input is written
//! here with the features that the test looks for.

use serde_json::Value;
use stream_downloader::extract::ExtractOptions;
use stream_downloader::innertube::formats::{Format, Playability, PlayerResponse, StreamingData};
use stream_downloader::innertube::select_for_kinds;
use stream_downloader::json_value::{JsonNumber, JsonValue};
use stream_downloader::model::{FetchedPage, MediaKind, PageInfo, Stream};
use stream_downloader::quality::{height_hint, Quality};
use stream_downloader::sites::common::parse_url;
use stream_downloader::sites::{pornhub, vimeo, vk};
use stream_downloader::yandex;

fn to_json(v: &Value) -> JsonValue {
    match v {
        Value::Null => JsonValue::Null,
        Value::Bool(b) => JsonValue::Bool(*b),
        Value::Number(n) => JsonValue::Number(JsonNumber { text: n.to_string(), as_u64: n.as_u64() }),
        Value::String(s) => JsonValue::Str(s.clone()),
        Value::Array(a) => JsonValue::Array(a.iter().map(to_json).collect()),
        Value::Object(o) => {
            JsonValue::Object(o.iter().map(|(k, v)| (k.clone(), to_json(v))).collect())
        }
    }
}

fn parse(text: &str) -> JsonValue {
    to_json(&serde_json::from_str::<Value>(text).unwrap())
}

const UA: &str = "test-ua";

fn format(url: &str, mime: &str, label: &str, itag: u32, height: Option<u32>, bitrate: u32, channels: Option<u32>) -> Format {
    Format {
        url: Some(url.to_string()),
        mime_type: Some(mime.to_string()),
        quality_label: Some(label.to_string()),
        itag: Some(itag),
        height,
        bitrate: Some(bitrate),
        audio_channels: channels,
    }
}

/// One muxed 360p format, adaptive 720p and 1080p video, and one audio track.
fn response() -> PlayerResponse {
    PlayerResponse {
        playability: Playability { status: Some("OK".into()), reason: None },
        streaming_data: Some(StreamingData {
            formats: Some(vec![format(
                "https://rr1.googlevideo.com/videoplayback?itag=18",
                "video/mp4; codecs=\"avc1.42001E, mp4a.40.2\"",
                "360p",
                18,
                Some(360),
                500_000,
                Some(2),
            )]),
            adaptive_formats: Some(vec![
                format(
                    "https://rr1.googlevideo.com/videoplayback?itag=136",
                    "video/mp4; codecs=\"avc1.4d401f\"",
                    "720p",
                    136,
                    Some(720),
                    2_000_000,
                    None,
                ),
                format(
                    "https://rr1.googlevideo.com/videoplayback?itag=137",
                    "video/mp4; codecs=\"avc1.640028\"",
                    "1080p",
                    137,
                    Some(1080),
                    4_000_000,
                    None,
                ),
                format(
                    "https://rr1.googlevideo.com/videoplayback?itag=140",
                    "audio/mp4; codecs=\"mp4a.40.2\"",
                    "",
                    140,
                    None,
                    128_000,
                    Some(2),
                ),
            ]),
        }),
    }
}

fn opts(quality: Quality) -> ExtractOptions {
    ExtractOptions { kinds: vec![MediaKind::Video], quality }
}

#[test]
fn best_picks_highest_with_mux() {
    let streams = select_for_kinds(&response(), &opts(Quality::Best), UA);
    assert_eq!(streams.len(), 1);
    assert_eq!(streams[0].label.as_deref(), Some("1080p"));
    assert!(streams[0].mux_audio.is_some());
}

#[test]
fn all_returns_every_height() {
    let streams = select_for_kinds(&response(), &opts(Quality::All), UA);
    assert_eq!(streams.len(), 3); // 360 muxed, 720, 1080 adaptive
}

#[test]
fn specific_height() {
    let streams = select_for_kinds(&response(), &opts(Quality::Height(720)), UA);
    assert_eq!(streams.len(), 1);
    assert_eq!(streams[0].label.as_deref(), Some("720p"));
}

const PORNHUB_PAGE: &str = r#"<html><script type="text/javascript">
var flashvars_4512 = {"isVR":0,"mediaDefinitions":[{"defaultQuality":false,"format":"hls","videoUrl":"https:\/\/ev-h.phncdn.com\/hls\/videos\/202404\/720P_4000K.mp4\/master.m3u8?validfrom=1712","quality":"720","height":720,"remote":false},{"defaultQuality":false,"format":"mp4","videoUrl":"https:\/\/www.pornhub.com\/video\/get_media?s=eyJr","quality":[],"remote":true}],"video_title":"x {not json}"};
</script></html>"#;

#[test]
fn parses_media_definitions_from_fixture() {
    let flashvars = parse(&pornhub::flashvars_text(PORNHUB_PAGE).unwrap());
    let defs = pornhub::media_definitions(&flashvars).unwrap();
    assert!(defs.iter().any(|d| d.format.as_deref() == Some("hls")));
    assert!(defs.iter().any(|d| d.remote == Some(true)));
    let streams = pornhub::streams_from_definitions(&defs).unwrap();
    assert!(streams.iter().any(|s| s.hls));
}

const VK_PAYLOAD: &str = r#"<!--{"payload":[0,["<div class=\"videoplayer\"><\/div>",{"player":{"params":[{"hls":"https:\/\/vkvd512.okcdn.ru\/video.m3u8?srcIp=1.2.3.4&amp;type=2&amp;sig=a","url720":"https:\/\/vkvd512.okcdn.ru\/?expires=1712&amp;type=3&amp;id=77","jpg":"https:\/\/sun9-1.userapi.com\/impg\/getVideoPreview?id=77"}]}}]]}"#;

#[test]
fn parses_sources_from_fixture() {
    let html = vk::decode_vk_payload(VK_PAYLOAD);
    let streams = vk::parse_sources(&html).unwrap();
    assert!(streams.iter().any(|s| s.hls));
    assert!(streams.iter().any(|s| !s.hls));
    assert!(!streams.iter().any(|s| s.url.href.contains("getVideoPreview")));
    let best = vk::pick_quality(streams, Quality::Best).unwrap();
    assert!(!best[0].hls);
}

const YANDEX_PREVIEW: &str = r#"<!DOCTYPE html><html><head><title>preview</title></head><body>
<noframes id="lite-data">{"clips":{"dups":{"18025183134392203214":{"title":"A clip","host":{"href":"https://vk.com/video-223140511_456239655","playerId":"vk"}},"999":{"host":{"href":"https://rutube.ru/video/abc/","playerId":"rutube"}}}}}</noframes>
</body></html>"#;

#[test]
fn resolves_upstream_from_fixture() {
    let page = FetchedPage {
        info: PageInfo {
            url: parse_url("https://yandex.ru/video/preview/18025183134392203214").unwrap(),
            title: "preview".into(),
        },
        html: YANDEX_PREVIEW.to_string(),
    };
    let (film, text) = yandex::preview::preview_embed(&page).unwrap();
    let source = yandex::preview::resolve(&parse(&text), &film, &page.info.title).unwrap();
    assert_eq!(source.url.host.as_deref(), Some("vk.com"));
}

const VH_ANSWER: &str = r#"{"content":{"title":"Clip","computed_title":"Clip","content_url":"https://strm.yandex.ru/vh-ott-converted/ott-content/1/master.m3u8","streams":[{"url":"https://strm.yandex.ru/vh-ott-converted/ott-content/1/master.m3u8?ysign1=0a1b2c&from=discovery"}]}}"#;

#[test]
fn picks_best_signed_stream_from_fixture() {
    let content = yandex::vh::content_from_json(&parse(VH_ANSWER)).unwrap();
    let signed = content.streams.as_ref().unwrap()[0].clone().unwrap();
    let stream = Stream {
        url: parse_url(&signed).unwrap(),
        kind: MediaKind::Video,
        label: Some("best".into()),
        download_user_agent: None,
        mux_audio: None,
        hls: true,
        download_referer: Some(yandex::vh::REFERER),
    };
    assert!(stream.url.href.contains("ysign1="));
}

const VIMEO_VIDEO: &str = r#"{"files":[{"quality":"hd","rendition":"1080p","type":"video/mp4","width":1920,"height":1080,"link":"https://vod-progressive.akamaized.net/1080.mp4"},{"quality":"hd","rendition":"720p","type":"video/mp4","width":1280,"height":720,"link":"https://vod-progressive.akamaized.net/720.mp4"},{"quality":"hls","type":"application/x-mpegURL","link":"https://player.vimeo.com/play/1/hls.m3u8?s=x"}],"play":{"progressive":[{"rendition":"720p","link":"https://vod-progressive.akamaized.net/720b.mp4"}]}}"#;

#[test]
fn builds_streams_from_fixture() {
    let video = vimeo::video_from_json(&parse(VIMEO_VIDEO)).unwrap();
    let streams = vimeo::streams_from_video(&video).unwrap();
    assert_eq!(streams.len(), 2);
    assert!(streams.iter().all(|s| !s.hls));
    assert_eq!(height_hint(&streams[0]), 720);
    assert_eq!(height_hint(&streams[1]), 1080);
}
