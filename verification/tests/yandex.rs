use stream_downloader::json_value::JsonValue;
use stream_downloader::sites::common::parse_url;
use stream_downloader::yandex;

#[test]
fn yandex_preview_host_matching() {
    let url = parse_url("https://yandex.ru/video/preview/18025183134392203214").unwrap();
    assert!(yandex::matches_host(&url));
    let url = parse_url("https://yandex.com/video/preview/?filmId=42").unwrap();
    assert!(yandex::matches_host(&url));
    let url = parse_url("https://frontend.vh.yandex.ru/player/vIsS3AJqE7Y4").unwrap();
    assert!(yandex::matches_host(&url));
}

#[test]
fn yandex_film_id_parsing() {
    let url = parse_url("https://yandex.ru/video/preview/18025183134392203214").unwrap();
    assert_eq!(yandex::film_id(&url).as_deref(), Some("18025183134392203214"));
}

#[test]
fn parses_film_id_from_path_and_query() {
    let url = parse_url("https://yandex.ru/video/preview/18025183134392203214").unwrap();
    assert_eq!(yandex::film_id(&url).as_deref(), Some("18025183134392203214"));
    let url = parse_url("https://yandex.com/video/preview/?filmId=42").unwrap();
    assert_eq!(yandex::film_id(&url).as_deref(), Some("42"));
}

#[test]
fn parses_content_ids() {
    let url = parse_url("https://frontend.vh.yandex.ru/player/vIsS3AJqE7Y4").unwrap();
    assert_eq!(yandex::content_id(&url).as_deref(), Some("vIsS3AJqE7Y4"));
    let url = parse_url("https://yandex.ru/portal/video?stream_id=4dbb36ec4e0526d58f9f2dc8f0ecf374").unwrap();
    assert_eq!(yandex::content_id(&url).as_deref(), Some("4dbb36ec4e0526d58f9f2dc8f0ecf374"));
}

fn s(x: &str) -> JsonValue {
    JsonValue::Str(x.to_string())
}

fn obj(members: Vec<(&str, JsonValue)>) -> JsonValue {
    JsonValue::Object(members.into_iter().map(|(k, v)| (k.to_string(), v)).collect())
}

#[test]
fn preview_resolves_best_player() {
    let json = obj(vec![(
        "clips",
        obj(vec![(
            "dups",
            obj(vec![
                ("1", obj(vec![("host", obj(vec![("playerId", s("VK")), ("href", s("https://vk.com/video-1_2"))]))])),
                ("2", obj(vec![("player", obj(vec![("playerId", s("rutube")), ("videoUrl", s("https://rutube.ru/video/abc/"))])), ("title", s("T"))])),
            ]),
        )]),
    )]);
    let src = yandex::preview::resolve(&json, "99", "page title").unwrap();
    assert_eq!(src.url.href, "https://rutube.ru/video/abc/");
    assert_eq!(src.title, "T");
    let keyed = yandex::preview::resolve(&json, "1", "page title").unwrap();
    assert_eq!(keyed.url.host.as_deref(), Some("vk.com"));
    assert_eq!(keyed.title, "page title");
    let empty = obj(vec![("clips", obj(vec![("dups", obj(vec![]))]))]);
    assert_eq!(
        yandex::preview::resolve(&empty, "1", "t").err().map(|e| e.message()),
        Some("invalid URL: video unavailable or geo-restricted".to_string())
    );
    assert_eq!(
        yandex::preview::noframes_json_text("<noframes data=1>{\"a\":1}</noframes>").unwrap(),
        "{\"a\":1}"
    );
    assert!(yandex::preview::noframes_json_text("<html>").is_err());
}

#[test]
fn vh_streams_signed_first() {
    let content = yandex::vh::VhContent {
        computed_title: None,
        content_url: Some("https://strm.yandex.ru/a/master.m3u8".to_string()),
        title: None,
        streams: Some(vec![
            Some("https://strm.yandex.ru/b/master.m3u8?ysign1=abc".to_string()),
            None,
            Some("https://strm.yandex.ru/c.mp4".to_string()),
        ]),
    };
    let all = yandex::vh::vh_streams(&content, None, stream_downloader::Quality::All).unwrap();
    assert_eq!(all.len(), 2);
    assert!(all[0].url.href.contains("ysign1="));
    assert_eq!(all[0].label.as_deref(), Some("best"));
    assert_eq!(all[1].label.as_deref(), Some("auto"));
    let one = yandex::vh::checked_vh_streams(&content, Some("Film"), stream_downloader::Quality::Best)
        .unwrap()
        .unwrap();
    assert_eq!(one.len(), 1);
    assert_eq!(one[0].label.as_deref(), Some("Film"));
}
