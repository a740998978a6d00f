use serde_json::Value;
use stream_downloader::innertube::config::player_request_body;
use stream_downloader::innertube::PageKeys;
use stream_downloader::sites::common::parse_url;
use stream_downloader::youtube;

#[test]
fn youtube_video_id_from_watch_and_short_urls() {
    assert_eq!(
        youtube::video_id(&parse_url("https://www.youtube.com/watch?v=p2xqGFEO9CY").unwrap()).as_deref(),
        Some("p2xqGFEO9CY")
    );
    assert_eq!(
        youtube::video_id(&parse_url("https://youtu.be/p2xqGFEO9CY").unwrap()).as_deref(),
        Some("p2xqGFEO9CY")
    );
}

#[test]
fn youtube_host_matching() {
    assert!(youtube::matches_host(&parse_url("https://www.youtube.com/watch?v=x").unwrap()));
}

#[test]
fn parses_watch_and_short_urls() {
    assert_eq!(
        youtube::video_id(&parse_url("https://www.youtube.com/watch?v=abc").unwrap()).as_deref(),
        Some("abc")
    );
    assert_eq!(youtube::video_id(&parse_url("https://youtu.be/abc").unwrap()).as_deref(), Some("abc"));
}

#[test]
fn page_keys_from_html() {
    let html = r#"ytcfg.set({"INNERTUBE_API_KEY":"KEY1","VISITOR_DATA":"VD%3D"});"#;
    let keys = PageKeys::from_html(html).unwrap();
    assert_eq!(keys.api_key, "KEY1");
    assert_eq!(keys.visitor_data, "VD%3D");
    let missing = PageKeys::from_html("{}").err().unwrap();
    assert_eq!(missing.message(), "invalid URL: page missing `INNERTUBE_API_KEY`");
    assert_eq!(
        youtube::player_endpoint(&keys),
        "https://www.youtube.com/youtubei/v1/player?key=KEY1"
    );
}

#[test]
fn player_request_body_matches_serde_json() {
    let config = stream_downloader::sites::youtube::client();
    let mut c = serde_json::Map::new();
    c.insert("clientName".into(), Value::String(config.name.into()));
    c.insert("clientVersion".into(), Value::String(config.version.into()));
    c.insert("deviceMake".into(), Value::String(config.device_make.into()));
    c.insert("deviceModel".into(), Value::String(config.device_model.into()));
    c.insert("androidSdkVersion".into(), Value::from(config.android_sdk));
    c.insert("userAgent".into(), Value::String(config.user_agent.into()));
    c.insert("osName".into(), Value::String(config.os_name.into()));
    c.insert("osVersion".into(), Value::String(config.os_version.into()));
    let mut ctx = serde_json::Map::new();
    ctx.insert("client".into(), Value::Object(c));
    let mut body = serde_json::Map::new();
    body.insert("context".into(), Value::Object(ctx));
    body.insert("videoId".into(), Value::String("dQw4w9WgXcQ\"\n".into()));
    let want = serde_json::to_string(&Value::Object(body)).unwrap();
    assert_eq!(player_request_body(config, "dQw4w9WgXcQ\"\n"), want);
}
