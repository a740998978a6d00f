use stream_downloader::error::Error;
use stream_downloader::json_value::JsonValue;
use stream_downloader::model::{MediaKind, Stream};
use stream_downloader::quality::{height_hint, Quality};
use stream_downloader::sites::{html5player, ok, okxxx, pornhub, registry, rutube, vimeo, vk, xnxx};
use stream_downloader::sites::common::parse_url;

fn stream_for_height(h: u32) -> Stream {
    Stream {
        url: parse_url("https://example.com/v.mp4").unwrap(),
        kind: MediaKind::Video,
        label: Some(format!("{h}p")),
        download_user_agent: None,
        mux_audio: None,
        hls: false,
        download_referer: None,
    }
}

#[test]
fn parses_player_urls_from_fixture() {
    let html = r#"<script>
        html5player.setVideoTitle('clip');
        html5player.setVideoUrlLow('https://mp4-gcore.xnxx-cdn.com/vid/0/video_240p.mp4?secure=abc');
        html5player.setVideoUrlHigh('https://mp4-gcore.xnxx-cdn.com/vid/0/video_360p.mp4?secure=abc');
        html5player.setVideoHLS('https://hls-gcore.xnxx-cdn.com/token/vid/0/hls.m3u8');
    </script>"#;
    assert_eq!(
        html5player::parse_player_url(html, "setVideoUrlLow").as_deref(),
        Some("https://mp4-gcore.xnxx-cdn.com/vid/0/video_240p.mp4?secure=abc")
    );
    assert_eq!(
        html5player::parse_player_url(html, "setVideoHLS").as_deref(),
        Some("https://hls-gcore.xnxx-cdn.com/token/vid/0/hls.m3u8")
    );
}

#[test]
fn reads_height_from_mp4_filename() {
    assert_eq!(html5player::mp4_height("https://cdn.example.com/video_1080p.mp4?secure=x"), Some(1080));
    assert_eq!(html5player::mp4_height("https://cdn.example.com/no-height.mp4"), None);
}

#[test]
fn ok_parses_video_id() {
    let url = parse_url("http://ok.ru/video/9729432226499").unwrap();
    assert_eq!(ok::video_id(&url).as_deref(), Some("9729432226499"));
}

#[test]
fn maps_quality_names() {
    assert_eq!(ok::ok_name_height("full"), 1080);
    assert_eq!(ok::ok_name_height("hd"), 720);
}

#[test]
fn picks_1080p() {
    let streams = vec![stream_for_height(720), stream_for_height(1080), stream_for_height(480)];
    let picked = ok::pick_quality(streams, Quality::Height(1080)).unwrap();
    assert_eq!(picked.len(), 1);
    assert_eq!(height_hint(&picked[0]), 1080);
}

#[test]
fn rutube_parses_video_id() {
    let url = parse_url("http://rutube.ru/video/abc-def/").unwrap();
    assert_eq!(rutube::video_id(&url).as_deref(), Some("abc-def"));
}

#[test]
fn rutube_streams_and_rank() {
    let balancer = Some(vec![
        ("m3u8".to_string(), "https://bl.rutube.ru/route/x.m3u8?i=1".to_string()),
        ("720".to_string(), "https://bl.rutube.ru/720.mp4".to_string()),
    ]);
    let streams = rutube::streams_from_options(&balancer, "Clip").unwrap();
    assert_eq!(streams.len(), 2);
    assert!(streams[0].hls);
    assert_eq!(streams[1].label.as_deref(), Some("Clip (720)"));
    assert_eq!(streams[1].download_referer, Some(rutube::REFERER));
    assert_eq!(rutube::height_rank(&streams[1]), 720);
    assert_eq!(rutube::height_rank(&streams[0]), 0);
    let best = rutube::pick_quality(streams, Quality::Best).unwrap();
    assert_eq!(best[0].label.as_deref(), Some("Clip (720)"));
    assert!(rutube::streams_from_options(&None, "x").is_err());
}

#[test]
fn matches_pornhub_hosts() {
    let url = parse_url("https://www.pornhub.com/view_video.php?viewkey=abc").unwrap();
    assert!(pornhub::matches_host(&url));
    let url = parse_url("https://de.pornhub.com/view_video.php?viewkey=abc").unwrap();
    assert!(pornhub::matches_host(&url));
}

#[test]
fn parses_view_key() {
    let url = parse_url("https://www.pornhub.com/view_video.php?viewkey=660c3362e7ef7").unwrap();
    assert_eq!(pornhub::view_key(&url).as_deref(), Some("660c3362e7ef7"));
}

#[test]
fn pornhub_flashvars_and_definitions() {
    let html = r#"<script>var flashvars_123 = {"mediaDefinitions":[{"height":null}], "x":"}"};</script>"#;
    assert_eq!(
        pornhub::flashvars_text(html).unwrap(),
        r#"{"mediaDefinitions":[{"height":null}], "x":"}"}"#
    );
    assert!(pornhub::flashvars_text("<html></html>").is_err());
    assert_eq!(pornhub::unescape_url(r"https:\/\/cdn\/a.mp4"), "https://cdn/a.mp4");
}

#[test]
fn matches_vimeo_hosts() {
    let url = parse_url("https://vimeo.com/1181852916").unwrap();
    assert!(vimeo::matches_host(&url));
    let url = parse_url("https://player.vimeo.com/video/1181852916?h=abc").unwrap();
    assert!(vimeo::matches_host(&url));
}

#[test]
fn parses_video_id_and_hash() {
    let url = parse_url("https://vimeo.com/1181852916?fl=wc").unwrap();
    assert_eq!(vimeo::video_id(&url).as_deref(), Some("1181852916"));
    assert_eq!(vimeo::unlisted_hash(&url), None);
    let url = parse_url("https://vimeo.com/1181852916/edbe0f686b").unwrap();
    assert_eq!(vimeo::unlisted_hash(&url).as_deref(), Some("edbe0f686b"));
    let url = parse_url("https://player.vimeo.com/video/1181852916?h=edbe0f686b").unwrap();
    assert_eq!(vimeo::video_id(&url).as_deref(), Some("1181852916"));
    assert_eq!(vimeo::unlisted_hash(&url).as_deref(), Some("edbe0f686b"));
}

#[test]
fn parses_player_hash_from_meta() {
    let html = r#"<meta property="og:video:secure_url" content="https://player.vimeo.com/video/1181852916?h=edbe0f686b">"#;
    assert_eq!(vimeo::player_hash_from_html(html).as_deref(), Some("edbe0f686b"));
}

#[test]
fn vimeo_api_url_and_tokens() {
    assert_eq!(vimeo::video_api_url("42", None), "https://api.vimeo.com/videos/42");
    assert_eq!(vimeo::video_api_url("42", Some("ab")), "https://api.vimeo.com/videos/42:ab");
    assert_eq!(vimeo::rendition_height("720p"), Some(720));
    assert_eq!(vimeo::rendition_height("adaptive"), None);
    let cached = Some(vimeo::token_to_cache("t".to_string(), 3600, 0));
    assert_eq!(vimeo::cached_value(&cached, 1_000).as_deref(), Some("t"));
    assert_eq!(vimeo::cached_value(&cached, 3_540_000 - 120_000), None);
    assert_eq!(vimeo::default_token_ttl(), 3600);
}

#[test]
fn vimeo_streams_lowest_first_one_per_height() {
    let file = |link: &str, h: Option<u32>, kind: Option<&str>| vimeo::VimeoFile {
        link: Some(link.to_string()),
        height: h,
        rendition: None,
        quality: None,
        kind: kind.map(str::to_string),
    };
    let video = vimeo::VimeoVideo {
        files: Some(vec![
            file("https://v.example/1080a.mp4", Some(1080), Some("video/mp4")),
            file("https://v.example/720a.mp4", Some(720), Some("video/mp4")),
            file("https://v.example/hls.m3u8", Some(1080), None),
        ]),
        play: Some(vimeo::VimeoPlay {
            progressive: Some(vec![file("https://v.example/720b.mp4", Some(720), Some("video/mp4"))]),
        }),
    };
    let streams = vimeo::streams_from_video(&video).unwrap();
    assert_eq!(streams.len(), 2);
    assert_eq!(height_hint(&streams[0]), 720);
    assert_eq!(streams[0].url.href, "https://v.example/720a.mp4");
    assert_eq!(height_hint(&streams[1]), 1080);
    assert_eq!(streams[1].url.href, "https://v.example/1080a.mp4");
    assert!(streams.iter().all(|s| !s.hls));
}

#[test]
fn parses_video_keys() {
    let url = parse_url("http://vk.com/video-223140511_456239655").unwrap();
    assert_eq!(vk::video_key(&url).as_deref(), Some("-223140511_456239655"));
}

#[test]
fn vk_sources_from_answer() {
    let text = vk::decode_vk_payload(
        r#"{"hls":"https:\/\/vkvd1.okcdn.ru\/video.m3u8?type=2","mp4":"https:\/\/vkvd1.okcdn.ru\/v.mp4?type=3&amp;x=1" "https://vk.com/getVideoPreview?x"}"#,
    );
    let streams = vk::parse_sources(&text).unwrap();
    assert_eq!(streams.len(), 2);
    assert!(streams[0].hls);
    assert_eq!(height_hint(&streams[0]), 480);
    assert!(!streams[1].hls);
    assert_eq!(streams[1].url.href, "https://vkvd1.okcdn.ru/v.mp4?type=3&x=1");
    assert_eq!(height_hint(&streams[1]), 720);
    assert!(!streams.iter().any(|s| s.url.href.contains("getVideoPreview")));
    let best = vk::pick_quality(streams, Quality::Best).unwrap();
    assert!(!best[0].hls);
    assert_eq!(vk::normalize_key("123_45").as_deref(), Some("-123_45"));
    assert_eq!(vk::normalize_key("--123_"), None);
}

#[test]
fn matches_xnxx_and_xvideos_hosts() {
    let xnxx = parse_url("https://www.xnxx.com/video-1cpbmdea/wild_gangbang").unwrap();
    assert!(xnxx::matches_host(&xnxx));
    let xv = parse_url("https://www.xvideos.com/video.ufkthho1234/test").unwrap();
    assert!(xnxx::matches_host(&xv));
    let other = parse_url("https://example.com/video-1").unwrap();
    assert!(!xnxx::matches_host(&other));
}

#[test]
fn detects_video_pages() {
    let xnxx = parse_url("https://www.xnxx.com/video-1cpbmdea/wild_gangbang").unwrap();
    assert!(xnxx::is_video_page(&xnxx));
    let home = parse_url("https://www.xnxx.com/").unwrap();
    assert!(!xnxx::is_video_page(&home));
}

#[test]
fn okxxx_host_and_source() {
    assert!(okxxx::matches_host(&parse_url("https://ok.xxx/video/1/").unwrap()));
    assert!(!okxxx::matches_host(&parse_url("https://notok.xxx/").unwrap()));
    let page = parse_url("https://ok.xxx/video/1/").unwrap();
    let first = okxxx::first_source(r#"<video><source src="/get/1.mp4" label="720p"></video>"#, &page).unwrap();
    assert_eq!(first.href, "https://ok.xxx/get/1.mp4");
}

#[test]
fn registry_takes_first_family() {
    let yt = parse_url("https://www.youtube.com/watch?v=x").unwrap();
    assert_eq!(registry::site_for(&yt), Some(registry::SiteId::Youtube));
    let ph = parse_url("https://www.pornhub.com/view_video.php?viewkey=a").unwrap();
    assert_eq!(registry::site_for(&ph), Some(registry::SiteId::Pornhub));
    assert_eq!(registry::refresh_site(&ph), Some(registry::SiteId::Pornhub));
    assert_eq!(registry::refresh_site(&yt), None);
    let none = parse_url("https://example.com/").unwrap();
    assert_eq!(registry::site_for(&none), None);
    assert_eq!(
        registry::unsupported_upstream(&none).message(),
        "invalid URL: unsupported Yandex upstream host: example.com"
    );
}

#[test]
fn vimeo_streams_are_refreshed() {
    let on_vimeo = Stream { url: parse_url("https://vod-adaptive.akamaized.net.vimeocdn.com/x.mp4").unwrap(), ..stream_for_height(720) };
    assert!(vimeo::needs_refresh(&on_vimeo));
    assert!(!vimeo::needs_refresh(&stream_for_height(720)));
}

fn jstr(x: &str) -> stream_downloader::json_value::JsonValue {
    stream_downloader::json_value::JsonValue::Str(x.to_string())
}

#[test]
fn rutube_balancer_from_answer() {
    let answer = JsonValue::Object(vec![(
        "video_balancer".to_string(),
        JsonValue::Object(vec![
            ("default".to_string(), jstr("https://bl.rutube.ru/route/x.m3u8")),
            ("m3u8".to_string(), jstr("https://bl.rutube.ru/route/y.m3u8")),
        ]),
    )]);
    let b = rutube::balancer_from_json(&answer).unwrap().unwrap();
    assert_eq!(b.len(), 2);
    assert_eq!(b[1], ("m3u8".to_string(), "https://bl.rutube.ru/route/y.m3u8".to_string()));
    let none = JsonValue::Object(vec![("video_balancer".to_string(), JsonValue::Null)]);
    assert_eq!(rutube::balancer_from_json(&none).unwrap(), None);
    let bad = JsonValue::Object(vec![("video_balancer".to_string(), JsonValue::Object(vec![("a".to_string(), JsonValue::Null)]))]);
    assert!(matches!(rutube::balancer_from_json(&bad), Err(Error::Http(_))));
    assert!(matches!(rutube::balancer_from_json(&jstr("x")), Err(Error::Http(_))));
}

#[test]
fn site_picks_on_no_streams() {
    assert_eq!(ok::pick_quality(Vec::new(), Quality::All).unwrap().len(), 0);
    assert_eq!(ok::pick_quality(Vec::new(), Quality::Height(720)).unwrap_err(), Error::NoStreamsFound);
    assert_eq!(vk::pick_quality(Vec::new(), Quality::All).unwrap().len(), 0);
    assert_eq!(vk::pick_quality(Vec::new(), Quality::Height(720)).unwrap_err(), Error::NoStreamsFound);
    assert_eq!(rutube::pick_quality(Vec::new(), Quality::All).unwrap().len(), 0);
    assert_eq!(rutube::pick_quality(Vec::new(), Quality::Height(720)).unwrap_err(), Error::NoStreamsFound);
}
