use stream_downloader::error::Error;
use stream_downloader::hls::{parse_master, parse_master_with_base};
use stream_downloader::sites::common::parse_url;

#[test]
fn parses_master_variants() {
    let body = r#"#EXTM3U
#EXT-X-STREAM-INF:RESOLUTION=640x360
https://cdn.example.com/360.m3u8
#EXT-X-STREAM-INF:RESOLUTION=1280x720
https://cdn.example.com/720.m3u8
"#;
    let variants = parse_master(body).unwrap();
    assert_eq!(variants.len(), 2);
    assert_eq!(variants[0].height, 360);
    assert_eq!(variants[1].height, 720);
}

#[test]
fn resolves_relative_variant_urls() {
    let body = r#"#EXTM3U
#EXT-X-STREAM-INF:RESOLUTION=1280x720
hls-720p.m3u8
"#;
    let base = parse_url("https://cdn.example.com/path/hls.m3u8").unwrap();
    let variants = parse_master_with_base(body, Some(&base)).unwrap();
    assert_eq!(variants.len(), 1);
    assert_eq!(variants[0].url.href, "https://cdn.example.com/path/hls-720p.m3u8");
}

#[test]
fn master_errors() {
    assert_eq!(parse_master("not a playlist").unwrap_err(), Error::NoStreamsFound);
    assert_eq!(parse_master("#EXTM3U\n").unwrap_err(), Error::NoStreamsFound);
    assert_eq!(
        parse_master("#EXTM3U\n#EXT-X-STREAM-INF:RESOLUTION=1x2\nrel.m3u8\n").unwrap_err(),
        Error::InvalidUrl("relative HLS URL without base: rel.m3u8".into())
    );
    let v = parse_master("  #EXTM3U\r\n#EXT-X-STREAM-INF:BANDWIDTH=1\r\n#comment\r\n#EXT-X-STREAM-INF:RESOLUTION=2x480,CODECS=x\r\nhttps://c.example/a.m3u8\r\n").unwrap();
    assert_eq!(v.len(), 1);
    assert_eq!(v[0].height, 480);
}
