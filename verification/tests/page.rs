use stream_downloader::error::Error;
use stream_downloader::page::{extract_title, fallback_title, validate_output_dir, validate_page_url};
use stream_downloader::sites::common::parse_url;

#[test]
fn rejects_empty_and_non_http_urls() {
    assert!(matches!(validate_page_url(""), Err(Error::InvalidUrl(_))));
    assert!(matches!(validate_page_url("ftp://example.com"), Err(Error::InvalidUrl(_))));
}

#[test]
fn accepts_https_urls() {
    let url = validate_page_url("https://example.com/watch?v=1").unwrap();
    assert_eq!(url.host.as_deref(), Some("example.com"));
}

#[test]
fn page_url_messages() {
    assert_eq!(validate_page_url("   ").unwrap_err(), Error::InvalidUrl("URL must not be empty".into()));
    assert_eq!(
        validate_page_url(" ftp://example.com ").unwrap_err(),
        Error::InvalidUrl("unsupported scheme `ftp` (use http or https)".into())
    );
    assert!(validate_page_url(" http://example.com/a ").is_ok());
}

#[test]
fn output_dir_checks() {
    assert!(validate_output_dir(None, true, false).is_ok());
    assert_eq!(
        validate_output_dir(Some(""), false, false).unwrap_err(),
        Error::InvalidOutput("output path must not be empty".into())
    );
    assert_eq!(
        validate_output_dir(Some("/tmp/f"), true, false).unwrap_err(),
        Error::InvalidOutput("`/tmp/f` exists and is not a directory".into())
    );
    assert!(validate_output_dir(Some("/tmp/missing"), false, false).is_ok());
    assert!(validate_output_dir(Some("/tmp"), true, true).is_ok());
}

#[test]
fn parses_title_from_html() {
    let html = "<html><head><title>My Clip</title></head><body></body></html>";
    assert_eq!(extract_title(html).as_deref(), Some("My Clip"));
}

#[test]
fn falls_back_to_last_path_segment() {
    let url = parse_url("https://example.com/videos/clip-42").unwrap();
    assert_eq!(fallback_title(&url), "clip-42");
    let root = parse_url("https://example.com/").unwrap();
    assert_eq!(fallback_title(&root), "page");
}

#[test]
fn output_dir_must_be_directory_when_present() {
    // A file at the path: it exists and is not a directory.
    let file = "/tmp/stream-dl-test-file";
    assert!(matches!(validate_output_dir(Some(file), true, false), Err(Error::InvalidOutput(_))));
    // A path that does not exist yet is accepted.
    assert!(validate_output_dir(Some("/tmp/stream-dl-missing-dir-test"), false, false).is_ok());
}
