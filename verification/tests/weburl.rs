use stream_downloader::sites::common::parse_url;
use stream_downloader::weburl::query_value;

#[test]
fn parsing_normalizes_the_url() {
    let u = parse_url("HTTPS://Example.COM/a/../b?x=1").unwrap();
    assert_eq!(u.href, "https://example.com/b?x=1");
    assert_eq!(u.scheme, "https");
    assert_eq!(u.host.as_deref(), Some("example.com"));
    assert_eq!(u.path, "/b");
    assert_eq!(u.query.as_deref(), Some("x=1"));
}

#[test]
fn parsing_refuses_a_relative_reference() {
    assert!(parse_url("/only/a/path").is_err());
}

#[test]
fn query_values_are_decoded() {
    let u = parse_url("https://example.com/watch?v=a%20b+c&v=second&w=1").unwrap();
    assert_eq!(query_value(&u, "v").as_deref(), Some("a b c"));
    assert_eq!(query_value(&u, "w").as_deref(), Some("1"));
    assert_eq!(query_value(&u, "z"), None);
}
