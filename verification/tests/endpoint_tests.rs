use xray_tester::endpoint::{
    connect_destination, host_with_port, parse_proxy, parse_url_target, u16_to_string,
    ProxyScheme, UrlError, DEFAULT_PROXY_PORT,
};

#[test]
fn target_https_defaults() {
    let t = parse_url_target("https://a.b/").unwrap();
    assert_eq!(t.scheme, "https");
    assert_eq!(t.host, "a.b");
    assert_eq!(t.port, 443);
    assert_eq!(t.path, "/");
    assert_eq!(t.host_header, "a.b");
}

#[test]
fn target_http_with_port_and_query() {
    let t = parse_url_target("http://a.b:8080/x?y=1").unwrap();
    assert_eq!(t.scheme, "http");
    assert_eq!(t.host, "a.b");
    assert_eq!(t.port, 8080);
    assert_eq!(t.path, "/x?y=1");
    assert_eq!(t.host_header, "a.b:8080");
}

#[test]
fn target_http_default_port() {
    let t = parse_url_target("http://example.com/path").unwrap();
    assert_eq!(t.port, 80);
    assert_eq!(t.host_header, "example.com");
    assert_eq!(t.path, "/path");
}

#[test]
fn target_explicit_default_port_omitted_from_host_header() {
    let t = parse_url_target("https://a.b:443/").unwrap();
    assert_eq!(t.port, 443);
    assert_eq!(t.host_header, "a.b");
}

#[test]
fn target_rejects_other_schemes() {
    assert!(matches!(parse_url_target("ftp://a.b/"), Err(UrlError::UnsupportedScheme)));
}

#[test]
fn target_rejects_garbage() {
    assert!(matches!(parse_url_target("not a url"), Err(UrlError::Invalid)));
}

#[test]
fn proxy_socks5_default_port() {
    let p = parse_proxy("socks5://127.0.0.1").unwrap();
    assert_eq!(p.scheme, ProxyScheme::Socks5);
    assert_eq!(p.host, "127.0.0.1");
    assert_eq!(p.port, DEFAULT_PROXY_PORT);
}

#[test]
fn proxy_http_explicit_port() {
    let p = parse_proxy("http://gw:3128").unwrap();
    assert_eq!(p.scheme, ProxyScheme::Http);
    assert_eq!(p.host, "gw");
    assert_eq!(p.port, 3128);
}

#[test]
fn proxy_rejects_other_schemes() {
    assert!(matches!(parse_proxy("ftp://gw"), Err(UrlError::UnsupportedScheme)));
    assert!(parse_proxy("%%%").is_err());
}

#[test]
fn decimal_rendering() {
    assert_eq!(u16_to_string(0), "0");
    assert_eq!(u16_to_string(7), "7");
    assert_eq!(u16_to_string(80), "80");
    assert_eq!(u16_to_string(2080), "2080");
    assert_eq!(u16_to_string(65535), "65535");
}

#[test]
fn host_port_join() {
    assert_eq!(host_with_port("a.b", 8080), "a.b:8080");
}

#[test]
fn connect_destination_override() {
    let t = parse_url_target("https://a.b/").unwrap();
    assert_eq!(connect_destination(&t, &None), "a.b:443");
    assert_eq!(
        connect_destination(&t, &Some("10.0.0.1:8443".to_string())),
        "10.0.0.1:8443"
    );
}

#[test]
fn target_largest_port() {
    let t = parse_url_target("http://a.b:65535/").unwrap();
    assert_eq!(t.port, 65535);
    assert_eq!(t.host_header, "a.b:65535");
}
