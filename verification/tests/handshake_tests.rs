use xray_tester::handshake::{
    connect_reply_ok, connect_request, deadline_expired, find_header_end, remaining_ms,
    scan_connect_reply, socks5_connect_request, socks5_greeting, socks5_parse_connect_reply,
    socks5_parse_method_reply, ConnectScan, Socks5Method, Socks5Reply, MAX_CONNECT_REPLY,
};

#[test]
fn connect_request_text() {
    let r = connect_request("a.b:443");
    assert_eq!(
        r,
        "CONNECT a.b:443 HTTP/1.1\r\nHost: a.b:443\r\nProxy-Connection: Keep-Alive\r\n\r\n"
    );
}

#[test]
fn header_end_found_at_first_terminator() {
    assert_eq!(find_header_end(b"HTTP/1.1 200\r\n\r\nrest"), Some(12));
    assert_eq!(find_header_end(b"HTTP/1.1 200\r\n"), None);
    assert_eq!(find_header_end(b""), None);
}

#[test]
fn accepted_when_status_line_starts_http11_200() {
    let buf = b"HTTP/1.1 200 OK\r\nServer: p\r\n\r\n";
    assert!(matches!(scan_connect_reply(buf), ConnectScan::Accepted(_)));
}

#[test]
fn accepted_when_head_contains_200_connection() {
    let buf = b"HTTP/1.0 200 Connection established\r\n\r\n";
    assert!(matches!(scan_connect_reply(buf), ConnectScan::Accepted(_)));
}

#[test]
fn refused_on_other_status() {
    let buf = b"HTTP/1.1 403 Forbidden\r\n\r\n";
    assert!(matches!(scan_connect_reply(buf), ConnectScan::Refused(_)));
}

#[test]
fn needs_more_without_terminator() {
    let buf = b"HTTP/1.1 200";
    assert!(matches!(scan_connect_reply(buf), ConnectScan::NeedMore));
}

#[test]
fn oversized_unterminated_reply_fails_deterministically() {
    let buf = vec![b'a'; MAX_CONNECT_REPLY + 1];
    assert!(matches!(scan_connect_reply(&buf), ConnectScan::Oversized));
    let at_cap = vec![b'a'; MAX_CONNECT_REPLY];
    assert!(matches!(scan_connect_reply(&at_cap), ConnectScan::NeedMore));
}

#[test]
fn oversized_with_terminator_is_still_scanned() {
    let mut buf = b"HTTP/1.1 200 OK\r\n\r\n".to_vec();
    buf.extend(std::iter::repeat(b'x').take(MAX_CONNECT_REPLY));
    assert!(matches!(scan_connect_reply(&buf), ConnectScan::Accepted(_)));
}

#[test]
fn reply_ok_checks() {
    assert!(connect_reply_ok(b"HTTP/1.1 200 OK"));
    assert!(connect_reply_ok(b"HTTP/1.0 200 Connection established"));
    assert!(!connect_reply_ok(b"HTTP/1.1 502 Bad Gateway"));
    assert!(!connect_reply_ok(b""));
}

#[test]
fn socks5_greeting_bytes() {
    assert_eq!(socks5_greeting(), vec![5u8, 1, 0]);
}

#[test]
fn socks5_method_replies() {
    assert_eq!(socks5_parse_method_reply(&[5]), Socks5Method::NeedMore);
    assert_eq!(socks5_parse_method_reply(&[5, 0]), Socks5Method::NoAuth);
    assert_eq!(socks5_parse_method_reply(&[5, 255]), Socks5Method::Rejected);
    assert_eq!(socks5_parse_method_reply(&[4, 0]), Socks5Method::Rejected);
}

#[test]
fn socks5_connect_request_bytes() {
    let r = socks5_connect_request(b"a.b", 443).unwrap();
    assert_eq!(r, vec![5u8, 1, 0, 3, 3, b'a', b'.', b'b', 1, 187]);
    assert!(socks5_connect_request(b"", 80).is_none());
    assert!(socks5_connect_request(&[b'x'; 256], 80).is_none());
}

#[test]
fn socks5_connect_replies() {
    // IPv4 bound address, granted
    assert_eq!(
        socks5_parse_connect_reply(&[5, 0, 0, 1, 0, 0, 0, 0, 0, 80]),
        Socks5Reply::Granted(10)
    );
    // short buffers ask for more
    assert_eq!(socks5_parse_connect_reply(&[5, 0, 0]), Socks5Reply::NeedMore);
    assert_eq!(
        socks5_parse_connect_reply(&[5, 0, 0, 1, 0, 0]),
        Socks5Reply::NeedMore
    );
    // refusal code is surfaced
    assert_eq!(
        socks5_parse_connect_reply(&[5, 5, 0, 1, 0, 0, 0, 0, 0, 80]),
        Socks5Reply::Refused(5)
    );
    // domain-typed reply sizes by its length byte
    assert_eq!(
        socks5_parse_connect_reply(&[5, 0, 0, 3, 2, b'a', b'b', 0, 80]),
        Socks5Reply::Granted(9)
    );
    assert_eq!(socks5_parse_connect_reply(&[5, 0, 0, 3]), Socks5Reply::NeedMore);
    // wrong version or address type is malformed
    assert_eq!(
        socks5_parse_connect_reply(&[4, 0, 0, 1, 0, 0, 0, 0, 0, 80]),
        Socks5Reply::Malformed
    );
    assert_eq!(
        socks5_parse_connect_reply(&[5, 0, 0, 9, 0, 0, 0, 0, 0, 80]),
        Socks5Reply::Malformed
    );
}

#[test]
fn deadline_budget_never_rearms() {
    assert_eq!(remaining_ms(5000, 0), 5000);
    assert_eq!(remaining_ms(5000, 4999), 1);
    assert_eq!(remaining_ms(5000, 5000), 0);
    assert_eq!(remaining_ms(5000, 9000), 0);
    assert!(!deadline_expired(5000, 4999));
    assert!(deadline_expired(5000, 5000));
}
