use velum::net::{IpAddress, SocketAddress};
use velum::proxy::{
    parse_forward_request, read_http_head, socks5_methods_acceptable,
    socks5_request_header, socks5_target, validate_hostname, HttpRequest, ProxyError,
    ProxyTarget, Socks5Address,
};

/// What the authorities these tests use read as when taken as socket
/// addresses.
fn socket_address(authority: &str) -> Option<SocketAddress> {
    match authority {
        "192.0.2.1:443" => Some(SocketAddress { ip: IpAddress::V4([192, 0, 2, 1]), port: 443 }),
        "[2001:db8::1]:443" => Some(SocketAddress { ip: IpAddress::V6(documentation_v6()), port: 443 }),
        "192.0.2.1:80" => Some(SocketAddress { ip: IpAddress::V4([192, 0, 2, 1]), port: 80 }),
        "[2001:db8::1]:80" => Some(SocketAddress { ip: IpAddress::V6(documentation_v6()), port: 80 }),
        _ => None,
    }
}

fn documentation_v6() -> [u8; 16] {
    let mut octets = [0_u8; 16];
    octets[..4].copy_from_slice(&[0x20, 0x01, 0x0d, 0xb8]);
    octets[15] = 1;
    octets
}

fn target(authority: &str) -> Result<ProxyTarget, ProxyError> {
    ProxyTarget::from_authority(authority, socket_address(authority))
}

#[test]
fn rewrites_absolute_form_and_removes_proxy_hop_headers() {
    let request = parse_forward_request(
        b"GET http://example.com:8080/a?q=1 HTTP/1.1\r\nHost: wrong.example\r\nProxy-Connection: keep-alive, X-Remove\r\nProxy-Authorization: Basic secret\r\nX-Remove: value\r\nX-Keep: yes\r\n\r\n",
    )
    .expect("forward request");
    assert_eq!(
        target(&request.authority).expect("target"),
        ProxyTarget::Domain { host: "example.com".into(), port: 8080 }
    );
    let head = String::from_utf8(request.head).expect("UTF-8");
    assert!(head.starts_with("GET /a?q=1 HTTP/1.1\r\nHost: example.com:8080\r\n"));
    assert!(head.contains("X-Keep: yes\r\n"));
    assert!(!head.to_ascii_lowercase().contains("proxy-"));
    assert!(!head.contains("X-Remove"));
    assert!(head.ends_with("\r\n\r\n"));
}

#[test]
fn rejects_https_userinfo_fragments_and_malformed_headers() {
    for request in [
        "GET https://example.com/ HTTP/1.1\r\n\r\n",
        "GET http://user@example.com/ HTTP/1.1\r\n\r\n",
        "GET http://example.com/#fragment HTTP/1.1\r\n\r\n",
        "GET http://example.com/ HTTP/1.1\r\n folded\r\n\r\n",
        "GET http://example.com/ HTTP/1.1\r\nX-Bad: value\x01\r\n\r\n",
        "GET http://example.com/ HTTP/2\r\n\r\n",
    ] {
        assert!(parse_forward_request(request.as_bytes()).is_err(), "{request:?}");
    }
}

#[test]
fn parses_domain_ipv4_and_bracketed_ipv6_authorities() {
    assert_eq!(
        target("example.com:443").expect("domain"),
        ProxyTarget::Domain { host: "example.com".into(), port: 443 }
    );
    assert!(matches!(target("192.0.2.1:443").expect("IPv4"), ProxyTarget::Address(_)));
    assert!(matches!(target("[2001:db8::1]:443").expect("IPv6"), ProxyTarget::Address(_)));
}

#[test]
fn rejects_ambiguous_or_invalid_authorities() {
    for authority in ["example.com", "example.com:0x1bb", "2001:db8::1:443", "example.com:0"] {
        assert!(target(authority).is_err(), "{authority}");
    }
}

#[test]
fn hostnames_follow_dns_label_limits() {
    assert!(validate_hostname("example.com"));
    assert!(!validate_hostname(""));
    assert!(!validate_hostname("example.com."));
    assert!(!validate_hostname("exa mple.com"));
    assert!(!validate_hostname(&"a".repeat(64)));
    assert!(validate_hostname(&"a".repeat(63)));
    assert_eq!(
        ProxyTarget::from_host_port(b"example.com", 80),
        Ok(ProxyTarget::Domain { host: "example.com".into(), port: 80 })
    );
    assert_eq!(ProxyTarget::from_host_port(b"example.com", 0), Err(ProxyError::InvalidInput));
    assert_eq!(ProxyTarget::from_host_port(&[0xff], 80), Err(ProxyError::InvalidInput));
}

#[test]
fn socks5_handshake_requires_no_authentication_and_connect() {
    assert_eq!(socks5_methods_acceptable(&[0x02, 0x00]), Ok(()));
    assert!(socks5_methods_acceptable(&[0x02]).is_err());
    assert_eq!(socks5_request_header([5, 1, 0, 1]), Ok(Socks5Address::Ipv4));
    assert_eq!(socks5_request_header([5, 1, 0, 3]), Ok(Socks5Address::Domain));
    assert_eq!(socks5_request_header([5, 1, 0, 4]), Ok(Socks5Address::Ipv6));
    assert!(socks5_request_header([4, 1, 0, 1]).is_err());
    assert!(socks5_request_header([5, 2, 0, 1]).is_err());
    assert_eq!(
        socks5_target(Socks5Address::Ipv4, &[192, 0, 2, 1], [0x01, 0xbb]),
        Ok(ProxyTarget::Address(SocketAddress { ip: IpAddress::V4([192, 0, 2, 1]), port: 443 }))
    );
    assert_eq!(
        socks5_target(Socks5Address::Domain, b"example.com", [0x00, 0x50]),
        Ok(ProxyTarget::Domain { host: "example.com".into(), port: 80 })
    );
}

#[test]
fn connect_heads_name_their_authority() {
    // The whole head is read as words, so a CONNECT carries no header lines.
    assert_eq!(
        read_http_head(b"CONNECT example.com:443 HTTP/1.1\r\nHost: example.com:443\r\n\r\n").err(),
        Some(ProxyError::InvalidInput)
    );
    assert_eq!(read_http_head(&[0xff, 0x20, 0x20]).err(), Some(ProxyError::InvalidData));
    match read_http_head(b"connect example.com:443 HTTP/1.1\r\n\r\n").expect("CONNECT") {
        HttpRequest::Connect { authority } => assert_eq!(authority, "example.com:443"),
        HttpRequest::Forward(_) => panic!("expected CONNECT"),
    }
    assert!(matches!(
        read_http_head(b"GET http://example.com/ HTTP/1.1\r\n\r\n").expect("forward"),
        HttpRequest::Forward(_)
    ));
}

#[test]
fn parses_default_port_ipv4_and_bracketed_ipv6() {
    let cases = [
        ("GET http://192.0.2.1 HTTP/1.1\r\n\r\n", SocketAddress { ip: IpAddress::V4([192, 0, 2, 1]), port: 80 }),
        ("GET http://[2001:db8::1]/ HTTP/1.1\r\n\r\n", SocketAddress { ip: IpAddress::V6(documentation_v6()), port: 80 }),
    ];
    for (head, expected) in cases {
        let request = parse_forward_request(head.as_bytes()).expect("request");
        let text = request.target_authority();
        assert_eq!(request.target(socket_address(&text)).expect("target"), ProxyTarget::Address(expected));
    }
}

#[test]
fn forwarded_targets_are_checked_like_authorities() {
    let request = parse_forward_request(b"GET http://example.com/ HTTP/1.1\r\n\r\n").expect("request");
    assert_eq!(request.target_authority(), "example.com:80");
    assert_eq!(request.target(None), Ok(ProxyTarget::Domain { host: "example.com".into(), port: 80 }));
    let bad = parse_forward_request(b"GET http://bad_host!:8080/ HTTP/1.1\r\n\r\n").expect("request");
    assert_eq!(bad.target(None), Err(ProxyError::InvalidInput));
    let zero = parse_forward_request(b"GET http://example.com:0/ HTTP/1.1\r\n\r\n").expect("request");
    assert_eq!(zero.target(None), Err(ProxyError::InvalidInput));
}
