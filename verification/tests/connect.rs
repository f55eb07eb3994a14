use velum::connect::{connection_established, parse_request, ConnectError, MAX_HEADER_BYTES};
use velum::net::{IpAddress, SocketAddress};

/// What the authorities these tests use read as when taken as socket
/// addresses.
fn socket_address(authority: &str) -> Option<SocketAddress> {
    match authority {
        "192.0.2.10:443" => Some(SocketAddress { ip: IpAddress::V4([192, 0, 2, 10]), port: 443 }),
        _ => None,
    }
}

fn request(bytes: &[u8]) -> Result<velum::connect::ConnectRequest, ConnectError> {
    let head = parse_request(bytes)?;
    let target = socket_address(&head.authority);
    head.into_request(target)
}

#[test]
fn parses_an_ip_connect_request_and_preserves_tunnel_bytes() {
    let parsed = request(b"CONNECT 192.0.2.10:443 HTTP/1.1\r\nHost: ignored\r\n\r\npayload").expect("request");
    assert_eq!(parsed.target, SocketAddress { ip: IpAddress::V4([192, 0, 2, 10]), port: 443 });
    assert_eq!(parsed.remaining, b"payload");
    assert_eq!(connection_established(), b"HTTP/1.1 200 Connection Established\r\n\r\n".to_vec());
}

#[test]
fn incomplete_and_hostname_requests_are_rejected() {
    assert_eq!(request(b"CONNECT 192.0.2.10:443").err(), Some(ConnectError::Incomplete));
    assert_eq!(
        request(b"CONNECT example.test:443 HTTP/1.1\r\n\r\n").err(),
        Some(ConnectError::HostnamesUnsupported)
    );
}

#[test]
fn request_lines_are_checked_word_by_word() {
    assert_eq!(request(b"GET 192.0.2.10:443 HTTP/1.1\r\n\r\n").err(), Some(ConnectError::UnsupportedMethod));
    assert_eq!(request(b"CONNECT 192.0.2.10:443 HTTP/1.0\r\n\r\n").err(), Some(ConnectError::UnsupportedVersion));
    assert_eq!(request(b"CONNECT 192.0.2.10:443\r\n\r\n").err(), Some(ConnectError::InvalidRequest));
    assert_eq!(request(b"CONNECT a b c\r\n\r\n").err(), Some(ConnectError::InvalidRequest));
    assert_eq!(request(b"\r\n\r\n").err(), Some(ConnectError::InvalidRequest));
    assert_eq!(request(b"CONNECT \xff HTTP/1.1\r\n\r\n").err(), Some(ConnectError::InvalidRequest));
    assert_eq!(
        request(b"  CONNECT\t192.0.2.10:443   HTTP/1.1\r\n\r\n").map(|r| r.remaining),
        Ok(vec![])
    );
}

#[test]
fn oversized_heads_are_refused() {
    assert_eq!(request(&vec![b'a'; MAX_HEADER_BYTES + 1]).err(), Some(ConnectError::HeaderTooLarge));
    assert_eq!(request(&vec![b'a'; MAX_HEADER_BYTES]).err(), Some(ConnectError::Incomplete));
    let mut long = vec![b' '; MAX_HEADER_BYTES - 3];
    long.extend_from_slice(b"\r\n\r\n");
    assert_eq!(request(&long).err(), Some(ConnectError::HeaderTooLarge));
}
