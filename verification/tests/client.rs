use velum::client::{encode_open, ClientConfig, ClientConfigError, API_VERSION};
use velum::lifecycle::ClientError;
use velum::net::{IpAddress, SocketAddress};

fn relay() -> SocketAddress {
    SocketAddress { ip: IpAddress::V4([192, 0, 2, 1]), port: 443 }
}

#[test]
fn configuration_rejects_unbounded_or_empty_security_inputs() {
    let certificate = vec![1u8, 2, 3];
    assert!(matches!(
        ClientConfig::new(relay(), String::new(), vec![7], vec![certificate.clone()], 1000),
        Err(ClientConfigError::EmptyServerName)
    ));
    assert!(matches!(
        ClientConfig::new(relay(), "relay.example".into(), vec![7; 129], vec![certificate], 1000),
        Err(ClientConfigError::InvalidCredentialLength)
    ));
}

#[test]
fn open_record_preserves_exact_target_and_credential_bounds() {
    let encoded = encode_open(&[7, 8], "192.0.2.10:443").expect("open record");
    assert_eq!(&encoded[..4], &[0, 2, 0, 14]);
    assert_eq!(&encoded[4..6], &[7, 8]);
    assert_eq!(&encoded[6..], b"192.0.2.10:443");
}

#[test]
fn configuration_keeps_every_accepted_input() {
    let config = ClientConfig::new(
        relay(),
        "relay.example".into(),
        vec![7; 128],
        vec![vec![1, 2, 3], vec![4]],
        2500,
    )
    .expect("valid configuration");
    assert_eq!(*config.relay_address(), relay());
    assert_eq!(config.server_name(), "relay.example");
    assert_eq!(config.credential(), &[7u8; 128][..]);
    assert_eq!(config.root_certificate_count(), 2);
    assert_eq!(config.connect_timeout_millis(), 2500);
    assert_eq!(API_VERSION, 1);
}

#[test]
fn configuration_reports_each_refusal_in_order() {
    assert!(matches!(
        ClientConfig::new(relay(), "relay.example".into(), vec![], vec![vec![1]], 1),
        Err(ClientConfigError::InvalidCredentialLength)
    ));
    assert!(matches!(
        ClientConfig::new(relay(), "relay.example".into(), vec![7], vec![], 1),
        Err(ClientConfigError::MissingRootCertificate)
    ));
    assert!(matches!(
        ClientConfig::new(relay(), "relay.example".into(), vec![7], vec![vec![1]], 0),
        Err(ClientConfigError::ZeroConnectTimeout)
    ));
    assert!(matches!(
        ClientConfig::new(relay(), String::new(), vec![], vec![], 0),
        Err(ClientConfigError::EmptyServerName)
    ));
}

#[test]
fn open_record_refuses_lengths_past_the_field() {
    let long_credential = vec![1u8; 65536];
    assert_eq!(encode_open(&long_credential, "192.0.2.10:443"), Err(ClientError::ControlTooLarge));
    let long_target = "a".repeat(65536);
    assert_eq!(encode_open(&[7], &long_target), Err(ClientError::ControlTooLarge));
    let edge = encode_open(&[], "").expect("empty record");
    assert_eq!(edge, vec![0, 0, 0, 0]);
}

#[test]
fn relay_reads_back_what_the_client_opened() {
    let encoded = encode_open(&[9; 32], "[2001:db8::1]:8443").expect("open record");
    let record = velum::node::decode_open(&encoded).expect("accepted by the relay");
    assert_eq!(record.secret, vec![9; 32]);
    assert_eq!(record.target, b"[2001:db8::1]:8443".to_vec());
}
