use velum::enrollment::{
    check_enrollment_size, decode_hex, encode_hex, EnrollmentBundle, EnrollmentNode,
    EnrollmentTrust, MAX_ENROLLMENT_BYTES,
};
use velum::net::{IpAddress, SocketAddress};
use velum::profile::ProfileErrorKind;

fn node() -> EnrollmentNode {
    EnrollmentNode {
        id: "node-sg".into(),
        name: "Singapore".into(),
        relay_address: SocketAddress { ip: IpAddress::V4([203, 0, 113, 10]), port: 443 },
        server_name: "relay.example.com".into(),
        server_address: None,
    }
}

#[test]
fn canonical_enrollment_round_trips_without_schema_drift() {
    let credential = [0xab_u8; 32];
    let bundle = EnrollmentBundle::new(node(), 7, &credential, EnrollmentTrust::System).expect("bundle");
    assert_eq!(bundle.kind, "velum-enrollment");
    assert_eq!(bundle.version, 1);
    assert_eq!(bundle.credential, "ab".repeat(32));
    assert_eq!(bundle.credential_bytes().expect("credential"), credential.to_vec());
    assert_eq!(bundle.credential_ref(), "secret://velum/enrollment/node-sg/7");
    let mut again = bundle.clone();
    again.validate_and_normalize().expect("normalized");
    assert_eq!(again, bundle);
}

#[test]
fn credentials_are_lower_cased_hexadecimal_of_thirty_two_octets() {
    let mut bundle = EnrollmentBundle::new(node(), 1, &[1; 32], EnrollmentTrust::System).expect("bundle");
    bundle.credential = "AB".repeat(32);
    bundle.validate_and_normalize().expect("valid");
    assert_eq!(bundle.credential, "ab".repeat(32));
    assert_eq!(
        EnrollmentBundle::new(node(), 1, &[1; 31], EnrollmentTrust::System).unwrap_err().kind(),
        ProfileErrorKind::Validation
    );
    let mut odd = bundle.clone();
    odd.credential = "abc".into();
    assert_eq!(odd.validate_and_normalize().unwrap_err().kind(), ProfileErrorKind::Validation);
    let mut not_hex = bundle.clone();
    not_hex.credential = "zz".repeat(32);
    assert!(not_hex.validate_and_normalize().is_err());
    assert_eq!(not_hex.credential, "zz".repeat(32));
}

#[test]
fn rejects_unknown_kinds_versions_and_unreachable_addresses() {
    let bundle = EnrollmentBundle::new(node(), 1, &[2; 32], EnrollmentTrust::System).expect("bundle");
    let mut kind = bundle.clone();
    kind.kind = "velum-profile".into();
    assert_eq!(kind.validate_and_normalize().unwrap_err().kind(), ProfileErrorKind::Validation);
    let mut version = bundle.clone();
    version.version = 2;
    assert_eq!(version.validate_and_normalize().unwrap_err().kind(), ProfileErrorKind::UnsupportedVersion);
    let mut unspecified = node();
    unspecified.relay_address.ip = IpAddress::V4([0, 0, 0, 0]);
    assert!(EnrollmentBundle::new(unspecified, 1, &[2; 32], EnrollmentTrust::System).is_err());
    let mut bad_id = node();
    bad_id.id = "Node".into();
    assert!(EnrollmentBundle::new(bad_id, 1, &[2; 32], EnrollmentTrust::System).is_err());
    let mut bad_name = node();
    bad_name.name = " ".into();
    assert!(EnrollmentBundle::new(bad_name, 1, &[2; 32], EnrollmentTrust::System).is_err());
}

#[test]
fn validates_custom_ca_material_and_input_bound() {
    let pem = "-----BEGIN CERTIFICATE-----\nMIIB\n-----END CERTIFICATE-----\n";
    assert!(EnrollmentBundle::new(
        node(),
        1,
        &[3; 32],
        EnrollmentTrust::CustomCa { certificate_pem: pem.into() }
    )
    .is_ok());
    for invalid in [String::new(), "not a certificate".into(), format!("{pem}{}", "a".repeat(12_288))] {
        assert!(EnrollmentBundle::new(
            node(),
            1,
            &[3; 32],
            EnrollmentTrust::CustomCa { certificate_pem: invalid }
        )
        .is_err());
    }
    assert_eq!(check_enrollment_size(MAX_ENROLLMENT_BYTES + 1).unwrap_err().kind(), ProfileErrorKind::Limit);
    assert!(check_enrollment_size(MAX_ENROLLMENT_BYTES).is_ok());
}

#[test]
fn hexadecimal_text_round_trips() {
    assert_eq!(encode_hex(&[0x00, 0x0f, 0xa0, 0xff]), "000fa0ff");
    assert_eq!(decode_hex("000FA0ff").expect("hex"), vec![0x00, 0x0f, 0xa0, 0xff]);
    assert!(decode_hex("").is_err());
    assert!(decode_hex("0g").is_err());
}
