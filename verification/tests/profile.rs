use velum::net::{IpAddress, SocketAddress};
use velum::profile::{
    check_profile_size, validate_identifier, ActionConfig, ClientProfile, InterfaceAddress,
    MatchConfig, NodeConfig, PreferredAdapter, ProfileErrorKind, ProfileMetadata, RoutingConfig,
    RoutingMode, RuleConfig, SecretRef, SystemProxyConfig, TrafficConfig, TrustConfig, TunConfig,
    MAX_NODES, MAX_PROFILE_BYTES, MAX_RULES,
};
use velum::routing::{RouteContext, RoutingAction};

fn v6(segments: [u16; 8]) -> IpAddress {
    let mut octets = [0_u8; 16];
    for (index, segment) in segments.iter().enumerate() {
        octets[2 * index] = (segment >> 8) as u8;
        octets[2 * index + 1] = (segment & 0xff) as u8;
    }
    IpAddress::V6(octets)
}

fn secret(text: &str) -> SecretRef {
    SecretRef::parse(text.to_string()).expect("secret reference")
}

fn node(id: &str, alias: Option<&str>) -> NodeConfig {
    NodeConfig {
        id: id.into(),
        alias: alias.map(str::to_string),
        relay_address: SocketAddress { ip: IpAddress::V4([203, 0, 113, 10]), port: 443 },
        server_name: "relay.example.com".into(),
        server_address: None,
        credential_ref: secret(&format!("secret://velum/personal/{id}")),
        trust: TrustConfig::System,
    }
}

fn rule(matcher: MatchConfig, action: ActionConfig) -> RuleConfig {
    RuleConfig { matcher, action }
}

fn valid() -> ClientProfile {
    ClientProfile {
        version: 1,
        profile: ProfileMetadata {
            id: "personal".into(),
            name: "Personal".into(),
            default_node: "singapore".into(),
        },
        nodes: vec![node("node-sg", Some("singapore")), node("node-us", None)],
        traffic: TrafficConfig {
            preferred_adapter: PreferredAdapter::Tun,
            system_proxy: SystemProxyConfig { port: 7890, bypass: vec!["localhost".into()] },
            tun: TunConfig {
                mtu: 1500,
                ipv4: InterfaceAddress::new(IpAddress::V4([172, 19, 0, 1]), 30).expect("IPv4"),
                ipv6: InterfaceAddress::new(v6([0xfd00, 0x19, 0, 0, 0, 0, 0, 1]), 126).expect("IPv6"),
                dns: vec![IpAddress::V4([1, 1, 1, 1])],
            },
        },
        routing: RoutingConfig {
            mode: RoutingMode::Rule,
            rules: vec![
                rule(
                    MatchConfig::DomainSuffix { value: "example.com".into() },
                    ActionConfig::Node { target: "singapore".into() },
                ),
                rule(
                    MatchConfig::IpCidr {
                        value: "2001:db8::/32".into(),
                        network: Some(v6([0x2001, 0xdb8, 0, 0, 0, 0, 0, 0])),
                    },
                    ActionConfig::Reject,
                ),
                rule(MatchConfig::DstPort { value: "8000-8999".into() }, ActionConfig::Direct),
                rule(MatchConfig::Match, ActionConfig::Proxy),
            ],
        },
    }
}

#[test]
fn parses_and_normalizes_alias_references() {
    let mut profile = valid();
    profile.validate_and_normalize().expect("valid profile");
    assert_eq!(profile.profile.default_node, "node-sg");
    assert!(matches!(
        &profile.routing.rules[0].action,
        ActionConfig::Node { target } if target == "node-sg"
    ));
    let normalized = profile.clone();
    profile.validate_and_normalize().expect("normalized profile");
    assert_eq!(profile, normalized);
}

#[test]
fn compiled_policy_supports_node_port_ipv6_and_first_match() {
    let policy = valid().routing_policy().expect("policy");
    let address = v6([0x2001, 0xdb8, 0, 0, 0, 0, 0, 1]);
    let decision = policy.decide(&RouteContext {
        domain: Some("api.example.com"),
        destination: address,
        destination_port: 8500,
    });
    assert_eq!(decision, RoutingAction::Node("node-sg".into()));
    let decision = policy.decide(&RouteContext { domain: None, destination: address, destination_port: 8500 });
    assert_eq!(decision, RoutingAction::Reject);
    let decision = policy.decide(&RouteContext {
        domain: None,
        destination: IpAddress::V4([198, 51, 100, 1]),
        destination_port: 8500,
    });
    assert_eq!(decision, RoutingAction::Direct);
}

#[test]
fn rejects_other_versions_and_invalid_identities() {
    let mut profile = valid();
    profile.version = 2;
    assert_eq!(profile.validate_and_normalize().unwrap_err().kind(), ProfileErrorKind::UnsupportedVersion);
    let mut profile = valid();
    profile.profile.id = "Personal".into();
    assert_eq!(profile.validate_and_normalize().unwrap_err().kind(), ProfileErrorKind::Validation);
    let mut profile = valid();
    profile.profile.name = "   ".into();
    let before = profile.clone();
    assert_eq!(profile.validate_and_normalize().unwrap_err().kind(), ProfileErrorKind::Validation);
    assert_eq!(profile, before);
}

#[test]
fn rejects_duplicate_and_dangling_node_references() {
    let mut duplicate = valid();
    duplicate.nodes[0].alias = Some("node-us".into());
    assert_eq!(duplicate.validate_and_normalize().unwrap_err().kind(), ProfileErrorKind::Validation);
    let mut dangling = valid();
    dangling.routing.rules[0].action = ActionConfig::Node { target: "missing".into() };
    assert!(dangling.validate_and_normalize().is_err());
    let mut default = valid();
    default.profile.default_node = "missing".into();
    assert!(default.routing_policy().is_err());
}

#[test]
fn rejects_inline_or_external_secret_locations() {
    for value in [
        "plaintext-password",
        "file:///tmp/credential",
        "secret://other/key",
        "secret://velum/",
        "secret://velum/a//b",
        "secret://velum/a/../b",
        "secret://velum/a b",
    ] {
        assert_eq!(
            SecretRef::parse(value.to_string()).unwrap_err().kind(),
            ProfileErrorKind::Validation,
            "{value}"
        );
    }
    assert_eq!(secret("secret://velum/personal/node-sg").as_str(), "secret://velum/personal/node-sg");
    assert!(SecretRef::parse(format!("secret://velum/{}", "a".repeat(497))).is_ok());
    assert!(SecretRef::parse(format!("secret://velum/{}", "a".repeat(498))).is_err());
    let trust = TrustConfig::CustomCa { ca_ref: secret("secret://velum/ca/root") };
    assert_eq!(trust.ca_ref().map(SecretRef::as_str), Some("secret://velum/ca/root"));
    assert!(TrustConfig::System.ca_ref().is_none());
}

#[test]
fn enforces_input_and_collection_bounds() {
    assert_eq!(check_profile_size(MAX_PROFILE_BYTES + 1).unwrap_err().kind(), ProfileErrorKind::Limit);
    assert!(check_profile_size(MAX_PROFILE_BYTES).is_ok());
    let mut profile = valid();
    let last = profile.routing.rules.pop().expect("rule");
    while profile.routing.rules.len() < MAX_RULES {
        profile.routing.rules.push(rule(MatchConfig::DstPort { value: "53".into() }, ActionConfig::Direct));
    }
    profile.routing.rules.push(last);
    assert_eq!(profile.validate_and_normalize().unwrap_err().kind(), ProfileErrorKind::Limit);
}

#[test]
fn enforces_node_bound() {
    let mut profile = valid();
    profile.nodes = (0..=MAX_NODES).map(|index| node(&format!("node-{index}"), None)).collect();
    assert_eq!(profile.validate_and_normalize().unwrap_err().kind(), ProfileErrorKind::Limit);
    profile.nodes.clear();
    assert_eq!(profile.validate_and_normalize().unwrap_err().kind(), ProfileErrorKind::Limit);
}

#[test]
fn rejects_match_before_another_rule_and_invalid_ranges() {
    let mut wrong_order = valid();
    wrong_order.routing.rules[2].matcher = MatchConfig::Match;
    assert!(wrong_order.validate_and_normalize().is_err());
    let mut bad_port = valid();
    bad_port.routing.rules[2].matcher = MatchConfig::DstPort { value: "9000-8000".into() };
    assert!(bad_port.validate_and_normalize().is_err());
    let mut bad_cidr = valid();
    bad_cidr.routing.rules[1].matcher = MatchConfig::IpCidr {
        value: "2001:db8::/129".into(),
        network: Some(v6([0x2001, 0xdb8, 0, 0, 0, 0, 0, 0])),
    };
    assert!(bad_cidr.validate_and_normalize().is_err());
    let mut unreadable = valid();
    unreadable.routing.rules[1].matcher = MatchConfig::IpCidr { value: "nowhere/8".into(), network: None };
    assert!(unreadable.validate_and_normalize().is_err());
}

#[test]
fn traffic_settings_are_checked() {
    let mut profile = valid();
    profile.traffic.tun.mtu = 575;
    assert!(profile.validate_and_normalize().is_err());
    let mut profile = valid();
    profile.traffic.tun.dns.clear();
    assert!(profile.validate_and_normalize().is_err());
    let mut profile = valid();
    profile.traffic.tun.ipv4 = profile.traffic.tun.ipv6;
    assert!(profile.validate_and_normalize().is_err());
    assert!(InterfaceAddress::new(IpAddress::V4([10, 0, 0, 1]), 33).is_err());
    let interface = InterfaceAddress::new(IpAddress::V4([10, 0, 0, 1]), 8).expect("interface");
    assert_eq!((interface.address(), interface.prefix_length()), (IpAddress::V4([10, 0, 0, 1]), 8));
}

#[test]
fn server_names_are_addresses_or_domains() {
    let mut profile = valid();
    profile.nodes[1].server_name = "not a name".into();
    assert!(profile.validate_and_normalize().is_err());
    let mut profile = valid();
    profile.nodes[1].server_name = "203.0.113.10".into();
    profile.nodes[1].server_address = Some(IpAddress::V4([203, 0, 113, 10]));
    assert!(profile.validate_and_normalize().is_ok());
    assert!(validate_identifier("node-1"));
    assert!(!validate_identifier("-node"));
    assert!(!validate_identifier(&"a".repeat(65)));
}
