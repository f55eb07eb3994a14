use velum::net::IpAddress;
use velum::routing::{
    eq_ignore_ascii_case, normalize_domain, parse_action, parse_rule_text, policy_lines,
    IpCidr, PortRange, RouteContext, RoutingAction, RoutingError, RoutingPolicy, RoutingRule,
    RuleMatcher, RuleText,
};

/// Reads the address literals these tests use.
fn address(text: &str) -> Option<IpAddress> {
    if text.contains(':') {
        return match text {
            "2001:db8::" => Some(v6(&[0x2001, 0xdb8])),
            "2001:db8::1" => {
                let mut octets = [0_u8; 16];
                octets[..4].copy_from_slice(&[0x20, 0x01, 0x0d, 0xb8]);
                octets[15] = 1;
                Some(IpAddress::V6(octets))
            }
            _ => None,
        };
    }
    let parts: Vec<&str> = text.split('.').collect();
    if parts.len() != 4 {
        return None;
    }
    let mut octets = [0_u8; 4];
    for (index, part) in parts.iter().enumerate() {
        octets[index] = part.parse().ok()?;
    }
    Some(IpAddress::V4(octets))
}

fn v6(leading: &[u16]) -> IpAddress {
    let mut octets = [0_u8; 16];
    for (index, segment) in leading.iter().enumerate() {
        octets[2 * index] = (segment >> 8) as u8;
        octets[2 * index + 1] = (segment & 0xff) as u8;
    }
    IpAddress::V6(octets)
}

fn cidr(text: &str) -> Result<IpCidr, RoutingError> {
    let (network, prefix) = IpCidr::split_text(text)?;
    IpCidr::from_text_parts(address(network), prefix)
}

fn policy_from_text(text: &str) -> Result<RoutingPolicy, RoutingError> {
    let mut rules = Vec::new();
    for (_, line) in policy_lines(text) {
        match parse_rule_text(line)? {
            RuleText::Rule(rule) => rules.push(rule),
            RuleText::Cidr { network, action } => {
                rules.push(RoutingRule::new(
                    RuleMatcher::IpCidr(cidr(network)?),
                    parse_action(action)?,
                ));
            }
        }
    }
    RoutingPolicy::new(rules)
}

fn context<'a>(domain: Option<&'a str>, text: &str, port: u16) -> RouteContext<'a> {
    RouteContext {
        domain,
        destination: address(text).expect("address"),
        destination_port: port,
    }
}

#[test]
fn first_matching_rule_wins() {
    let policy = RoutingPolicy::new(vec![
        RoutingRule::new(RuleMatcher::IpCidr(cidr("192.0.2.0/24").expect("CIDR")), RoutingAction::Direct),
        RoutingRule::new(RuleMatcher::domain("api.example.com").expect("domain"), RoutingAction::Reject),
        RoutingRule::new(RuleMatcher::Match, RoutingAction::Proxy),
    ])
    .expect("policy");
    assert_eq!(
        policy.decide(&context(Some("api.example.com"), "192.0.2.1", 443)),
        RoutingAction::Direct
    );
    assert_eq!(
        policy.decide(&context(Some("API.example.com."), "198.51.100.1", 443)),
        RoutingAction::Reject
    );
    assert_eq!(
        policy.decide(&context(None, "198.51.100.1", 443)),
        RoutingAction::Proxy
    );
}

#[test]
fn all_matchers_support_their_boundaries() {
    let exact = RuleMatcher::domain("API.Example.Com.").expect("domain");
    let suffix = RuleMatcher::domain_suffix("example.com").expect("suffix");
    assert!(exact.matches(&context(Some("api.example.com"), "203.0.113.1", 1), Some("api.example.com")));
    assert!(suffix.matches(&context(Some("example.com"), "203.0.113.1", 1), Some("example.com")));
    assert!(suffix.matches(&context(Some("a.example.com"), "203.0.113.1", 1), Some("a.example.com")));
    assert!(!suffix.matches(
        &context(Some("notexample.com"), "203.0.113.1", 1),
        Some("notexample.com")
    ));
    assert!(RuleMatcher::DestinationPort(PortRange::parse("8000-8999").expect("ports"))
        .matches(&context(None, "203.0.113.1", 8999), None));
    assert!(!RuleMatcher::DestinationPort(PortRange::parse("8000-8999").expect("ports"))
        .matches(&context(None, "203.0.113.1", 9000), None));
}

#[test]
fn cidr_handles_both_address_families() {
    let ipv4 = cidr("10.0.0.0/8").expect("IPv4");
    let ipv6 = cidr("2001:db8::/32").expect("IPv6");
    assert!(ipv4.contains(address("10.1.2.3").expect("address")));
    assert!(ipv6.contains(address("2001:db8::1").expect("address")));
    assert!(!ipv4.contains(address("2001:db8::1").expect("address")));
    assert!(cidr("10.0.0.1/8").is_err());
    assert!(cidr("10.0.0.0/33").is_err());
    assert!(cidr("10.0.0.0").is_err());
    assert!(cidr("not-an-address/8").is_err());
    assert_eq!(ipv4.prefix_length(), 8);
    assert_eq!(ipv4.network(), IpAddress::V4([10, 0, 0, 0]));
}

#[test]
fn match_must_be_last() {
    let error = RoutingPolicy::new(vec![
        RoutingRule::new(RuleMatcher::Match, RoutingAction::Proxy),
        RoutingRule::new(
            RuleMatcher::DestinationPort(PortRange::parse("443").expect("port")),
            RoutingAction::Direct,
        ),
    ])
    .expect_err("invalid ordering");
    assert!(error.message().contains("final"));
}

#[test]
fn node_action_is_returned_without_losing_identity() {
    let policy = RoutingPolicy::new(vec![RoutingRule::new(
        RuleMatcher::Match,
        RoutingAction::Node("node-sg".into()),
    )])
    .expect("policy");
    assert_eq!(
        policy.decide(&context(None, "203.0.113.1", 443)),
        RoutingAction::Node("node-sg".into())
    );
}

#[test]
fn legacy_text_policy_uses_the_shared_matchers() {
    let policy = policy_from_text("DST-PORT,53,DIRECT\nMATCH,NODE:node-sg").expect("policy");
    assert_eq!(policy.decide(&context(None, "203.0.113.1", 53)), RoutingAction::Direct);
    assert_eq!(
        policy.decide(&context(None, "203.0.113.1", 443)),
        RoutingAction::Node("node-sg".into())
    );
}

#[test]
fn text_rules_are_checked_field_by_field() {
    assert!(parse_rule_text("DOMAIN,example.com").is_err());
    assert!(parse_rule_text("DOMAIN,,DIRECT").is_err());
    assert!(parse_rule_text("GEOIP,CN,DIRECT").is_err());
    assert!(parse_rule_text("DST-PORT,70000,DIRECT").is_err());
    assert!(parse_rule_text("MATCH,SOMEWHERE").is_err());
    match parse_rule_text(" IP-CIDR , 10.0.0.0/8 , REJECT ").expect("cidr") {
        RuleText::Cidr { network, action } => {
            assert_eq!(network, "10.0.0.0/8");
            assert_eq!(action, "REJECT");
        }
        RuleText::Rule(_) => panic!("expected a CIDR rule"),
    }
    let policy = policy_from_text("\n  IP-CIDR,10.0.0.0/8,REJECT\n\nDOMAIN-SUFFIX,Example.com,DIRECT\n")
        .expect("policy");
    assert_eq!(policy.rules().len(), 2);
    assert_eq!(policy.decide(&context(None, "10.9.9.9", 1)), RoutingAction::Reject);
    assert_eq!(policy.decide(&context(Some("www.example.com"), "1.1.1.1", 1)), RoutingAction::Direct);
    assert_eq!(policy.decide(&context(None, "1.1.1.1", 1)), RoutingAction::Proxy);
}

#[test]
fn policy_lines_keep_line_numbers() {
    assert_eq!(policy_lines("a\n\n  b  \n"), vec![(1, "a"), (3, "b")]);
}

#[test]
fn actions_and_domains_are_canonical() {
    assert_eq!(parse_action("DIRECT"), Ok(RoutingAction::Direct));
    assert!(parse_action("direct").is_err());
    assert_eq!(parse_action("NODE:sg"), Ok(RoutingAction::Node("sg".into())));
    assert!(parse_action("NODE:").is_err());
    assert_eq!(normalize_domain(" Example.COM. ").expect("domain"), "example.com");
    assert!(normalize_domain(".").is_err());
    assert!(eq_ignore_ascii_case("Proxy", "PROXY"));
    assert!(!eq_ignore_ascii_case("Proxy", "PROXIES"));
}

#[test]
fn port_ranges_are_ordered() {
    assert!(PortRange::new(10, 9).is_err());
    assert!(PortRange::new(0, 9).is_err());
    let range = PortRange::parse(" 80 ").expect("single port");
    assert_eq!((range.start(), range.end()), (80, 80));
    assert!(range.contains(80));
    assert!(!range.contains(81));
    assert!(PortRange::parse("90-80").is_err());
}
