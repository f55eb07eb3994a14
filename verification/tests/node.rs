use velum::forest::{CoverConfigError, CoverServiceMode};
use velum::issuance::{plan_issue, relay_node_id, revoke_position, secret_file_name, RevokeSelector};
use velum::net::{IpAddress, SocketAddress};
use velum::options::{issue_options, revoke_options, IssueDelivery};
use velum::console::{parse_choice, parse_menu_entry, parse_yes_no, prompt_default, prompt_required};
use velum::node::{ConfigError, QuicRelayConfig};
use velum::operator::{
    render_unit, slug, systemd_argument, unit_name, valid_domain, validate_client_name,
    validate_unit_path,
};
use velum::options::{acme_configuration, config_path, deploy_options, uninstall_options};
use velum::settings::decode_secret;

fn args(values: &[&str]) -> Vec<String> {
    values.iter().map(|value| value.to_string()).collect()
}

#[test]
fn accepts_dns_names_and_rejects_ip_addresses() {
    assert!(valid_domain("relay.example.com"));
    assert!(!valid_domain("127.0.0.1"));
    assert!(!valid_domain("relay..example.com"));
    assert!(!valid_domain("relay_example.com"));
}

#[test]
fn parses_acme_configuration_in_any_option_order() {
    let parsed = acme_configuration(&args(&[
        "--domain",
        "relay.example.com",
        "--staging",
        "--dns",
        "cloudflare",
        "--config",
        "relay.toml",
        "--email",
        "ops@example.com",
    ]))
    .expect("configuration");
    assert_eq!(parsed.config_path.as_deref(), Some("relay.toml"));
    assert_eq!(parsed.domains, ["relay.example.com"]);
    assert!(parsed.staging);
    assert_eq!(parsed.email, "ops@example.com");
    assert_eq!(parsed.dns_provider, "cloudflare");
    assert!(acme_configuration(&args(&["--email", "ops@example.com"])).is_err());
}

#[test]
fn rejects_unknown_deploy_options() {
    assert!(deploy_options(&args(&["--bad"])).is_err());
    assert!(deploy_options(&args(&["--config"])).is_err());
    let options = deploy_options(&args(&["--dry-run", "--binary", "/opt/velum"])).expect("deploy");
    assert!(options.dry_run);
    assert_eq!(options.binary.as_deref(), Some("/opt/velum"));
    assert_eq!(options.config_path, None);
}

#[test]
fn accepts_only_the_optional_config_path() {
    assert_eq!(config_path(&args(&[])).expect("default"), None);
    assert_eq!(
        config_path(&args(&["--config", "example.toml"])).expect("custom").as_deref(),
        Some("example.toml")
    );
    assert!(config_path(&args(&["--bad"])).is_err());
}

#[test]
fn uninstall_reads_confirmation_and_refuses_unknown_options() {
    let options = uninstall_options(&args(&[])).expect("options");
    assert!(!options.confirmed);
    assert!(uninstall_options(&args(&["--bad"])).is_err());
    let options = uninstall_options(&args(&["--yes", "--purge"])).expect("options");
    assert!(options.confirmed && options.purge);
}

#[test]
fn rejects_non_hex_secrets() {
    assert!(decode_secret("not-hex").is_err());
    assert!(decode_secret("abc").is_err());
    assert_eq!(decode_secret("00ff10").expect("hex"), vec![0x00, 0xff, 0x10]);
    assert_eq!(decode_secret("AbCd").expect("hex"), vec![0xab, 0xcd]);
}

#[test]
fn unit_name_is_stable_and_configuration_scoped() {
    assert_eq!(unit_name(b"/srv/a/config.toml"), unit_name(b"/srv/a/config.toml"));
    assert_ne!(unit_name(b"/srv/a/config.toml"), unit_name(b"/srv/b/config.toml"));
    let name = unit_name(b"/srv/a/config.toml");
    assert!(name.starts_with("velum-"));
    assert!(name.ends_with(".service"));
}

#[test]
fn unit_quotes_paths_and_has_restart_policy() {
    let unit = render_unit("/opt/Velum Relay/velum", "/srv/relay/config.toml", 10);
    assert!(unit.contains(
        "ExecStart=\"/opt/Velum Relay/velum\" serve --config \"/srv/relay/config.toml\""
    ));
    assert!(unit.contains("Restart=on-failure"));
    assert!(unit.contains("TimeoutStopSec=15"));
    assert_eq!(systemd_argument("a\"b\\c"), "\"a\\\"b\\\\c\"");
}

#[test]
fn rejects_paths_that_cannot_be_represented_safely_in_a_unit() {
    assert!(validate_unit_path("/srv/relay\nunit", "configuration").is_err());
    assert!(validate_unit_path("/srv/relay unit", "configuration").is_ok());
}

#[test]
fn generated_file_names_do_not_accept_path_segments() {
    assert_eq!(slug("Alice's / Phone"), "alice-s---phone");
    assert!(validate_client_name("phone").is_ok());
    assert!(validate_client_name("").is_err());
    assert_eq!(slug("移动端"), "client");
}

#[test]
fn relay_configuration_is_versioned_and_bounded() {
    assert!(QuicRelayConfig::default().validate().is_ok());
    assert_eq!(
        QuicRelayConfig { schema_version: 2, ..QuicRelayConfig::default() }.validate(),
        Err(ConfigError::UnsupportedSchema)
    );
    assert_eq!(
        QuicRelayConfig { max_control_bytes: 1, ..QuicRelayConfig::default() }.validate(),
        Err(ConfigError::ControlLimitTooSmall)
    );
    assert_eq!(
        QuicRelayConfig { control_timeout: 0, ..QuicRelayConfig::default() }.validate(),
        Err(ConfigError::ZeroControlTimeout)
    );
    assert_eq!(
        QuicRelayConfig { shutdown_timeout: 0, ..QuicRelayConfig::default() }.validate(),
        Err(ConfigError::ZeroShutdownTimeout)
    );
    assert_eq!(
        QuicRelayConfig { max_connections: 0, ..QuicRelayConfig::default() }.validate(),
        Err(ConfigError::ZeroConnectionLimit)
    );
    assert_eq!(
        QuicRelayConfig { max_streams_per_connection: 0, ..QuicRelayConfig::default() }.validate(),
        Err(ConfigError::ZeroStreamLimit)
    );
}

#[test]
fn transport_profile_matches_the_listener_stream_limit() {
    let relay = QuicRelayConfig { max_streams_per_connection: 7, ..QuicRelayConfig::default() };
    assert_eq!(
        relay.transport_profile().expect("transport profile").max_bidirectional_streams,
        7
    );
}

#[test]
fn yes_no_values_are_case_sensitive_and_unambiguous() {
    assert_eq!(parse_yes_no("Cover service", "yes"), Ok(true));
    assert_eq!(parse_yes_no("Cover service", "n"), Ok(false));
    assert!(parse_yes_no("Cover service", "true").is_err());
    assert!(parse_yes_no("Cover service", "YES").is_err());
}

#[test]
fn numbered_choices_map_to_zero_based_actions() {
    assert_eq!(parse_choice("Certificate", 3, "1"), Ok(0));
    assert_eq!(parse_choice("Certificate", 3, "3"), Ok(2));
    assert!(parse_choice("Certificate", 3, "0").is_err());
    assert!(parse_choice("Certificate", 3, "4").is_err());
}

#[test]
fn prompts_fall_back_to_their_defaults() {
    assert_eq!(prompt_default("  ", "relay.toml"), "relay.toml");
    assert_eq!(prompt_default(" value ", "relay.toml"), "value");
    assert_eq!(prompt_required("Domain", "", Some("example.com")), Ok("example.com".to_string()));
    assert!(prompt_required("Domain", "   ", None).is_err());
}

fn credential(id: u64, name: Option<&str>) -> velum::settings::CredentialConfig {
    velum::settings::CredentialConfig {
        id,
        name: name.map(str::to_string),
        secret_file: format!("/srv/relay/credentials/{id}.hex"),
    }
}

#[test]
fn issuing_takes_the_next_principal_after_the_largest() {
    let credentials = vec![credential(3, Some("laptop")), credential(7, None)];
    assert_eq!(plan_issue(&credentials, &vec![32, 32], "phone"), Ok(8));
    assert!(plan_issue(&credentials, &vec![32, 32], "laptop").is_err());
    assert!(plan_issue(&credentials, &vec![32, 16], "phone").is_err());
    assert!(plan_issue(&credentials, &vec![32, 32], "").is_err());
    assert_eq!(plan_issue(&vec![], &vec![], "phone"), Ok(1));
    assert!(plan_issue(&vec![credential(u64::MAX, None)], &vec![32], "phone").is_err());
    assert_eq!(secret_file_name("Alice's Phone", 8), "alice-s-phone-8.hex");
    assert_eq!(relay_node_id(8), "relay-8");
}

#[test]
fn revocation_never_removes_the_last_credential() {
    let credentials = vec![credential(3, Some("laptop")), credential(7, Some("phone"))];
    assert_eq!(revoke_position(&credentials, &RevokeSelector::Id(7)), Ok(1));
    assert_eq!(revoke_position(&credentials, &RevokeSelector::Name("laptop".into())), Ok(0));
    assert!(revoke_position(&credentials, &RevokeSelector::Id(9)).is_err());
    assert!(revoke_position(&credentials[..1].to_vec(), &RevokeSelector::Id(3)).is_err());
}

#[test]
fn issue_options_need_one_delivery_and_a_reachable_relay() {
    let relay = SocketAddress { ip: IpAddress::V4([203, 0, 113, 10]), port: 443 };
    let read = |arguments: &[&str]| -> Vec<Option<SocketAddress>> {
        arguments
            .iter()
            .map(|argument| match *argument {
                "203.0.113.10:443" => Some(relay),
                "0.0.0.0:443" => Some(SocketAddress { ip: IpAddress::V4([0, 0, 0, 0]), port: 443 }),
                _ => None,
            })
            .collect()
    };
    let arguments = ["--name", "phone", "--relay", "203.0.113.10:443", "--server-name", "relay.example.com", "--qr", "--trust", "custom-ca"];
    let options = issue_options(&args(&arguments), &read(&arguments)).expect("options");
    assert_eq!(options.client_name, "phone");
    assert_eq!(options.relay_address, relay);
    assert!(options.custom_ca);
    assert_eq!(options.delivery, IssueDelivery::Qr);
    let both = ["--name", "p", "--relay", "203.0.113.10:443", "--server-name", "s", "--qr", "--output", "p.enroll"];
    assert!(issue_options(&args(&both), &read(&both)).is_err());
    let unspecified = ["--name", "p", "--relay", "0.0.0.0:443", "--server-name", "s", "--qr"];
    assert!(issue_options(&args(&unspecified), &read(&unspecified)).is_err());
    let missing = ["--name", "p", "--relay", "203.0.113.10:443", "--qr"];
    assert!(issue_options(&args(&missing), &read(&missing)).is_err());
    let trust = ["--trust", "maybe"];
    assert!(issue_options(&args(&trust), &read(&trust)).is_err());
}

#[test]
fn revoke_options_take_exactly_one_selector() {
    let options = revoke_options(&args(&["--id", "7", "--config", "relay.toml"])).expect("options");
    assert_eq!(options.selector, RevokeSelector::Id(7));
    assert_eq!(options.config_path.as_deref(), Some("relay.toml"));
    assert_eq!(
        revoke_options(&args(&["--name", "phone"])).expect("options").selector,
        RevokeSelector::Name("phone".into())
    );
    assert!(revoke_options(&args(&["--id", "x"])).is_err());
    assert!(revoke_options(&args(&["--id", "1", "--name", "phone"])).is_err());
    assert!(revoke_options(&args(&[])).is_err());
}

#[test]
fn refused_console_answers_name_the_prompt() {
    assert_eq!(
        parse_choice("Certificate", 3, "4"),
        Err("Certificate must be a number from 1 to 3".to_string())
    );
    assert_eq!(
        velum::console::prompt_choice("Certificate", 12, " x "),
        Err("Certificate must be a number from 1 to 12".to_string())
    );
    assert_eq!(parse_yes_no("Cover service", "YES"), Err("Cover service must be yes or no".to_string()));
    assert_eq!(
        velum::console::prompt_yes_no("Cover service", "true\n", true),
        Err("Cover service must be yes or no".to_string())
    );
    assert_eq!(velum::console::prompt_yes_no("Cover service", "  \n", false), Ok(false));
    assert_eq!(
        velum::console::prompt_positive_u64("Cover timeout", "0", 5),
        Err("Cover timeout must be a positive integer".to_string())
    );
    assert_eq!(
        prompt_required("Client device name", " ", None),
        Err("Client device name must not be empty".to_string())
    );
}

#[test]
fn refused_issues_and_revocations_say_why() {
    let credentials = vec![credential(3, Some("laptop")), credential(7, None)];
    assert_eq!(
        plan_issue(&credentials, &vec![32, 16], "phone"),
        Err("credential 7 is not 32 bytes; rotate legacy credentials before issuing an enrollment".to_string())
    );
    assert_eq!(
        plan_issue(&credentials, &vec![32, 32], "laptop"),
        Err("client laptop is already configured".to_string())
    );
    assert_eq!(
        plan_issue(&credentials, &vec![32, 32], ""),
        Err("client name must contain 1 to 64 printable characters".to_string())
    );
    assert_eq!(
        plan_issue(&vec![credential(u64::MAX, None)], &vec![32], "phone"),
        Err("principal id space is exhausted".to_string())
    );
    assert_eq!(
        revoke_position(&vec![credential(1, None)], &RevokeSelector::Id(1)),
        Err("cannot revoke the final configured credential".to_string())
    );
    assert_eq!(
        revoke_position(&credentials, &RevokeSelector::Id(9)),
        Err("client credential was not found".to_string())
    );
}

#[test]
fn the_console_menu_takes_only_an_entry_numeral() {
    assert_eq!(parse_menu_entry("1", 13), Some(0));
    assert_eq!(parse_menu_entry("13", 13), Some(12));
    assert_eq!(parse_menu_entry("01", 13), None);
    assert_eq!(parse_menu_entry("+3", 13), None);
    assert_eq!(parse_menu_entry("14", 13), None);
    assert_eq!(parse_menu_entry("0", 13), None);
    assert_eq!(parse_menu_entry("quit", 13), None);
}

#[test]
fn relay_limits_become_the_relay_configuration_with_exact_timeouts() {
    let limits = velum::settings::Limits {
        max_sessions: 4,
        max_flows_per_session: 8,
        max_connections: 16,
        max_streams_per_connection: 32,
        connect_timeout_secs: 5,
        control_timeout_secs: u64::MAX,
        shutdown_timeout_secs: 30,
    };
    let (relay, quota) = velum::settings::relay_settings(&limits).expect("limits");
    assert_eq!(relay.connect_timeout, 5_000);
    assert_eq!(relay.control_timeout, u64::MAX as u128 * 1000);
    assert_eq!(relay.shutdown_timeout, 30_000);
    assert_eq!(relay.max_connections, 16);
    assert_eq!(quota.max_sessions, 4);
    assert_eq!(quota.max_flows_per_session, 8);
    let zero = velum::settings::Limits { connect_timeout_secs: 0, ..limits };
    assert!(matches!(
        velum::settings::relay_settings(&zero),
        Err(velum::settings::SettingsError::ZeroConnectTimeout)
    ));
}

#[test]
fn the_cover_service_setting_is_a_reverse_proxy_with_positive_timeouts() {
    let upstream = SocketAddress { ip: IpAddress::V4([127, 0, 0, 1]), port: 8080 };
    let cover = velum::settings::cover_settings(upstream, 5, 7).expect("cover");
    assert_eq!(cover.schema_version, 1);
    assert_eq!(cover.mode, CoverServiceMode::ReverseProxy { upstream });
    assert_eq!(cover.request_head_timeout, 5_000_000_000);
    assert_eq!(cover.upstream_timeout, 7_000_000_000);
    assert_eq!(
        velum::settings::cover_settings(upstream, 5, 0),
        Err(CoverConfigError::ZeroUpstreamTimeout)
    );
    assert_eq!(
        velum::settings::cover_settings(upstream, 0, 7),
        Err(CoverConfigError::ZeroRequestHeadTimeout)
    );
}
