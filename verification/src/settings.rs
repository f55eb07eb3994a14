//! The relay node's versioned configuration: its structure, the limits it
//! sets, and how a credential secret file is decoded. Reading and writing
//! the file, and the paths and sockets it names, are the application's.
use vstd::prelude::*;

use crate::forest::{CoverConfigError, CoverServiceConfig, CoverServiceMode};
use crate::net::SocketAddress;
use crate::node::{spec_relay_config_error, QuicRelayConfig, MAX_SECRET_BYTES};
use crate::server::PrincipalQuota;
use vstd::string::StringSliceAdditionalSpecFns;

verus! {

/// The configuration format this node reads and writes.
pub const CONFIG_VERSION: u16 = 1;

/// The operator's configuration file.
#[derive(Clone, Debug)]
pub struct Config {
    pub version: u16,
    pub listener: ListenerConfig,
    pub admin: AdminConfig,
    pub credentials: Vec<CredentialConfig>,
    pub allowed_targets: Vec<String>,
    pub limits: Limits,
    pub acme: Option<AcmeConfig>,
}

/// Where the relay listens and its TLS material.
#[derive(Clone, Debug)]
pub struct ListenerConfig {
    pub bind: String,
    pub certificate: String,
    pub private_key: String,
}

/// The local administration socket.
#[derive(Clone, Debug)]
pub struct AdminConfig {
    pub socket: String,
}

/// One client credential: its principal and its secret file.
#[derive(Clone, Debug)]
pub struct CredentialConfig {
    pub id: u64,
    pub name: Option<String>,
    pub secret_file: String,
}

/// Relay limits, timeouts in seconds.
#[derive(Clone, Copy, Debug, PartialEq, Eq, Structural)]
pub struct Limits {
    pub max_sessions: usize,
    pub max_flows_per_session: usize,
    pub max_connections: usize,
    pub max_streams_per_connection: usize,
    pub connect_timeout_secs: u64,
    pub control_timeout_secs: u64,
    pub shutdown_timeout_secs: u64,
}

/// Non-secret ACME policy; DNS-provider credentials never enter the file.
#[derive(Clone, Debug)]
pub struct AcmeConfig {
    pub email: String,
    pub domains: Vec<String>,
    pub dns_provider: String,
    pub directory_url: String,
    pub state_dir: String,
    pub renew_before_days: u16,
}

/// Why a configuration cannot be loaded, before any file it names is read.
#[derive(Clone, Copy, Debug, PartialEq, Eq, Structural)]
pub enum SettingsError {
    UnsupportedVersion,
    NoCredentials,
    NoAllowedTargets,
    ZeroConnectTimeout,
    ZeroControlTimeout,
    ZeroShutdownTimeout,
    ZeroConnectionLimit,
    ZeroStreamLimit,
    InvalidRelayLimits,
    ZeroSessionLimit,
    ZeroFlowLimit,
}

/// Accepts only the supported configuration version.
pub fn check_version(config: &Config) -> (checked: Result<(), SettingsError>)
    ensures
        checked is Ok <==> config.version == CONFIG_VERSION,
        checked matches Err(e) ==> e == SettingsError::UnsupportedVersion,
{
    if config.version != CONFIG_VERSION {
        return Err(SettingsError::UnsupportedVersion);
    }
    Ok(())
}

/// Requires at least one credential, then at least one allowed target.
pub fn check_entries(config: &Config) -> (checked: Result<(), SettingsError>)
    ensures
        config.credentials@.len() == 0 ==> checked == Err::<(), SettingsError>(
            SettingsError::NoCredentials,
        ),
        config.credentials@.len() > 0 && config.allowed_targets@.len() == 0 ==> checked == Err::<
            (),
            SettingsError,
        >(SettingsError::NoAllowedTargets),
        config.credentials@.len() > 0 && config.allowed_targets@.len() > 0 ==> checked is Ok,
{
    if config.credentials.len() == 0 {
        return Err(SettingsError::NoCredentials);
    }
    if config.allowed_targets.len() == 0 {
        return Err(SettingsError::NoAllowedTargets);
    }
    Ok(())
}

/// Seconds as milliseconds.
pub open spec fn seconds_to_millis(seconds: u64) -> u128 {
    (seconds * 1000) as u128
}

/// The relay configuration that `limits` sets, with the largest control
/// record that a credential of the maximal size allows.
pub open spec fn relay_config_of(limits: Limits) -> QuicRelayConfig {
    QuicRelayConfig {
        schema_version: 1,
        connect_timeout: seconds_to_millis(limits.connect_timeout_secs),
        control_timeout: seconds_to_millis(limits.control_timeout_secs),
        shutdown_timeout: seconds_to_millis(limits.shutdown_timeout_secs),
        max_control_bytes: 192,
        max_connections: limits.max_connections,
        max_streams_per_connection: limits.max_streams_per_connection,
    }
}

/// The first limit that is zero or that the relay refuses, if any.
pub open spec fn limits_error(limits: Limits) -> Option<SettingsError> {
    if limits.connect_timeout_secs == 0 {
        Some(SettingsError::ZeroConnectTimeout)
    } else if limits.control_timeout_secs == 0 {
        Some(SettingsError::ZeroControlTimeout)
    } else if limits.shutdown_timeout_secs == 0 {
        Some(SettingsError::ZeroShutdownTimeout)
    } else if limits.max_connections == 0 {
        Some(SettingsError::ZeroConnectionLimit)
    } else if limits.max_streams_per_connection == 0 {
        Some(SettingsError::ZeroStreamLimit)
    } else if spec_relay_config_error(relay_config_of(limits)) is Some {
        Some(SettingsError::InvalidRelayLimits)
    } else if limits.max_sessions == 0 {
        Some(SettingsError::ZeroSessionLimit)
    } else if limits.max_flows_per_session == 0 {
        Some(SettingsError::ZeroFlowLimit)
    } else {
        None
    }
}

fn millis(seconds: u64) -> (ms: u128)
    ensures
        ms == seconds_to_millis(seconds),
{
    (seconds as u128) * 1000
}

/// Seconds as nanoseconds.
pub open spec fn seconds_to_nanos(seconds: u64) -> u128 {
    (seconds * 1_000_000_000) as u128
}

/// The node's optional cover service: a reverse proxy to `upstream` with
/// the request-head and upstream timeouts given in seconds; refused, as
/// `CoverServiceConfig::validate` refuses it, when a timeout is zero.
pub fn cover_settings(upstream: SocketAddress, request_head_timeout_secs: u64, upstream_timeout_secs: u64) -> (cover: Result<CoverServiceConfig, CoverConfigError>)
    ensures
        upstream_timeout_secs == 0 ==> cover == Err::<CoverServiceConfig, CoverConfigError>(
            CoverConfigError::ZeroUpstreamTimeout,
        ),
        upstream_timeout_secs != 0 && request_head_timeout_secs == 0 ==> cover == Err::<
            CoverServiceConfig,
            CoverConfigError,
        >(CoverConfigError::ZeroRequestHeadTimeout),
        upstream_timeout_secs != 0 && request_head_timeout_secs != 0 ==> (cover matches Ok(c)
            && c == (CoverServiceConfig {
            schema_version: 1,
            mode: CoverServiceMode::ReverseProxy { upstream },
            request_head_timeout: seconds_to_nanos(request_head_timeout_secs),
            upstream_timeout: seconds_to_nanos(upstream_timeout_secs),
        })),
{
    let cover = CoverServiceConfig {
        schema_version: 1,
        mode: CoverServiceMode::ReverseProxy { upstream },
        request_head_timeout: (request_head_timeout_secs as u128) * 1_000_000_000,
        upstream_timeout: (upstream_timeout_secs as u128) * 1_000_000_000,
    };
    match cover.validate() {
        Ok(()) => Ok(cover),
        Err(e) => Err(e),
    }
}

/// The relay configuration and per-principal quota that `limits` sets;
/// every limit and timeout must be positive and the relay must accept the
/// result.
pub fn relay_settings(limits: &Limits) -> (settings: Result<(QuicRelayConfig, PrincipalQuota), SettingsError>)
    ensures
        match limits_error(*limits) {
            Some(e) => settings == Err::<(QuicRelayConfig, PrincipalQuota), SettingsError>(e),
            None => settings matches Ok((relay, quota)) && relay == relay_config_of(*limits)
                && quota.max_sessions == limits.max_sessions && quota.max_flows_per_session
                == limits.max_flows_per_session,
        },
{
    if limits.connect_timeout_secs == 0 {
        return Err(SettingsError::ZeroConnectTimeout);
    }
    if limits.control_timeout_secs == 0 {
        return Err(SettingsError::ZeroControlTimeout);
    }
    if limits.shutdown_timeout_secs == 0 {
        return Err(SettingsError::ZeroShutdownTimeout);
    }
    if limits.max_connections == 0 {
        return Err(SettingsError::ZeroConnectionLimit);
    }
    if limits.max_streams_per_connection == 0 {
        return Err(SettingsError::ZeroStreamLimit);
    }
    let relay = QuicRelayConfig {
        schema_version: 1,
        connect_timeout: millis(limits.connect_timeout_secs),
        control_timeout: millis(limits.control_timeout_secs),
        shutdown_timeout: millis(limits.shutdown_timeout_secs),
        max_control_bytes: 192,
        max_connections: limits.max_connections,
        max_streams_per_connection: limits.max_streams_per_connection,
    };
    match relay.validate() {
        Ok(()) => {},
        Err(_) => return Err(SettingsError::InvalidRelayLimits),
    }
    if limits.max_sessions == 0 {
        return Err(SettingsError::ZeroSessionLimit);
    }
    if limits.max_flows_per_session == 0 {
        return Err(SettingsError::ZeroFlowLimit);
    }
    Ok(
        (
            relay,
            PrincipalQuota {
                max_sessions: limits.max_sessions,
                max_flows_per_session: limits.max_flows_per_session,
            },
        ),
    )
}

/// Whether `b` is an ASCII hexadecimal digit.
pub open spec fn is_hex_byte(b: u8) -> bool {
    (0x30 <= b <= 0x39) || (0x41 <= b <= 0x46) || (0x61 <= b <= 0x66)
}

/// The value of a hexadecimal digit.
pub open spec fn hex_byte_value(b: u8) -> int {
    if b <= 0x39 {
        b - 0x30
    } else if b <= 0x46 {
        b - 0x41 + 10
    } else {
        b - 0x61 + 10
    }
}

/// The octet that one pair of characters encodes, as `u8::from_str_radix`
/// reads it in base 16: two hexadecimal digits, or a `+` and one digit.
pub open spec fn hex_pair(b0: u8, b1: u8) -> Option<u8> {
    if b0 == 0x2b && is_hex_byte(b1) {
        Some(hex_byte_value(b1) as u8)
    } else if is_hex_byte(b0) && is_hex_byte(b1) {
        Some((16 * hex_byte_value(b0) + hex_byte_value(b1)) as u8)
    } else {
        None
    }
}

/// Whether two octets form UTF-8 text on their own: two ASCII characters or
/// one two-octet character.
pub open spec fn pair_is_text(b0: u8, b1: u8) -> bool {
    (b0 < 0x80 && b1 < 0x80) || (0xc2 <= b0 <= 0xdf && 0x80 <= b1 <= 0xbf)
}

/// Whether a secret's text has an acceptable length: 1 to 128 octets of
/// secret, two characters each.
pub open spec fn secret_length_ok(text: Seq<u8>) -> bool {
    text.len() > 0 && text.len() % 2 == 0 && text.len() / 2 <= MAX_SECRET_BYTES
}

/// Whether every pair before pair `k` encodes an octet.
pub open spec fn pairs_decode_before(text: Seq<u8>, k: int) -> bool {
    forall|j: int| 0 <= j < k ==> #[trigger] hex_pair(text[2 * j], text[2 * j + 1]) is Some
}

/// Decodes a credential secret written as hexadecimal text.
#[verifier::loop_isolation(false)]
pub fn decode_secret(value: &str) -> (secret: Result<Vec<u8>, String>)
    requires
        secret_length_ok(value.spec_bytes()) ==> forall|k: int|
            0 <= k < value.spec_bytes().len() / 2 && pairs_decode_before(value.spec_bytes(), k)
                ==> pair_is_text(value.spec_bytes()[2 * k], value.spec_bytes()[2 * k + 1]),
    ensures
        secret is Ok <==> secret_length_ok(value.spec_bytes()) && pairs_decode_before(
            value.spec_bytes(),
            (value.spec_bytes().len() / 2) as int,
        ),
        secret matches Ok(s) ==> s@.len() == value.spec_bytes().len() / 2 && forall|j: int|
            0 <= j < s@.len() ==> Some(#[trigger] s@[j]) == hex_pair(
                value.spec_bytes()[2 * j],
                value.spec_bytes()[2 * j + 1],
            ),
{
    let bytes = value.as_bytes();
    let n = bytes.len();
    if n == 0 || n % 2 != 0 || n / 2 > MAX_SECRET_BYTES {
        return Err(
            String::from_str("credential secret must contain 1 to 128 bytes of hexadecimal data"),
        );
    }
    let mut secret: Vec<u8> = Vec::new();
    let mut k: usize = 0;
    while k < n / 2
        invariant
            k <= n / 2,
            n == bytes@.len(),
            bytes@ == value.spec_bytes(),
            secret@.len() == k,
            pairs_decode_before(bytes@, k as int),
            forall|j: int| 0 <= j < k ==> Some(#[trigger] secret@[j]) == hex_pair(bytes@[2 * j], bytes@[2 * j + 1]),
        decreases n / 2 - k,
    {
        let b0 = bytes[2 * k];
        let b1 = bytes[2 * k + 1];
        let low_ok = (0x30 <= b1 && b1 <= 0x39) || (0x41 <= b1 && b1 <= 0x46) || (0x61 <= b1 && b1
            <= 0x66);
        let high_ok = (0x30 <= b0 && b0 <= 0x39) || (0x41 <= b0 && b0 <= 0x46) || (0x61 <= b0 && b0
            <= 0x66);
        if !low_ok || (!high_ok && b0 != 0x2b) {
            assert(hex_pair(bytes@[2 * k as int], bytes@[2 * k + 1]) is None);
            return Err(String::from_str("credential secret must be hexadecimal"));
        }
        let low: u8 = if b1 <= 0x39 {
            b1 - 0x30
        } else if b1 <= 0x46 {
            b1 - 0x41 + 10
        } else {
            b1 - 0x61 + 10
        };
        let octet: u8 = if b0 == 0x2b {
            low
        } else {
            let high: u8 = if b0 <= 0x39 {
                b0 - 0x30
            } else if b0 <= 0x46 {
                b0 - 0x41 + 10
            } else {
                b0 - 0x61 + 10
            };
            high * 16 + low
        };
        assert(hex_pair(bytes@[2 * k as int], bytes@[2 * k + 1]) == Some(octet));
        secret.push(octet);
        k = k + 1;
    }
    Ok(secret)
}

} // verus!
