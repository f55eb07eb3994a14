//! Relay node decisions: listener limits, per-connection admission and the
//! control record that opens one relayed flow.
use vstd::prelude::*;
use crate::bytes::{be16, copy_range, from_be16, push_all, push_u16, read_u16};
use crate::carrier::QuicTransportProfile;
use crate::operator::{decimal_chars, push_decimal};
use crate::routing::str_equal;
use crate::text::{trim, trim_whitespace, utf8_text};
use crate::server::{
    spec_authenticate, spec_has_session, spec_session_at, spec_session_count, AdmissionControl,
    AdmissionError, Authenticator, PrincipalId, SessionLease, SessionUsage,
};

verus! {

/// Largest credential a control record may carry.
pub const MAX_SECRET_BYTES: usize = 128;

/// Two big-endian lengths: secret, then target.
pub const HEADER_BYTES: usize = 4;

/// Versioned configuration for the QUIC listener. Durations are in
/// milliseconds, wide enough to hold any whole number of seconds that fits a
/// `u64`. Secrets and certificates are supplied out of band.
#[derive(Clone, Debug, PartialEq, Eq, Structural)]
pub struct QuicRelayConfig {
    pub schema_version: u16,
    pub connect_timeout: u128,
    pub control_timeout: u128,
    pub shutdown_timeout: u128,
    pub max_control_bytes: usize,
    pub max_connections: usize,
    pub max_streams_per_connection: usize,
}

impl Default for QuicRelayConfig {
    fn default() -> (config: Self)
        ensures
            config == (QuicRelayConfig {
                schema_version: 1,
                connect_timeout: 5_000,
                control_timeout: 5_000,
                shutdown_timeout: 5_000,
                max_control_bytes: 192,
                max_connections: 1_024,
                max_streams_per_connection: 64,
            }),
    {
        QuicRelayConfig {
            schema_version: 1,
            connect_timeout: 5_000,
            control_timeout: 5_000,
            shutdown_timeout: 5_000,
            max_control_bytes: MAX_SECRET_BYTES + 64,
            max_connections: 1_024,
            max_streams_per_connection: 64,
        }
    }
}

#[derive(Clone, Copy, Debug, PartialEq, Eq, Structural)]
pub enum ConfigError {
    UnsupportedSchema,
    ZeroConnectTimeout,
    ZeroControlTimeout,
    ZeroShutdownTimeout,
    ControlLimitTooSmall,
    ZeroConnectionLimit,
    ZeroStreamLimit,
    StreamLimitTooLarge,
}

/// The smallest control record: a header, a one-byte secret and the longest
/// textual socket address `[::1]:65535`.
pub open spec fn min_control_bytes() -> usize {
    16
}

/// The first rule a relay configuration breaks, if any.
pub open spec fn spec_relay_config_error(c: QuicRelayConfig) -> Option<ConfigError> {
    if c.schema_version != 1 {
        Some(ConfigError::UnsupportedSchema)
    } else if c.connect_timeout == 0 {
        Some(ConfigError::ZeroConnectTimeout)
    } else if c.control_timeout == 0 {
        Some(ConfigError::ZeroControlTimeout)
    } else if c.shutdown_timeout == 0 {
        Some(ConfigError::ZeroShutdownTimeout)
    } else if c.max_control_bytes < min_control_bytes() {
        Some(ConfigError::ControlLimitTooSmall)
    } else if c.max_connections == 0 {
        Some(ConfigError::ZeroConnectionLimit)
    } else if c.max_streams_per_connection == 0 {
        Some(ConfigError::ZeroStreamLimit)
    } else {
        None
    }
}

impl QuicRelayConfig {
    /// Accepts a supported, bounded configuration; reports the first rule
    /// broken.
    pub fn validate(&self) -> (valid: Result<(), ConfigError>)
        ensures
            match spec_relay_config_error(*self) {
                None => valid is Ok,
                Some(e) => valid == Err::<(), ConfigError>(e),
            },
    {
        if self.schema_version != 1 {
            return Err(ConfigError::UnsupportedSchema);
        }
        if self.connect_timeout == 0 {
            return Err(ConfigError::ZeroConnectTimeout);
        }
        if self.control_timeout == 0 {
            return Err(ConfigError::ZeroControlTimeout);
        }
        if self.shutdown_timeout == 0 {
            return Err(ConfigError::ZeroShutdownTimeout);
        }
        if self.max_control_bytes < HEADER_BYTES + 1 + 11 {
            return Err(ConfigError::ControlLimitTooSmall);
        }
        if self.max_connections == 0 {
            return Err(ConfigError::ZeroConnectionLimit);
        }
        if self.max_streams_per_connection == 0 {
            return Err(ConfigError::ZeroStreamLimit);
        }
        Ok(())
    }

    /// The QUIC transport limits that bound a peer before listener dispatch:
    /// the default profile with the stream limit of this configuration.
    pub fn transport_profile(&self) -> (profile: Result<QuicTransportProfile, ConfigError>)
        ensures
            self.max_streams_per_connection <= u32::MAX ==> profile is Ok
                && profile->Ok_0.max_bidirectional_streams == self.max_streams_per_connection
                && profile->Ok_0.stream_receive_window == 256 * 1024
                && profile->Ok_0.connection_receive_window == 4 * 1024 * 1024
                && profile->Ok_0.send_window == 4 * 1024 * 1024
                && profile->Ok_0.idle_timeout == 30_000
                && profile->Ok_0.keep_alive_interval is None
                && profile->Ok_0.datagram_receive_buffer_bytes == 256 * 1024
                && profile->Ok_0.datagram_send_buffer_bytes == 256 * 1024,
            self.max_streams_per_connection > u32::MAX ==> profile == Err::<
                QuicTransportProfile,
                ConfigError,
            >(ConfigError::StreamLimitTooLarge),
    {
        if self.max_streams_per_connection > 4294967295usize {
            return Err(ConfigError::StreamLimitTooLarge);
        }
        let mut profile = QuicTransportProfile::default();
        profile.max_bidirectional_streams = self.max_streams_per_connection as u32;
        Ok(profile)
    }
}

/// Bounds for UDP associations relayed over QUIC datagrams. The idle timeout
/// is in milliseconds.
#[derive(Clone, Debug, PartialEq, Eq, Structural)]
pub struct DatagramRelayConfig {
    pub max_associations: usize,
    pub idle_timeout: u64,
    pub receive_buffer_bytes: usize,
}

impl Default for DatagramRelayConfig {
    fn default() -> (config: Self)
        ensures
            config == (DatagramRelayConfig {
                max_associations: 256,
                idle_timeout: 60_000,
                receive_buffer_bytes: 65536,
            }),
    {
        DatagramRelayConfig { max_associations: 256, idle_timeout: 60_000, receive_buffer_bytes: 64 * 1024 }
    }
}

#[derive(Clone, Copy, Debug, PartialEq, Eq, Structural)]
pub enum DatagramRelayConfigError {
    AssociationLimit,
    IdleTimeout,
    ReceiveBuffer,
}

#[derive(Clone, Copy, Debug, PartialEq, Eq, Structural)]
pub enum DatagramRelayError {
    Malformed,
    UnexpectedDirection,
    DestinationRejected,
    SessionTargetMismatch,
    AssociationLimit,
    Socket,
}

impl DatagramRelayConfig {
    /// Every limit must be positive; reports the first that is not.
    pub fn validate(&self) -> (valid: Result<(), DatagramRelayConfigError>)
        ensures
            self.max_associations == 0 ==> valid == Err::<(), DatagramRelayConfigError>(
                DatagramRelayConfigError::AssociationLimit,
            ),
            self.max_associations > 0 && self.idle_timeout == 0 ==> valid == Err::<
                (),
                DatagramRelayConfigError,
            >(DatagramRelayConfigError::IdleTimeout),
            self.max_associations > 0 && self.idle_timeout > 0 && self.receive_buffer_bytes == 0
                ==> valid == Err::<(), DatagramRelayConfigError>(
                DatagramRelayConfigError::ReceiveBuffer,
            ),
            valid is Ok <==> self.max_associations > 0 && self.idle_timeout > 0
                && self.receive_buffer_bytes > 0,
    {
        if self.max_associations == 0 {
            return Err(DatagramRelayConfigError::AssociationLimit);
        }
        if self.idle_timeout == 0 {
            return Err(DatagramRelayConfigError::IdleTimeout);
        }
        if self.receive_buffer_bytes == 0 {
            return Err(DatagramRelayConfigError::ReceiveBuffer);
        }
        Ok(())
    }
}

/// Failure classification intentionally omits credentials and destination data.
#[derive(Clone, Copy, Debug, PartialEq, Eq, Structural)]
pub enum RelayError {
    InvalidControl,
    AuthenticationRejected,
    DestinationRejected,
    SessionQuotaRejected,
    FlowQuotaRejected,
    ConnectFailed,
    Transport,
}

/// Payload-free lifecycle events of the relay.
#[derive(Clone, Copy, Debug, PartialEq, Eq, Structural)]
pub enum RelayEvent {
    ConnectionAccepted,
    ConnectionRejected,
    StreamRejected,
    ControlRejected,
    AuthenticationRejected,
    DestinationRejected,
    SessionQuotaRejected,
    FlowQuotaRejected,
    ConnectFailed,
    FlowRelayed,
    ShutdownStarted,
}

/// Export boundary for payload-free lifecycle events.
pub trait RelayObserver {
    fn record(&self, event: RelayEvent);
}

/// An observer that discards every event.
#[derive(Clone, Copy, Debug, Default)]
pub struct NoopRelayObserver;

impl RelayObserver for NoopRelayObserver {
    fn record(&self, event: RelayEvent) {
    }
}

/// Operator commands delivered over the local admin socket.
#[derive(Clone, Copy, Debug, PartialEq, Eq, Structural)]
pub enum Control {
    Drain,
    Reload,
    Shutdown,
}

/// Live counters reported by the admin socket. Closing more than was opened
/// wraps, as the underlying counters do.
#[derive(Debug, Default)]
pub struct RuntimeStatus {
    pub phase: u8,
    pub connections: usize,
    pub flows: usize,
}

impl RuntimeStatus {
    pub fn connection_opened(&mut self)
        ensures
            final(self).connections == if old(self).connections == usize::MAX {
                0
            } else {
                old(self).connections + 1
            },
            final(self).flows == old(self).flows,
            final(self).phase == old(self).phase,
    {
        self.connections = self.connections.wrapping_add(1);
    }

    pub fn connection_closed(&mut self)
        ensures
            final(self).connections == if old(self).connections == 0 {
                usize::MAX as int
            } else {
                old(self).connections - 1
            },
            final(self).flows == old(self).flows,
            final(self).phase == old(self).phase,
    {
        self.connections = self.connections.wrapping_sub(1);
    }

    pub fn flow_opened(&mut self)
        ensures
            final(self).flows == if old(self).flows == usize::MAX {
                0
            } else {
                old(self).flows + 1
            },
            final(self).connections == old(self).connections,
            final(self).phase == old(self).phase,
    {
        self.flows = self.flows.wrapping_add(1);
    }

    pub fn flow_closed(&mut self)
        ensures
            final(self).flows == if old(self).flows == 0 {
                usize::MAX as int
            } else {
                old(self).flows - 1
            },
            final(self).connections == old(self).connections,
            final(self).phase == old(self).phase,
    {
        self.flows = self.flows.wrapping_sub(1);
    }
}

/// Phase of a serving relay: accepting work.
pub const RUNNING: u8 = 0;

/// Phase of a serving relay: finishing work without taking more.
pub const DRAINING: u8 = 1;

/// Phase of a serving relay: shutting down.
pub const STOPPING: u8 = 2;

/// The word a status report gives a phase; an unknown phase reads as running.
pub open spec fn phase_name(phase: u8) -> Seq<char> {
    if phase == DRAINING {
        "draining"@
    } else if phase == STOPPING {
        "stopping"@
    } else {
        "running"@
    }
}

/// The status report: one field per line, or one JSON object on one line.
/// The listener text goes in as it is.
pub open spec fn status_text(
    phase: u8,
    bind: Seq<char>,
    uptime_secs: u64,
    connections: usize,
    flows: usize,
    json: bool,
) -> Seq<char> {
    if json {
        "{\"state\":\""@ + phase_name(phase) + "\",\"listener\":\""@ + bind + "\",\"uptime_secs\":"@
            + decimal_chars(uptime_secs as nat) + ",\"connections\":"@ + decimal_chars(
            connections as nat,
        ) + ",\"flows\":"@ + decimal_chars(flows as nat) + "}\n"@
    } else {
        phase_name(phase) + "\nlistener="@ + bind + "\nuptime_secs="@ + decimal_chars(
            uptime_secs as nat,
        ) + "\nconnections="@ + decimal_chars(connections as nat) + "\nflows="@ + decimal_chars(
            flows as nat,
        ) + "\n"@
    }
}

impl RuntimeStatus {
    pub fn set_phase(&mut self, phase: u8)
        ensures
            final(self).phase == phase,
            final(self).connections == old(self).connections,
            final(self).flows == old(self).flows,
    {
        self.phase = phase;
    }

    /// The status report of a relay listening on `bind` for `uptime_secs`.
    pub fn render(&self, bind: &str, uptime_secs: u64, json: bool) -> (report: String)
        ensures
            report@ == status_text(self.phase, bind@, uptime_secs, self.connections, self.flows, json),
    {
        let mut report = String::new();
        if json {
            report.append("{\"state\":\"");
        }
        if self.phase == DRAINING {
            report.append("draining");
        } else if self.phase == STOPPING {
            report.append("stopping");
        } else {
            report.append("running");
        }
        if json {
            report.append("\",\"listener\":\"");
            report.append(bind);
            report.append("\",\"uptime_secs\":");
            push_decimal(&mut report, uptime_secs);
            report.append(",\"connections\":");
            push_decimal(&mut report, self.connections as u64);
            report.append(",\"flows\":");
            push_decimal(&mut report, self.flows as u64);
            report.append("}\n");
        } else {
            report.append("\nlistener=");
            report.append(bind);
            report.append("\nuptime_secs=");
            push_decimal(&mut report, uptime_secs);
            report.append("\nconnections=");
            push_decimal(&mut report, self.connections as u64);
            report.append("\nflows=");
            push_decimal(&mut report, self.flows as u64);
            report.append("\n");
        }
        report
    }
}

/// A request on the local administration socket.
#[derive(Clone, Copy, Debug, PartialEq, Eq, Structural)]
pub enum AdminRequest {
    Status,
    StatusJson,
    Drain,
    Reload,
    Shutdown,
    Unknown,
}

/// What the trimmed text of a request asks for.
pub open spec fn admin_request_of(text: Seq<char>) -> AdminRequest {
    if text == "status"@ {
        AdminRequest::Status
    } else if text == "status json"@ {
        AdminRequest::StatusJson
    } else if text == "drain"@ {
        AdminRequest::Drain
    } else if text == "reload"@ {
        AdminRequest::Reload
    } else if text == "shutdown"@ {
        AdminRequest::Shutdown
    } else {
        AdminRequest::Unknown
    }
}

/// Reads one administration request from the bytes received: their text
/// without surrounding whitespace; bytes that are not UTF-8 read as nothing.
pub fn admin_request(received: &[u8]) -> (request: AdminRequest)
    ensures
        request == admin_request_of(
            if vstd::utf8::valid_utf8(received@) {
                trim_whitespace(vstd::utf8::decode_utf8(received@))
            } else {
                Seq::<char>::empty()
            },
        ),
{
    let text = match utf8_text(received) {
        Some(t) => {
            proof {
                vstd::utf8::encode_utf8_decode_utf8(t@);
            }
            t
        },
        None => {
            proof {
                reveal_strlit("");
                assert(""@ =~= Seq::<char>::empty());
            }
            ""
        },
    };
    let trimmed = trim(text);
    proof {
        if !vstd::utf8::valid_utf8(received@) {
            assert(trim_whitespace(Seq::<char>::empty()) =~= Seq::<char>::empty());
        }
    }
    if str_equal(trimmed, "status") {
        AdminRequest::Status
    } else if str_equal(trimmed, "status json") {
        AdminRequest::StatusJson
    } else if str_equal(trimmed, "drain") {
        AdminRequest::Drain
    } else if str_equal(trimmed, "reload") {
        AdminRequest::Reload
    } else if str_equal(trimmed, "shutdown") {
        AdminRequest::Shutdown
    } else {
        AdminRequest::Unknown
    }
}

/// The principal and session lease that one connection has been admitted as.
#[derive(Clone, Copy, Debug, PartialEq, Eq, Structural)]
pub struct AdmittedSession {
    pub principal: PrincipalId,
    pub lease: SessionLease,
}

/// Admission state shared by all streams on one QUIC connection.
///
/// Each stream still authenticates, but successful streams must resolve to
/// the same principal and consume one connection-owned session lease. This
/// keeps session and flow quotas semantically distinct.
#[derive(Debug, Default)]
pub struct ConnectionAdmission {
    pub session: Option<AdmittedSession>,
}

/// Relay classification of an admission error when opening a session.
pub open spec fn session_error(e: AdmissionError) -> RelayError {
    if e == AdmissionError::SessionQuotaExceeded {
        RelayError::SessionQuotaRejected
    } else {
        RelayError::Transport
    }
}

/// Relay classification of an admission error when opening a flow.
pub open spec fn flow_error(e: AdmissionError) -> RelayError {
    if e == AdmissionError::FlowQuotaExceeded {
        RelayError::FlowQuotaRejected
    } else {
        RelayError::Transport
    }
}

fn open_session(quotas: &mut AdmissionControl, principal: PrincipalId) -> (lease: Result<
    SessionLease,
    RelayError,
>)
    requires
        old(quotas).wf(),
        old(quotas).spec_next_lease() < u64::MAX,
    ensures
        final(quotas).wf(),
        final(quotas).spec_quota() == old(quotas).spec_quota(),
        spec_session_count(old(quotas).spec_sessions(), principal.0) >= old(quotas).spec_quota().max_sessions
            ==> lease == Err::<SessionLease, RelayError>(RelayError::SessionQuotaRejected)
            && final(quotas).spec_sessions() == old(quotas).spec_sessions()
            && final(quotas).spec_next_lease() == old(quotas).spec_next_lease(),
        spec_session_count(old(quotas).spec_sessions(), principal.0) < old(quotas).spec_quota().max_sessions
            ==> lease is Ok && lease->Ok_0.spec_value() == old(quotas).spec_next_lease()
            && final(quotas).spec_sessions() == old(quotas).spec_sessions().push(
            SessionUsage { principal, lease: lease->Ok_0, flows: 0 },
        ) && final(quotas).spec_next_lease() == old(quotas).spec_next_lease() + 1,
{
    match quotas.open_session(principal) {
        Ok(lease) => Ok(lease),
        Err(AdmissionError::SessionQuotaExceeded) => Err(RelayError::SessionQuotaRejected),
        Err(_) => Err(RelayError::Transport),
    }
}

fn open_flow(quotas: &mut AdmissionControl, principal: PrincipalId, lease: SessionLease) -> (opened: Result<
    (),
    RelayError,
>)
    requires
        old(quotas).wf(),
    ensures
        final(quotas).wf(),
        final(quotas).spec_quota() == old(quotas).spec_quota(),
        final(quotas).spec_next_lease() == old(quotas).spec_next_lease(),
        !spec_has_session(old(quotas).spec_sessions(), principal.0, lease.spec_value()) ==> opened
            == Err::<(), RelayError>(RelayError::Transport) && final(quotas).spec_sessions()
            == old(quotas).spec_sessions(),
        forall|i: int| #[trigger]
            spec_session_at(old(quotas).spec_sessions(), principal.0, lease.spec_value(), i) ==> {
                let u = old(quotas).spec_sessions()[i];
                if u.flows >= old(quotas).spec_quota().max_flows_per_session {
                    opened == Err::<(), RelayError>(RelayError::FlowQuotaRejected)
                        && final(quotas).spec_sessions() == old(quotas).spec_sessions()
                } else {
                    opened is Ok && final(quotas).spec_sessions() == old(quotas).spec_sessions().update(
                        i,
                        SessionUsage { flows: (u.flows + 1) as usize, ..u },
                    )
                }
            },
{
    match quotas.open_flow(principal, lease) {
        Ok(()) => Ok(()),
        Err(AdmissionError::FlowQuotaExceeded) => Err(RelayError::FlowQuotaRejected),
        Err(_) => Err(RelayError::Transport),
    }
}

impl ConnectionAdmission {
    pub fn is_authenticated(&self) -> (authenticated: bool)
        ensures
            authenticated == self.session is Some,
    {
        self.session.is_some()
    }

    /// Reserves one flow for `principal` on this connection's session,
    /// opening the session on first use. A different principal is rejected;
    /// a failed first flow leaves no session behind.
    pub fn reserve_flow(&mut self, quotas: &mut AdmissionControl, principal: PrincipalId) -> (lease: Result<
        SessionLease,
        RelayError,
    >)
        requires
            old(quotas).wf(),
            old(quotas).spec_next_lease() < u64::MAX,
        ensures
            final(quotas).wf(),
            final(quotas).spec_quota() == old(quotas).spec_quota(),
            old(self).session matches Some(s) && s.principal != principal ==> lease == Err::<
                SessionLease,
                RelayError,
            >(RelayError::AuthenticationRejected) && final(self).session == old(self).session
                && final(quotas).spec_sessions() == old(quotas).spec_sessions(),
            old(self).session matches Some(s) ==> (s.principal == principal ==> final(self).session
                == old(self).session && (lease is Ok ==> lease->Ok_0 == s.lease)),
            old(self).session is None && lease is Ok ==> final(self).session == Some(
                AdmittedSession { principal, lease: lease->Ok_0 },
            ),
            old(self).session is None && lease is Err ==> final(self).session is None
                && final(quotas).spec_sessions() == old(quotas).spec_sessions(),
            lease is Ok ==> spec_has_session(
                final(quotas).spec_sessions(),
                principal.0,
                lease->Ok_0.spec_value(),
            ),
    {
        let (lease, created_session) = match self.session {
            Some(existing) => {
                if existing.principal.0 != principal.0 {
                    return Err(RelayError::AuthenticationRejected);
                }
                (existing.lease, false)
            },
            None => {
                let lease = open_session(quotas, principal)?;
                self.session = Some(AdmittedSession { principal, lease });
                (lease, true)
            },
        };
        let ghost mid = quotas.spec_sessions();
        proof {
            if created_session {
                assert(spec_session_at(mid, principal.0, lease.spec_value(), mid.len() - 1));
            }
        }
        match open_flow(quotas, principal, lease) {
            Ok(()) => {
                proof {
                    let i = choose|i: int| spec_session_at(mid, principal.0, lease.spec_value(), i);
                    if spec_has_session(mid, principal.0, lease.spec_value()) {
                        assert(spec_session_at(quotas.spec_sessions(), principal.0, lease.spec_value(), i));
                    }
                }
                Ok(lease)
            },
            Err(error) => {
                if created_session {
                    let _ = quotas.close_session(principal, lease);
                    self.session = None;
                    proof {
                        let last = mid.len() - 1;
                        assert(spec_session_at(mid, principal.0, lease.spec_value(), last));
                        assert(mid.remove(last) =~= mid.drop_last());
                    }
                }
                Err(error)
            },
        }
    }

    /// Authenticates one datagram credential and binds this connection to its
    /// principal, opening the session on first use. Datagram traffic consumes
    /// no flow quota.
    pub fn admit_datagram(
        &mut self,
        authenticator: &Authenticator,
        quotas: &mut AdmissionControl,
        credential: &[u8],
    ) -> (admitted: Result<(), RelayError>)
        requires
            authenticator.wf(),
            old(quotas).wf(),
            old(quotas).spec_next_lease() < u64::MAX,
        ensures
            final(quotas).wf(),
            spec_authenticate(authenticator.spec_credentials(), credential@) is None ==> admitted == Err::<(), RelayError>(RelayError::AuthenticationRejected)
                && final(self).session == old(self).session && final(quotas).spec_sessions()
                == old(quotas).spec_sessions(),
            spec_authenticate(authenticator.spec_credentials(), credential@) matches Some(p) ==> match old(self).session {
                Some(s) => final(self).session == old(self).session && final(quotas).spec_sessions()
                    == old(quotas).spec_sessions() && if s.principal.0 == p {
                    admitted is Ok
                } else {
                    admitted == Err::<(), RelayError>(RelayError::AuthenticationRejected)
                },
                None => if spec_session_count(old(quotas).spec_sessions(), p) < old(
                    quotas,
                ).spec_quota().max_sessions {
                    admitted is Ok && (final(self).session matches Some(s) && s.principal.0 == p
                        && spec_has_session(final(quotas).spec_sessions(), p, s.lease.spec_value()))
                } else {
                    admitted == Err::<(), RelayError>(RelayError::SessionQuotaRejected)
                        && final(self).session is None && final(quotas).spec_sessions() == old(
                        quotas,
                    ).spec_sessions()
                },
            },
    {
        let principal = match authenticator.authenticate(credential) {
            Ok(p) => p,
            Err(_) => return Err(RelayError::AuthenticationRejected),
        };
        match self.session {
            Some(existing) => {
                if existing.principal.0 != principal.0 {
                    Err(RelayError::AuthenticationRejected)
                } else {
                    Ok(())
                }
            },
            None => {
                let lease = open_session(quotas, principal)?;
                self.session = Some(AdmittedSession { principal, lease });
                proof {
                    let s = quotas.spec_sessions();
                    assert(spec_session_at(s, principal.0, lease.spec_value(), s.len() - 1));
                }
                Ok(())
            },
        }
    }

    /// Releases one flow of this connection's session, if `lease` is its lease.
    pub fn release_flow(&self, quotas: &mut AdmissionControl, lease: SessionLease)
        requires
            old(quotas).wf(),
        ensures
            final(quotas).wf(),
            final(quotas).spec_quota() == old(quotas).spec_quota(),
            final(quotas).spec_next_lease() == old(quotas).spec_next_lease(),
            !(self.session matches Some(s) && s.lease == lease) ==> final(quotas).spec_sessions()
                == old(quotas).spec_sessions(),
            self.session is Some && self.session->0.lease == lease ==> {
                &&& !spec_has_session(
                    old(quotas).spec_sessions(),
                    self.session->0.principal.0,
                    lease.spec_value(),
                )
                    ==> final(quotas).spec_sessions() == old(quotas).spec_sessions()
                &&& forall|i: int|
                    #[trigger] spec_session_at(
                        old(quotas).spec_sessions(),
                        self.session->0.principal.0,
                        lease.spec_value(),
                        i,
                    ) ==> if old(quotas).spec_sessions()[i].flows == 0 {
                        final(quotas).spec_sessions() == old(quotas).spec_sessions()
                    } else {
                        final(quotas).spec_sessions() == old(quotas).spec_sessions().update(
                            i,
                            SessionUsage {
                                flows: (old(quotas).spec_sessions()[i].flows - 1) as usize,
                                ..old(quotas).spec_sessions()[i]
                            },
                        )
                    }
            },
    {
        if let Some(session) = self.session {
            if session.lease == lease {
                let _ = quotas.close_flow(session.principal, lease);
            }
        }
    }

    /// Ends this connection's session, releasing its slot in the quota.
    pub fn close(&mut self, quotas: &mut AdmissionControl)
        requires
            old(quotas).wf(),
        ensures
            final(quotas).wf(),
            final(self).session is None,
            old(self).session is None ==> final(quotas).spec_sessions() == old(quotas).spec_sessions(),
            old(self).session matches Some(s) ==> (spec_has_session(
                old(quotas).spec_sessions(),
                s.principal.0,
                s.lease.spec_value(),
            ) ==> spec_session_count(final(quotas).spec_sessions(), s.principal.0) + 1
                == spec_session_count(old(quotas).spec_sessions(), s.principal.0)),
    {
        if let Some(session) = self.session {
            let _ = quotas.close_session(session.principal, session.lease);
        }
        self.session = None;
    }
}

/// A control record opening one relayed flow: a credential and the target's
/// textual socket address.
#[derive(Clone, Debug, PartialEq, Eq)]
pub struct OpenRecord {
    pub secret: Vec<u8>,
    pub target: Vec<u8>,
}

#[derive(Clone, Copy, Debug, PartialEq, Eq, Structural)]
pub enum ControlError {
    Invalid,
    SecretTooLarge,
}

/// The encoding of a control record.
pub open spec fn spec_open_record(secret: Seq<u8>, target: Seq<u8>) -> Seq<u8> {
    be16(secret.len() as u16) + be16(target.len() as u16) + secret + target
}

/// Encodes `secret-length | target-length | secret | target`.
pub fn encode_open(record: &OpenRecord) -> (encoded: Result<Vec<u8>, ControlError>)
    ensures
        record.secret@.len() == 0 ==> encoded == Err::<Vec<u8>, ControlError>(ControlError::Invalid),
        record.secret@.len() > MAX_SECRET_BYTES ==> encoded == Err::<Vec<u8>, ControlError>(
            ControlError::SecretTooLarge,
        ),
        1 <= record.secret@.len() <= MAX_SECRET_BYTES && record.target@.len() > 65535 ==> encoded
            == Err::<Vec<u8>, ControlError>(ControlError::Invalid),
        encoded is Ok <==> 1 <= record.secret@.len() <= MAX_SECRET_BYTES && record.target@.len()
            <= 65535,
        encoded matches Ok(bytes) ==> bytes@ == spec_open_record(record.secret@, record.target@),
{
    if record.secret.len() == 0 {
        return Err(ControlError::Invalid);
    }
    if record.secret.len() > MAX_SECRET_BYTES {
        return Err(ControlError::SecretTooLarge);
    }
    if record.target.len() > 65535 {
        return Err(ControlError::Invalid);
    }
    let mut encoded: Vec<u8> = Vec::new();
    push_u16(&mut encoded, record.secret.len() as u16);
    push_u16(&mut encoded, record.target.len() as u16);
    push_all(&mut encoded, record.secret.as_slice());
    push_all(&mut encoded, record.target.as_slice());
    assert(encoded@ =~= spec_open_record(record.secret@, record.target@));
    Ok(encoded)
}

/// Whether `bytes` is exactly one well-sized control record.
pub open spec fn spec_open_valid(bytes: Seq<u8>) -> bool {
    &&& bytes.len() >= 4
    &&& {
        let secret_length = from_be16(bytes.subrange(0, 2));
        let target_length = from_be16(bytes.subrange(2, 4));
        &&& 1 <= secret_length <= MAX_SECRET_BYTES
        &&& bytes.len() == 4 + secret_length + target_length
    }
}

/// Splits one control record into its credential and target text.
pub fn decode_open(bytes: &[u8]) -> (record: Result<OpenRecord, ControlError>)
    ensures
        record is Ok <==> spec_open_valid(bytes@),
        record matches Ok(r) ==> spec_open_record(r.secret@, r.target@) == bytes@,
        record matches Err(e) ==> e == ControlError::Invalid,
{
    let len = bytes.len();
    if len < HEADER_BYTES {
        return Err(ControlError::Invalid);
    }
    let secret_length = read_u16(bytes, 0) as usize;
    let target_length = read_u16(bytes, 2) as usize;
    if secret_length == 0 || secret_length > MAX_SECRET_BYTES || len != HEADER_BYTES
        + secret_length + target_length {
        return Err(ControlError::Invalid);
    }
    let secret_end = HEADER_BYTES + secret_length;
    let secret = copy_range(bytes, HEADER_BYTES, secret_end);
    let target = copy_range(bytes, secret_end, len);
    proof {
        crate::bytes::lemma_from_be16_roundtrip(bytes@.subrange(0, 2));
        crate::bytes::lemma_from_be16_roundtrip(bytes@.subrange(2, 4));
        assert(spec_open_record(secret@, target@) =~= bytes@);
    }
    Ok(OpenRecord { secret, target })
}

/// The total length of a control record announced by its header, refused
/// when it exceeds `maximum`.
pub fn open_record_length(header: [u8; 4], maximum: usize) -> (length: Result<usize, RelayError>)
    ensures
        ({
            let total = 4 + from_be16(header@.subrange(0, 2)) + from_be16(header@.subrange(2, 4));
            &&& maximum < 4 ==> length == Err::<usize, RelayError>(RelayError::InvalidControl)
            &&& maximum >= 4 && total > maximum ==> length == Err::<usize, RelayError>(
                RelayError::InvalidControl,
            )
            &&& maximum >= 4 && total <= maximum ==> length == Ok::<usize, RelayError>(
                total as usize,
            )
        }),
{
    if maximum < HEADER_BYTES {
        return Err(RelayError::InvalidControl);
    }
    let secret_length = read_u16(&header, 0) as usize;
    let target_length = read_u16(&header, 2) as usize;
    let length = HEADER_BYTES + secret_length + target_length;
    if length > maximum {
        return Err(RelayError::InvalidControl);
    }
    Ok(length)
}

/// Encoding then decoding a record with a valid secret gives it back.
pub proof fn lemma_open_record_roundtrip(secret: Seq<u8>, target: Seq<u8>)
    requires
        1 <= secret.len() <= MAX_SECRET_BYTES,
        target.len() <= 65535,
    ensures
        spec_open_valid(spec_open_record(secret, target)),
        spec_open_record(secret, target).subrange(4, 4 + secret.len() as int) == secret,
        spec_open_record(secret, target).subrange(
            4 + secret.len() as int,
            spec_open_record(secret, target).len() as int,
        ) == target,
{
    let b = spec_open_record(secret, target);
    crate::bytes::lemma_be16_roundtrip(secret.len() as u16);
    crate::bytes::lemma_be16_roundtrip(target.len() as u16);
    assert(b.subrange(0, 2) =~= be16(secret.len() as u16));
    assert(b.subrange(2, 4) =~= be16(target.len() as u16));
    assert(b.subrange(4, 4 + secret.len() as int) =~= secret);
    assert(b.subrange(4 + secret.len() as int, b.len() as int) =~= target);
}

} // verus!
