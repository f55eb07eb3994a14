use velum::carrier::{
    loss_parts_per_million, CarrierCapabilities, CarrierHealth, CarrierKind, HealthCounters,
    QuicTransportProfile, QuicTransportProfileError, Reliability,
};
use velum::datagram::{
    Datagram, DatagramDecodeError, DatagramEncodeError, DatagramSessionId,
    DatagramSessionIdError, MAX_DATAGRAM_CREDENTIAL_BYTES,
};
use velum::net::{IpAddress, SocketAddress};
use velum::policy::{
    fallback_supports, CarrierObservation, FallbackMode, FlowRequirement, TransitionDecision,
    TransitionPolicy, TransitionReason,
};

const CLIENT_TO_SERVER: u8 = 0x01;

fn session_id() -> DatagramSessionId {
    DatagramSessionId::new(7).expect("non-zero session")
}

#[test]
fn ipv4_and_ipv6_datagrams_round_trip_canonically() {
    let client = Datagram::ClientToServer {
        credential: vec![7; 32],
        session_id: session_id(),
        destination: SocketAddress { ip: IpAddress::V4([192, 0, 2, 10]), port: 53 },
        payload: vec![1, 2],
    };
    let mut v6 = [0u8; 16];
    v6[0] = 0x20;
    v6[1] = 0x01;
    v6[2] = 0x0d;
    v6[3] = 0xb8;
    v6[15] = 1;
    let server = Datagram::ServerToClient {
        session_id: session_id(),
        source: SocketAddress { ip: IpAddress::V6(v6), port: 443 },
        payload: vec![3, 4],
    };
    for datagram in [client, server] {
        assert_eq!(
            Datagram::decode(&datagram.encode().expect("encode")),
            Ok(datagram)
        );
    }
}

#[test]
fn invalid_or_unbounded_envelopes_fail_closed() {
    assert_eq!(DatagramSessionId::new(0), Err(DatagramSessionIdError::Zero));
    assert_eq!(Datagram::decode(&[]), Err(DatagramDecodeError::TooShort));
    assert_eq!(
        Datagram::decode(&[0xff, 0, 0, 0, 0, 0, 0, 0, 1]),
        Err(DatagramDecodeError::TooShort)
    );
    assert_eq!(
        Datagram::decode(&[CLIENT_TO_SERVER, 1, 7, 0, 0, 0, 0, 0, 0, 0, 1, 0xff]),
        Err(DatagramDecodeError::InvalidAddressFamily(0xff))
    );
    assert_eq!(
        Datagram::decode(&[CLIENT_TO_SERVER, 0]),
        Err(DatagramDecodeError::InvalidCredentialLength {
            minimum: 1,
            maximum: MAX_DATAGRAM_CREDENTIAL_BYTES,
            actual: 0,
        })
    );
}

#[test]
fn datagram_encoding_refuses_bad_credentials_and_zero_sessions_decode_as_errors() {
    let datagram = Datagram::ClientToServer {
        credential: vec![],
        session_id: session_id(),
        destination: SocketAddress { ip: IpAddress::V4([192, 0, 2, 10]), port: 53 },
        payload: vec![],
    };
    assert_eq!(
        datagram.encode(),
        Err(DatagramEncodeError::InvalidCredentialLength { minimum: 1, maximum: 128, actual: 0 })
    );
    assert_eq!(
        Datagram::decode(&[2, 0, 0, 0, 0, 0, 0, 0, 0, 4, 1, 2, 3, 4, 0, 53]),
        Err(DatagramDecodeError::ZeroSessionId)
    );
    assert_eq!(
        Datagram::decode(&[3, 0, 0, 0, 0, 0, 0, 0, 1, 4, 1, 2, 3, 4, 0, 53]),
        Err(DatagramDecodeError::UnknownDirection(3))
    );
    assert_eq!(
        Datagram::decode(&[2, 0, 0, 0, 0, 0, 0, 0, 1, 4, 1, 2, 3, 4, 0, 53, 9]),
        Ok(Datagram::ServerToClient {
            session_id: DatagramSessionId::new(1).expect("session"),
            source: SocketAddress { ip: IpAddress::V4([1, 2, 3, 4]), port: 53 },
            payload: vec![9],
        })
    );
}

#[test]
fn capability_checks_do_not_conflate_datagrams_and_streams() {
    let capabilities = CarrierCapabilities {
        streams: true,
        datagrams: false,
        max_datagram_payload: None,
    };

    assert!(capabilities.supports(Reliability::Stream));
    assert!(!capabilities.supports(Reliability::Datagram));
}

#[test]
fn transport_profile_rejects_unbounded_or_inconsistent_values() {
    let mut profile = QuicTransportProfile::default();
    assert!(profile.validate().is_ok());
    profile.max_bidirectional_streams = 0;
    assert_eq!(
        profile.validate(),
        Err(QuicTransportProfileError::ZeroStreamLimit)
    );
    profile.max_bidirectional_streams = 1;
    profile.connection_receive_window = profile.stream_receive_window - 1;
    assert_eq!(
        profile.validate(),
        Err(QuicTransportProfileError::ConnectionWindowTooSmall)
    );
}

#[test]
fn keep_alive_must_be_shorter_than_the_idle_timeout() {
    let mut profile = QuicTransportProfile::default();
    profile.keep_alive_interval = Some(profile.idle_timeout);
    assert_eq!(
        profile.validate(),
        Err(QuicTransportProfileError::KeepAliveNotShorterThanIdleTimeout)
    );
    profile.keep_alive_interval = Some(1_000);
    assert!(profile.validate().is_ok());
    profile.datagram_send_buffer_bytes = 0;
    assert_eq!(profile.validate(), Err(QuicTransportProfileError::ZeroDatagramBuffer));
}

#[test]
fn loss_measurement_is_bounded_and_handles_an_idle_path() {
    assert_eq!(loss_parts_per_million(0, 0), None);
    assert_eq!(loss_parts_per_million(1, 4), Some(250_000));
    assert_eq!(loss_parts_per_million(u64::MAX, 1), Some(u32::MAX));
}

#[test]
fn health_sampling_uses_only_the_latest_transport_interval() {
    let mut counters = HealthCounters::default();
    assert_eq!(counters.observe(10, 2, 1), Some(222_222));
    assert_eq!(counters.observe(20, 3, 1), Some(100_000));
    assert_eq!(counters.observe(20, 3, 1), None);
}

#[test]
fn tls_fallback_never_claims_datagram_support() {
    assert!(fallback_supports(FlowRequirement {
        reliability: Reliability::Stream,
    }));
    assert!(!fallback_supports(FlowRequirement {
        reliability: Reliability::Datagram,
    }));
}

fn observation(kind: CarrierKind, healthy: bool, at_millis: u64) -> CarrierObservation {
    CarrierObservation {
        kind,
        health: CarrierHealth {
            round_trip_time_millis: Some(10),
            loss_parts_per_million: Some(0),
            is_healthy: healthy,
        },
        at_millis,
    }
}

fn policy(mode: FallbackMode) -> TransitionPolicy {
    TransitionPolicy {
        fallback_mode: mode,
        unhealthy_observations: 3,
        recovery_observations: 2,
        minimum_transition_interval_millis: 100,
        maximum_loss_parts_per_million: 1_000,
        maximum_round_trip_time_millis: 100,
    }
}

#[test]
fn cold_and_warm_fallbacks_require_confirmed_failure() {
    for mode in [FallbackMode::Cold, FallbackMode::Warm] {
        assert_eq!(
            policy(mode).decide(
                CarrierKind::Quic,
                observation(CarrierKind::Quic, false, 200),
                observation(CarrierKind::Tls, true, 200),
                3,
                0,
                None,
            ),
            TransitionDecision::Transition {
                mode,
                reason: TransitionReason::PrimaryUnhealthy,
                to: CarrierKind::Tls,
            }
        );
    }
}

#[test]
fn policy_controls_false_transitions_and_recovery_flaps() {
    let primary = observation(CarrierKind::Quic, false, 150);
    let fallback = observation(CarrierKind::Tls, true, 150);
    assert_eq!(
        policy(FallbackMode::Cold).decide(CarrierKind::Quic, primary, fallback, 2, 0, None),
        TransitionDecision::Stay
    );
    assert_eq!(
        policy(FallbackMode::Cold).decide(
            CarrierKind::Quic,
            primary,
            fallback,
            3,
            0,
            Some(100),
        ),
        TransitionDecision::Stay
    );
    assert_eq!(
        policy(FallbackMode::Cold).decide(
            CarrierKind::Tls,
            observation(CarrierKind::Quic, true, 250),
            fallback,
            0,
            2,
            Some(100),
        ),
        TransitionDecision::Transition {
            mode: FallbackMode::Cold,
            reason: TransitionReason::PrimaryRecovered,
            to: CarrierKind::Quic,
        }
    );
}

#[test]
fn recovery_does_not_depend_on_the_failed_tls_fallback() {
    assert_eq!(
        policy(FallbackMode::Cold).decide(
            CarrierKind::Tls,
            observation(CarrierKind::Quic, true, 250),
            observation(CarrierKind::Tls, false, 250),
            0,
            2,
            None,
        ),
        TransitionDecision::Transition {
            mode: FallbackMode::Cold,
            reason: TransitionReason::PrimaryRecovered,
            to: CarrierKind::Quic,
        }
    );
}

#[test]
fn loss_and_latency_thresholds_trigger_fallback_after_confirmation() {
    let mut lossy = observation(CarrierKind::Quic, true, 500);
    lossy.health.loss_parts_per_million = Some(2_000);
    assert_eq!(
        policy(FallbackMode::Warm).decide(
            CarrierKind::Quic,
            lossy,
            observation(CarrierKind::Tls, true, 500),
            3,
            0,
            None,
        ),
        TransitionDecision::Transition {
            mode: FallbackMode::Warm,
            reason: TransitionReason::LossThresholdExceeded,
            to: CarrierKind::Tls,
        }
    );
    let mut slow = observation(CarrierKind::Quic, true, 500);
    slow.health.round_trip_time_millis = Some(101);
    assert_eq!(
        policy(FallbackMode::Warm).decide(
            CarrierKind::Quic,
            slow,
            observation(CarrierKind::Tls, true, 500),
            3,
            0,
            None,
        ),
        TransitionDecision::Transition {
            mode: FallbackMode::Warm,
            reason: TransitionReason::LatencyThresholdExceeded,
            to: CarrierKind::Tls,
        }
    );
    assert_eq!(
        policy(FallbackMode::Warm).decide(
            CarrierKind::Quic,
            slow,
            observation(CarrierKind::Tls, false, 500),
            3,
            0,
            None,
        ),
        TransitionDecision::Stay
    );
}
