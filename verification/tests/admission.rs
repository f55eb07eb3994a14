use velum::crypto::{AttachmentAuthenticationError, AttachmentAuthenticator, AttachmentProof, ReplayWindow};
use velum::net::{IpAddress, SocketAddress};
use velum::protocol::{
    AttachmentId, Capabilities, CapabilityAdvertisement, Epoch, HandshakeNonce,
    NegotiatedParameters, NegotiationOffer, SessionId, VersionRange,
};
use velum::server::{
    AdmissionControl, AdmissionError, AuthenticationError, Authenticator, DestinationPolicy,
    PrincipalCredential, PrincipalId, PrincipalQuota,
};

#[test]
fn authentication_accepts_only_configured_credentials() {
    let authentication =
        Authenticator::new(vec![
            PrincipalCredential::new(PrincipalId(7), vec![1, 2, 3]).expect("credential")
        ])
        .expect("authentication");

    assert_eq!(authentication.authenticate(&[1, 2, 3]), Ok(PrincipalId(7)));
    assert_eq!(
        authentication.authenticate(&[1, 2, 4]),
        Err(AuthenticationError::InvalidCredential)
    );
    assert_eq!(
        authentication.authenticate(&[]),
        Err(AuthenticationError::InvalidCredential)
    );
}

#[test]
fn credentials_must_have_a_consistent_length() {
    let credentials = vec![
        PrincipalCredential::new(PrincipalId(1), vec![1]).expect("credential"),
        PrincipalCredential::new(PrincipalId(2), vec![2, 3]).expect("credential"),
    ];

    assert!(matches!(
        Authenticator::new(credentials),
        Err(AuthenticationError::InconsistentCredentialLength)
    ));
}

#[test]
fn credentials_must_not_share_a_secret() {
    let credentials = vec![
        PrincipalCredential::new(PrincipalId(1), vec![1, 2, 3]).expect("credential"),
        PrincipalCredential::new(PrincipalId(2), vec![1, 2, 3]).expect("credential"),
    ];

    assert!(matches!(
        Authenticator::new(credentials),
        Err(AuthenticationError::DuplicateCredential)
    ));
}

#[test]
fn principals_must_not_repeat_and_secrets_must_not_be_empty() {
    assert!(PrincipalCredential::new(PrincipalId(1), vec![]).is_err());
    let credentials = vec![
        PrincipalCredential::new(PrincipalId(1), vec![1, 2]).expect("credential"),
        PrincipalCredential::new(PrincipalId(1), vec![3, 4]).expect("credential"),
    ];
    assert!(matches!(
        Authenticator::new(credentials),
        Err(AuthenticationError::DuplicatePrincipal)
    ));
    let empty = Authenticator::new(vec![]).expect("empty");
    assert_eq!(empty.authenticate(&[1]), Err(AuthenticationError::InvalidCredential));
}

#[test]
fn destinations_are_denied_until_exactly_allowed() {
    let allowed = SocketAddress { ip: IpAddress::V4([192, 0, 2, 10]), port: 443 };
    let policy = DestinationPolicy::new(vec![allowed]);

    assert!(policy.allows(&allowed));
    assert!(!policy.allows(&SocketAddress { ip: IpAddress::V4([192, 0, 2, 10]), port: 80 }));
    assert!(!DestinationPolicy::default().allows(&allowed));
}

#[test]
fn quotas_are_principal_scoped_and_release_on_close() {
    let principal = PrincipalId(1);
    let mut admission = AdmissionControl::new(PrincipalQuota {
        max_sessions: 1,
        max_flows_per_session: 1,
    });
    let session = admission.open_session(principal).expect("session");
    assert_eq!(
        admission.open_session(principal),
        Err(AdmissionError::SessionQuotaExceeded)
    );
    admission.open_flow(principal, session).expect("flow");
    assert_eq!(
        admission.open_flow(principal, session),
        Err(AdmissionError::FlowQuotaExceeded)
    );
    admission
        .close_flow(principal, session)
        .expect("close flow");
    admission
        .close_session(principal, session)
        .expect("close session");
    assert!(admission.open_session(principal).is_ok());
}

#[test]
fn another_principal_has_its_own_quota_and_unknown_sessions_are_refused() {
    let mut admission = AdmissionControl::new(PrincipalQuota { max_sessions: 1, max_flows_per_session: 1 });
    let first = admission.open_session(PrincipalId(1)).expect("first");
    assert!(admission.open_session(PrincipalId(2)).is_ok());
    assert_eq!(admission.open_flow(PrincipalId(2), first), Err(AdmissionError::UnknownSession));
    assert_eq!(admission.close_flow(PrincipalId(1), first), Err(AdmissionError::UnknownSession));
    assert_eq!(admission.close_session(PrincipalId(2), first), Err(AdmissionError::UnknownSession));
}

fn nonce(byte: u8) -> HandshakeNonce {
    HandshakeNonce::new([byte; 16]).expect("non-zero nonce")
}

fn parameters() -> NegotiatedParameters {
    NegotiationOffer::new(
        VersionRange::new(0, 0).expect("range"),
        CapabilityAdvertisement::new(Capabilities::reliable_stream(), Capabilities(0))
            .expect("capabilities"),
        nonce(1),
    )
    .expect("offer")
    .negotiate(
        VersionRange::new(0, 0).expect("range"),
        Capabilities::reliable_stream(),
        nonce(2),
    )
    .expect("parameters")
}

#[test]
fn attachment_proof_binds_session_epoch_attempt_and_negotiation() {
    let authenticator = AttachmentAuthenticator::new(b"attachment secret").expect("secret");
    let session = SessionId([7; 16]);
    let parameters = parameters();
    let attachment_id = AttachmentId::new([4; 16]).expect("attachment id");
    let proof = authenticator.prove(session, Epoch(9), attachment_id, parameters);

    assert_eq!(
        authenticator.verify(session, Epoch(9), attachment_id, parameters, proof),
        Ok(())
    );
    assert_eq!(
        authenticator.verify(
            session,
            Epoch(9),
            AttachmentId::new([5; 16]).expect("attachment id"),
            parameters,
            proof,
        ),
        Err(AttachmentAuthenticationError::InvalidProof)
    );
    assert_eq!(
        authenticator.verify(
            SessionId([8; 16]),
            Epoch(9),
            attachment_id,
            parameters,
            proof,
        ),
        Err(AttachmentAuthenticationError::InvalidProof)
    );
    assert_eq!(
        authenticator.verify(session, Epoch(10), attachment_id, parameters, proof),
        Err(AttachmentAuthenticationError::InvalidProof)
    );
    assert_eq!(
        authenticator.verify(
            session,
            Epoch(9),
            attachment_id,
            NegotiatedParameters {
                capabilities: Capabilities(
                    Capabilities::reliable_stream().0 | Capabilities::unreliable_datagram().0,
                ),
                ..parameters
            },
            proof,
        ),
        Err(AttachmentAuthenticationError::InvalidProof)
    );
}

#[test]
fn proof_has_a_fixed_wire_representation() {
    let authenticator = AttachmentAuthenticator::new(b"attachment secret").expect("secret");
    let proof = authenticator.prove(
        SessionId([7; 16]),
        Epoch(9),
        AttachmentId::new([4; 16]).expect("attachment id"),
        parameters(),
    );
    assert_eq!(AttachmentProof::from_bytes(proof.bytes()), proof);
}

#[test]
fn empty_attachment_secrets_are_refused_and_secrets_are_domain_separated() {
    assert!(matches!(AttachmentAuthenticator::new(b""), Err(AttachmentAuthenticationError::EmptySecret)));
    let a = AttachmentAuthenticator::new(b"one").expect("secret");
    let b = AttachmentAuthenticator::new(b"two").expect("secret");
    let id = AttachmentId::new([4; 16]).expect("attachment id");
    let proof = a.prove(SessionId([1; 16]), Epoch(1), id, parameters());
    assert_eq!(
        b.verify(SessionId([1; 16]), Epoch(1), id, parameters(), proof),
        Err(AttachmentAuthenticationError::InvalidProof)
    );
    assert_ne!(proof.bytes(), [0; 32]);
}

#[test]
fn replay_window_accepts_only_newer_epochs() {
    let mut window = ReplayWindow::default();
    assert!(window.is_empty());
    assert!(window.accept(Epoch(3)));
    assert!(!window.is_empty());
    assert!(!window.accept(Epoch(3)));
    assert!(!window.accept(Epoch(2)));
    assert!(window.accepts(Epoch(4)));
    assert!(window.accept(Epoch(4)));
}

#[test]
fn replay_window_follows_the_last_accepted_epoch() {
    let mut window = ReplayWindow::new();
    assert!(window.is_empty());
    assert!(window.accept(Epoch(5)));
    assert!(!window.accept(Epoch(3)));
    assert!(!window.accept(Epoch(5)));
    assert!(window.accept(Epoch(7)));
    assert!(!window.is_empty());
    assert!(!window.accepts(Epoch(6)));
    assert!(!window.accepts(Epoch(7)));
    assert!(window.accepts(Epoch(8)));
}
