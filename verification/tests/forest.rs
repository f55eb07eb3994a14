use velum::forest::{
    CoverConfigError, CoverServiceConfig, CoverServiceMode, ForestRuntime, ProfileError,
    ProfileStore, ProfileUpdate, ProfileUpdateVerifier, StaticAsset, StaticService,
    TrafficProfile,
};
use velum::net::{IpAddress, SocketAddress};

const SECOND: u128 = 1_000_000_000;

fn profile(identifier: &str, expiry_offset: u128) -> TrafficProfile {
    TrafficProfile {
        schema_version: 1,
        identifier: identifier.into(),
        digest: [7; 32],
        expires_at: expiry_offset * SECOND,
        write_size_classes: vec![256, 512, 1024],
    }
}

struct Accept;

impl ProfileUpdateVerifier for Accept {
    fn accepts(&self, _: ProfileUpdate) -> bool {
        true
    }

    fn verify(&self, _: &ProfileUpdate) -> bool {
        true
    }
}

struct Reject;

impl ProfileUpdateVerifier for Reject {
    fn accepts(&self, _: ProfileUpdate) -> bool {
        false
    }

    fn verify(&self, _: &ProfileUpdate) -> bool {
        false
    }
}

fn service(path: &str, content_type: &str) -> StaticService {
    StaticService {
        assets: vec![(
            path.into(),
            StaticAsset { content_type: content_type.into(), body: vec![] },
        )],
    }
}

#[test]
fn profile_rotation_requires_authentication_and_a_later_expiry() {
    let now = SECOND;
    let mut store = ProfileStore::new(profile("bootstrap", 100), now).expect("profile");
    let update = ProfileUpdate { profile: profile("rotated", 200), proof: vec![1] };
    assert_eq!(
        store.rotate(update.clone(), &Reject, now),
        Err(ProfileError::AuthenticationRejected)
    );
    assert!(store.rotate(update, &Accept, now).is_ok());
    assert_eq!(store.active().identifier, "rotated");
}

#[test]
fn rotation_refuses_an_earlier_expiry_or_the_same_identifier() {
    let now = SECOND;
    let mut store = ProfileStore::new(profile("bootstrap", 100), now).expect("profile");
    let earlier = ProfileUpdate { profile: profile("rotated", 50), proof: vec![] };
    assert_eq!(store.rotate(earlier, &Accept, now), Err(ProfileError::InvalidRotation));
    let same = ProfileUpdate { profile: profile("bootstrap", 200), proof: vec![] };
    assert_eq!(store.rotate_verified(same, true, now), Err(ProfileError::InvalidRotation));
    let expired = ProfileUpdate { profile: profile("later", 1), proof: vec![] };
    assert_eq!(store.rotate_verified(expired, true, now), Err(ProfileError::Expired));
    assert_eq!(store.active().identifier, "bootstrap");
}

#[test]
fn profiles_are_checked_for_schema_identifier_and_sizes() {
    let mut bad = profile("x", 100);
    bad.schema_version = 2;
    assert_eq!(bad.validate(0), Err(ProfileError::UnsupportedSchema));
    let mut bad = profile("", 100);
    assert_eq!(bad.validate(0), Err(ProfileError::InvalidProfile));
    bad.identifier = "x".repeat(65);
    assert_eq!(bad.validate(0), Err(ProfileError::InvalidProfile));
    let mut bad = profile("x", 100);
    bad.write_size_classes = vec![512, 512];
    assert_eq!(bad.validate(0), Err(ProfileError::InvalidProfile));
    bad.write_size_classes = vec![];
    assert_eq!(bad.validate(0), Err(ProfileError::InvalidProfile));
    assert_eq!(profile("x", 100).validate(100 * SECOND), Err(ProfileError::Expired));
    assert_eq!(profile("x", 100).validate(100 * SECOND - 1), Ok(()));
}

#[test]
fn kill_switch_removes_only_traffic_profile_selection() {
    let now = SECOND;
    let store = ProfileStore::new(profile("bootstrap", 100), now).expect("profile");
    let mut runtime = ForestRuntime::new(store);
    assert!(runtime.active_profile(now).is_some());
    runtime.disable_after_failure();
    assert!(runtime.active_profile(now).is_none());
    runtime.enable();
    assert_eq!(runtime.active_profile(now).expect("profile").identifier, "bootstrap");
}

#[test]
fn expired_profiles_are_not_selected_after_reenabling_traffic() {
    let now = SECOND;
    let store = ProfileStore::new(profile("bootstrap", 2), now).expect("profile");
    let mut runtime = ForestRuntime::new(store);
    runtime.disable_after_failure();
    runtime.enable();
    assert!(runtime.active_profile(2 * SECOND).is_none());
}

#[test]
fn static_service_configuration_rejects_path_traversal() {
    assert_eq!(
        service("../private", "text/plain").validate(),
        Err(CoverConfigError::InvalidStaticService)
    );
    assert_eq!(
        service("/a/../b", "text/plain").validate(),
        Err(CoverConfigError::InvalidStaticService)
    );
    assert_eq!(service("/index.html", "text/html").validate(), Ok(()));
    assert_eq!(
        StaticService { assets: vec![] }.validate(),
        Err(CoverConfigError::InvalidStaticService)
    );
}

#[test]
fn static_content_type_rejects_response_splitting() {
    assert_eq!(
        service("/", "text/plain\r\nX-Injected: yes").validate(),
        Err(CoverConfigError::InvalidStaticService)
    );
    assert_eq!(service("/", "").validate(), Err(CoverConfigError::InvalidStaticService));
}

#[test]
fn cover_configuration_needs_schema_one_and_positive_timeouts() {
    let config = CoverServiceConfig {
        schema_version: 1,
        mode: CoverServiceMode::Static(service("/", "text/plain")),
        request_head_timeout: SECOND,
        upstream_timeout: SECOND,
    };
    assert_eq!(config.validate(), Ok(()));
    let proxy = CoverServiceConfig {
        mode: CoverServiceMode::ReverseProxy {
            upstream: SocketAddress { ip: IpAddress::V4([127, 0, 0, 1]), port: 8080 },
        },
        ..config.clone()
    };
    assert_eq!(proxy.validate(), Ok(()));
    let bad = CoverServiceConfig { schema_version: 2, ..config.clone() };
    assert_eq!(bad.validate(), Err(CoverConfigError::UnsupportedSchema));
    let bad = CoverServiceConfig { request_head_timeout: 0, ..config.clone() };
    assert_eq!(bad.validate(), Err(CoverConfigError::ZeroRequestHeadTimeout));
    let bad = CoverServiceConfig { upstream_timeout: 0, ..config.clone() };
    assert_eq!(bad.validate(), Err(CoverConfigError::ZeroUpstreamTimeout));
    let bad = CoverServiceConfig {
        mode: CoverServiceMode::Static(service("relative", "text/plain")),
        ..config
    };
    assert_eq!(bad.validate(), Err(CoverConfigError::InvalidStaticService));
}

fn cover() -> StaticService {
    StaticService {
        assets: vec![(
            "/".into(),
            StaticAsset { content_type: "text/plain".into(), body: b"cover service\n".to_vec() },
        )],
    }
}

#[test]
fn static_cover_service_answers_get_head_and_missing_paths() {
    let reply = cover().reply(b"GET / HTTP/1.1\r\nHost: cover.example\r\n\r\n").expect("reply");
    assert!(reply.starts_with(b"HTTP/1.1 200 OK\r\n"));
    assert!(reply.ends_with(b"cover service\n"));
    assert_eq!(
        reply,
        b"HTTP/1.1 200 OK\r\nContent-Type: text/plain\r\nContent-Length: 14\r\nConnection: close\r\n\r\ncover service\n".to_vec()
    );
    let head = cover().reply(b"HEAD / HTTP/1.1\r\n\r\n").expect("reply");
    assert!(head.ends_with(b"Connection: close\r\n\r\n"));
    let missing = cover().reply(b"GET /missing HTTP/1.1\r\n\r\n").expect("reply");
    assert_eq!(
        missing,
        b"HTTP/1.1 404 Not Found\r\nContent-Type: text/plain; charset=utf-8\r\nContent-Length: 10\r\nConnection: close\r\n\r\nNot Found\n".to_vec()
    );
}

#[test]
fn static_cover_service_refuses_other_methods_and_binary_heads() {
    assert_eq!(
        cover().reply(b"POST / HTTP/1.1\r\n\r\n"),
        Err(velum::forest::CoverServiceError::MalformedRequest)
    );
    assert_eq!(cover().reply(b"\xff\xfe\r\n\r\n"), Err(velum::forest::CoverServiceError::MalformedRequest));
    assert_eq!(cover().reply(b"GET\r\n\r\n"), Err(velum::forest::CoverServiceError::MalformedRequest));
}
