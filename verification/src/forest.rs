//! Cover-service configuration and traffic-profile selection. Traffic
//! profiles rotate only through an authenticated update that expires later;
//! a kill switch withdraws profile selection without touching the cover
//! service. Points in time are nanoseconds since the Unix epoch, durations
//! nanoseconds.
use vstd::prelude::*;

use crate::connect::{ascii_words_from, first_words};
use crate::net::SocketAddress;
use crate::operator::{decimal_chars, push_decimal};
use crate::routing::str_equal;
use crate::text::utf8_text;

verus! {

/// Versioned configuration for a cover endpoint.
#[derive(Clone, Debug, PartialEq, Eq)]
pub struct CoverServiceConfig {
    pub schema_version: u16,
    pub mode: CoverServiceMode,
    pub request_head_timeout: u128,
    pub upstream_timeout: u128,
}

/// What a cover endpoint does with a request.
#[derive(Clone, Debug, PartialEq, Eq)]
pub enum CoverServiceMode {
    Static(StaticService),
    ReverseProxy { upstream: SocketAddress },
}

/// Static assets by request path.
#[derive(Clone, Debug, PartialEq, Eq)]
pub struct StaticService {
    pub assets: Vec<(String, StaticAsset)>,
}

/// One static response body with its content type.
#[derive(Clone, Debug, PartialEq, Eq)]
pub struct StaticAsset {
    pub content_type: String,
    pub body: Vec<u8>,
}

/// A cover configuration that cannot be served.
#[derive(Clone, Copy, Debug, PartialEq, Eq, Structural)]
pub enum CoverConfigError {
    UnsupportedSchema,
    ZeroRequestHeadTimeout,
    ZeroUpstreamTimeout,
    InvalidStaticService,
}

/// Why a cover connection ended without a complete exchange.
#[derive(Clone, Copy, Debug, PartialEq, Eq, Structural)]
pub enum CoverServiceError {
    InvalidConfig,
    MalformedRequest,
    RequestTimedOut,
    UpstreamUnavailable,
    Transport,
}

/// Whether `path` is absolute, has no `..` and no line break.
pub open spec fn valid_asset_path(path: Seq<char>) -> bool {
    &&& path.len() > 0 && path[0] == '/'
    &&& forall|i: int| 0 <= i < path.len() - 1 ==> !(#[trigger] path[i] == '.' && path[i + 1] == '.')
    &&& forall|i: int| 0 <= i < path.len() ==> #[trigger] path[i] != '\r' && path[i] != '\n'
}

/// Whether `bytes` is a non-empty content type with no ASCII control octet,
/// so that it cannot split a response header.
pub open spec fn valid_content_type_bytes(bytes: Seq<u8>) -> bool {
    &&& bytes.len() > 0
    &&& forall|i: int| 0 <= i < bytes.len() ==> #[trigger] bytes[i] >= 0x20 && bytes[i] != 0x7f
}

fn valid_path(path: &str) -> (valid: bool)
    ensures
        valid == valid_asset_path(path@),
{
    let n = path.unicode_len();
    if n == 0 || path.get_char(0) != '/' {
        return false;
    }
    let mut i: usize = 0;
    while i < n
        invariant
            i <= n,
            n == path@.len(),
            forall|k: int| 0 <= k < i && k < n - 1 ==> !(#[trigger] path@[k] == '.' && path@[k + 1] == '.'),
            forall|k: int| 0 <= k < i ==> #[trigger] path@[k] != '\r' && path@[k] != '\n',
        decreases n - i,
    {
        let c = path.get_char(i);
        if c == '\r' || c == '\n' {
            return false;
        }
        if c == '.' && i + 1 < n && path.get_char(i + 1) == '.' {
            return false;
        }
        i = i + 1;
    }
    true
}

#[verifier::loop_isolation(false)]
fn valid_content_type(content_type: &str) -> (valid: bool)
    ensures
        valid == valid_content_type_bytes(vstd::utf8::encode_utf8(content_type@)),
{
    let bytes = content_type.as_bytes();
    let n = bytes.len();
    if n == 0 {
        return false;
    }
    let mut i: usize = 0;
    while i < n
        invariant
            i <= n,
            n == bytes@.len(),
            forall|k: int| 0 <= k < i ==> #[trigger] bytes@[k] >= 0x20 && bytes@[k] != 0x7f,
        decreases n - i,
    {
        if bytes[i] < 0x20 || bytes[i] == 0x7f {
            return false;
        }
        i = i + 1;
    }
    true
}

impl StaticService {
    /// Whether the service has assets, every path valid and every content
    /// type valid.
    pub open spec fn spec_valid(&self) -> bool {
        &&& self.assets@.len() > 0
        &&& forall|i: int| 0 <= i < self.assets@.len() ==> valid_asset_path(#[trigger] self.assets@[i].0@)
        &&& forall|i: int|
            0 <= i < self.assets@.len() ==> valid_content_type_bytes(vstd::utf8::encode_utf8(
                (#[trigger] self.assets@[i]).1.content_type@,
            ))
    }

    /// Accepts a non-empty set of assets with absolute paths free of `..` and
    /// line breaks, and content types free of control characters.
    pub fn validate(&self) -> (valid: Result<(), CoverConfigError>)
        ensures
            valid is Ok <==> self.spec_valid(),
            valid matches Err(e) ==> e == CoverConfigError::InvalidStaticService,
    {
        let n = self.assets.len();
        if n == 0 {
            return Err(CoverConfigError::InvalidStaticService);
        }
        let mut i: usize = 0;
        while i < n
            invariant
                i <= n,
                n == self.assets@.len(),
                forall|k: int| 0 <= k < i ==> valid_asset_path(#[trigger] self.assets@[k].0@),
            decreases n - i,
        {
            if !valid_path(self.assets[i].0.as_str()) {
                return Err(CoverConfigError::InvalidStaticService);
            }
            i = i + 1;
        }
        let mut j: usize = 0;
        while j < n
            invariant
                j <= n,
                n == self.assets@.len(),
                forall|k: int|
                    0 <= k < j ==> valid_content_type_bytes(vstd::utf8::encode_utf8(
                        (#[trigger] self.assets@[k]).1.content_type@,
                    )),
            decreases n - j,
        {
            if !valid_content_type(self.assets[j].1.content_type.as_str()) {
                return Err(CoverConfigError::InvalidStaticService);
            }
            j = j + 1;
        }
        Ok(())
    }
}

impl CoverServiceConfig {
    /// Accepts schema version 1 with non-zero timeouts, checked in the order
    /// upstream then request head, and a valid mode.
    pub fn validate(&self) -> (valid: Result<(), CoverConfigError>)
        ensures
            self.schema_version != 1 ==> valid == Err::<(), CoverConfigError>(
                CoverConfigError::UnsupportedSchema,
            ),
            self.schema_version == 1 && self.upstream_timeout == 0 ==> valid == Err::<
                (),
                CoverConfigError,
            >(CoverConfigError::ZeroUpstreamTimeout),
            self.schema_version == 1 && self.upstream_timeout != 0 && self.request_head_timeout
                == 0 ==> valid == Err::<(), CoverConfigError>(
                CoverConfigError::ZeroRequestHeadTimeout,
            ),
            self.schema_version == 1 && self.upstream_timeout != 0 && self.request_head_timeout != 0
                ==> match self.mode {
                CoverServiceMode::Static(service) => (valid is Ok <==> service.spec_valid())
                    && (valid matches Err(e) ==> e == CoverConfigError::InvalidStaticService),
                CoverServiceMode::ReverseProxy { .. } => valid is Ok,
            },
    {
        if self.schema_version != 1 {
            return Err(CoverConfigError::UnsupportedSchema);
        }
        if self.upstream_timeout == 0 {
            return Err(CoverConfigError::ZeroUpstreamTimeout);
        }
        if self.request_head_timeout == 0 {
            return Err(CoverConfigError::ZeroRequestHeadTimeout);
        }
        match &self.mode {
            CoverServiceMode::Static(service) => service.validate(),
            CoverServiceMode::ReverseProxy { .. } => Ok(()),
        }
    }
}

/// An immutable, versioned profile that selects carrier-write presentation
/// only.
#[derive(Clone, Debug, PartialEq, Eq)]
pub struct TrafficProfile {
    pub schema_version: u16,
    pub identifier: String,
    pub digest: [u8; 32],
    pub expires_at: u128,
    pub write_size_classes: Vec<u16>,
}

/// Why a profile or a rotation was refused.
#[derive(Clone, Copy, Debug, PartialEq, Eq, Structural)]
pub enum ProfileError {
    UnsupportedSchema,
    InvalidProfile,
    Expired,
    AuthenticationRejected,
    InvalidRotation,
}

/// Whether `sizes` increases strictly.
pub open spec fn strictly_increasing(sizes: Seq<u16>) -> bool {
    forall|i: int| 0 <= i < sizes.len() - 1 ==> #[trigger] sizes[i] < sizes[i + 1]
}

/// What `TrafficProfile::validate` reports for `profile` at `now`.
pub open spec fn profile_check(profile: TrafficProfile, now: u128) -> Result<(), ProfileError> {
    if profile.schema_version != 1 {
        Err(ProfileError::UnsupportedSchema)
    } else if vstd::utf8::encode_utf8(profile.identifier@).len() == 0
        || vstd::utf8::encode_utf8(profile.identifier@).len() > 64
        || profile.write_size_classes@.len() == 0 || !strictly_increasing(
        profile.write_size_classes@,
    ) {
        Err(ProfileError::InvalidProfile)
    } else if profile.expires_at <= now {
        Err(ProfileError::Expired)
    } else {
        Ok(())
    }
}

impl TrafficProfile {
    /// Accepts schema version 1, an identifier of 1 to 64 octets, strictly
    /// increasing write sizes, and an expiry after `now`.
    #[verifier::loop_isolation(false)]
    pub fn validate(&self, now: u128) -> (valid: Result<(), ProfileError>)
        ensures
            valid == profile_check(*self, now),
    {
        if self.schema_version != 1 {
            return Err(ProfileError::UnsupportedSchema);
        }
        let id_len = self.identifier.as_str().as_bytes().len();
        let n = self.write_size_classes.len();
        if id_len == 0 || id_len > 64 || n == 0 {
            return Err(ProfileError::InvalidProfile);
        }
        let mut i: usize = 0;
        while i + 1 < n
            invariant
                i < n,
                n == self.write_size_classes@.len(),
                forall|k: int| 0 <= k < i ==> #[trigger] self.write_size_classes@[k]
                    < self.write_size_classes@[k + 1],
            decreases n - i,
        {
            if self.write_size_classes[i] >= self.write_size_classes[i + 1] {
                assert(!(self.write_size_classes@[i as int] < self.write_size_classes@[i + 1]));
                return Err(ProfileError::InvalidProfile);
            }
            i = i + 1;
        }
        if self.expires_at <= now {
            return Err(ProfileError::Expired);
        }
        Ok(())
    }
}

/// A profile with the proof that authenticates it.
#[derive(Clone, Debug, PartialEq, Eq)]
pub struct ProfileUpdate {
    pub profile: TrafficProfile,
    pub proof: Vec<u8>,
}

/// Authentication of profile updates, supplied by the application: an update
/// is accepted only when its proof verifies against its canonical bytes.
pub trait ProfileUpdateVerifier {
    /// Whether this verifier accepts the proof of `update`.
    spec fn accepts(&self, update: ProfileUpdate) -> bool;

    /// Checks the proof of `update`.
    fn verify(&self, update: &ProfileUpdate) -> (accepted: bool)
        ensures
            accepted == self.accepts(*update),
    ;
}

/// The active traffic profile.
#[derive(Clone, Debug)]
pub struct ProfileStore {
    active: TrafficProfile,
}

impl ProfileStore {
    pub closed spec fn spec_active(&self) -> TrafficProfile {
        self.active
    }

    /// A store whose active profile is `active`, which must be valid at `now`.
    pub fn new(active: TrafficProfile, now: u128) -> (store: Result<Self, ProfileError>)
        ensures
            match profile_check(active, now) {
                Ok(_) => store matches Ok(s) && s.spec_active() == active,
                Err(e) => store == Err::<Self, ProfileError>(e),
            },
    {
        match active.validate(now) {
            Ok(()) => Ok(ProfileStore { active }),
            Err(e) => Err(e),
        }
    }

    pub fn active(&self) -> (active: &TrafficProfile)
        ensures
            *active == self.spec_active(),
    {
        &self.active
    }

    /// Rotates to `update`'s profile, given whether its proof verified:
    /// refused when unverified, when the profile is invalid at `now`, or when
    /// it keeps the active identifier or does not expire later.
    pub fn rotate_verified(&mut self, update: ProfileUpdate, verified: bool, now: u128) -> (rotated:
        Result<(), ProfileError>)
        ensures
            rotated == rotation_outcome(old(self).spec_active(), update.profile, verified, now),
            !verified ==> rotated == Err::<(), ProfileError>(ProfileError::AuthenticationRejected),
            verified && profile_check(update.profile, now) is Err ==> rotated == profile_check(
                update.profile,
                now,
            ),
            verified && profile_check(update.profile, now) is Ok ==> if update.profile.identifier@
                == old(self).spec_active().identifier@ || update.profile.expires_at <= old(
                self,
            ).spec_active().expires_at {
                rotated == Err::<(), ProfileError>(ProfileError::InvalidRotation)
            } else {
                rotated is Ok
            },
            rotated is Ok ==> final(self).spec_active() == update.profile,
            rotated is Err ==> final(self).spec_active() == old(self).spec_active(),
    {
        if !verified {
            return Err(ProfileError::AuthenticationRejected);
        }
        match update.profile.validate(now) {
            Ok(()) => {},
            Err(e) => return Err(e),
        }
        if crate::routing::str_equal(update.profile.identifier.as_str(), self.active.identifier.as_str())
            || update.profile.expires_at <= self.active.expires_at {
            return Err(ProfileError::InvalidRotation);
        }
        self.active = update.profile;
        Ok(())
    }

    /// Rotates to `update`'s profile when `verifier` accepts its proof; what
    /// follows the verifier's answer is `rotate_verified`.
    pub fn rotate<V: ProfileUpdateVerifier>(
        &mut self,
        update: ProfileUpdate,
        verifier: &V,
        now: u128,
    ) -> (rotated: Result<(), ProfileError>)
        ensures
            rotated is Ok ==> final(self).spec_active() == update.profile && profile_check(
                update.profile,
                now,
            ) is Ok && update.profile.identifier@ != old(self).spec_active().identifier@
                && update.profile.expires_at > old(self).spec_active().expires_at,
            rotated is Err ==> final(self).spec_active() == old(self).spec_active(),
            profile_check(update.profile, now) matches Err(e) ==> rotated is Err,
            rotated == rotation_outcome(
                old(self).spec_active(),
                update.profile,
                verifier.accepts(update),
                now,
            ),
    {
        let verified = verifier.verify(&update);
        self.rotate_verified(update, verified, now)
    }
}

/// What rotating from `active` to `update` gives at `now`, given whether the
/// update's proof verified: refused unverified, refused as `validate` refuses
/// an invalid profile, refused when it keeps the active identifier or does not
/// expire later, accepted otherwise.
pub open spec fn rotation_outcome(
    active: TrafficProfile,
    update: TrafficProfile,
    verified: bool,
    now: u128,
) -> Result<(), ProfileError> {
    if !verified {
        Err(ProfileError::AuthenticationRejected)
    } else if profile_check(update, now) is Err {
        profile_check(update, now)
    } else if update.identifier@ == active.identifier@ || update.expires_at <= active.expires_at {
        Err(ProfileError::InvalidRotation)
    } else {
        Ok(())
    }
}

/// Kill switch for traffic-profile behavior; cover-service routing is left
/// untouched.
#[derive(Clone, Debug)]
pub struct ForestRuntime {
    profiles: ProfileStore,
    traffic_enabled: bool,
}

impl ForestRuntime {
    pub closed spec fn spec_profiles(&self) -> ProfileStore {
        self.profiles
    }

    pub closed spec fn spec_traffic_enabled(&self) -> bool {
        self.traffic_enabled
    }

    /// A runtime with traffic profiles enabled.
    pub fn new(profiles: ProfileStore) -> (runtime: Self)
        ensures
            runtime.spec_profiles() == profiles,
            runtime.spec_traffic_enabled(),
    {
        ForestRuntime { profiles, traffic_enabled: true }
    }

    /// Withdraws traffic-profile selection after a profile failure.
    pub fn disable_after_failure(&mut self)
        ensures
            final(self).spec_profiles() == old(self).spec_profiles(),
            !final(self).spec_traffic_enabled(),
    {
        self.traffic_enabled = false;
    }

    /// Restores traffic-profile selection.
    pub fn enable(&mut self)
        ensures
            final(self).spec_profiles() == old(self).spec_profiles(),
            final(self).spec_traffic_enabled(),
    {
        self.traffic_enabled = true;
    }

    /// The active profile, while traffic is enabled and it has not expired at
    /// `now`.
    pub fn active_profile(&self, now: u128) -> (profile: Option<&TrafficProfile>)
        ensures
            profile is Some <==> (self.spec_traffic_enabled()
                && self.spec_profiles().spec_active().expires_at > now),
            profile matches Some(p) ==> *p == self.spec_profiles().spec_active(),
    {
        if self.traffic_enabled && self.profiles.active().expires_at > now {
            Some(self.profiles.active())
        } else {
            None
        }
    }

    /// The profile store, for rotation.
    pub fn profiles_mut(&mut self) -> (profiles: &mut ProfileStore)
        ensures
            *profiles == old(self).spec_profiles(),
            final(self).spec_profiles() == *final(profiles),
            final(self).spec_traffic_enabled() == old(self).spec_traffic_enabled(),
    {
        &mut self.profiles
    }
}

/// Largest request head a cover endpoint reads, in octets.
pub const MAX_REQUEST_HEAD_BYTES: usize = 16384;

/// Whether `\r\n` starts at `i`.
pub open spec fn crlf_at(text: Seq<char>, i: int) -> bool {
    text[i] == '\r' && text[i + 1] == '\n'
}

/// The first line of a request head, up to its first `\r\n`.
pub open spec fn request_line(text: Seq<char>) -> Seq<char> {
    if exists|i: int| 0 <= i < text.len() - 1 && #[trigger] crlf_at(text, i) && forall|k: int|
        0 <= k < i ==> !crlf_at(text, k) {
        text.subrange(
            0,
            choose|i: int| 0 <= i < text.len() - 1 && #[trigger] crlf_at(text, i) && forall|k: int|
                0 <= k < i ==> !crlf_at(text, k),
        )
    } else {
        text
    }
}

/// The words of a request head's first line, when the head is UTF-8.
pub open spec fn request_words(head: Seq<u8>) -> Option<Seq<Seq<char>>> {
    if vstd::utf8::valid_utf8(head) {
        Some(ascii_words_from(request_line(vstd::utf8::decode_utf8(head)), 0))
    } else {
        None
    }
}

/// `GET`.
pub open spec fn get_method() -> Seq<char> {
    seq!['G', 'E', 'T']
}

/// `HEAD`.
pub open spec fn head_method() -> Seq<char> {
    seq!['H', 'E', 'A', 'D']
}

/// The path a `GET` or `HEAD` request asks for.
pub open spec fn request_path(head: Seq<u8>) -> Option<Seq<char>> {
    match request_words(head) {
        Some(w) => if w.len() >= 2 && (w[0] == get_method() || w[0] == head_method()) {
            Some(w[1])
        } else {
            None
        },
        None => None,
    }
}

/// Whether the request's method is `HEAD`, so that no body follows.
pub open spec fn is_head_request(head: Seq<u8>) -> bool {
    request_words(head) matches Some(w) && w.len() >= 1 && w[0] == head_method()
}

/// The asset served at `path`: the first with that path.
pub open spec fn asset_at(assets: Seq<(String, StaticAsset)>, path: Seq<char>) -> Option<int> {
    if exists|i: int| 0 <= i < assets.len() && #[trigger] assets[i].0@ == path && forall|k: int|
        0 <= k < i ==> assets[k].0@ != path {
        Some(
            choose|i: int| 0 <= i < assets.len() && #[trigger] assets[i].0@ == path && forall|k: int|
                0 <= k < i ==> assets[k].0@ != path,
        )
    } else {
        None
    }
}

/// The response head for a body of `length` octets.
pub open spec fn response_head(status: Seq<char>, content_type: Seq<char>, length: nat) -> Seq<char> {
    "HTTP/1.1 "@ + status + "\r\nContent-Type: "@ + content_type + "\r\nContent-Length: "@ + decimal_chars(length)
        + "\r\nConnection: close\r\n\r\n"@
}

/// What a static cover endpoint answers to `head`: its asset with `200 OK`,
/// or `404 Not Found` with a short text, the body left out for `HEAD`;
/// `None` for a request that is not `GET` or `HEAD` of a path.
pub open spec fn static_reply(assets: Seq<(String, StaticAsset)>, head: Seq<u8>) -> Option<Seq<u8>> {
    match request_path(head) {
        None => None,
        Some(path) => {
            let (status, content_type, body) = match asset_at(assets, path) {
                Some(i) => ("200 OK"@, assets[i].1.content_type@, assets[i].1.body@),
                None => ("404 Not Found"@, "text/plain; charset=utf-8"@, "Not Found\n"@.map_values(|c: char| c as u8)),
            };
            let start = vstd::utf8::encode_utf8(response_head(status, content_type, body.len()));
            Some(if is_head_request(head) { start } else { start + body })
        },
    }
}

/// Lookup law: a path is served from the first asset configured at that
/// path whenever there is one, and from none otherwise.
pub proof fn lemma_asset_lookup(assets: Seq<(String, StaticAsset)>, path: Seq<char>)
    ensures
        (forall|i: int| 0 <= i < assets.len() ==> #[trigger] assets[i].0@ != path) ==> asset_at(
            assets,
            path,
        ) is None,
        forall|i: int|
            0 <= i < assets.len() && #[trigger] assets[i].0@ == path && (forall|k: int|
                0 <= k < i ==> #[trigger] assets[k].0@ != path) ==> asset_at(assets, path) == Some(i),
{
    assert forall|i: int|
        0 <= i < assets.len() && #[trigger] assets[i].0@ == path && (forall|k: int|
            0 <= k < i ==> #[trigger] assets[k].0@ != path) implies asset_at(assets, path) == Some(i) by {
        let c = choose|c: int| 0 <= c < assets.len() && #[trigger] assets[c].0@ == path && forall|k: int|
            0 <= k < c ==> assets[k].0@ != path;
        if c < i {
            assert(assets[c].0@ != path);
        } else if c > i {
            assert(assets[i].0@ != path);
        }
    }
}

/// What a static endpoint serves for `path`: the body of its first asset
/// at that path, or the short not-found text.
pub open spec fn served_body(assets: Seq<(String, StaticAsset)>, path: Seq<char>) -> Seq<u8> {
    match asset_at(assets, path) {
        Some(i) => assets[i].1.body@,
        None => "Not Found\n"@.map_values(|c: char| c as u8),
    }
}

/// HEAD law: a `HEAD` request and a `GET` request whose first lines name
/// the same path (the same words after the method) get the same status line
/// and headers, ending in `Content-Length` with the length of the body
/// served at that path and `Connection: close`; the `GET` reply carries that
/// body after them and the `HEAD` reply nothing.
pub proof fn lemma_head_is_get_without_body(
    assets: Seq<(String, StaticAsset)>,
    get: Seq<u8>,
    head: Seq<u8>,
)
    requires
        request_words(get) matches Some(g) && g.len() >= 2 && g[0] == "GET"@,
        request_words(head) matches Some(h) && h.len() >= 2 && h[0] == "HEAD"@
            && h.drop_first() == request_words(get)->Some_0.drop_first(),
    ensures
        ({
            let body = served_body(assets, request_words(get)->Some_0[1]);
            exists|start: Seq<char>|
                #![trigger start + "\r\nContent-Length: "@]
                {
                    let announced = vstd::utf8::encode_utf8(
                        start + "\r\nContent-Length: "@ + decimal_chars(body.len())
                            + "\r\nConnection: close\r\n\r\n"@,
                    );
                    &&& start.len() >= 9 && start.subrange(0, 9) == "HTTP/1.1 "@
                    &&& static_reply(assets, head) == Some(announced)
                    &&& static_reply(assets, get) == Some(announced + body)
                }
        }),
{
    reveal_strlit("GET");
    reveal_strlit("HEAD");
    reveal_strlit("HTTP/1.1 ");
    let g = request_words(get)->Some_0;
    let h = request_words(head)->Some_0;
    assert(g[0] =~= get_method());
    assert(h[0] =~= head_method());
    assert(h[1] == h.drop_first()[0]);
    assert(g[1] == g.drop_first()[0]);
    assert(request_path(get) == Some(g[1]));
    assert(request_path(head) == Some(g[1]));
    assert(!is_head_request(get));
    assert(is_head_request(head));
    let path = g[1];
    let (status, content_type, body) = match asset_at(assets, path) {
        Some(i) => ("200 OK"@, assets[i].1.content_type@, assets[i].1.body@),
        None => ("404 Not Found"@, "text/plain; charset=utf-8"@, "Not Found\n"@.map_values(|c: char| c as u8)),
    };
    let start = "HTTP/1.1 "@ + status + "\r\nContent-Type: "@ + content_type;
    assert(response_head(status, content_type, body.len()) =~= start + "\r\nContent-Length: "@
        + decimal_chars(body.len()) + "\r\nConnection: close\r\n\r\n"@);
    assert(start.subrange(0, 9) =~= "HTTP/1.1 "@);
    let _ = start + "\r\nContent-Length: "@;
}

/// The first line of a UTF-8 request head.
fn first_request_line(text: &str) -> (line: &str)
    ensures
        line@ == request_line(text@),
{
    let n = text.unicode_len();
    let mut i: usize = 0;
    while n > 0 && i < n - 1 && !(text.get_char(i) == '\r' && text.get_char(i + 1) == '\n')
        invariant
            i <= n,
            n == text@.len(),
            forall|k: int| 0 <= k < i ==> !#[trigger] crlf_at(text@, k),
        decreases n - i,
    {
        i = i + 1;
    }
    if n > 0 && i < n - 1 {
        assert(crlf_at(text@, i as int));
        text.substring_char(0, i)
    } else {
        proof {
            assert(text@.subrange(0, n as int) =~= text@);
        }
        text.substring_char(0, n)
    }
}

impl StaticService {
    /// The octets a static cover endpoint writes in answer to a request
    /// `head`, or why the request is malformed.
    #[verifier::loop_isolation(false)]
    pub fn reply(&self, head: &[u8]) -> (reply: Result<Vec<u8>, CoverServiceError>)
        ensures
            match static_reply(self.assets@, head@) {
                Some(r) => reply matches Ok(v) && v@ == r,
                None => reply == Err::<Vec<u8>, CoverServiceError>(CoverServiceError::MalformedRequest),
            },
    {
        proof {
            reveal_strlit("GET");
            reveal_strlit("HEAD");
            assert("GET"@ =~= get_method());
            assert("HEAD"@ =~= head_method());
        }
        let text = match utf8_text(head) {
            Some(t) => t,
            None => return Err(CoverServiceError::MalformedRequest),
        };
        proof {
            vstd::utf8::encode_utf8_decode_utf8(text@);
        }
        let line = first_request_line(text);
        let words = first_words(line);
        if words.len() < 2 || !(str_equal(words[0], "GET") || str_equal(words[0], "HEAD")) {
            return Err(CoverServiceError::MalformedRequest);
        }
        let path = words[1];
        let omit_body = str_equal(words[0], "HEAD");
        let n = self.assets.len();
        let mut i: usize = 0;
        while i < n && !str_equal(self.assets[i].0.as_str(), path)
            invariant
                i <= n,
                n == self.assets@.len(),
                forall|k: int| 0 <= k < i ==> self.assets@[k].0@ != path@,
            decreases n - i,
        {
            i = i + 1;
        }
        let mut out = String::from_str("HTTP/1.1 ");
        let missing_body: Vec<u8> = vec![0x4e, 0x6f, 0x74, 0x20, 0x46, 0x6f, 0x75, 0x6e, 0x64, 0x0a];
        if i < n {
            out.append("200 OK");
        } else {
            out.append("404 Not Found");
        }
        out.append("\r\nContent-Type: ");
        if i < n {
            out.append(self.assets[i].1.content_type.as_str());
        } else {
            out.append("text/plain; charset=utf-8");
        }
        out.append("\r\nContent-Length: ");
        let length = if i < n {
            self.assets[i].1.body.len()
        } else {
            missing_body.len()
        };
        push_decimal(&mut out, length as u64);
        out.append("\r\nConnection: close\r\n\r\n");
        let mut reply: Vec<u8> = Vec::new();
        crate::bytes::push_all(&mut reply, out.as_str().as_bytes());
        if !omit_body {
            if i < n {
                crate::bytes::push_all(&mut reply, self.assets[i].1.body.as_slice());
            } else {
                crate::bytes::push_all(&mut reply, missing_body.as_slice());
            }
        }
        proof {
            reveal_strlit("HTTP/1.1 ");
            reveal_strlit("200 OK");
            reveal_strlit("404 Not Found");
            reveal_strlit("\r\nContent-Type: ");
            reveal_strlit("text/plain; charset=utf-8");
            reveal_strlit("\r\nContent-Length: ");
            reveal_strlit("\r\nConnection: close\r\n\r\n");
            reveal_strlit("Not Found\n");
            assert("Not Found\n"@.map_values(|c: char| c as u8) =~= missing_body@);
            if i < n {
                assert(asset_at(self.assets@, path@) == Some(i as int));
            } else {
                assert(asset_at(self.assets@, path@) is None);
            }
        }
        Ok(reply)
    }
}

} // verus!
