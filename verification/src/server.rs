//! Server-side admission policy: principal authentication, exact destination
//! authorization, and bounded per-principal resource admission.
use vstd::prelude::*;
use subtle::ConstantTimeEq;
use crate::net::{SocketAddress, AddressView, socket_address_equal};

verus! {

/// The configured identity a credential authenticates.
#[derive(Clone, Copy, Debug, PartialEq, Eq, PartialOrd, Ord, Structural)]
pub struct PrincipalId(pub u64);

#[derive(Clone, Debug, PartialEq, Eq, Structural)]
pub enum AuthenticationError {
    InvalidCredential,
    DuplicateCredential,
    DuplicatePrincipal,
    InconsistentCredentialLength,
}

/// Compares two byte strings in constant time.
///
/// Calls `subtle::ConstantTimeEq::ct_eq` on the two slices, which yields a
/// true `Choice` exactly when the lengths and every byte agree, and converts
/// it with `bool::from`.
#[verifier::external_body]
fn constant_time_equal(a: &[u8], b: &[u8]) -> (equal: bool)
    ensures
        equal == (a@ == b@),
{
    bool::from(a.ct_eq(b))
}

/// One principal and its non-empty shared secret.
pub struct PrincipalCredential {
    pub principal: PrincipalId,
    secret: Vec<u8>,
}

impl PrincipalCredential {
    pub closed spec fn spec_secret(&self) -> Seq<u8> {
        self.secret@
    }

    pub closed spec fn spec_principal(&self) -> u64 {
        self.principal.0
    }

    /// Pairs a principal with a secret; an empty secret is refused.
    pub fn new(principal: PrincipalId, secret: Vec<u8>) -> (credential: Result<
        Self,
        AuthenticationError,
    >)
        ensures
            credential is Ok <==> secret@.len() > 0,
            credential matches Ok(c) ==> c.spec_principal() == principal.0 && c.spec_secret() == secret@,
            credential matches Err(e) ==> e == AuthenticationError::InvalidCredential,
    {
        if secret.len() == 0 {
            return Err(AuthenticationError::InvalidCredential);
        }
        Ok(PrincipalCredential { principal, secret })
    }
}

/// The principal and secret of each credential, in configuration order.
pub open spec fn credentials_view(credentials: Seq<PrincipalCredential>) -> Seq<(u64, Seq<u8>)> {
    credentials.map_values(|c: PrincipalCredential| (c.spec_principal(), c.spec_secret()))
}

/// Why a configuration of credentials is refused, checking each credential
/// in order against the ones before it.
pub open spec fn spec_credentials_error(c: Seq<(u64, Seq<u8>)>) -> Option<AuthenticationError>
    decreases c.len(),
{
    if c.len() == 0 {
        None
    } else {
        let prefix = c.drop_last();
        let last = c.last();
        match spec_credentials_error(prefix) {
            Some(e) => Some(e),
            None => if prefix.len() > 0 && last.1.len() != prefix[0].1.len() {
                Some(AuthenticationError::InconsistentCredentialLength)
            } else if exists|j: int| 0 <= j < prefix.len() && prefix[j].1 == last.1 {
                Some(AuthenticationError::DuplicateCredential)
            } else if exists|j: int| 0 <= j < prefix.len() && prefix[j].0 == last.0 {
                Some(AuthenticationError::DuplicatePrincipal)
            } else {
                None
            },
        }
    }
}

/// Every secret has one length, and no two credentials share a principal or
/// a secret.
pub open spec fn credentials_wf(c: Seq<(u64, Seq<u8>)>) -> bool {
    &&& forall|i: int| 0 <= i < c.len() ==> #[trigger] c[i].1.len() == c[0].1.len()
    &&& forall|i: int, j: int| 0 <= i < j < c.len() ==> c[i].1 != c[j].1 && c[i].0 != c[j].0
}

/// Credential sets that configuration accepts are well formed: every secret
/// has the same length and no two principals share a secret.
pub proof fn lemma_accepted_credentials_are_distinct(c: Seq<(u64, Seq<u8>)>)
    requires
        spec_credentials_error(c) is None,
    ensures
        credentials_wf(c),
    decreases c.len(),
{
    if c.len() > 0 {
        let prefix = c.drop_last();
        lemma_accepted_credentials_are_distinct(prefix);
        assert forall|i: int| 0 <= i < c.len() implies #[trigger] c[i].1.len() == c[0].1.len() by {
            if i < c.len() - 1 {
                assert(c[i] == prefix[i]);
                assert(c[0] == prefix[0]);
            }
        }
        assert forall|i: int, j: int| 0 <= i < j < c.len() implies c[i].1 != c[j].1 && c[i].0
            != c[j].0 by {
            assert(c[i] == prefix[i]);
            if j < c.len() - 1 {
                assert(c[j] == prefix[j]);
            }
        }
    }
}

/// The principal whose configured secret equals `secret`, if any.
pub open spec fn spec_authenticate(c: Seq<(u64, Seq<u8>)>, secret: Seq<u8>) -> Option<u64> {
    if exists|i: int| 0 <= i < c.len() && c[i].1 == secret {
        Some(c[choose|i: int| 0 <= i < c.len() && c[i].1 == secret].0)
    } else {
        None
    }
}

/// Authentication law: in a well-formed credential set, a secret
/// authenticates exactly the principal configured with it, and nothing else
/// authenticates.
pub proof fn lemma_authenticates_exactly_the_configured(
    c: Seq<(u64, Seq<u8>)>,
    secret: Seq<u8>,
    principal: u64,
)
    requires
        credentials_wf(c),
    ensures
        spec_authenticate(c, secret) == Some(principal) <==> exists|i: int|
            0 <= i < c.len() && c[i] == (principal, secret),
{
    if exists|i: int| 0 <= i < c.len() && c[i] == (principal, secret) {
        let i = choose|i: int| 0 <= i < c.len() && c[i] == (principal, secret);
        let w = choose|w: int| 0 <= w < c.len() && c[w].1 == secret;
        if i != w {
            if i < w {
                assert(c[i].1 != c[w].1);
            } else {
                assert(c[w].1 != c[i].1);
            }
        }
    }
    if spec_authenticate(c, secret) == Some(principal) {
        let w = choose|w: int| 0 <= w < c.len() && c[w].1 == secret;
        assert(c[w] == (principal, secret));
    }
}

/// Constant-time shared-secret authentication. Credentials are
/// configuration inputs and must never be logged.
pub struct Authenticator {
    credentials: Vec<PrincipalCredential>,
    secret_length: Option<usize>,
}

impl Authenticator {
    /// The configured principals and secrets, in order.
    pub closed spec fn spec_credentials(&self) -> Seq<(u64, Seq<u8>)> {
        credentials_view(self.credentials@)
    }

    pub closed spec fn wf(&self) -> bool {
        &&& credentials_wf(self.spec_credentials())
        &&& self.spec_credentials().len() == 0 ==> self.secret_length is None
        &&& self.spec_credentials().len() > 0 ==> self.secret_length is Some
            && self.secret_length->Some_0 == self.spec_credentials()[0].1.len()
    }

    /// Builds the credential set; refused on inconsistent secret lengths, a
    /// shared secret, or a repeated principal, whichever the first offending
    /// credential shows first.
    #[verifier::loop_isolation(false)]
    pub fn new(credentials: Vec<PrincipalCredential>) -> (authenticator: Result<
        Self,
        AuthenticationError,
    >)
        ensures
            match spec_credentials_error(credentials_view(credentials@)) {
                None => authenticator is Ok,
                Some(e) => authenticator == Err::<Self, AuthenticationError>(e),
            },
            authenticator matches Ok(a) ==> a.wf() && a.spec_credentials() == credentials_view(
                credentials@,
            ) && credentials_wf(a.spec_credentials()),
    {
        let ghost all = credentials_view(credentials@);
        let mut secret_length: Option<usize> = None;
        let mut i: usize = 0;
        while i < credentials.len()
            invariant
                i <= credentials@.len(),
                all == credentials_view(credentials@),
                spec_credentials_error(all.subrange(0, i as int)) is None,
                i == 0 ==> secret_length is None,
                i > 0 ==> secret_length is Some && secret_length->Some_0 == all[0].1.len(),
            decreases credentials@.len() - i,
        {
            let ghost prefix = all.subrange(0, i as int);
            assert(i > 0 ==> prefix[0] == all[0]);
            assert(all.subrange(0, i + 1).drop_last() =~= prefix);
            assert(all.subrange(0, i + 1).last() == all[i as int]);
            let credential = &credentials[i];
            assert(all[i as int] == (credential.spec_principal(), credential.spec_secret()));
            if let Some(expected) = secret_length {
                if credential.secret.len() != expected {
                    proof {
                        lemma_error_persists(all, i as int + 1);
                    }
                    return Err(AuthenticationError::InconsistentCredentialLength);
                }
            }
            let mut j: usize = 0;
            while j < i
                invariant
                    j <= i < credentials@.len(),
                    all == credentials_view(credentials@),
                    forall|k: int| 0 <= k < j ==> all[k].1 != all[i as int].1,
                decreases i - j,
            {
                assert(all[j as int] == (credentials@[j as int].spec_principal(), credentials@[j as int].spec_secret()));
                if constant_time_equal(credentials[j].secret.as_slice(), credential.secret.as_slice()) {
                    proof {
                        assert(prefix[j as int].1 == all[i as int].1);
                        lemma_error_persists(all, i as int + 1);
                    }
                    return Err(AuthenticationError::DuplicateCredential);
                }
                j = j + 1;
            }
            let mut j: usize = 0;
            while j < i
                invariant
                    j <= i < credentials@.len(),
                    all == credentials_view(credentials@),
                    forall|k: int| 0 <= k < j ==> all[k].0 != all[i as int].0,
                decreases i - j,
            {
                assert(all[j as int] == (credentials@[j as int].spec_principal(), credentials@[j as int].spec_secret()));
                if credentials[j].principal.0 == credential.principal.0 {
                    proof {
                        assert(prefix[j as int].0 == all[i as int].0);
                        lemma_error_persists(all, i as int + 1);
                    }
                    return Err(AuthenticationError::DuplicatePrincipal);
                }
                j = j + 1;
            }
            proof {
                assert forall|k: int| 0 <= k < prefix.len() implies prefix[k].1 != all[i as int].1
                    by {
                    assert(prefix[k] == all[k]);
                }
                assert forall|k: int| 0 <= k < prefix.len() implies prefix[k].0 != all[i as int].0
                    by {
                    assert(prefix[k] == all[k]);
                }
            }
            secret_length = Some(credential.secret.len());
            i = i + 1;
        }
        assert(all.subrange(0, i as int) =~= all);
        proof {
            lemma_accepted_credentials_are_distinct(all);
        }
        Ok(Authenticator { credentials, secret_length })
    }

    /// Authenticates a presented secret: the principal whose configured secret
    /// equals it, comparing every configured secret in constant time.
    #[verifier::loop_isolation(false)]
    pub fn authenticate(&self, secret: &[u8]) -> (principal: Result<PrincipalId, AuthenticationError>)
        requires
            self.wf(),
        ensures
            match spec_authenticate(self.spec_credentials(), secret@) {
                Some(p) => principal == Ok::<PrincipalId, AuthenticationError>(PrincipalId(p)),
                None => principal == Err::<PrincipalId, AuthenticationError>(
                    AuthenticationError::InvalidCredential,
                ),
            },
    {
        let ghost c = self.spec_credentials();
        match self.secret_length {
            Some(length) => {
                if length != secret.len() {
                    assert forall|k: int| 0 <= k < c.len() implies #[trigger] c[k].1 != secret@ by {
                        assert(c[k].1.len() == c[0].1.len());
                    }
                    return Err(AuthenticationError::InvalidCredential);
                }
            },
            None => return Err(AuthenticationError::InvalidCredential),
        }
        let mut authenticated: Option<PrincipalId> = None;
        let mut i: usize = 0;
        while i < self.credentials.len()
            invariant
                i <= self.credentials@.len(),
                c == credentials_view(self.credentials@),
                credentials_wf(c),
                match authenticated {
                    Some(p) => exists|k: int| 0 <= k < i && c[k].1 == secret@ && c[k].0 == p.0,
                    None => forall|k: int| 0 <= k < i ==> c[k].1 != secret@,
                },
            decreases self.credentials@.len() - i,
        {
            assert(c[i as int] == (self.credentials@[i as int].spec_principal(), self.credentials@[i as int].spec_secret()));
            if constant_time_equal(self.credentials[i].secret.as_slice(), secret) {
                authenticated = Some(self.credentials[i].principal);
            }
            i = i + 1;
        }
        match authenticated {
            Some(p) => {
                proof {
                    let k = choose|k: int| 0 <= k < i && c[k].1 == secret@ && c[k].0 == p.0;
                    let w = choose|w: int| 0 <= w < c.len() && c[w].1 == secret@;
                    if k != w {
                        if k < w {
                            assert(c[k].1 != c[w].1);
                        } else {
                            assert(c[w].1 != c[k].1);
                        }
                    }
                }
                Ok(p)
            },
            None => Err(AuthenticationError::InvalidCredential),
        }
    }
}

proof fn lemma_error_persists(c: Seq<(u64, Seq<u8>)>, n: int)
    requires
        0 < n <= c.len(),
        spec_credentials_error(c.subrange(0, n - 1)) is None,
    ensures
        spec_credentials_error(c.subrange(0, n)) is Some ==> spec_credentials_error(c) == spec_credentials_error(c.subrange(0, n)),
    decreases c.len() - n,
{
    if n < c.len() {
        assert(c.subrange(0, n + 1).drop_last() =~= c.subrange(0, n));
        if spec_credentials_error(c.subrange(0, n)) is Some {
            lemma_error_prefix(c, n);
        }
    } else {
        assert(c.subrange(0, n) =~= c);
    }
}

proof fn lemma_error_prefix(c: Seq<(u64, Seq<u8>)>, n: int)
    requires
        0 <= n <= c.len(),
        spec_credentials_error(c.subrange(0, n)) is Some,
    ensures
        spec_credentials_error(c) == spec_credentials_error(c.subrange(0, n)),
    decreases c.len() - n,
{
    if n == c.len() {
        assert(c.subrange(0, n) =~= c);
    } else {
        assert(c.subrange(0, n + 1).drop_last() =~= c.subrange(0, n));
        lemma_error_prefix(c, n + 1);
    }
}

/// Exact destination allowlist. An empty policy denies every target.
#[derive(Clone, Debug, Default)]
pub struct DestinationPolicy {
    allowed: Vec<SocketAddress>,
}

impl DestinationPolicy {
    pub closed spec fn spec_allowed(&self) -> Seq<AddressView> {
        self.allowed@.map_values(|a: SocketAddress| a@)
    }

    /// Allows exactly the given targets.
    pub fn new(allowed: Vec<SocketAddress>) -> (policy: Self)
        ensures
            policy.spec_allowed() == allowed@.map_values(|a: SocketAddress| a@),
    {
        DestinationPolicy { allowed }
    }

    /// Whether the target is one of the allowed targets, address and port.
    pub fn allows(&self, target: &SocketAddress) -> (allowed: bool)
        ensures
            allowed == self.spec_allowed().contains(target@),
    {
        let ghost view = self.spec_allowed();
        let mut i: usize = 0;
        while i < self.allowed.len()
            invariant
                i <= self.allowed@.len(),
                view == self.allowed@.map_values(|a: SocketAddress| a@),
                forall|k: int| 0 <= k < i ==> view[k] != target@,
            decreases self.allowed@.len() - i,
        {
            if socket_address_equal(&self.allowed[i], target) {
                assert(view[i as int] == target@);
                return true;
            }
            i = i + 1;
        }
        false
    }
}

/// Per-principal admission limits.
#[derive(Clone, Copy, Debug, PartialEq, Eq, Structural)]
pub struct PrincipalQuota {
    pub max_sessions: usize,
    pub max_flows_per_session: usize,
}

#[derive(Clone, Copy, Debug, PartialEq, Eq, Structural)]
pub enum AdmissionError {
    SessionQuotaExceeded,
    FlowQuotaExceeded,
    UnknownSession,
}

/// A handle for one admitted session.
#[derive(Clone, Copy, Debug, PartialEq, Eq, Hash, PartialOrd, Ord, Structural)]
pub struct SessionLease(u64);

impl SessionLease {
    pub closed spec fn spec_value(self) -> u64 {
        self.0
    }
}

/// One admitted session: its principal, lease and open flow count.
#[derive(Clone, Copy, Debug, PartialEq, Eq, Structural)]
pub struct SessionUsage {
    pub principal: PrincipalId,
    pub lease: SessionLease,
    pub flows: usize,
}

/// How many sessions in `s` belong to `principal`.
pub open spec fn spec_session_count(s: Seq<SessionUsage>, principal: u64) -> nat
    decreases s.len(),
{
    if s.len() == 0 {
        0
    } else {
        spec_session_count(s.drop_last(), principal) + if s.last().principal.0 == principal {
            1nat
        } else {
            0nat
        }
    }
}

/// Where the session of `principal` with `lease` is recorded.
pub open spec fn spec_session_at(s: Seq<SessionUsage>, principal: u64, lease: u64, i: int) -> bool {
    0 <= i < s.len() && s[i].principal.0 == principal && s[i].lease.spec_value() == lease
}

pub open spec fn spec_has_session(s: Seq<SessionUsage>, principal: u64, lease: u64) -> bool {
    exists|i: int| spec_session_at(s, principal, lease, i)
}

proof fn lemma_count_push(s: Seq<SessionUsage>, u: SessionUsage, p: u64)
    ensures
        spec_session_count(s.push(u), p) == spec_session_count(s, p) + if u.principal.0 == p {
            1nat
        } else {
            0nat
        },
{
    assert(s.push(u).drop_last() =~= s);
}

proof fn lemma_count_update(s: Seq<SessionUsage>, i: int, u: SessionUsage, p: u64)
    requires
        0 <= i < s.len(),
        u.principal == s[i].principal,
    ensures
        spec_session_count(s.update(i, u), p) == spec_session_count(s, p),
    decreases s.len(),
{
    if i < s.len() - 1 {
        assert(s.update(i, u).drop_last() =~= s.drop_last().update(i, u));
        lemma_count_update(s.drop_last(), i, u, p);
    } else {
        assert(s.update(i, u).drop_last() =~= s.drop_last());
    }
}

proof fn lemma_count_remove(s: Seq<SessionUsage>, i: int, p: u64)
    requires
        0 <= i < s.len(),
    ensures
        spec_session_count(s, p) == spec_session_count(s.remove(i), p) + if s[i].principal.0 == p {
            1nat
        } else {
            0nat
        },
    decreases s.len(),
{
    if i < s.len() - 1 {
        assert(s.remove(i).drop_last() =~= s.drop_last().remove(i));
        assert(s.remove(i).last() == s.last());
        lemma_count_remove(s.drop_last(), i, p);
    } else {
        assert(s.remove(i) =~= s.drop_last());
    }
}

proof fn lemma_count_bound(s: Seq<SessionUsage>, p: u64)
    ensures
        spec_session_count(s, p) <= s.len(),
    decreases s.len(),
{
    if s.len() > 0 {
        lemma_count_bound(s.drop_last(), p);
    }
}

/// In-memory quota accounting for one server process.
#[derive(Debug)]
pub struct AdmissionControl {
    quota: PrincipalQuota,
    next_lease: u64,
    sessions: Vec<SessionUsage>,
}

impl AdmissionControl {
    pub closed spec fn spec_quota(&self) -> PrincipalQuota {
        self.quota
    }

    pub closed spec fn spec_next_lease(&self) -> u64 {
        self.next_lease
    }

    /// The admitted sessions, oldest first.
    pub closed spec fn spec_sessions(&self) -> Seq<SessionUsage> {
        self.sessions@
    }

    /// Each session is recorded once, leases come from the counter, and no
    /// principal exceeds its session quota nor any session its flow quota.
    pub open spec fn wf(&self) -> bool {
        let s = self.spec_sessions();
        &&& forall|i: int, j: int| 0 <= i < j < s.len() ==> s[i].lease != s[j].lease
        &&& forall|i: int| 0 <= i < s.len() ==> #[trigger] s[i].lease.spec_value() < self.spec_next_lease()
        &&& forall|i: int| 0 <= i < s.len() ==> #[trigger] s[i].flows
            <= self.spec_quota().max_flows_per_session
        &&& forall|p: u64| #[trigger] spec_session_count(s, p) <= self.spec_quota().max_sessions
    }

    /// Starts accounting with no sessions.
    pub fn new(quota: PrincipalQuota) -> (admission: Self)
        ensures
            admission.wf(),
            admission.spec_quota() == quota,
            admission.spec_next_lease() == 0,
            admission.spec_sessions() == Seq::<SessionUsage>::empty(),
    {
        AdmissionControl { quota, next_lease: 0, sessions: Vec::new() }
    }

    fn session_count(&self, principal: PrincipalId) -> (count: usize)
        ensures
            count == spec_session_count(self.spec_sessions(), principal.0),
    {
        let mut count: usize = 0;
        let mut i: usize = 0;
        while i < self.sessions.len()
            invariant
                i <= self.sessions@.len(),
                count == spec_session_count(self.sessions@.subrange(0, i as int), principal.0),
            decreases self.sessions@.len() - i,
        {
            assert(self.sessions@.subrange(0, i + 1).drop_last() =~= self.sessions@.subrange(0, i as int));
            proof {
                lemma_count_bound(self.sessions@.subrange(0, i as int), principal.0);
            }
            if self.sessions[i].principal.0 == principal.0 {
                count = count + 1;
            }
            i = i + 1;
        }
        assert(self.sessions@.subrange(0, i as int) =~= self.sessions@);
        count
    }

    fn find(&self, principal: PrincipalId, lease: SessionLease) -> (index: Option<usize>)
        ensures
            match index {
                Some(i) => spec_session_at(self.spec_sessions(), principal.0, lease.spec_value(), i as int),
                None => !spec_has_session(self.spec_sessions(), principal.0, lease.spec_value()),
            },
    {
        let mut i: usize = 0;
        while i < self.sessions.len()
            invariant
                i <= self.sessions@.len(),
                forall|k: int| 0 <= k < i ==> !spec_session_at(self.sessions@, principal.0, lease.spec_value(), k),
            decreases self.sessions@.len() - i,
        {
            if self.sessions[i].principal.0 == principal.0 && self.sessions[i].lease.0 == lease.0 {
                return Some(i);
            }
            i = i + 1;
        }
        None
    }

    /// Admits a new session for the principal unless it already holds its
    /// quota of sessions.
    pub fn open_session(&mut self, principal: PrincipalId) -> (lease: Result<
        SessionLease,
        AdmissionError,
    >)
        requires
            old(self).wf(),
            old(self).spec_next_lease() < u64::MAX,
        ensures
            final(self).wf(),
            final(self).spec_quota() == old(self).spec_quota(),
            spec_session_count(old(self).spec_sessions(), principal.0) >= old(self).spec_quota().max_sessions ==> lease == Err::<SessionLease, AdmissionError>(
                AdmissionError::SessionQuotaExceeded,
            ) && final(self).spec_sessions() == old(self).spec_sessions()
                && final(self).spec_next_lease() == old(self).spec_next_lease(),
            spec_session_count(old(self).spec_sessions(), principal.0) < old(self).spec_quota().max_sessions ==> {
                &&& lease is Ok
                &&& lease->Ok_0.spec_value() == old(self).spec_next_lease()
                &&& final(self).spec_sessions() == old(self).spec_sessions().push(
                    SessionUsage { principal, lease: lease->Ok_0, flows: 0 },
                )
                &&& final(self).spec_next_lease() == old(self).spec_next_lease() + 1
            },
    {
        if self.session_count(principal) >= self.quota.max_sessions {
            return Err(AdmissionError::SessionQuotaExceeded);
        }
        let lease = SessionLease(self.next_lease);
        let ghost before = self.sessions@;
        self.next_lease = self.next_lease + 1;
        self.sessions.push(SessionUsage { principal, lease, flows: 0 });
        proof {
            assert forall|p: u64| #[trigger] spec_session_count(self.sessions@, p) <= self.quota.max_sessions by {
                lemma_count_push(before, SessionUsage { principal, lease, flows: 0 }, p);
            }
            assert forall|i: int, j: int| 0 <= i < j < self.sessions@.len() implies self.sessions@[i].lease != self.sessions@[j].lease by {
                assert(self.sessions@[i] == before[i]);
                if j < before.len() {
                    assert(self.sessions@[j] == before[j]);
                } else {
                    assert(before[i].lease.spec_value() < lease.spec_value());
                }
            }
            assert forall|i: int| 0 <= i < self.sessions@.len() implies #[trigger] self.sessions@[i].flows <= self.quota.max_flows_per_session by {
                if i < before.len() {
                    assert(self.sessions@[i] == before[i]);
                }
            }
            assert forall|i: int| 0 <= i < self.sessions@.len() implies #[trigger] self.sessions@[i].lease.spec_value() < self.next_lease by {
                if i < before.len() {
                    assert(self.sessions@[i] == before[i]);
                }
            }
        }
        Ok(lease)
    }

    /// Counts one more flow on an admitted session, within the flow quota.
    pub fn open_flow(&mut self, principal: PrincipalId, lease: SessionLease) -> (opened: Result<
        (),
        AdmissionError,
    >)
        requires
            old(self).wf(),
        ensures
            final(self).wf(),
            final(self).spec_quota() == old(self).spec_quota(),
            final(self).spec_next_lease() == old(self).spec_next_lease(),
            !spec_has_session(old(self).spec_sessions(), principal.0, lease.spec_value()) ==> opened
                == Err::<(), AdmissionError>(AdmissionError::UnknownSession) && final(self).spec_sessions() == old(self).spec_sessions(),
            forall|i: int| #[trigger]
                spec_session_at(old(self).spec_sessions(), principal.0, lease.spec_value(), i) ==> {
                    let u = old(self).spec_sessions()[i];
                    if u.flows >= old(self).spec_quota().max_flows_per_session {
                        opened == Err::<(), AdmissionError>(AdmissionError::FlowQuotaExceeded)
                            && final(self).spec_sessions() == old(self).spec_sessions()
                    } else {
                        opened is Ok && final(self).spec_sessions() == old(self).spec_sessions().update(
                            i,
                            SessionUsage { flows: (u.flows + 1) as usize, ..u },
                        )
                    }
                },
    {
        let index = match self.find(principal, lease) {
            Some(i) => i,
            None => return Err(AdmissionError::UnknownSession),
        };
        let usage = self.sessions[index];
        if usage.flows >= self.quota.max_flows_per_session {
            return Err(AdmissionError::FlowQuotaExceeded);
        }
        let ghost before = self.sessions@;
        let updated = SessionUsage { flows: usage.flows + 1, ..usage };
        self.sessions.set(index, updated);
        proof {
            assert forall|p: u64| #[trigger] spec_session_count(self.sessions@, p) <= self.quota.max_sessions by {
                lemma_count_update(before, index as int, updated, p);
            }
            assert forall|i: int| #[trigger] spec_session_at(before, principal.0, lease.spec_value(), i) implies i == index by {
                if i != index {
                    if i < index {
                        assert(before[i].lease != before[index as int].lease);
                    } else {
                        assert(before[index as int].lease != before[i].lease);
                    }
                }
            }
        }
        Ok(())
    }

    /// Releases one flow of an admitted session; a session without open
    /// flows reports it unknown.
    pub fn close_flow(&mut self, principal: PrincipalId, lease: SessionLease) -> (closed: Result<
        (),
        AdmissionError,
    >)
        requires
            old(self).wf(),
        ensures
            final(self).wf(),
            final(self).spec_quota() == old(self).spec_quota(),
            final(self).spec_next_lease() == old(self).spec_next_lease(),
            !spec_has_session(old(self).spec_sessions(), principal.0, lease.spec_value()) ==> closed
                == Err::<(), AdmissionError>(AdmissionError::UnknownSession) && final(self).spec_sessions() == old(self).spec_sessions(),
            forall|i: int| #[trigger]
                spec_session_at(old(self).spec_sessions(), principal.0, lease.spec_value(), i) ==> {
                    let u = old(self).spec_sessions()[i];
                    if u.flows == 0 {
                        closed == Err::<(), AdmissionError>(AdmissionError::UnknownSession)
                            && final(self).spec_sessions() == old(self).spec_sessions()
                    } else {
                        closed is Ok && final(self).spec_sessions() == old(self).spec_sessions().update(
                            i,
                            SessionUsage { flows: (u.flows - 1) as usize, ..u },
                        )
                    }
                },
    {
        let index = match self.find(principal, lease) {
            Some(i) => i,
            None => return Err(AdmissionError::UnknownSession),
        };
        let usage = self.sessions[index];
        if usage.flows == 0 {
            return Err(AdmissionError::UnknownSession);
        }
        let ghost before = self.sessions@;
        let updated = SessionUsage { flows: usage.flows - 1, ..usage };
        self.sessions.set(index, updated);
        proof {
            assert forall|p: u64| #[trigger] spec_session_count(self.sessions@, p) <= self.quota.max_sessions by {
                lemma_count_update(before, index as int, updated, p);
            }
            assert forall|i: int| #[trigger] spec_session_at(before, principal.0, lease.spec_value(), i) implies i == index by {
                if i != index {
                    if i < index {
                        assert(before[i].lease != before[index as int].lease);
                    } else {
                        assert(before[index as int].lease != before[i].lease);
                    }
                }
            }
        }
        Ok(())
    }

    /// Ends an admitted session, releasing its slot in the principal's quota.
    pub fn close_session(&mut self, principal: PrincipalId, lease: SessionLease) -> (closed: Result<
        (),
        AdmissionError,
    >)
        requires
            old(self).wf(),
        ensures
            final(self).wf(),
            final(self).spec_quota() == old(self).spec_quota(),
            final(self).spec_next_lease() == old(self).spec_next_lease(),
            !spec_has_session(old(self).spec_sessions(), principal.0, lease.spec_value()) ==> closed
                == Err::<(), AdmissionError>(AdmissionError::UnknownSession) && final(self).spec_sessions() == old(self).spec_sessions(),
            forall|i: int| #[trigger]
                spec_session_at(old(self).spec_sessions(), principal.0, lease.spec_value(), i) ==> closed
                    is Ok && final(self).spec_sessions() == old(self).spec_sessions().remove(i),
            closed is Ok ==> spec_session_count(final(self).spec_sessions(), principal.0) + 1
                == spec_session_count(old(self).spec_sessions(), principal.0),
    {
        let index = match self.find(principal, lease) {
            Some(i) => i,
            None => return Err(AdmissionError::UnknownSession),
        };
        let ghost before = self.sessions@;
        self.sessions.remove(index);
        proof {
            lemma_count_remove(before, index as int, principal.0);
            assert forall|p: u64| #[trigger] spec_session_count(self.sessions@, p) <= self.quota.max_sessions by {
                lemma_count_remove(before, index as int, p);
            }
            assert forall|i: int, j: int| 0 <= i < j < self.sessions@.len() implies self.sessions@[i].lease != self.sessions@[j].lease by {
                let bi = if i < index { i } else { i + 1 };
                let bj = if j < index { j } else { j + 1 };
                assert(self.sessions@[i] == before[bi]);
                assert(self.sessions@[j] == before[bj]);
            }
            assert forall|i: int| 0 <= i < self.sessions@.len() implies #[trigger] self.sessions@[i].lease.spec_value() < self.next_lease && self.sessions@[i].flows <= self.quota.max_flows_per_session by {
                let bi = if i < index { i } else { i + 1 };
                assert(self.sessions@[i] == before[bi]);
            }
            assert forall|i: int| #[trigger] spec_session_at(before, principal.0, lease.spec_value(), i) implies i == index by {
                if i != index {
                    if i < index {
                        assert(before[i].lease != before[index as int].lease);
                    } else {
                        assert(before[index as int].lease != before[i].lease);
                    }
                }
            }
        }
        Ok(())
    }
}

} // verus!
