//! Transactional lifecycle of a privileged desktop traffic host. A request
//! reaches it only after the platform transport has authenticated the peer.
//! The host journals before it mutates the network, rejects older profile
//! generations, answers a repeated request identifier with the response it
//! gave before, and after a failed mutation accepts nothing but recovery.
use vstd::prelude::*;

use crate::helper::{
    Capability, Command, CommandResult, ErrorCode, HostState, IpNetwork, Request, Response,
    StartParameters, Success, PROTOCOL_VERSION,
};
use crate::net::IpAddress;

verus! {

/// Responses remembered for retries.
pub const MAX_CACHED_RESPONSES: usize = 256;

/// Why a platform operation or the journal failed.
#[derive(Clone, Copy, Debug, PartialEq, Eq, Structural)]
pub enum HostFailure {
    InvalidConfiguration,
    Platform,
    Journal,
}

/// Recovery record written before any route or DNS mutation.
#[derive(Clone, Debug, PartialEq, Eq)]
pub struct RecoveryRecord {
    pub profile_generation: u64,
    pub configuration: StartParameters,
}

/// The content of a start configuration.
pub struct ParametersView {
    pub mtu: u16,
    pub ipv4: Option<IpNetwork>,
    pub ipv6: Option<IpNetwork>,
    pub dns: Seq<IpAddress>,
}

/// The content of `configuration`.
pub open spec fn parameters_view(configuration: StartParameters) -> ParametersView {
    ParametersView {
        mtu: configuration.mtu,
        ipv4: configuration.ipv4,
        ipv6: configuration.ipv6,
        dns: configuration.dns@,
    }
}

/// The content of a recovery record.
pub struct RecordView {
    pub profile_generation: u64,
    pub configuration: ParametersView,
}

/// The content of `record`.
pub open spec fn record_view(record: RecoveryRecord) -> RecordView {
    RecordView {
        profile_generation: record.profile_generation,
        configuration: parameters_view(record.configuration),
    }
}

/// The content of what a journal load returned.
pub open spec fn loaded_view(loaded: Result<Option<RecoveryRecord>, HostFailure>) -> Result<
    Option<RecordView>,
    HostFailure,
> {
    match loaded {
        Ok(Some(record)) => Ok(Some(record_view(record))),
        Ok(None) => Ok(None),
        Err(e) => Err(e),
    }
}

/// One call made on a recovery journal, with what it was given and what it
/// answered.
pub enum JournalCall {
    Load(Result<Option<RecordView>, HostFailure>),
    Write(RecordView, Result<(), HostFailure>),
    Clear(Result<(), HostFailure>),
}

/// One call made on a platform backend, with what it was given and what it
/// answered.
pub enum PlatformCall {
    Start(ParametersView, Result<(), HostFailure>),
    Stop(Result<(), HostFailure>),
    Recover(RecordView, Result<(), HostFailure>),
}

/// The calls a journal has answered, oldest first.
pub type JournalCalls = Seq<JournalCall>;

/// The calls a backend has answered, oldest first.
pub type PlatformCalls = Seq<PlatformCall>;

/// Durable storage of the recovery record, supplied by the platform. Each
/// call is recorded in `journal_calls` with its argument and its answer.
pub trait RecoveryJournal {
    /// Every call answered so far, oldest first.
    spec fn journal_calls(&self) -> JournalCalls;

    fn load(&mut self) -> (loaded: Result<Option<RecoveryRecord>, HostFailure>)
        ensures
            final(self).journal_calls() == old(self).journal_calls().push(
                JournalCall::Load(loaded_view(loaded)),
            ),
    ;

    fn write(&mut self, record: &RecoveryRecord) -> (written: Result<(), HostFailure>)
        ensures
            final(self).journal_calls() == old(self).journal_calls().push(
                JournalCall::Write(record_view(*record), written),
            ),
    ;

    fn clear(&mut self) -> (cleared: Result<(), HostFailure>)
        ensures
            final(self).journal_calls() == old(self).journal_calls().push(
                JournalCall::Clear(cleared),
            ),
    ;
}

/// Privileged network operations, supplied by the platform. Each call is
/// recorded in `platform_calls` with its argument and its answer.
pub trait PlatformBackend {
    /// Every call answered so far, oldest first.
    spec fn platform_calls(&self) -> PlatformCalls;

    fn start(&mut self, configuration: &StartParameters) -> (started: Result<(), HostFailure>)
        ensures
            final(self).platform_calls() == old(self).platform_calls().push(
                PlatformCall::Start(parameters_view(*configuration), started),
            ),
    ;

    fn stop(&mut self) -> (stopped: Result<(), HostFailure>)
        ensures
            final(self).platform_calls() == old(self).platform_calls().push(
                PlatformCall::Stop(stopped),
            ),
    ;

    fn recover(&mut self, record: &RecoveryRecord) -> (recovered: Result<(), HostFailure>)
        ensures
            final(self).platform_calls() == old(self).platform_calls().push(
                PlatformCall::Recover(record_view(*record), recovered),
            ),
    ;
}

/// Mathematical content of a response.
pub struct ResponseView {
    pub version: u16,
    pub request_id: u64,
    pub profile_generation: u64,
    pub capabilities: Seq<Capability>,
    pub response: CommandResult,
}

/// The content of `response`.
pub open spec fn response_view(response: Response) -> ResponseView {
    ResponseView {
        version: response.version,
        request_id: response.request_id,
        profile_generation: response.profile_generation,
        capabilities: response.capabilities@,
        response: response.response,
    }
}

/// The lifecycle fields of a host.
#[derive(Clone, Copy)]
pub struct HostCore {
    pub state: HostState,
    pub generation: u64,
    pub recovery_required: bool,
}

/// Whether an interface prefix fits its address family.
pub open spec fn network_ok(network: IpNetwork) -> bool {
    match network.address {
        IpAddress::V4(_) => network.prefix_length <= 32,
        IpAddress::V6(_) => network.prefix_length <= 128,
    }
}

/// Whether a start configuration is acceptable: an MTU from 576 to 9000, at
/// least one address family, 1 to 16 DNS servers, and prefixes that fit.
pub open spec fn configuration_ok(c: StartParameters) -> bool {
    &&& 576 <= c.mtu <= 9000
    &&& (c.ipv4 is Some || c.ipv6 is Some)
    &&& 0 < c.dns@.len() <= 16
    &&& c.ipv4 matches Some(n) ==> network_ok(n)
    &&& c.ipv6 matches Some(n) ==> network_ok(n)
}

fn network_valid(network: &IpNetwork) -> (valid: bool)
    ensures
        valid == network_ok(*network),
{
    match network.address {
        IpAddress::V4(_) => network.prefix_length <= 32,
        IpAddress::V6(_) => network.prefix_length <= 128,
    }
}

/// Whether `configuration` is acceptable.
pub fn valid_configuration(configuration: &StartParameters) -> (valid: bool)
    ensures
        valid == configuration_ok(*configuration),
{
    if configuration.mtu < 576 || configuration.mtu > 9000 || (configuration.ipv4.is_none()
        && configuration.ipv6.is_none()) || configuration.dns.len() == 0
        || configuration.dns.len() > 16 {
        return false;
    }
    let v4 = match &configuration.ipv4 {
        Some(n) => network_valid(n),
        None => true,
    };
    let v6 = match &configuration.ipv6 {
        Some(n) => network_valid(n),
        None => true,
    };
    v4 && v6
}

/// A copy of `configuration`.
fn copy_parameters(configuration: &StartParameters) -> (copy: StartParameters)
    ensures
        parameters_view(copy) == parameters_view(*configuration),
{
    let mut dns: Vec<IpAddress> = Vec::new();
    let mut i: usize = 0;
    while i < configuration.dns.len()
        invariant
            i <= configuration.dns@.len(),
            dns@ == configuration.dns@.subrange(0, i as int),
        decreases configuration.dns@.len() - i,
    {
        dns.push(configuration.dns[i]);
        i = i + 1;
        assert(dns@ =~= configuration.dns@.subrange(0, i as int));
    }
    assert(configuration.dns@.subrange(0, i as int) =~= configuration.dns@);
    StartParameters { mtu: configuration.mtu, ipv4: configuration.ipv4, ipv6: configuration.ipv6, dns }
}

/// `core` with another state.
pub open spec fn in_state(core: HostCore, state: HostState) -> HostCore {
    HostCore { state, ..core }
}

/// `core` moved to recovery after a failed mutation.
pub open spec fn needs_recovery(core: HostCore) -> HostCore {
    HostCore { state: HostState::Recovering, recovery_required: true, ..core }
}

/// The larger of two generations.
pub open spec fn later(a: u64, b: u64) -> u64 {
    if a >= b {
        a
    } else {
        b
    }
}

/// The record journaled before starting `configuration` for `generation`.
pub open spec fn start_record(generation: u64, configuration: StartParameters) -> RecordView {
    RecordView { profile_generation: generation, configuration: parameters_view(configuration) }
}

/// What executing `request` on a host in state `old` does, given the calls it
/// made on the backend (`platform`) and on the journal (`journal`) with their
/// answers: which calls are made, in what order and with what arguments, and,
/// from their answers, the result and the new state.
///
/// A start journals the record of the request first, starts the backend only
/// after the journal took it, and runs the new generation only when both
/// succeeded. A stop stops the backend, then clears the journal. A recovery
/// loads the journal and, when it holds a record, hands that record to the
/// backend and clears the journal after the backend recovered.
pub open spec fn execute_outcome(
    old: HostCore,
    request: Request,
    platform: PlatformCalls,
    journal: JournalCalls,
    result: CommandResult,
    new: HostCore,
) -> bool {
    let failed = CommandResult::Failed(ErrorCode::Platform);
    let quiet = platform.len() == 0 && journal.len() == 0;
    match request.command {
        Command::Hello(_) => quiet && result == CommandResult::Succeeded(Success::Hello) && new == old,
        Command::Status(_) => quiet && result == CommandResult::Succeeded(
            Success::Status { state: old.state },
        ) && new == old,
        Command::Start(configuration) => if old.recovery_required {
            quiet && result == CommandResult::Failed(ErrorCode::RecoveryRequired) && new == old
        } else if !configuration_ok(configuration) {
            quiet && result == CommandResult::Failed(ErrorCode::InvalidConfiguration) && new == old
        } else if old.state == HostState::Starting || old.state == HostState::Stopping {
            quiet && result == CommandResult::Failed(ErrorCode::Busy) && new == old
        } else if old.state == HostState::Running && request.profile_generation == old.generation {
            quiet && result == CommandResult::Succeeded(Success::Started) && new == old
        } else {
            &&& journal.len() == 1
            &&& journal[0] matches JournalCall::Write(record, written)
            &&& record == start_record(request.profile_generation, configuration)
            &&& match written {
                Err(_) => platform.len() == 0 && result == failed && new == in_state(
                    old,
                    HostState::Failed,
                ),
                Ok(_) => {
                    &&& platform.len() == 1
                    &&& platform[0] matches PlatformCall::Start(given, started)
                    &&& given == parameters_view(configuration)
                    &&& match started {
                        Err(_) => result == failed && new == needs_recovery(old),
                        Ok(_) => result == CommandResult::Succeeded(Success::Started) && new
                            == HostCore {
                            state: HostState::Running,
                            generation: request.profile_generation,
                            ..old
                        },
                    }
                },
            }
        },
        Command::Stop(_) => if old.recovery_required {
            quiet && result == CommandResult::Failed(ErrorCode::RecoveryRequired) && new == old
        } else if old.state == HostState::Stopped {
            quiet && result == CommandResult::Succeeded(Success::Stopped) && new == old
        } else {
            &&& platform.len() == 1
            &&& platform[0] matches PlatformCall::Stop(stopped)
            &&& match stopped {
                Err(_) => journal.len() == 0 && result == failed && new == needs_recovery(old),
                Ok(_) => {
                    &&& journal.len() == 1
                    &&& journal[0] matches JournalCall::Clear(cleared)
                    &&& match cleared {
                        Err(_) => result == failed && new == needs_recovery(old),
                        Ok(_) => result == CommandResult::Succeeded(Success::Stopped) && new
                            == HostCore {
                            state: HostState::Stopped,
                            generation: later(old.generation, request.profile_generation),
                            ..old
                        },
                    }
                },
            }
        },
        Command::Recover(_) => {
            &&& journal.len() >= 1
            &&& journal[0] matches JournalCall::Load(loaded)
            &&& match loaded {
                Err(_) => journal.len() == 1 && platform.len() == 0 && result == failed && new
                    == in_state(old, HostState::Recovering),
                Ok(None) => journal.len() == 1 && platform.len() == 0 && result
                    == CommandResult::Succeeded(Success::Recovered) && new == HostCore {
                    state: HostState::Stopped,
                    recovery_required: false,
                    ..old
                },
                Ok(Some(record)) => {
                    &&& platform.len() == 1
                    &&& platform[0] matches PlatformCall::Recover(given, recovered)
                    &&& given == record
                    &&& match recovered {
                        Err(_) => journal.len() == 1 && result == failed && new == needs_recovery(
                            old,
                        ),
                        Ok(_) => {
                            &&& journal.len() == 2
                            &&& journal[1] matches JournalCall::Clear(cleared)
                            &&& match cleared {
                                Err(_) => result == failed && new == needs_recovery(old),
                                Ok(_) => result == CommandResult::Succeeded(Success::Recovered)
                                    && new == HostCore {
                                    state: HostState::Stopped,
                                    generation: later(old.generation, record.profile_generation),
                                    recovery_required: false,
                                },
                            }
                        },
                    }
                },
            }
        },
    }
}

/// Whether every capability of `requested` is in `offered`.
pub open spec fn capabilities_subset(requested: Seq<Capability>, offered: Seq<Capability>) -> bool {
    forall|i: int| 0 <= i < requested.len() ==> offered.contains(#[trigger] requested[i])
}

/// The error with which `request` is refused before it executes, if any.
pub open spec fn precheck(request: Request, offered: Seq<Capability>, generation: u64) -> Option<
    ErrorCode,
> {
    if request.version != PROTOCOL_VERSION {
        Some(ErrorCode::UnsupportedVersion)
    } else if !capabilities_subset(request.capabilities@, offered) {
        Some(ErrorCode::UnsupportedCapability)
    } else if request.profile_generation < generation {
        Some(ErrorCode::GenerationConflict)
    } else {
        None
    }
}

/// Whether the cache holds a response for `id`.
pub open spec fn cache_holds(cache: Seq<(u64, ResponseView)>, id: u64) -> bool {
    exists|i: int| 0 <= i < cache.len() && #[trigger] cache[i].0 == id
}

/// The cache after remembering `entry`: appended, then the smallest request
/// identifier dropped while over the bound.
pub open spec fn cache_after(
    old: Seq<(u64, ResponseView)>,
    entry: (u64, ResponseView),
    new: Seq<(u64, ResponseView)>,
) -> bool {
    let pushed = old.push(entry);
    if pushed.len() > MAX_CACHED_RESPONSES {
        exists|i: int|
            0 <= i < pushed.len() && (forall|j: int| 0 <= j < pushed.len() ==> pushed[i].0 <= #[trigger] pushed[j].0)
                && new == pushed.remove(i)
    } else {
        new == pushed
    }
}

/// Authorized helper request handler with deterministic recovery semantics.
pub struct TrafficHost<B, J> {
    backend: B,
    journal: J,
    capabilities: Vec<Capability>,
    state: HostState,
    generation: u64,
    recovery_required: bool,
    responses: Vec<(u64, Response)>,
}

impl<B: PlatformBackend, J: RecoveryJournal> TrafficHost<B, J> {
    pub closed spec fn lifecycle(&self) -> HostCore {
        HostCore {
            state: self.state,
            generation: self.generation,
            recovery_required: self.recovery_required,
        }
    }

    pub closed spec fn offered(&self) -> Seq<Capability> {
        self.capabilities@
    }

    /// The platform backend this host drives.
    pub closed spec fn held_backend(&self) -> B {
        self.backend
    }

    /// The recovery journal this host keeps.
    pub closed spec fn held_journal(&self) -> J {
        self.journal
    }

    /// The remembered responses by request identifier, oldest first.
    pub closed spec fn cache(&self) -> Seq<(u64, ResponseView)> {
        self.responses@.map_values(|e: (u64, Response)| (e.0, response_view(e.1)))
    }

    /// Each remembered identifier once, and under the bound.
    pub closed spec fn wf(&self) -> bool {
        &&& self.responses@.len() <= MAX_CACHED_RESPONSES
        &&& forall|i: int, j: int|
            0 <= i < j < self.responses@.len() ==> #[trigger] self.responses@[i].0
                != #[trigger] self.responses@[j].0
        &&& forall|i: int|
            0 <= i < self.responses@.len() ==> (#[trigger] self.responses@[i]).1.request_id
                == self.responses@[i].0
    }

    /// A host that requires recovery when the journal holds a record, and is
    /// stopped otherwise; refused when the journal cannot be read. The journal
    /// is asked to load once, and the host is what `from_loaded` builds from
    /// its answer: refused with the journal's error exactly when the journal
    /// answered with one, so that the journal, after the call, records that
    /// one load and that error.
    pub fn new(backend: B, journal: J, capabilities: Vec<Capability>) -> (host: Result<
        Self,
        HostFailure,
    >)
        ensures
            host matches Ok(h) ==> {
                &&& h.wf()
                &&& h.lifecycle().generation == 0
                &&& h.lifecycle().state == if h.lifecycle().recovery_required {
                    HostState::Recovering
                } else {
                    HostState::Stopped
                }
                &&& h.offered() == capabilities@
                &&& h.cache() == Seq::<(u64, ResponseView)>::empty()
                &&& h.held_backend() == backend
                &&& h.held_journal().journal_calls() == journal.journal_calls().push(
                    h.held_journal().journal_calls().last(),
                )
                &&& h.held_journal().journal_calls().last() matches JournalCall::Load(Ok(record))
                &&& h.lifecycle().recovery_required == (record is Some)
            },
            host matches Err(e) ==> exists|asked: J|
                #[trigger] asked.journal_calls() == journal.journal_calls().push(
                    JournalCall::Load(Err(e)),
                ),
    {
        let ghost before = journal.journal_calls();
        let mut journal = journal;
        let loaded = journal.load();
        let ghost asked = journal;
        let host = Self::from_loaded(backend, journal, capabilities, loaded);
        proof {
            if host is Ok {
                assert(loaded is Ok);
            } else {
                assert(loaded_view(loaded) == Err::<Option<RecordView>, HostFailure>(host->Err_0));
                assert(asked.journal_calls() == before.push(JournalCall::Load(Err(host->Err_0))));
            }
        }
        host
    }

    /// The host that starts after its journal was read: the journal's error
    /// refuses it; a stored record makes it require recovery; no record leaves
    /// it stopped. Nothing is asked of the backend or written to the journal.
    pub fn from_loaded(
        backend: B,
        journal: J,
        capabilities: Vec<Capability>,
        loaded: Result<Option<RecoveryRecord>, HostFailure>,
    ) -> (host: Result<Self, HostFailure>)
        ensures
            loaded matches Err(e) ==> host == Err::<Self, HostFailure>(e),
            loaded is Ok ==> (host matches Ok(h) && {
                &&& h.wf()
                &&& h.lifecycle().generation == 0
                &&& h.lifecycle().recovery_required == (loaded->Ok_0 is Some)
                &&& h.lifecycle().state == if loaded->Ok_0 is Some {
                    HostState::Recovering
                } else {
                    HostState::Stopped
                }
                &&& h.offered() == capabilities@
                &&& h.cache() == Seq::<(u64, ResponseView)>::empty()
                &&& h.held_backend() == backend
                &&& h.held_journal() == journal
            }),
    {
        let recovery_required = match loaded {
            Ok(record) => record.is_some(),
            Err(e) => return Err(e),
        };
        let host = TrafficHost {
            backend,
            journal,
            capabilities,
            state: if recovery_required {
                HostState::Recovering
            } else {
                HostState::Stopped
            },
            generation: 0,
            recovery_required,
            responses: Vec::new(),
        };
        assert(host.cache() =~= Seq::<(u64, ResponseView)>::empty());
        Ok(host)
    }

    pub fn state(&self) -> (state: HostState)
        ensures
            state == self.lifecycle().state,
    {
        self.state
    }

    fn offers(&self, capability: Capability) -> (offered: bool)
        ensures
            offered == self.capabilities@.contains(capability),
    {
        let mut i: usize = 0;
        while i < self.capabilities.len()
            invariant
                i <= self.capabilities@.len(),
                forall|k: int| 0 <= k < i ==> self.capabilities@[k] != capability,
            decreases self.capabilities@.len() - i,
        {
            if self.capabilities[i] == capability {
                assert(self.capabilities@[i as int] == capability);
                return true;
            }
            i = i + 1;
        }
        false
    }

    fn supports(&self, requested: &Vec<Capability>) -> (supported: bool)
        ensures
            supported == capabilities_subset(requested@, self.capabilities@),
    {
        let mut i: usize = 0;
        while i < requested.len()
            invariant
                i <= requested@.len(),
                forall|k: int| 0 <= k < i ==> self.capabilities@.contains(#[trigger] requested@[k]),
            decreases requested@.len() - i,
        {
            if !self.offers(requested[i]) {
                return false;
            }
            i = i + 1;
        }
        true
    }

    fn copy_capabilities(&self) -> (copy: Vec<Capability>)
        ensures
            copy@ == self.capabilities@,
    {
        let mut copy: Vec<Capability> = Vec::new();
        let mut i: usize = 0;
        while i < self.capabilities.len()
            invariant
                i <= self.capabilities@.len(),
                copy@ == self.capabilities@.subrange(0, i as int),
            decreases self.capabilities@.len() - i,
        {
            copy.push(self.capabilities[i]);
            i = i + 1;
            assert(copy@ =~= self.capabilities@.subrange(0, i as int));
        }
        assert(self.capabilities@.subrange(0, i as int) =~= self.capabilities@);
        copy
    }

    /// The backend calls made since `before`.
    pub open spec fn platform_since(&self, before: PlatformCalls) -> PlatformCalls {
        self.held_backend().platform_calls().skip(before.len() as int)
    }

    /// The journal calls made since `before`.
    pub open spec fn journal_since(&self, before: JournalCalls) -> JournalCalls {
        self.held_journal().journal_calls().skip(before.len() as int)
    }

    /// Answers one authorized request: a repeated identifier gets the
    /// response it got before; otherwise the request is checked for its
    /// version, capabilities and generation, executed, and its response
    /// remembered. Only an execution calls the backend or the journal.
    #[verifier::loop_isolation(false)]
    pub fn handle(&mut self, request: Request) -> (response: Response)
        requires
            old(self).wf(),
        ensures
            final(self).wf(),
            final(self).offered() == old(self).offered(),
            old(self).held_backend().platform_calls().is_prefix_of(
                final(self).held_backend().platform_calls(),
            ),
            old(self).held_journal().journal_calls().is_prefix_of(
                final(self).held_journal().journal_calls(),
            ),
            cache_holds(old(self).cache(), request.request_id) ==> {
                &&& old(self).cache().contains((request.request_id, response_view(response)))
                &&& final(self).lifecycle() == old(self).lifecycle()
                &&& final(self).cache() == old(self).cache()
                &&& final(self).held_backend().platform_calls() == old(
                    self,
                ).held_backend().platform_calls()
                &&& final(self).held_journal().journal_calls() == old(
                    self,
                ).held_journal().journal_calls()
            },
            !cache_holds(old(self).cache(), request.request_id) ==> {
                &&& response.version == PROTOCOL_VERSION
                &&& response.request_id == request.request_id
                &&& response.profile_generation == request.profile_generation
                &&& response.capabilities@ == old(self).offered()
                &&& cache_after(
                    old(self).cache(),
                    (request.request_id, response_view(response)),
                    final(self).cache(),
                )
                &&& match precheck(request, old(self).offered(), old(self).lifecycle().generation) {
                    Some(e) => {
                        &&& response.response == CommandResult::Failed(e)
                        &&& final(self).lifecycle() == old(self).lifecycle()
                        &&& final(self).held_backend().platform_calls() == old(
                            self,
                        ).held_backend().platform_calls()
                        &&& final(self).held_journal().journal_calls() == old(
                            self,
                        ).held_journal().journal_calls()
                    },
                    None => execute_outcome(
                        old(self).lifecycle(),
                        request,
                        final(self).platform_since(old(self).held_backend().platform_calls()),
                        final(self).journal_since(old(self).held_journal().journal_calls()),
                        response.response,
                        final(self).lifecycle(),
                    ),
                }
            },
    {
        let mut i: usize = 0;
        while i < self.responses.len()
            invariant
                i <= self.responses@.len(),
                forall|k: int| 0 <= k < i ==> self.responses@[k].0 != request.request_id,
            decreases self.responses@.len() - i,
        {
            if self.responses[i].0 == request.request_id {
                let cached = self.responses[i].1.clone_response();
                assert(self.cache()[i as int] == (request.request_id, response_view(cached)));
                assert(self.cache()[i as int].0 == request.request_id);
                assert(cache_holds(self.cache(), request.request_id));
                return cached;
            }
            i = i + 1;
        }
        assert(!cache_holds(self.cache(), request.request_id)) by {
            assert forall|k: int| 0 <= k < self.cache().len() implies #[trigger] self.cache()[k].0
                != request.request_id by {
                assert(self.cache()[k].0 == self.responses@[k].0);
            }
        }
        let result = if request.version != PROTOCOL_VERSION {
            CommandResult::Failed(ErrorCode::UnsupportedVersion)
        } else if !self.supports(&request.capabilities) {
            CommandResult::Failed(ErrorCode::UnsupportedCapability)
        } else if request.profile_generation < self.generation {
            CommandResult::Failed(ErrorCode::GenerationConflict)
        } else {
            self.execute(&request)
        };
        let response = Response {
            version: PROTOCOL_VERSION,
            request_id: request.request_id,
            profile_generation: request.profile_generation,
            capabilities: self.copy_capabilities(),
            response: result,
        };
        let remembered = response.clone_response();
        self.remember(remembered);
        response
    }

    fn execute(&mut self, request: &Request) -> (result: CommandResult)
        ensures
            final(self).offered() == old(self).offered(),
            final(self).responses@ == old(self).responses@,
            old(self).held_backend().platform_calls().is_prefix_of(
                final(self).held_backend().platform_calls(),
            ),
            old(self).held_journal().journal_calls().is_prefix_of(
                final(self).held_journal().journal_calls(),
            ),
            execute_outcome(
                old(self).lifecycle(),
                *request,
                final(self).platform_since(old(self).held_backend().platform_calls()),
                final(self).journal_since(old(self).held_journal().journal_calls()),
                result,
                final(self).lifecycle(),
            ),
    {
        let ghost platform = self.backend.platform_calls();
        let ghost journal = self.journal.journal_calls();
        proof {
            assert(self.platform_since(platform) =~= Seq::<PlatformCall>::empty());
            assert(self.journal_since(journal) =~= Seq::<JournalCall>::empty());
        }
        match &request.command {
            Command::Hello(_) => CommandResult::Succeeded(Success::Hello),
            Command::Status(_) => CommandResult::Succeeded(Success::Status { state: self.state }),
            Command::Recover(_) => self.recover(),
            Command::Start(configuration) => self.start(request.profile_generation, configuration),
            Command::Stop(_) => self.stop(request.profile_generation),
        }
    }

    fn start(&mut self, generation: u64, configuration: &StartParameters) -> (result: CommandResult)
        ensures
            final(self).offered() == old(self).offered(),
            final(self).responses@ == old(self).responses@,
            old(self).held_backend().platform_calls().is_prefix_of(
                final(self).held_backend().platform_calls(),
            ),
            old(self).held_journal().journal_calls().is_prefix_of(
                final(self).held_journal().journal_calls(),
            ),
            forall|request: Request|
                request.profile_generation == generation && request.command == Command::Start(
                    *configuration,
                ) ==> #[trigger] execute_outcome(
                    old(self).lifecycle(),
                    request,
                    final(self).platform_since(old(self).held_backend().platform_calls()),
                    final(self).journal_since(old(self).held_journal().journal_calls()),
                    result,
                    final(self).lifecycle(),
                ),
    {
        let ghost platform = self.backend.platform_calls();
        let ghost journal = self.journal.journal_calls();
        proof {
            assert(self.platform_since(platform) =~= Seq::<PlatformCall>::empty());
            assert(self.journal_since(journal) =~= Seq::<JournalCall>::empty());
        }
        if self.recovery_required {
            return CommandResult::Failed(ErrorCode::RecoveryRequired);
        }
        if !valid_configuration(configuration) {
            return CommandResult::Failed(ErrorCode::InvalidConfiguration);
        }
        if self.state == HostState::Starting || self.state == HostState::Stopping {
            return CommandResult::Failed(ErrorCode::Busy);
        }
        if self.state == HostState::Running && generation == self.generation {
            return CommandResult::Succeeded(Success::Started);
        }
        let record = RecoveryRecord {
            profile_generation: generation,
            configuration: copy_parameters(configuration),
        };
        let written = self.journal.write(&record);
        proof {
            assert(self.journal_since(journal) =~= seq![JournalCall::Write(record_view(record), written)]);
        }
        if written.is_err() {
            self.state = HostState::Failed;
            return CommandResult::Failed(ErrorCode::Platform);
        }
        self.state = HostState::Starting;
        let started = self.backend.start(configuration);
        proof {
            assert(self.platform_since(platform) =~= seq![
                PlatformCall::Start(parameters_view(*configuration), started),
            ]);
        }
        if started.is_err() {
            self.state = HostState::Recovering;
            self.recovery_required = true;
            return CommandResult::Failed(ErrorCode::Platform);
        }
        self.generation = generation;
        self.state = HostState::Running;
        CommandResult::Succeeded(Success::Started)
    }

    fn stop(&mut self, generation: u64) -> (result: CommandResult)
        ensures
            final(self).offered() == old(self).offered(),
            final(self).responses@ == old(self).responses@,
            old(self).held_backend().platform_calls().is_prefix_of(
                final(self).held_backend().platform_calls(),
            ),
            old(self).held_journal().journal_calls().is_prefix_of(
                final(self).held_journal().journal_calls(),
            ),
            forall|request: Request|
                request.profile_generation == generation && request.command is Stop
                    ==> #[trigger] execute_outcome(
                    old(self).lifecycle(),
                    request,
                    final(self).platform_since(old(self).held_backend().platform_calls()),
                    final(self).journal_since(old(self).held_journal().journal_calls()),
                    result,
                    final(self).lifecycle(),
                ),
    {
        let ghost platform = self.backend.platform_calls();
        let ghost journal = self.journal.journal_calls();
        proof {
            assert(self.platform_since(platform) =~= Seq::<PlatformCall>::empty());
            assert(self.journal_since(journal) =~= Seq::<JournalCall>::empty());
        }
        if self.recovery_required {
            return CommandResult::Failed(ErrorCode::RecoveryRequired);
        }
        if self.state == HostState::Stopped {
            return CommandResult::Succeeded(Success::Stopped);
        }
        self.state = HostState::Stopping;
        let stopped = self.backend.stop();
        proof {
            assert(self.platform_since(platform) =~= seq![PlatformCall::Stop(stopped)]);
        }
        if stopped.is_err() {
            self.state = HostState::Recovering;
            self.recovery_required = true;
            return CommandResult::Failed(ErrorCode::Platform);
        }
        let cleared = self.journal.clear();
        proof {
            assert(self.journal_since(journal) =~= seq![JournalCall::Clear(cleared)]);
        }
        if cleared.is_err() {
            self.state = HostState::Recovering;
            self.recovery_required = true;
            return CommandResult::Failed(ErrorCode::Platform);
        }
        if generation > self.generation {
            self.generation = generation;
        }
        self.state = HostState::Stopped;
        CommandResult::Succeeded(Success::Stopped)
    }

    fn recover(&mut self) -> (result: CommandResult)
        ensures
            final(self).offered() == old(self).offered(),
            final(self).responses@ == old(self).responses@,
            old(self).held_backend().platform_calls().is_prefix_of(
                final(self).held_backend().platform_calls(),
            ),
            old(self).held_journal().journal_calls().is_prefix_of(
                final(self).held_journal().journal_calls(),
            ),
            forall|request: Request|
                request.command is Recover ==> #[trigger] execute_outcome(
                    old(self).lifecycle(),
                    request,
                    final(self).platform_since(old(self).held_backend().platform_calls()),
                    final(self).journal_since(old(self).held_journal().journal_calls()),
                    result,
                    final(self).lifecycle(),
                ),
    {
        let ghost platform = self.backend.platform_calls();
        let ghost journal = self.journal.journal_calls();
        self.state = HostState::Recovering;
        let loaded = self.journal.load();
        proof {
            assert(self.platform_since(platform) =~= Seq::<PlatformCall>::empty());
            assert(self.journal_since(journal) =~= seq![JournalCall::Load(loaded_view(loaded))]);
        }
        let record = match loaded {
            Ok(Some(record)) => record,
            Ok(None) => {
                self.recovery_required = false;
                self.state = HostState::Stopped;
                return CommandResult::Succeeded(Success::Recovered);
            },
            Err(_) => return CommandResult::Failed(ErrorCode::Platform),
        };
        let recovered = self.backend.recover(&record);
        proof {
            assert(self.platform_since(platform) =~= seq![
                PlatformCall::Recover(record_view(record), recovered),
            ]);
        }
        if recovered.is_err() {
            self.recovery_required = true;
            return CommandResult::Failed(ErrorCode::Platform);
        }
        let cleared = self.journal.clear();
        proof {
            assert(self.journal_since(journal) =~= seq![
                JournalCall::Load(loaded_view(loaded)),
                JournalCall::Clear(cleared),
            ]);
        }
        if cleared.is_err() {
            self.recovery_required = true;
            return CommandResult::Failed(ErrorCode::Platform);
        }
        if record.profile_generation > self.generation {
            self.generation = record.profile_generation;
        }
        self.recovery_required = false;
        self.state = HostState::Stopped;
        CommandResult::Succeeded(Success::Recovered)
    }

    fn remember(&mut self, response: Response)
        requires
            old(self).wf(),
            !cache_holds(old(self).cache(), response.request_id),
        ensures
            final(self).wf(),
            final(self).lifecycle() == old(self).lifecycle(),
            final(self).offered() == old(self).offered(),
            final(self).held_backend() == old(self).held_backend(),
            final(self).held_journal() == old(self).held_journal(),
            cache_after(
                old(self).cache(),
                (response.request_id, response_view(response)),
                final(self).cache(),
            ),
    {
        let ghost entry = (response.request_id, response_view(response));
        let ghost before = self.responses@;
        self.responses.push((response.request_id, response));
        proof {
            assert(self.cache() =~= old(self).cache().push(entry));
            assert forall|a: int, b: int|
                0 <= a < b < self.responses@.len() implies #[trigger] self.responses@[a].0
                    != #[trigger] self.responses@[b].0 by {
                if b == before.len() {
                    assert(old(self).cache()[a].0 == before[a].0);
                }
            }
        }
        if self.responses.len() > MAX_CACHED_RESPONSES {
            let mut oldest: usize = 0;
            let mut k: usize = 1;
            while k < self.responses.len()
                invariant
                    1 <= k <= self.responses@.len(),
                    oldest < k,
                    forall|j: int| 0 <= j < k ==> self.responses@[oldest as int].0 <= #[trigger] self.responses@[j].0,
                decreases self.responses@.len() - k,
            {
                if self.responses[k].0 < self.responses[oldest].0 {
                    oldest = k;
                }
                k = k + 1;
            }
            let ghost pushed = self.responses@;
            self.responses.remove(oldest);
            proof {
                assert(self.cache() =~= old(self).cache().push(entry).remove(oldest as int));
                assert forall|j: int| 0 <= j < pushed.len() implies old(self).cache().push(entry)[oldest as int].0
                    <= #[trigger] old(self).cache().push(entry)[j].0 by {
                    assert(old(self).cache().push(entry)[j].0 == pushed[j].0);
                    assert(old(self).cache().push(entry)[oldest as int].0 == pushed[oldest as int].0);
                }
                assert forall|a: int, b: int|
                    0 <= a < b < self.responses@.len() implies #[trigger] self.responses@[a].0
                        != #[trigger] self.responses@[b].0 by {
                    let a0 = if a < oldest { a } else { a + 1 };
                    let b0 = if b < oldest { b } else { b + 1 };
                    assert(self.responses@[a] == pushed[a0]);
                    assert(self.responses@[b] == pushed[b0]);
                }
            }
        }
    }
}

impl Response {
    /// A copy of this response.
    pub fn clone_response(&self) -> (copy: Response)
        ensures
            response_view(copy) == response_view(*self),
    {
        let mut capabilities: Vec<Capability> = Vec::new();
        let mut i: usize = 0;
        while i < self.capabilities.len()
            invariant
                i <= self.capabilities@.len(),
                capabilities@ == self.capabilities@.subrange(0, i as int),
            decreases self.capabilities@.len() - i,
        {
            capabilities.push(self.capabilities[i]);
            i = i + 1;
            assert(capabilities@ =~= self.capabilities@.subrange(0, i as int));
        }
        assert(self.capabilities@.subrange(0, i as int) =~= self.capabilities@);
        Response {
            version: self.version,
            request_id: self.request_id,
            profile_generation: self.profile_generation,
            capabilities,
            response: self.response,
        }
    }
}

/// Retry law: a response stays remembered, so that a retry of its request
/// gets it again, unless the cache was full and its identifier is below
/// every remembered one.
pub proof fn lemma_response_is_remembered(
    old: Seq<(u64, ResponseView)>,
    entry: (u64, ResponseView),
    new: Seq<(u64, ResponseView)>,
)
    requires
        cache_after(old, entry, new),
        old.len() < MAX_CACHED_RESPONSES || exists|j: int| 0 <= j < old.len() && #[trigger] old[j].0 < entry.0,
    ensures
        new.contains(entry),
{
    let pushed = old.push(entry);
    if pushed.len() > MAX_CACHED_RESPONSES {
        let i = choose|i: int|
            0 <= i < pushed.len() && (forall|j: int| 0 <= j < pushed.len() ==> pushed[i].0 <= #[trigger] pushed[j].0)
                && new == pushed.remove(i);
        let j = choose|j: int| 0 <= j < old.len() && #[trigger] old[j].0 < entry.0;
        assert(pushed[j] == old[j]);
        assert(i != old.len());
        assert(new[old.len() - 1] == entry);
    } else {
        assert(new[old.len() as int] == entry);
    }
}

/// Generation law: a request that passed the generation check never moves
/// the host to an older profile generation, whatever the backend and the
/// journal answered.
pub proof fn lemma_generation_never_decreases(
    old: HostCore,
    request: Request,
    platform: PlatformCalls,
    journal: JournalCalls,
    result: CommandResult,
    new: HostCore,
)
    requires
        execute_outcome(old, request, platform, journal, result, new),
        request.profile_generation >= old.generation,
    ensures
        new.generation >= old.generation,
{
}

/// Recovery law: while recovery is required, start and stop are refused
/// without touching the host, the backend or the journal.
pub proof fn lemma_recovery_blocks_mutation(
    old: HostCore,
    request: Request,
    platform: PlatformCalls,
    journal: JournalCalls,
    result: CommandResult,
    new: HostCore,
)
    requires
        execute_outcome(old, request, platform, journal, result, new),
        old.recovery_required,
        request.command is Start || request.command is Stop,
    ensures
        result == CommandResult::Failed(ErrorCode::RecoveryRequired),
        new == old,
        platform.len() == 0,
        journal.len() == 0,
{
}

/// Journal law: the backend is started only after the journal took the
/// record of the request, and a start is reported only when both succeeded.
pub proof fn lemma_journal_before_start(
    old: HostCore,
    request: Request,
    platform: PlatformCalls,
    journal: JournalCalls,
    result: CommandResult,
    new: HostCore,
)
    requires
        execute_outcome(old, request, platform, journal, result, new),
        request.command is Start,
        platform.len() > 0,
    ensures
        journal.len() == 1,
        journal[0] matches JournalCall::Write(record, written) && record == start_record(
            request.profile_generation,
            request.command->Start_0,
        ) && written is Ok,
        platform.len() == 1,
        platform[0] matches PlatformCall::Start(given, _) && given == parameters_view(
            request.command->Start_0,
        ),
        result == CommandResult::Succeeded(Success::Started) <==> platform[0]->Start_1 is Ok,
{
}

/// Recovery journal law: a recovery hands the backend exactly the record
/// the journal loaded, and reports success only when the backend recovered
/// and the journal was cleared, or the journal held nothing.
pub proof fn lemma_recovery_uses_the_journaled_record(
    old: HostCore,
    request: Request,
    platform: PlatformCalls,
    journal: JournalCalls,
    result: CommandResult,
    new: HostCore,
)
    requires
        execute_outcome(old, request, platform, journal, result, new),
        request.command is Recover,
    ensures
        journal[0] is Load,
        platform.len() > 0 ==> journal[0]->Load_0 == Ok::<Option<RecordView>, HostFailure>(
            Some(platform[0]->Recover_0),
        ),
        result == CommandResult::Succeeded(Success::Recovered) <==> (journal[0]->Load_0
            == Ok::<Option<RecordView>, HostFailure>(None) || (platform.len() == 1
            && platform[0]->Recover_1 is Ok && journal.len() == 2 && journal[1]->Clear_0 is Ok)),
        result == CommandResult::Succeeded(Success::Recovered) ==> !new.recovery_required
            && new.state == HostState::Stopped,
{
}

} // verus!
