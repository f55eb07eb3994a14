//! Client lifecycle state: phases, generations and revisions.
use vstd::prelude::*;

verus! {

/// Stable, payload-free direct-client failure categories.
#[derive(Clone, Copy, Debug, PartialEq, Eq, Structural)]
pub enum ClientError {
    Certificate,
    ConnectTimeout,
    Connection,
    ControlTooLarge,
    DatagramTooLarge,
    DatagramUnavailable,
    Protocol,
    Transport,
}

/// Stable lifecycle phases published to platform control consumers.
#[derive(Clone, Copy, Debug, PartialEq, Eq, Structural)]
pub enum RuntimePhase {
    Stopped,
    Connecting,
    Online,
    Stopping,
    Failed,
}

/// Payload-free failure category retained in a runtime snapshot.
#[derive(Clone, Copy, Debug, PartialEq, Eq, Structural)]
pub enum RuntimeFailure {
    Certificate,
    ConnectTimeout,
    Connection,
    ControlTooLarge,
    DatagramTooLarge,
    DatagramUnavailable,
    Protocol,
    Transport,
}

pub open spec fn spec_failure_of(error: ClientError) -> RuntimeFailure {
    match error {
        ClientError::Certificate => RuntimeFailure::Certificate,
        ClientError::ConnectTimeout => RuntimeFailure::ConnectTimeout,
        ClientError::Connection => RuntimeFailure::Connection,
        ClientError::ControlTooLarge => RuntimeFailure::ControlTooLarge,
        ClientError::DatagramTooLarge => RuntimeFailure::DatagramTooLarge,
        ClientError::DatagramUnavailable => RuntimeFailure::DatagramUnavailable,
        ClientError::Protocol => RuntimeFailure::Protocol,
        ClientError::Transport => RuntimeFailure::Transport,
    }
}

impl RuntimeFailure {
    /// The snapshot failure category of a client error: the same category.
    pub fn from_client_error(error: ClientError) -> (failure: Self)
        ensures
            failure == spec_failure_of(error),
    {
        match error {
            ClientError::Certificate => RuntimeFailure::Certificate,
            ClientError::ConnectTimeout => RuntimeFailure::ConnectTimeout,
            ClientError::Connection => RuntimeFailure::Connection,
            ClientError::ControlTooLarge => RuntimeFailure::ControlTooLarge,
            ClientError::DatagramTooLarge => RuntimeFailure::DatagramTooLarge,
            ClientError::DatagramUnavailable => RuntimeFailure::DatagramUnavailable,
            ClientError::Protocol => RuntimeFailure::Protocol,
            ClientError::Transport => RuntimeFailure::Transport,
        }
    }
}

/// Immutable latest-value view of the client lifecycle.
#[derive(Clone, Copy, Debug, PartialEq, Eq, Structural)]
pub struct RuntimeSnapshot {
    pub revision: u64,
    pub generation: u64,
    pub phase: RuntimePhase,
    pub failure: Option<RuntimeFailure>,
}

impl Default for RuntimeSnapshot {
    fn default() -> (snapshot: Self)
        ensures
            snapshot == (RuntimeSnapshot {
                revision: 0,
                generation: 0,
                phase: RuntimePhase::Stopped,
                failure: None,
            }),
    {
        RuntimeSnapshot { revision: 0, generation: 0, phase: RuntimePhase::Stopped, failure: None }
    }
}

/// Stable runtime operation errors. No variant retains configuration or data.
#[derive(Clone, Copy, Debug, PartialEq, Eq, Structural)]
pub enum RuntimeError {
    Busy,
    ExecutorUnavailable,
    NotOnline,
    Superseded,
    Client(ClientError),
}

/// The lifecycle state machine: every transition bumps the revision, and
/// connect and stop attempts each take a fresh generation.
#[derive(Debug)]
pub struct Lifecycle {
    pub snapshot: RuntimeSnapshot,
}

/// The snapshot after a transition to `phase`.
pub open spec fn spec_transition(
    s: RuntimeSnapshot,
    phase: RuntimePhase,
    failure: Option<RuntimeFailure>,
) -> RuntimeSnapshot {
    RuntimeSnapshot { revision: (s.revision + 1) as u64, generation: s.generation, phase, failure }
}

impl Default for Lifecycle {
    fn default() -> (lifecycle: Self)
        ensures
            lifecycle.snapshot == (RuntimeSnapshot {
                revision: 0,
                generation: 0,
                phase: RuntimePhase::Stopped,
                failure: None,
            }),
    {
        Lifecycle { snapshot: RuntimeSnapshot::default() }
    }
}

impl Lifecycle {
    fn transition(&mut self, phase: RuntimePhase, failure: Option<RuntimeFailure>)
        requires
            old(self).snapshot.revision < u64::MAX,
        ensures
            final(self).snapshot == spec_transition(old(self).snapshot, phase, failure),
    {
        self.snapshot.revision = self.snapshot.revision + 1;
        self.snapshot.phase = phase;
        self.snapshot.failure = failure;
    }

    /// Starts a connection attempt from Stopped or Failed with a new
    /// generation; any other phase is busy and changes nothing.
    pub fn begin_connect(&mut self) -> (generation: Result<u64, RuntimeError>)
        requires
            old(self).snapshot.phase == RuntimePhase::Stopped || old(self).snapshot.phase
                == RuntimePhase::Failed ==> old(self).snapshot.generation < u64::MAX
                && old(self).snapshot.revision < u64::MAX,
        ensures
            old(self).snapshot.phase == RuntimePhase::Stopped || old(self).snapshot.phase
                == RuntimePhase::Failed ==> {
                let g = (old(self).snapshot.generation + 1) as u64;
                &&& generation == Ok::<u64, RuntimeError>(g)
                &&& final(self).snapshot == (RuntimeSnapshot {
                    revision: (old(self).snapshot.revision + 1) as u64,
                    generation: g,
                    phase: RuntimePhase::Connecting,
                    failure: None,
                })
            },
            !(old(self).snapshot.phase == RuntimePhase::Stopped || old(self).snapshot.phase
                == RuntimePhase::Failed) ==> generation == Err::<u64, RuntimeError>(
                RuntimeError::Busy,
            ) && final(self).snapshot == old(self).snapshot,
    {
        match self.snapshot.phase {
            RuntimePhase::Stopped | RuntimePhase::Failed => {},
            _ => return Err(RuntimeError::Busy),
        }
        self.snapshot.generation = self.snapshot.generation + 1;
        self.transition(RuntimePhase::Connecting, None);
        Ok(self.snapshot.generation)
    }

    /// Completes the current connection attempt; a stale or out-of-phase
    /// completion is ignored and changes nothing.
    pub fn complete_connect(&mut self, generation: u64, result: Result<(), RuntimeFailure>) -> (applied: bool)
        requires
            generation == old(self).snapshot.generation && old(self).snapshot.phase
                == RuntimePhase::Connecting ==> old(self).snapshot.revision < u64::MAX,
        ensures
            applied == (generation == old(self).snapshot.generation && old(self).snapshot.phase
                == RuntimePhase::Connecting),
            applied ==> final(self).snapshot == match result {
                Ok(()) => spec_transition(old(self).snapshot, RuntimePhase::Online, None),
                Err(f) => spec_transition(old(self).snapshot, RuntimePhase::Failed, Some(f)),
            },
            !applied ==> final(self).snapshot == old(self).snapshot,
    {
        if generation != self.snapshot.generation || self.snapshot.phase != RuntimePhase::Connecting {
            return false;
        }
        match result {
            Ok(()) => self.transition(RuntimePhase::Online, None),
            Err(failure) => self.transition(RuntimePhase::Failed, Some(failure)),
        }
        true
    }

    /// Starts stopping from any phase except Stopped, with a new generation
    /// that supersedes pending connection work.
    pub fn begin_stop(&mut self) -> (generation: Option<u64>)
        requires
            old(self).snapshot.phase != RuntimePhase::Stopped ==> old(self).snapshot.generation
                < u64::MAX && old(self).snapshot.revision < u64::MAX,
        ensures
            old(self).snapshot.phase == RuntimePhase::Stopped ==> generation is None
                && final(self).snapshot == old(self).snapshot,
            old(self).snapshot.phase != RuntimePhase::Stopped ==> {
                let g = (old(self).snapshot.generation + 1) as u64;
                &&& generation == Some(g)
                &&& final(self).snapshot == (RuntimeSnapshot {
                    revision: (old(self).snapshot.revision + 1) as u64,
                    generation: g,
                    phase: RuntimePhase::Stopping,
                    failure: None,
                })
            },
    {
        if self.snapshot.phase == RuntimePhase::Stopped {
            return None;
        }
        self.snapshot.generation = self.snapshot.generation + 1;
        self.transition(RuntimePhase::Stopping, None);
        Some(self.snapshot.generation)
    }

    /// Completes the current stop; a stale completion changes nothing.
    pub fn complete_stop(&mut self, generation: u64) -> (applied: bool)
        requires
            generation == old(self).snapshot.generation && old(self).snapshot.phase
                == RuntimePhase::Stopping ==> old(self).snapshot.revision < u64::MAX,
        ensures
            applied == (generation == old(self).snapshot.generation && old(self).snapshot.phase
                == RuntimePhase::Stopping),
            applied ==> final(self).snapshot == spec_transition(
                old(self).snapshot,
                RuntimePhase::Stopped,
                None,
            ),
            !applied ==> final(self).snapshot == old(self).snapshot,
    {
        if generation != self.snapshot.generation || self.snapshot.phase != RuntimePhase::Stopping {
            return false;
        }
        self.transition(RuntimePhase::Stopped, None);
        true
    }

    /// Records a transport closure of the active online generation as a
    /// failure; anything else changes nothing.
    pub fn fail_online(&mut self, generation: u64, failure: RuntimeFailure) -> (applied: bool)
        requires
            generation == old(self).snapshot.generation && old(self).snapshot.phase
                == RuntimePhase::Online ==> old(self).snapshot.revision < u64::MAX,
        ensures
            applied == (generation == old(self).snapshot.generation && old(self).snapshot.phase
                == RuntimePhase::Online),
            applied ==> final(self).snapshot == spec_transition(
                old(self).snapshot,
                RuntimePhase::Failed,
                Some(failure),
            ),
            !applied ==> final(self).snapshot == old(self).snapshot,
    {
        if generation != self.snapshot.generation || self.snapshot.phase != RuntimePhase::Online {
            return false;
        }
        self.transition(RuntimePhase::Failed, Some(failure));
        true
    }
}

/// One lifecycle operation, for reasoning about sequences of them.
pub enum LifecycleEvent {
    BeginConnect,
    CompleteConnect(u64, Result<(), RuntimeFailure>),
    BeginStop,
    CompleteStop(u64),
    FailOnline(u64, RuntimeFailure),
}

/// The snapshot after one operation, as the operations' contracts state it.
pub open spec fn spec_step(s: RuntimeSnapshot, e: LifecycleEvent) -> RuntimeSnapshot {
    match e {
        LifecycleEvent::BeginConnect => if s.phase == RuntimePhase::Stopped || s.phase
            == RuntimePhase::Failed {
            RuntimeSnapshot {
                revision: (s.revision + 1) as u64,
                generation: (s.generation + 1) as u64,
                phase: RuntimePhase::Connecting,
                failure: None,
            }
        } else {
            s
        },
        LifecycleEvent::CompleteConnect(g, result) => if g == s.generation && s.phase
            == RuntimePhase::Connecting {
            match result {
                Ok(()) => spec_transition(s, RuntimePhase::Online, None),
                Err(f) => spec_transition(s, RuntimePhase::Failed, Some(f)),
            }
        } else {
            s
        },
        LifecycleEvent::BeginStop => if s.phase != RuntimePhase::Stopped {
            RuntimeSnapshot {
                revision: (s.revision + 1) as u64,
                generation: (s.generation + 1) as u64,
                phase: RuntimePhase::Stopping,
                failure: None,
            }
        } else {
            s
        },
        LifecycleEvent::CompleteStop(g) => if g == s.generation && s.phase
            == RuntimePhase::Stopping {
            spec_transition(s, RuntimePhase::Stopped, None)
        } else {
            s
        },
        LifecycleEvent::FailOnline(g, f) => if g == s.generation && s.phase
            == RuntimePhase::Online {
            spec_transition(s, RuntimePhase::Failed, Some(f))
        } else {
            s
        },
    }
}

/// Lifecycle revisions are monotonic: every operation either leaves the
/// snapshot unchanged or increases its revision by exactly one, and the
/// generation never decreases; a failure is recorded only in the Failed phase.
pub proof fn lemma_lifecycle_monotonic(s: RuntimeSnapshot, e: LifecycleEvent)
    requires
        s.revision < u64::MAX,
        s.generation < u64::MAX,
    ensures
        spec_step(s, e) == s || spec_step(s, e).revision == s.revision + 1,
        spec_step(s, e).generation >= s.generation,
        spec_step(s, e).failure is Some ==> spec_step(s, e).phase == RuntimePhase::Failed
            || spec_step(s, e) == s,
{
}

/// A completion for any generation other than the current one never changes
/// the snapshot, so a stale connect completion cannot overwrite a stop.
pub proof fn lemma_stale_completion_is_ignored(s: RuntimeSnapshot, g: u64, result: Result<(), RuntimeFailure>)
    requires
        g != s.generation,
    ensures
        spec_step(s, LifecycleEvent::CompleteConnect(g, result)) == s,
        spec_step(s, LifecycleEvent::CompleteStop(g)) == s,
        spec_step(s, LifecycleEvent::FailOnline(g, RuntimeFailure::Transport)) == s,
{
}

/// Fixed-width latest-value snapshot published across the native boundary.
#[derive(Clone, Copy, Debug, Default, PartialEq, Eq, Structural)]
pub struct VelumRuntimeSnapshotV1 {
    pub revision: u64,
    pub generation: u64,
    pub phase: u32,
    pub failure: u32,
}

/// Published numeric value of a phase.
pub open spec fn spec_phase_code(phase: RuntimePhase) -> u32 {
    match phase {
        RuntimePhase::Stopped => 0,
        RuntimePhase::Connecting => 1,
        RuntimePhase::Online => 2,
        RuntimePhase::Stopping => 3,
        RuntimePhase::Failed => 4,
    }
}

/// Published numeric value of a failure; zero for none.
pub open spec fn spec_failure_code(failure: Option<RuntimeFailure>) -> u32 {
    match failure {
        None => 0,
        Some(RuntimeFailure::Certificate) => 1,
        Some(RuntimeFailure::ConnectTimeout) => 2,
        Some(RuntimeFailure::Connection) => 3,
        Some(RuntimeFailure::ControlTooLarge) => 4,
        Some(RuntimeFailure::DatagramTooLarge) => 5,
        Some(RuntimeFailure::DatagramUnavailable) => 6,
        Some(RuntimeFailure::Protocol) => 7,
        Some(RuntimeFailure::Transport) => 8,
    }
}

impl VelumRuntimeSnapshotV1 {
    /// Converts a snapshot to its published fixed-width form.
    pub fn from_snapshot(snapshot: RuntimeSnapshot) -> (published: Self)
        ensures
            published.revision == snapshot.revision,
            published.generation == snapshot.generation,
            published.phase == spec_phase_code(snapshot.phase),
            published.failure == spec_failure_code(snapshot.failure),
    {
        let phase: u32 = match snapshot.phase {
            RuntimePhase::Stopped => 0,
            RuntimePhase::Connecting => 1,
            RuntimePhase::Online => 2,
            RuntimePhase::Stopping => 3,
            RuntimePhase::Failed => 4,
        };
        let failure: u32 = match snapshot.failure {
            None => 0,
            Some(RuntimeFailure::Certificate) => 1,
            Some(RuntimeFailure::ConnectTimeout) => 2,
            Some(RuntimeFailure::Connection) => 3,
            Some(RuntimeFailure::ControlTooLarge) => 4,
            Some(RuntimeFailure::DatagramTooLarge) => 5,
            Some(RuntimeFailure::DatagramUnavailable) => 6,
            Some(RuntimeFailure::Protocol) => 7,
            Some(RuntimeFailure::Transport) => 8,
        };
        VelumRuntimeSnapshotV1 {
            revision: snapshot.revision,
            generation: snapshot.generation,
            phase,
            failure,
        }
    }
}

/// Distinct phases and failures publish distinct numbers.
pub proof fn lemma_published_codes_are_distinct(
    a: RuntimePhase,
    b: RuntimePhase,
    f: Option<RuntimeFailure>,
    g: Option<RuntimeFailure>,
)
    ensures
        spec_phase_code(a) == spec_phase_code(b) ==> a == b,
        spec_failure_code(f) == spec_failure_code(g) ==> f == g,
{
}

/// Version of the synchronous native ABI.
pub const ABI_VERSION: u16 = 2;

/// Version of the asynchronous runtime control ABI.
pub const RUNTIME_ABI_VERSION: u16 = 2;

/// Trust modes accepted across the native boundary.
pub const VELUM_TRUST_SYSTEM: u32 = 0;

pub const VELUM_TRUST_CUSTOM_CA: u32 = 1;

pub const VELUM_TRUST_INSECURE: u32 = 2;

/// Status of a synchronous stream operation.
#[derive(Clone, Copy, Debug, PartialEq, Eq, Structural)]
pub enum VelumStatus {
    Success,
    InvalidArgument,
    InvalidHandle,
    Configuration,
    Certificate,
    ConnectTimeout,
    Connection,
    ControlTooLarge,
    Transport,
    DatagramTooLarge,
    DatagramUnavailable,
    Protocol,
}

impl VelumStatus {
    /// The number published for this value.
    pub open spec fn spec_code(self) -> i32 {
        match self {
            VelumStatus::Success => 0,
            VelumStatus::InvalidArgument => 1,
            VelumStatus::InvalidHandle => 2,
            VelumStatus::Configuration => 3,
            VelumStatus::Certificate => 4,
            VelumStatus::ConnectTimeout => 5,
            VelumStatus::Connection => 6,
            VelumStatus::ControlTooLarge => 7,
            VelumStatus::Transport => 8,
            VelumStatus::DatagramTooLarge => 9,
            VelumStatus::DatagramUnavailable => 10,
            VelumStatus::Protocol => 11,
        }
    }

    /// The number published for this value.
    pub fn code(self) -> (code: i32)
        ensures
            code == self.spec_code(),
    {
        match self {
            VelumStatus::Success => 0,
            VelumStatus::InvalidArgument => 1,
            VelumStatus::InvalidHandle => 2,
            VelumStatus::Configuration => 3,
            VelumStatus::Certificate => 4,
            VelumStatus::ConnectTimeout => 5,
            VelumStatus::Connection => 6,
            VelumStatus::ControlTooLarge => 7,
            VelumStatus::Transport => 8,
            VelumStatus::DatagramTooLarge => 9,
            VelumStatus::DatagramUnavailable => 10,
            VelumStatus::Protocol => 11,
        }
    }
}

/// The stream status that reports a client error: the same category.
pub open spec fn spec_status_for_client(error: ClientError) -> VelumStatus {
    match error {
        ClientError::Certificate => VelumStatus::Certificate,
        ClientError::ConnectTimeout => VelumStatus::ConnectTimeout,
        ClientError::Connection => VelumStatus::Connection,
        ClientError::ControlTooLarge => VelumStatus::ControlTooLarge,
        ClientError::DatagramTooLarge => VelumStatus::DatagramTooLarge,
        ClientError::DatagramUnavailable => VelumStatus::DatagramUnavailable,
        ClientError::Protocol => VelumStatus::Protocol,
        ClientError::Transport => VelumStatus::Transport,
    }
}

/// The stream status that reports a runtime error: a client error keeps its
/// category, every other refusal is a transport failure.
pub open spec fn spec_status_for_runtime(error: RuntimeError) -> VelumStatus {
    match error {
        RuntimeError::Client(inner) => spec_status_for_client(inner),
        _ => VelumStatus::Transport,
    }
}

/// The stream status that reports a retained failure: the same category.
pub open spec fn spec_status_for_failure(failure: RuntimeFailure) -> VelumStatus {
    match failure {
        RuntimeFailure::Certificate => VelumStatus::Certificate,
        RuntimeFailure::ConnectTimeout => VelumStatus::ConnectTimeout,
        RuntimeFailure::Connection => VelumStatus::Connection,
        RuntimeFailure::ControlTooLarge => VelumStatus::ControlTooLarge,
        RuntimeFailure::DatagramTooLarge => VelumStatus::DatagramTooLarge,
        RuntimeFailure::DatagramUnavailable => VelumStatus::DatagramUnavailable,
        RuntimeFailure::Protocol => VelumStatus::Protocol,
        RuntimeFailure::Transport => VelumStatus::Transport,
    }
}

impl VelumStatus {
    pub fn for_client_error(error: ClientError) -> (status: Self)
        ensures
            status == spec_status_for_client(error),
    {
        match error {
            ClientError::Certificate => VelumStatus::Certificate,
            ClientError::ConnectTimeout => VelumStatus::ConnectTimeout,
            ClientError::Connection => VelumStatus::Connection,
            ClientError::ControlTooLarge => VelumStatus::ControlTooLarge,
            ClientError::DatagramTooLarge => VelumStatus::DatagramTooLarge,
            ClientError::DatagramUnavailable => VelumStatus::DatagramUnavailable,
            ClientError::Protocol => VelumStatus::Protocol,
            ClientError::Transport => VelumStatus::Transport,
        }
    }

    pub fn for_runtime_error(error: RuntimeError) -> (status: Self)
        ensures
            status == spec_status_for_runtime(error),
    {
        match error {
            RuntimeError::Client(inner) => Self::for_client_error(inner),
            RuntimeError::Busy
            | RuntimeError::ExecutorUnavailable
            | RuntimeError::NotOnline
            | RuntimeError::Superseded => VelumStatus::Transport,
        }
    }

    pub fn for_failure(failure: RuntimeFailure) -> (status: Self)
        ensures
            status == spec_status_for_failure(failure),
    {
        match failure {
            RuntimeFailure::Certificate => VelumStatus::Certificate,
            RuntimeFailure::ConnectTimeout => VelumStatus::ConnectTimeout,
            RuntimeFailure::Connection => VelumStatus::Connection,
            RuntimeFailure::ControlTooLarge => VelumStatus::ControlTooLarge,
            RuntimeFailure::DatagramTooLarge => VelumStatus::DatagramTooLarge,
            RuntimeFailure::DatagramUnavailable => VelumStatus::DatagramUnavailable,
            RuntimeFailure::Protocol => VelumStatus::Protocol,
            RuntimeFailure::Transport => VelumStatus::Transport,
        }
    }
}

/// A client error retained as a failure is reported with the status the error
/// itself is reported with.
pub proof fn lemma_retained_failure_keeps_status(error: ClientError)
    ensures
        spec_status_for_failure(spec_failure_of(error)) == spec_status_for_client(error),
{
}

/// Status of an immediate runtime control command.
#[derive(Clone, Copy, Debug, PartialEq, Eq, Structural)]
pub enum VelumControlStatus {
    Success,
    InvalidArgument,
    InvalidHandle,
    Configuration,
    Certificate,
    Busy,
    Internal,
}

impl VelumControlStatus {
    /// The number published for this value.
    pub open spec fn spec_code(self) -> i32 {
        match self {
            VelumControlStatus::Success => 0,
            VelumControlStatus::InvalidArgument => 1,
            VelumControlStatus::InvalidHandle => 2,
            VelumControlStatus::Configuration => 3,
            VelumControlStatus::Certificate => 4,
            VelumControlStatus::Busy => 5,
            VelumControlStatus::Internal => 6,
        }
    }

    /// The number published for this value.
    pub fn code(self) -> (code: i32)
        ensures
            code == self.spec_code(),
    {
        match self {
            VelumControlStatus::Success => 0,
            VelumControlStatus::InvalidArgument => 1,
            VelumControlStatus::InvalidHandle => 2,
            VelumControlStatus::Configuration => 3,
            VelumControlStatus::Certificate => 4,
            VelumControlStatus::Busy => 5,
            VelumControlStatus::Internal => 6,
        }
    }
}

/// Runtime phase as published.
#[derive(Clone, Copy, Debug, PartialEq, Eq, Structural)]
pub enum VelumRuntimePhase {
    Stopped,
    Connecting,
    Online,
    Stopping,
    Failed,
}

impl VelumRuntimePhase {
    /// The number published for this value.
    pub open spec fn spec_code(self) -> u32 {
        match self {
            VelumRuntimePhase::Stopped => 0,
            VelumRuntimePhase::Connecting => 1,
            VelumRuntimePhase::Online => 2,
            VelumRuntimePhase::Stopping => 3,
            VelumRuntimePhase::Failed => 4,
        }
    }

    /// The number published for this value.
    pub fn code(self) -> (code: u32)
        ensures
            code == self.spec_code(),
    {
        match self {
            VelumRuntimePhase::Stopped => 0,
            VelumRuntimePhase::Connecting => 1,
            VelumRuntimePhase::Online => 2,
            VelumRuntimePhase::Stopping => 3,
            VelumRuntimePhase::Failed => 4,
        }
    }
}

/// Runtime failure as published; `NoFailure` when there is none.
#[derive(Clone, Copy, Debug, PartialEq, Eq, Structural)]
pub enum VelumRuntimeFailure {
    NoFailure,
    Certificate,
    ConnectTimeout,
    Connection,
    ControlTooLarge,
    DatagramTooLarge,
    DatagramUnavailable,
    Protocol,
    Transport,
}

impl VelumRuntimeFailure {
    /// The number published for this value.
    pub open spec fn spec_code(self) -> u32 {
        match self {
            VelumRuntimeFailure::NoFailure => 0,
            VelumRuntimeFailure::Certificate => 1,
            VelumRuntimeFailure::ConnectTimeout => 2,
            VelumRuntimeFailure::Connection => 3,
            VelumRuntimeFailure::ControlTooLarge => 4,
            VelumRuntimeFailure::DatagramTooLarge => 5,
            VelumRuntimeFailure::DatagramUnavailable => 6,
            VelumRuntimeFailure::Protocol => 7,
            VelumRuntimeFailure::Transport => 8,
        }
    }

    /// The number published for this value.
    pub fn code(self) -> (code: u32)
        ensures
            code == self.spec_code(),
    {
        match self {
            VelumRuntimeFailure::NoFailure => 0,
            VelumRuntimeFailure::Certificate => 1,
            VelumRuntimeFailure::ConnectTimeout => 2,
            VelumRuntimeFailure::Connection => 3,
            VelumRuntimeFailure::ControlTooLarge => 4,
            VelumRuntimeFailure::DatagramTooLarge => 5,
            VelumRuntimeFailure::DatagramUnavailable => 6,
            VelumRuntimeFailure::Protocol => 7,
            VelumRuntimeFailure::Transport => 8,
        }
    }
}

/// The published phase agrees with the snapshot's phase codes.
pub proof fn lemma_phase_codes_agree(phase: RuntimePhase)
    ensures
        spec_phase_code(phase) == match phase {
            RuntimePhase::Stopped => VelumRuntimePhase::Stopped.spec_code(),
            RuntimePhase::Connecting => VelumRuntimePhase::Connecting.spec_code(),
            RuntimePhase::Online => VelumRuntimePhase::Online.spec_code(),
            RuntimePhase::Stopping => VelumRuntimePhase::Stopping.spec_code(),
            RuntimePhase::Failed => VelumRuntimePhase::Failed.spec_code(),
        },
{
}

} // verus!
