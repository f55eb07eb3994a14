use std::cell::RefCell;
use std::rc::Rc;

use velum::helper::{
    Capability, Command, CommandResult, EmptyParameters, ErrorCode, HostState, IpNetwork,
    Request, StartParameters, Success, PROTOCOL_VERSION,
};
use velum::host::{
    valid_configuration, HostFailure, JournalCalls, PlatformBackend, PlatformCalls,
    RecoveryJournal, RecoveryRecord, TrafficHost,
};
use velum::net::IpAddress;

#[derive(Default, Clone)]
struct MemoryJournal {
    record: Rc<RefCell<Option<RecoveryRecord>>>,
    events: Events,
}

type Events = Rc<RefCell<Vec<&'static str>>>;

impl MemoryJournal {
    fn holding(record: RecoveryRecord) -> Self {
        let journal = MemoryJournal::default();
        journal.record.replace(Some(record));
        journal
    }
}

impl RecoveryJournal for MemoryJournal {
    fn journal_calls(&self) -> JournalCalls {
        unreachable!("ghost state is not kept at run time")
    }

    fn load(&mut self) -> Result<Option<RecoveryRecord>, HostFailure> {
        self.events.borrow_mut().push("load");
        Ok(self.record.borrow().clone())
    }

    fn write(&mut self, record: &RecoveryRecord) -> Result<(), HostFailure> {
        self.events.borrow_mut().push("write");
        self.record.replace(Some(record.clone()));
        Ok(())
    }

    fn clear(&mut self) -> Result<(), HostFailure> {
        self.events.borrow_mut().push("clear");
        self.record.replace(None);
        Ok(())
    }
}

/// A journal whose writes are refused.
struct FullJournal;

impl RecoveryJournal for FullJournal {
    fn journal_calls(&self) -> JournalCalls {
        unreachable!("ghost state is not kept at run time")
    }

    fn load(&mut self) -> Result<Option<RecoveryRecord>, HostFailure> {
        Ok(None)
    }

    fn write(&mut self, _: &RecoveryRecord) -> Result<(), HostFailure> {
        Err(HostFailure::Journal)
    }

    fn clear(&mut self) -> Result<(), HostFailure> {
        Ok(())
    }
}

#[derive(Default)]
struct Counters {
    starts: usize,
    fail_start: bool,
    recoveries: usize,
}

#[derive(Default, Clone)]
struct Backend {
    counters: Rc<RefCell<Counters>>,
    events: Events,
}

impl PlatformBackend for Backend {
    fn platform_calls(&self) -> PlatformCalls {
        unreachable!("ghost state is not kept at run time")
    }

    fn start(&mut self, _: &StartParameters) -> Result<(), HostFailure> {
        self.events.borrow_mut().push("start");
        let mut counters = self.counters.borrow_mut();
        counters.starts += 1;
        if counters.fail_start {
            Err(HostFailure::Platform)
        } else {
            Ok(())
        }
    }

    fn stop(&mut self) -> Result<(), HostFailure> {
        self.events.borrow_mut().push("stop");
        Ok(())
    }

    fn recover(&mut self, _: &RecoveryRecord) -> Result<(), HostFailure> {
        self.events.borrow_mut().push("recover");
        self.counters.borrow_mut().recoveries += 1;
        Ok(())
    }
}

fn parameters() -> StartParameters {
    let mut ipv6 = [0_u8; 16];
    ipv6[..4].copy_from_slice(&[0xfd, 0x00, 0x00, 0x19]);
    ipv6[15] = 1;
    StartParameters {
        mtu: 1500,
        ipv4: Some(IpNetwork { address: IpAddress::V4([172, 19, 0, 1]), prefix_length: 30 }),
        ipv6: Some(IpNetwork { address: IpAddress::V6(ipv6), prefix_length: 126 }),
        dns: vec![IpAddress::V4([1, 1, 1, 1])],
    }
}

fn request(request_id: u64, generation: u64, command: Command) -> Request {
    Request {
        version: PROTOCOL_VERSION,
        request_id,
        profile_generation: generation,
        capabilities: vec![Capability::Tun],
        command,
    }
}

fn start(request_id: u64, generation: u64) -> Request {
    request(request_id, generation, Command::Start(parameters()))
}

#[test]
fn retries_are_idempotent_and_old_generations_are_rejected() {
    let backend = Backend::default();
    let mut host =
        TrafficHost::new(backend.clone(), MemoryJournal::default(), vec![Capability::Tun])
            .expect("host");
    let first = host.handle(start(1, 7));
    let retry = host.handle(start(1, 7));
    assert_eq!(first, retry);
    assert_eq!(first.response, CommandResult::Succeeded(Success::Started));
    assert_eq!(backend.counters.borrow().starts, 1);
    assert!(matches!(
        host.handle(start(2, 6)).response,
        CommandResult::Failed(ErrorCode::GenerationConflict)
    ));
}

#[test]
fn failed_mutation_requires_recovery_before_another_start() {
    let backend = Backend::default();
    backend.counters.borrow_mut().fail_start = true;
    let mut host =
        TrafficHost::new(backend.clone(), MemoryJournal::default(), vec![Capability::Tun])
            .expect("host");
    assert!(matches!(
        host.handle(start(1, 1)).response,
        CommandResult::Failed(ErrorCode::Platform)
    ));
    assert!(matches!(
        host.handle(start(2, 2)).response,
        CommandResult::Failed(ErrorCode::RecoveryRequired)
    ));
    backend.counters.borrow_mut().fail_start = false;
    let recovered = host.handle(request(3, 2, Command::Recover(EmptyParameters {})));
    assert!(matches!(recovered.response, CommandResult::Succeeded(Success::Recovered)));
    assert_eq!(host.state(), HostState::Stopped);
    assert_eq!(backend.counters.borrow().recoveries, 1);
}

#[test]
fn a_journaled_record_makes_a_new_host_recover_first() {
    let journal =
        MemoryJournal::holding(RecoveryRecord { profile_generation: 4, configuration: parameters() });
    let mut host = TrafficHost::new(Backend::default(), journal, vec![Capability::Tun]).expect("host");
    assert_eq!(host.state(), HostState::Recovering);
    assert!(matches!(
        host.handle(start(1, 5)).response,
        CommandResult::Failed(ErrorCode::RecoveryRequired)
    ));
}

#[test]
fn requests_are_checked_before_they_reach_the_platform() {
    let backend = Backend::default();
    let mut host =
        TrafficHost::new(backend.clone(), MemoryJournal::default(), vec![Capability::Tun])
            .expect("host");
    let mut unsupported = start(1, 1);
    unsupported.capabilities = vec![Capability::Ipv6];
    assert_eq!(
        host.handle(unsupported).response,
        CommandResult::Failed(ErrorCode::UnsupportedCapability)
    );
    let mut old_version = start(2, 1);
    old_version.version = 2;
    assert_eq!(
        host.handle(old_version).response,
        CommandResult::Failed(ErrorCode::UnsupportedVersion)
    );
    let mut tiny = parameters();
    tiny.mtu = 100;
    assert!(!valid_configuration(&tiny));
    assert!(valid_configuration(&parameters()));
    assert_eq!(
        host.handle(request(3, 1, Command::Start(tiny))).response,
        CommandResult::Failed(ErrorCode::InvalidConfiguration)
    );
    assert_eq!(backend.counters.borrow().starts, 0);
    let status = host.handle(request(4, 1, Command::Status(EmptyParameters {})));
    assert_eq!(status.response, CommandResult::Succeeded(Success::Status { state: HostState::Stopped }));
    assert_eq!(status.request_id, 4);
}

#[test]
fn start_state_follows_what_the_journal_returned() {
    let stored = RecoveryRecord { profile_generation: 4, configuration: parameters() };
    let host = TrafficHost::from_loaded(Backend::default(), MemoryJournal::default(), vec![], Ok(Some(stored)))
        .expect("host");
    assert_eq!(host.state(), HostState::Recovering);
    let host = TrafficHost::from_loaded(Backend::default(), MemoryJournal::default(), vec![], Ok(None))
        .expect("host");
    assert_eq!(host.state(), HostState::Stopped);
    assert!(matches!(
        TrafficHost::from_loaded(Backend::default(), MemoryJournal::default(), vec![], Err(HostFailure::Journal)),
        Err(HostFailure::Journal)
    ));
    let backend = Backend::default();
    let _ = TrafficHost::from_loaded(backend.clone(), MemoryJournal::default(), vec![], Ok(None));
    assert_eq!(backend.counters.borrow().starts, 0);
    assert_eq!(backend.counters.borrow().recoveries, 0);
}

#[test]
fn the_journal_is_written_before_the_backend_starts() {
    let events: Events = Rc::new(RefCell::new(Vec::new()));
    let backend = Backend { counters: Rc::default(), events: events.clone() };
    let journal = MemoryJournal { record: Rc::default(), events: events.clone() };
    let mut host = TrafficHost::new(backend, journal, vec![Capability::Tun]).expect("host");
    assert_eq!(host.handle(start(1, 3)).response, CommandResult::Succeeded(Success::Started));
    assert_eq!(*events.borrow(), vec!["load", "write", "start"]);
    assert_eq!(
        host.handle(request(2, 3, Command::Stop(EmptyParameters {}))).response,
        CommandResult::Succeeded(Success::Stopped)
    );
    assert_eq!(*events.borrow(), vec!["load", "write", "start", "stop", "clear"]);
}

#[test]
fn a_refused_journal_write_leaves_the_backend_untouched() {
    let backend = Backend::default();
    let mut host = TrafficHost::new(backend.clone(), FullJournal, vec![Capability::Tun]).expect("host");
    assert_eq!(host.handle(start(1, 1)).response, CommandResult::Failed(ErrorCode::Platform));
    assert_eq!(backend.counters.borrow().starts, 0);
    assert_eq!(host.state(), HostState::Failed);
}

#[test]
fn recovery_hands_the_backend_the_journaled_record_and_clears_it() {
    let events: Events = Rc::new(RefCell::new(Vec::new()));
    let backend = Backend { counters: Rc::default(), events: events.clone() };
    let stored = RecoveryRecord { profile_generation: 9, configuration: parameters() };
    let journal = MemoryJournal { record: Rc::new(RefCell::new(Some(stored))), events: events.clone() };
    let record = journal.record.clone();
    let mut host = TrafficHost::new(backend, journal, vec![Capability::Tun]).expect("host");
    let recovered = host.handle(request(1, 9, Command::Recover(EmptyParameters {})));
    assert_eq!(recovered.response, CommandResult::Succeeded(Success::Recovered));
    assert_eq!(*events.borrow(), vec!["load", "load", "recover", "clear"]);
    assert!(record.borrow().is_none());
    assert_eq!(host.state(), HostState::Stopped);
    assert_eq!(
        host.handle(request(2, 8, Command::Status(EmptyParameters {}))).response,
        CommandResult::Failed(ErrorCode::GenerationConflict)
    );
}
