use velum::lifecycle::{
    ClientError, Lifecycle, RuntimeError, RuntimeFailure, RuntimePhase, RuntimeSnapshot,
    VelumRuntimeSnapshotV1,
};

#[test]
fn lifecycle_revisions_are_monotonic() {
    let mut lifecycle = Lifecycle::default();
    let generation = lifecycle.begin_connect().expect("begin connect");
    assert_eq!(lifecycle.snapshot.revision, 1);
    assert!(lifecycle.complete_connect(generation, Ok(())));
    assert_eq!(lifecycle.snapshot.revision, 2);
    let stop = lifecycle.begin_stop().expect("begin stop");
    assert_eq!(lifecycle.snapshot.revision, 3);
    assert!(lifecycle.complete_stop(stop));
    assert_eq!(lifecycle.snapshot.revision, 4);
    assert_eq!(lifecycle.snapshot.phase, RuntimePhase::Stopped);
}

#[test]
fn stale_connect_completion_cannot_overwrite_stop() {
    let mut lifecycle = Lifecycle::default();
    let connect = lifecycle.begin_connect().expect("begin connect");
    let stop = lifecycle.begin_stop().expect("begin stop");
    assert!(lifecycle.complete_stop(stop));
    let stopped = lifecycle.snapshot;

    assert!(!lifecycle.complete_connect(connect, Ok(())));
    assert_eq!(lifecycle.snapshot, stopped);
}

#[test]
fn failed_connection_can_be_retried_with_a_new_generation() {
    let mut lifecycle = Lifecycle::default();
    let first = lifecycle.begin_connect().expect("first connect");
    assert!(lifecycle.complete_connect(first, Err(RuntimeFailure::Connection)));
    assert_eq!(lifecycle.snapshot.phase, RuntimePhase::Failed);
    assert_eq!(lifecycle.snapshot.failure, Some(RuntimeFailure::Connection));

    let second = lifecycle.begin_connect().expect("retry connect");
    assert!(second > first);
    assert_eq!(lifecycle.snapshot.phase, RuntimePhase::Connecting);
    assert_eq!(lifecycle.snapshot.failure, None);
}

#[test]
fn busy_lifecycle_rejects_parallel_connect() {
    let mut lifecycle = Lifecycle::default();
    lifecycle.begin_connect().expect("first connect");
    assert_eq!(lifecycle.begin_connect(), Err(RuntimeError::Busy));
}

#[test]
fn active_generation_records_transport_closure_as_failure() {
    let mut lifecycle = Lifecycle::default();
    let generation = lifecycle.begin_connect().expect("begin connect");
    assert!(lifecycle.complete_connect(generation, Ok(())));

    assert!(lifecycle.fail_online(generation, RuntimeFailure::Connection));
    assert_eq!(lifecycle.snapshot.phase, RuntimePhase::Failed);
    assert_eq!(lifecycle.snapshot.failure, Some(RuntimeFailure::Connection));
    assert!(!lifecycle.fail_online(generation, RuntimeFailure::Transport));
}

#[test]
fn stopping_an_already_stopped_runtime_does_nothing() {
    let mut lifecycle = Lifecycle::default();
    assert_eq!(lifecycle.begin_stop(), None);
    assert_eq!(lifecycle.snapshot, RuntimeSnapshot::default());
}

#[test]
fn published_numeric_values_follow_the_snapshot() {
    let published = VelumRuntimeSnapshotV1::from_snapshot(RuntimeSnapshot {
        revision: 9,
        generation: 4,
        phase: RuntimePhase::Failed,
        failure: Some(RuntimeFailure::Transport),
    });
    assert_eq!(published, VelumRuntimeSnapshotV1 { revision: 9, generation: 4, phase: 4, failure: 8 });
    let idle = VelumRuntimeSnapshotV1::from_snapshot(RuntimeSnapshot::default());
    assert_eq!(idle.phase, 0);
    assert_eq!(idle.failure, 0);
}

#[test]
fn client_errors_map_to_the_same_failure_category() {
    assert_eq!(RuntimeFailure::from_client_error(ClientError::ConnectTimeout), RuntimeFailure::ConnectTimeout);
    assert_eq!(RuntimeFailure::from_client_error(ClientError::Protocol), RuntimeFailure::Protocol);
}
