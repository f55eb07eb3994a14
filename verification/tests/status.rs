use velum::engine::{control_status_for, NodePoolError};
use velum::lifecycle::{
    ClientError, RuntimeError, RuntimeFailure, VelumControlStatus, VelumRuntimeFailure,
    VelumRuntimePhase, VelumStatus,
};
use velum::node::{admin_request, AdminRequest, RuntimeStatus, DRAINING, STOPPING};

#[test]
fn status_report_lists_each_field_on_its_own_line() {
    let mut status = RuntimeStatus::default();
    status.connection_opened();
    status.flow_opened();
    status.flow_opened();
    assert_eq!(
        status.render("0.0.0.0:4433", 42, false),
        "running\nlistener=0.0.0.0:4433\nuptime_secs=42\nconnections=1\nflows=2\n"
    );
}

#[test]
fn status_report_in_json_is_one_object() {
    let mut status = RuntimeStatus::default();
    status.set_phase(DRAINING);
    assert_eq!(
        status.render("[::]:443", 0, true),
        "{\"state\":\"draining\",\"listener\":\"[::]:443\",\"uptime_secs\":0,\"connections\":0,\"flows\":0}\n"
    );
    status.set_phase(STOPPING);
    assert!(status.render("x", 1, false).starts_with("stopping\n"));
    status.set_phase(9);
    assert!(status.render("x", 1, false).starts_with("running\n"));
}

#[test]
fn counters_wrap_as_the_shared_counters_do() {
    let mut status = RuntimeStatus::default();
    status.connection_closed();
    assert_eq!(status.connections, usize::MAX);
    status.connection_opened();
    assert_eq!(status.connections, 0);
}

#[test]
fn admin_requests_are_read_from_trimmed_text() {
    assert_eq!(admin_request(b"status\n"), AdminRequest::Status);
    assert_eq!(admin_request(b"  status json \n"), AdminRequest::StatusJson);
    assert_eq!(admin_request(b"drain"), AdminRequest::Drain);
    assert_eq!(admin_request(b"reload\n"), AdminRequest::Reload);
    assert_eq!(admin_request(b"shutdown\n"), AdminRequest::Shutdown);
    assert_eq!(admin_request(b"Status"), AdminRequest::Unknown);
    assert_eq!(admin_request(&[0xff, 0xfe]), AdminRequest::Unknown);
    assert_eq!(admin_request(b""), AdminRequest::Unknown);
}

#[test]
fn stream_statuses_keep_the_failure_category() {
    assert_eq!(VelumStatus::for_client_error(ClientError::ConnectTimeout), VelumStatus::ConnectTimeout);
    assert_eq!(VelumStatus::for_client_error(ClientError::Protocol).code(), 11);
    assert_eq!(
        VelumStatus::for_runtime_error(RuntimeError::Client(ClientError::Certificate)),
        VelumStatus::Certificate
    );
    assert_eq!(VelumStatus::for_runtime_error(RuntimeError::Busy), VelumStatus::Transport);
    assert_eq!(VelumStatus::for_runtime_error(RuntimeError::NotOnline), VelumStatus::Transport);
    assert_eq!(VelumStatus::for_failure(RuntimeFailure::DatagramUnavailable), VelumStatus::DatagramUnavailable);
    assert_eq!(
        VelumStatus::for_failure(RuntimeFailure::from_client_error(ClientError::Connection)),
        VelumStatus::for_client_error(ClientError::Connection)
    );
}

#[test]
fn node_pool_errors_become_control_statuses() {
    assert_eq!(control_status_for(&NodePoolError::Empty), VelumControlStatus::Configuration);
    assert_eq!(control_status_for(&NodePoolError::UnknownNode), VelumControlStatus::Configuration);
    assert_eq!(control_status_for(&NodePoolError::Superseded), VelumControlStatus::Internal);
    assert_eq!(
        control_status_for(&NodePoolError::Runtime(RuntimeError::Busy)),
        VelumControlStatus::Internal
    );
    assert_eq!(control_status_for(&NodePoolError::MissingDefault).code(), 3);
}

#[test]
fn published_numeric_values_are_stable() {
    let protocol = VelumStatus::Protocol.code();
    assert_eq!(std::mem::size_of_val(&protocol), 4);
    assert_eq!(std::mem::align_of_val(&protocol), 4);
    assert_eq!(protocol, 11);
    assert_eq!(VelumControlStatus::Internal.code(), 6);
    assert_eq!(VelumRuntimePhase::Failed.code(), 4);
    assert_eq!(VelumRuntimeFailure::Transport.code(), 8);
}
