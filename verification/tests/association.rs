use velum::association::{admit_forward, DatagramAssociations};
use velum::datagram::{Datagram, DatagramSessionId};
use velum::net::{IpAddress, SocketAddress};
use velum::node::{DatagramRelayConfig, DatagramRelayConfigError, DatagramRelayError};
use velum::server::DestinationPolicy;

fn address(last: u8, port: u16) -> SocketAddress {
    SocketAddress { ip: IpAddress::V4([192, 0, 2, last]), port }
}

fn request(session: u64, destination: SocketAddress, payload: &[u8]) -> Vec<u8> {
    Datagram::ClientToServer {
        credential: vec![7; 32],
        session_id: DatagramSessionId::new(session).expect("session"),
        destination,
        payload: payload.to_vec(),
    }
    .encode()
    .expect("request")
}

#[test]
fn relay_rejects_unapproved_and_repurposed_sessions() {
    let rejected = request(1, address(1, 53), &[]);
    assert!(matches!(
        admit_forward(&rejected, &DestinationPolicy::default()),
        Err(DatagramRelayError::DestinationRejected)
    ));
}

#[test]
fn admitted_datagram_keeps_session_destination_and_payload() {
    let target = address(10, 53);
    let admitted = admit_forward(&request(9, target, b"ping"), &DestinationPolicy::new(vec![target]))
        .expect("admitted");
    assert_eq!(admitted.session_id.get(), 9);
    assert_eq!(admitted.destination, target);
    assert_eq!(admitted.payload, b"ping".to_vec());
}

#[test]
fn responses_and_garbage_are_not_forwarded() {
    let response = Datagram::ServerToClient {
        session_id: DatagramSessionId::new(1).expect("session"),
        source: address(10, 53),
        payload: vec![1],
    }
    .encode()
    .expect("response");
    let policy = DestinationPolicy::new(vec![address(10, 53)]);
    assert!(matches!(admit_forward(&response, &policy), Err(DatagramRelayError::UnexpectedDirection)));
    assert!(matches!(admit_forward(&[0xff], &policy), Err(DatagramRelayError::Malformed)));
}

#[test]
fn association_configuration_is_validated() {
    let config = DatagramRelayConfig { max_associations: 0, idle_timeout: 1, receive_buffer_bytes: 1 };
    assert!(matches!(
        DatagramAssociations::<u8>::new(&config),
        Err(DatagramRelayConfigError::AssociationLimit)
    ));
    assert!(DatagramAssociations::<u8>::new(&DatagramRelayConfig::default()).is_ok());
}

#[test]
fn a_session_stays_bound_to_its_destination_and_the_table_stays_bounded() {
    let config = DatagramRelayConfig { max_associations: 1, idle_timeout: 100, receive_buffer_bytes: 64 };
    let mut table = DatagramAssociations::new(&config).expect("table");
    assert_eq!(table.existing(1, &address(10, 53)), Ok(None));
    table.insert(1, address(10, 53), 0, "socket-1");
    assert_eq!(table.existing(1, &address(10, 53)), Ok(Some(&"socket-1")));
    assert_eq!(table.existing(1, &address(11, 53)), Err(DatagramRelayError::SessionTargetMismatch));
    assert_eq!(table.existing(2, &address(10, 53)), Err(DatagramRelayError::AssociationLimit));
    assert_eq!(table.len(), 1);
}

#[test]
fn idle_associations_are_pruned_and_touched_ones_kept() {
    let config = DatagramRelayConfig { max_associations: 4, idle_timeout: 100, receive_buffer_bytes: 64 };
    let mut table = DatagramAssociations::new(&config).expect("table");
    table.insert(1, address(10, 53), 0, "first");
    table.insert(2, address(11, 53), 0, "second");
    assert!(table.touch(2, 150));
    assert!(!table.touch(3, 150));
    assert_eq!(table.prune_idle(100), Vec::<&str>::new());
    assert_eq!(table.prune_idle(200), vec!["first"]);
    assert_eq!(table.existing(1, &address(10, 53)), Ok(None));
    assert_eq!(table.existing(2, &address(11, 53)), Ok(Some(&"second")));
    assert_eq!(table.shutdown(), vec!["second"]);
    assert_eq!(table.len(), 0);
}
