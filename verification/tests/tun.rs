use velum::fake_dns::{FakeDnsError, FakeDnsTable};
use velum::datagram::DatagramSessionId;
use velum::net::{IpAddress, SocketAddress};
use velum::packet::{
    classify_ip_packet, classify_ipv4_packet, classify_ipv6_packet, encode_udp_response,
    rewrite_tcp_ipv4_address, udp_payload,
};
use velum::routing::{RoutingAction, RoutingPolicy, RoutingRule, RuleMatcher};
use velum::tun::{
    FlowAdmissionError, FlowKey, FlowProtocol, FrameQueueError, PacketEncodeError, PacketError,
    TcpAddressSide, TunAdapterConfigError,
    TunAdapterLimits, TunFlowRegistry, TunFrameQueue, TunPolicyEngine, TunStackConfig,
    UdpAssociationError, UdpAssociationTable,
};

fn v4(a: u8, b: u8, c: u8, d: u8, port: u16) -> SocketAddress {
    SocketAddress { ip: IpAddress::V4([a, b, c, d]), port }
}

fn v6(segments: [u16; 8]) -> IpAddress {
    let mut octets = [0_u8; 16];
    for (index, segment) in segments.iter().enumerate() {
        octets[2 * index] = (segment >> 8) as u8;
        octets[2 * index + 1] = (segment & 0xff) as u8;
    }
    IpAddress::V6(octets)
}

fn flow(protocol: FlowProtocol, source_port: u16) -> FlowKey {
    FlowKey {
        protocol,
        source: v4(10, 8, 0, 2, source_port),
        destination: v4(192, 0, 2, 10, 443),
    }
}

#[test]
fn limits_require_positive_values() {
    assert_eq!(
        TunAdapterLimits { max_tcp_flows: 0, max_udp_associations: 1 }.validate(),
        Err(TunAdapterConfigError::TcpFlowLimit)
    );
    assert_eq!(
        TunAdapterLimits { max_tcp_flows: 1, max_udp_associations: 0 }.validate(),
        Err(TunAdapterConfigError::UdpAssociationLimit)
    );
}

#[test]
fn frame_queue_enforces_mtu_and_backpressure() {
    let mut queue = TunFrameQueue::new(576, 1).expect("queue");
    assert_eq!(queue.push_inbound(vec![0; 577]), Err(FrameQueueError::Oversized));
    queue.push_inbound(vec![1]).expect("first frame");
    assert_eq!(queue.push_inbound(vec![2]), Err(FrameQueueError::Full));

    assert!(queue.can_transmit());
    queue.transmit(vec![7, 8]);
    assert_eq!(queue.pop_outbound(), Some(vec![7, 8]));
    assert_eq!(queue.pop_outbound(), None);
    assert_eq!(queue.receive().map(|token| token.into_frame()), Some(vec![1]));
}

#[test]
fn frame_queue_rejects_a_small_mtu_or_no_capacity() {
    assert_eq!(TunFrameQueue::new(575, 1).err(), Some(TunAdapterConfigError::FrameQueue));
    assert_eq!(TunFrameQueue::new(1280, 0).err(), Some(TunAdapterConfigError::FrameQueue));
    assert_eq!(TunFrameQueue::new(1280, 2).expect("queue").mtu(), 1280);
}

#[test]
fn stack_configuration_checks_prefix_then_queue() {
    let config = TunStackConfig {
        address: [10, 8, 0, 1],
        prefix_len: 33,
        mtu: 1280,
        frame_queue_capacity: 4,
    };
    assert_eq!(config.validate(), Err(TunAdapterConfigError::Ipv4Prefix));
    let config = TunStackConfig { prefix_len: 24, ..config };
    assert_eq!(config.validate(), Ok(config));
    let config = TunStackConfig { mtu: 100, ..config };
    assert_eq!(config.validate(), Err(TunAdapterConfigError::FrameQueue));
}

#[test]
fn udp_associations_bind_responses_to_the_original_destination() {
    let flow = FlowKey {
        protocol: FlowProtocol::Udp,
        source: v4(10, 8, 0, 2, 50_000),
        destination: v4(192, 0, 2, 53, 53),
    };
    let mut associations = UdpAssociationTable::new(1).expect("limit");
    let session = associations.session_for(flow).expect("session");

    assert_eq!(associations.session_for(flow), Ok(session));
    assert_eq!(associations.flow_for_response(session, flow.destination), Ok(flow));
    assert_eq!(
        associations.flow_for_response(session, v4(192, 0, 2, 54, 53)),
        Err(UdpAssociationError::SourceMismatch)
    );
}

#[test]
fn udp_associations_are_bounded_and_refuse_tcp() {
    let mut associations = UdpAssociationTable::new(1).expect("limit");
    assert_eq!(
        associations.session_for(flow(FlowProtocol::Tcp, 50_000)),
        Err(UdpAssociationError::NotUdp)
    );
    let first = associations.session_for(flow(FlowProtocol::Udp, 50_000)).expect("first");
    assert_eq!(first, DatagramSessionId::new(1).expect("session"));
    assert_eq!(
        associations.session_for(flow(FlowProtocol::Udp, 50_001)),
        Err(UdpAssociationError::Limit)
    );
    let unknown = DatagramSessionId::new(9).expect("session");
    assert_eq!(
        associations.flow_for_response(unknown, v4(192, 0, 2, 10, 443)),
        Err(UdpAssociationError::UnknownSession)
    );
    associations.clear();
    assert!(associations.session_for(flow(FlowProtocol::Udp, 50_001)).is_ok());
    assert!(UdpAssociationTable::new(0).is_err());
}

#[test]
fn offline_runtime_cannot_admit_packet_flows() {
    let mut registry = TunFlowRegistry::new(TunAdapterLimits::default()).expect("limits");
    assert_eq!(
        registry.admit_flow(flow(FlowProtocol::Tcp, 50_000), None),
        Err(FlowAdmissionError::NotOnline)
    );
    assert_eq!(registry.flow_count(), 0);
}

#[test]
fn clear_releases_every_flow_slot() {
    let mut registry = TunFlowRegistry::new(TunAdapterLimits {
        max_tcp_flows: 1,
        max_udp_associations: 1,
    })
    .expect("limits");

    assert_eq!(registry.admit_flow(flow(FlowProtocol::Tcp, 50_000), Some(1)), Ok(1));
    assert_eq!(registry.admit_flow(flow(FlowProtocol::Udp, 50_001), Some(1)), Ok(1));
    assert_eq!(registry.flow_count(), 2);
    registry.clear();

    assert_eq!(registry.flow_count(), 0);
    assert_eq!(registry.admit_flow(flow(FlowProtocol::Tcp, 50_002), Some(1)), Ok(1));
}

#[test]
fn flow_leases_follow_the_online_generation() {
    let mut registry = TunFlowRegistry::new(TunAdapterLimits {
        max_tcp_flows: 1,
        max_udp_associations: 1,
    })
    .expect("limits");
    let key = flow(FlowProtocol::Tcp, 50_000);
    assert_eq!(registry.admit_flow(key, Some(3)), Ok(3));
    assert_eq!(registry.admit_flow(key, Some(3)), Ok(3));
    assert!(registry.is_active(key, 3, true));
    assert!(!registry.is_active(key, 3, false));
    assert_eq!(
        registry.admit_flow(flow(FlowProtocol::Tcp, 50_001), Some(3)),
        Err(FlowAdmissionError::TcpFlowLimit)
    );
    // A lease from an older generation is replaced by the new one.
    assert_eq!(registry.admit_flow(key, Some(4)), Ok(4));
    assert!(!registry.is_active(key, 3, true));
    assert!(registry.is_active(key, 4, true));
    assert!(registry.release(key));
    assert!(!registry.release(key));
    assert_eq!(registry.flow_count(), 0);
}

#[test]
fn fake_dns_restores_domain_before_shared_policy_decision() {
    let policy = RoutingPolicy::new(vec![
        RoutingRule::new(
            RuleMatcher::domain_suffix("example.com").expect("domain"),
            RoutingAction::Node("node-sg".into()),
        ),
        RoutingRule::new(RuleMatcher::Match, RoutingAction::Direct),
    ])
    .expect("policy");
    let now = 1_000;
    let mut engine = TunPolicyEngine::new(3, policy, 32).expect("engine");
    let real = v6([0x2001, 0xdb8, 0, 0, 0, 0, 0, 0x20]);
    let fake = engine
        .allocate_dns(3, "api.example.com", real, 60_000, now)
        .expect("fake IP");
    let decision = engine
        .decide(
            3,
            FlowKey {
                protocol: FlowProtocol::Tcp,
                source: SocketAddress { ip: v6([0xfd00, 0x19, 0, 0, 0, 0, 0, 2]), port: 50_000 },
                destination: SocketAddress { ip: fake, port: 443 },
            },
            now,
        )
        .expect("decision");
    assert_eq!(decision.action, RoutingAction::Node("node-sg".into()));
    assert_eq!(decision.domain.as_deref(), Some("api.example.com"));
    assert_eq!(decision.destination, SocketAddress { ip: real, port: 443 });
}

#[test]
fn policy_engine_refuses_other_generations_and_forgets_on_replacement() {
    let mut engine = TunPolicyEngine::new(3, RoutingPolicy::proxy_all(), 4).expect("engine");
    let real = IpAddress::V4([192, 0, 2, 1]);
    assert_eq!(
        engine.allocate_dns(4, "example.com", real, 1_000, 0),
        Err(FakeDnsError::GenerationMismatch)
    );
    let fake = engine.allocate_dns(3, "example.com", real, 1_000, 0).expect("fake");
    let key = FlowKey {
        protocol: FlowProtocol::Udp,
        source: v4(10, 8, 0, 2, 5000),
        destination: SocketAddress { ip: fake, port: 53 },
    };
    engine.replace_generation(5, RoutingPolicy::proxy_all());
    assert_eq!(engine.decide(3, key, 0).err(), Some(FakeDnsError::GenerationMismatch));
    let decision = engine.decide(5, key, 0).expect("decision");
    assert_eq!(decision.domain, None);
    assert_eq!(decision.destination, key.destination);
    assert_eq!(decision.action, RoutingAction::Proxy);
    assert!(TunPolicyEngine::new(1, RoutingPolicy::proxy_all(), 0).is_err());
}

#[test]
fn mappings_are_dual_stack_bounded_and_generation_scoped() {
    let now = 0;
    let mut table = FakeDnsTable::new(7, 2).expect("table");
    let ipv4 = table
        .allocate(7, "Example.COM.", IpAddress::V4([192, 0, 2, 1]), 30_000, now)
        .expect("mapping");
    let ipv6 = table
        .allocate(7, "example.net", v6([0x2001, 0xdb8, 0, 0, 0, 0, 0, 1]), 30_000, now)
        .expect("mapping");
    assert!(matches!(ipv4, IpAddress::V4(_)));
    assert!(matches!(ipv6, IpAddress::V6(_)));
    assert_eq!(ipv4, IpAddress::V4([198, 18, 0, 1]));
    assert_eq!(ipv6, v6([0xfd00, 0x19, 0, 0, 0, 0, 0, 1]));
    assert_eq!(table.resolve(7, ipv4, now).expect("resolve").unwrap().domain, "example.com");
    table.replace_generation(8);
    assert_eq!(table.resolve(8, ipv4, now), Ok(None));
    assert_eq!(table.resolve(7, ipv4, now), Err(FakeDnsError::GenerationMismatch));
}

#[test]
fn expired_and_oldest_mappings_are_removed() {
    let now = 10_000;
    let mut table = FakeDnsTable::new(1, 1).expect("table");
    let first = table
        .allocate(1, "first.example", IpAddress::V4([192, 0, 2, 1]), 1_000, now)
        .expect("first");
    assert_eq!(table.resolve(1, first, now + 2_000), Ok(None));
    let second = table
        .allocate(1, "second.example", IpAddress::V4([192, 0, 2, 2]), 30_000, now)
        .expect("second");
    assert_ne!(first, second);
    // With capacity one, a new name pushes out the oldest live mapping.
    let third = table
        .allocate(1, "third.example", IpAddress::V4([192, 0, 2, 3]), 30_000, now)
        .expect("third");
    assert_eq!(table.resolve(1, second, now), Ok(None));
    assert_eq!(
        table.resolve(1, third, now).expect("resolve").expect("mapping").expires_at(),
        now + 30_000
    );
}

#[test]
fn fake_dns_refuses_empty_names_and_zero_capacity() {
    assert_eq!(FakeDnsTable::new(1, 0).err(), Some(FakeDnsError::ZeroCapacity));
    let mut table = FakeDnsTable::new(1, 2).expect("table");
    assert_eq!(
        table.allocate(1, " . ", IpAddress::V4([192, 0, 2, 1]), 1, 0),
        Err(FakeDnsError::EmptyDomain)
    );
    let first = table.allocate(1, "a.example", IpAddress::V4([192, 0, 2, 1]), 10, 0).unwrap();
    let again = table.allocate(1, "A.EXAMPLE.", IpAddress::V4([192, 0, 2, 1]), 10, 5).unwrap();
    assert_eq!(first, again);
    assert_eq!(table.generation(), 1);
}

fn ipv4_packet(protocol: u8, transport: &[u8]) -> Vec<u8> {
    let total = 20 + transport.len();
    let mut packet = vec![0; total];
    packet[0] = 0x45;
    packet[2..4].copy_from_slice(&(total as u16).to_be_bytes());
    packet[8] = 64;
    packet[9] = protocol;
    packet[12..16].copy_from_slice(&[10, 8, 0, 2]);
    packet[16..20].copy_from_slice(&[192, 0, 2, 10]);
    packet[20..].copy_from_slice(transport);
    packet
}

fn ipv6_packet(protocol: u8, transport: &[u8]) -> Vec<u8> {
    let mut packet = vec![0; 40 + transport.len()];
    packet[0] = 0x60;
    packet[4..6].copy_from_slice(&(transport.len() as u16).to_be_bytes());
    packet[6] = protocol;
    packet[7] = 64;
    packet[23] = 1;
    packet[24..28].copy_from_slice(&[0x20, 0x01, 0x0d, 0xb8]);
    packet[39] = 1;
    packet[40..].copy_from_slice(transport);
    packet
}

fn tcp_packet() -> Vec<u8> {
    let mut tcp = [0_u8; 20];
    tcp[..2].copy_from_slice(&50_000_u16.to_be_bytes());
    tcp[2..4].copy_from_slice(&443_u16.to_be_bytes());
    tcp[12] = 0x50;
    ipv4_packet(6, &tcp)
}

#[test]
fn classifies_ipv4_udp_without_retaining_payload() {
    let packet = ipv4_packet(17, &[0xc3, 0x50, 0x00, 0x35, 0x00, 0x08, 0x00, 0x00]);
    assert_eq!(
        classify_ipv4_packet(&packet),
        Ok(FlowKey {
            protocol: FlowProtocol::Udp,
            source: v4(10, 8, 0, 2, 50_000),
            destination: v4(192, 0, 2, 10, 53),
        })
    );
    assert_eq!(udp_payload(&packet), Ok(vec![]));
}

#[test]
fn classifies_and_encodes_ipv6_udp() {
    let packet = ipv6_packet(17, &[0xc3, 0x50, 0x00, 0x35, 0x00, 0x08, 0x00, 0x00]);
    let flow = classify_ip_packet(&packet).expect("IPv6 flow");
    assert_eq!(flow.protocol, FlowProtocol::Udp);
    assert_eq!(flow.source.port, 50_000);
    assert_eq!(flow.destination.port, 53);
    assert!(matches!(flow.destination.ip, IpAddress::V6(_)));

    let response = encode_udp_response(flow, &[1, 2, 3], 1280).expect("response");
    let response_flow = classify_ip_packet(&response).expect("response flow");
    assert_eq!(response_flow.source, flow.destination);
    assert_eq!(response_flow.destination, flow.source);
    let ipv6 = smoltcp::wire::Ipv6Packet::new_checked(&response[..]).expect("IPv6");
    let udp = smoltcp::wire::UdpPacket::new_checked(ipv6.payload()).expect("UDP");
    assert!(udp.verify_checksum(&ipv6.src_addr().into(), &ipv6.dst_addr().into()));
    assert_eq!(udp.payload(), &[1, 2, 3]);
}

#[test]
fn rejects_unknown_or_truncated_transport_packets() {
    assert_eq!(classify_ipv4_packet(&ipv4_packet(1, &[])), Err(PacketError::UnsupportedProtocol));
    assert_eq!(
        classify_ipv4_packet(&ipv4_packet(6, &[0; 12])),
        Err(PacketError::MalformedTransport)
    );
    assert_eq!(classify_ipv4_packet(&[0x45; 10]), Err(PacketError::MalformedIpv4));
    let mut fragment = tcp_packet();
    fragment[6] = 0x20;
    assert_eq!(classify_ipv4_packet(&fragment), Err(PacketError::FragmentedIpv4));
    assert_eq!(classify_ip_packet(&[0x50, 0, 0]), Err(PacketError::UnsupportedProtocol));
    assert_eq!(classify_ipv6_packet(&[0x60; 20]), Err(PacketError::MalformedIpv6));
    let zero_port = ipv4_packet(17, &[0xc3, 0x50, 0x00, 0x00, 0x00, 0x08, 0x00, 0x00]);
    assert_eq!(classify_ipv4_packet(&zero_port), Err(PacketError::MalformedTransport));
    assert_eq!(udp_payload(&tcp_packet()), Err(PacketError::UnsupportedProtocol));
}

#[test]
fn rewrites_tcp_endpoint_addresses_and_recalculates_checksums() {
    let original = tcp_packet();
    let internal = [10, 255, 0, 1];
    let rewritten =
        rewrite_tcp_ipv4_address(&original, TcpAddressSide::Destination, internal).expect("rewrite destination");
    let restored = rewrite_tcp_ipv4_address(&rewritten, TcpAddressSide::Source, [192, 0, 2, 10])
        .expect("rewrite source");

    let original_flow = classify_ipv4_packet(&original).expect("original flow");
    let translated_flow = classify_ipv4_packet(&rewritten).expect("translated flow");
    let restored_flow = classify_ipv4_packet(&restored).expect("restored flow");
    assert_eq!(translated_flow.source, original_flow.source);
    assert_eq!(translated_flow.destination.ip, IpAddress::V4(internal));
    assert_eq!(translated_flow.destination.port, original_flow.destination.port);
    assert_eq!(restored_flow.source.ip, original_flow.destination.ip);
    assert_eq!(restored_flow.source.port, original_flow.source.port);
    let packet = smoltcp::wire::Ipv4Packet::new_checked(&restored[..]).expect("IPv4");
    let tcp = smoltcp::wire::TcpPacket::new_checked(packet.payload()).expect("TCP");
    assert!(packet.verify_checksum());
    assert!(tcp.verify_checksum(&packet.src_addr().into(), &packet.dst_addr().into()));
    let udp = ipv4_packet(17, &[0xc3, 0x50, 0x00, 0x35, 0x00, 0x08, 0x00, 0x00]);
    assert_eq!(
        rewrite_tcp_ipv4_address(&udp, TcpAddressSide::Source, internal),
        Err(PacketError::UnsupportedProtocol)
    );
}

#[test]
fn encodes_udp_responses_back_to_the_originating_tun_flow() {
    let original = FlowKey {
        protocol: FlowProtocol::Udp,
        source: v4(10, 8, 0, 2, 50_000),
        destination: v4(192, 0, 2, 53, 53),
    };
    let frame = encode_udp_response(original, &[1, 2, 3], 1280).expect("frame");

    assert_eq!(
        classify_ipv4_packet(&frame),
        Ok(FlowKey {
            protocol: FlowProtocol::Udp,
            source: original.destination,
            destination: original.source,
        })
    );
    assert_eq!(frame.len(), 31);
    assert_eq!(udp_payload(&frame), Ok(vec![1, 2, 3]));
    let packet = smoltcp::wire::Ipv4Packet::new_checked(&frame[..]).expect("IPv4");
    assert!(packet.verify_checksum());
    let udp = smoltcp::wire::UdpPacket::new_checked(packet.payload()).expect("UDP");
    assert!(udp.verify_checksum(&packet.src_addr().into(), &packet.dst_addr().into()));
    assert_eq!(
        encode_udp_response(original, &[0; 2_000], 576),
        Err(PacketEncodeError::MtuExceeded)
    );
    let mixed = FlowKey {
        destination: SocketAddress { ip: v6([0x2001, 0xdb8, 0, 0, 0, 0, 0, 1]), port: 53 },
        ..original
    };
    assert_eq!(
        encode_udp_response(mixed, &[1], 1280),
        Err(PacketEncodeError::AddressFamilyMismatch)
    );
}
