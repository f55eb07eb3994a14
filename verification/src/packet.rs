//! Layer-3 frames of a TUN interface: IPv4 and IPv6 headers carrying TCP or
//! UDP, read into flow keys; UDP responses and translated TCP segments
//! written back. Checksums are computed by smoltcp.
use vstd::prelude::*;

use crate::bytes::read_array16;
use crate::net::{AddressView, IpAddress, IpView, SocketAddress};
use crate::tun::{FlowKey, FlowKeyView, FlowProtocol, PacketEncodeError, PacketError, TcpAddressSide};

verus! {

/// The big-endian 16-bit word at `i`.
pub open spec fn word(d: Seq<u8>, i: int) -> nat {
    d[i] as nat * 256 + d[i + 1] as nat
}

/// The two octets in network order of a 16-bit field holding `x`.
pub open spec fn field16(x: nat) -> Seq<u8> {
    seq![((x % 65536) / 256) as u8, (x % 256) as u8]
}

/// `f` with the 16-bit field at `i` set to `x`.
pub open spec fn with_field16(f: Seq<u8>, i: int, x: nat) -> Seq<u8> {
    f.update(i, ((x % 65536) / 256) as u8).update(i + 1, (x % 256) as u8)
}

/// IPv4 header length in octets, from the IHL field.
pub open spec fn ipv4_header_len(f: Seq<u8>) -> nat {
    (f[0] as nat % 16) * 4
}

/// IPv4 total length field.
pub open spec fn ipv4_total_len(f: Seq<u8>) -> nat {
    word(f, 2)
}

/// The fixed header, the announced header and the announced packet all lie
/// within the frame.
pub open spec fn ipv4_lengths_ok(f: Seq<u8>) -> bool {
    &&& f.len() >= 20
    &&& f.len() >= ipv4_header_len(f)
    &&& ipv4_header_len(f) <= ipv4_total_len(f)
    &&& f.len() >= ipv4_total_len(f)
}

/// Version 4, and neither a fragment with more to follow nor a later one.
pub open spec fn ipv4_unfragmented(f: Seq<u8>) -> bool {
    f[0] / 16 == 4 && word(f, 6) % 0x4000 == 0
}

/// What an IPv4 header announces as its payload.
pub open spec fn ipv4_payload(f: Seq<u8>) -> Seq<u8> {
    f.subrange(ipv4_header_len(f) as int, ipv4_total_len(f) as int)
}

/// IPv6 payload length field.
pub open spec fn ipv6_payload_len(f: Seq<u8>) -> nat {
    word(f, 4)
}

/// The fixed header and the announced payload lie within the frame, and the
/// version is 6.
pub open spec fn ipv6_ok(f: Seq<u8>) -> bool {
    &&& f.len() >= 40
    &&& f.len() >= 40 + ipv6_payload_len(f)
    &&& f[0] / 16 == 6
}

/// What an IPv6 header announces as its payload.
pub open spec fn ipv6_payload(f: Seq<u8>) -> Seq<u8> {
    f.subrange(40, 40 + ipv6_payload_len(f) as int)
}

/// TCP data offset in octets.
pub open spec fn tcp_header_len(p: Seq<u8>) -> nat {
    (p[12] / 16) as nat * 4
}

/// A TCP header whose announced length lies within the segment.
pub open spec fn tcp_ok(p: Seq<u8>) -> bool {
    p.len() >= 20 && tcp_header_len(p) >= 20 && p.len() >= tcp_header_len(p)
}

/// A UDP header whose length field covers the header and lies within the
/// datagram.
pub open spec fn udp_ok(p: Seq<u8>) -> bool {
    p.len() >= 8 && word(p, 4) >= 8 && p.len() >= word(p, 4)
}

/// The protocol and ports of a TCP (6) or UDP (17) segment.
pub open spec fn transport_flow(protocol: u8, p: Seq<u8>) -> Result<(FlowProtocol, u16, u16), PacketError> {
    if protocol == 6 {
        if tcp_ok(p) {
            Ok((FlowProtocol::Tcp, word(p, 0) as u16, word(p, 2) as u16))
        } else {
            Err(PacketError::MalformedTransport)
        }
    } else if protocol == 17 {
        if udp_ok(p) {
            Ok((FlowProtocol::Udp, word(p, 0) as u16, word(p, 2) as u16))
        } else {
            Err(PacketError::MalformedTransport)
        }
    } else {
        Err(PacketError::UnsupportedProtocol)
    }
}

/// The flow between two addresses that a transport segment names; a zero
/// destination port is refused.
pub open spec fn flow_from(
    ports: Result<(FlowProtocol, u16, u16), PacketError>,
    source: IpView,
    destination: IpView,
) -> Result<FlowKeyView, PacketError> {
    match ports {
        Err(e) => Err(e),
        Ok((protocol, source_port, destination_port)) => if destination_port == 0 {
            Err(PacketError::MalformedTransport)
        } else {
            Ok(
                FlowKeyView {
                    protocol,
                    source: AddressView { ip: source, port: source_port },
                    destination: AddressView { ip: destination, port: destination_port },
                },
            )
        },
    }
}

/// The flow of an IPv4 frame.
pub open spec fn ipv4_flow(f: Seq<u8>) -> Result<FlowKeyView, PacketError> {
    if !ipv4_lengths_ok(f) {
        Err(PacketError::MalformedIpv4)
    } else if !ipv4_unfragmented(f) {
        Err(PacketError::FragmentedIpv4)
    } else {
        flow_from(
            transport_flow(f[9], ipv4_payload(f)),
            IpView::V4(f.subrange(12, 16)),
            IpView::V4(f.subrange(16, 20)),
        )
    }
}

/// The flow of an IPv6 frame without extension headers.
pub open spec fn ipv6_flow(f: Seq<u8>) -> Result<FlowKeyView, PacketError> {
    if !ipv6_ok(f) {
        Err(PacketError::MalformedIpv6)
    } else {
        flow_from(
            transport_flow(f[6], ipv6_payload(f)),
            IpView::V6(f.subrange(8, 24)),
            IpView::V6(f.subrange(24, 40)),
        )
    }
}

/// The flow of a frame, by the version in its first octet.
pub open spec fn ip_flow(f: Seq<u8>) -> Result<FlowKeyView, PacketError> {
    if f.len() > 0 && f[0] / 16 == 4 {
        ipv4_flow(f)
    } else if f.len() > 0 && f[0] / 16 == 6 {
        ipv6_flow(f)
    } else {
        Err(PacketError::UnsupportedProtocol)
    }
}

/// A classification result by its content.
pub open spec fn flow_result(r: Result<FlowKey, PacketError>) -> Result<FlowKeyView, PacketError> {
    match r {
        Ok(k) => Ok(k@),
        Err(e) => Err(e),
    }
}

fn read_word(d: &[u8], i: usize) -> (w: u16)
    requires
        i + 2 <= d@.len(),
    ensures
        w as nat == word(d@, i as int),
{
    (d[i] as u16) * 256 + (d[i + 1] as u16)
}

fn read_array4(d: &[u8], offset: usize) -> (out: [u8; 4])
    requires
        offset + 4 <= d@.len(),
    ensures
        out@ == d@.subrange(offset as int, offset + 4),
{
    let out = [d[offset], d[offset + 1], d[offset + 2], d[offset + 3]];
    assert(out@ =~= d@.subrange(offset as int, offset + 4));
    out
}

/// The protocol and ports of the segment in `frame[start..end]`.
fn transport_ports(frame: &[u8], protocol: u8, start: usize, end: usize) -> (ports: Result<
    (FlowProtocol, u16, u16),
    PacketError,
>)
    requires
        start <= end <= frame@.len(),
    ensures
        ports == transport_flow(protocol, frame@.subrange(start as int, end as int)),
{
    let ghost p = frame@.subrange(start as int, end as int);
    let len = end - start;
    if protocol == 6 {
        if len < 20 {
            return Err(PacketError::MalformedTransport);
        }
        assert(p[12] == frame@[start + 12]);
        let header = ((frame[start + 12] / 16) as usize) * 4;
        if header < 20 || len < header {
            return Err(PacketError::MalformedTransport);
        }
        assert(word(p, 0) == word(frame@, start as int) && word(p, 2) == word(frame@, start + 2));
        Ok((FlowProtocol::Tcp, read_word(frame, start), read_word(frame, start + 2)))
    } else if protocol == 17 {
        if len < 8 {
            return Err(PacketError::MalformedTransport);
        }
        assert(word(p, 4) == word(frame@, start + 4));
        let length = read_word(frame, start + 4) as usize;
        if length < 8 || len < length {
            return Err(PacketError::MalformedTransport);
        }
        assert(word(p, 0) == word(frame@, start as int) && word(p, 2) == word(frame@, start + 2));
        Ok((FlowProtocol::Udp, read_word(frame, start), read_word(frame, start + 2)))
    } else {
        Err(PacketError::UnsupportedProtocol)
    }
}

fn flow_key(ports: Result<(FlowProtocol, u16, u16), PacketError>, source: IpAddress, destination: IpAddress) -> (flow: Result<
    FlowKey,
    PacketError,
>)
    ensures
        flow_result(flow) == flow_from(ports, source@, destination@),
{
    let (protocol, source_port, destination_port) = ports?;
    if destination_port == 0 {
        return Err(PacketError::MalformedTransport);
    }
    Ok(
        FlowKey {
            protocol,
            source: SocketAddress { ip: source, port: source_port },
            destination: SocketAddress { ip: destination, port: destination_port },
        },
    )
}

/// Reads the flow of one IPv4 TCP or UDP frame without keeping its payload.
pub fn classify_ipv4_packet(frame: &[u8]) -> (flow: Result<FlowKey, PacketError>)
    ensures
        flow_result(flow) == ipv4_flow(frame@),
{
    let n = frame.len();
    if n < 20 {
        return Err(PacketError::MalformedIpv4);
    }
    let header = ((frame[0] % 16) as usize) * 4;
    let total = read_word(frame, 2) as usize;
    if n < header || header > total || n < total {
        return Err(PacketError::MalformedIpv4);
    }
    if frame[0] / 16 != 4 || read_word(frame, 6) % 0x4000 != 0 {
        return Err(PacketError::FragmentedIpv4);
    }
    let ports = transport_ports(frame, frame[9], header, total);
    let source = IpAddress::V4(read_array4(frame, 12));
    let destination = IpAddress::V4(read_array4(frame, 16));
    flow_key(ports, source, destination)
}

/// Reads the flow of one IPv6 TCP or UDP frame without extension headers.
pub fn classify_ipv6_packet(frame: &[u8]) -> (flow: Result<FlowKey, PacketError>)
    ensures
        flow_result(flow) == ipv6_flow(frame@),
{
    let n = frame.len();
    if n < 40 {
        return Err(PacketError::MalformedIpv6);
    }
    let end = 40 + read_word(frame, 4) as usize;
    if n < end || frame[0] / 16 != 6 {
        return Err(PacketError::MalformedIpv6);
    }
    let ports = transport_ports(frame, frame[6], 40, end);
    let source = IpAddress::V6(read_array16(frame, 8));
    let destination = IpAddress::V6(read_array16(frame, 24));
    flow_key(ports, source, destination)
}

/// Reads the flow of one raw TUN frame, by its IP version.
pub fn classify_ip_packet(frame: &[u8]) -> (flow: Result<FlowKey, PacketError>)
    ensures
        flow_result(flow) == ip_flow(frame@),
{
    if frame.len() > 0 && frame[0] / 16 == 4 {
        classify_ipv4_packet(frame)
    } else if frame.len() > 0 && frame[0] / 16 == 6 {
        classify_ipv6_packet(frame)
    } else {
        Err(PacketError::UnsupportedProtocol)
    }
}

/// IPv6 classification law: a version-6 frame whose fixed header and
/// announced payload lie in the frame, whose next header is TCP (6) with a
/// header of 20 octets or more inside the payload, or UDP (17) with a length
/// field that covers its header and lies inside the payload, and whose
/// destination port is not zero, is classified as a flow of that protocol
/// from the source address (octets 8 to 24) and the big-endian port in
/// payload octets 0 and 1, to the destination address (octets 24 to 40) and
/// the port in payload octets 2 and 3; by version and by family alike.
pub proof fn lemma_ipv6_transport_classified(f: Seq<u8>)
    requires
        f.len() >= 40,
        f[0] / 16 == 6,
        40 + f[4] as int * 256 + f[5] as int <= f.len(),
        f[6] == 6 || f[6] == 17,
        f[6] == 6 ==> f[4] as int * 256 + f[5] as int >= 20 && 20 <= (f[52] / 16) as int * 4
            <= f[4] as int * 256 + f[5] as int,
        f[6] == 17 ==> f[4] as int * 256 + f[5] as int >= 8 && 8 <= f[44] as int * 256
            + f[45] as int <= f[4] as int * 256 + f[5] as int,
        f[42] as int * 256 + f[43] as int != 0,
    ensures
        ({
            let key = FlowKeyView {
                protocol: if f[6] == 6 {
                    FlowProtocol::Tcp
                } else {
                    FlowProtocol::Udp
                },
                source: AddressView {
                    ip: IpView::V6(f.subrange(8, 24)),
                    port: (f[40] as int * 256 + f[41] as int) as u16,
                },
                destination: AddressView {
                    ip: IpView::V6(f.subrange(24, 40)),
                    port: (f[42] as int * 256 + f[43] as int) as u16,
                },
            };
            &&& ipv6_flow(f) == Ok::<FlowKeyView, PacketError>(key)
            &&& ip_flow(f) == Ok::<FlowKeyView, PacketError>(key)
        }),
{
    let p = ipv6_payload(f);
    assert(p[0] == f[40] && p[1] == f[41] && p[2] == f[42] && p[3] == f[43]);
    if f[6] == 6 {
        assert(p[12] == f[52]);
    } else {
        assert(p[4] == f[44] && p[5] == f[45]);
    }
}

/// IPv4 classification law: an unfragmented version-4 frame whose header
/// (of 20 octets or more, by its IHL) and announced total length lie in the
/// frame, carrying TCP (6) with a header of 20 octets or more inside the
/// payload, or UDP (17) with a length field that covers its header and lies
/// inside the payload, with a non-zero destination port, is classified as a
/// flow of that protocol from the source address (octets 12 to 16) and the
/// big-endian port in payload octets 0 and 1, to the destination address
/// (octets 16 to 20) and the port in payload octets 2 and 3; by version and
/// by family alike.
pub proof fn lemma_ipv4_transport_classified(f: Seq<u8>)
    requires
        f.len() >= 20,
        f[0] / 16 == 4,
        (f[0] % 16) as int * 4 >= 20,
        (f[0] % 16) as int * 4 <= f[2] as int * 256 + f[3] as int <= f.len(),
        (f[6] as int * 256 + f[7] as int) % 0x4000 == 0,
        f[9] == 6 || f[9] == 17,
        f[9] == 6 ==> ({
            let h = (f[0] % 16) as int * 4;
            let t = f[2] as int * 256 + f[3] as int;
            t - h >= 20 && 20 <= (f[h + 12] / 16) as int * 4 <= t - h
        }),
        f[9] == 17 ==> ({
            let h = (f[0] % 16) as int * 4;
            let t = f[2] as int * 256 + f[3] as int;
            t - h >= 8 && 8 <= f[h + 4] as int * 256 + f[h + 5] as int <= t - h
        }),
        ({
            let h = (f[0] % 16) as int * 4;
            f[h + 2] as int * 256 + f[h + 3] as int != 0
        }),
    ensures
        ({
            let h = (f[0] % 16) as int * 4;
            let key = FlowKeyView {
                protocol: if f[9] == 6 {
                    FlowProtocol::Tcp
                } else {
                    FlowProtocol::Udp
                },
                source: AddressView {
                    ip: IpView::V4(f.subrange(12, 16)),
                    port: (f[h] as int * 256 + f[h + 1] as int) as u16,
                },
                destination: AddressView {
                    ip: IpView::V4(f.subrange(16, 20)),
                    port: (f[h + 2] as int * 256 + f[h + 3] as int) as u16,
                },
            };
            &&& ipv4_flow(f) == Ok::<FlowKeyView, PacketError>(key)
            &&& ip_flow(f) == Ok::<FlowKeyView, PacketError>(key)
        }),
{
    let h = (f[0] % 16) as int * 4;
    let p = ipv4_payload(f);
    assert(p[0] == f[h] && p[1] == f[h + 1] && p[2] == f[h + 2] && p[3] == f[h + 3]);
    if f[9] == 6 {
        assert(p[12] == f[h + 12]);
    } else {
        assert(p[4] == f[h + 4] && p[5] == f[h + 5]);
    }
}

/// The data of a UDP datagram, as its length field bounds it.
pub open spec fn udp_data(p: Seq<u8>) -> Seq<u8> {
    p.subrange(8, word(p, 4) as int)
}

/// The payload of one IPv4 UDP frame.
pub fn udp_payload(frame: &[u8]) -> (payload: Result<Vec<u8>, PacketError>)
    ensures
        match ipv4_flow(frame@) {
            Err(e) => payload == Err::<Vec<u8>, PacketError>(e),
            Ok(k) => if k.protocol != FlowProtocol::Udp {
                payload == Err::<Vec<u8>, PacketError>(PacketError::UnsupportedProtocol)
            } else {
                payload matches Ok(p) && p@ == udp_data(ipv4_payload(frame@))
            },
        },
{
    let key = classify_ipv4_packet(frame)?;
    if key.protocol != FlowProtocol::Udp {
        return Err(PacketError::UnsupportedProtocol);
    }
    let header = ((frame[0] % 16) as usize) * 4;
    let length = read_word(frame, header + 4) as usize;
    proof {
        let p = ipv4_payload(frame@);
        assert(word(p, 4) == word(frame@, header + 4));
        assert(udp_data(p) =~= frame@.subrange(header + 8, header + length));
    }
    Ok(crate::bytes::copy_range(frame, header + 8, header + length))
}

/// Sum of the big-endian 16-bit words of `d`, a last odd octet counting as
/// the high half of a word.
pub open spec fn word_sum(d: Seq<u8>) -> nat
    decreases d.len(),
{
    if d.len() == 0 {
        0
    } else if d.len() == 1 {
        d[0] as nat * 256
    } else {
        word(d, 0) + word_sum(d.subrange(2, d.len() as int))
    }
}

/// Adds the carries out of the low 16 bits back in, twice.
pub open spec fn fold_carries(w: nat) -> nat {
    let s = w / 65536 + w % 65536;
    s / 65536 + s % 65536
}

/// RFC 1071 sum of `d`, before the final complement.
pub open spec fn internet_sum(d: Seq<u8>) -> nat {
    fold_carries(word_sum(d))
}

/// The ones' complement of a 16-bit sum.
pub open spec fn complement(x: nat) -> nat {
    (65535 - x) as nat
}

/// The octets of an address.
pub open spec fn ip_octets(ip: IpView) -> Seq<u8> {
    match ip {
        IpView::V4(o) => o,
        IpView::V6(o) => o,
    }
}

/// Sum of the pseudo-header of a transport checksum.
pub open spec fn pseudo_sum(source: IpView, destination: IpView, protocol: u8, length: nat) -> nat {
    fold_carries(
        internet_sum(ip_octets(source)) + internet_sum(ip_octets(destination)) + internet_sum(
            seq![0u8, protocol] + field16(length),
        ),
    )
}

/// IPv4 header checksum of `f`: the complement of the sum of its header,
/// taken with the checksum field zero.
pub open spec fn ipv4_checksum(f: Seq<u8>) -> nat {
    complement(internet_sum(with_field16(f, 10, 0).subrange(0, ipv4_header_len(f) as int)))
}

/// UDP checksum of datagram `d` (its checksum field zero), where all ones
/// stands for a computed zero.
pub open spec fn udp_checksum(source: IpView, destination: IpView, d: Seq<u8>) -> nat {
    let c = complement(fold_carries(pseudo_sum(source, destination, 17, d.len()) + internet_sum(d)));
    if c == 0 {
        65535
    } else {
        c
    }
}

/// TCP checksum of segment `s` (its checksum field zero).
pub open spec fn tcp_checksum(source: IpView, destination: IpView, s: Seq<u8>) -> nat {
    complement(fold_carries(pseudo_sum(source, destination, 6, s.len()) + internet_sum(s)))
}

/// Whether two addresses are of one family.
pub open spec fn same_family(a: IpView, b: IpView) -> bool {
    (a is V4 && b is V4) || (a is V6 && b is V6)
}

/// smoltcp's `Ipv4Packet::fill_checksum`: sets the header checksum of the
/// IPv4 header at the start of `frame`, as RFC 1071 defines it over the
/// `IHL * 4` header octets.
#[verifier::external_body]
fn fill_ipv4_checksum(frame: &mut Vec<u8>)
    requires
        12 <= old(frame)@.len(),
        ipv4_header_len(old(frame)@) <= old(frame)@.len(),
    ensures
        final(frame)@ == with_field16(old(frame)@, 10, ipv4_checksum(old(frame)@)),
{
    smoltcp::wire::Ipv4Packet::new_unchecked(frame.as_mut_slice()).fill_checksum();
}

/// smoltcp's `UdpPacket::fill_checksum`: sets the checksum of the UDP
/// datagram at `offset`, over the pseudo-header of the two addresses and the
/// datagram's length-field octets.
#[verifier::external_body]
fn fill_udp_checksum(frame: &mut Vec<u8>, offset: usize, source: IpAddress, destination: IpAddress)
    requires
        offset + 8 <= old(frame)@.len(),
        offset + word(old(frame)@, offset + 4) <= old(frame)@.len(),
        same_family(source@, destination@),
    ensures
        final(frame)@ == with_field16(
            old(frame)@,
            offset + 6,
            udp_checksum(
                source@,
                destination@,
                with_field16(old(frame)@, offset + 6, 0).subrange(
                    offset as int,
                    offset + word(old(frame)@, offset + 4),
                ),
            ),
        ),
{
    let source = match source {
        IpAddress::V4(o) => smoltcp::wire::IpAddress::Ipv4(o.into()),
        IpAddress::V6(o) => smoltcp::wire::IpAddress::Ipv6(o.into()),
    };
    let destination = match destination {
        IpAddress::V4(o) => smoltcp::wire::IpAddress::Ipv4(o.into()),
        IpAddress::V6(o) => smoltcp::wire::IpAddress::Ipv6(o.into()),
    };
    smoltcp::wire::UdpPacket::new_unchecked(&mut frame[offset..]).fill_checksum(&source, &destination);
}

/// smoltcp's `TcpPacket::fill_checksum`: sets the checksum of the TCP
/// segment `frame[start..end]` over the pseudo-header of the two addresses
/// and the whole segment.
#[verifier::external_body]
fn fill_tcp_checksum(frame: &mut Vec<u8>, start: usize, end: usize, source: IpAddress, destination: IpAddress)
    requires
        start + 18 <= end <= old(frame)@.len(),
        end - start <= 65535,
        same_family(source@, destination@),
    ensures
        final(frame)@ == with_field16(
            old(frame)@,
            start + 16,
            tcp_checksum(
                source@,
                destination@,
                with_field16(old(frame)@, start + 16, 0).subrange(start as int, end as int),
            ),
        ),
{
    let source = match source {
        IpAddress::V4(o) => smoltcp::wire::IpAddress::Ipv4(o.into()),
        IpAddress::V6(o) => smoltcp::wire::IpAddress::Ipv6(o.into()),
    };
    let destination = match destination {
        IpAddress::V4(o) => smoltcp::wire::IpAddress::Ipv4(o.into()),
        IpAddress::V6(o) => smoltcp::wire::IpAddress::Ipv6(o.into()),
    };
    smoltcp::wire::TcpPacket::new_unchecked(&mut frame[start..end]).fill_checksum(&source, &destination);
}

/// A UDP header from `source_port` to `destination_port` with a zero
/// checksum, then the data.
pub open spec fn udp_datagram(source_port: u16, destination_port: u16, payload: Seq<u8>) -> Seq<u8> {
    field16(source_port as nat) + field16(destination_port as nat) + field16(8 + payload.len())
        + seq![0u8, 0u8] + payload
}

/// The IPv4 header of a UDP packet of `udp_len` octets: no options, no
/// fragmentation, hop limit 64, checksum zero.
pub open spec fn ipv4_udp_header(source: Seq<u8>, destination: Seq<u8>, udp_len: nat) -> Seq<u8> {
    seq![0x45u8, 0u8] + field16(20 + udp_len) + seq![0u8, 0u8, 0x40u8, 0u8, 64u8, 17u8, 0u8, 0u8]
        + source + destination
}

/// The IPv6 header of a UDP packet of `udp_len` octets, hop limit 64.
pub open spec fn ipv6_udp_header(source: Seq<u8>, destination: Seq<u8>, udp_len: nat) -> Seq<u8> {
    seq![0x60u8, 0u8, 0u8, 0u8] + field16(udp_len) + seq![17u8, 64u8] + source + destination
}

/// An IPv4 UDP frame from `source` to `destination` with both checksums.
pub open spec fn ipv4_udp_frame(
    source: Seq<u8>,
    destination: Seq<u8>,
    source_port: u16,
    destination_port: u16,
    payload: Seq<u8>,
) -> Seq<u8> {
    let base = ipv4_udp_header(source, destination, 8 + payload.len()) + udp_datagram(
        source_port,
        destination_port,
        payload,
    );
    let checked = with_field16(base, 10, ipv4_checksum(base));
    with_field16(
        checked,
        26,
        udp_checksum(
            IpView::V4(source),
            IpView::V4(destination),
            with_field16(checked, 26, 0).subrange(20, 28 + payload.len() as int),
        ),
    )
}

/// An IPv6 UDP frame from `source` to `destination` with its checksum.
pub open spec fn ipv6_udp_frame(
    source: Seq<u8>,
    destination: Seq<u8>,
    source_port: u16,
    destination_port: u16,
    payload: Seq<u8>,
) -> Seq<u8> {
    let base = ipv6_udp_header(source, destination, 8 + payload.len()) + udp_datagram(
        source_port,
        destination_port,
        payload,
    );
    with_field16(
        base,
        46,
        udp_checksum(
            IpView::V6(source),
            IpView::V6(destination),
            with_field16(base, 46, 0).subrange(40, 48 + payload.len() as int),
        ),
    )
}

/// The frame answering `flow` with `payload`: from its destination back to
/// its source, within `mtu`.
pub open spec fn response_frame(flow: FlowKeyView, payload: Seq<u8>, mtu: nat) -> Result<
    Seq<u8>,
    PacketEncodeError,
> {
    match (flow.destination.ip, flow.source.ip) {
        (IpView::V4(s), IpView::V4(d)) => if payload.len() + 28 > mtu {
            Err(PacketEncodeError::MtuExceeded)
        } else {
            Ok(ipv4_udp_frame(s, d, flow.destination.port, flow.source.port, payload))
        },
        (IpView::V6(s), IpView::V6(d)) => if payload.len() + 48 > mtu {
            Err(PacketEncodeError::MtuExceeded)
        } else {
            Ok(ipv6_udp_frame(s, d, flow.destination.port, flow.source.port, payload))
        },
        _ => Err(PacketEncodeError::AddressFamilyMismatch),
    }
}

proof fn lemma_ipv4_frame_payload(s: Seq<u8>, d: Seq<u8>, sp: u16, dp: u16, payload: Seq<u8>)
    requires
        s.len() == 4,
        d.len() == 4,
    ensures
        ipv4_udp_frame(s, d, sp, dp, payload).len() == 28 + payload.len(),
        ipv4_udp_frame(s, d, sp, dp, payload).subrange(28, 28 + payload.len() as int) == payload,
{
    let base = ipv4_udp_header(s, d, 8 + payload.len()) + udp_datagram(sp, dp, payload);
    assert(base.len() == 28 + payload.len());
    assert(base.subrange(28, base.len() as int) =~= payload);
    let f = ipv4_udp_frame(s, d, sp, dp, payload);
    assert(f.subrange(28, f.len() as int) =~= payload);
}

proof fn lemma_ipv6_frame_payload(s: Seq<u8>, d: Seq<u8>, sp: u16, dp: u16, payload: Seq<u8>)
    requires
        s.len() == 16,
        d.len() == 16,
    ensures
        ipv6_udp_frame(s, d, sp, dp, payload).len() == 48 + payload.len(),
        ipv6_udp_frame(s, d, sp, dp, payload).subrange(48, 48 + payload.len() as int) == payload,
{
    let base = ipv6_udp_header(s, d, 8 + payload.len()) + udp_datagram(sp, dp, payload);
    assert(base.len() == 48 + payload.len());
    assert(base.subrange(48, base.len() as int) =~= payload);
    let f = ipv6_udp_frame(s, d, sp, dp, payload);
    assert(f.subrange(48, f.len() as int) =~= payload);
}

/// Response payload law: a response frame between addresses of their
/// family's width carries the payload whole, as the last octets of the
/// frame, after an IPv4 header of 20 octets and a UDP header of 8, or an
/// IPv6 header of 40 and a UDP header of 8.
pub proof fn lemma_response_carries_payload(flow: FlowKeyView, payload: Seq<u8>, mtu: nat)
    requires
        response_frame(flow, payload, mtu) is Ok,
        crate::net::ip_view_wf(flow.source.ip),
        crate::net::ip_view_wf(flow.destination.ip),
    ensures
        ({
            let f = response_frame(flow, payload, mtu)->Ok_0;
            let header = if flow.source.ip is V4 {
                28int
            } else {
                48int
            };
            &&& f.len() == header + payload.len()
            &&& f.subrange(header, f.len() as int) == payload
        }),
{
    match (flow.destination.ip, flow.source.ip) {
        (IpView::V4(s), IpView::V4(d)) => {
            lemma_ipv4_frame_payload(s, d, flow.destination.port, flow.source.port, payload);
        },
        (IpView::V6(s), IpView::V6(d)) => {
            lemma_ipv6_frame_payload(s, d, flow.destination.port, flow.source.port, payload);
        },
        _ => {},
    }
}

/// Whether a response within `mtu` also fits the 16-bit length fields, as
/// writing it requires.
pub open spec fn response_fits(flow: FlowKeyView, length: nat, mtu: nat) -> bool {
    match (flow.destination.ip, flow.source.ip) {
        (IpView::V4(_), IpView::V4(_)) => length + 28 <= mtu ==> length + 28 <= 65535,
        (IpView::V6(_), IpView::V6(_)) => length + 48 <= mtu ==> length + 8 <= 65535,
        _ => true,
    }
}

/// The flow that a response to `flow` carries: UDP, from its destination to
/// its source.
pub open spec fn reversed_flow(flow: FlowKeyView) -> FlowKeyView {
    FlowKeyView { protocol: FlowProtocol::Udp, source: flow.destination, destination: flow.source }
}

proof fn lemma_word_field16(x: nat)
    requires
        x < 65536,
    ensures
        word(field16(x), 0) == x,
{
    assert(((x % 65536) / 256) * 256 + x % 256 == x);
}

fn push_field16(out: &mut Vec<u8>, x: u16)
    ensures
        final(out)@ == old(out)@ + field16(x as nat),
{
    out.push((x / 256) as u8);
    out.push((x % 256) as u8);
    assert(final(out)@ =~= old(out)@ + field16(x as nat));
}

fn push_octets(out: &mut Vec<u8>, octets: &[u8])
    ensures
        final(out)@ == old(out)@ + octets@,
{
    crate::bytes::push_all(out, octets);
}

proof fn lemma_ipv4_response_flow(
    source: Seq<u8>,
    destination: Seq<u8>,
    source_port: u16,
    destination_port: u16,
    payload: Seq<u8>,
)
    requires
        source.len() == 4,
        destination.len() == 4,
        payload.len() + 28 <= 65535,
        destination_port != 0,
    ensures
        ip_flow(ipv4_udp_frame(source, destination, source_port, destination_port, payload)) == Ok::<
            FlowKeyView,
            PacketError,
        >(
            FlowKeyView {
                protocol: FlowProtocol::Udp,
                source: AddressView { ip: IpView::V4(source), port: source_port },
                destination: AddressView { ip: IpView::V4(destination), port: destination_port },
            },
        ),
{
    let n = payload.len();
    let header = ipv4_udp_header(source, destination, 8 + n);
    let udp = udp_datagram(source_port, destination_port, payload);
    let base = header + udp;
    let f = ipv4_udp_frame(source, destination, source_port, destination_port, payload);
    lemma_word_field16(28 + n);
    lemma_word_field16(8 + n);
    lemma_word_field16(source_port as nat);
    lemma_word_field16(destination_port as nat);
    assert(header.len() == 20);
    assert(udp.len() == 8 + n);
    assert(f.len() == 28 + n);
    assert(f[0] == 0x45u8 && f[1] == base[1] && f[2] == base[2] && f[3] == base[3]);
    assert(base[2] == field16(28 + n)[0] && base[3] == field16(28 + n)[1]);
    assert(f[6] == 0x40u8 && f[7] == 0u8 && f[9] == 17u8);
    assert(f.subrange(12, 16) =~= source);
    assert(f.subrange(16, 20) =~= destination);
    let p = ipv4_payload(f);
    assert(ipv4_header_len(f) == 20);
    assert(word(f, 2) == 28 + n);
    assert(p.len() == 8 + n);
    assert(p[0] == base[20] && p[1] == base[21] && p[2] == base[22] && p[3] == base[23]);
    assert(p[4] == base[24] && p[5] == base[25]);
    assert(base[20] == field16(source_port as nat)[0] && base[21] == field16(source_port as nat)[1]);
    assert(base[22] == field16(destination_port as nat)[0] && base[23] == field16(
        destination_port as nat,
    )[1]);
    assert(base[24] == field16(8 + n)[0] && base[25] == field16(8 + n)[1]);
    assert(word(p, 4) == 8 + n);
    assert(word(p, 0) == source_port);
    assert(word(p, 2) == destination_port);
}

proof fn lemma_ipv6_response_flow(
    source: Seq<u8>,
    destination: Seq<u8>,
    source_port: u16,
    destination_port: u16,
    payload: Seq<u8>,
)
    requires
        source.len() == 16,
        destination.len() == 16,
        payload.len() + 8 <= 65535,
        destination_port != 0,
    ensures
        ip_flow(ipv6_udp_frame(source, destination, source_port, destination_port, payload)) == Ok::<
            FlowKeyView,
            PacketError,
        >(
            FlowKeyView {
                protocol: FlowProtocol::Udp,
                source: AddressView { ip: IpView::V6(source), port: source_port },
                destination: AddressView { ip: IpView::V6(destination), port: destination_port },
            },
        ),
{
    let n = payload.len();
    let header = ipv6_udp_header(source, destination, 8 + n);
    let udp = udp_datagram(source_port, destination_port, payload);
    let base = header + udp;
    let f = ipv6_udp_frame(source, destination, source_port, destination_port, payload);
    lemma_word_field16(8 + n);
    lemma_word_field16(source_port as nat);
    lemma_word_field16(destination_port as nat);
    assert(header.len() == 40);
    assert(f.len() == 48 + n);
    assert(f[0] == 0x60u8 && f[4] == base[4] && f[5] == base[5] && f[6] == 17u8);
    assert(base[4] == field16(8 + n)[0] && base[5] == field16(8 + n)[1]);
    assert(word(f, 4) == 8 + n);
    assert(f.subrange(8, 24) =~= source);
    assert(f.subrange(24, 40) =~= destination);
    let p = ipv6_payload(f);
    assert(p.len() == 8 + n);
    assert(p[0] == base[40] && p[1] == base[41] && p[2] == base[42] && p[3] == base[43]);
    assert(p[4] == base[44] && p[5] == base[45]);
    assert(base[40] == field16(source_port as nat)[0] && base[41] == field16(source_port as nat)[1]);
    assert(base[42] == field16(destination_port as nat)[0] && base[43] == field16(
        destination_port as nat,
    )[1]);
    assert(base[44] == field16(8 + n)[0] && base[45] == field16(8 + n)[1]);
    assert(word(p, 4) == 8 + n);
    assert(word(p, 0) == source_port);
    assert(word(p, 2) == destination_port);
}

fn encode_ipv4(source: [u8; 4], destination: [u8; 4], source_port: u16, destination_port: u16, payload: &[u8]) -> (frame: Vec<u8>)
    requires
        payload@.len() + 28 <= 65535,
    ensures
        frame@ == ipv4_udp_frame(source@, destination@, source_port, destination_port, payload@),
{
    let udp_len = (payload.len() + 8) as u16;
    let mut frame: Vec<u8> = Vec::new();
    frame.push(0x45);
    frame.push(0);
    push_field16(&mut frame, udp_len + 20);
    frame.push(0);
    frame.push(0);
    frame.push(0x40);
    frame.push(0);
    frame.push(64);
    frame.push(17);
    frame.push(0);
    frame.push(0);
    push_octets(&mut frame, source.as_slice());
    push_octets(&mut frame, destination.as_slice());
    push_field16(&mut frame, source_port);
    push_field16(&mut frame, destination_port);
    push_field16(&mut frame, udp_len);
    frame.push(0);
    frame.push(0);
    push_octets(&mut frame, payload);
    let ghost base = ipv4_udp_header(source@, destination@, 8 + payload@.len()) + udp_datagram(
        source_port,
        destination_port,
        payload@,
    );
    assert(frame@ =~= base);
    fill_ipv4_checksum(&mut frame);
    proof {
        lemma_word_field16(8 + payload@.len());
        assert(frame@[24] == base[24] && frame@[25] == base[25]);
        assert(base[24] == field16(8 + payload@.len())[0] && base[25] == field16(8 + payload@.len())[1]);
    }
    fill_udp_checksum(&mut frame, 20, IpAddress::V4(source), IpAddress::V4(destination));
    frame
}

fn encode_ipv6(source: [u8; 16], destination: [u8; 16], source_port: u16, destination_port: u16, payload: &[u8]) -> (frame: Vec<u8>)
    requires
        payload@.len() + 8 <= 65535,
    ensures
        frame@ == ipv6_udp_frame(source@, destination@, source_port, destination_port, payload@),
{
    let udp_len = (payload.len() + 8) as u16;
    let mut frame: Vec<u8> = Vec::new();
    frame.push(0x60);
    frame.push(0);
    frame.push(0);
    frame.push(0);
    push_field16(&mut frame, udp_len);
    frame.push(17);
    frame.push(64);
    push_octets(&mut frame, source.as_slice());
    push_octets(&mut frame, destination.as_slice());
    push_field16(&mut frame, source_port);
    push_field16(&mut frame, destination_port);
    push_field16(&mut frame, udp_len);
    frame.push(0);
    frame.push(0);
    push_octets(&mut frame, payload);
    let ghost base = ipv6_udp_header(source@, destination@, 8 + payload@.len()) + udp_datagram(
        source_port,
        destination_port,
        payload@,
    );
    assert(frame@ =~= base);
    proof {
        lemma_word_field16(8 + payload@.len());
        assert(base[44] == field16(8 + payload@.len())[0] && base[45] == field16(8 + payload@.len())[1]);
    }
    fill_udp_checksum(&mut frame, 40, IpAddress::V6(source), IpAddress::V6(destination));
    frame
}

/// Encodes a relay UDP response for delivery to the TUN flow it answers:
/// from the flow's destination back to its source, refused when the two are
/// of different families or the frame would exceed `mtu`. Read back, the
/// frame gives that reversed flow.
pub fn encode_udp_response(flow: FlowKey, payload: &[u8], mtu: usize) -> (frame: Result<
    Vec<u8>,
    PacketEncodeError,
>)
    requires
        response_fits(flow@, payload@.len(), mtu as nat),
    ensures
        match response_frame(flow@, payload@, mtu as nat) {
            Ok(f) => frame matches Ok(v) && v@ == f,
            Err(e) => frame == Err::<Vec<u8>, PacketEncodeError>(e),
        },
        flow.source.port != 0 ==> (frame matches Ok(v) ==> ip_flow(v@) == Ok::<
            FlowKeyView,
            PacketError,
        >(reversed_flow(flow@))),
{
    match (flow.destination.ip, flow.source.ip) {
        (IpAddress::V4(source), IpAddress::V4(destination)) => {
            if payload.len() > mtu || mtu - payload.len() < 28 {
                return Err(PacketEncodeError::MtuExceeded);
            }
            let frame = encode_ipv4(source, destination, flow.destination.port, flow.source.port, payload);
            proof {
                if flow.source.port != 0 {
                    lemma_ipv4_response_flow(source@, destination@, flow.destination.port, flow.source.port, payload@);
                }
            }
            Ok(frame)
        },
        (IpAddress::V6(source), IpAddress::V6(destination)) => {
            if payload.len() > mtu || mtu - payload.len() < 48 {
                return Err(PacketEncodeError::MtuExceeded);
            }
            let frame = encode_ipv6(source, destination, flow.destination.port, flow.source.port, payload);
            proof {
                if flow.source.port != 0 {
                    lemma_ipv6_response_flow(source@, destination@, flow.destination.port, flow.source.port, payload@);
                }
            }
            Ok(frame)
        },
        _ => Err(PacketEncodeError::AddressFamilyMismatch),
    }
}

/// The first octet of the address field that `side` names.
pub open spec fn address_offset(side: TcpAddressSide) -> int {
    match side {
        TcpAddressSide::Source => 12,
        TcpAddressSide::Destination => 16,
    }
}

/// `f` with the IPv4 address on `side` replaced by `a`.
pub open spec fn with_address(f: Seq<u8>, side: TcpAddressSide, a: Seq<u8>) -> Seq<u8> {
    let at = address_offset(side);
    f.update(at, a[0]).update(at + 1, a[1]).update(at + 2, a[2]).update(at + 3, a[3])
}

/// An IPv4 TCP frame with the address on `side` replaced by `a`, and the
/// header and segment checksums computed anew.
pub open spec fn tcp_rewrite(f: Seq<u8>, side: TcpAddressSide, a: Seq<u8>) -> Seq<u8> {
    let moved = with_address(f, side, a);
    let checked = with_field16(moved, 10, ipv4_checksum(moved));
    let start = ipv4_header_len(f) as int;
    let end = ipv4_total_len(f) as int;
    with_field16(
        checked,
        start + 16,
        tcp_checksum(
            IpView::V4(moved.subrange(12, 16)),
            IpView::V4(moved.subrange(16, 20)),
            with_field16(checked, start + 16, 0).subrange(start, end),
        ),
    )
}

/// `flow` with its address on `side` replaced by `a`.
pub open spec fn rewritten_flow(flow: FlowKeyView, side: TcpAddressSide, a: Seq<u8>) -> FlowKeyView {
    match side {
        TcpAddressSide::Source => FlowKeyView {
            source: AddressView { ip: IpView::V4(a), port: flow.source.port },
            ..flow
        },
        TcpAddressSide::Destination => FlowKeyView {
            destination: AddressView { ip: IpView::V4(a), port: flow.destination.port },
            ..flow
        },
    }
}

/// Rewrite law: rewriting one address of an IPv4 TCP segment gives a frame
/// that classifies as the same flow with that address replaced, its ports,
/// its other address and its protocol kept.
pub proof fn lemma_rewrite_keeps_flow(f: Seq<u8>, side: TcpAddressSide, a: Seq<u8>)
    requires
        a.len() == 4,
        ipv4_flow(f) is Ok,
        ipv4_flow(f)->Ok_0.protocol == FlowProtocol::Tcp,
        ipv4_header_len(f) >= 20,
    ensures
        ipv4_flow(tcp_rewrite(f, side, a)) == Ok::<FlowKeyView, PacketError>(
            rewritten_flow(ipv4_flow(f)->Ok_0, side, a),
        ),
{
    let r = tcp_rewrite(f, side, a);
    let moved = with_address(f, side, a);
    let start = ipv4_header_len(f) as int;
    let end = ipv4_total_len(f) as int;
    assert(r.len() == f.len());
    assert(f[9] == 6u8);
    assert(tcp_ok(ipv4_payload(f)));
    assert(r[0] == f[0] && r[2] == f[2] && r[3] == f[3] && r[6] == f[6] && r[7] == f[7] && r[9] == f[9]);
    assert(ipv4_header_len(r) == start && ipv4_total_len(r) == end);
    let p = ipv4_payload(f);
    let q = ipv4_payload(r);
    assert(q.len() == p.len());
    assert(q[0] == p[0] && q[1] == p[1] && q[2] == p[2] && q[3] == p[3] && q[12] == p[12]);
    assert(tcp_header_len(q) == tcp_header_len(p));
    match side {
        TcpAddressSide::Source => {
            assert(r.subrange(12, 16) =~= a);
            assert(r.subrange(16, 20) =~= f.subrange(16, 20));
        },
        TcpAddressSide::Destination => {
            assert(r.subrange(12, 16) =~= f.subrange(12, 16));
            assert(r.subrange(16, 20) =~= a);
        },
    }
}

/// Rewrites one endpoint address of an IPv4 TCP frame and computes both
/// checksums anew; frames that do not read as an IPv4 TCP flow are refused.
/// Read back, the frame gives the same flow with that address replaced.
pub fn rewrite_tcp_ipv4_address(frame: &[u8], side: TcpAddressSide, address: [u8; 4]) -> (rewritten:
    Result<Vec<u8>, PacketError>)
    ensures
        match ipv4_flow(frame@) {
            Err(e) => rewritten == Err::<Vec<u8>, PacketError>(e),
            Ok(k) => if k.protocol != FlowProtocol::Tcp {
                rewritten == Err::<Vec<u8>, PacketError>(PacketError::UnsupportedProtocol)
            } else {
                rewritten matches Ok(r) && r@ == tcp_rewrite(frame@, side, address@)
            },
        },
        ipv4_header_len(frame@) >= 20 ==> (rewritten matches Ok(r) ==> (ipv4_flow(frame@) matches Ok(
            k,
        ) && ipv4_flow(r@) == Ok::<FlowKeyView, PacketError>(rewritten_flow(k, side, address@)))),
{
    let key = classify_ipv4_packet(frame)?;
    if key.protocol != FlowProtocol::Tcp {
        return Err(PacketError::UnsupportedProtocol);
    }
    let mut out = crate::bytes::copy_range(frame, 0, frame.len());
    let at: usize = match side {
        TcpAddressSide::Source => 12,
        TcpAddressSide::Destination => 16,
    };
    out.set(at, address[0]);
    out.set(at + 1, address[1]);
    out.set(at + 2, address[2]);
    out.set(at + 3, address[3]);
    assert(out@ =~= with_address(frame@, side, address@));
    let source = IpAddress::V4(read_array4(out.as_slice(), 12));
    let destination = IpAddress::V4(read_array4(out.as_slice(), 16));
    let header = ((frame[0] % 16) as usize) * 4;
    let total = read_word(frame, 2) as usize;
    proof {
        assert(tcp_ok(ipv4_payload(frame@)));
    }
    fill_ipv4_checksum(&mut out);
    fill_tcp_checksum(&mut out, header, total, source, destination);
    proof {
        if header >= 20 {
            lemma_rewrite_keeps_flow(frame@, side, address@);
        }
    }
    Ok(out)
}

} // verus!
