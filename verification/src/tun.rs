//! Bounded flow ownership for platform TUN adapters: the frame queue between a
//! TUN descriptor and a userspace stack, adapter limits, flow keys and the
//! errors shared by packet handling.
use vstd::prelude::*;

use std::collections::VecDeque;

use crate::datagram::DatagramSessionId;
use crate::fake_dns::{allocation, FakeDnsError, FakeDnsTable, MappingView};
use crate::routing::{first_match_action, routed_domain, ActionView, RouteContext, RoutingAction, RoutingPolicy};
use crate::lifecycle::{ClientError, RuntimeError};
use crate::net::{socket_address_equal, AddressView, IpAddress, SocketAddress};

verus! {

/// Smallest MTU that every IPv4 host must accept.
pub const MIN_TUN_MTU: usize = 576;

/// The transport protocol captured by a TUN adapter.
#[derive(Clone, Copy, Debug, PartialEq, Eq, Structural, Hash, PartialOrd, Ord)]
pub enum FlowProtocol {
    Tcp,
    Udp,
}

/// A direction-independent five-tuple identifying one captured flow.
#[derive(Clone, Copy, Debug, PartialEq, Eq, Hash, PartialOrd, Ord)]
pub struct FlowKey {
    pub protocol: FlowProtocol,
    pub source: SocketAddress,
    pub destination: SocketAddress,
}

/// Mathematical content of a flow key.
pub struct FlowKeyView {
    pub protocol: FlowProtocol,
    pub source: AddressView,
    pub destination: AddressView,
}

impl View for FlowKey {
    type V = FlowKeyView;

    open spec fn view(&self) -> FlowKeyView {
        FlowKeyView { protocol: self.protocol, source: self.source@, destination: self.destination@ }
    }
}

/// Compares two flow keys.
pub fn flow_key_equal(a: &FlowKey, b: &FlowKey) -> (equal: bool)
    ensures
        equal == (a@ == b@),
{
    a.protocol == b.protocol && socket_address_equal(&a.source, &b.source)
        && socket_address_equal(&a.destination, &b.destination)
}

/// A packet that cannot safely enter the adapter flow table.
#[derive(Clone, Copy, Debug, PartialEq, Eq, Structural)]
pub enum PacketError {
    MalformedIpv4,
    MalformedIpv6,
    FragmentedIpv4,
    UnsupportedProtocol,
    MalformedTransport,
}

/// Why a response packet could not be built.
#[derive(Clone, Copy, Debug, PartialEq, Eq, Structural)]
pub enum PacketEncodeError {
    AddressFamilyMismatch,
    MtuExceeded,
}

/// Which IP endpoint a transparent TCP translation changes.
#[derive(Clone, Copy, Debug, PartialEq, Eq, Structural)]
pub enum TcpAddressSide {
    Source,
    Destination,
}

/// Why a frame was not queued.
#[derive(Clone, Copy, Debug, PartialEq, Eq, Structural)]
pub enum FrameQueueError {
    Oversized,
    Full,
}

/// An adapter configuration that cannot be installed.
#[derive(Clone, Copy, Debug, PartialEq, Eq, Structural)]
pub enum TunAdapterConfigError {
    TcpFlowLimit,
    UdpAssociationLimit,
    FrameQueue,
    Ipv4Prefix,
}

/// Why a captured flow was not admitted.
#[derive(Clone, Copy, Debug, PartialEq, Eq, Structural)]
pub enum FlowAdmissionError {
    NotOnline,
    TcpFlowLimit,
    UdpAssociationLimit,
}

/// Why a UDP flow could not be bound to a datagram session.
#[derive(Clone, Copy, Debug, PartialEq, Eq, Structural)]
pub enum UdpAssociationError {
    NotUdp,
    Limit,
    UnknownSession,
    SourceMismatch,
}

/// Why a captured UDP packet was not forwarded.
#[derive(Clone, Copy, Debug, PartialEq, Eq)]
pub enum UdpForwardError {
    Packet(PacketError),
    Admission(FlowAdmissionError),
    Association(UdpAssociationError),
    Runtime(RuntimeError),
}

/// Why a relay datagram was not delivered to its TUN flow.
#[derive(Clone, Copy, Debug, PartialEq, Eq)]
pub enum UdpReceiveError {
    Runtime(RuntimeError),
    Association(UdpAssociationError),
    StaleFlow,
    Encode(PacketEncodeError),
}

/// Why a TCP relay stream failed.
#[derive(Clone, Copy, Debug, PartialEq, Eq)]
pub enum TcpRelayError {
    NotTcp,
    Admission(FlowAdmissionError),
    Runtime(RuntimeError),
    Client(ClientError),
    StaleFlow,
}

/// Why the UDP engine stopped on one packet.
#[derive(Clone, Copy, Debug, PartialEq, Eq)]
pub enum TunUdpEngineError {
    Queue(FrameQueueError),
    Forward(UdpForwardError),
    Receive(UdpReceiveError),
}

/// The frames of a queue, by their bytes.
pub open spec fn frames_view(queue: Seq<Vec<u8>>) -> Seq<Seq<u8>> {
    queue.map_values(|frame: Vec<u8>| frame@)
}

/// Bounded layer-3 device between a platform TUN descriptor and a userspace
/// stack: inbound frames wait for the stack, outbound frames for the platform.
pub struct TunFrameQueue {
    mtu: usize,
    capacity: usize,
    inbound: VecDeque<Vec<u8>>,
    outbound: VecDeque<Vec<u8>>,
}

/// One received frame, handed to the stack.
pub struct TunRxToken(Vec<u8>);

impl TunRxToken {
    pub closed spec fn spec_frame(&self) -> Seq<u8> {
        self.0@
    }

    /// The frame's bytes.
    pub fn into_frame(self) -> (frame: Vec<u8>)
        ensures
            frame@ == self.spec_frame(),
    {
        self.0
    }
}

impl TunFrameQueue {
    /// Both queues within capacity, under a valid MTU.
    pub closed spec fn wf(&self) -> bool {
        &&& self.mtu >= MIN_TUN_MTU
        &&& self.capacity > 0
        &&& self.inbound@.len() <= self.capacity
        &&& self.outbound@.len() <= self.capacity
    }

    pub closed spec fn spec_mtu(&self) -> usize {
        self.mtu
    }

    pub closed spec fn spec_capacity(&self) -> usize {
        self.capacity
    }

    /// Frames read from the TUN descriptor, oldest first.
    pub closed spec fn inbound_frames(&self) -> Seq<Seq<u8>> {
        frames_view(self.inbound@)
    }

    /// Frames waiting to be written to the TUN descriptor, oldest first.
    pub closed spec fn outbound_frames(&self) -> Seq<Seq<u8>> {
        frames_view(self.outbound@)
    }

    /// A queue of at most `capacity` frames each way, each at most `mtu`
    /// octets; refused below the minimum IPv4 MTU or with no capacity.
    pub fn new(mtu: usize, capacity: usize) -> (queue: Result<Self, TunAdapterConfigError>)
        ensures
            queue is Err <==> (mtu < MIN_TUN_MTU || capacity == 0),
            queue matches Err(e) ==> e == TunAdapterConfigError::FrameQueue,
            queue matches Ok(q) ==> {
                &&& q.wf()
                &&& q.spec_mtu() == mtu
                &&& q.spec_capacity() == capacity
                &&& q.inbound_frames() == Seq::<Seq<u8>>::empty()
                &&& q.outbound_frames() == Seq::<Seq<u8>>::empty()
            },
    {
        if mtu < MIN_TUN_MTU || capacity == 0 {
            return Err(TunAdapterConfigError::FrameQueue);
        }
        let queue = TunFrameQueue {
            mtu,
            capacity,
            inbound: VecDeque::new(),
            outbound: VecDeque::new(),
        };
        assert(queue.inbound_frames() =~= Seq::<Seq<u8>>::empty());
        assert(queue.outbound_frames() =~= Seq::<Seq<u8>>::empty());
        Ok(queue)
    }

    /// The largest frame accepted, in octets.
    pub fn mtu(&self) -> (mtu: usize)
        ensures
            mtu == self.spec_mtu(),
    {
        self.mtu
    }

    /// Takes one frame read from the TUN descriptor.
    pub fn push_inbound(&mut self, frame: Vec<u8>) -> (pushed: Result<(), FrameQueueError>)
        requires
            old(self).wf(),
        ensures
            final(self).wf(),
            final(self).spec_mtu() == old(self).spec_mtu(),
            final(self).spec_capacity() == old(self).spec_capacity(),
            final(self).outbound_frames() == old(self).outbound_frames(),
            pushed matches Err(e) ==> final(self).inbound_frames() == old(self).inbound_frames(),
            (pushed == Err::<(), FrameQueueError>(FrameQueueError::Oversized)) <==> frame@.len()
                > old(self).spec_mtu(),
            (pushed == Err::<(), FrameQueueError>(FrameQueueError::Full)) <==> (frame@.len()
                <= old(self).spec_mtu() && old(self).inbound_frames().len()
                == old(self).spec_capacity()),
            pushed is Ok ==> final(self).inbound_frames() == old(self).inbound_frames().push(
                frame@,
            ),
    {
        if frame.len() > self.mtu {
            return Err(FrameQueueError::Oversized);
        }
        if self.inbound.len() == self.capacity {
            return Err(FrameQueueError::Full);
        }
        let ghost before = self.inbound@;
        self.inbound.push_back(frame);
        proof {
            assert(frames_view(self.inbound@) =~= frames_view(before).push(frame@));
        }
        Ok(())
    }

    /// Queues one frame produced by the stack for the TUN descriptor.
    pub fn push_outbound(&mut self, frame: Vec<u8>) -> (pushed: Result<(), FrameQueueError>)
        requires
            old(self).wf(),
        ensures
            final(self).wf(),
            final(self).spec_mtu() == old(self).spec_mtu(),
            final(self).spec_capacity() == old(self).spec_capacity(),
            final(self).inbound_frames() == old(self).inbound_frames(),
            pushed matches Err(e) ==> final(self).outbound_frames() == old(self).outbound_frames(),
            (pushed == Err::<(), FrameQueueError>(FrameQueueError::Oversized)) <==> frame@.len()
                > old(self).spec_mtu(),
            (pushed == Err::<(), FrameQueueError>(FrameQueueError::Full)) <==> (frame@.len()
                <= old(self).spec_mtu() && old(self).outbound_frames().len()
                == old(self).spec_capacity()),
            pushed is Ok ==> final(self).outbound_frames() == old(self).outbound_frames().push(
                frame@,
            ),
    {
        if frame.len() > self.mtu {
            return Err(FrameQueueError::Oversized);
        }
        if self.outbound.len() == self.capacity {
            return Err(FrameQueueError::Full);
        }
        let ghost before = self.outbound@;
        self.outbound.push_back(frame);
        proof {
            assert(frames_view(self.outbound@) =~= frames_view(before).push(frame@));
        }
        Ok(())
    }

    /// The oldest frame for the TUN descriptor, if any.
    pub fn pop_outbound(&mut self) -> (frame: Option<Vec<u8>>)
        requires
            old(self).wf(),
        ensures
            final(self).wf(),
            final(self).spec_mtu() == old(self).spec_mtu(),
            final(self).spec_capacity() == old(self).spec_capacity(),
            final(self).inbound_frames() == old(self).inbound_frames(),
            frame is None <==> old(self).outbound_frames().len() == 0,
            frame is None ==> final(self).outbound_frames() == old(self).outbound_frames(),
            frame matches Some(f) ==> {
                &&& f@ == old(self).outbound_frames()[0]
                &&& final(self).outbound_frames() == old(self).outbound_frames().drop_first()
            },
    {
        let ghost before = self.outbound@;
        let frame = self.outbound.pop_front();
        proof {
            if before.len() > 0 {
                assert(frames_view(self.outbound@) =~= frames_view(before).drop_first());
            }
        }
        frame
    }

    /// The oldest frame from the TUN descriptor, if any, handed to the stack.
    pub fn receive(&mut self) -> (token: Option<TunRxToken>)
        requires
            old(self).wf(),
        ensures
            final(self).wf(),
            final(self).spec_mtu() == old(self).spec_mtu(),
            final(self).spec_capacity() == old(self).spec_capacity(),
            final(self).outbound_frames() == old(self).outbound_frames(),
            token is None <==> old(self).inbound_frames().len() == 0,
            token is None ==> final(self).inbound_frames() == old(self).inbound_frames(),
            token matches Some(t) ==> {
                &&& t.spec_frame() == old(self).inbound_frames()[0]
                &&& final(self).inbound_frames() == old(self).inbound_frames().drop_first()
            },
    {
        let ghost before = self.inbound@;
        match self.inbound.pop_front() {
            Some(frame) => {
                proof {
                    assert(frames_view(self.inbound@) =~= frames_view(before).drop_first());
                }
                Some(TunRxToken(frame))
            },
            None => None,
        }
    }

    /// Whether the stack may transmit: the outbound queue has room.
    pub fn can_transmit(&self) -> (ready: bool)
        ensures
            ready == (self.outbound_frames().len() < self.spec_capacity()),
    {
        self.outbound.len() < self.capacity
    }

    /// Takes one frame that the stack transmitted; a frame over the MTU, or
    /// one that finds the outbound queue full, is dropped.
    pub fn transmit(&mut self, frame: Vec<u8>)
        requires
            old(self).wf(),
        ensures
            final(self).wf(),
            final(self).spec_mtu() == old(self).spec_mtu(),
            final(self).spec_capacity() == old(self).spec_capacity(),
            final(self).inbound_frames() == old(self).inbound_frames(),
            final(self).outbound_frames() == if frame@.len() <= old(self).spec_mtu()
                && old(self).outbound_frames().len() < old(self).spec_capacity() {
                old(self).outbound_frames().push(frame@)
            } else {
                old(self).outbound_frames()
            },
    {
        let ghost before = self.outbound_frames();
        assert(before.len() == self.outbound@.len());
        let ghost f = frame@;
        let pushed = self.push_outbound(frame);
        proof {
            if f.len() <= self.spec_mtu() && before.len() < self.spec_capacity() {
                match pushed {
                    Ok(_) => {},
                    Err(FrameQueueError::Oversized) => { assert(false); },
                    Err(FrameQueueError::Full) => { assert(false); },
                }
            } else {
                assert(pushed is Err);
            }
        }
    }
}

/// Configuration owned by one installed IPv4 TUN interface.
#[derive(Clone, Copy, Debug, PartialEq, Eq)]
pub struct TunStackConfig {
    pub address: [u8; 4],
    pub prefix_len: u8,
    pub mtu: usize,
    pub frame_queue_capacity: usize,
}

impl TunStackConfig {
    /// Accepts a prefix of at most 32 bits and a queue that `TunFrameQueue::new`
    /// accepts.
    pub fn validate(self) -> (valid: Result<Self, TunAdapterConfigError>)
        ensures
            (valid == Err::<Self, TunAdapterConfigError>(TunAdapterConfigError::Ipv4Prefix))
                <==> self.prefix_len > 32,
            (valid == Err::<Self, TunAdapterConfigError>(TunAdapterConfigError::FrameQueue)) <==> (
            self.prefix_len <= 32 && (self.mtu < MIN_TUN_MTU || self.frame_queue_capacity == 0)),
            valid is Err <==> (self.prefix_len > 32 || self.mtu < MIN_TUN_MTU
                || self.frame_queue_capacity == 0),
            valid is Ok ==> valid == Ok::<Self, TunAdapterConfigError>(self),
    {
        if self.prefix_len > 32 {
            return Err(TunAdapterConfigError::Ipv4Prefix);
        }
        if self.mtu < MIN_TUN_MTU || self.frame_queue_capacity == 0 {
            return Err(TunAdapterConfigError::FrameQueue);
        }
        Ok(self)
    }
}

/// Limits held by one installed TUN interface.
#[derive(Clone, Copy, Debug, PartialEq, Eq, Structural)]
pub struct TunAdapterLimits {
    pub max_tcp_flows: usize,
    pub max_udp_associations: usize,
}

impl TunAdapterLimits {
    /// Both limits must be positive; the TCP limit is checked first.
    pub fn validate(self) -> (valid: Result<Self, TunAdapterConfigError>)
        ensures
            (valid == Err::<Self, TunAdapterConfigError>(TunAdapterConfigError::TcpFlowLimit))
                <==> self.max_tcp_flows == 0,
            (valid == Err::<Self, TunAdapterConfigError>(
                TunAdapterConfigError::UdpAssociationLimit,
            )) <==> (self.max_tcp_flows > 0 && self.max_udp_associations == 0),
            valid is Err <==> (self.max_tcp_flows == 0 || self.max_udp_associations == 0),
            valid is Ok ==> valid == Ok::<Self, TunAdapterConfigError>(self),
    {
        if self.max_tcp_flows == 0 {
            return Err(TunAdapterConfigError::TcpFlowLimit);
        }
        if self.max_udp_associations == 0 {
            return Err(TunAdapterConfigError::UdpAssociationLimit);
        }
        Ok(self)
    }
}

impl Default for TunAdapterLimits {
    fn default() -> (limits: Self)
        ensures
            limits.max_tcp_flows == 256,
            limits.max_udp_associations == 256,
    {
        TunAdapterLimits { max_tcp_flows: 256, max_udp_associations: 256 }
    }
}


/// The session identifier tried after `n`: identifiers count up and wrap
/// around to one, skipping zero.
pub open spec fn next_session_after(n: u64) -> u64 {
    if n == u64::MAX {
        1
    } else {
        (n + 1) as u64
    }
}

/// The `k`-th identifier tried from `start`.
pub open spec fn session_candidate(start: u64, k: nat) -> u64
    decreases k,
{
    if k == 0 {
        start
    } else {
        next_session_after(session_candidate(start, (k - 1) as nat))
    }
}

proof fn lemma_session_candidate_value(start: u64, k: nat)
    requires
        start != 0,
        k < u64::MAX,
    ensures
        session_candidate(start, k) == if start + k <= u64::MAX {
            start + k
        } else {
            start + k - u64::MAX
        },
    decreases k,
{
    if k > 0 {
        lemma_session_candidate_value(start, (k - 1) as nat);
    }
}

/// The identifiers tried from a non-zero start do not repeat before every
/// non-zero identifier has been tried.
pub proof fn lemma_session_candidates_distinct(start: u64, j: nat, k: nat)
    requires
        start != 0,
        j < k < u64::MAX,
    ensures
        session_candidate(start, j) != session_candidate(start, k),
{
    lemma_session_candidate_value(start, j);
    lemma_session_candidate_value(start, k);
}

/// One association: a captured UDP flow and its datagram session.
pub open spec fn association_view(entry: (FlowKey, DatagramSessionId)) -> (FlowKeyView, u64) {
    (entry.0@, entry.1@)
}

/// The associations held by a list of entries.
pub open spec fn associations_of(entries: Seq<(FlowKey, DatagramSessionId)>) -> Seq<(FlowKeyView, u64)> {
    entries.map_values(|entry: (FlowKey, DatagramSessionId)| association_view(entry))
}

/// The sessions of a list of associations.
pub open spec fn association_sessions(entries: Seq<(FlowKeyView, u64)>) -> Seq<u64> {
    entries.map_values(|entry: (FlowKeyView, u64)| entry.1)
}

/// Whether a list of associations binds `flow`.
pub open spec fn binds_flow(entries: Seq<(FlowKeyView, u64)>, flow: FlowKeyView) -> bool {
    exists|i: int| 0 <= i < entries.len() && #[trigger] entries[i].0 == flow
}

/// Bounded mapping between captured UDP flows and datagram sessions: each
/// flow has at most one session and each session at most one flow.
pub struct UdpAssociationTable {
    next_session: u64,
    entries: Vec<(FlowKey, DatagramSessionId)>,
    limit: usize,
}

impl UdpAssociationTable {
    /// The associations, oldest first.
    pub closed spec fn associations(&self) -> Seq<(FlowKeyView, u64)> {
        associations_of(self.entries@)
    }

    pub closed spec fn spec_limit(&self) -> usize {
        self.limit
    }

    /// The first identifier the next new association tries.
    pub closed spec fn spec_next_session(&self) -> u64 {
        self.next_session
    }

    /// Within the limit, with no flow and no session bound twice.
    pub closed spec fn wf(&self) -> bool {
        &&& self.next_session != 0
        &&& self.limit > 0
        &&& self.entries@.len() <= self.limit
        &&& association_sessions(self.associations()).no_duplicates()
        &&& forall|i: int, j: int|
            0 <= i < j < self.entries@.len() ==> #[trigger] self.associations()[i].0
                != #[trigger] self.associations()[j].0
        &&& forall|i: int|
            0 <= i < self.entries@.len() ==> #[trigger] association_sessions(
                self.associations(),
            )[i] != 0
    }

    /// An empty table of at most `limit` associations; refused for zero.
    pub fn new(limit: usize) -> (table: Result<Self, TunAdapterConfigError>)
        ensures
            table is Err <==> limit == 0,
            table matches Err(e) ==> e == TunAdapterConfigError::UdpAssociationLimit,
            table matches Ok(t) ==> {
                &&& t.wf()
                &&& t.spec_limit() == limit
                &&& t.spec_next_session() == 1
                &&& t.associations() == Seq::<(FlowKeyView, u64)>::empty()
            },
    {
        if limit == 0 {
            return Err(TunAdapterConfigError::UdpAssociationLimit);
        }
        let table = UdpAssociationTable { next_session: 1, entries: Vec::new(), limit };
        assert(table.associations() =~= Seq::<(FlowKeyView, u64)>::empty());
        Ok(table)
    }

    /// Whether some association holds `session`.
    fn holds_session(&self, session: u64) -> (held: bool)
        requires
            self.wf(),
        ensures
            held == association_sessions(self.associations()).contains(session),
    {
        let mut i: usize = 0;
        while i < self.entries.len()
            invariant
                i <= self.entries@.len(),
                forall|j: int|
                    0 <= j < i ==> #[trigger] association_sessions(self.associations())[j]
                        != session,
            decreases self.entries@.len() - i,
        {
            if self.entries[i].1.get() == session {
                assert(association_sessions(self.associations())[i as int] == session);
                return true;
            }
            i = i + 1;
        }
        false
    }

    /// The session bound to a UDP flow, binding the next free identifier to a
    /// flow seen for the first time while the table has room.
    #[verifier::loop_isolation(false)]
    pub fn session_for(&mut self, flow: FlowKey) -> (session: Result<
        DatagramSessionId,
        UdpAssociationError,
    >)
        requires
            old(self).wf(),
        ensures
            final(self).wf(),
            final(self).spec_limit() == old(self).spec_limit(),
            flow.protocol != FlowProtocol::Udp ==> session == Err::<
                DatagramSessionId,
                UdpAssociationError,
            >(UdpAssociationError::NotUdp),
            session is Err ==> final(self).associations() == old(self).associations()
                && final(self).spec_next_session() == old(self).spec_next_session(),
            flow.protocol == FlowProtocol::Udp && binds_flow(old(self).associations(), flow@)
                ==> (session matches Ok(s) && old(self).associations().contains((flow@, s@))
                && final(self).associations() == old(self).associations()
                && final(self).spec_next_session() == old(self).spec_next_session()),
            flow.protocol == FlowProtocol::Udp && !binds_flow(old(self).associations(), flow@)
                && old(self).associations().len() == old(self).spec_limit() ==> session == Err::<
                DatagramSessionId,
                UdpAssociationError,
            >(UdpAssociationError::Limit),
            flow.protocol == FlowProtocol::Udp && !binds_flow(old(self).associations(), flow@)
                && old(self).associations().len() < old(self).spec_limit() ==> (session matches Ok(
                s,
            ) && !association_sessions(old(self).associations()).contains(s@) && (exists|k: nat|
                s@ == #[trigger] session_candidate(old(self).spec_next_session(), k) && forall|
                    j: nat,
                | j < k ==> association_sessions(old(self).associations()).contains(
                    #[trigger] session_candidate(old(self).spec_next_session(), j),
                )) && final(self).associations() == old(self).associations().push((flow@, s@))
                && final(self).spec_next_session() == next_session_after(s@)),
    {
        if flow.protocol != FlowProtocol::Udp {
            return Err(UdpAssociationError::NotUdp);
        }
        let mut i: usize = 0;
        while i < self.entries.len()
            invariant
                i <= self.entries@.len(),
                forall|j: int| 0 <= j < i ==> #[trigger] self.associations()[j].0 != flow@,
            decreases self.entries@.len() - i,
        {
            if flow_key_equal(&self.entries[i].0, &flow) {
                let session = self.entries[i].1;
                assert(self.associations()[i as int] == (flow@, session@));
                assert(self.associations()[i as int].0 == flow@);
                assert(binds_flow(self.associations(), flow@));
                return Ok(session);
            }
            i = i + 1;
        }
        assert(!binds_flow(self.associations(), flow@));
        if self.entries.len() == self.limit {
            return Err(UdpAssociationError::Limit);
        }
        let ghost start = self.next_session;
        let ghost sessions = association_sessions(self.associations());
        proof {
            sessions.unique_seq_to_set();
        }
        let ghost mut visited: Set<u64> = Set::empty();
        let mut candidate = self.next_session;
        let mut tries: usize = 0;
        while self.holds_session(candidate)
            invariant
                self.next_session == start,
                tries <= self.entries@.len(),
                candidate == session_candidate(start, tries as nat),
                forall|j: nat| j < tries ==> sessions.contains(#[trigger] session_candidate(start, j)),
                visited.finite(),
                visited.len() == tries,
                visited.subset_of(sessions.to_set()),
                forall|v: u64| #[trigger] visited.contains(v) ==> exists|j: nat|
                    j < tries && v == #[trigger] session_candidate(start, j),
            decreases self.entries@.len() - tries,
        {
            proof {
                if visited.contains(candidate) {
                    let j = choose|j: nat| j < tries && candidate == #[trigger] session_candidate(start, j);
                    lemma_session_candidates_distinct(start, j, tries as nat);
                }
                visited = visited.insert(candidate);
                if tries + 1 > self.entries@.len() {
                    vstd::set_lib::lemma_len_subset(visited, sessions.to_set());
                }
            }
            candidate = if candidate == u64::MAX { 1 } else { candidate + 1 };
            tries = tries + 1;
        }
        let next = if candidate == u64::MAX { 1 } else { candidate + 1 };
        self.next_session = next;
        let session = match DatagramSessionId::new(candidate) {
            Ok(s) => s,
            Err(_) => {
                proof {
                    assert(session_candidate(start, 0) != 0);
                    lemma_session_candidate_value(start, tries as nat);
                }
                return Err(UdpAssociationError::Limit);
            },
        };
        let ghost before = self.entries@;
        self.entries.push((flow, session));
        proof {
            assert(self.associations() =~= associations_of(before).push((flow@, session@)));
            assert(association_sessions(self.associations()) =~= sessions.push(session@));
            assert(session@ == session_candidate(start, tries as nat));
            assert(!sessions.contains(session@));
            assert(start == old(self).spec_next_session());
            assert(sessions == association_sessions(old(self).associations()));
            assert(forall|j: nat|
                j < tries ==> association_sessions(old(self).associations()).contains(
                    #[trigger] session_candidate(old(self).spec_next_session(), j),
                ));
            assert(session@ == session_candidate(old(self).spec_next_session(), tries as nat));
            assert(self.next_session == next_session_after(session@));
        }
        Ok(session)
    }

    #[verifier::loop_isolation(false)]
    /// The flow that a relay response belongs to, only when the response
    /// comes from that flow's destination.
    pub fn flow_for_response(&self, session: DatagramSessionId, source: SocketAddress) -> (flow:
        Result<FlowKey, UdpAssociationError>)
        requires
            self.wf(),
        ensures
            !association_sessions(self.associations()).contains(session@) <==> flow == Err::<
                FlowKey,
                UdpAssociationError,
            >(UdpAssociationError::UnknownSession),
            forall|i: int|
                0 <= i < self.associations().len() && #[trigger] self.associations()[i].1
                    == session@ ==> if self.associations()[i].0.destination == source@ {
                    (flow matches Ok(f) && f@ == self.associations()[i].0)
                } else {
                    flow == Err::<FlowKey, UdpAssociationError>(
                        UdpAssociationError::SourceMismatch,
                    )
                },
    {
        let mut i: usize = 0;
        while i < self.entries.len()
            invariant
                i <= self.entries@.len(),
                forall|j: int|
                    0 <= j < i ==> #[trigger] association_sessions(self.associations())[j]
                        != session@,
            decreases self.entries@.len() - i,
        {
            if self.entries[i].1.get() == session.get() {
                let found = self.entries[i].0;
                assert(association_sessions(self.associations())[i as int] == session@);
                assert forall|k: int|
                    0 <= k < self.associations().len() && #[trigger] self.associations()[k].1
                        == session@ implies k == i by {
                    assert(association_sessions(self.associations()).no_duplicates());
                    assert(association_sessions(self.associations())[k] == self.associations()[k].1);
                }
                if !socket_address_equal(&found.destination, &source) {
                    return Err(UdpAssociationError::SourceMismatch);
                }
                return Ok(found);
            }
            i = i + 1;
        }
        assert forall|k: int|
            0 <= k < self.associations().len() implies #[trigger] self.associations()[k].1
                != session@ by {
            assert(association_sessions(self.associations())[k] == self.associations()[k].1);
        }
        Err(UdpAssociationError::UnknownSession)
    }

    /// Drops every association; identifiers continue from where they were.
    pub fn clear(&mut self)
        requires
            old(self).wf(),
        ensures
            final(self).wf(),
            final(self).spec_limit() == old(self).spec_limit(),
            final(self).spec_next_session() == old(self).spec_next_session(),
            final(self).associations() == Seq::<(FlowKeyView, u64)>::empty(),
    {
        self.entries.clear();
        assert(self.associations() =~= Seq::<(FlowKeyView, u64)>::empty());
    }
}

/// The number of leases held for flows of one protocol.
pub open spec fn protocol_count(leases: Seq<(FlowKeyView, u64)>, protocol: FlowProtocol) -> nat
    decreases leases.len(),
{
    if leases.len() == 0 {
        0
    } else {
        protocol_count(leases.drop_last(), protocol) + if leases.last().0.protocol == protocol {
            1nat
        } else {
            0nat
        }
    }
}

/// The limit that applies to flows of one protocol.
pub open spec fn protocol_limit(limits: TunAdapterLimits, protocol: FlowProtocol) -> usize {
    match protocol {
        FlowProtocol::Tcp => limits.max_tcp_flows,
        FlowProtocol::Udp => limits.max_udp_associations,
    }
}

/// The error reported when one protocol's limit is reached.
pub open spec fn protocol_limit_error(protocol: FlowProtocol) -> FlowAdmissionError {
    match protocol {
        FlowProtocol::Tcp => FlowAdmissionError::TcpFlowLimit,
        FlowProtocol::Udp => FlowAdmissionError::UdpAssociationLimit,
    }
}

/// What admitting a new lease for `key` at `generation` into `base` gives:
/// refused at the protocol's limit, else appended.
pub open spec fn admitted_after(
    base: Seq<(FlowKeyView, u64)>,
    limits: TunAdapterLimits,
    key: FlowKeyView,
    generation: u64,
    admitted: Result<u64, FlowAdmissionError>,
    leases: Seq<(FlowKeyView, u64)>,
) -> bool {
    if protocol_count(base, key.protocol) >= protocol_limit(limits, key.protocol) {
        admitted == Err::<u64, FlowAdmissionError>(protocol_limit_error(key.protocol))
            && leases == base
    } else {
        admitted == Ok::<u64, FlowAdmissionError>(generation) && leases == base.push(
            (key, generation),
        )
    }
}

/// Whether some lease is held for `key`.
pub open spec fn leases_flow(leases: Seq<(FlowKeyView, u64)>, key: FlowKeyView) -> bool {
    exists|i: int| 0 <= i < leases.len() && #[trigger] leases[i].0 == key
}

proof fn lemma_protocol_count_push(
    leases: Seq<(FlowKeyView, u64)>,
    lease: (FlowKeyView, u64),
    protocol: FlowProtocol,
)
    ensures
        protocol_count(leases.push(lease), protocol) == protocol_count(leases, protocol) + if lease.0.protocol == protocol {
            1nat
        } else {
            0nat
        },
{
    assert(leases.push(lease).drop_last() =~= leases);
}

/// The flows admitted by one TUN installation, each leased to the runtime
/// generation that was online when it was admitted.
pub struct TunFlowRegistry {
    limits: TunAdapterLimits,
    flows: Vec<(FlowKey, u64)>,
}

/// The leases held by a list of entries.
pub open spec fn leases_of(flows: Seq<(FlowKey, u64)>) -> Seq<(FlowKeyView, u64)> {
    flows.map_values(|entry: (FlowKey, u64)| (entry.0@, entry.1))
}

impl TunFlowRegistry {
    /// The leases, oldest first.
    pub closed spec fn leases(&self) -> Seq<(FlowKeyView, u64)> {
        leases_of(self.flows@)
    }

    pub closed spec fn spec_limits(&self) -> TunAdapterLimits {
        self.limits
    }

    /// Valid limits and at most one lease per flow.
    pub closed spec fn wf(&self) -> bool {
        &&& self.limits.max_tcp_flows > 0
        &&& self.limits.max_udp_associations > 0
        &&& forall|i: int, j: int|
            0 <= i < j < self.flows@.len() ==> #[trigger] self.leases()[i].0
                != #[trigger] self.leases()[j].0
    }

    /// An empty registry under `limits`, which must validate.
    pub fn new(limits: TunAdapterLimits) -> (registry: Result<Self, TunAdapterConfigError>)
        ensures
            limits.max_tcp_flows == 0 ==> (registry matches Err(e) && e
                == TunAdapterConfigError::TcpFlowLimit),
            limits.max_tcp_flows > 0 && limits.max_udp_associations == 0 ==> (registry matches Err(
                e,
            ) && e == TunAdapterConfigError::UdpAssociationLimit),
            registry is Err <==> (limits.max_tcp_flows == 0 || limits.max_udp_associations == 0),
            registry matches Ok(r) ==> {
                &&& r.wf()
                &&& r.spec_limits() == limits
                &&& r.leases() == Seq::<(FlowKeyView, u64)>::empty()
            },
    {
        let limits = match limits.validate() {
            Ok(l) => l,
            Err(e) => return Err(e),
        };
        let registry = TunFlowRegistry { limits, flows: Vec::new() };
        assert(registry.leases() =~= Seq::<(FlowKeyView, u64)>::empty());
        Ok(registry)
    }

    /// The position of `key`'s lease, if any.
    fn find(&self, key: &FlowKey) -> (index: Option<usize>)
        requires
            self.wf(),
        ensures
            index is None <==> !leases_flow(self.leases(), key@),
            index matches Some(i) ==> i < self.leases().len() && self.leases()[i as int].0
                == key@,
    {
        let mut i: usize = 0;
        while i < self.flows.len()
            invariant
                i <= self.flows@.len(),
                forall|j: int| 0 <= j < i ==> #[trigger] self.leases()[j].0 != key@,
            decreases self.flows@.len() - i,
        {
            if flow_key_equal(&self.flows[i].0, key) {
                assert(self.leases()[i as int].0 == key@);
                return Some(i);
            }
            i = i + 1;
        }
        None
    }

    /// Admits a captured flow for the runtime generation that is online, if
    /// any: a lease of that generation is kept, a stale lease is dropped and
    /// the flow admitted anew within its protocol's limit.
    #[verifier::loop_isolation(false)]
    pub fn admit_flow(&mut self, key: FlowKey, online_generation: Option<u64>) -> (admitted: Result<
        u64,
        FlowAdmissionError,
    >)
        requires
            old(self).wf(),
        ensures
            final(self).wf(),
            final(self).spec_limits() == old(self).spec_limits(),
            online_generation is None ==> admitted == Err::<u64, FlowAdmissionError>(
                FlowAdmissionError::NotOnline,
            ) && final(self).leases() == old(self).leases(),
            forall|g: u64|
                online_generation == Some(g) ==> {
                    &&& old(self).leases().contains((key@, g)) ==> admitted == Ok::<
                        u64,
                        FlowAdmissionError,
                    >(g) && final(self).leases() == old(self).leases()
                    &&& forall|i: int|
                        0 <= i < old(self).leases().len() && #[trigger] old(self).leases()[i].0
                            == key@ && old(self).leases()[i].1 != g ==> admitted_after(
                            old(self).leases().remove(i),
                            old(self).spec_limits(),
                            key@,
                            g,
                            admitted,
                            final(self).leases(),
                        )
                    &&& !leases_flow(old(self).leases(), key@) ==> admitted_after(
                        old(self).leases(),
                        old(self).spec_limits(),
                        key@,
                        g,
                        admitted,
                        final(self).leases(),
                    )
                },
    {
        let generation = match online_generation {
            Some(g) => g,
            None => return Err(FlowAdmissionError::NotOnline),
        };
        match self.find(&key) {
            Some(i) => {
                proof {
                    assert forall|j: int|
                        0 <= j < self.leases().len() && #[trigger] self.leases()[j].0 == key@
                            implies j == i by {}
                }
                if self.flows[i].1 == generation {
                    assert(self.leases()[i as int] == (key@, generation));
                    return Ok(generation);
                }
                proof {
                    assert forall|j: int| 0 <= j < self.leases().len() implies self.leases()[j]
                        != (key@, generation) by {
                        if self.leases()[j].0 == key@ {
                            assert(j == i);
                        }
                    }
                }
                let ghost before = self.flows@;
                self.flows.remove(i);
                proof {
                    assert(leases_of(self.flows@) =~= leases_of(before).remove(i as int));
                    assert forall|j: int|
                        0 <= j < leases_of(before).len() && #[trigger] leases_of(before)[j].0
                            == key@ implies j == i by {}
                    assert forall|a: int, b: int|
                        0 <= a < b < self.flows@.len() implies #[trigger] self.leases()[a].0
                            != #[trigger] self.leases()[b].0 by {
                        let a0 = if a < i { a } else { a + 1 };
                        let b0 = if b < i { b } else { b + 1 };
                        assert(self.leases()[a] == leases_of(before)[a0]);
                        assert(self.leases()[b] == leases_of(before)[b0]);
                    }
                    assert(!leases_flow(self.leases(), key@));
                }
                self.admit_new(key, generation)
            },
            None => {
                proof {
                    assert forall|j: int| 0 <= j < self.leases().len() implies self.leases()[j]
                        != (key@, generation) by {
                        assert(self.leases()[j].0 != key@);
                    }
                }
                self.admit_new(key, generation)
            },
        }
    }

    fn admit_new(&mut self, key: FlowKey, generation: u64) -> (admitted: Result<
        u64,
        FlowAdmissionError,
    >)
        requires
            old(self).wf(),
            !leases_flow(old(self).leases(), key@),
        ensures
            final(self).wf(),
            final(self).spec_limits() == old(self).spec_limits(),
            admitted_after(
                old(self).leases(),
                old(self).spec_limits(),
                key@,
                generation,
                admitted,
                final(self).leases(),
            ),
    {
        let mut used: usize = 0;
        let mut i: usize = 0;
        while i < self.flows.len()
            invariant
                i <= self.flows@.len(),
                used == protocol_count(self.leases().take(i as int), key.protocol),
                used <= i,
            decreases self.flows@.len() - i,
        {
            proof {
                assert(self.leases().take(i as int + 1).drop_last() =~= self.leases().take(
                    i as int,
                ));
            }
            if self.flows[i].0.protocol == key.protocol {
                used = used + 1;
            }
            i = i + 1;
        }
        assert(self.leases().take(i as int) =~= self.leases());
        let limit = match key.protocol {
            FlowProtocol::Tcp => self.limits.max_tcp_flows,
            FlowProtocol::Udp => self.limits.max_udp_associations,
        };
        if used >= limit {
            return Err(
                match key.protocol {
                    FlowProtocol::Tcp => FlowAdmissionError::TcpFlowLimit,
                    FlowProtocol::Udp => FlowAdmissionError::UdpAssociationLimit,
                },
            );
        }
        let ghost before = self.flows@;
        self.flows.push((key, generation));
        proof {
            assert(leases_of(self.flows@) =~= leases_of(before).push((key@, generation)));
            assert forall|a: int, b: int|
                0 <= a < b < self.flows@.len() implies #[trigger] self.leases()[a].0
                    != #[trigger] self.leases()[b].0 by {
                if b == before.len() {
                    assert(leases_of(before)[a].0 != key@);
                }
            }
        }
        Ok(generation)
    }

    /// Whether an admitted flow may still exchange bytes: its generation is
    /// online and still holds the flow's lease.
    pub fn is_active(&self, key: FlowKey, generation: u64, generation_online: bool) -> (active:
        bool)
        requires
            self.wf(),
        ensures
            active == (generation_online && self.leases().contains((key@, generation))),
    {
        if !generation_online {
            return false;
        }
        match self.find(&key) {
            Some(i) => {
                let held = self.flows[i].1 == generation;
                proof {
                    if held {
                        assert(self.leases()[i as int] == (key@, generation));
                    } else {
                        assert forall|j: int| 0 <= j < self.leases().len() implies self.leases()[j]
                            != (key@, generation) by {
                            if self.leases()[j].0 == key@ && j != i {
                                assert(self.leases()[i as int].0 == key@);
                            }
                        }
                    }
                }
                held
            },
            None => {
                assert forall|j: int| 0 <= j < self.leases().len() implies self.leases()[j] != (
                key@, generation) by {
                    assert(self.leases()[j].0 != key@);
                }
                false
            },
        }
    }

    /// Releases one flow's lease; whether it held one.
    pub fn release(&mut self, key: FlowKey) -> (released: bool)
        requires
            old(self).wf(),
        ensures
            final(self).wf(),
            final(self).spec_limits() == old(self).spec_limits(),
            released == leases_flow(old(self).leases(), key@),
            !released ==> final(self).leases() == old(self).leases(),
            forall|i: int|
                0 <= i < old(self).leases().len() && #[trigger] old(self).leases()[i].0 == key@
                    ==> final(self).leases() == old(self).leases().remove(i),
    {
        match self.find(&key) {
            Some(i) => {
                let ghost before = self.flows@;
                self.flows.remove(i);
                proof {
                    assert(leases_of(self.flows@) =~= leases_of(before).remove(i as int));
                    assert forall|j: int|
                        0 <= j < leases_of(before).len() && #[trigger] leases_of(before)[j].0
                            == key@ implies j == i by {}
                    assert forall|a: int, b: int|
                        0 <= a < b < self.flows@.len() implies #[trigger] self.leases()[a].0
                            != #[trigger] self.leases()[b].0 by {
                        let a0 = if a < i { a } else { a + 1 };
                        let b0 = if b < i { b } else { b + 1 };
                        assert(self.leases()[a] == leases_of(before)[a0]);
                        assert(self.leases()[b] == leases_of(before)[b0]);
                    }
                }
                true
            },
            None => false,
        }
    }

    /// Invalidates every lease after TUN replacement, disconnect or reconnect.
    pub fn clear(&mut self)
        requires
            old(self).wf(),
        ensures
            final(self).wf(),
            final(self).spec_limits() == old(self).spec_limits(),
            final(self).leases() == Seq::<(FlowKeyView, u64)>::empty(),
    {
        self.flows.clear();
        assert(self.leases() =~= Seq::<(FlowKeyView, u64)>::empty());
    }

    /// The number of leases held.
    pub fn flow_count(&self) -> (count: usize)
        ensures
            count == self.leases().len(),
    {
        self.flows.len()
    }
}

/// One policy decision after fake-IP restoration.
#[derive(Clone, Debug, PartialEq, Eq)]
pub struct TunRouteDecision {
    pub action: RoutingAction,
    pub destination: SocketAddress,
    pub domain: Option<String>,
}

/// Shared routing and DNS identity state of a platform TUN host.
pub struct TunPolicyEngine {
    policy: RoutingPolicy,
    dns: FakeDnsTable,
}

impl TunPolicyEngine {
    pub closed spec fn spec_policy(&self) -> RoutingPolicy {
        self.policy
    }

    pub closed spec fn spec_dns(&self) -> FakeDnsTable {
        self.dns
    }

    pub closed spec fn wf(&self) -> bool {
        self.dns.wf()
    }

    /// An engine for `generation` with a fake-DNS table of `dns_capacity`.
    pub fn new(generation: u64, policy: RoutingPolicy, dns_capacity: usize) -> (engine: Result<Self, FakeDnsError>)
        ensures
            engine is Err <==> dns_capacity == 0,
            engine matches Ok(e) ==> e.wf() && e.spec_policy() == policy
                && e.spec_dns().spec_generation() == generation
                && e.spec_dns().spec_capacity() == dns_capacity
                && e.spec_dns().mappings() == Seq::<MappingView>::empty(),
    {
        let dns = FakeDnsTable::new(generation, dns_capacity)?;
        Ok(TunPolicyEngine { policy, dns })
    }

    /// Maps a DNS answer to a fake address, as `FakeDnsTable::allocate` does
    /// on the engine's table.
    pub fn allocate_dns(&mut self, generation: u64, domain: &str, answer: IpAddress, ttl: u64, now: u64) -> (fake: Result<IpAddress, FakeDnsError>)
        requires
            old(self).wf(),
            now + ttl <= u64::MAX,
        ensures
            final(self).wf(),
            final(self).spec_policy() == old(self).spec_policy(),
            allocation(old(self).spec_dns(), final(self).spec_dns(), generation, domain@, answer, ttl, now, fake),
            fake matches Ok(a) ==> crate::fake_dns::holds_fake(final(self).spec_dns().mappings(), a@),
    {
        let fake = self.dns.allocate(generation, domain, answer, ttl, now);
        proof {
            if let Ok(a) = fake {
                let ms = self.dns.mappings();
                let live = crate::fake_dns::unexpired(old(self).dns.mappings(), now);
                let d = crate::fake_dns::fake_dns_domain(domain@);
                if crate::fake_dns::answers(live, d, answer@) {
                    let i = choose|i: int| 0 <= i < live.len() && #[trigger] live[i].domain == d && live[i].real_address == answer@
                        && (forall|j: int| 0 <= j < i ==> !(#[trigger] live[j].domain == d && live[j].real_address == answer@))
                        && (fake matches Ok(a) && a@ == live[i].fake_address)
                        && ms == live.update(i, MappingView { expires_at: (now + ttl) as u64, ..live[i] });
                    assert(ms[i].fake_address == a@);
                } else {
                    assert(ms[ms.len() - 1].fake_address == a@);
                }
            }
        }
        fake
    }

    /// The decision for a captured flow: a fake destination is restored to
    /// the real address and domain it was mapped for, and the policy decides
    /// on the restored flow; refused for another generation.
    pub fn decide(&mut self, generation: u64, flow: FlowKey, now: u64) -> (decision: Result<TunRouteDecision, FakeDnsError>)
        requires
            old(self).wf(),
        ensures
            final(self).wf(),
            final(self).spec_policy() == old(self).spec_policy(),
            final(self).spec_dns().spec_generation() == old(self).spec_dns().spec_generation(),
            final(self).spec_dns().spec_capacity() == old(self).spec_dns().spec_capacity(),
            generation != old(self).spec_dns().spec_generation() ==> decision == Err::<TunRouteDecision, FakeDnsError>(FakeDnsError::GenerationMismatch)
                && final(self).spec_dns().mappings() == old(self).spec_dns().mappings(),
            generation == old(self).spec_dns().spec_generation() ==> (decision matches Ok(d) && ({
                let live = final(self).spec_dns().mappings();
                &&& live == crate::fake_dns::unexpired(old(self).spec_dns().mappings(), now)
                &&& match d.domain {
                    Some(name) => exists|i: int| 0 <= i < live.len() && #[trigger] live[i].fake_address == flow.destination.ip@
                        && name@ == live[i].domain && d.destination@ == (crate::net::AddressView { ip: live[i].real_address, port: flow.destination.port }),
                    None => !crate::fake_dns::holds_fake(live, flow.destination.ip@) && d.destination == flow.destination,
                }
                &&& d.action@ == first_match_action(
                    old(self).spec_policy().spec_rules(),
                    routed_domain(match d.domain { Some(name) => Some(name@), None => None }),
                    d.destination.ip@,
                    d.destination.port,
                )
            })),
    {
        let mapping = self.dns.resolve(generation, flow.destination.ip, now)?;
        let (destination, domain) = match mapping {
            Some(m) => {
                let (name, address) = m.into_identity();
                (SocketAddress { ip: address, port: flow.destination.port }, Some(name))
            },
            None => (flow.destination, None),
        };
        let action = match &domain {
            Some(name) => self.policy.decide(&RouteContext { domain: Some(name.as_str()), destination: destination.ip, destination_port: destination.port }),
            None => self.policy.decide(&RouteContext { domain: None, destination: destination.ip, destination_port: destination.port }),
        };
        Ok(TunRouteDecision { action, destination, domain })
    }

    /// Moves to another generation and policy, dropping every fake mapping.
    pub fn replace_generation(&mut self, generation: u64, policy: RoutingPolicy)
        requires
            old(self).wf(),
        ensures
            final(self).wf(),
            final(self).spec_policy() == policy,
            final(self).spec_dns().spec_generation() == generation,
            final(self).spec_dns().mappings() == Seq::<MappingView>::empty(),
    {
        self.policy = policy;
        self.dns.replace_generation(generation);
    }
}

} // verus!
