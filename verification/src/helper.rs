//! Bounded control protocol between an unprivileged client and a privileged
//! traffic host: the closed sets of capabilities, states, results and error
//! categories, and the length-prefixed framing of JSON bodies. A frame is a
//! four-octet big-endian body length followed by the body.
use vstd::prelude::*;

use crate::bytes::{be32, from_be32, push_all, push_u32, read_u32};
use crate::net::IpAddress;

verus! {

/// Current helper protocol version.
pub const PROTOCOL_VERSION: u16 = 1;

/// Maximum body size; the four-octet header is not included.
pub const MAX_FRAME_LENGTH: usize = 65536;

/// Length of a frame header.
pub const FRAME_HEADER_LENGTH: usize = 4;

/// Stable feature names negotiated by the controller and traffic host.
#[derive(Clone, Copy, Debug, PartialEq, Eq, Structural, PartialOrd, Ord, Hash)]
pub enum Capability {
    Tun,
    Ipv6,
    RouteTransaction,
    DnsTransaction,
    SocketProtection,
    CrashRecovery,
}

/// A parameter object for commands which intentionally accept no arguments.
#[derive(Clone, Copy, Debug, PartialEq, Eq, Structural, Default)]
pub struct EmptyParameters {}

/// Lifecycle state reported without platform error strings or sensitive data.
#[derive(Clone, Copy, Debug, PartialEq, Eq, Structural)]
pub enum HostState {
    Recovering,
    Stopped,
    Starting,
    Running,
    Stopping,
    Failed,
}

/// Stable, payload-free failure categories returned by a traffic host.
#[derive(Clone, Copy, Debug, PartialEq, Eq, Structural)]
pub enum ErrorCode {
    Unauthorized,
    UnsupportedVersion,
    UnsupportedCapability,
    InvalidConfiguration,
    GenerationConflict,
    Busy,
    Platform,
    RecoveryRequired,
}

/// Successful command-specific response data.
#[derive(Clone, Copy, Debug, PartialEq, Eq, Structural)]
pub enum Success {
    Hello,
    Status { state: HostState },
    Started,
    Stopped,
    Recovered,
}

/// Result of one helper command; a failure carries a category and no
/// message.
#[derive(Clone, Copy, Debug, PartialEq, Eq, Structural)]
pub enum CommandResult {
    Succeeded(Success),
    Failed(ErrorCode),
}

/// One IP network installed on a TUN interface.
#[derive(Clone, Copy, Debug, PartialEq, Eq)]
pub struct IpNetwork {
    pub address: IpAddress,
    pub prefix_length: u8,
}

/// Complete, bounded network configuration accepted by `start`.
#[derive(Clone, Debug, PartialEq, Eq)]
pub struct StartParameters {
    pub mtu: u16,
    pub ipv4: Option<IpNetwork>,
    pub ipv6: Option<IpNetwork>,
    pub dns: Vec<IpAddress>,
}

/// The only operations a privileged traffic host may execute.
#[derive(Clone, Debug, PartialEq, Eq)]
pub enum Command {
    Hello(EmptyParameters),
    Status(EmptyParameters),
    Start(StartParameters),
    Stop(EmptyParameters),
    Recover(EmptyParameters),
}

/// A controller request; its identifier makes retries idempotent.
#[derive(Clone, Debug, PartialEq, Eq)]
pub struct Request {
    pub version: u16,
    pub request_id: u64,
    pub profile_generation: u64,
    pub capabilities: Vec<Capability>,
    pub command: Command,
}

/// A traffic-host response correlated to exactly one request.
#[derive(Clone, Debug, PartialEq, Eq)]
pub struct Response {
    pub version: u16,
    pub request_id: u64,
    pub profile_generation: u64,
    pub capabilities: Vec<Capability>,
    pub response: CommandResult,
}

/// Framing or validation failed before a command reached the host.
#[derive(Clone, Copy, Debug, PartialEq, Eq, Structural)]
pub enum CodecError {
    EmptyFrame,
    FrameTooLarge,
    InvalidJson,
    UnsupportedVersion,
}

/// Whether a body may be framed: non-empty and at most the maximum.
pub open spec fn body_check(length: nat) -> Result<(), CodecError> {
    if length == 0 {
        Err(CodecError::EmptyFrame)
    } else if length > MAX_FRAME_LENGTH {
        Err(CodecError::FrameTooLarge)
    } else {
        Ok(())
    }
}

/// Checks a body's length before it is sent or decoded.
pub fn check_body(body: &[u8]) -> (checked: Result<(), CodecError>)
    ensures
        checked == body_check(body@.len()),
{
    if body.len() == 0 {
        return Err(CodecError::EmptyFrame);
    }
    if body.len() > MAX_FRAME_LENGTH {
        return Err(CodecError::FrameTooLarge);
    }
    Ok(())
}

/// Accepts only the current protocol version.
pub fn check_version(version: u16) -> (checked: Result<(), CodecError>)
    ensures
        checked is Ok <==> version == PROTOCOL_VERSION,
        checked matches Err(e) ==> e == CodecError::UnsupportedVersion,
{
    if version != PROTOCOL_VERSION {
        return Err(CodecError::UnsupportedVersion);
    }
    Ok(())
}

/// Frames one serialized body: its length as four big-endian octets, then
/// the body.
pub fn encode_frame(body: &[u8]) -> (frame: Result<Vec<u8>, CodecError>)
    ensures
        body_check(body@.len()) matches Err(e) ==> frame == Err::<Vec<u8>, CodecError>(e),
        body_check(body@.len()) is Ok ==> (frame matches Ok(f) && f@ == be32(body@.len() as u32)
            + body@),
{
    check_body(body)?;
    let length = body.len() as u32;
    let mut frame: Vec<u8> = Vec::new();
    push_u32(&mut frame, length);
    push_all(&mut frame, body);
    assert(frame@ =~= be32(body@.len() as u32) + body@);
    Ok(frame)
}

/// The state of a request decoder: reading a header, or a body of the
/// announced length; or failed on a header.
pub enum HelperFeed {
    Running { buffer: Seq<u8>, expected: Option<nat>, bodies: Seq<Seq<u8>> },
    Failed { error: CodecError, bodies: Seq<Seq<u8>> },
}

/// One more octet for a decoder in state (`buffer`, `expected`).
pub open spec fn helper_feed_byte(
    buffer: Seq<u8>,
    expected: Option<nat>,
    bodies: Seq<Seq<u8>>,
    byte: u8,
) -> HelperFeed {
    let b = buffer.push(byte);
    match expected {
        None => if b.len() < 4 {
            HelperFeed::Running { buffer: b, expected: None, bodies }
        } else {
            let length = from_be32(b) as nat;
            if length == 0 {
                HelperFeed::Failed { error: CodecError::EmptyFrame, bodies }
            } else if length > MAX_FRAME_LENGTH {
                HelperFeed::Failed { error: CodecError::FrameTooLarge, bodies }
            } else {
                HelperFeed::Running { buffer: Seq::empty(), expected: Some(length), bodies }
            }
        },
        Some(length) => if b.len() < length {
            HelperFeed::Running { buffer: b, expected, bodies }
        } else {
            HelperFeed::Running { buffer: Seq::empty(), expected: None, bodies: bodies.push(b) }
        },
    }
}

/// A decoder in state (`buffer`, `expected`) after `input`: the complete
/// bodies in order, and the state it is left in.
pub open spec fn helper_feed(buffer: Seq<u8>, expected: Option<nat>, input: Seq<u8>) -> HelperFeed
    decreases input.len(),
{
    if input.len() == 0 {
        HelperFeed::Running { buffer, expected, bodies: Seq::empty() }
    } else {
        match helper_feed(buffer, expected, input.drop_last()) {
            HelperFeed::Running { buffer: b, expected: e, bodies } => helper_feed_byte(
                b,
                e,
                bodies,
                input.last(),
            ),
            failed => failed,
        }
    }
}

proof fn lemma_failure_is_final(buffer: Seq<u8>, expected: Option<nat>, input: Seq<u8>, i: int, j: int)
    requires
        0 <= i <= j <= input.len(),
        helper_feed(buffer, expected, input.take(i)) is Failed,
    ensures
        helper_feed(buffer, expected, input.take(j)) == helper_feed(buffer, expected, input.take(i)),
    decreases j - i,
{
    if j > i {
        lemma_failure_is_final(buffer, expected, input, i, j - 1);
        assert(input.take(j).drop_last() =~= input.take(j - 1));
    }
}

/// A decoder state continued with more input; bodies found before are kept
/// ahead of those found in `input`.
pub open spec fn helper_feed_from(state: HelperFeed, input: Seq<u8>) -> HelperFeed {
    match state {
        HelperFeed::Running { buffer, expected, bodies } => match helper_feed(
            buffer,
            expected,
            input,
        ) {
            HelperFeed::Running { buffer: b, expected: e, bodies: more } => HelperFeed::Running {
                buffer: b,
                expected: e,
                bodies: bodies + more,
            },
            HelperFeed::Failed { error, bodies: more } => HelperFeed::Failed {
                error,
                bodies: bodies + more,
            },
        },
        failed => failed,
    }
}

proof fn lemma_feed_byte_prefix(
    buffer: Seq<u8>,
    expected: Option<nat>,
    earlier: Seq<Seq<u8>>,
    bodies: Seq<Seq<u8>>,
    byte: u8,
)
    ensures
        helper_feed_byte(buffer, expected, earlier + bodies, byte) == match helper_feed_byte(
            buffer,
            expected,
            bodies,
            byte,
        ) {
            HelperFeed::Running { buffer: b, expected: e, bodies: more } => HelperFeed::Running {
                buffer: b,
                expected: e,
                bodies: earlier + more,
            },
            HelperFeed::Failed { error, bodies: more } => HelperFeed::Failed {
                error,
                bodies: earlier + more,
            },
        },
{
    assert((earlier + bodies).push(buffer.push(byte)) =~= earlier + bodies.push(buffer.push(byte)));
}

/// Framing law: how a stream is cut into reads does not matter; feeding
/// `a` then `b` gives what feeding `a + b` at once gives.
pub proof fn lemma_helper_feed_concat(buffer: Seq<u8>, expected: Option<nat>, a: Seq<u8>, b: Seq<u8>)
    ensures
        helper_feed(buffer, expected, a + b) == helper_feed_from(
            helper_feed(buffer, expected, a),
            b,
        ),
    decreases b.len(),
{
    if b.len() == 0 {
        assert(a + b =~= a);
        if let HelperFeed::Running { buffer: x, expected: y, bodies } = helper_feed(buffer, expected, a) {
            assert(bodies + Seq::<Seq<u8>>::empty() =~= bodies);
        }
    } else {
        lemma_helper_feed_concat(buffer, expected, a, b.drop_last());
        assert((a + b).drop_last() =~= a + b.drop_last());
        assert((a + b).last() == b.last());
        if let HelperFeed::Running { buffer: x, expected: y, bodies } = helper_feed(buffer, expected, a) {
            if let HelperFeed::Running { buffer: x2, expected: y2, bodies: more } = helper_feed(x, y, b.drop_last()) {
                lemma_feed_byte_prefix(x2, y2, bodies, more, b.last());
            }
        }
    }
}

/// The bytes of a list of bodies.
pub open spec fn bodies_view(bodies: Seq<Vec<u8>>) -> Seq<Seq<u8>> {
    bodies.map_values(|b: Vec<u8>| b@)
}

/// What one read gave: the bodies completed in order and, when a header was
/// refused, the error that ended the read.
pub struct FramedBodies {
    pub bodies: Vec<Vec<u8>>,
    pub error: Option<CodecError>,
}

/// Incremental request framing for fragmented and coalesced stream reads.
#[derive(Debug)]
pub struct RequestDecoder {
    buffer: Vec<u8>,
    expected_body_length: Option<usize>,
}

impl RequestDecoder {
    pub closed spec fn spec_buffer(&self) -> Seq<u8> {
        self.buffer@
    }

    pub closed spec fn spec_expected(&self) -> Option<nat> {
        match self.expected_body_length {
            Some(n) => Some(n as nat),
            None => None,
        }
    }

    /// The buffer holds less than a header while no length is announced, and
    /// less than the announced length, which is within bounds, otherwise.
    pub closed spec fn wf(&self) -> bool {
        match self.expected_body_length {
            None => self.buffer@.len() < 4,
            Some(n) => 0 < n <= MAX_FRAME_LENGTH && self.buffer@.len() < n,
        }
    }

    /// A decoder waiting for a header.
    pub fn new() -> (decoder: Self)
        ensures
            decoder.wf(),
            decoder.spec_buffer() == Seq::<u8>::empty(),
            decoder.spec_expected() is None,
    {
        RequestDecoder { buffer: Vec::new(), expected_body_length: None }
    }

    /// How many octets of an unfinished header or body are held.
    pub fn buffered_len(&self) -> (length: usize)
        ensures
            length == self.spec_buffer().len(),
    {
        self.buffer.len()
    }

    /// The body length announced by the header being completed, if any.
    pub fn expected_body_length(&self) -> (expected: Option<usize>)
        ensures
            match expected {
                Some(n) => self.spec_expected() == Some(n as nat),
                None => self.spec_expected() is None,
            },
    {
        self.expected_body_length
    }

    /// Discards a failed or disconnected peer's partial frame.
    pub fn clear(&mut self)
        ensures
            final(self).wf(),
            final(self).spec_buffer() == Seq::<u8>::empty(),
            final(self).spec_expected() is None,
    {
        self.buffer.clear();
        self.expected_body_length = None;
    }

    /// Appends `bytes` and returns every body now complete, in order. A
    /// header announcing an empty or oversized body ends the read with its
    /// error and clears the decoder, before any of that body is read.
    #[verifier::loop_isolation(false)]
    pub fn push(&mut self, bytes: &[u8]) -> (framed: FramedBodies)
        requires
            old(self).wf(),
        ensures
            final(self).wf(),
            match helper_feed(old(self).spec_buffer(), old(self).spec_expected(), bytes@) {
                HelperFeed::Running { buffer, expected, bodies } => {
                    &&& framed.error is None
                    &&& bodies_view(framed.bodies@) == bodies
                    &&& final(self).spec_buffer() == buffer
                    &&& final(self).spec_expected() == expected
                },
                HelperFeed::Failed { error, bodies } => {
                    &&& framed.error == Some(error)
                    &&& bodies_view(framed.bodies@) == bodies
                    &&& final(self).spec_buffer() == Seq::<u8>::empty()
                    &&& final(self).spec_expected() is None
                },
            },
    {
        let mut bodies: Vec<Vec<u8>> = Vec::new();
        let ghost buffer0 = self.spec_buffer();
        let ghost expected0 = self.spec_expected();
        let n = bytes.len();
        let mut i: usize = 0;
        proof {
            assert(bytes@.take(0) =~= Seq::<u8>::empty());
            assert(bodies_view(bodies@) =~= Seq::<Seq<u8>>::empty());
        }
        while i < n
            invariant
                i <= n,
                n == bytes@.len(),
                self.wf(),
                helper_feed(buffer0, expected0, bytes@.take(i as int)) == (HelperFeed::Running {
                    buffer: self.spec_buffer(),
                    expected: self.spec_expected(),
                    bodies: bodies_view(bodies@),
                }),
            decreases n - i,
        {
            proof {
                assert(bytes@.take(i + 1).drop_last() =~= bytes@.take(i as int));
                assert(bytes@.take(i + 1).last() == bytes@[i as int]);
            }
            let byte = bytes[i];
            self.buffer.push(byte);
            match self.expected_body_length {
                None => {
                    if self.buffer.len() == 4 {
                        let length = read_u32(self.buffer.as_slice(), 0);
                        proof {
                            assert(self.buffer@.subrange(0, 4) =~= self.buffer@);
                        }
                        if length == 0 {
                            proof {
                                assert(helper_feed(buffer0, expected0, bytes@.take(i + 1)) == (HelperFeed::Failed {
                                    error: CodecError::EmptyFrame,
                                    bodies: bodies_view(bodies@),
                                }));
                                lemma_failure_is_final(buffer0, expected0, bytes@, i + 1, n as int);
                                assert(bytes@.take(n as int) =~= bytes@);
                            }
                            self.clear();
                            return FramedBodies { bodies, error: Some(CodecError::EmptyFrame) };
                        }
                        if length as usize > MAX_FRAME_LENGTH {
                            proof {
                                assert(helper_feed(buffer0, expected0, bytes@.take(i + 1)) == (HelperFeed::Failed {
                                    error: CodecError::FrameTooLarge,
                                    bodies: bodies_view(bodies@),
                                }));
                                lemma_failure_is_final(buffer0, expected0, bytes@, i + 1, n as int);
                                assert(bytes@.take(n as int) =~= bytes@);
                            }
                            self.clear();
                            return FramedBodies { bodies, error: Some(CodecError::FrameTooLarge) };
                        }
                        self.buffer.clear();
                        self.expected_body_length = Some(length as usize);
                    }
                },
                Some(length) => {
                    if self.buffer.len() == length {
                        let mut body: Vec<u8> = Vec::new();
                        std::mem::swap(&mut body, &mut self.buffer);
                        let ghost before = bodies@;
                        bodies.push(body);
                        proof {
                            assert(bodies_view(bodies@) =~= bodies_view(before).push(body@));
                        }
                        self.expected_body_length = None;
                    }
                },
            }
            i = i + 1;
        }
        proof {
            assert(bytes@.take(n as int) =~= bytes@);
        }
        FramedBodies { bodies, error: None }
    }
}

} // verus!
