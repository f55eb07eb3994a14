//! Bounded application envelopes carried by native unreliable datagrams.
use vstd::prelude::*;
use crate::bytes::{
    be16, be64, from_be16, from_be64, lemma_be16_roundtrip, lemma_be64_roundtrip,
    lemma_from_be16_roundtrip, lemma_from_be64_roundtrip, push_all, push_u16, push_u64,
    read_u16, read_u64, copy_range,
};
use crate::net::{AddressView, IpAddress, IpView, SocketAddress, ip_view_wf};

verus! {

/// Largest application payload accepted before a carrier's negotiated MTU is
/// applied.
pub const MAX_DATAGRAM_PAYLOAD_BYTES: usize = 60 * 1024;

/// The credential is carried only in encrypted client-to-server envelopes. It
/// is bounded independently from the application payload.
pub const MAX_DATAGRAM_CREDENTIAL_BYTES: usize = 128;

pub const MAX_DATAGRAM_ENVELOPE_BYTES: usize = 60 * 1024 + 29 + 128;

pub const CLIENT_TO_SERVER: u8 = 0x01;

pub const SERVER_TO_CLIENT: u8 = 0x02;

pub const IPV4: u8 = 0x04;

pub const IPV6: u8 = 0x06;

/// Opaque, non-zero identifier for one UDP association within a carrier.
#[derive(Clone, Copy, Debug, PartialEq, Eq, Hash, PartialOrd, Ord)]
pub struct DatagramSessionId(u64);

#[derive(Clone, Copy, Debug, PartialEq, Eq, Structural)]
pub enum DatagramSessionIdError {
    Zero,
}

impl View for DatagramSessionId {
    type V = u64;

    closed spec fn view(&self) -> u64 {
        self.0
    }
}

impl DatagramSessionId {
    #[verifier::type_invariant]
    closed spec fn nonzero(self) -> bool {
        self.0 != 0
    }

    /// Accepts any identifier except zero.
    pub fn new(value: u64) -> (id: Result<Self, DatagramSessionIdError>)
        ensures
            id is Ok <==> value != 0,
            id matches Ok(s) ==> s@ == value,
            id matches Err(e) ==> e == DatagramSessionIdError::Zero,
    {
        if value == 0 {
            return Err(DatagramSessionIdError::Zero);
        }
        Ok(DatagramSessionId(value))
    }

    /// The identifier; never zero.
    pub fn get(self) -> (value: u64)
        ensures
            value == self@,
            value != 0,
    {
        proof {
            use_type_invariant(&self);
        }
        self.0
    }
}

/// One application datagram, in the direction selected by its envelope type.
#[derive(Clone, Debug, PartialEq, Eq)]
pub enum Datagram {
    ClientToServer {
        credential: Vec<u8>,
        session_id: DatagramSessionId,
        destination: SocketAddress,
        payload: Vec<u8>,
    },
    ServerToClient { session_id: DatagramSessionId, source: SocketAddress, payload: Vec<u8> },
}

#[derive(Clone, Copy, Debug, PartialEq, Eq, Structural)]
pub enum DatagramEncodeError {
    InvalidCredentialLength { minimum: usize, maximum: usize, actual: usize },
    PayloadTooLarge { maximum: usize, actual: usize },
}

#[derive(Clone, Copy, Debug, PartialEq, Eq, Structural)]
pub enum DatagramDecodeError {
    TooShort,
    TooLarge { maximum: usize, actual: usize },
    UnknownDirection(u8),
    InvalidCredentialLength { minimum: usize, maximum: usize, actual: usize },
    InvalidAddressFamily(u8),
    ZeroSessionId,
}

/// Mathematical content of a datagram.
pub enum DatagramView {
    ClientToServer { credential: Seq<u8>, session_id: u64, destination: AddressView, payload: Seq<u8> },
    ServerToClient { session_id: u64, source: AddressView, payload: Seq<u8> },
}

impl View for Datagram {
    type V = DatagramView;

    open spec fn view(&self) -> DatagramView {
        match *self {
            Datagram::ClientToServer { credential, session_id, destination, payload } =>
                DatagramView::ClientToServer {
                credential: credential@,
                session_id: session_id@,
                destination: destination@,
                payload: payload@,
            },
            Datagram::ServerToClient { session_id, source, payload } =>
                DatagramView::ServerToClient {
                session_id: session_id@,
                source: source@,
                payload: payload@,
            },
        }
    }
}

/// The wire form of an address: family octet, address octets, big-endian port.
pub open spec fn address_bytes(a: AddressView) -> Seq<u8> {
    match a.ip {
        IpView::V4(o) => seq![IPV4] + o + be16(a.port),
        IpView::V6(o) => seq![IPV6] + o + be16(a.port),
    }
}

/// The octets a datagram encodes to, or why it cannot be encoded.
pub open spec fn spec_encode_datagram(v: DatagramView) -> Result<Seq<u8>, DatagramEncodeError> {
    match v {
        DatagramView::ClientToServer { credential, session_id, destination, payload } => {
            if !(1 <= credential.len() <= MAX_DATAGRAM_CREDENTIAL_BYTES) {
                Err(
                    DatagramEncodeError::InvalidCredentialLength {
                        minimum: 1,
                        maximum: MAX_DATAGRAM_CREDENTIAL_BYTES,
                        actual: credential.len() as usize,
                    },
                )
            } else if payload.len() > MAX_DATAGRAM_PAYLOAD_BYTES {
                Err(
                    DatagramEncodeError::PayloadTooLarge {
                        maximum: MAX_DATAGRAM_PAYLOAD_BYTES,
                        actual: payload.len() as usize,
                    },
                )
            } else {
                Ok(
                    seq![CLIENT_TO_SERVER, credential.len() as u8] + credential + be64(session_id)
                        + address_bytes(destination) + payload,
                )
            }
        },
        DatagramView::ServerToClient { session_id, source, payload } => {
            if payload.len() > MAX_DATAGRAM_PAYLOAD_BYTES {
                Err(
                    DatagramEncodeError::PayloadTooLarge {
                        maximum: MAX_DATAGRAM_PAYLOAD_BYTES,
                        actual: payload.len() as usize,
                    },
                )
            } else {
                Ok(seq![SERVER_TO_CLIENT] + be64(session_id) + address_bytes(source) + payload)
            }
        },
    }
}

/// Parses an address at `offset`: the address and the offset after it.
pub open spec fn spec_parse_address(b: Seq<u8>, offset: int) -> Result<
    (AddressView, int),
    DatagramDecodeError,
> {
    if b.len() < offset + 1 {
        Err(DatagramDecodeError::TooShort)
    } else if b[offset] == IPV4 {
        if b.len() < offset + 7 {
            Err(DatagramDecodeError::TooShort)
        } else {
            Ok(
                (
                    AddressView {
                        ip: IpView::V4(b.subrange(offset + 1, offset + 5)),
                        port: from_be16(b.subrange(offset + 5, offset + 7)),
                    },
                    offset + 7,
                ),
            )
        }
    } else if b[offset] == IPV6 {
        if b.len() < offset + 19 {
            Err(DatagramDecodeError::TooShort)
        } else {
            Ok(
                (
                    AddressView {
                        ip: IpView::V6(b.subrange(offset + 1, offset + 17)),
                        port: from_be16(b.subrange(offset + 17, offset + 19)),
                    },
                    offset + 19,
                ),
            )
        }
    } else {
        Err(DatagramDecodeError::InvalidAddressFamily(b[offset]))
    }
}

/// Where the session identifier starts, after the direction and any
/// credential, or why the envelope is refused before it.
pub open spec fn spec_session_offset(b: Seq<u8>) -> Result<int, DatagramDecodeError> {
    if b.len() < 1 {
        Err(DatagramDecodeError::TooShort)
    } else if b[0] == CLIENT_TO_SERVER {
        if b.len() < 2 {
            Err(DatagramDecodeError::TooShort)
        } else if !(1 <= b[1] <= MAX_DATAGRAM_CREDENTIAL_BYTES) {
            Err(
                DatagramDecodeError::InvalidCredentialLength {
                    minimum: 1,
                    maximum: MAX_DATAGRAM_CREDENTIAL_BYTES,
                    actual: b[1] as usize,
                },
            )
        } else if b.len() < 2 + b[1] {
            Err(DatagramDecodeError::TooShort)
        } else {
            Ok(2 + b[1])
        }
    } else {
        Ok(1)
    }
}

/// How a recipient interprets an envelope, checking in wire order.
pub open spec fn spec_decode_datagram(b: Seq<u8>) -> Result<DatagramView, DatagramDecodeError> {
    if b.len() > MAX_DATAGRAM_ENVELOPE_BYTES {
        Err(DatagramDecodeError::TooLarge { maximum: MAX_DATAGRAM_ENVELOPE_BYTES, actual: b.len() as usize })
    } else {
        match spec_session_offset(b) {
            Err(e) => Err(e),
            Ok(offset) => if b.len() < offset + 8 {
                Err(DatagramDecodeError::TooShort)
            } else if from_be64(b.subrange(offset, offset + 8)) == 0 {
                Err(DatagramDecodeError::ZeroSessionId)
            } else {
                match spec_parse_address(b, offset + 8) {
                    Err(e) => Err(e),
                    Ok((address, end)) => {
                        let session_id = from_be64(b.subrange(offset, offset + 8));
                        let payload = b.subrange(end, b.len() as int);
                        if payload.len() > MAX_DATAGRAM_PAYLOAD_BYTES {
                            Err(
                                DatagramDecodeError::TooLarge {
                                    maximum: MAX_DATAGRAM_PAYLOAD_BYTES,
                                    actual: payload.len() as usize,
                                },
                            )
                        } else if b[0] == CLIENT_TO_SERVER {
                            Ok(
                                DatagramView::ClientToServer {
                                    credential: b.subrange(2, offset),
                                    session_id,
                                    destination: address,
                                    payload,
                                },
                            )
                        } else if b[0] == SERVER_TO_CLIENT {
                            Ok(DatagramView::ServerToClient { session_id, source: address, payload })
                        } else {
                            Err(DatagramDecodeError::UnknownDirection(b[0]))
                        }
                    },
                }
            },
        }
    }
}

/// A datagram whose encoding decodes back to itself.
pub open spec fn datagram_wf(v: DatagramView) -> bool {
    match v {
        DatagramView::ClientToServer { session_id, destination, .. } => session_id != 0
            && ip_view_wf(destination.ip),
        DatagramView::ServerToClient { session_id, source, .. } => session_id != 0 && ip_view_wf(
            source.ip,
        ),
    }
}

proof fn lemma_address_roundtrip(prefix: Seq<u8>, a: AddressView, rest: Seq<u8>)
    requires
        ip_view_wf(a.ip),
    ensures
        spec_parse_address(prefix + address_bytes(a) + rest, prefix.len() as int) == Ok::<
            (AddressView, int),
            DatagramDecodeError,
        >((a, (prefix.len() + address_bytes(a).len()) as int)),
{
    lemma_be16_roundtrip(a.port);
    let b = prefix + address_bytes(a) + rest;
    let n = prefix.len() as int;
    match a.ip {
        IpView::V4(o) => {
            assert(b.subrange(n + 1, n + 5) =~= o);
            assert(b.subrange(n + 5, n + 7) =~= be16(a.port));
        },
        IpView::V6(o) => {
            assert(b.subrange(n + 1, n + 17) =~= o);
            assert(b.subrange(n + 17, n + 19) =~= be16(a.port));
        },
    }
}

/// Encoding then decoding a datagram with a non-zero session gives it back.
pub proof fn lemma_datagram_roundtrip(v: DatagramView)
    requires
        datagram_wf(v),
        spec_encode_datagram(v) is Ok,
    ensures
        spec_decode_datagram(spec_encode_datagram(v)->Ok_0) == Ok::<DatagramView, DatagramDecodeError>(v),
{
    let b = spec_encode_datagram(v)->Ok_0;
    match v {
        DatagramView::ClientToServer { credential, session_id, destination, payload } => {
            lemma_be64_roundtrip(session_id);
            let head = seq![CLIENT_TO_SERVER, credential.len() as u8] + credential + be64(session_id);
            assert(b =~= head + address_bytes(destination) + payload);
            lemma_address_roundtrip(head, destination, payload);
            let off = 2 + credential.len() as int;
            assert(b.subrange(off, off + 8) =~= be64(session_id));
            assert(b.subrange(2, off) =~= credential);
            assert(b.subrange((head.len() + address_bytes(destination).len()) as int, b.len() as int) =~= payload);
        },
        DatagramView::ServerToClient { session_id, source, payload } => {
            lemma_be64_roundtrip(session_id);
            let head = seq![SERVER_TO_CLIENT] + be64(session_id);
            assert(b =~= head + address_bytes(source) + payload);
            lemma_address_roundtrip(head, source, payload);
            assert(b.subrange(1, 9) =~= be64(session_id));
            assert(b.subrange((head.len() + address_bytes(source).len()) as int, b.len() as int) =~= payload);
        },
    }
}

fn push_address(bytes: &mut Vec<u8>, address: &SocketAddress)
    ensures
        final(bytes)@ == old(bytes)@ + address_bytes(address@),
{
    match &address.ip {
        IpAddress::V4(octets) => {
            bytes.push(IPV4);
            push_all(bytes, octets);
        },
        IpAddress::V6(octets) => {
            bytes.push(IPV6);
            push_all(bytes, octets);
        },
    }
    push_u16(bytes, address.port);
    assert(final(bytes)@ =~= old(bytes)@ + address_bytes(address@));
}

/// Reads an address at `offset`.
fn read_address(bytes: &[u8], offset: usize) -> (address: Result<
    (SocketAddress, usize),
    DatagramDecodeError,
>)
    requires
        offset <= bytes@.len(),
    ensures
        match address {
            Ok((a, end)) => spec_parse_address(bytes@, offset as int) == Ok::<
                (AddressView, int),
                DatagramDecodeError,
            >((a@, end as int)),
            Err(e) => spec_parse_address(bytes@, offset as int) == Err::<
                (AddressView, int),
                DatagramDecodeError,
            >(e),
        },
{
    let len = bytes.len();
    if len - offset < 1 {
        return Err(DatagramDecodeError::TooShort);
    }
    let family = bytes[offset];
    if family == IPV4 {
        if len - offset < 7 {
            return Err(DatagramDecodeError::TooShort);
        }
        let mut octets = [0u8; 4];
        let mut i: usize = 0;
        while i < 4
            invariant
                i <= 4,
                offset + 7 <= bytes@.len(),
                len == bytes@.len(),
                octets@.len() == 4,
                forall|j: int| 0 <= j < i ==> octets@[j] == bytes@[offset + 1 + j],
            decreases 4 - i,
        {
            octets[i] = bytes[offset + 1 + i];
            i = i + 1;
        }
        assert(octets@ =~= bytes@.subrange(offset + 1, offset + 5));
        let port = read_u16(bytes, offset + 5);
        Ok((SocketAddress { ip: IpAddress::V4(octets), port }, offset + 7))
    } else if family == IPV6 {
        if len - offset < 19 {
            return Err(DatagramDecodeError::TooShort);
        }
        let mut octets = [0u8; 16];
        let mut i: usize = 0;
        while i < 16
            invariant
                i <= 16,
                offset + 19 <= bytes@.len(),
                len == bytes@.len(),
                octets@.len() == 16,
                forall|j: int| 0 <= j < i ==> octets@[j] == bytes@[offset + 1 + j],
            decreases 16 - i,
        {
            octets[i] = bytes[offset + 1 + i];
            i = i + 1;
        }
        assert(octets@ =~= bytes@.subrange(offset + 1, offset + 17));
        let port = read_u16(bytes, offset + 17);
        Ok((SocketAddress { ip: IpAddress::V6(octets), port }, offset + 19))
    } else {
        Err(DatagramDecodeError::InvalidAddressFamily(family))
    }
}

impl Datagram {
    /// Encodes the envelope: direction, credential (client to server only),
    /// session identifier, address, payload.
    pub fn encode(&self) -> (encoded: Result<Vec<u8>, DatagramEncodeError>)
        ensures
            match encoded {
                Ok(bytes) => spec_encode_datagram(self@) == Ok::<Seq<u8>, DatagramEncodeError>(
                    bytes@,
                ),
                Err(e) => spec_encode_datagram(self@) == Err::<Seq<u8>, DatagramEncodeError>(e),
            },
    {
        match self {
            Datagram::ClientToServer { credential, session_id, destination, payload } => {
                if credential.len() < 1 || credential.len() > MAX_DATAGRAM_CREDENTIAL_BYTES {
                    return Err(
                        DatagramEncodeError::InvalidCredentialLength {
                            minimum: 1,
                            maximum: MAX_DATAGRAM_CREDENTIAL_BYTES,
                            actual: credential.len(),
                        },
                    );
                }
                if payload.len() > MAX_DATAGRAM_PAYLOAD_BYTES {
                    return Err(
                        DatagramEncodeError::PayloadTooLarge {
                            maximum: MAX_DATAGRAM_PAYLOAD_BYTES,
                            actual: payload.len(),
                        },
                    );
                }
                let mut encoded: Vec<u8> = Vec::new();
                encoded.push(CLIENT_TO_SERVER);
                encoded.push(credential.len() as u8);
                push_all(&mut encoded, credential.as_slice());
                push_u64(&mut encoded, session_id.get());
                push_address(&mut encoded, destination);
                push_all(&mut encoded, payload.as_slice());
                assert(encoded@ =~= spec_encode_datagram(self@)->Ok_0);
                Ok(encoded)
            },
            Datagram::ServerToClient { session_id, source, payload } => {
                if payload.len() > MAX_DATAGRAM_PAYLOAD_BYTES {
                    return Err(
                        DatagramEncodeError::PayloadTooLarge {
                            maximum: MAX_DATAGRAM_PAYLOAD_BYTES,
                            actual: payload.len(),
                        },
                    );
                }
                let mut encoded: Vec<u8> = Vec::new();
                encoded.push(SERVER_TO_CLIENT);
                push_u64(&mut encoded, session_id.get());
                push_address(&mut encoded, source);
                push_all(&mut encoded, payload.as_slice());
                assert(encoded@ =~= spec_encode_datagram(self@)->Ok_0);
                Ok(encoded)
            },
        }
    }

    /// Decodes one envelope, refusing anything malformed or unbounded.
    pub fn decode(bytes: &[u8]) -> (decoded: Result<Self, DatagramDecodeError>)
        ensures
            match decoded {
                Ok(d) => spec_decode_datagram(bytes@) == Ok::<DatagramView, DatagramDecodeError>(
                    d@,
                ),
                Err(e) => spec_decode_datagram(bytes@) == Err::<DatagramView, DatagramDecodeError>(
                    e,
                ),
            },
    {
        let len = bytes.len();
        if len > MAX_DATAGRAM_ENVELOPE_BYTES {
            return Err(DatagramDecodeError::TooLarge { maximum: MAX_DATAGRAM_ENVELOPE_BYTES, actual: len });
        }
        if len < 1 {
            return Err(DatagramDecodeError::TooShort);
        }
        let direction = bytes[0];
        let mut offset: usize = 1;
        let mut credential: Vec<u8> = Vec::new();
        if direction == CLIENT_TO_SERVER {
            if len < 2 {
                return Err(DatagramDecodeError::TooShort);
            }
            let length = bytes[1] as usize;
            if length < 1 || length > MAX_DATAGRAM_CREDENTIAL_BYTES {
                return Err(
                    DatagramDecodeError::InvalidCredentialLength {
                        minimum: 1,
                        maximum: MAX_DATAGRAM_CREDENTIAL_BYTES,
                        actual: length,
                    },
                );
            }
            if len - 2 < length {
                return Err(DatagramDecodeError::TooShort);
            }
            credential = copy_range(bytes, 2, 2 + length);
            offset = 2 + length;
        }
        assert(spec_session_offset(bytes@) == Ok::<int, DatagramDecodeError>(offset as int));
        if len - offset < 8 {
            return Err(DatagramDecodeError::TooShort);
        }
        let raw_session = read_u64(bytes, offset);
        let session_id = match DatagramSessionId::new(raw_session) {
            Ok(s) => s,
            Err(_) => return Err(DatagramDecodeError::ZeroSessionId),
        };
        let (address, end) = read_address(bytes, offset + 8)?;
        let payload = copy_range(bytes, end, len);
        if payload.len() > MAX_DATAGRAM_PAYLOAD_BYTES {
            return Err(
                DatagramDecodeError::TooLarge {
                    maximum: MAX_DATAGRAM_PAYLOAD_BYTES,
                    actual: payload.len(),
                },
            );
        }
        if direction == CLIENT_TO_SERVER {
            Ok(Datagram::ClientToServer { credential, session_id, destination: address, payload })
        } else if direction == SERVER_TO_CLIENT {
            Ok(Datagram::ServerToClient { session_id, source: address, payload })
        } else {
            Err(DatagramDecodeError::UnknownDirection(direction))
        }
    }
}

} // verus!
