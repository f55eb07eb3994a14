//! Network-byte-order integer encodings shared by the wire formats.
use vstd::prelude::*;

verus! {

/// Big-endian encoding of a 16-bit integer.
pub open spec fn be16(v: u16) -> Seq<u8> {
    seq![(v >> 8u16) as u8, v as u8]
}

/// Big-endian encoding of a 32-bit integer.
pub open spec fn be32(v: u32) -> Seq<u8> {
    seq![(v >> 24u32) as u8, (v >> 16u32) as u8, (v >> 8u32) as u8, v as u8]
}

/// Big-endian encoding of a 64-bit integer.
pub open spec fn be64(v: u64) -> Seq<u8> {
    seq![
        (v >> 56u64) as u8,
        (v >> 48u64) as u8,
        (v >> 40u64) as u8,
        (v >> 32u64) as u8,
        (v >> 24u64) as u8,
        (v >> 16u64) as u8,
        (v >> 8u64) as u8,
        v as u8,
    ]
}

pub open spec fn combine16(b0: u8, b1: u8) -> u16 {
    ((b0 as u16) << 8u16) | (b1 as u16)
}

pub open spec fn combine32(b0: u8, b1: u8, b2: u8, b3: u8) -> u32 {
    ((b0 as u32) << 24u32) | ((b1 as u32) << 16u32) | ((b2 as u32) << 8u32) | (b3 as u32)
}

pub open spec fn combine64(b0: u8, b1: u8, b2: u8, b3: u8, b4: u8, b5: u8, b6: u8, b7: u8) -> u64 {
    ((b0 as u64) << 56u64) | ((b1 as u64) << 48u64) | ((b2 as u64) << 40u64) | ((b3 as u64)
        << 32u64) | ((b4 as u64) << 24u64) | ((b5 as u64) << 16u64) | ((b6 as u64) << 8u64) | (
    b7 as u64)
}

/// The 16-bit integer whose big-endian encoding starts `s`.
pub open spec fn from_be16(s: Seq<u8>) -> u16 {
    combine16(s[0], s[1])
}

/// The 32-bit integer whose big-endian encoding starts `s`.
pub open spec fn from_be32(s: Seq<u8>) -> u32 {
    combine32(s[0], s[1], s[2], s[3])
}

/// The 64-bit integer whose big-endian encoding starts `s`.
pub open spec fn from_be64(s: Seq<u8>) -> u64 {
    combine64(s[0], s[1], s[2], s[3], s[4], s[5], s[6], s[7])
}

pub proof fn lemma_combine16(b0: u8, b1: u8)
    ensures
        (combine16(b0, b1) >> 8u16) as u8 == b0,
        combine16(b0, b1) as u8 == b1,
        combine16(b0, b1) == b0 as int * 256 + b1 as int,
{
    assert((((b0 as u16) << 8u16) | (b1 as u16)) >> 8u16 == b0 as u16) by (bit_vector);
    assert((((b0 as u16) << 8u16) | (b1 as u16)) as u8 == b1) by (bit_vector);
    assert((((b0 as u16) << 8u16) | (b1 as u16)) == (b0 as u16) * 256 + (b1 as u16))
        by (bit_vector);
}

pub proof fn lemma_be16_roundtrip(v: u16)
    ensures
        from_be16(be16(v)) == v,
        be16(v).len() == 2,
{
    assert(((((v >> 8u16) as u8) as u16) << 8u16) | ((v as u8) as u16) == v) by (bit_vector);
}

pub proof fn lemma_from_be16_roundtrip(s: Seq<u8>)
    requires
        s.len() == 2,
    ensures
        be16(from_be16(s)) == s,
{
    lemma_combine16(s[0], s[1]);
    assert(be16(from_be16(s)) =~= s);
}

pub proof fn lemma_be32_roundtrip(v: u32)
    ensures
        from_be32(be32(v)) == v,
        be32(v).len() == 4,
{
    assert(((((v >> 24u32) as u8) as u32) << 24u32) | ((((v >> 16u32) as u8) as u32) << 16u32)
        | ((((v >> 8u32) as u8) as u32) << 8u32) | ((v as u8) as u32) == v) by (bit_vector);
}

pub proof fn lemma_from_be32_roundtrip(s: Seq<u8>)
    requires
        s.len() == 4,
    ensures
        be32(from_be32(s)) == s,
{
    let (b0, b1, b2, b3) = (s[0], s[1], s[2], s[3]);
    let v = combine32(b0, b1, b2, b3);
    assert((v >> 24u32) as u8 == b0 && (v >> 16u32) as u8 == b1 && (v >> 8u32) as u8 == b2 && v
        as u8 == b3) by (bit_vector)
        requires
            v == ((b0 as u32) << 24u32) | ((b1 as u32) << 16u32) | ((b2 as u32) << 8u32) | (
            b3 as u32),
    ;
    assert(be32(from_be32(s)) =~= s);
}

pub proof fn lemma_be64_roundtrip(v: u64)
    ensures
        from_be64(be64(v)) == v,
        be64(v).len() == 8,
{
    assert(((((v >> 56u64) as u8) as u64) << 56u64) | ((((v >> 48u64) as u8) as u64) << 48u64)
        | ((((v >> 40u64) as u8) as u64) << 40u64) | ((((v >> 32u64) as u8) as u64) << 32u64)
        | ((((v >> 24u64) as u8) as u64) << 24u64) | ((((v >> 16u64) as u8) as u64) << 16u64)
        | ((((v >> 8u64) as u8) as u64) << 8u64) | ((v as u8) as u64) == v) by (bit_vector);
}

pub proof fn lemma_from_be64_roundtrip(s: Seq<u8>)
    requires
        s.len() == 8,
    ensures
        be64(from_be64(s)) == s,
{
    let (b0, b1, b2, b3, b4, b5, b6, b7) = (s[0], s[1], s[2], s[3], s[4], s[5], s[6], s[7]);
    let v = combine64(b0, b1, b2, b3, b4, b5, b6, b7);
    assert((v >> 56u64) as u8 == b0 && (v >> 48u64) as u8 == b1 && (v >> 40u64) as u8 == b2 && (v
        >> 32u64) as u8 == b3 && (v >> 24u64) as u8 == b4 && (v >> 16u64) as u8 == b5 && (v
        >> 8u64) as u8 == b6 && v as u8 == b7) by (bit_vector)
        requires
            v == ((b0 as u64) << 56u64) | ((b1 as u64) << 48u64) | ((b2 as u64) << 40u64) | ((
            b3 as u64) << 32u64) | ((b4 as u64) << 24u64) | ((b5 as u64) << 16u64) | ((b6 as u64)
                << 8u64) | (b7 as u64),
    ;
    assert(be64(from_be64(s)) =~= s);
}

/// Appends the big-endian encoding of `v`.
pub fn push_u16(out: &mut Vec<u8>, v: u16)
    ensures
        final(out)@ == old(out)@ + be16(v),
{
    out.push((v >> 8u16) as u8);
    out.push(v as u8);
    assert(final(out)@ =~= old(out)@ + be16(v));
}

/// Appends the big-endian encoding of `v`.
pub fn push_u32(out: &mut Vec<u8>, v: u32)
    ensures
        final(out)@ == old(out)@ + be32(v),
{
    out.push((v >> 24u32) as u8);
    out.push((v >> 16u32) as u8);
    out.push((v >> 8u32) as u8);
    out.push(v as u8);
    assert(final(out)@ =~= old(out)@ + be32(v));
}

/// Appends the big-endian encoding of `v`.
pub fn push_u64(out: &mut Vec<u8>, v: u64)
    ensures
        final(out)@ == old(out)@ + be64(v),
{
    out.push((v >> 56u64) as u8);
    out.push((v >> 48u64) as u8);
    out.push((v >> 40u64) as u8);
    out.push((v >> 32u64) as u8);
    out.push((v >> 24u64) as u8);
    out.push((v >> 16u64) as u8);
    out.push((v >> 8u64) as u8);
    out.push(v as u8);
    assert(final(out)@ =~= old(out)@ + be64(v));
}

/// Appends every byte of `bytes`.
pub fn push_all(out: &mut Vec<u8>, bytes: &[u8])
    ensures
        final(out)@ == old(out)@ + bytes@,
{
    let ghost start = out@;
    let mut i: usize = 0;
    while i < bytes.len()
        invariant
            i <= bytes.len(),
            out@ == start + bytes@.subrange(0, i as int),
        decreases bytes.len() - i,
    {
        out.push(bytes[i]);
        i = i + 1;
        assert(out@ =~= start + bytes@.subrange(0, i as int));
    }
    assert(bytes@.subrange(0, i as int) =~= bytes@);
}

/// Reads a big-endian 16-bit integer at `offset`.
pub fn read_u16(bytes: &[u8], offset: usize) -> (v: u16)
    requires
        offset + 2 <= bytes@.len(),
    ensures
        v == from_be16(bytes@.subrange(offset as int, offset + 2)),
{
    ((bytes[offset] as u16) << 8u16) | (bytes[offset + 1] as u16)
}

/// Reads a big-endian 32-bit integer at `offset`.
pub fn read_u32(bytes: &[u8], offset: usize) -> (v: u32)
    requires
        offset + 4 <= bytes@.len(),
    ensures
        v == from_be32(bytes@.subrange(offset as int, offset + 4)),
{
    ((bytes[offset] as u32) << 24u32) | ((bytes[offset + 1] as u32) << 16u32) | ((bytes[offset
        + 2] as u32) << 8u32) | (bytes[offset + 3] as u32)
}

/// Reads a big-endian 64-bit integer at `offset`.
pub fn read_u64(bytes: &[u8], offset: usize) -> (v: u64)
    requires
        offset + 8 <= bytes@.len(),
    ensures
        v == from_be64(bytes@.subrange(offset as int, offset + 8)),
{
    ((bytes[offset] as u64) << 56u64) | ((bytes[offset + 1] as u64) << 48u64) | ((bytes[offset
        + 2] as u64) << 40u64) | ((bytes[offset + 3] as u64) << 32u64) | ((bytes[offset + 4] as u64)
        << 24u64) | ((bytes[offset + 5] as u64) << 16u64) | ((bytes[offset + 6] as u64) << 8u64) | (
    bytes[offset + 7] as u64)
}

/// Copies the bytes in `from..to` into a new vector.
pub fn copy_range(bytes: &[u8], from: usize, to: usize) -> (out: Vec<u8>)
    requires
        from <= to <= bytes@.len(),
    ensures
        out@ == bytes@.subrange(from as int, to as int),
{
    let mut out: Vec<u8> = Vec::new();
    let mut i: usize = from;
    while i < to
        invariant
            from <= i <= to <= bytes@.len(),
            out@ == bytes@.subrange(from as int, i as int),
        decreases to - i,
    {
        out.push(bytes[i]);
        i = i + 1;
        assert(out@ =~= bytes@.subrange(from as int, i as int));
    }
    out
}

/// Copies sixteen bytes starting at `offset` into an array.
pub fn read_array16(bytes: &[u8], offset: usize) -> (out: [u8; 16])
    requires
        offset + 16 <= bytes@.len(),
    ensures
        out@ == bytes@.subrange(offset as int, offset + 16),
{
    let mut out = [0u8; 16];
    let len = bytes.len();
    let mut i: usize = 0;
    while i < 16
        invariant
            i <= 16,
            offset + 16 <= bytes@.len(),
            len == bytes@.len(),
            out@.len() == 16,
            forall|j: int| 0 <= j < i ==> out@[j] == bytes@[offset + j],
        decreases 16 - i,
    {
        out[i] = bytes[offset + i];
        i = i + 1;
    }
    assert(out@ =~= bytes@.subrange(offset as int, offset + 16));
    out
}

/// Copies thirty-two bytes starting at `offset` into an array.
pub fn read_array32(bytes: &[u8], offset: usize) -> (out: [u8; 32])
    requires
        offset + 32 <= bytes@.len(),
    ensures
        out@ == bytes@.subrange(offset as int, offset + 32),
{
    let mut out = [0u8; 32];
    let len = bytes.len();
    let mut i: usize = 0;
    while i < 32
        invariant
            i <= 32,
            offset + 32 <= bytes@.len(),
            len == bytes@.len(),
            out@.len() == 32,
            forall|j: int| 0 <= j < i ==> out@[j] == bytes@[offset + j],
        decreases 32 - i,
    {
        out[i] = bytes[offset + i];
        i = i + 1;
    }
    assert(out@ =~= bytes@.subrange(offset as int, offset + 32));
    out
}

/// Whether every byte of the sequence is zero.
pub open spec fn all_zero(s: Seq<u8>) -> bool {
    forall|i: int| 0 <= i < s.len() ==> s[i] == 0
}

/// Whether every byte of the array is zero.
pub fn is_all_zero16(bytes: &[u8; 16]) -> (zero: bool)
    ensures
        zero == all_zero(bytes@),
{
    let mut i: usize = 0;
    while i < 16
        invariant
            i <= 16,
            bytes@.len() == 16,
            forall|j: int| 0 <= j < i ==> bytes@[j] == 0,
        decreases 16 - i,
    {
        if bytes[i] != 0 {
            return false;
        }
        i = i + 1;
    }
    true
}

} // verus!
