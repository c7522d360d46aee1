//! Little-endian byte encoding of the fixed-width integers the chunk
//! format is written in.

use vstd::prelude::*;

verus! {

/// The four little-endian bytes of a 32-bit value.
pub open spec fn spec_u32_to_le(v: u32) -> Seq<u8> {
    seq![v as u8, (v >> 8u32) as u8, (v >> 16u32) as u8, (v >> 24u32) as u8]
}

/// The 32-bit value four little-endian bytes hold.
pub open spec fn spec_u32_from_le(b0: u8, b1: u8, b2: u8, b3: u8) -> u32 {
    (b0 as u32) | ((b1 as u32) << 8u32) | ((b2 as u32) << 16u32) | ((b3 as u32) << 24u32)
}

/// The two little-endian bytes of a 16-bit value.
pub open spec fn spec_u16_to_le(v: u16) -> Seq<u8> {
    seq![v as u8, (v >> 8u16) as u8]
}

/// The 16-bit value two little-endian bytes hold.
pub open spec fn spec_u16_from_le(b0: u8, b1: u8) -> u16 {
    (b0 as u16) | ((b1 as u16) << 8u16)
}

/// Reading four written bytes gives the value back, and writing a read
/// value gives the bytes back.
pub proof fn lemma_u32_le_round_trip(v: u32, b0: u8, b1: u8, b2: u8, b3: u8)
    ensures
        spec_u32_from_le(
            spec_u32_to_le(v)[0],
            spec_u32_to_le(v)[1],
            spec_u32_to_le(v)[2],
            spec_u32_to_le(v)[3],
        ) == v,
        spec_u32_to_le(spec_u32_from_le(b0, b1, b2, b3)) =~= seq![b0, b1, b2, b3],
{
    assert((v as u8 as u32) | (((v >> 8u32) as u8 as u32) << 8u32) | (((v >> 16u32) as u8 as u32)
        << 16u32) | (((v >> 24u32) as u8 as u32) << 24u32) == v) by (bit_vector);
    assert(((b0 as u32) | ((b1 as u32) << 8u32) | ((b2 as u32) << 16u32) | ((b3 as u32) << 24u32))
        as u8 == b0) by (bit_vector);
    assert((((b0 as u32) | ((b1 as u32) << 8u32) | ((b2 as u32) << 16u32) | ((b3 as u32)
        << 24u32)) >> 8u32) as u8 == b1) by (bit_vector);
    assert((((b0 as u32) | ((b1 as u32) << 8u32) | ((b2 as u32) << 16u32) | ((b3 as u32)
        << 24u32)) >> 16u32) as u8 == b2) by (bit_vector);
    assert((((b0 as u32) | ((b1 as u32) << 8u32) | ((b2 as u32) << 16u32) | ((b3 as u32)
        << 24u32)) >> 24u32) as u8 == b3) by (bit_vector);
}

/// The 16-bit round trip, both directions.
pub proof fn lemma_u16_le_round_trip(v: u16, b0: u8, b1: u8)
    ensures
        spec_u16_from_le(spec_u16_to_le(v)[0], spec_u16_to_le(v)[1]) == v,
        spec_u16_to_le(spec_u16_from_le(b0, b1)) =~= seq![b0, b1],
{
    assert((v as u8 as u16) | (((v >> 8u16) as u8 as u16) << 8u16) == v) by (bit_vector);
    assert(((b0 as u16) | ((b1 as u16) << 8u16)) as u8 == b0) by (bit_vector);
    assert((((b0 as u16) | ((b1 as u16) << 8u16)) >> 8u16) as u8 == b1) by (bit_vector);
}

/// Appends a 32-bit value to a byte buffer, little-endian.
pub fn push_u32_le(buf: &mut Vec<u8>, v: u32)
    ensures
        final (buf)@ == old(buf)@ + spec_u32_to_le(v),
{
    buf.push(#[verifier::truncate] (v as u8));
    buf.push(#[verifier::truncate] ((v >> 8u32) as u8));
    buf.push(#[verifier::truncate] ((v >> 16u32) as u8));
    buf.push(#[verifier::truncate] ((v >> 24u32) as u8));
    proof {
        assert(buf@ =~= old(buf)@ + spec_u32_to_le(v));
    }
}

/// Appends a 16-bit value to a byte buffer, little-endian.
pub fn push_u16_le(buf: &mut Vec<u8>, v: u16)
    ensures
        final (buf)@ == old(buf)@ + spec_u16_to_le(v),
{
    buf.push(#[verifier::truncate] (v as u8));
    buf.push(#[verifier::truncate] ((v >> 8u16) as u8));
    proof {
        assert(buf@ =~= old(buf)@ + spec_u16_to_le(v));
    }
}

/// Reads the 32-bit value at byte offset `at`.
pub fn read_u32_le(bytes: &[u8], at: usize) -> (r: u32)
    requires
        at + 4 <= bytes@.len(),
    ensures
        r == spec_u32_from_le(
            bytes@[at as int],
            bytes@[at as int + 1],
            bytes@[at as int + 2],
            bytes@[at as int + 3],
        ),
{
    let b0 = bytes[at];
    let b1 = bytes[at + 1];
    let b2 = bytes[at + 2];
    let b3 = bytes[at + 3];
    (b0 as u32) | ((b1 as u32) << 8u32) | ((b2 as u32) << 16u32) | ((b3 as u32) << 24u32)
}

/// Reads the 16-bit value at byte offset `at`.
pub fn read_u16_le(bytes: &[u8], at: usize) -> (r: u16)
    requires
        at + 2 <= bytes@.len(),
    ensures
        r == spec_u16_from_le(bytes@[at as int], bytes@[at as int + 1]),
{
    let b0 = bytes[at];
    let b1 = bytes[at + 1];
    (b0 as u16) | ((b1 as u16) << 8u16)
}

} // verus!
