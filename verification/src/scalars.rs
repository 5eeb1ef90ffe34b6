//! Big-endian encodings of the fixed-width scalars used on the wire.
//!
//! Every multi-byte scalar in the format is big-endian two's-complement.
//! The spec functions below define those byte strings exactly; the exec
//! functions are verified against them.

use vstd::prelude::*;

verus! {

/// The two big-endian bytes of a 16-bit value.
pub open spec fn spec_u16_to_be(x: u16) -> Seq<u8> {
    seq![(x >> 8) as u8, x as u8]
}

/// The 16-bit value read from two big-endian bytes.
pub open spec fn spec_u16_from_be(b0: u8, b1: u8) -> u16 {
    ((b0 as u16) << 8) | (b1 as u16)
}

/// The four big-endian bytes of a 32-bit value.
pub open spec fn spec_u32_to_be(x: u32) -> Seq<u8> {
    seq![(x >> 24) as u8, (x >> 16) as u8, (x >> 8) as u8, x as u8]
}

/// The 32-bit value read from four big-endian bytes.
pub open spec fn spec_u32_from_be(b0: u8, b1: u8, b2: u8, b3: u8) -> u32 {
    ((b0 as u32) << 24) | ((b1 as u32) << 16) | ((b2 as u32) << 8) | (b3 as u32)
}

/// The eight big-endian bytes of a 64-bit value.
pub open spec fn spec_u64_to_be(x: u64) -> Seq<u8> {
    seq![
        (x >> 56) as u8,
        (x >> 48) as u8,
        (x >> 40) as u8,
        (x >> 32) as u8,
        (x >> 24) as u8,
        (x >> 16) as u8,
        (x >> 8) as u8,
        x as u8,
    ]
}

/// The 64-bit value read from eight big-endian bytes.
pub open spec fn spec_u64_from_be(
    b0: u8,
    b1: u8,
    b2: u8,
    b3: u8,
    b4: u8,
    b5: u8,
    b6: u8,
    b7: u8,
) -> u64 {
    ((b0 as u64) << 56) | ((b1 as u64) << 48) | ((b2 as u64) << 40) | ((b3 as u64) << 32) | ((
    b4 as u64) << 24) | ((b5 as u64) << 16) | ((b6 as u64) << 8) | (b7 as u64)
}

/// Decoding the two big-endian bytes of a 16-bit value gives the value back.
pub proof fn lemma_u16_be_round_trip(x: u16)
    ensures
        spec_u16_from_be(spec_u16_to_be(x)[0], spec_u16_to_be(x)[1]) == x,
{
    assert((((x >> 8) as u8) as u16) << 8 | ((x as u8) as u16) == x) by (bit_vector);
}

/// Decoding the four big-endian bytes of a 32-bit value gives the value back.
pub proof fn lemma_u32_be_round_trip(x: u32)
    ensures
        spec_u32_from_be(
            spec_u32_to_be(x)[0],
            spec_u32_to_be(x)[1],
            spec_u32_to_be(x)[2],
            spec_u32_to_be(x)[3],
        ) == x,
{
    assert((((x >> 24) as u8) as u32) << 24 | (((x >> 16) as u8) as u32) << 16 | (((x
        >> 8) as u8) as u32) << 8 | ((x as u8) as u32) == x) by (bit_vector);
}

/// Decoding the eight big-endian bytes of a 64-bit value gives the value back.
pub proof fn lemma_u64_be_round_trip(x: u64)
    ensures
        spec_u64_from_be(
            spec_u64_to_be(x)[0],
            spec_u64_to_be(x)[1],
            spec_u64_to_be(x)[2],
            spec_u64_to_be(x)[3],
            spec_u64_to_be(x)[4],
            spec_u64_to_be(x)[5],
            spec_u64_to_be(x)[6],
            spec_u64_to_be(x)[7],
        ) == x,
{
    assert((((x >> 56) as u8) as u64) << 56 | (((x >> 48) as u8) as u64) << 48 | (((x
        >> 40) as u8) as u64) << 40 | (((x >> 32) as u8) as u64) << 32 | (((x
        >> 24) as u8) as u64) << 24 | (((x >> 16) as u8) as u64) << 16 | (((x
        >> 8) as u8) as u64) << 8 | ((x as u8) as u64) == x) by (bit_vector);
}

/// Reinterpreting an i16 as bits and back gives the value back.
pub proof fn lemma_i16_bits_round_trip(x: i16)
    ensures
        ((x as u16) as i16) == x,
{
    assert(((x as u16) as i16) == x) by (bit_vector);
}

/// Reinterpreting an i32 as bits and back gives the value back.
pub proof fn lemma_i32_bits_round_trip(x: i32)
    ensures
        ((x as u32) as i32) == x,
{
    assert(((x as u32) as i32) == x) by (bit_vector);
}

/// Reinterpreting an i64 as bits and back gives the value back.
pub proof fn lemma_i64_bits_round_trip(x: i64)
    ensures
        ((x as u64) as i64) == x,
{
    assert(((x as u64) as i64) == x) by (bit_vector);
}

/// Reinterpreting an i8 as bits and back gives the value back.
pub proof fn lemma_i8_bits_round_trip(x: i8)
    ensures
        ((x as u8) as i8) == x,
{
    assert(((x as u8) as i8) == x) by (bit_vector);
}

/// Append the two big-endian bytes of a 16-bit value.
pub fn push_u16_be(buf: &mut Vec<u8>, x: u16)
    ensures
        final(buf)@ == old(buf)@ + spec_u16_to_be(x),
{
    buf.push((x >> 8) as u8);
    buf.push(x as u8);
    assert(buf@ =~= old(buf)@ + spec_u16_to_be(x));
}

/// Append the four big-endian bytes of a 32-bit value.
pub fn push_u32_be(buf: &mut Vec<u8>, x: u32)
    ensures
        final(buf)@ == old(buf)@ + spec_u32_to_be(x),
{
    buf.push((x >> 24) as u8);
    buf.push((x >> 16) as u8);
    buf.push((x >> 8) as u8);
    buf.push(x as u8);
    assert(buf@ =~= old(buf)@ + spec_u32_to_be(x));
}

/// Append the eight big-endian bytes of a 64-bit value.
pub fn push_u64_be(buf: &mut Vec<u8>, x: u64)
    ensures
        final(buf)@ == old(buf)@ + spec_u64_to_be(x),
{
    buf.push((x >> 56) as u8);
    buf.push((x >> 48) as u8);
    buf.push((x >> 40) as u8);
    buf.push((x >> 32) as u8);
    buf.push((x >> 24) as u8);
    buf.push((x >> 16) as u8);
    buf.push((x >> 8) as u8);
    buf.push(x as u8);
    assert(buf@ =~= old(buf)@ + spec_u64_to_be(x));
}

/// Read a 16-bit big-endian value at `pos`.
pub fn read_u16_be(input: &Vec<u8>, pos: usize) -> (x: u16)
    requires
        pos + 2 <= input.len(),
    ensures
        x == spec_u16_from_be(input@[pos as int], input@[pos + 1]),
{
    let b0 = input[pos];
    let b1 = input[pos + 1];
    ((b0 as u16) << 8) | (b1 as u16)
}

/// Read a 32-bit big-endian value at `pos`.
pub fn read_u32_be(input: &Vec<u8>, pos: usize) -> (x: u32)
    requires
        pos + 4 <= input.len(),
    ensures
        x == spec_u32_from_be(
            input@[pos as int],
            input@[pos + 1],
            input@[pos + 2],
            input@[pos + 3],
        ),
{
    let b0 = input[pos];
    let b1 = input[pos + 1];
    let b2 = input[pos + 2];
    let b3 = input[pos + 3];
    ((b0 as u32) << 24) | ((b1 as u32) << 16) | ((b2 as u32) << 8) | (b3 as u32)
}

/// Read a 64-bit big-endian value at `pos`.
pub fn read_u64_be(input: &Vec<u8>, pos: usize) -> (x: u64)
    requires
        pos + 8 <= input.len(),
    ensures
        x == spec_u64_from_be(
            input@[pos as int],
            input@[pos + 1],
            input@[pos + 2],
            input@[pos + 3],
            input@[pos + 4],
            input@[pos + 5],
            input@[pos + 6],
            input@[pos + 7],
        ),
{
    let b0 = input[pos];
    let b1 = input[pos + 1];
    let b2 = input[pos + 2];
    let b3 = input[pos + 3];
    let b4 = input[pos + 4];
    let b5 = input[pos + 5];
    let b6 = input[pos + 6];
    let b7 = input[pos + 7];
    ((b0 as u64) << 56) | ((b1 as u64) << 48) | ((b2 as u64) << 40) | ((b3 as u64) << 32) | ((
    b4 as u64) << 24) | ((b5 as u64) << 16) | ((b6 as u64) << 8) | (b7 as u64)
}

} // verus!
