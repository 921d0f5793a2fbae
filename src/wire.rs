//! Little-endian integer layouts used on the wire.
use vstd::prelude::*;

verus! {

/// The two bytes of `v`, least significant first.
pub open spec fn u16_le(v: u16) -> Seq<u8> {
    seq![(v & 0xff) as u8, (v >> 8u16) as u8]
}

/// The four bytes of `v`, least significant first.
pub open spec fn u32_le(v: u32) -> Seq<u8> {
    seq![
        (v & 0xff) as u8,
        ((v >> 8u32) & 0xff) as u8,
        ((v >> 16u32) & 0xff) as u8,
        (v >> 24u32) as u8,
    ]
}

/// The eight bytes of `v`, least significant first.
pub open spec fn u64_le(v: u64) -> Seq<u8> {
    seq![
        (v & 0xff) as u8,
        ((v >> 8u64) & 0xff) as u8,
        ((v >> 16u64) & 0xff) as u8,
        ((v >> 24u64) & 0xff) as u8,
        ((v >> 32u64) & 0xff) as u8,
        ((v >> 40u64) & 0xff) as u8,
        ((v >> 48u64) & 0xff) as u8,
        (v >> 56u64) as u8,
    ]
}

/// Two's complement layout of a signed 32-bit integer.
pub open spec fn i32_le(v: i32) -> Seq<u8> {
    u32_le(v as u32)
}

/// Two's complement layout of a signed 64-bit integer.
pub open spec fn i64_le(v: i64) -> Seq<u8> {
    u64_le(v as u64)
}

/// The 16-bit integer whose layout starts at `b[0]`.
pub open spec fn u16_at(b: Seq<u8>) -> u16
    recommends
        b.len() >= 2,
{
    ((b[0] as u16) | ((b[1] as u16) << 8u16)) as u16
}

/// The 64-bit integer whose layout starts at `b[0]`.
pub open spec fn u64_at(b: Seq<u8>) -> u64
    recommends
        b.len() >= 8,
{
    u64_of_bytes(b[0], b[1], b[2], b[3], b[4], b[5], b[6], b[7])
}

pub open spec fn u64_of_bytes(
    b0: u8,
    b1: u8,
    b2: u8,
    b3: u8,
    b4: u8,
    b5: u8,
    b6: u8,
    b7: u8,
) -> u64 {
    ((b0 as u64) | ((b1 as u64) << 8u64) | ((b2 as u64) << 16u64) | ((b3 as u64) << 24u64) | ((
    b4 as u64) << 32u64) | ((b5 as u64) << 40u64) | ((b6 as u64) << 48u64) | ((b7 as u64)
        << 56u64)) as u64
}

/// The signed 64-bit integer whose layout starts at `b[0]`.
pub open spec fn i64_at(b: Seq<u8>) -> i64
    recommends
        b.len() >= 8,
{
    u64_at(b) as i64
}

pub proof fn lemma_u16_round_trip(v: u16)
    ensures
        u16_at(u16_le(v)) == v,
{
    let b0 = (v & 0xff) as u8;
    let b1 = (v >> 8u16) as u8;
    assert(((b0 as u16) | ((b1 as u16) << 8u16)) as u16 == v) by (bit_vector)
        requires
            b0 == (v & 0xff) as u8,
            b1 == (v >> 8u16) as u8,
    ;
}

pub proof fn lemma_u64_round_trip(v: u64)
    ensures
        u64_at(u64_le(v)) == v,
{
    assert(u64_of_bytes(
        (v & 0xff) as u8,
        ((v >> 8u64) & 0xff) as u8,
        ((v >> 16u64) & 0xff) as u8,
        ((v >> 24u64) & 0xff) as u8,
        ((v >> 32u64) & 0xff) as u8,
        ((v >> 40u64) & 0xff) as u8,
        ((v >> 48u64) & 0xff) as u8,
        (v >> 56u64) as u8,
    ) == v) by (bit_vector);
}

pub proof fn lemma_i64_round_trip(v: i64)
    ensures
        i64_at(i64_le(v)) == v,
{
    lemma_u64_round_trip(v as u64);
    assert((v as u64) as i64 == v) by (bit_vector);
}

/// Appends the layout of `v` to `out`.
pub fn push_u16_le(out: &mut Vec<u8>, v: u16)
    ensures
        final(out)@ == old(out)@ + u16_le(v),
{
    out.push((v & 0xff) as u8);
    out.push((v >> 8u16) as u8);
    assert(final(out)@ =~= old(out)@ + u16_le(v));
}

/// Appends the layout of `v` to `out`.
pub fn push_i32_le(out: &mut Vec<u8>, v: i32)
    ensures
        final(out)@ == old(out)@ + i32_le(v),
{
    let u = v as u32;
    out.push((u & 0xff) as u8);
    out.push(((u >> 8u32) & 0xff) as u8);
    out.push(((u >> 16u32) & 0xff) as u8);
    out.push((u >> 24u32) as u8);
    assert(final(out)@ =~= old(out)@ + i32_le(v));
}

/// Appends the layout of `v` to `out`.
pub fn push_i64_le(out: &mut Vec<u8>, v: i64)
    ensures
        final(out)@ == old(out)@ + i64_le(v),
{
    let u = v as u64;
    out.push((u & 0xff) as u8);
    out.push(((u >> 8u64) & 0xff) as u8);
    out.push(((u >> 16u64) & 0xff) as u8);
    out.push(((u >> 24u64) & 0xff) as u8);
    out.push(((u >> 32u64) & 0xff) as u8);
    out.push(((u >> 40u64) & 0xff) as u8);
    out.push(((u >> 48u64) & 0xff) as u8);
    out.push((u >> 56u64) as u8);
    assert(final(out)@ =~= old(out)@ + i64_le(v));
}

/// Appends every byte of `b` to `out`.
pub fn push_all(out: &mut Vec<u8>, b: &[u8])
    ensures
        final(out)@ == old(out)@ + b@,
{
    let ghost start = out@;
    let mut i: usize = 0;
    while i < b.len()
        invariant
            i <= b@.len(),
            out@ == start + b@.subrange(0, i as int),
        decreases b@.len() - i,
    {
        out.push(b[i]);
        i = i + 1;
        assert(out@ =~= start + b@.subrange(0, i as int));
    }
    assert(b@.subrange(0, b@.len() as int) =~= b@);
}

/// Reads the 16-bit integer laid out at `b[at]`.
pub fn read_u16_le(b: &[u8], at: usize) -> (r: u16)
    requires
        at + 2 <= b@.len(),
    ensures
        r == u16_at(b@.subrange(at as int, b@.len() as int)),
{
    ((b[at] as u16) | ((b[at + 1] as u16) << 8u16)) as u16
}

/// Reads the signed 64-bit integer laid out at `b[at]`.
pub fn read_i64_le(b: &[u8], at: usize) -> (r: i64)
    requires
        at + 8 <= b@.len(),
    ensures
        r == i64_at(b@.subrange(at as int, b@.len() as int)),
{
    let u = ((b[at] as u64) | ((b[at + 1] as u64) << 8u64) | ((b[at + 2] as u64) << 16u64) | ((
    b[at + 3] as u64) << 24u64) | ((b[at + 4] as u64) << 32u64) | ((b[at + 5] as u64) << 40u64)
        | ((b[at + 6] as u64) << 48u64) | ((b[at + 7] as u64) << 56u64)) as u64;
    u as i64
}

} // verus!
