//! Big-endian reads and writes of 16- and 32-bit words.

use vstd::prelude::*;

verus! {

/// The value of two bytes read as a big-endian 16-bit word.
pub open spec fn be16(hi: u8, lo: u8) -> int {
    hi as int * 256 + lo as int
}

/// The value of four bytes read as a big-endian 32-bit word.
pub open spec fn be32(a: u8, b: u8, c: u8, d: u8) -> int {
    a as int * 16777216 + b as int * 65536 + c as int * 256 + d as int
}

/// The two bytes of a 16-bit word, most significant first.
pub open spec fn u16_bytes(n: u16) -> Seq<u8> {
    seq![(n / 256) as u8, (n % 256) as u8]
}

/// The four bytes of a 32-bit word, most significant first.
pub open spec fn u32_bytes(n: u32) -> Seq<u8> {
    seq![
        (n / 16777216) as u8,
        ((n / 65536) % 256) as u8,
        ((n / 256) % 256) as u8,
        (n % 256) as u8,
    ]
}

pub fn concat_two_u8s(a: u8, b: u8) -> (r: u16)
    ensures
        r == be16(a, b),
{
    let r = (a as u16) << 8 | b as u16;
    assert(r == (a as u16) * 256 + (b as u16)) by (bit_vector)
        requires
            r == (a as u16) << 8 | b as u16,
    ;
    r
}

pub fn concat_four_u8s(a: u8, b: u8, c: u8, d: u8) -> (r: u32)
    ensures
        r == be32(a, b, c, d),
{
    let r = (a as u32) << 24 | (b as u32) << 16 | (c as u32) << 8 | d as u32;
    assert(r == (a as u32) * 16777216 + (b as u32) * 65536 + (c as u32) * 256 + (d as u32))
        by (bit_vector)
        requires
            r == (a as u32) << 24 | (b as u32) << 16 | (c as u32) << 8 | d as u32,
    ;
    r
}

pub fn split_two_bytes(n: u16) -> (r: (u8, u8))
    ensures
        seq![r.0, r.1] == u16_bytes(n),
        be16(r.0, r.1) == n,
{
    ((n / 256) as u8, (n % 256) as u8)
}

pub fn extract_next_sixteen_bits_from_buffer(buffer: &[u8]) -> (r: (u16, &[u8]))
    requires
        buffer@.len() >= 2,
    ensures
        r.0 == be16(buffer@[0], buffer@[1]),
        r.1@ == buffer@.subrange(2, buffer@.len() as int),
{
    let (n, rest) = buffer.split_at(2);
    (concat_two_u8s(n[0], n[1]), rest)
}

pub fn extract_next_thirty_two_bits_from_buffer(buffer: &[u8]) -> (r: (u32, &[u8]))
    requires
        buffer@.len() >= 4,
    ensures
        r.0 == be32(buffer@[0], buffer@[1], buffer@[2], buffer@[3]),
        r.1@ == buffer@.subrange(4, buffer@.len() as int),
{
    let (n, rest) = buffer.split_at(4);
    (concat_four_u8s(n[0], n[1], n[2], n[3]), rest)
}

/// Appends the two bytes of `n`, most significant first.
pub fn push_u16_to_u8_vec(v: &mut Vec<u8>, n: u16)
    ensures
        final(v)@ == old(v)@ + u16_bytes(n),
{
    let (hi, lo) = split_two_bytes(n);
    v.push(hi);
    v.push(lo);
    assert(final(v)@ =~= old(v)@ + u16_bytes(n));
}

/// Appends the four bytes of `n`, most significant first.
pub fn push_u32_to_u8_vec(v: &mut Vec<u8>, n: u32)
    ensures
        final(v)@ == old(v)@ + u32_bytes(n),
{
    v.push((n / 16777216) as u8);
    v.push(((n / 65536) % 256) as u8);
    v.push(((n / 256) % 256) as u8);
    v.push((n % 256) as u8);
    assert(final(v)@ =~= old(v)@ + u32_bytes(n));
}

} // verus!
