//! Fixed-width big-endian integer split and combine helpers.

use vstd::prelude::*;

verus! {

/// The big-endian value of two bytes.
pub open spec fn be16(hi: u8, lo: u8) -> int {
    hi as int * 256 + lo as int
}

/// The big-endian value of four bytes.
pub open spec fn be32(b0: u8, b1: u8, b2: u8, b3: u8) -> int {
    b0 as int * 0x100_0000 + b1 as int * 0x1_0000 + b2 as int * 0x100 + b3 as int
}

/// The two big-endian bytes of a 16-bit value.
pub open spec fn be16_bytes(v: u16) -> Seq<u8> {
    seq![(v / 256) as u8, (v % 256) as u8]
}

/// The four big-endian bytes of a 32-bit value.
pub open spec fn be32_bytes(v: u32) -> Seq<u8> {
    seq![
        (v / 0x100_0000) as u8,
        ((v / 0x1_0000) % 256) as u8,
        ((v / 0x100) % 256) as u8,
        (v % 256) as u8,
    ]
}

/// Take two sequential bytes starting from `idx` in `buffer` and return them as one big-endian number.
pub fn two_byte_extraction(buffer: &[u8], idx: usize) -> (r: u16)
    requires
        idx + 1 < buffer@.len(),
    ensures
        r == be16(buffer@[idx as int], buffer@[idx + 1]),
{
    two_byte_combine(buffer[idx], buffer[idx + 1])
}

/// Concatenate two bytes into a big-endian 16-bit number.
pub fn two_byte_combine(item_1: u8, item_2: u8) -> (r: u16)
    ensures
        r == be16(item_1, item_2),
{
    let r = ((item_1 as u16) << 8) | (item_2 as u16);
    assert(((item_1 as u16) << 8) | (item_2 as u16) == item_1 as u16 * 256 + item_2 as u16)
        by (bit_vector);
    r
}

/// Split a 16-bit number into its two big-endian bytes.
pub fn two_byte_split(num: u16) -> (r: (u8, u8))
    ensures
        r.0 == num / 256,
        r.1 == num % 256,
        be16(r.0, r.1) == num,
{
    let hi = (num >> 8) as u8;
    let lo = (num & 0xff) as u8;
    assert(num >> 8 == num / 256) by (bit_vector);
    assert(num & 0xff == num % 256) by (bit_vector);
    (hi, lo)
}

/// Split a 32-bit number into its four big-endian bytes.
pub fn four_byte_split(num: u32) -> (r: (u8, u8, u8, u8))
    ensures
        seq![r.0, r.1, r.2, r.3] == be32_bytes(num),
        be32(r.0, r.1, r.2, r.3) == num,
{
    assert(num >> 24 == num / 0x100_0000) by (bit_vector);
    assert((num >> 16) & 0xff == (num / 0x1_0000) % 256) by (bit_vector);
    assert((num >> 8) & 0xff == (num / 0x100) % 256) by (bit_vector);
    assert(num & 0xff == num % 256) by (bit_vector);
    assert(num / 0x100_0000 < 256) by (bit_vector);
    let r = ((num >> 24) as u8, ((num >> 16) & 0xff) as u8, ((num >> 8) & 0xff) as u8, (num & 0xff) as u8);
    assert(num == (num / 0x100_0000) * 0x100_0000 + ((num / 0x1_0000) % 256) * 0x1_0000
        + ((num / 0x100) % 256) * 0x100 + num % 256) by (bit_vector);
    r
}

/// Concatenate four bytes into a big-endian 32-bit number.
pub fn four_byte_combine(item_1: u8, item_2: u8, item_3: u8, item_4: u8) -> (r: u32)
    ensures
        r == be32(item_1, item_2, item_3, item_4),
{
    let r = ((item_1 as u32) << 24) | ((item_2 as u32) << 16) | ((item_3 as u32) << 8) | (item_4 as u32);
    assert(((item_1 as u32) << 24) | ((item_2 as u32) << 16) | ((item_3 as u32) << 8) | (item_4 as u32)
        == item_1 as u32 * 0x100_0000 + item_2 as u32 * 0x1_0000 + item_3 as u32 * 0x100 + item_4 as u32)
        by (bit_vector);
    r
}

/// Write the two big-endian bytes of `value` at `index` and `index + 1` of `buffer`.
pub fn apply_split_bytes(buffer: &mut [u8], value: u16, index: usize)
    requires
        index + 1 < old(buffer)@.len(),
    ensures
        final(buffer)@ == old(buffer)@.update(index as int, (value / 256) as u8).update(
            index + 1,
            (value % 256) as u8,
        ),
{
    let val = two_byte_split(value);
    let next = index + 1;
    buffer[index] = val.0;
    buffer[next] = val.1;
}

/// Append the two big-endian bytes of `value` to `buffer`.
pub fn push_split_bytes(buffer: &mut Vec<u8>, value: u16)
    ensures
        final(buffer)@ == old(buffer)@ + be16_bytes(value),
{
    let val = two_byte_split(value);
    buffer.push(val.0);
    buffer.push(val.1);
}

/// Reading back the two bytes of a 16-bit value gives the value.
pub proof fn lemma_be16_bytes(v: u16)
    ensures
        be16_bytes(v).len() == 2,
        be16(be16_bytes(v)[0], be16_bytes(v)[1]) == v,
{
}

/// Reading back the four bytes of a 32-bit value gives the value.
pub proof fn lemma_be32_bytes(v: u32)
    ensures
        be32_bytes(v).len() == 4,
        be32(be32_bytes(v)[0], be32_bytes(v)[1], be32_bytes(v)[2], be32_bytes(v)[3]) == v,
{
    let b0 = (v / 0x100_0000) as u8;
    let b1 = ((v / 0x1_0000) % 256) as u8;
    let b2 = ((v / 0x100) % 256) as u8;
    let b3 = (v % 256) as u8;
    assert(v / 0x100_0000 < 256) by (bit_vector);
    assert(v == (v / 0x100_0000) * 0x100_0000 + ((v / 0x1_0000) % 256) * 0x1_0000
        + ((v / 0x100) % 256) * 0x100 + v % 256) by (bit_vector);
}

} // verus!
