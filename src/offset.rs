use vstd::prelude::*;
use crate::encoder::hex_pair;
use crate::format::{offset_text, SPACE};

verus! {

/// The four bytes of `n`, high first, split into nibbles, are the eight
/// hex digits of the offset column.
proof fn lemma_offset_digits(n: u32)
    ensures
        ((n >> 24) & 0xff) / 16 == n / 0x10000000 % 16,
        ((n >> 24) & 0xff) % 16 == n / 0x1000000 % 16,
        ((n >> 16) & 0xff) / 16 == n / 0x100000 % 16,
        ((n >> 16) & 0xff) % 16 == n / 0x10000 % 16,
        ((n >> 8) & 0xff) / 16 == n / 0x1000 % 16,
        ((n >> 8) & 0xff) % 16 == n / 0x100 % 16,
        (n & 0xff) / 16 == n / 0x10 % 16,
        (n & 0xff) % 16 == n % 16,
{
    assert(((n >> 24) & 0xff) / 16 == n / 0x10000000 % 16) by (bit_vector);
    assert(((n >> 24) & 0xff) % 16 == n / 0x1000000 % 16) by (bit_vector);
    assert(((n >> 16) & 0xff) / 16 == n / 0x100000 % 16) by (bit_vector);
    assert(((n >> 16) & 0xff) % 16 == n / 0x10000 % 16) by (bit_vector);
    assert(((n >> 8) & 0xff) / 16 == n / 0x1000 % 16) by (bit_vector);
    assert(((n >> 8) & 0xff) % 16 == n / 0x100 % 16) by (bit_vector);
    assert((n & 0xff) / 16 == n / 0x10 % 16) by (bit_vector);
    assert((n & 0xff) % 16 == n % 16) by (bit_vector);
}

/// The offset column of a count `v` is the hex rendering of the four bytes
/// of `v` modulo 2^32, high first, then two spaces.
pub proof fn lemma_offset_text(v: nat, n: u32)
    requires
        n == v % 0x1_0000_0000,
    ensures
        (n >> 24) & 0xff < 256,
        (n >> 16) & 0xff < 256,
        (n >> 8) & 0xff < 256,
        n & 0xff < 256,
        offset_text(v) =~= hex_pair(((n >> 24) & 0xff) as u8) + hex_pair(((n >> 16) & 0xff) as u8)
            + hex_pair(((n >> 8) & 0xff) as u8) + hex_pair((n & 0xff) as u8) + seq![SPACE, SPACE],
{
    reveal(offset_text);
    lemma_offset_digits(n);
    assert((n >> 24) & 0xff < 256) by (bit_vector);
    assert((n >> 16) & 0xff < 256) by (bit_vector);
    assert((n >> 8) & 0xff < 256) by (bit_vector);
    assert(n & 0xff < 256) by (bit_vector);
}

} // verus!
