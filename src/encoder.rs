use vstd::prelude::*;

verus! {

/// Lowercase hexadecimal digits, indexed by nibble value.
pub const HEX_TABLE: [u8; 16] = [
    48, 49, 50, 51, 52, 53, 54, 55, 56, 57, 97, 98, 99, 100, 101, 102,
];

/// The placeholder shown in the sidebar for a byte that is not printable.
pub const PERIOD: u8 = 46;

/// The ASCII digit of a nibble: `0`-`9`, then `a`-`f`.
pub open spec fn hex_digit(v: int) -> u8
    recommends
        0 <= v < 16,
{
    if v < 10 {
        (48 + v) as u8
    } else {
        (87 + v) as u8
    }
}

/// The two digits of a byte, high nibble first.
pub open spec fn hex_pair(b: u8) -> Seq<u8> {
    seq![hex_digit(b as int / 16), hex_digit(b as int % 16)]
}

/// The hex rendering of a byte sequence: two digits per byte.
pub open spec fn hex_of(s: Seq<u8>) -> Seq<u8>
    decreases s.len(),
{
    if s.len() == 0 {
        Seq::empty()
    } else {
        hex_of(s.drop_last()) + hex_pair(s.last())
    }
}

/// The sidebar character of a byte: the byte itself when it is printable
/// ASCII, a period otherwise.
pub open spec fn classify(b: u8) -> u8 {
    if 32 <= b && b <= 126 {
        b
    } else {
        PERIOD
    }
}

proof fn lemma_hex_of_len(s: Seq<u8>)
    ensures
        hex_of(s).len() == 2 * s.len(),
    decreases s.len(),
{
    if s.len() > 0 {
        lemma_hex_of_len(s.drop_last());
    }
}

/// Each byte's digits stand at the doubled index of the byte.
pub proof fn lemma_hex_of_index(s: Seq<u8>, i: int)
    requires
        0 <= i < s.len(),
    ensures
        hex_of(s).len() == 2 * s.len(),
        hex_of(s)[2 * i] == hex_pair(s[i])[0],
        hex_of(s)[2 * i + 1] == hex_pair(s[i])[1],
    decreases s.len(),
{
    lemma_hex_of_len(s);
    if i < s.len() - 1 {
        lemma_hex_of_index(s.drop_last(), i);
    }
}

fn hex_table_digit(v: u8) -> (r: u8)
    requires
        v < 16,
    ensures
        r == hex_digit(v as int),
{
    HEX_TABLE[v as usize]
}

/// The sidebar character of `c`.
pub fn to_char(c: u8) -> (r: u8)
    ensures
        r == classify(c),
        r == c <==> 32 <= c <= 126,
        !(32 <= c <= 126) ==> r == PERIOD,
{
    if c < 32 || c > 126 {
        PERIOD
    } else {
        c
    }
}

/// Writes the two hex digits of each byte of `src` into `dest`, at the
/// doubled index of the byte, and returns the number of digits written.
/// The rest of `dest` is left as it was.
pub fn encode(dest: &mut [u8], src: &[u8]) -> (r: usize)
    requires
        2 * src@.len() <= old(dest)@.len(),
    ensures
        r == 2 * src@.len(),
        final(dest)@.len() == old(dest)@.len(),
        final(dest)@.subrange(0, r as int) == hex_of(src@),
        final(dest)@.subrange(r as int, final(dest)@.len() as int) == old(
            dest,
        )@.subrange(r as int, old(dest)@.len() as int),
{
    let n = src.len();
    let room = dest.len();
    let mut i: usize = 0;
    while i < n
        invariant
            n == src@.len(),
            2 * n <= dest@.len(),
            room == dest@.len(),
            0 <= i <= n,
            dest@.len() == old(dest)@.len(),
            dest@.subrange(0, 2 * i as int) == hex_of(src@.subrange(0, i as int)),
            dest@.subrange(2 * i as int, dest@.len() as int) == old(dest)@.subrange(
                2 * i as int,
                old(dest)@.len() as int,
            ),
        decreases n - i,
    {
        let chr = src[i];
        proof {
            assert(chr >> 4 == chr / 16 && chr / 16 < 16) by (bit_vector);
            assert(chr & 0x0f == chr % 16 && chr % 16 < 16) by (bit_vector);
        }
        let hi = hex_table_digit(chr >> 4);
        let lo = hex_table_digit(chr & 0x0f);
        let ghost before = dest@;
        dest[i * 2] = hi;
        dest[i * 2 + 1] = lo;
        proof {
            let pre = src@.subrange(0, i as int);
            let post = src@.subrange(0, i + 1);
            assert(post.drop_last() =~= pre);
            assert(hex_of(post) == hex_of(pre) + hex_pair(chr));
            assert(dest@.subrange(0, 2 * (i + 1)) =~= before.subrange(0, 2 * i as int)
                + hex_pair(chr));
            assert(dest@.subrange(2 * (i + 1), dest@.len() as int) =~= before.subrange(
                2 * i as int,
                before.len() as int,
            ).subrange(2, before.len() - 2 * i));
        }
        i += 1;
    }
    proof {
        assert(src@.subrange(0, n as int) =~= src@);
    }
    n * 2
}

} // verus!
