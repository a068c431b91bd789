//! Little-endian encodings of unsigned integers.

use vstd::prelude::*;

verus! {

/// The two bytes of `x`, least significant first.
pub open spec fn le16(x: u16) -> Seq<u8> {
    seq![(x % 256) as u8, (x / 256) as u8]
}

/// The four bytes of `x`, least significant first.
pub open spec fn le32(x: u32) -> Seq<u8> {
    le16((x % 65536) as u16) + le16((x / 65536) as u16)
}

/// The eight bytes of `x`, least significant first.
pub open spec fn le64(x: u64) -> Seq<u8> {
    le32((x % 0x1_0000_0000) as u32) + le32((x / 0x1_0000_0000) as u32)
}

/// The number that the two bytes of `s` at `at` encode.
pub open spec fn de16(s: Seq<u8>, at: int) -> u16 {
    (s[at] + 256 * s[at + 1]) as u16
}

/// The number that the four bytes of `s` at `at` encode.
pub open spec fn de32(s: Seq<u8>, at: int) -> u32 {
    (de16(s, at) + 65536 * de16(s, at + 2)) as u32
}

/// The number that the eight bytes of `s` at `at` encode.
pub open spec fn de64(s: Seq<u8>, at: int) -> u64 {
    (de32(s, at) + 0x1_0000_0000 * de32(s, at + 4)) as u64
}

/// Appends the encoding of `x` to `out`.
pub fn push_le16(out: &mut Vec<u8>, x: u16)
    ensures
        final(out)@ == old(out)@ + le16(x),
{
    out.push((x % 256) as u8);
    out.push((x / 256) as u8);
}

/// Appends the encoding of `x` to `out`.
pub fn push_le32(out: &mut Vec<u8>, x: u32)
    ensures
        final(out)@ == old(out)@ + le32(x),
{
    push_le16(out, (x % 65536) as u16);
    push_le16(out, (x / 65536) as u16);
}

/// Appends the encoding of `x` to `out`.
pub fn push_le64(out: &mut Vec<u8>, x: u64)
    ensures
        final(out)@ == old(out)@ + le64(x),
{
    push_le32(out, (x % 0x1_0000_0000) as u32);
    push_le32(out, (x / 0x1_0000_0000) as u32);
}

/// Reads the two-byte number at `at`.
pub fn read_le16(s: &[u8], at: usize) -> (x: u16)
    requires
        at + 2 <= s@.len(),
    ensures
        x == de16(s@, at as int),
{
    s[at] as u16 + 256 * (s[at + 1] as u16)
}

/// Reads the four-byte number at `at`.
pub fn read_le32(s: &[u8], at: usize) -> (x: u32)
    requires
        at + 4 <= s@.len(),
    ensures
        x == de32(s@, at as int),
{
    let _len: usize = s.len();
    read_le16(s, at) as u32 + 65536 * (read_le16(s, at + 2) as u32)
}

/// Reads the eight-byte number at `at`.
pub fn read_le64(s: &[u8], at: usize) -> (x: u64)
    requires
        at + 8 <= s@.len(),
    ensures
        x == de64(s@, at as int),
{
    let _len: usize = s.len();
    read_le32(s, at) as u64 + 0x1_0000_0000 * (read_le32(s, at + 4) as u64)
}

/// `s` with zeros behind it, up to the length `len`.
pub open spec fn padded(s: Seq<u8>, len: nat) -> Seq<u8> {
    s + Seq::new((len - s.len()) as nat, |i: int| 0u8)
}

/// `s` with zeros behind it, up to the length `len`.
pub fn pad(s: &[u8], len: usize) -> (out: Vec<u8>)
    requires
        s@.len() <= len,
    ensures
        out@ == padded(s@, len as nat),
{
    let mut out: Vec<u8> = vstd::slice::slice_to_vec(s);
    while out.len() < len
        invariant
            s@.len() <= out@.len() <= len,
            out@ == padded(s@, out@.len()),
        decreases len - out@.len(),
    {
        out.push(0);
        assert(out@ =~= padded(s@, out@.len()));
    }
    out
}

/// Decoding undoes encoding, wherever the encoded number stands in `s`.
pub proof fn decode_after_encode16(s: Seq<u8>, at: int, x: u16)
    requires
        0 <= at,
        at + 2 <= s.len(),
        s.subrange(at, at + 2) == le16(x),
    ensures
        de16(s, at) == x,
{
    assert(s[at] == s.subrange(at, at + 2)[0]);
    assert(s[at + 1] == s.subrange(at, at + 2)[1]);
}

/// Decoding undoes encoding, wherever the encoded number stands in `s`.
pub proof fn decode_after_encode32(s: Seq<u8>, at: int, x: u32)
    requires
        0 <= at,
        at + 4 <= s.len(),
        s.subrange(at, at + 4) == le32(x),
    ensures
        de32(s, at) == x,
{
    let t = s.subrange(at, at + 4);
    assert(s.subrange(at, at + 2) =~= t.subrange(0, 2));
    assert(s.subrange(at + 2, at + 4) =~= t.subrange(2, 4));
    assert(le32(x).subrange(0, 2) =~= le16((x % 65536) as u16));
    assert(le32(x).subrange(2, 4) =~= le16((x / 65536) as u16));
    decode_after_encode16(s, at, (x % 65536) as u16);
    decode_after_encode16(s, at + 2, (x / 65536) as u16);
}

/// Decoding undoes encoding, wherever the encoded number stands in `s`.
pub proof fn decode_after_encode64(s: Seq<u8>, at: int, x: u64)
    requires
        0 <= at,
        at + 8 <= s.len(),
        s.subrange(at, at + 8) == le64(x),
    ensures
        de64(s, at) == x,
{
    let t = s.subrange(at, at + 8);
    let lo = (x % 0x1_0000_0000) as u32;
    let hi = (x / 0x1_0000_0000) as u32;
    assert(s.subrange(at, at + 4) =~= t.subrange(0, 4));
    assert(s.subrange(at + 4, at + 8) =~= t.subrange(4, 8));
    assert(le64(x).subrange(0, 4) =~= le32(lo));
    assert(le64(x).subrange(4, 8) =~= le32(hi));
    decode_after_encode32(s, at, lo);
    decode_after_encode32(s, at + 4, hi);
}

/// Encoding undoes decoding.
pub proof fn encode_after_decode16(s: Seq<u8>, at: int)
    requires
        0 <= at,
        at + 2 <= s.len(),
    ensures
        le16(de16(s, at)) == s.subrange(at, at + 2),
{
    assert(le16(de16(s, at)) =~= s.subrange(at, at + 2));
}

proof fn halves32(lo: u16, hi: u16)
    ensures
        (lo + 65536 * hi) as u32 % 65536 == lo,
        (lo + 65536 * hi) as u32 / 65536 == hi,
{
}

proof fn halves64(lo: u32, hi: u32)
    ensures
        (lo + 0x1_0000_0000 * hi) as u64 % 0x1_0000_0000 == lo,
        (lo + 0x1_0000_0000 * hi) as u64 / 0x1_0000_0000 == hi,
{
}

/// Encoding undoes decoding.
pub proof fn encode_after_decode32(s: Seq<u8>, at: int)
    requires
        0 <= at,
        at + 4 <= s.len(),
    ensures
        le32(de32(s, at)) == s.subrange(at, at + 4),
{
    let lo = de16(s, at);
    let hi = de16(s, at + 2);
    halves32(lo, hi);
    assert(le32(de32(s, at)) == le16(lo) + le16(hi));
    encode_after_decode16(s, at);
    encode_after_decode16(s, at + 2);
    assert(s.subrange(at, at + 4) =~= s.subrange(at, at + 2) + s.subrange(at + 2, at + 4));
}

/// Encoding undoes decoding.
pub proof fn encode_after_decode64(s: Seq<u8>, at: int)
    requires
        0 <= at,
        at + 8 <= s.len(),
    ensures
        le64(de64(s, at)) == s.subrange(at, at + 8),
{
    let lo = de32(s, at);
    let hi = de32(s, at + 4);
    halves64(lo, hi);
    assert(le64(de64(s, at)) == le32(lo) + le32(hi));
    encode_after_decode32(s, at);
    encode_after_decode32(s, at + 4);
    assert(s.subrange(at, at + 8) =~= s.subrange(at, at + 4) + s.subrange(at + 4, at + 8));
}

/// An encoded number is the sum of its bytes, each of which counts 256 times what the byte before it
/// counts.
pub proof fn number_is_the_sum_of_its_bytes16(x: u16)
    ensures
        le16(x).len() == 2,
        x == le16(x)[0] + 0x100 * le16(x)[1],
{
}

/// An encoded number is the sum of its bytes, each of which counts 256 times what the byte before it
/// counts.
pub proof fn number_is_the_sum_of_its_bytes32(x: u32)
    ensures
        le32(x).len() == 4,
        x == le32(x)[0] + 0x100 * le32(x)[1] + 0x1_0000 * le32(x)[2] + 0x100_0000 * le32(x)[3],
{
    number_is_the_sum_of_its_bytes16((x % 65536) as u16);
    number_is_the_sum_of_its_bytes16((x / 65536) as u16);
}

/// An encoded number is the sum of its bytes, each of which counts 256 times what the byte before it
/// counts.
pub proof fn number_is_the_sum_of_its_bytes64(x: u64)
    ensures
        le64(x).len() == 8,
        x == le64(x)[0] + 0x100 * le64(x)[1] + 0x1_0000 * le64(x)[2] + 0x100_0000 * le64(x)[3]
            + 0x1_0000_0000 * le64(x)[4] + 0x100_0000_0000 * le64(x)[5] + 0x1_0000_0000_0000
            * le64(x)[6] + 0x100_0000_0000_0000 * le64(x)[7],
{
    number_is_the_sum_of_its_bytes32((x % 0x1_0000_0000) as u32);
    number_is_the_sum_of_its_bytes32((x / 0x1_0000_0000) as u32);
}

/// The number that is read from bytes is the sum of those bytes, each of which counts 256 times what
/// the byte before it counts.
pub proof fn bytes_add_up_to_their_number(s: Seq<u8>, at: int)
    ensures
        de16(s, at) == s[at] + 0x100 * s[at + 1],
        de32(s, at) == s[at] + 0x100 * s[at + 1] + 0x1_0000 * s[at + 2] + 0x100_0000 * s[at + 3],
        de64(s, at) == s[at] + 0x100 * s[at + 1] + 0x1_0000 * s[at + 2] + 0x100_0000 * s[at + 3]
            + 0x1_0000_0000 * s[at + 4] + 0x100_0000_0000 * s[at + 5] + 0x1_0000_0000_0000 * s[at
            + 6] + 0x100_0000_0000_0000 * s[at + 7],
{
    assert(at + 4 + 1 == at + 5 && at + 4 + 2 == at + 6 && at + 4 + 2 + 1 == at + 7);
    assert(at + 2 + 1 == at + 3);
    assert(de32(s, at) == s[at] + 0x100 * s[at + 1] + 0x1_0000 * s[at + 2] + 0x100_0000 * s[at + 3]);
    assert(de32(s, at + 4) == s[at + 4] + 0x100 * s[at + 5] + 0x1_0000 * s[at + 6] + 0x100_0000
        * s[at + 7]);
}

/// Padding keeps every byte where it was, puts zeros behind them, and reaches exactly to the length
/// that is asked for.
pub proof fn padding_adds_zeros_behind(s: Seq<u8>, len: nat)
    requires
        s.len() <= len,
    ensures
        padded(s, len).len() == len,
        padded(s, len).take(s.len() as int) == s,
        forall|i: int| s.len() <= i < len ==> (#[trigger] padded(s, len)[i]) == 0,
{
    assert(padded(s, len).take(s.len() as int) =~= s);
}

} // verus!
