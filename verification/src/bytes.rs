//! Big-endian integers and byte-sequence helpers shared by every protocol.

use vstd::prelude::*;
use byteorder::ByteOrder;
use num::ToPrimitive;

verus! {

/// The value of the two leading bytes of `s`, most significant first.
pub open spec fn spec_be_u16(s: Seq<u8>) -> int {
    s[0] as int * 256 + s[1] as int
}

/// The value of the four leading bytes of `s`, most significant first.
pub open spec fn spec_be_u32(s: Seq<u8>) -> int {
    ((s[0] as int * 256 + s[1] as int) * 256 + s[2] as int) * 256 + s[3] as int
}

/// The value of the eight leading bytes of `s`, most significant first.
pub open spec fn spec_be_u64(s: Seq<u8>) -> int {
    spec_be_u32(s) * 0x1_0000_0000 + spec_be_u32(s.subrange(4, 8))
}

/// The two bytes of `n`, most significant first.
pub open spec fn spec_u16_bytes(n: u16) -> Seq<u8> {
    seq![(n / 256) as u8, (n % 256) as u8]
}

/// The four bytes of `n`, most significant first.
pub open spec fn spec_u32_bytes(n: u32) -> Seq<u8> {
    seq![
        (n / 0x100_0000) as u8,
        (n / 0x1_0000 % 256) as u8,
        (n / 256 % 256) as u8,
        (n % 256) as u8,
    ]
}

/// Reading back the bytes of a `u16` gives the number again.
pub proof fn lemma_u16_bytes_round_trip(n: u16)
    ensures
        spec_u16_bytes(n).len() == 2,
        spec_be_u16(spec_u16_bytes(n)) == n,
{
}

/// Reading back the bytes of a `u32` gives the number again.
pub proof fn lemma_u32_bytes_round_trip(n: u32)
    ensures
        spec_u32_bytes(n).len() == 4,
        spec_be_u32(spec_u32_bytes(n)) == n,
{
}

/// `byteorder::BigEndian::read_u16`: the first two bytes of `buf` read as a
/// big-endian number. The outside function panics on a shorter slice.
#[verifier::external_body]
pub(crate) fn read_u16_be(buf: &[u8]) -> (r: u16)
    requires
        buf@.len() >= 2,
    ensures
        r as int == spec_be_u16(buf@),
{
    byteorder::BigEndian::read_u16(buf)
}

/// `byteorder::BigEndian::read_u32`: the first four bytes of `buf` read as a
/// big-endian number. The outside function panics on a shorter slice.
#[verifier::external_body]
pub(crate) fn read_u32_be(buf: &[u8]) -> (r: u32)
    requires
        buf@.len() >= 4,
    ensures
        r as int == spec_be_u32(buf@),
{
    byteorder::BigEndian::read_u32(buf)
}

/// `byteorder::BigEndian::read_u64`: the first eight bytes of `buf` read as a
/// big-endian number. The outside function panics on a shorter slice.
#[verifier::external_body]
pub(crate) fn read_u64_be(buf: &[u8]) -> (r: u64)
    requires
        buf@.len() >= 8,
    ensures
        r as int == spec_be_u64(buf@),
{
    byteorder::BigEndian::read_u64(buf)
}

/// `byteorder::BigEndian::write_u16` into a fresh two-byte buffer: the bytes
/// of `n`, most significant first.
#[verifier::external_body]
pub(crate) fn u16_to_be(n: u16) -> (r: Vec<u8>)
    ensures
        r@ == spec_u16_bytes(n),
{
    let mut buf = vec![0u8; 2];
    byteorder::BigEndian::write_u16(&mut buf, n);
    buf
}

/// `byteorder::BigEndian::write_u32` into a fresh four-byte buffer: the bytes
/// of `n`, most significant first.
#[verifier::external_body]
pub(crate) fn u32_to_be(n: u32) -> (r: Vec<u8>)
    ensures
        r@ == spec_u32_bytes(n),
{
    let mut buf = vec![0u8; 4];
    byteorder::BigEndian::write_u32(&mut buf, n);
    buf
}

/// `num::ToPrimitive::to_u16` on a `usize`: the same number as a `u16` where
/// it fits, `None` where it does not.
#[verifier::external_body]
pub(crate) fn to_u16(n: usize) -> (r: Option<u16>)
    ensures
        n <= 0xffff ==> r == Some(n as u16),
        n > 0xffff ==> r is None,
{
    n.to_u16()
}

/// Appends `src` to `dst`.
pub fn append(dst: &mut Vec<u8>, src: &[u8])
    ensures
        final(dst)@ == old(dst)@ + src@,
{
    let mut i: usize = 0;
    while i < src.len()
        invariant
            i <= src@.len(),
            dst@ == old(dst)@ + src@.subrange(0, i as int),
        decreases src@.len() - i,
    {
        dst.push(src[i]);
        i += 1;
    }
    assert(src@.subrange(0, i as int) == src@);
}

/// Copies the bytes of `src` from index `from` up to, not including, `to`.
pub fn copy_range(src: &[u8], from: usize, to: usize) -> (r: Vec<u8>)
    requires
        from <= to <= src@.len(),
    ensures
        r@ == src@.subrange(from as int, to as int),
{
    let mut out: Vec<u8> = Vec::new();
    let mut i: usize = from;
    while i < to
        invariant
            from <= i <= to <= src@.len(),
            out@ == src@.subrange(from as int, i as int),
        decreases to - i,
    {
        out.push(src[i]);
        i += 1;
    }
    out
}

/// Whether two byte strings hold the same bytes.
pub fn same_bytes(a: &[u8], b: &[u8]) -> (r: bool)
    ensures
        r == (a@ == b@),
{
    if a.len() != b.len() {
        return false;
    }
    let mut i: usize = 0;
    while i < a.len()
        invariant
            i <= a@.len(),
            a@.len() == b@.len(),
            a@.subrange(0, i as int) == b@.subrange(0, i as int),
        decreases a@.len() - i,
    {
        if a[i] != b[i] {
            return false;
        }
        assert(a@.subrange(0, i + 1) == a@.subrange(0, i as int).push(a@[i as int]));
        assert(b@.subrange(0, i + 1) == b@.subrange(0, i as int).push(b@[i as int]));
        i += 1;
    }
    assert(a@.subrange(0, i as int) == a@);
    assert(b@.subrange(0, i as int) == b@);
    true
}

/// The index of the first zero byte of `s` at or after `from`, or the length
/// of `s` where there is none.
pub open spec fn spec_find_nul(s: Seq<u8>, from: int) -> int
    decreases s.len() - from,
{
    if from >= s.len() {
        s.len() as int
    } else if s[from] == 0 {
        from
    } else {
        spec_find_nul(s, from + 1)
    }
}

/// Finds the first zero byte of `src` at or after `from`.
pub fn find_nul(src: &[u8], from: usize) -> (r: usize)
    requires
        from <= src@.len(),
    ensures
        r == spec_find_nul(src@, from as int),
        from <= r <= src@.len(),
{
    let mut i: usize = from;
    while i < src.len() && src[i] != 0
        invariant
            from <= i <= src@.len(),
            spec_find_nul(src@, from as int) == spec_find_nul(src@, i as int),
        decreases src@.len() - i,
    {
        i += 1;
    }
    i
}

} // verus!
