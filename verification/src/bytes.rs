//! Little- and big-endian byte helpers shared by the on-disk and on-wire
//! formats (FAT, ELF, BMP, Ethernet/IPv4).

use vstd::prelude::*;
use vstd::string::StringSliceAdditionalSpecFns;

verus! {

/// Text equality of two string slices.
pub fn str_eq(a: &str, b: &str) -> (r: bool)
    ensures
        r == (a@ == b@),
{
    let ab = a.as_bytes();
    let bb = b.as_bytes();
    let r = bytes_eq(ab, bb);
    proof {
        vstd::utf8::encode_utf8_decode_utf8(a@);
        vstd::utf8::encode_utf8_decode_utf8(b@);
    }
    r
}

/// The little-endian `u16` at `b[o..o+2]`.
pub open spec fn le16(b: Seq<u8>, o: int) -> int {
    b[o] as int + 256 * b[o + 1] as int
}

/// The little-endian `u32` at `b[o..o+4]`.
pub open spec fn le32(b: Seq<u8>, o: int) -> int {
    le16(b, o) + 65536 * le16(b, o + 2)
}

/// The little-endian `u64` at `b[o..o+8]`.
pub open spec fn le64(b: Seq<u8>, o: int) -> int {
    le32(b, o) + 0x1_0000_0000 * le32(b, o + 4)
}

/// The big-endian `u16` at `b[o..o+2]`.
pub open spec fn be16_spec(b: Seq<u8>, o: int) -> int {
    256 * b[o] as int + b[o + 1] as int
}

/// The two big-endian bytes of `v`.
pub open spec fn be16_bytes(v: u16) -> Seq<u8> {
    seq![(v / 256) as u8, (v % 256) as u8]
}

/// The eight little-endian bytes of `v`.
pub open spec fn le64_bytes(v: u64) -> Seq<u8> {
    Seq::new(8, |k: int| ((v as int / pow2_8k(k)) % 256) as u8)
}

/// `256^k` for `0 <= k <= 8`.
pub open spec fn pow2_8k(k: int) -> int {
    if k <= 0 { 1 } else if k == 1 { 0x100 } else if k == 2 { 0x1_0000 } else if k == 3 { 0x100_0000 }
    else if k == 4 { 0x1_0000_0000 } else if k == 5 { 0x100_0000_0000 } else if k == 6 { 0x1_0000_0000_0000 }
    else if k == 7 { 0x100_0000_0000_0000 } else { 0x1_0000_0000_0000_0000 }
}

/// Reads the little-endian `u16` at `b[o..o+2]`.
pub fn u16_at(b: &[u8], o: usize) -> (v: u64)
    requires
        o + 2 <= b@.len(),
    ensures
        v == le16(b@, o as int),
        v < 0x1_0000,
{
    b[o] as u64 + 256 * (b[o + 1] as u64)
}

/// Reads the little-endian `u32` at `b[o..o+4]`.
pub fn u32_at(b: &[u8], o: usize) -> (v: u64)
    requires
        o + 4 <= b@.len(),
    ensures
        v == le32(b@, o as int),
        v < 0x1_0000_0000,
{
    let _n = b.len();
    u16_at(b, o) + 65536 * u16_at(b, o + 2)
}

/// Reads the little-endian `u64` at `b[o..o+8]`.
pub fn u64_at(b: &[u8], o: usize) -> (v: u64)
    requires
        o + 8 <= b@.len(),
    ensures
        v == le64(b@, o as int),
{
    let _n = b.len();
    let lo = u32_at(b, o);
    let hi = u32_at(b, o + 4);
    assert(0x1_0000_0000 * hi + lo < 0x1_0000_0000_0000_0000) by (nonlinear_arith)
        requires hi < 0x1_0000_0000, lo < 0x1_0000_0000;
    lo + 0x1_0000_0000 * hi
}

/// Reads the big-endian `u16` at `b[o..o+2]`.
pub fn be16(b: &[u8], o: usize) -> (v: u16)
    requires
        o + 2 <= b@.len(),
    ensures
        v == be16_spec(b@, o as int),
{
    256 * (b[o] as u16) + b[o + 1] as u16
}

/// Appends the two big-endian bytes of `v`.
pub fn push_be16(out: &mut Vec<u8>, v: u16)
    ensures
        final(out)@ == old(out)@ + be16_bytes(v),
{
    out.push((v / 256) as u8);
    out.push((v % 256) as u8);
    assert(final(out)@ =~= old(out)@ + be16_bytes(v));
}

/// Appends the eight little-endian bytes of `v`.
pub fn push_le64(out: &mut Vec<u8>, v: u64)
    ensures
        final(out)@ == old(out)@ + le64_bytes(v),
{
    let ghost start = out@;
    let mut k: usize = 0;
    let mut rest: u64 = v;
    while k < 8
        invariant
            k <= 8,
            out@.len() == start.len() + k,
            out@.subrange(0, start.len() as int) == start,
            forall|j: int| 0 <= j < k ==> out@[start.len() + j] == #[trigger] le64_bytes(v)[j],
            rest as int == v as int / pow2_8k(k as int),
        decreases 8 - k,
    {
        out.push((rest % 256) as u8);
        proof {
            assert(pow2_8k(k as int + 1) == 256 * pow2_8k(k as int));
            vstd::arithmetic::div_mod::lemma_div_denominator(v as int, pow2_8k(k as int), 256);
        }
        rest = rest / 256;
        k = k + 1;
    }
    assert(final(out)@ =~= old(out)@ + le64_bytes(v));
}

/// Appends a byte slice.
pub fn push_all(out: &mut Vec<u8>, src: &[u8])
    ensures
        final(out)@ == old(out)@ + src@,
{
    let ghost start = out@;
    let mut i: usize = 0;
    while i < src.len()
        invariant
            i <= src@.len(),
            out@ == start + src@.subrange(0, i as int),
        decreases src@.len() - i,
    {
        out.push(src[i]);
        i = i + 1;
        assert(out@ =~= start + src@.subrange(0, i as int));
    }
    assert(src@.subrange(0, src@.len() as int) =~= src@);
}

/// Byte-wise equality of two slices.
pub fn bytes_eq(a: &[u8], b: &[u8]) -> (r: bool)
    ensures
        r == (a@ == b@),
{
    if a.len() != b.len() {
        return false;
    }
    let mut i: usize = 0;
    while i < a.len()
        invariant
            a@.len() == b@.len(),
            i <= a@.len(),
            forall|j: int| 0 <= j < i ==> a@[j] == b@[j],
        decreases a@.len() - i,
    {
        if a[i] != b[i] {
            return false;
        }
        i = i + 1;
    }
    assert(a@ =~= b@);
    true
}

/// A copy of `s` as an owned byte vector.
pub fn to_vec(s: &[u8]) -> (v: Vec<u8>)
    ensures
        v@ == s@,
{
    let mut v: Vec<u8> = Vec::new();
    push_all(&mut v, s);
    v
}

} // verus!
