//! Little-endian field access on byte images, stated over vstd's byte-conversion specifications.
use vstd::bytes::*;
use vstd::prelude::*;

verus! {

broadcast use vstd::seq_lib::group_seq_properties;

/// The little-endian `u16` at byte offset `o` of `b`.
pub open spec fn le_u16_at(b: Seq<u8>, o: int) -> u16 {
    spec_u16_from_le_bytes(b.subrange(o, o + 2))
}

/// The little-endian `u32` at byte offset `o` of `b`.
pub open spec fn le_u32_at(b: Seq<u8>, o: int) -> u32 {
    spec_u32_from_le_bytes(b.subrange(o, o + 4))
}

/// The little-endian `u64` at byte offset `o` of `b`.
pub open spec fn le_u64_at(b: Seq<u8>, o: int) -> u64 {
    spec_u64_from_le_bytes(b.subrange(o, o + 8))
}

/// The little-endian two's-complement `i64` at byte offset `o` of `b`.
pub open spec fn le_i64_at(b: Seq<u8>, o: int) -> i64 {
    le_u64_at(b, o) as i64
}

/// The little-endian two's-complement `i16` at byte offset `o` of `b`.
pub open spec fn le_i16_at(b: Seq<u8>, o: int) -> i16 {
    le_u16_at(b, o) as i16
}

pub open spec fn le16(x: u16) -> Seq<u8> {
    spec_u16_to_le_bytes(x)
}

pub open spec fn le32(x: u32) -> Seq<u8> {
    spec_u32_to_le_bytes(x)
}

pub open spec fn le64(x: u64) -> Seq<u8> {
    spec_u64_to_le_bytes(x)
}

pub open spec fn lei64(x: i64) -> Seq<u8> {
    spec_u64_to_le_bytes(x as u64)
}

pub open spec fn lei16(x: i16) -> Seq<u8> {
    spec_u16_to_le_bytes(x as u16)
}

/// Encoding widths, and decoding an encoding gives the value back.
pub proof fn lemma_le_roundtrip()
    ensures
        forall|x: u16| #![trigger le16(x)] le16(x).len() == 2 && spec_u16_from_le_bytes(le16(x)) == x,
        forall|x: u32| #![trigger le32(x)] le32(x).len() == 4 && spec_u32_from_le_bytes(le32(x)) == x,
        forall|x: u64| #![trigger le64(x)] le64(x).len() == 8 && spec_u64_from_le_bytes(le64(x)) == x,
        forall|x: i64| #![trigger lei64(x)] lei64(x).len() == 8 && (#[verifier::truncate] (spec_u64_from_le_bytes(lei64(x)) as i64)) == x,
        forall|x: i16| #![trigger lei16(x)] lei16(x).len() == 2 && (#[verifier::truncate] (spec_u16_from_le_bytes(lei16(x)) as i16)) == x,
{
    lemma_auto_spec_u16_to_from_le_bytes();
    lemma_auto_spec_u32_to_from_le_bytes();
    lemma_auto_spec_u64_to_from_le_bytes();
    assert forall|x: u16| #![trigger le16(x)] le16(x).len() == 2 && spec_u16_from_le_bytes(le16(x)) == x by {
        assert(spec_u16_to_le_bytes(x).len() == 2);
    }
    assert forall|x: u32| #![trigger le32(x)] le32(x).len() == 4 && spec_u32_from_le_bytes(le32(x)) == x by {
        assert(spec_u32_to_le_bytes(x).len() == 4);
    }
    assert forall|x: u64| #![trigger le64(x)] le64(x).len() == 8 && spec_u64_from_le_bytes(le64(x)) == x by {
        assert(spec_u64_to_le_bytes(x).len() == 8);
    }
    assert forall|x: i64| #![trigger lei64(x)] lei64(x).len() == 8 && (#[verifier::truncate] (spec_u64_from_le_bytes(lei64(x)) as i64)) == x by {
        let u = #[verifier::truncate] (x as u64);
        assert(spec_u64_to_le_bytes(u).len() == 8);
        assert(spec_u64_from_le_bytes(spec_u64_to_le_bytes(u)) == u);
        assert((u as i64) == x) by (bit_vector)
            requires u == x as u64;
    }
    assert forall|x: i16| #![trigger lei16(x)] lei16(x).len() == 2 && (#[verifier::truncate] (spec_u16_from_le_bytes(lei16(x)) as i16)) == x by {
        let u = #[verifier::truncate] (x as u16);
        assert(spec_u16_to_le_bytes(u).len() == 2);
        assert(spec_u16_from_le_bytes(spec_u16_to_le_bytes(u)) == u);
        assert((u as i16) == x) by (bit_vector)
            requires u == x as u16;
    }
}

pub fn read_u16_le(b: &[u8], o: usize) -> (r: u16)
    requires
        o + 2 <= b@.len(),
    ensures
        r == le_u16_at(b@, o as int),
{
    let _n = b.len();
    u16_from_le_bytes(&b[o..o + 2])
}

pub fn read_u32_le(b: &[u8], o: usize) -> (r: u32)
    requires
        o + 4 <= b@.len(),
    ensures
        r == le_u32_at(b@, o as int),
{
    let _n = b.len();
    u32_from_le_bytes(&b[o..o + 4])
}

pub fn read_u64_le(b: &[u8], o: usize) -> (r: u64)
    requires
        o + 8 <= b@.len(),
    ensures
        r == le_u64_at(b@, o as int),
{
    let _n = b.len();
    u64_from_le_bytes(&b[o..o + 8])
}

pub fn read_i64_le(b: &[u8], o: usize) -> (r: i64)
    requires
        o + 8 <= b@.len(),
    ensures
        r == le_i64_at(b@, o as int),
{
    let u = read_u64_le(b, o);
    u as i64
}

pub fn read_i16_le(b: &[u8], o: usize) -> (r: i16)
    requires
        o + 2 <= b@.len(),
    ensures
        r == le_i16_at(b@, o as int),
{
    let u = read_u16_le(b, o);
    u as i16
}

pub fn push_u16_le(v: &mut Vec<u8>, x: u16)
    ensures
        final(v)@ == old(v)@ + le16(x),
{
    let bytes = u16_to_le_bytes(x);
    v.extend_from_slice(bytes.as_slice());
}

pub fn push_u32_le(v: &mut Vec<u8>, x: u32)
    ensures
        final(v)@ == old(v)@ + le32(x),
{
    let bytes = u32_to_le_bytes(x);
    v.extend_from_slice(bytes.as_slice());
}

pub fn push_u64_le(v: &mut Vec<u8>, x: u64)
    ensures
        final(v)@ == old(v)@ + le64(x),
{
    let bytes = u64_to_le_bytes(x);
    v.extend_from_slice(bytes.as_slice());
}

pub fn push_i64_le(v: &mut Vec<u8>, x: i64)
    ensures
        final(v)@ == old(v)@ + lei64(x),
{
    push_u64_le(v, x as u64);
}

pub fn push_i16_le(v: &mut Vec<u8>, x: i16)
    ensures
        final(v)@ == old(v)@ + lei16(x),
{
    push_u16_le(v, x as u16);
}

/// Append `s` to `v`.
pub fn push_bytes(v: &mut Vec<u8>, s: &[u8])
    ensures
        final(v)@ == old(v)@ + s@,
{
    v.extend_from_slice(s);
}

/// Append `n` zero bytes to `v`.
pub fn push_zeros(v: &mut Vec<u8>, n: usize)
    ensures
        final(v)@ == old(v)@ + Seq::new(n as nat, |_i: int| 0u8),
{
    let mut i: usize = 0;
    while i < n
        invariant
            i <= n,
            v@ == old(v)@ + Seq::new(i as nat, |_i: int| 0u8),
        decreases n - i,
    {
        v.push(0u8);
        i = i + 1;
        assert(v@ =~= old(v)@ + Seq::new(i as nat, |_i: int| 0u8));
    }
}

/// A copy of `b`.
pub fn copy_bytes(b: &[u8]) -> (r: Vec<u8>)
    ensures
        r@ == b@,
{
    vstd::slice::slice_to_vec(b)
}

} // verus!
