//! Element, raw-vector and neighbor tuple codecs, and the in-place tombstone.
use crate::bytes::{
    le16, le32, le_i64_at, le_u16_at, le_u32_at, lei64, lemma_le_roundtrip, push_bytes, push_i64_le,
    push_u16_le, push_u32_le, push_zeros, read_i64_le, read_u16_le, read_u32_le,
};
use crate::graph::HnswGraph;
use crate::layout::{
    nbr_slots,
    spec_elem_size, spec_elem_size_v4, Addr, ELEM_HEADER_V4, E4_CODE, E4_DELETED, E4_DIM, E4_LEVEL,
    E4_NBR_BLK, E4_NBR_OFF, E4_RAW_BLK, E4_RAW_OFF, E4_TAG, E4_TID, E4_VERSION, HNSW_ELEM_VERSION_V4,
    RAW_HEADER, RAW_TAG, R_TAG, R_VEC, spec_nbr_size, spec_nbr_slots, NBR_HEADER, NBR_TAG, N_TAG, SLOT, ELEM_HEADER, ELEM_TAG, E_DELETED, E_DIM, E_LEVEL, E_NBR_BLK, E_NBR_OFF, E_TAG,
    E_TID, E_VEC, E_VERSION,
};
use vstd::prelude::*;

verus! {

broadcast use vstd::seq_lib::group_seq_properties;

pub const ERR_BAD_ELEMENT: &'static str = "theodb hnsw: bad element tuple";
pub const ERR_TRUNCATED_ELEMENT: &'static str = "theodb hnsw: truncated element tuple";
pub const ERR_BAD_ELEMENT_V4: &'static str = "theodb hnsw: bad v4 element tuple";
pub const ERR_BAD_RAW: &'static str = "theodb hnsw: bad v4 raw-f32 tuple";
pub const ERR_BAD_NEIGHBOR: &'static str = "theodb hnsw: bad neighbor tuple";
pub const ERR_TRUNCATED_NEIGHBOR: &'static str = "theodb hnsw: truncated neighbor tuple";

// ---------------------------------------------------------------------------------------------
// Element tuples (v1/v2)
// ---------------------------------------------------------------------------------------------

/// The vector dimension recorded in an element tuple.
pub open spec fn elem_dim(b: Seq<u8>) -> u16 {
    le_u16_at(b, E_DIM as int)
}

/// Where the vector ends (and the trailing code starts) in an element tuple.
pub open spec fn elem_end(b: Seq<u8>) -> int {
    E_VEC + elem_dim(b) * 4
}

/// `b` is a well-formed element tuple: long enough for its header, tagged as an element, and
/// long enough for the vector its header declares.
pub open spec fn element_decodes(b: Seq<u8>) -> bool {
    &&& b.len() >= ELEM_HEADER
    &&& b[E_TAG as int] == ELEM_TAG
    &&& b.len() >= elem_end(b)
}

/// A decoded element tuple, borrowing its vector and code bytes from the tuple.
pub struct ElementView<'a> {
    pub level: u8,
    pub tid: i64,
    pub nbr_addr: Addr,
    pub vec_bytes: &'a [u8],
    pub code_bytes: &'a [u8],
    pub deleted: bool,
    pub version: u8,
}

impl<'a> ElementView<'a> {
    /// Every field is read from its offset in `b`.
    pub open spec fn reads(&self, b: Seq<u8>) -> bool {
        &&& self.level == b[E_LEVEL as int]
        &&& self.tid == le_i64_at(b, E_TID as int)
        &&& self.nbr_addr == (le_u32_at(b, E_NBR_BLK as int), le_u16_at(b, E_NBR_OFF as int))
        &&& self.vec_bytes@ == b.subrange(E_VEC as int, elem_end(b))
        &&& self.code_bytes@ == b.subrange(elem_end(b), b.len() as int)
        &&& self.deleted == (b[E_DELETED as int] != 0)
        &&& self.version == b[E_VERSION as int]
    }
}

/// Decode an element tuple. Typed error on a short or mistagged tuple, or one shorter than the
/// vector its header declares.
pub fn decode_element(b: &[u8]) -> (r: Result<ElementView<'_>, String>)
    ensures
        r is Ok <==> element_decodes(b@),
        r matches Ok(v) ==> v.reads(b@),
        r matches Err(e) ==> e@ == (if b@.len() < ELEM_HEADER || b@[E_TAG as int] != ELEM_TAG {
            ERR_BAD_ELEMENT@
        } else {
            ERR_TRUNCATED_ELEMENT@
        }),
{
    if b.len() < ELEM_HEADER || b[E_TAG] != ELEM_TAG {
        return Err(ERR_BAD_ELEMENT.to_string());
    }
    let dim = read_u16_le(b, E_DIM) as usize;
    let end = E_VEC + dim * 4;
    if b.len() < end {
        return Err(ERR_TRUNCATED_ELEMENT.to_string());
    }
    let tid = read_i64_le(b, E_TID);
    let blk = read_u32_le(b, E_NBR_BLK);
    let off = read_u16_le(b, E_NBR_OFF);
    Ok(ElementView {
        level: b[E_LEVEL],
        tid,
        nbr_addr: (blk, off),
        vec_bytes: &b[E_VEC..end],
        code_bytes: &b[end..b.len()],
        deleted: b[E_DELETED] != 0,
        version: b[E_VERSION],
    })
}

/// What `mark_tombstone_in_place` does to a tuple it flips: deleted flag set, version bumped.
pub open spec fn tombstoned(b: Seq<u8>) -> Seq<u8> {
    b.update(E_DELETED as int, 1u8).update(E_VERSION as int, (if b[E_VERSION as int] == 255 { 0u8 } else { (b[E_VERSION as int] + 1) as u8 }))
}

/// `b` is a live element tuple that a tombstone would flip.
pub open spec fn tombstone_applies(b: Seq<u8>) -> bool {
    b.len() >= ELEM_HEADER && b[E_TAG as int] == ELEM_TAG && b[E_DELETED as int] == 0
}

/// Mark an element tuple as a tombstone in place: set the deleted flag and bump the version.
/// Returns whether this call flipped a live tuple; anything else is left untouched.
pub fn mark_tombstone_in_place(b: &mut [u8]) -> (r: bool)
    ensures
        r == tombstone_applies(old(b)@),
        r ==> final(b)@ == tombstoned(old(b)@),
        !r ==> final(b)@ == old(b)@,
{
    if b.len() < ELEM_HEADER || b[E_TAG] != ELEM_TAG || b[E_DELETED] != 0 {
        return false;
    }
    b[E_DELETED] = 1;
    let v = b[E_VERSION];
    b[E_VERSION] = v.wrapping_add(1);
    true
}

/// `v` followed by zero bytes up to length `n`.
pub open spec fn pad_to(v: Seq<u8>, n: int) -> Seq<u8> {
    v + Seq::new((n - v.len()) as nat, |_i: int| 0u8)
}

/// The bytes of a fresh (live, version 0) element tuple.
pub open spec fn spec_element_bytes(level: u8, tid: i64, nbr: Addr, dim: u16, vec: Seq<u8>, code: Seq<u8>) -> Seq<u8> {
    seq![ELEM_TAG, level, 0u8, 0u8] + lei64(tid) + le32(nbr.0) + le16(nbr.1) + le16(dim) + vec + code
}

/// The element tuple `encode_element` writes for `node`.
pub open spec fn spec_encode_element(idx: HnswGraph, node: int, nbr_addr: Addr, dim: int, code: Seq<u8>) -> Seq<u8> {
    spec_element_bytes(
        idx.level(node) as u8,
        idx.ids@[node],
        nbr_addr,
        dim as u16,
        pad_to(idx.vectors@[node]@, dim * 4),
        code,
    )
}

/// Encode `node`'s element tuple: header, the vector (zero-padded to `dim` floats), then `code`.
pub fn encode_element(idx: &HnswGraph, node: usize, nbr_addr: Addr, dim: usize, code: &[u8]) -> (r: Vec<u8>)
    requires
        idx.wf(),
        node < idx.n(),
        idx.vectors@[node as int]@.len() <= dim * 4,
        spec_elem_size(dim as int, code@.len() as int) <= usize::MAX,
    ensures
        r@ == spec_encode_element(*idx, node as int, nbr_addr, dim as int, code@),
        r@.len() == spec_elem_size(dim as int, code@.len() as int),
{
    let level = idx.node_level(node);
    let mut b: Vec<u8> = Vec::new();
    b.push(ELEM_TAG);
    b.push(level as u8);
    b.push(0u8);
    b.push(0u8);
    push_i64_le(&mut b, idx.node_id(node));
    push_u32_le(&mut b, nbr_addr.0);
    push_u16_le(&mut b, nbr_addr.1);
    push_u16_le(&mut b, dim as u16);
    let v = idx.node_vector(node);
    push_bytes(&mut b, v);
    push_zeros(&mut b, dim * 4 - v.len());
    push_bytes(&mut b, code);
    proof {
        lemma_le_roundtrip();
        assert(b@ =~= spec_encode_element(*idx, node as int, nbr_addr, dim as int, code@));
    }
    b
}

/// Decoding a freshly encoded element tuple gives back what was encoded (with the dimension
/// in range of its 16-bit field): a live, version-0 tuple with the same level, id, neighbor
/// address, vector bytes and code.
pub proof fn lemma_element_roundtrip(level: u8, tid: i64, nbr: Addr, dim: u16, vec: Seq<u8>, code: Seq<u8>)
    requires
        vec.len() == dim * 4,
    ensures
        ({
            let b = spec_element_bytes(level, tid, nbr, dim, vec, code);
            &&& element_decodes(b)
            &&& b[E_LEVEL as int] == level
            &&& le_i64_at(b, E_TID as int) == tid
            &&& le_u32_at(b, E_NBR_BLK as int) == nbr.0
            &&& le_u16_at(b, E_NBR_OFF as int) == nbr.1
            &&& elem_dim(b) == dim
            &&& b.subrange(E_VEC as int, elem_end(b)) == vec
            &&& b.subrange(elem_end(b), b.len() as int) == code
            &&& b[E_DELETED as int] == 0
            &&& b[E_VERSION as int] == 0
        }),
{
    lemma_le_roundtrip();
    let b = spec_element_bytes(level, tid, nbr, dim, vec, code);
    assert(b.subrange(4, 12) =~= lei64(tid));
    assert(b.subrange(12, 16) =~= le32(nbr.0));
    assert(b.subrange(16, 18) =~= le16(nbr.1));
    assert(b.subrange(18, 20) =~= le16(dim));
    assert(b.subrange(20, 20 + dim * 4) =~= vec);
    assert(b.subrange(20 + dim * 4, b.len() as int) =~= code);
}

/// The element tuple written for a node records that node: it decodes, as a live tuple, to the
/// node's own level (the field is a byte, so for levels up to 255), heap id and vector (followed
/// by zeros up to `dim` floats), the neighbor address and code it was given, and `dim`.
pub proof fn lemma_encode_element_records_node<'a>(idx: HnswGraph, node: int, nbr_addr: Addr, dim: int, code: Seq<u8>)
    requires
        idx.wf(),
        0 <= node < idx.n(),
        idx.level(node) <= 255,
        idx.vectors@[node]@.len() <= dim * 4,
        dim <= u16::MAX,
    ensures
        ({
            let b = spec_encode_element(idx, node, nbr_addr, dim, code);
            let v = idx.vectors@[node]@;
            &&& element_decodes(b)
            &&& b[E_LEVEL as int] as int == idx.level(node)
            &&& le_i64_at(b, E_TID as int) == idx.ids@[node]
            &&& (le_u32_at(b, E_NBR_BLK as int), le_u16_at(b, E_NBR_OFF as int)) == nbr_addr
            &&& elem_dim(b) == dim
            &&& b.subrange(E_VEC as int, E_VEC + v.len()) == v
            &&& forall|j: int| v.len() <= j < dim * 4 ==> #[trigger] b[E_VEC + j] == 0
            &&& b.subrange(elem_end(b), b.len() as int) == code
            &&& b[E_DELETED as int] == 0
            &&& forall|ev: ElementView<'a>| #[trigger] ev.reads(b) ==> {
                &&& ev.level as int == idx.level(node)
                &&& ev.tid == idx.ids@[node]
                &&& ev.nbr_addr == nbr_addr
                &&& !ev.deleted
                &&& ev.code_bytes@ == code
            }
        }),
{
    let v = idx.vectors@[node]@;
    let pv = pad_to(v, dim * 4);
    assert(pv.len() == dim * 4);
    lemma_element_roundtrip(idx.level(node) as u8, idx.ids@[node], nbr_addr, dim as u16, pv, code);
    let b = spec_encode_element(idx, node, nbr_addr, dim, code);
    assert(b.subrange(E_VEC as int, elem_end(b)) == pv);
    assert(b.subrange(E_VEC as int, E_VEC + v.len()) =~= pv.subrange(0, v.len() as int));
    assert(pv.subrange(0, v.len() as int) =~= v);
    assert forall|j: int| v.len() <= j < dim * 4 implies #[trigger] b[E_VEC + j] == 0 by {
        assert(b.subrange(E_VEC as int, elem_end(b))[j] == b[E_VEC + j]);
    }
}

/// The v4 hot tuple written for a node records that node: it decodes, as a live version-4 tuple,
/// to the node's own level (up to 255) and heap id, and the neighbor address, raw-vector address,
/// dimension and code it was given.
pub proof fn lemma_encode_element_v4_records_node<'a>(
    idx: HnswGraph,
    node: int,
    nbr_addr: Addr,
    raw_addr: Addr,
    dim: int,
    code: Seq<u8>,
)
    requires
        idx.wf(),
        0 <= node < idx.n(),
        idx.level(node) <= 255,
        0 <= dim <= u16::MAX,
    ensures
        ({
            let b = spec_encode_element_v4(idx, node, nbr_addr, raw_addr, dim, code);
            &&& element_v4_decodes(b)
            &&& b[E4_LEVEL as int] as int == idx.level(node)
            &&& le_i64_at(b, E4_TID as int) == idx.ids@[node]
            &&& (le_u32_at(b, E4_NBR_BLK as int), le_u16_at(b, E4_NBR_OFF as int)) == nbr_addr
            &&& (le_u32_at(b, E4_RAW_BLK as int), le_u16_at(b, E4_RAW_OFF as int)) == raw_addr
            &&& le_u16_at(b, E4_DIM as int) as int == dim
            &&& b.subrange(E4_CODE as int, b.len() as int) == code
            &&& b[E4_DELETED as int] == 0
            &&& forall|ev: ElementViewV4<'a>| #[trigger] ev.reads(b) ==> {
                &&& ev.level as int == idx.level(node)
                &&& ev.tid == idx.ids@[node]
                &&& ev.nbr_addr == nbr_addr
                &&& ev.raw_addr == raw_addr
                &&& ev.dim as int == dim
                &&& !ev.deleted
                &&& ev.code_bytes@ == code
            }
        }),
{
    lemma_element_v4_roundtrip(idx.level(node) as u8, idx.ids@[node], nbr_addr, raw_addr, dim as u16, code);
}

/// A tombstone flips the deleted flag and leaves every other decoded field as it was.
pub proof fn lemma_tombstone_preserves_fields(b: Seq<u8>)
    requires
        tombstone_applies(b),
    ensures
        ({
            let t = tombstoned(b);
            &&& t.len() == b.len()
            &&& element_decodes(t) == element_decodes(b)
            &&& t[E_DELETED as int] != 0
            &&& t[E_LEVEL as int] == b[E_LEVEL as int]
            &&& le_i64_at(t, E_TID as int) == le_i64_at(b, E_TID as int)
            &&& le_u32_at(t, E_NBR_BLK as int) == le_u32_at(b, E_NBR_BLK as int)
            &&& le_u16_at(t, E_NBR_OFF as int) == le_u16_at(b, E_NBR_OFF as int)
            &&& elem_dim(t) == elem_dim(b)
            &&& t.subrange(E_VEC as int, t.len() as int) == b.subrange(E_VEC as int, b.len() as int)
        }),
{
    let t = tombstoned(b);
    assert(t.subrange(4, 12) =~= b.subrange(4, 12));
    assert(t.subrange(12, 16) =~= b.subrange(12, 16));
    assert(t.subrange(16, 18) =~= b.subrange(16, 18));
    assert(t.subrange(18, 20) =~= b.subrange(18, 20));
    assert(t.subrange(20, t.len() as int) =~= b.subrange(20, b.len() as int));
}

/// Marking is idempotent: a tuple just tombstoned is no longer one a tombstone applies to, so a
/// second mark returns false and leaves it (and its version) unchanged.
pub proof fn lemma_tombstone_idempotent(b: Seq<u8>)
    requires
        tombstone_applies(b),
    ensures
        !tombstone_applies(tombstoned(b)),
{
}

// ---------------------------------------------------------------------------------------------
// Hot element tuples (v4) and cold raw-vector tuples
// ---------------------------------------------------------------------------------------------

/// A decoded v4 hot element tuple: the walk's view, with the raw-vector address but no vector.
pub struct ElementViewV4<'a> {
    pub level: u8,
    pub tid: i64,
    pub nbr_addr: Addr,
    pub raw_addr: Addr,
    pub dim: u16,
    pub code_bytes: &'a [u8],
    pub deleted: bool,
    pub version: u8,
}

/// `b` is long enough for a v4 header and tagged as an element.
pub open spec fn element_v4_decodes(b: Seq<u8>) -> bool {
    b.len() >= ELEM_HEADER_V4 && b[E4_TAG as int] == ELEM_TAG
}

impl<'a> ElementViewV4<'a> {
    pub open spec fn reads(&self, b: Seq<u8>) -> bool {
        &&& self.level == b[E4_LEVEL as int]
        &&& self.tid == le_i64_at(b, E4_TID as int)
        &&& self.nbr_addr == (le_u32_at(b, E4_NBR_BLK as int), le_u16_at(b, E4_NBR_OFF as int))
        &&& self.raw_addr == (le_u32_at(b, E4_RAW_BLK as int), le_u16_at(b, E4_RAW_OFF as int))
        &&& self.dim == le_u16_at(b, E4_DIM as int)
        &&& self.code_bytes@ == b.subrange(E4_CODE as int, b.len() as int)
        &&& self.deleted == (b[E4_DELETED as int] != 0)
        &&& self.version == b[E4_VERSION as int]
    }
}

/// Decode a v4 hot element tuple; typed error on a short or mistagged tuple.
pub fn decode_element_v4(b: &[u8]) -> (r: Result<ElementViewV4<'_>, String>)
    ensures
        r is Ok <==> element_v4_decodes(b@),
        r matches Ok(v) ==> v.reads(b@),
        r matches Err(e) ==> e@ == ERR_BAD_ELEMENT_V4@,
{
    if b.len() < ELEM_HEADER_V4 || b[E4_TAG] != ELEM_TAG {
        return Err(ERR_BAD_ELEMENT_V4.to_string());
    }
    let tid = read_i64_le(b, E4_TID);
    let nbr_blk = read_u32_le(b, E4_NBR_BLK);
    let nbr_off = read_u16_le(b, E4_NBR_OFF);
    let raw_blk = read_u32_le(b, E4_RAW_BLK);
    let raw_off = read_u16_le(b, E4_RAW_OFF);
    let dim = read_u16_le(b, E4_DIM);
    Ok(ElementViewV4 {
        level: b[E4_LEVEL],
        tid,
        nbr_addr: (nbr_blk, nbr_off),
        raw_addr: (raw_blk, raw_off),
        dim,
        code_bytes: &b[E4_CODE..b.len()],
        deleted: b[E4_DELETED] != 0,
        version: b[E4_VERSION],
    })
}

/// `b` is long enough for a raw-vector header and tagged as a raw tuple.
pub open spec fn raw_decodes(b: Seq<u8>) -> bool {
    b.len() >= RAW_HEADER && b[R_TAG as int] == RAW_TAG
}

/// Decode a cold raw-vector tuple to its vector bytes; typed error on a short or mistagged tuple.
pub fn decode_raw_vec(b: &[u8]) -> (r: Result<&[u8], String>)
    ensures
        r is Ok <==> raw_decodes(b@),
        r matches Ok(v) ==> v@ == b@.subrange(R_VEC as int, b@.len() as int),
        r matches Err(e) ==> e@ == ERR_BAD_RAW@,
{
    if b.len() < RAW_HEADER || b[R_TAG] != RAW_TAG {
        return Err(ERR_BAD_RAW.to_string());
    }
    Ok(&b[R_VEC..b.len()])
}

/// The bytes of a fresh v4 hot element tuple.
pub open spec fn spec_element_v4_bytes(level: u8, tid: i64, nbr: Addr, raw: Addr, dim: u16, code: Seq<u8>) -> Seq<u8> {
    seq![ELEM_TAG, level, 0u8, HNSW_ELEM_VERSION_V4] + lei64(tid) + le32(nbr.0) + le16(nbr.1) + le32(raw.0)
        + le16(raw.1) + le16(dim) + code
}

pub open spec fn spec_encode_element_v4(idx: HnswGraph, node: int, nbr_addr: Addr, raw_addr: Addr, dim: int, code: Seq<u8>) -> Seq<u8> {
    spec_element_v4_bytes(idx.level(node) as u8, idx.ids@[node], nbr_addr, raw_addr, dim as u16, code)
}

/// Encode `node`'s v4 hot element tuple: header with both addresses, then the code; no vector.
pub fn encode_element_v4(idx: &HnswGraph, node: usize, nbr_addr: Addr, raw_addr: Addr, dim: usize, code: &[u8]) -> (r: Vec<u8>)
    requires
        idx.wf(),
        node < idx.n(),
    ensures
        r@ == spec_encode_element_v4(*idx, node as int, nbr_addr, raw_addr, dim as int, code@),
        r@.len() == spec_elem_size_v4(code@.len() as int),
{
    let level = idx.node_level(node);
    let mut b: Vec<u8> = Vec::new();
    b.push(ELEM_TAG);
    b.push(level as u8);
    b.push(0u8);
    b.push(HNSW_ELEM_VERSION_V4);
    push_i64_le(&mut b, idx.node_id(node));
    push_u32_le(&mut b, nbr_addr.0);
    push_u16_le(&mut b, nbr_addr.1);
    push_u32_le(&mut b, raw_addr.0);
    push_u16_le(&mut b, raw_addr.1);
    push_u16_le(&mut b, dim as u16);
    push_bytes(&mut b, code);
    proof {
        lemma_le_roundtrip();
        assert(b@ =~= spec_encode_element_v4(*idx, node as int, nbr_addr, raw_addr, dim as int, code@));
    }
    b
}

/// The bytes of a cold raw-vector tuple holding `vec` (the vector's little-endian f32 bytes).
pub open spec fn spec_raw_bytes(vec: Seq<u8>) -> Seq<u8> {
    seq![RAW_TAG, 0u8, 0u8, 0u8] + vec
}

/// Encode a cold raw-vector tuple `[RAW_TAG][pad][vector bytes]`.
pub fn encode_raw_vec(vec: &[u8]) -> (r: Vec<u8>)
    ensures
        r@ == spec_raw_bytes(vec@),
{
    let mut b: Vec<u8> = Vec::new();
    b.push(RAW_TAG);
    b.push(0u8);
    b.push(0u8);
    b.push(0u8);
    push_bytes(&mut b, vec);
    proof {
        assert(b@ =~= spec_raw_bytes(vec@));
    }
    b
}

/// Decoding a fresh v4 tuple gives back what was encoded: a live tuple at version 4.
pub proof fn lemma_element_v4_roundtrip(level: u8, tid: i64, nbr: Addr, raw: Addr, dim: u16, code: Seq<u8>)
    ensures
        ({
            let b = spec_element_v4_bytes(level, tid, nbr, raw, dim, code);
            &&& element_v4_decodes(b)
            &&& b[E4_LEVEL as int] == level
            &&& le_i64_at(b, E4_TID as int) == tid
            &&& le_u32_at(b, E4_NBR_BLK as int) == nbr.0
            &&& le_u16_at(b, E4_NBR_OFF as int) == nbr.1
            &&& le_u32_at(b, E4_RAW_BLK as int) == raw.0
            &&& le_u16_at(b, E4_RAW_OFF as int) == raw.1
            &&& le_u16_at(b, E4_DIM as int) == dim
            &&& b.subrange(E4_CODE as int, b.len() as int) == code
            &&& b[E4_DELETED as int] == 0
            &&& b[E4_VERSION as int] == HNSW_ELEM_VERSION_V4
        }),
{
    lemma_le_roundtrip();
    let b = spec_element_v4_bytes(level, tid, nbr, raw, dim, code);
    assert(b.subrange(4, 12) =~= lei64(tid));
    assert(b.subrange(12, 16) =~= le32(nbr.0));
    assert(b.subrange(16, 18) =~= le16(nbr.1));
    assert(b.subrange(18, 22) =~= le32(raw.0));
    assert(b.subrange(22, 24) =~= le16(raw.1));
    assert(b.subrange(24, 26) =~= le16(dim));
    assert(b.subrange(26, b.len() as int) =~= code);
}

/// A raw tuple decodes back to exactly the vector bytes it was encoded from.
pub proof fn lemma_raw_roundtrip(vec: Seq<u8>)
    ensures
        raw_decodes(spec_raw_bytes(vec)),
        spec_raw_bytes(vec).subrange(R_VEC as int, spec_raw_bytes(vec).len() as int) == vec,
{
    assert(spec_raw_bytes(vec).subrange(4, spec_raw_bytes(vec).len() as int) =~= vec);
}

// ---------------------------------------------------------------------------------------------
// Neighbor tuples
// ---------------------------------------------------------------------------------------------

/// The address stored in neighbor slot `j` of tuple `b`.
pub open spec fn slot_addr(b: Seq<u8>, j: int) -> Addr {
    (le_u32_at(b, NBR_HEADER + j * SLOT), le_u16_at(b, NBR_HEADER + j * SLOT + 4))
}

/// First slot of layer `lc` for a node at `level`: upper layers top-down, ground last.
pub open spec fn layer_start(level: int, lc: int, m: int) -> int {
    if lc == 0 { level * m } else { (level - lc) * m }
}

/// Number of slots of layer `lc`: `m0` on the ground, `m` above.
pub open spec fn layer_len(lc: int, m: int, m0: int) -> int {
    if lc == 0 { m0 } else { m }
}

/// The non-empty addresses among slots `start .. start+count`, in slot order.
pub open spec fn live_slots(b: Seq<u8>, start: int, count: int) -> Seq<Addr>
    decreases count,
{
    if count <= 0 {
        seq![]
    } else {
        let prev = live_slots(b, start, count - 1);
        let a = slot_addr(b, start + count - 1);
        if a != (0u32, 0u16) { prev.push(a) } else { prev }
    }
}

/// How many complete slots `b` holds from slot `start` on.
pub open spec fn slots_available(b: Seq<u8>, start: int) -> int {
    if b.len() >= NBR_HEADER + start * SLOT { (b.len() - NBR_HEADER) / (SLOT as int) - start } else { 0 }
}

/// `b` is long enough for a neighbor header and tagged as a neighbor tuple.
pub open spec fn neighbor_header_ok(b: Seq<u8>) -> bool {
    b.len() >= NBR_HEADER && b[N_TAG as int] == NBR_TAG
}

/// Decode the neighbor addresses of layer `lc` of a node at `level` into `out` (cleared first),
/// skipping empty `(0,0)` slots. A bad header is an error; a layer above the node's level is
/// empty; a tuple that ends inside the layer is an error, with the complete slots before the cut
/// already decoded into `out`.
pub fn decode_neighbors_into(b: &[u8], level: usize, lc: usize, m: usize, m0: usize, out: &mut Vec<Addr>) -> (r: Result<(), String>)
    requires
        lc <= level ==> spec_nbr_size(level as int, m as int, m0 as int) <= usize::MAX,
    ensures
        ({
            let start = layer_start(level as int, lc as int, m as int);
            let len = layer_len(lc as int, m as int, m0 as int);
            if !neighbor_header_ok(b@) {
                &&& r matches Err(e) && e@ == ERR_BAD_NEIGHBOR@
                &&& final(out)@ == Seq::<Addr>::empty()
            } else if lc > level {
                &&& r is Ok
                &&& final(out)@ == Seq::<Addr>::empty()
            } else if slots_available(b@, start) >= len {
                &&& r is Ok
                &&& final(out)@ == live_slots(b@, start, len)
            } else {
                &&& r matches Err(e) && e@ == ERR_TRUNCATED_NEIGHBOR@
                &&& final(out)@ == live_slots(b@, start, slots_available(b@, start))
            }
        }),
{
    out.clear();
    if b.len() < NBR_HEADER || b[N_TAG] != NBR_TAG {
        return Err(ERR_BAD_NEIGHBOR.to_string());
    }
    if lc > level {
        return Ok(());
    }
    proof {
        vstd::arithmetic::mul::lemma_mul_nonnegative(level as int, m as int);
        vstd::arithmetic::mul::lemma_mul_is_distributive_sub_other_way(m as int, level as int, lc as int);
        vstd::arithmetic::mul::lemma_mul_inequality((level - lc) as int, level as int, m as int);
        if lc > 0 {
            vstd::arithmetic::mul::lemma_mul_inequality((level - lc + 1) as int, level as int, m as int);
            vstd::arithmetic::mul::lemma_mul_is_distributive_add_other_way(m as int, (level - lc) as int, 1);
        }
    }
    let (start, len) = if lc == 0 { (level * m, m0) } else { ((level - lc) * m, m) };
    assert(start == layer_start(level as int, lc as int, m as int));
    assert(start + len <= level * m + m0);
    let ghost bs = b@;
    let mut i: usize = 0;
    while i < len
        invariant
            bs == b@,
            start == layer_start(level as int, lc as int, m as int),
            len == layer_len(lc as int, m as int, m0 as int),
            neighbor_header_ok(bs),
            lc <= level,
            start + len <= level * m + m0,
            NBR_HEADER + (level * m + m0) * SLOT <= usize::MAX,
            i <= len,
            i > 0 ==> NBR_HEADER + (start + i) * SLOT <= bs.len(),
            out@ == live_slots(bs, start as int, i as int),
        decreases len - i,
    {
        let o = NBR_HEADER + (start + i) * SLOT;
        if b.len() < o + SLOT {
            proof {
                assert(slots_available(bs, start as int) == i);
            }
            return Err(ERR_TRUNCATED_NEIGHBOR.to_string());
        }
        let blk = read_u32_le(b, o);
        let off = read_u16_le(b, o + 4);
        if blk != 0 || off != 0 {
            out.push((blk, off));
        }
        i = i + 1;
    }
    proof {
        if len > 0 {
            assert(slots_available(bs, start as int) >= len);
        }
    }
    Ok(())
}

/// Like `decode_neighbors_into`, into a fresh vector.
pub fn decode_neighbors(b: &[u8], level: usize, lc: usize, m: usize, m0: usize) -> (r: Result<Vec<Addr>, String>)
    requires
        lc <= level ==> spec_nbr_size(level as int, m as int, m0 as int) <= usize::MAX,
    ensures
        ({
            let start = layer_start(level as int, lc as int, m as int);
            let len = layer_len(lc as int, m as int, m0 as int);
            if !neighbor_header_ok(b@) {
                r matches Err(e) && e@ == ERR_BAD_NEIGHBOR@
            } else if lc > level {
                r matches Ok(v) && v@ == Seq::<Addr>::empty()
            } else if slots_available(b@, start) >= len {
                r matches Ok(v) && v@ == live_slots(b@, start, len)
            } else {
                r matches Err(e) && e@ == ERR_TRUNCATED_NEIGHBOR@
            }
        }),
{
    let mut out: Vec<Addr> = Vec::new();
    match decode_neighbors_into(b, level, lc, m, m0, &mut out) {
        Ok(()) => Ok(out),
        Err(e) => Err(e),
    }
}

/// The encoded bytes of one neighbor slot.
pub open spec fn slot_bytes(a: Addr) -> Seq<u8> {
    le32(a.0) + le16(a.1)
}

/// Slot `i` of layer `lc` of `node`'s neighbor tuple: the element address of its `i`-th neighbor
/// on that layer, or the empty `(0,0)` slot past the end of its list.
pub open spec fn layer_slot(idx: HnswGraph, node: int, elem_addr: Seq<Addr>, lc: int, i: int) -> Addr {
    let nb = idx.nbrs(node, lc);
    if i < nb.len() { elem_addr[nb[i] as int] } else { (0u32, 0u16) }
}

/// Slot `j` of `node`'s neighbor tuple: upper layers top-down (`m` slots each), then the ground
/// layer's `m0` slots.
pub open spec fn nbr_slot_value(idx: HnswGraph, node: int, elem_addr: Seq<Addr>, m: int, m0: int, j: int) -> Addr {
    let level = idx.level(node) as int;
    if j < level * m {
        layer_slot(idx, node, elem_addr, level - j / m, j % m)
    } else {
        layer_slot(idx, node, elem_addr, 0, j - level * m)
    }
}

/// The encodings of the first `count` slots of `node`'s neighbor tuple.
pub open spec fn slots_bytes(idx: HnswGraph, node: int, elem_addr: Seq<Addr>, m: int, m0: int, count: int) -> Seq<u8>
    decreases count,
{
    if count <= 0 {
        seq![]
    } else {
        slots_bytes(idx, node, elem_addr, m, m0, count - 1) + slot_bytes(nbr_slot_value(idx, node, elem_addr, m, m0, count - 1))
    }
}

/// The encodings of the first `count` slots of layer `lc`.
pub open spec fn layer_bytes(idx: HnswGraph, node: int, elem_addr: Seq<Addr>, lc: int, count: int) -> Seq<u8>
    decreases count,
{
    if count <= 0 {
        seq![]
    } else {
        layer_bytes(idx, node, elem_addr, lc, count - 1) + slot_bytes(layer_slot(idx, node, elem_addr, lc, count - 1))
    }
}

/// The neighbor tuple `encode_neighbors` writes for `node`.
pub open spec fn spec_encode_neighbors(idx: HnswGraph, node: int, elem_addr: Seq<Addr>, m: int, m0: int) -> Seq<u8> {
    let slots = spec_nbr_slots(idx.level(node) as int, m, m0);
    seq![NBR_TAG, 0u8] + le16(slots as u16) + slots_bytes(idx, node, elem_addr, m, m0, slots)
}

/// Every neighbor that `encode_neighbors` looks up (the first `m` of each upper layer, the first
/// `m0` of the ground layer) has an element address.
pub open spec fn neighbor_refs_resolve(idx: HnswGraph, node: int, elem_addr: Seq<Addr>, m: int, m0: int) -> bool {
    forall|lc: int, i: int|
        0 <= lc <= idx.level(node) && 0 <= i < layer_len(lc, m, m0) && i < idx.nbrs(node, lc).len()
            ==> (#[trigger] idx.nbrs(node, lc)[i]) < elem_addr.len()
}

proof fn lemma_slot_bytes_len(a: Addr)
    ensures
        slot_bytes(a).len() == SLOT,
{
    lemma_le_roundtrip();
}

proof fn lemma_layer_bytes_len(idx: HnswGraph, node: int, elem_addr: Seq<Addr>, lc: int, count: int)
    requires
        count >= 0,
    ensures
        layer_bytes(idx, node, elem_addr, lc, count).len() == count * SLOT,
    decreases count,
{
    if count > 0 {
        lemma_layer_bytes_len(idx, node, elem_addr, lc, count - 1);
        lemma_slot_bytes_len(layer_slot(idx, node, elem_addr, lc, count - 1));
    }
}

proof fn lemma_slots_bytes_len(idx: HnswGraph, node: int, elem_addr: Seq<Addr>, m: int, m0: int, count: int)
    requires
        count >= 0,
    ensures
        slots_bytes(idx, node, elem_addr, m, m0, count).len() == count * SLOT,
    decreases count,
{
    if count > 0 {
        lemma_slots_bytes_len(idx, node, elem_addr, m, m0, count - 1);
        lemma_slot_bytes_len(nbr_slot_value(idx, node, elem_addr, m, m0, count - 1));
    }
}

/// Writing a layer's slots after the first `j0` tuple slots extends the tuple's slot encoding,
/// when those slots of the tuple are exactly that layer's.
proof fn lemma_slots_extend(idx: HnswGraph, node: int, elem_addr: Seq<Addr>, m: int, m0: int, lc: int, j0: int, cap: int)
    requires
        j0 >= 0,
        cap >= 0,
        forall|i: int| 0 <= i < cap ==> nbr_slot_value(idx, node, elem_addr, m, m0, j0 + i) == layer_slot(idx, node, elem_addr, lc, i),
    ensures
        slots_bytes(idx, node, elem_addr, m, m0, j0 + cap) == slots_bytes(idx, node, elem_addr, m, m0, j0) + layer_bytes(idx, node, elem_addr, lc, cap),
    decreases cap,
{
    if cap > 0 {
        lemma_slots_extend(idx, node, elem_addr, m, m0, lc, j0, cap - 1);
        assert(nbr_slot_value(idx, node, elem_addr, m, m0, j0 + cap - 1) == layer_slot(idx, node, elem_addr, lc, cap - 1));
        assert(slots_bytes(idx, node, elem_addr, m, m0, j0 + cap) =~= slots_bytes(idx, node, elem_addr, m, m0, j0) + layer_bytes(idx, node, elem_addr, lc, cap));
    }
}

fn push_slot(b: &mut Vec<u8>, a: Addr)
    ensures
        final(b)@ == old(b)@ + slot_bytes(a),
{
    push_u32_le(b, a.0);
    push_u16_le(b, a.1);
    proof {
        assert(b@ =~= old(b)@ + slot_bytes(a));
    }
}

/// Write `cap` slots of layer `lc`: the element addresses of the first `cap` neighbors, then
/// empty slots.
fn write_layer(b: &mut Vec<u8>, idx: &HnswGraph, node: usize, elem_addr: &[Addr], lc: usize, cap: usize, m: Ghost<usize>, m0: Ghost<usize>)
    requires
        idx.wf(),
        node < idx.n(),
        lc <= idx.level(node as int),
        cap == layer_len(lc as int, m@ as int, m0@ as int),
        neighbor_refs_resolve(*idx, node as int, elem_addr@, m@ as int, m0@ as int),
    ensures
        final(b)@ == old(b)@ + layer_bytes(*idx, node as int, elem_addr@, lc as int, cap as int),
{
    let nbrs = idx.node_neighbors(node, lc);
    let mut i: usize = 0;
    while i < cap
        invariant
            idx.wf(),
            node < idx.n(),
            lc <= idx.level(node as int),
            cap == layer_len(lc as int, m@ as int, m0@ as int),
            neighbor_refs_resolve(*idx, node as int, elem_addr@, m@ as int, m0@ as int),
            nbrs@ == idx.nbrs(node as int, lc as int),
            i <= cap,
            b@ == old(b)@ + layer_bytes(*idx, node as int, elem_addr@, lc as int, i as int),
        decreases cap - i,
    {
        let a = if i < nbrs.len() {
            assert(idx.nbrs(node as int, lc as int)[i as int] < elem_addr@.len());
            elem_addr[nbrs[i]]
        } else {
            (0u32, 0u16)
        };
        push_slot(b, a);
        i = i + 1;
        proof {
            assert(b@ =~= old(b)@ + layer_bytes(*idx, node as int, elem_addr@, lc as int, i as int));
        }
    }
}

/// Encode `node`'s neighbor tuple: header with the slot count, then each upper layer's `m`
/// slots top-down, then the ground layer's `m0` slots; a slot holds the neighbor's element
/// address, or `(0,0)` past the end of the neighbor list.
pub fn encode_neighbors(idx: &HnswGraph, node: usize, elem_addr: &[Addr], m: usize, m0: usize) -> (r: Vec<u8>)
    requires
        idx.wf(),
        node < idx.n(),
        neighbor_refs_resolve(*idx, node as int, elem_addr@, m as int, m0 as int),
        spec_nbr_size(idx.level(node as int) as int, m as int, m0 as int) <= usize::MAX,
    ensures
        r@ == spec_encode_neighbors(*idx, node as int, elem_addr@, m as int, m0 as int),
        r@.len() == spec_nbr_size(idx.level(node as int) as int, m as int, m0 as int),
{
    let level = idx.node_level(node);
    let slots = nbr_slots(level, m, m0);
    let mut b: Vec<u8> = Vec::new();
    b.push(NBR_TAG);
    b.push(0u8);
    push_u16_le(&mut b, #[verifier::truncate] (slots as u16));
    let ghost header = b@;
    proof {
        vstd::arithmetic::mul::lemma_mul_nonnegative(level as int, m as int);
        assert((level - level) * m == 0);
        assert(b@ =~= header + slots_bytes(*idx, node as int, elem_addr@, m as int, m0 as int, 0));
    }
    let mut lc: usize = level;
    while lc >= 1
        invariant
            idx.wf(),
            node < idx.n(),
            level == idx.level(node as int),
            lc <= level,
            neighbor_refs_resolve(*idx, node as int, elem_addr@, m as int, m0 as int),
            b@ == header + slots_bytes(*idx, node as int, elem_addr@, m as int, m0 as int, ((level - lc) * m) as int),
        decreases lc,
    {
        let ghost j0 = ((level - lc) * m) as int;
        proof {
            assert forall|i: int| 0 <= i < m implies #[trigger] nbr_slot_value(*idx, node as int, elem_addr@, m as int, m0 as int, j0 + i)
                == layer_slot(*idx, node as int, elem_addr@, lc as int, i) by {
                vstd::arithmetic::div_mod::lemma_fundamental_div_mod_converse(j0 + i, m as int, (level - lc) as int, i);
                vstd::arithmetic::mul::lemma_mul_inequality((level - lc + 1) as int, level as int, m as int);
                vstd::arithmetic::mul::lemma_mul_is_distributive_add_other_way(m as int, (level - lc) as int, 1);
            }
            lemma_slots_extend(*idx, node as int, elem_addr@, m as int, m0 as int, lc as int, j0, m as int);
            vstd::arithmetic::mul::lemma_mul_is_distributive_add_other_way(m as int, (level - lc) as int, 1);
        }
        write_layer(&mut b, idx, node, elem_addr, lc, m, Ghost(m), Ghost(m0));
        lc = lc - 1;
        proof {
            assert(((level - lc) * m) as int == j0 + m);
        }
    }
    proof {
        let j0 = (level * m) as int;
        assert forall|i: int| 0 <= i < m0 implies #[trigger] nbr_slot_value(*idx, node as int, elem_addr@, m as int, m0 as int, j0 + i)
            == layer_slot(*idx, node as int, elem_addr@, 0, i) by {}
        lemma_slots_extend(*idx, node as int, elem_addr@, m as int, m0 as int, 0, j0, m0 as int);
    }
    write_layer(&mut b, idx, node, elem_addr, 0, m0, Ghost(m), Ghost(m0));
    proof {
        assert(b@ =~= spec_encode_neighbors(*idx, node as int, elem_addr@, m as int, m0 as int));
        lemma_le_roundtrip();
        lemma_slots_bytes_len(*idx, node as int, elem_addr@, m as int, m0 as int, slots as int);
    }
    b
}

/// The non-empty addresses among the first `count` slots of layer `lc`, in order.
pub open spec fn layer_live(idx: HnswGraph, node: int, elem_addr: Seq<Addr>, lc: int, count: int) -> Seq<Addr>
    decreases count,
{
    if count <= 0 {
        seq![]
    } else {
        let prev = layer_live(idx, node, elem_addr, lc, count - 1);
        let a = layer_slot(idx, node, elem_addr, lc, count - 1);
        if a != (0u32, 0u16) { prev.push(a) } else { prev }
    }
}

proof fn lemma_slots_bytes_at(idx: HnswGraph, node: int, elem_addr: Seq<Addr>, m: int, m0: int, count: int, j: int)
    requires
        0 <= j < count,
    ensures
        slots_bytes(idx, node, elem_addr, m, m0, count).subrange(j * SLOT, j * SLOT + SLOT)
            == slot_bytes(nbr_slot_value(idx, node, elem_addr, m, m0, j)),
    decreases count,
{
    lemma_slots_bytes_len(idx, node, elem_addr, m, m0, count - 1);
    lemma_slot_bytes_len(nbr_slot_value(idx, node, elem_addr, m, m0, count - 1));
    let prev = slots_bytes(idx, node, elem_addr, m, m0, count - 1);
    let last = slot_bytes(nbr_slot_value(idx, node, elem_addr, m, m0, count - 1));
    if j < count - 1 {
        lemma_slots_bytes_at(idx, node, elem_addr, m, m0, count - 1, j);
        assert((prev + last).subrange(j * SLOT, j * SLOT + SLOT) =~= prev.subrange(j * SLOT, j * SLOT + SLOT));
    } else {
        assert((prev + last).subrange(j * SLOT, j * SLOT + SLOT) =~= last);
    }
}

/// Slot `j` of an encoded neighbor tuple reads back as the address written there.
proof fn lemma_encoded_slot(idx: HnswGraph, node: int, elem_addr: Seq<Addr>, m: int, m0: int, j: int)
    requires
        0 <= j < spec_nbr_slots(idx.level(node) as int, m, m0),
        m >= 0,
        m0 >= 0,
    ensures
        slot_addr(spec_encode_neighbors(idx, node, elem_addr, m, m0), j) == nbr_slot_value(idx, node, elem_addr, m, m0, j),
{
    let slots = spec_nbr_slots(idx.level(node) as int, m, m0);
    let b = spec_encode_neighbors(idx, node, elem_addr, m, m0);
    let body = slots_bytes(idx, node, elem_addr, m, m0, slots);
    let a = nbr_slot_value(idx, node, elem_addr, m, m0, j);
    lemma_le_roundtrip();
    lemma_slots_bytes_at(idx, node, elem_addr, m, m0, slots, j);
    lemma_slots_bytes_len(idx, node, elem_addr, m, m0, slots);
    assert(b.subrange(NBR_HEADER + j * SLOT, NBR_HEADER + j * SLOT + 4) =~= body.subrange(j * SLOT, j * SLOT + SLOT).subrange(0, 4));
    assert(body.subrange(j * SLOT, j * SLOT + SLOT).subrange(0, 4) =~= le32(a.0));
    assert(b.subrange(NBR_HEADER + j * SLOT + 4, NBR_HEADER + j * SLOT + 6) =~= body.subrange(j * SLOT, j * SLOT + SLOT).subrange(4, 6));
    assert(body.subrange(j * SLOT, j * SLOT + SLOT).subrange(4, 6) =~= le16(a.1));
}

/// Decoding layer `lc` of an encoded neighbor tuple yields the non-empty element addresses of that
/// layer's first `m` (or, on the ground, `m0`) neighbors, in order: what `encode_neighbors` writes,
/// `decode_neighbors` reads back.
pub proof fn lemma_neighbors_roundtrip(idx: HnswGraph, node: int, elem_addr: Seq<Addr>, m: int, m0: int, lc: int)
    requires
        0 <= lc <= idx.level(node),
        m >= 0,
        m0 >= 0,
    ensures
        ({
            let b = spec_encode_neighbors(idx, node, elem_addr, m, m0);
            let start = layer_start(idx.level(node) as int, lc, m);
            let len = layer_len(lc, m, m0);
            &&& neighbor_header_ok(b)
            &&& slots_available(b, start) >= len
            &&& live_slots(b, start, len) == layer_live(idx, node, elem_addr, lc, len)
        }),
{
    let level = idx.level(node) as int;
    let slots = spec_nbr_slots(level, m, m0);
    let b = spec_encode_neighbors(idx, node, elem_addr, m, m0);
    let start = layer_start(level, lc, m);
    let len = layer_len(lc, m, m0);
    lemma_le_roundtrip();
    lemma_slots_bytes_len(idx, node, elem_addr, m, m0, slots);
    vstd::arithmetic::mul::lemma_mul_nonnegative(level, m);
    if lc > 0 {
        vstd::arithmetic::mul::lemma_mul_inequality(level - lc + 1, level, m);
        vstd::arithmetic::mul::lemma_mul_is_distributive_add_other_way(m, level - lc, 1);
        vstd::arithmetic::mul::lemma_mul_nonnegative(level - lc, m);
    }
    assert(start + len <= slots);
    assert(b.len() == NBR_HEADER + slots * SLOT);
    assert forall|i: int| 0 <= i < len implies #[trigger] slot_addr(b, start + i) == layer_slot(idx, node, elem_addr, lc, i) by {
        lemma_encoded_slot(idx, node, elem_addr, m, m0, start + i);
        if lc > 0 {
            vstd::arithmetic::div_mod::lemma_fundamental_div_mod_converse(start + i, m, level - lc, i);
        }
    }
    lemma_live_slots_match(idx, node, elem_addr, b, start, lc, len);
}

proof fn lemma_live_slots_match(idx: HnswGraph, node: int, elem_addr: Seq<Addr>, b: Seq<u8>, start: int, lc: int, count: int)
    requires
        forall|i: int| 0 <= i < count ==> #[trigger] slot_addr(b, start + i) == layer_slot(idx, node, elem_addr, lc, i),
    ensures
        live_slots(b, start, count) == layer_live(idx, node, elem_addr, lc, count),
    decreases count,
{
    if count > 0 {
        lemma_live_slots_match(idx, node, elem_addr, b, start, lc, count - 1);
        assert(slot_addr(b, start + (count - 1)) == layer_slot(idx, node, elem_addr, lc, count - 1));
    }
}

} // verus!
