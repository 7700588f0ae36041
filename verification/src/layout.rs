//! Byte layout of the page-native HNSW index: tags, field offsets, and the page arithmetic that
//! decides how many fixed-size tuples share one 8 KB page.
use vstd::prelude::*;

verus! {

pub const HNSW_STRUCT_MAGIC: u32 = 0x5448_5353;
pub const HNSW_STRUCT_VERSION: u32 = 1;
pub const ELEM_TAG: u8 = 1;
pub const NBR_TAG: u8 = 2;

/// PostgreSQL page arithmetic (BLCKSZ 8192): each item costs its 4-byte line pointer plus its
/// MAXALIGN'd length, out of the space left after the page header.
pub const BLCKSZ: usize = 8192;
pub const PAGE_HEADER: usize = 24;
pub const ITEMID: usize = 4;
pub const USABLE: usize = 8168;

/// Element tuple (v1/v2): `[tag][level][deleted][version][tid:i64][nbr_blk:u32][nbr_off:u16][dim:u16][f32 x dim][code]`.
pub const E_TAG: usize = 0;
pub const E_LEVEL: usize = 1;
pub const E_DELETED: usize = 2;
pub const E_VERSION: usize = 3;
pub const E_TID: usize = 4;
pub const E_NBR_BLK: usize = 12;
pub const E_NBR_OFF: usize = 16;
pub const E_DIM: usize = 18;
pub const E_VEC: usize = 20;
pub const ELEM_HEADER: usize = 20;

/// Hot element tuple (v4): the code-only tuple read by the walk; the vector lives in a raw tuple.
pub const E4_TAG: usize = 0;
pub const E4_LEVEL: usize = 1;
pub const E4_DELETED: usize = 2;
pub const E4_VERSION: usize = 3;
pub const E4_TID: usize = 4;
pub const E4_NBR_BLK: usize = 12;
pub const E4_NBR_OFF: usize = 16;
pub const E4_RAW_BLK: usize = 18;
pub const E4_RAW_OFF: usize = 22;
pub const E4_DIM: usize = 24;
pub const E4_CODE: usize = 26;
pub const ELEM_HEADER_V4: usize = 26;
/// The version byte written into a fresh v4 hot element tuple.
pub const HNSW_ELEM_VERSION_V4: u8 = 4;

/// Cold raw vector tuple (v4): `[tag][pad x3][f32 x dim]`.
pub const R_TAG: usize = 0;
pub const R_VEC: usize = 4;
pub const RAW_HEADER: usize = 4;
pub const RAW_TAG: u8 = 3;

/// Neighbor tuple: `[tag][version][count:u16][slot x count]`, a slot being `(blk:u32, off:u16)`.
pub const N_TAG: usize = 0;
pub const N_COUNT: usize = 2;
pub const N_SLOTS: usize = 4;
pub const NBR_HEADER: usize = 4;
pub const SLOT: usize = 6;

/// An index-internal tuple pointer `(BlockNumber, OffsetNumber)`; offsets are 1-based.
pub type Addr = (u32, u16);

/// `n` rounded up to the next multiple of 8.
pub open spec fn spec_maxalign(n: int) -> int {
    n + 7 - (n + 7) % 8
}

pub open spec fn spec_elem_size(dim: int, code_len: int) -> int {
    ELEM_HEADER + dim * 4 + code_len
}

pub open spec fn spec_elem_size_v4(code_len: int) -> int {
    ELEM_HEADER_V4 + code_len
}

pub open spec fn spec_raw_size(dim: int) -> int {
    RAW_HEADER + dim * 4
}

pub open spec fn spec_nbr_slots(level: int, m: int, m0: int) -> int {
    level * m + m0
}

pub open spec fn spec_nbr_size(level: int, m: int, m0: int) -> int {
    NBR_HEADER + spec_nbr_slots(level, m, m0) * SLOT
}

/// How many items of byte size `size` fit on one page (at least one).
pub open spec fn spec_items_per_page(size: int) -> int {
    let per = USABLE as int / (ITEMID + spec_maxalign(size));
    if per >= 1 { per } else { 1 }
}

/// Round `n` up to a multiple of 8 (PostgreSQL `MAXALIGN`).
pub fn maxalign(n: usize) -> (r: usize)
    requires
        n + 7 <= usize::MAX,
    ensures
        r == spec_maxalign(n as int),
        r % 8 == 0,
        n <= r < n + 8,
{
    let s = n + 7;
    let r = s & !7usize;
    assert(s & !7usize == s - s % 8) by (bit_vector);
    r
}

/// Element tuple size: header + f32 vector + optional trailing code.
pub fn elem_size(dim: usize, code_len: usize) -> (r: usize)
    requires
        spec_elem_size(dim as int, code_len as int) <= usize::MAX,
    ensures
        r == spec_elem_size(dim as int, code_len as int),
{
    ELEM_HEADER + dim * 4 + code_len
}

/// Element tuples per page for the given vector dimension and code length (at least one).
pub fn elems_per_page(dim: usize, code_len: usize) -> (r: usize)
    requires
        spec_elem_size(dim as int, code_len as int) + 7 <= usize::MAX,
    ensures
        r == spec_items_per_page(spec_elem_size(dim as int, code_len as int)),
        r >= 1,
{
    items_per_page(elem_size(dim, code_len))
}

/// Hot (v4) element tuple size: header + code bytes, independent of the dimension.
pub fn elem_size_v4(code_len: usize) -> (r: usize)
    requires
        spec_elem_size_v4(code_len as int) <= usize::MAX,
    ensures
        r == spec_elem_size_v4(code_len as int),
{
    ELEM_HEADER_V4 + code_len
}

pub fn elems_per_page_v4(code_len: usize) -> (r: usize)
    requires
        spec_elem_size_v4(code_len as int) + 7 <= usize::MAX,
    ensures
        r == spec_items_per_page(spec_elem_size_v4(code_len as int)),
        r >= 1,
{
    items_per_page(elem_size_v4(code_len))
}

/// Cold raw-vector tuple size: header + `dim` f32s.
pub fn raw_size(dim: usize) -> (r: usize)
    requires
        spec_raw_size(dim as int) <= usize::MAX,
    ensures
        r == spec_raw_size(dim as int),
{
    RAW_HEADER + dim * 4
}

pub fn raws_per_page(dim: usize) -> (r: usize)
    requires
        spec_raw_size(dim as int) + 7 <= usize::MAX,
    ensures
        r == spec_items_per_page(spec_raw_size(dim as int)),
        r >= 1,
{
    items_per_page(raw_size(dim))
}

/// Total neighbor slots of a node at `level`: `m` per upper layer plus `m0` on the ground.
pub fn nbr_slots(level: usize, m: usize, m0: usize) -> (r: usize)
    requires
        spec_nbr_slots(level as int, m as int, m0 as int) <= usize::MAX,
    ensures
        r == spec_nbr_slots(level as int, m as int, m0 as int),
{
    proof {
        vstd::arithmetic::mul::lemma_mul_nonnegative(level as int, m as int);
    }
    level * m + m0
}

pub fn nbr_size(level: usize, m: usize, m0: usize) -> (r: usize)
    requires
        spec_nbr_size(level as int, m as int, m0 as int) <= usize::MAX,
    ensures
        r == spec_nbr_size(level as int, m as int, m0 as int),
{
    proof {
        vstd::arithmetic::mul::lemma_mul_nonnegative(level as int, m as int);
    }
    NBR_HEADER + nbr_slots(level, m, m0) * SLOT
}

/// The number of line pointers on a page whose free-space start is `pd_lower`: the line pointer
/// array after the page header, four bytes each (0 for an uninitialised page).
pub fn page_max_offset(pd_lower: usize) -> (r: usize)
    ensures
        r == (if pd_lower <= PAGE_HEADER { 0 } else { (pd_lower - PAGE_HEADER) / (ITEMID as int) }),
{
    if pd_lower <= PAGE_HEADER {
        0
    } else {
        (pd_lower - PAGE_HEADER) / ITEMID
    }
}

/// The visited-set key of a tuple address: the block number above the 16-bit offset.
pub fn addr_key(a: Addr) -> (r: u64)
    ensures
        r == a.0 * 65536 + a.1,
{
    let (blk, off) = a;
    let r = ((blk as u64) << 16u64) | (off as u64);
    assert(((blk as u64) << 16u64) | (off as u64) == blk * 65536 + off) by (bit_vector);
    r
}

/// Distinct addresses have distinct keys, so a visited set keyed by `addr_key` never confuses
/// two tuples.
pub proof fn lemma_addr_key_injective(a: Addr, b: Addr)
    ensures
        a.0 * 65536 + a.1 == b.0 * 65536 + b.1 ==> a == b,
{
}

fn items_per_page(size: usize) -> (r: usize)
    requires
        size + 7 <= usize::MAX,
    ensures
        r == spec_items_per_page(size as int),
        r >= 1,
{
    let a = maxalign(size);
    let per = USABLE / (ITEMID + a);
    if per >= 1 {
        per
    } else {
        1
    }
}

} // verus!
