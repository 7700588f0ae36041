//! Maintenance over stored HNSW tuples: tombstone sweeps and counts, slot reuse (finding,
//! reviving and relinking a tombstoned element), enumerating the live entries for a fold, and
//! reassembling the AQ codebook from its pages.
use crate::bytes::{le16, le32, le_u16_at, lei64, lemma_le_roundtrip, read_i64_le, read_u16_le};
use crate::codec::{
    mark_tombstone_in_place, tombstone_applies, tombstoned, decode_element, decode_element_v4, decode_raw_vec, element_decodes, element_v4_decodes, raw_decodes, slot_bytes,
    ElementView,
};
use crate::layout::{
    Addr, ELEM_HEADER, ELEM_TAG, E_DELETED, E_DIM, E_LEVEL, E_TAG, E_TID, E_VEC, E_VERSION, NBR_HEADER, NBR_TAG, N_TAG,
    SLOT,
};
use crate::text::{decimal, push_decimal, push_str};
use vstd::prelude::*;

verus! {

broadcast use vstd::seq_lib::group_seq_properties;

/// `b` has an element header and tag.
pub open spec fn is_element(b: Seq<u8>) -> bool {
    b.len() >= ELEM_HEADER && b[E_TAG as int] == ELEM_TAG
}

/// The heap id of a live element tuple, the only kind a sweep may tombstone; `None` for anything
/// else (not an element, or already a tombstone).
pub fn sweep_candidate(item: &[u8]) -> (r: Option<i64>)
    ensures
        r is Some <==> is_element(item@) && item@[E_DELETED as int] == 0,
        r matches Some(t) ==> t == crate::bytes::le_i64_at(item@, E_TID as int),
{
    if item.len() < ELEM_HEADER || item[E_TAG] != ELEM_TAG || item[E_DELETED] != 0 {
        return None;
    }
    Some(read_i64_le(item, E_TID))
}

/// The sweep candidates of a page's items, item by item: each live element's heap id.
pub fn sweep_candidates(items: &Vec<Vec<u8>>) -> (r: Vec<Option<i64>>)
    ensures
        r@.len() == items@.len(),
        forall|k: int| 0 <= k < items@.len() ==> {
            &&& (#[trigger] r@[k] is Some <==> is_element(items@[k]@) && items@[k]@[E_DELETED as int] == 0)
            &&& (r@[k] matches Some(t) ==> t == crate::bytes::le_i64_at(items@[k]@, E_TID as int))
        },
{
    let mut out: Vec<Option<i64>> = Vec::new();
    let mut k: usize = 0;
    while k < items.len()
        invariant
            k <= items@.len(),
            out@.len() == k,
            forall|q: int| 0 <= q < k ==> {
                &&& (#[trigger] out@[q] is Some <==> is_element(items@[q]@) && items@[q]@[E_DELETED as int] == 0)
                &&& (out@[q] matches Some(t) ==> t == crate::bytes::le_i64_at(items@[q]@, E_TID as int))
            },
        decreases items@.len() - k,
    {
        out.push(sweep_candidate(items[k].as_slice()));
        k = k + 1;
    }
    out
}

/// How many of the first `k` items a sweep with the `dead` verdicts tombstones.
pub open spec fn swept_count(items: Seq<Seq<u8>>, dead: Seq<bool>, k: int) -> int
    decreases k,
{
    if k <= 0 {
        0
    } else {
        swept_count(items, dead, k - 1) + if dead[k - 1] && tombstone_applies(items[k - 1]) { 1int } else { 0int }
    }
}

proof fn lemma_swept_count_bound(items: Seq<Seq<u8>>, dead: Seq<bool>, k: int)
    requires
        k >= 0,
    ensures
        0 <= swept_count(items, dead, k) <= k,
    decreases k,
{
    if k > 0 {
        lemma_swept_count_bound(items, dead, k - 1);
    }
}

/// Tombstone, in place, every live element of a page whose heap row the caller found dead
/// (`dead[k]` for item `k`, asked only of the sweep candidates); everything else is left as it
/// was. Returns how many were tombstoned.
pub fn sweep_page(items: &mut Vec<Vec<u8>>, dead: &Vec<bool>) -> (r: u32)
    requires
        dead@.len() == old(items)@.len(),
        old(items)@.len() <= u32::MAX,
    ensures
        final(items)@.len() == old(items)@.len(),
        forall|k: int| 0 <= k < old(items)@.len() ==> #[trigger] final(items)@[k]@ == (if dead@[k] && tombstone_applies(
            old(items)@[k]@,
        ) {
            tombstoned(old(items)@[k]@)
        } else {
            old(items)@[k]@
        }),
        r == swept_count(old(items).deep_view(), dead@, old(items)@.len() as int),
{
    let ghost orig = items@;
    let ghost ov = items.deep_view();
    let n = items.len();
    assert forall|i: int| 0 <= i < n implies #[trigger] ov[i] == orig[i]@ by {
        assert(orig[i].deep_view() =~= orig[i]@);
    }
    let mut total: u32 = 0;
    let mut k: usize = 0;
    while k < n
        invariant
            n == orig.len(),
            dead@.len() == n,
            n <= u32::MAX,
            ov.len() == n,
            forall|i: int| 0 <= i < n ==> #[trigger] ov[i] == orig[i]@,
            items@.len() == n,
            k <= n,
            forall|q: int| 0 <= q < k ==> #[trigger] items@[q]@ == (if dead@[q] && tombstone_applies(orig[q]@) {
                tombstoned(orig[q]@)
            } else {
                orig[q]@
            }),
            forall|q: int| k <= q < n ==> #[trigger] items@[q] == orig[q],
            total == swept_count(ov, dead@, k as int),
        decreases n - k,
    {
        proof {
            lemma_swept_count_bound(ov, dead@, k as int);
        }
        if dead[k] {
            let flipped = mark_tombstone_in_place(items[k].as_mut_slice());
            if flipped {
                total = total + 1;
            }
        }
        k = k + 1;
    }
    total
}

/// A tombstoned element tuple.
pub open spec fn is_tombstone(b: Seq<u8>) -> bool {
    is_element(b) && b[E_DELETED as int] != 0
}

/// An element tuple churned since the last fold (tombstoned or revived: version above 0).
pub open spec fn is_churned(b: Seq<u8>) -> bool {
    is_element(b) && b[E_VERSION as int] != 0
}

/// How many items of `pages` satisfy `tombstones ? is_tombstone : is_churned`, over the first
/// `p` pages and the first `j` items of page `p`.
pub open spec fn count_items(pages: Seq<Seq<Seq<u8>>>, tombstones: bool, p: int) -> int
    decreases p,
{
    if p <= 0 { 0 } else { count_items(pages, tombstones, p - 1) + count_in_page(pages[p - 1], tombstones, pages[p - 1].len() as int) }
}

pub open spec fn count_in_page(items: Seq<Seq<u8>>, tombstones: bool, j: int) -> int
    decreases j,
{
    if j <= 0 {
        0
    } else {
        count_in_page(items, tombstones, j - 1) + if (if tombstones { is_tombstone(items[j - 1]) } else { is_churned(items[j - 1]) }) {
            1int
        } else {
            0int
        }
    }
}

pub open spec fn total_items(pages: Seq<Seq<Seq<u8>>>, p: int) -> int
    decreases p,
{
    if p <= 0 { 0 } else { total_items(pages, p - 1) + pages[p - 1].len() }
}

proof fn lemma_count_in_page_bound(items: Seq<Seq<u8>>, tombstones: bool, j: int)
    requires
        0 <= j,
    ensures
        0 <= count_in_page(items, tombstones, j) <= j,
    decreases j,
{
    if j > 0 {
        lemma_count_in_page_bound(items, tombstones, j - 1);
    }
}

proof fn lemma_count_items_bound(pages: Seq<Seq<Seq<u8>>>, tombstones: bool, p: int)
    requires
        0 <= p <= pages.len(),
    ensures
        0 <= count_items(pages, tombstones, p) <= total_items(pages, p),
    decreases p,
{
    if p > 0 {
        lemma_count_items_bound(pages, tombstones, p - 1);
        lemma_count_in_page_bound(pages[p - 1], tombstones, pages[p - 1].len() as int);
    }
}

fn count_matching(pages: &Vec<Vec<Vec<u8>>>, tombstones: bool) -> (r: u32)
    requires
        total_items(pages.deep_view(), pages@.len() as int) <= u32::MAX,
    ensures
        r == count_items(pages.deep_view(), tombstones, pages@.len() as int),
{
    let ghost pv = pages.deep_view();
    let mut n: u32 = 0;
    let mut p: usize = 0;
    proof {
        lemma_total_items_mono(pv, pages@.len() as int);
    }
    while p < pages.len()
        invariant
            pv == pages.deep_view(),
            p <= pages@.len(),
            total_items(pv, pages@.len() as int) <= u32::MAX,
            forall|q: int| 0 <= q <= pages@.len() ==> #[trigger] total_items(pv, q) <= total_items(pv, pages@.len() as int),
            n == count_items(pv, tombstones, p as int),
        decreases pages@.len() - p,
    {
        let page = &pages[p];
        let mut j: usize = 0;
        let ghost base = n as int;
        proof {
            lemma_count_items_bound(pv, tombstones, p as int);
            assert(pv[p as int] == page.deep_view());
        }
        while j < page.len()
            invariant
                pv == pages.deep_view(),
                p < pages@.len(),
                pv[p as int] == page.deep_view(),
                j <= page@.len(),
                base == count_items(pv, tombstones, p as int),
                base <= total_items(pv, p as int),
                total_items(pv, p as int + 1) <= u32::MAX,
                n == base + count_in_page(pv[p as int], tombstones, j as int),
            decreases page@.len() - j,
        {
            let item = page[j].as_slice();
            proof {
                assert(page@[j as int].deep_view() =~= page@[j as int]@);
                lemma_count_in_page_bound(pv[p as int], tombstones, j as int);
            }
            let hit = item.len() >= ELEM_HEADER && item[E_TAG] == ELEM_TAG && (if tombstones {
                item[E_DELETED] != 0
            } else {
                item[E_VERSION] != 0
            });
            if hit {
                n = n + 1;
            }
            j = j + 1;
        }
        p = p + 1;
    }
    n
}

proof fn lemma_total_items_mono(pages: Seq<Seq<Seq<u8>>>, k: int)
    requires
        0 <= k <= pages.len(),
    ensures
        forall|q: int| 0 <= q <= k ==> #[trigger] total_items(pages, q) <= total_items(pages, k),
    decreases k,
{
    if k > 0 {
        lemma_total_items_mono(pages, k - 1);
    }
}

/// The number of tombstoned element tuples on the element pages (the numerator of the
/// compaction ratio).
pub fn count_tombstones(pages: &Vec<Vec<Vec<u8>>>) -> (r: u32)
    requires
        total_items(pages.deep_view(), pages@.len() as int) <= u32::MAX,
    ensures
        r == count_items(pages.deep_view(), true, pages@.len() as int),
{
    count_matching(pages, true)
}

/// The number of element tuples churned since the last fold (version above 0: tombstoned or
/// revived), the trigger of the repairing compaction under slot reuse.
pub fn count_churned(pages: &Vec<Vec<Vec<u8>>>) -> (r: u32)
    requires
        total_items(pages.deep_view(), pages@.len() as int) <= u32::MAX,
    ensures
        r == count_items(pages.deep_view(), false, pages@.len() as int),
{
    count_matching(pages, false)
}

// ---------------------------------------------------------------------------------------------
// Slot reuse
// ---------------------------------------------------------------------------------------------

/// Item `(a, b)` is a slot a new node of level `need_level` may reuse: not the entry point's
/// slot, and a well-formed tombstoned element of exactly that level.
pub open spec fn reusable(a: Addr, b: Seq<u8>, entry: Addr, need_level: usize) -> bool {
    &&& a != entry
    &&& element_decodes(b)
    &&& b[E_DELETED as int] != 0
    &&& b[E_LEVEL as int] == need_level
}

/// In-place slot reuse applies to an uncoded index only: reviving a slot of a coded (SBQ or AQ)
/// index would need the new row's code, so such an insert goes to the pending region instead.
pub fn inplace_insert_supported(meta: &crate::meta::HnswMeta) -> (r: bool)
    ensures
        r == (meta.sbq_bits == 0 && meta.aq_m == 0),
{
    meta.sbq_bits == 0 && meta.aq_m == 0
}

/// The first reusable slot among `items` (the element pages' items with their addresses, in
/// page order), never the entry point's own slot; `None` when there is none.
pub fn find_reusable_slot(entry: Addr, items: &Vec<(Addr, Vec<u8>)>, need_level: usize) -> (r: Option<Addr>)
    ensures
        r is None <==> forall|k: int| 0 <= k < items@.len() ==> !reusable(items@[k].0, #[trigger] items@[k].1@, entry, need_level),
        r matches Some(a) ==> exists|k: int|
            0 <= k < items@.len() && items@[k].0 == a && reusable(a, items@[k].1@, entry, need_level)
                && forall|q: int| 0 <= q < k ==> !reusable(items@[q].0, #[trigger] items@[q].1@, entry, need_level),
{
    let mut k: usize = 0;
    while k < items.len()
        invariant
            k <= items@.len(),
            forall|q: int| 0 <= q < k ==> !reusable(items@[q].0, #[trigger] items@[q].1@, entry, need_level),
        decreases items@.len() - k,
    {
        let a = items[k].0;
        let b = items[k].1.as_slice();
        if a.0 != entry.0 || a.1 != entry.1 {
            match decode_element(b) {
                Ok(ev) => {
                    if ev.deleted && ev.level as usize == need_level {
                        return Some(a);
                    }
                },
                Err(_) => {},
            }
        }
        k = k + 1;
    }
    None
}

/// What reviving a tombstoned element as a new node writes: deleted cleared, version bumped,
/// the new id and vector; level, neighbor pointer and dimension kept.
pub open spec fn revived(b: Seq<u8>, tid: i64, vec: Seq<u8>) -> Seq<u8> {
    b.subrange(0, E_DELETED as int) + seq![0u8, (if b[E_VERSION as int] == 255 { 0u8 } else { (b[E_VERSION as int] + 1) as u8 })]
        + lei64(tid) + b.subrange(12, E_VEC as int) + vec
}

/// A tuple that can be revived with a vector of `vec_len` bytes: a tombstoned v1 element (no
/// trailing code) whose dimension matches.
pub open spec fn revivable(b: Seq<u8>, vec_len: int) -> bool {
    &&& is_tombstone(b)
    &&& b.len() == E_VEC + le_u16_at(b, E_DIM as int) * 4
    &&& vec_len == le_u16_at(b, E_DIM as int) * 4
}

/// Revive a tombstoned element tuple in place as a new node (`vec`: its little-endian f32
/// bytes). Only a still-tombstoned v1 tuple of matching dimension is revived; returns whether it
/// was, leaving anything else untouched.
pub fn write_reused_element(item: &mut [u8], tid: i64, vec: &[u8]) -> (r: bool)
    ensures
        r == revivable(old(item)@, vec@.len() as int),
        r ==> final(item)@ == revived(old(item)@, tid, vec@),
        !r ==> final(item)@ == old(item)@,
{
    if item.len() < ELEM_HEADER || item[E_TAG] != ELEM_TAG || item[E_DELETED] == 0 {
        return false;
    }
    let dim = read_u16_le(item, E_DIM) as usize;
    if item.len() != E_VEC + dim * 4 || vec.len() != dim * 4 {
        return false;
    }
    let ghost orig = item@;
    let ghost ver = if orig[E_VERSION as int] == 255 { 0u8 } else { (orig[E_VERSION as int] + 1) as u8 };
    item[E_DELETED] = 0;
    let v = item[E_VERSION];
    item[E_VERSION] = v.wrapping_add(1);
    let tb = vstd::bytes::u64_to_le_bytes(#[verifier::truncate] (tid as u64));
    proof {
        lemma_le_roundtrip();
    }
    let mut k: usize = 0;
    while k < 8
        invariant
            tb@ == lei64(tid),
            tb@.len() == 8,
            orig.len() == E_VEC + vec@.len(),
            item@.len() == orig.len(),
            k <= 8,
            forall|q: int| 0 <= q < item@.len() && !(E_TID <= q < E_TID + k) ==> item@[q] == (if q == E_DELETED {
                0u8
            } else if q == E_VERSION {
                ver
            } else {
                orig[q]
            }),
            forall|q: int| E_TID <= q < E_TID + k ==> item@[q] == tb@[q - E_TID],
        decreases 8 - k,
    {
        item[E_TID + k] = tb[k];
        k = k + 1;
    }
    let ilen = item.len();
    let mut j: usize = 0;
    while j < vec.len()
        invariant
            ilen == item@.len(),
            tb@ == lei64(tid),
            tb@.len() == 8,
            item@.len() == orig.len(),
            orig.len() == E_VEC + vec@.len(),
            j <= vec@.len(),
            forall|q: int| 0 <= q < E_VEC ==> item@[q] == (if q == E_DELETED {
                0u8
            } else if q == E_VERSION {
                ver
            } else if E_TID <= q < E_TID + 8 {
                tb@[q - E_TID]
            } else {
                orig[q]
            }),
            forall|q: int| E_VEC <= q < E_VEC + j ==> item@[q] == vec@[q - E_VEC],
        decreases vec@.len() - j,
    {
        item[E_VEC + j] = vec[j];
        j = j + 1;
    }
    proof {
        lemma_le_roundtrip();
        assert(item@ =~= revived(orig, tid, vec@));
    }
    true
}

/// The ground-layer slot region of a neighbor tuple rewritten: slots `level*m .. level*m + m0`
/// hold `neighbors` (the first `m0` of them), then empty `(0,0)` slots.
pub open spec fn ground_set(b: Seq<u8>, start: int, m0: int, neighbors: Seq<Addr>) -> Seq<u8> {
    b.subrange(0, NBR_HEADER + start * SLOT) + ground_slots(neighbors, m0) + b.subrange(
        NBR_HEADER + (start + m0) * SLOT,
        b.len() as int,
    )
}

/// The encodings of `count` ground slots filled from `neighbors`, padded with empty slots.
pub open spec fn ground_slots(neighbors: Seq<Addr>, count: int) -> Seq<u8>
    decreases count,
{
    if count <= 0 {
        Seq::empty()
    } else {
        ground_slots(neighbors, count - 1) + slot_bytes(
            if count - 1 < neighbors.len() { neighbors[count - 1] } else { (0u32, 0u16) },
        )
    }
}

proof fn lemma_ground_slots_len(neighbors: Seq<Addr>, count: int)
    requires
        count >= 0,
    ensures
        ground_slots(neighbors, count).len() == count * SLOT,
    decreases count,
{
    lemma_le_roundtrip();
    if count > 0 {
        lemma_ground_slots_len(neighbors, count - 1);
    }
}

/// Rewrite the ground-layer slots of a neighbor tuple in place (the reused node's links): up to
/// `m0` addresses, the rest emptied. Returns whether the tuple was a neighbor tuple long enough
/// for its ground region; anything else is left untouched.
#[verifier::spinoff_prover]
#[verifier::rlimit(50)]
pub fn set_ground_neighbors_inplace(b: &mut [u8], level: usize, m: usize, m0: usize, neighbors: &[Addr]) -> (r: bool)
    requires
        NBR_HEADER + (level * m + m0) * SLOT <= usize::MAX,
    ensures
        r == (old(b)@.len() >= NBR_HEADER && old(b)@[N_TAG as int] == NBR_TAG && old(b)@.len() >= NBR_HEADER + (level * m
            + m0) * SLOT),
        r ==> final(b)@ == ground_set(old(b)@, (level * m) as int, m0 as int, neighbors@),
        !r ==> final(b)@ == old(b)@,
{
    if b.len() < NBR_HEADER || b[N_TAG] != NBR_TAG {
        return false;
    }
    proof {
        vstd::arithmetic::mul::lemma_mul_nonnegative(level as int, m as int);
    }
    let start = level * m;
    if b.len() < NBR_HEADER + (start + m0) * SLOT {
        return false;
    }
    let ghost orig = b@;
    let mut i: usize = 0;
    while i < m0
        invariant
            start == level * m,
            orig.len() >= NBR_HEADER + (start + m0) * SLOT,
            NBR_HEADER + (start + m0) * SLOT <= usize::MAX,
            b@.len() == orig.len(),
            i <= m0,
            b@ == orig.subrange(0, NBR_HEADER + start * SLOT) + ground_slots(neighbors@, i as int) + orig.subrange(
                NBR_HEADER + (start + i) * SLOT,
                orig.len() as int,
            ),
        decreases m0 - i,
    {
        let (nb_blk, nb_off) = if i < neighbors.len() {
            neighbors[i]
        } else {
            (0u32, 0u16)
        };
        let o = NBR_HEADER + (start + i) * SLOT;
        let bb = vstd::bytes::u32_to_le_bytes(nb_blk);
        let ob = vstd::bytes::u16_to_le_bytes(nb_off);
        let ghost before = b@;
        b[o] = bb[0];
        b[o + 1] = bb[1];
        b[o + 2] = bb[2];
        b[o + 3] = bb[3];
        b[o + 4] = ob[0];
        b[o + 5] = ob[1];
        proof {
            lemma_le_roundtrip();
            lemma_ground_slots_len(neighbors@, i as int);
            let sb = slot_bytes((nb_blk, nb_off));
            assert(sb =~= bb@ + ob@);
            assert(ground_slots(neighbors@, i + 1) == ground_slots(neighbors@, i as int) + sb);
            assert(b@ =~= orig.subrange(0, NBR_HEADER + start * SLOT) + ground_slots(neighbors@, i + 1) + orig.subrange(
                NBR_HEADER + (start + i + 1) * SLOT,
                orig.len() as int,
            ));
        }
        i = i + 1;
    }
    true
}

/// The ground list after a backward link: `slot` appended when the list has room and does not
/// already hold it; `None` when the link is skipped (the fold rebalances).
pub fn backward_link(ground: &Vec<Addr>, slot: Addr, m0: usize) -> (r: Option<Vec<Addr>>)
    ensures
        r is Some <==> ground@.len() < m0 && !ground@.contains(slot),
        r matches Some(g) ==> g@ == ground@.push(slot),
{
    if ground.len() >= m0 {
        return None;
    }
    let mut k: usize = 0;
    while k < ground.len()
        invariant
            k <= ground@.len(),
            forall|q: int| 0 <= q < k ==> ground@[q] != slot,
        decreases ground@.len() - k,
    {
        if ground[k].0 == slot.0 && ground[k].1 == slot.1 {
            assert(ground@[k as int] == slot);
            return None;
        }
        k = k + 1;
    }
    let mut g: Vec<Addr> = Vec::new();
    let mut j: usize = 0;
    while j < ground.len()
        invariant
            j <= ground@.len(),
            g@ == ground@.take(j as int),
        decreases ground@.len() - j,
    {
        g.push(ground[j]);
        j = j + 1;
        assert(g@ =~= ground@.take(j as int));
    }
    assert(ground@.take(ground@.len() as int) =~= ground@);
    g.push(slot);
    Some(g)
}

// ---------------------------------------------------------------------------------------------
// Enumerating the live entries (the fold's input)
// ---------------------------------------------------------------------------------------------

/// A live stored entry: its heap id and, for a v1/v2 element, its inline vector bytes; for a v4
/// hot element, the address of its raw-vector tuple (and no bytes). `dim` is the recorded dimension.
pub struct LiveEntry {
    pub tid: i64,
    pub raw_addr: Addr,
    pub dim: u16,
    pub vec_bytes: Vec<u8>,
}

pub open spec fn item_decodes(b: Seq<u8>, is_v4: bool) -> bool {
    if is_v4 { element_v4_decodes(b) } else { element_decodes(b) }
}

/// What a live entry records of element tuple `b`.
pub open spec fn entry_of(b: Seq<u8>, is_v4: bool) -> (i64, Addr, u16, Seq<u8>) {
    if is_v4 {
        (
            crate::bytes::le_i64_at(b, crate::layout::E4_TID as int),
            (crate::bytes::le_u32_at(b, crate::layout::E4_RAW_BLK as int), le_u16_at(b, crate::layout::E4_RAW_OFF as int)),
            le_u16_at(b, crate::layout::E4_DIM as int),
            Seq::empty(),
        )
    } else {
        (
            crate::bytes::le_i64_at(b, E_TID as int),
            (0u32, 0u16),
            le_u16_at(b, E_DIM as int),
            b.subrange(E_VEC as int, crate::codec::elem_end(b)),
        )
    }
}

/// The entries of the first `k` element tuples, tombstones dropped, in order.
pub open spec fn live_entries(items: Seq<Seq<u8>>, is_v4: bool, k: int) -> Seq<(i64, Addr, u16, Seq<u8>)>
    decreases k,
{
    if k <= 0 {
        Seq::empty()
    } else {
        let prev = live_entries(items, is_v4, k - 1);
        if items[k - 1][E_DELETED as int] != 0 { prev } else { prev.push(entry_of(items[k - 1], is_v4)) }
    }
}

/// Enumeration keeps exactly the live tuples, in order, for both layouts: every entry is the
/// entry of a tuple whose deleted byte is clear, each tuple giving at most one entry and later
/// tuples later entries, and every such tuple gives its entry.
pub proof fn lemma_live_entries_are_live(items: Seq<Seq<u8>>, is_v4: bool, k: int)
    requires
        0 <= k <= items.len(),
    ensures
        exists|pos: Seq<int>|
            {
                &&& #[trigger] pos.len() == live_entries(items, is_v4, k).len()
                &&& forall|j: int|
                    0 <= j < pos.len() ==> 0 <= #[trigger] pos[j] < k && items[pos[j]][E_DELETED as int] == 0
                        && live_entries(items, is_v4, k)[j] == entry_of(items[pos[j]], is_v4)
                &&& forall|j1: int, j2: int| 0 <= j1 < j2 < pos.len() ==> #[trigger] pos[j1] < #[trigger] pos[j2]
                &&& forall|q: int| 0 <= q < k && items[q][E_DELETED as int] == 0 ==> pos.contains(q)
            },
    decreases k,
{
    if k == 0 {
        let pos = Seq::<int>::empty();
        assert(pos.len() == live_entries(items, is_v4, k).len());
    } else {
        lemma_live_entries_are_live(items, is_v4, k - 1);
        let prev = live_entries(items, is_v4, k - 1);
        let p0 = choose|pos: Seq<int>|
            {
                &&& #[trigger] pos.len() == live_entries(items, is_v4, k - 1).len()
                &&& forall|j: int|
                    0 <= j < pos.len() ==> 0 <= #[trigger] pos[j] < k - 1 && items[pos[j]][E_DELETED as int] == 0
                        && live_entries(items, is_v4, k - 1)[j] == entry_of(items[pos[j]], is_v4)
                &&& forall|j1: int, j2: int| 0 <= j1 < j2 < pos.len() ==> #[trigger] pos[j1] < #[trigger] pos[j2]
                &&& forall|q: int| 0 <= q < k - 1 && items[q][E_DELETED as int] == 0 ==> pos.contains(q)
            };
        if items[k - 1][E_DELETED as int] != 0 {
            let pos = p0;
            assert(pos.len() == live_entries(items, is_v4, k).len());
            assert forall|q: int| 0 <= q < k && items[q][E_DELETED as int] == 0 implies pos.contains(q) by {}
        } else {
            let pos = p0.push(k - 1);
            let cur = live_entries(items, is_v4, k);
            assert(cur == prev.push(entry_of(items[k - 1], is_v4)));
            assert(pos.len() == cur.len());
            assert forall|j: int| 0 <= j < pos.len() implies 0 <= #[trigger] pos[j] < k && items[pos[j]][E_DELETED as int]
                == 0 && cur[j] == entry_of(items[pos[j]], is_v4) by {
                if j < p0.len() {
                    assert(pos[j] == p0[j]);
                    assert(cur[j] == prev[j]);
                }
            }
            assert forall|j1: int, j2: int| 0 <= j1 < j2 < pos.len() implies #[trigger] pos[j1] < #[trigger] pos[j2] by {
                assert(pos[j1] == p0[j1]);
                if j2 < p0.len() {
                    assert(pos[j2] == p0[j2]);
                }
            }
            assert forall|q: int| 0 <= q < k && items[q][E_DELETED as int] == 0 implies pos.contains(q) by {
                if q < k - 1 {
                    assert(p0.contains(q));
                    let i = choose|i: int| 0 <= i < p0.len() && p0[i] == q;
                    assert(pos[i] == p0[i]);
                    assert(pos[i] == q);
                } else {
                    assert(pos[pos.len() - 1] == q);
                }
            }
        }
    }
}

impl View for LiveEntry {
    type V = (i64, Addr, u16, Seq<u8>);

    open spec fn view(&self) -> (i64, Addr, u16, Seq<u8>) {
        (self.tid, self.raw_addr, self.dim, self.vec_bytes@)
    }
}

/// The decode error of an element tuple that does not decode.
pub open spec fn item_error(b: Seq<u8>, is_v4: bool) -> Seq<char> {
    if is_v4 {
        crate::codec::ERR_BAD_ELEMENT_V4@
    } else if b.len() < ELEM_HEADER || b[E_TAG as int] != ELEM_TAG {
        crate::codec::ERR_BAD_ELEMENT@
    } else {
        crate::codec::ERR_TRUNCATED_ELEMENT@
    }
}

/// The live entries of the element tuples `items` (tombstones are dropped: this is where a
/// compaction reclaims them). Any item that is not a well-formed element tuple of the index's
/// layout is an error: the decode error of the first such item.
pub fn enumerate_entries(items: &Vec<Vec<u8>>, is_v4: bool) -> (r: Result<Vec<LiveEntry>, String>)
    ensures
        r is Ok <==> forall|k: int| 0 <= k < items@.len() ==> item_decodes(#[trigger] items@[k]@, is_v4),
        r matches Ok(v) ==> v@.map_values(|e: LiveEntry| e@) == live_entries(items.deep_view(), is_v4, items@.len() as int),
        r matches Err(e) ==> exists|k: int|
            0 <= k < items@.len() && !item_decodes(#[trigger] items@[k]@, is_v4) && e@ == item_error(items@[k]@, is_v4)
                && forall|q: int| 0 <= q < k ==> item_decodes(#[trigger] items@[q]@, is_v4),
{
    let ghost iv = items.deep_view();
    let mut out: Vec<LiveEntry> = Vec::new();
    let mut k: usize = 0;
    while k < items.len()
        invariant
            iv == items.deep_view(),
            k <= items@.len(),
            forall|q: int| 0 <= q < k ==> item_decodes(#[trigger] items@[q]@, is_v4),
            out@.map_values(|e: LiveEntry| e@) == live_entries(iv, is_v4, k as int),
        decreases items@.len() - k,
    {
        let b = items[k].as_slice();
        proof {
            assert(items@[k as int].deep_view() =~= items@[k as int]@);
            assert(iv[k as int] == b@);
        }
        let ghost prev = out@.map_values(|e: LiveEntry| e@);
        if is_v4 {
            match decode_element_v4(b) {
                Ok(ev) => {
                    if !ev.deleted {
                        out.push(LiveEntry { tid: ev.tid, raw_addr: ev.raw_addr, dim: ev.dim, vec_bytes: Vec::new() });
                        proof {
                            assert(out@.map_values(|e: LiveEntry| e@) =~= prev.push(entry_of(b@, true)));
                        }
                    }
                },
                Err(e) => {
                    assert(!item_decodes(items@[k as int]@, is_v4) && e@ == item_error(items@[k as int]@, is_v4));
                    return Err(e);
                },
            }
        } else {
            match decode_element(b) {
                Ok(ev) => {
                    if !ev.deleted {
                        let dim = read_u16_le(b, E_DIM);
                        out.push(
                            LiveEntry {
                                tid: ev.tid,
                                raw_addr: (0u32, 0u16),
                                dim,
                                vec_bytes: crate::bytes::copy_bytes(ev.vec_bytes),
                            },
                        );
                        proof {
                            assert(out@.map_values(|e: LiveEntry| e@) =~= prev.push(entry_of(b@, false)));
                        }
                    }
                },
                Err(e) => {
                    assert(!item_decodes(items@[k as int]@, is_v4) && e@ == item_error(items@[k as int]@, is_v4));
                    return Err(e);
                },
            }
        }
        k = k + 1;
    }
    proof {
        assert(iv.len() == items@.len());
    }
    Ok(out)
}

/// The raw-vector dimension error text: the raw tuple's vector bytes and the bytes the hot
/// tuple's dimension calls for.
pub open spec fn raw_dim_text(have: nat, want: nat) -> Seq<char> {
    "theodb hnsw: v4 raw tuple has "@ + decimal(have) + " f32 bytes, hot tuple dim says "@ + decimal(want)
        + " — REINDEX (v4 corruption)"@
}

fn raw_dim_mismatch_message(have: usize, want: usize) -> (r: String)
    ensures
        r@ == raw_dim_text(have as nat, want as nat),
{
    proof {
        reveal_strlit("theodb hnsw: v4 raw tuple has ");
        reveal_strlit(" f32 bytes, hot tuple dim says ");
        reveal_strlit(" — REINDEX (v4 corruption)");
    }
    let mut s = String::new();
    push_str(&mut s, "theodb hnsw: v4 raw tuple has ");
    proof {
        assert(s@ =~= "theodb hnsw: v4 raw tuple has "@);
    }
    push_decimal(&mut s, have as u64);
    push_str(&mut s, " f32 bytes, hot tuple dim says ");
    push_decimal(&mut s, want as u64);
    push_str(&mut s, " — REINDEX (v4 corruption)");
    s
}

/// The vector bytes of a v4 entry's raw tuple, which must hold exactly `dim` floats.
pub fn raw_entry_vector(raw_item: &[u8], dim: u16) -> (r: Result<Vec<u8>, String>)
    ensures
        r is Ok <==> raw_decodes(raw_item@) && raw_item@.len() - crate::layout::R_VEC == dim * 4,
        r matches Ok(v) ==> v@ == raw_item@.subrange(crate::layout::R_VEC as int, raw_item@.len() as int),
        !raw_decodes(raw_item@) ==> (r matches Err(e) && e@ == crate::codec::ERR_BAD_RAW@),
        raw_decodes(raw_item@) && raw_item@.len() - crate::layout::R_VEC != dim * 4 ==> (r matches Err(e) && e@
            == raw_dim_text((raw_item@.len() - crate::layout::R_VEC) as nat, (dim * 4) as nat)),
{
    let vb = match decode_raw_vec(raw_item) {
        Ok(v) => v,
        Err(e) => {
            return Err(e);
        },
    };
    if vb.len() != dim as usize * 4 {
        return Err(raw_dim_mismatch_message(vb.len(), dim as usize * 4));
    }
    Ok(crate::bytes::copy_bytes(vb))
}

// ---------------------------------------------------------------------------------------------
// Reassembling the AQ codebook from its pages
// ---------------------------------------------------------------------------------------------

/// The codebook-range error text: the page range `[first, end)` and the relation's size.
pub open spec fn codebook_range_text(first: nat, end: nat, nblocks: nat) -> Seq<char> {
    "theodb hnsw: AQ codebook pages ["@ + decimal(first) + ", "@ + decimal(end) + ") out of range (nblocks "@
        + decimal(nblocks) + ") — REINDEX (v3 corruption)"@
}

/// The codebook-length error text: the declared length and the bytes read.
pub open spec fn codebook_length_text(cb_len: nat, read: nat) -> Seq<char> {
    "theodb hnsw: AQ codebook length mismatch (declared "@ + decimal(cb_len) + ", read "@ + decimal(read)
        + ") — REINDEX (v3 corruption)"@
}

fn codebook_range_message(first: u32, end: u64, nblocks: u32) -> (r: String)
    ensures
        r@ == codebook_range_text(first as nat, end as nat, nblocks as nat),
{
    proof {
        reveal_strlit("theodb hnsw: AQ codebook pages [");
        reveal_strlit(", ");
        reveal_strlit(") out of range (nblocks ");
        reveal_strlit(") — REINDEX (v3 corruption)");
    }
    let mut s = String::new();
    push_str(&mut s, "theodb hnsw: AQ codebook pages [");
    proof {
        assert(s@ =~= "theodb hnsw: AQ codebook pages ["@);
    }
    push_decimal(&mut s, first as u64);
    push_str(&mut s, ", ");
    push_decimal(&mut s, end);
    push_str(&mut s, ") out of range (nblocks ");
    push_decimal(&mut s, nblocks as u64);
    push_str(&mut s, ") — REINDEX (v3 corruption)");
    s
}

fn codebook_length_message(cb_len: usize, read: usize) -> (r: String)
    ensures
        r@ == codebook_length_text(cb_len as nat, read as nat),
{
    proof {
        reveal_strlit("theodb hnsw: AQ codebook length mismatch (declared ");
        reveal_strlit(", read ");
        reveal_strlit(") — REINDEX (v3 corruption)");
    }
    let mut s = String::new();
    push_str(&mut s, "theodb hnsw: AQ codebook length mismatch (declared ");
    proof {
        assert(s@ =~= "theodb hnsw: AQ codebook length mismatch (declared "@);
    }
    push_decimal(&mut s, cb_len as u64);
    push_str(&mut s, ", read ");
    push_decimal(&mut s, read as u64);
    push_str(&mut s, ") — REINDEX (v3 corruption)");
    s
}

/// The descriptor's codebook page range must lie inside the relation (checked in 64-bit so the
/// end cannot wrap).
pub fn check_codebook_range(first: u32, npages: u32, nblocks: u32) -> (r: Result<(), String>)
    ensures
        r is Ok <==> first + npages <= nblocks,
        r matches Err(e) ==> e@ == codebook_range_text(first as nat, (first + npages) as nat, nblocks as nat),
{
    let end = first as u64 + npages as u64;
    if end > nblocks as u64 {
        return Err(codebook_range_message(first, end, nblocks));
    }
    Ok(())
}

/// Concatenate the codebook pages' items; the total must equal the declared length.
pub fn assemble_codebook(pages: &Vec<Vec<Vec<u8>>>, cb_len: usize) -> (r: Result<Vec<u8>, String>)
    ensures
        r is Ok <==> crate::pack::concat_pages(pages.deep_view(), 0, pages@.len() as int).len() == cb_len,
        r matches Ok(cb) ==> cb@ == crate::pack::concat_pages(pages.deep_view(), 0, pages@.len() as int),
        r matches Err(e) ==> e@ == codebook_length_text(
            cb_len as nat,
            crate::pack::concat_pages(pages.deep_view(), 0, pages@.len() as int).len(),
        ),
{
    let ghost pv = pages.deep_view();
    let mut cb: Vec<u8> = Vec::new();
    let mut p: usize = 0;
    while p < pages.len()
        invariant
            pv == pages.deep_view(),
            p <= pages@.len(),
            cb@ == crate::pack::concat_pages(pv, 0, p as int),
        decreases pages@.len() - p,
    {
        let page = &pages[p];
        let ghost before = cb@;
        let mut j: usize = 0;
        while j < page.len()
            invariant
                j <= page@.len(),
                cb@ == before + crate::pack::concat_items(page.deep_view().take(j as int)),
            decreases page@.len() - j,
        {
            crate::bytes::push_bytes(&mut cb, page[j].as_slice());
            proof {
                assert(page.deep_view().take(j + 1).drop_last() =~= page.deep_view().take(j as int));
                assert(page@[j as int].deep_view() =~= page@[j as int]@);
            }
            j = j + 1;
        }
        proof {
            assert(page.deep_view().take(page@.len() as int) =~= page.deep_view());
            assert(pv[p as int] == page.deep_view());
        }
        p = p + 1;
    }
    if cb.len() != cb_len {
        return Err(codebook_length_message(cb_len, cb.len()));
    }
    Ok(cb)
}

// ---------------------------------------------------------------------------------------------
// Laws of slot reuse
// ---------------------------------------------------------------------------------------------

/// A revived slot decodes as a live element holding the new id and vector, keeping the old
/// slot's level, neighbor pointer and dimension.
pub proof fn lemma_revive_decodes(b: Seq<u8>, tid: i64, vec: Seq<u8>)
    requires
        revivable(b, vec.len() as int),
    ensures
        ({
            let t = revived(b, tid, vec);
            &&& element_decodes(t)
            &&& t[E_DELETED as int] == 0
            &&& crate::bytes::le_i64_at(t, E_TID as int) == tid
            &&& t.subrange(E_VEC as int, crate::codec::elem_end(t)) == vec
            &&& t[E_LEVEL as int] == b[E_LEVEL as int]
            &&& t.subrange(12, E_VEC as int) == b.subrange(12, E_VEC as int)
            &&& le_u16_at(t, E_DIM as int) == le_u16_at(b, E_DIM as int)
        }),
{
    lemma_le_roundtrip();
    let t = revived(b, tid, vec);
    assert(t.subrange(4, 12) =~= lei64(tid));
    assert(t.subrange(12, 20) =~= b.subrange(12, 20));
    assert(t.subrange(18, 20) =~= b.subrange(18, 20));
    assert(t.subrange(20, t.len() as int) =~= vec);
}

/// After the ground slots of a neighbor tuple are rewritten, decoding its ground layer yields the
/// non-empty addresses among the first `m0` given neighbors, and every upper layer decodes as
/// before.
pub proof fn lemma_ground_set_decodes(b: Seq<u8>, level: int, m: int, m0: int, neighbors: Seq<Addr>)
    requires
        0 <= level,
        0 <= m,
        0 <= m0,
        b.len() >= NBR_HEADER,
        b[N_TAG as int] == NBR_TAG,
        b.len() >= NBR_HEADER + (level * m + m0) * SLOT,
    ensures
        ({
            let t = ground_set(b, level * m, m0, neighbors);
            &&& t.len() == b.len()
            &&& crate::codec::neighbor_header_ok(t)
            &&& crate::codec::live_slots(t, level * m, m0) == ground_live(neighbors, m0)
            &&& forall|j: int| 0 <= j < level * m ==> #[trigger] crate::codec::slot_addr(t, j) == crate::codec::slot_addr(b, j)
        }),
{
    vstd::arithmetic::mul::lemma_mul_nonnegative(level, m);
    let start = level * m;
    let t = ground_set(b, start, m0, neighbors);
    let gs = ground_slots(neighbors, m0);
    lemma_ground_slots_len(neighbors, m0);
    lemma_le_roundtrip();
    assert(t.len() == b.len());
    assert forall|j: int| 0 <= j < start implies #[trigger] crate::codec::slot_addr(t, j) == crate::codec::slot_addr(b, j) by {
        assert(t.subrange(NBR_HEADER + j * SLOT, NBR_HEADER + j * SLOT + 4) =~= b.subrange(NBR_HEADER + j * SLOT, NBR_HEADER + j * SLOT + 4));
        assert(t.subrange(NBR_HEADER + j * SLOT + 4, NBR_HEADER + j * SLOT + 6) =~= b.subrange(NBR_HEADER + j * SLOT + 4, NBR_HEADER + j * SLOT + 6));
    }
    assert forall|i: int| 0 <= i < m0 implies #[trigger] crate::codec::slot_addr(t, start + i) == ground_slot(neighbors, i) by {
        lemma_ground_slots_at(neighbors, m0, i);
        let sb = gs.subrange(i * SLOT, i * SLOT + SLOT);
        assert(t.subrange(NBR_HEADER + (start + i) * SLOT, NBR_HEADER + (start + i) * SLOT + 4) =~= sb.subrange(0, 4));
        assert(t.subrange(NBR_HEADER + (start + i) * SLOT + 4, NBR_HEADER + (start + i) * SLOT + 6) =~= sb.subrange(4, 6));
    }
    lemma_ground_live_match(t, start, neighbors, m0);
}

/// Ground slot `i` after a rewrite from `neighbors`.
pub open spec fn ground_slot(neighbors: Seq<Addr>, i: int) -> Addr {
    if i < neighbors.len() { neighbors[i] } else { (0u32, 0u16) }
}

/// The non-empty addresses among the first `count` ground slots rewritten from `neighbors`.
pub open spec fn ground_live(neighbors: Seq<Addr>, count: int) -> Seq<Addr>
    decreases count,
{
    if count <= 0 {
        Seq::empty()
    } else {
        let prev = ground_live(neighbors, count - 1);
        let a = ground_slot(neighbors, count - 1);
        if a != (0u32, 0u16) { prev.push(a) } else { prev }
    }
}

proof fn lemma_ground_slots_at(neighbors: Seq<Addr>, count: int, i: int)
    requires
        0 <= i < count,
    ensures
        ground_slots(neighbors, count).subrange(i * SLOT, i * SLOT + SLOT) == slot_bytes(ground_slot(neighbors, i)),
    decreases count,
{
    lemma_le_roundtrip();
    lemma_ground_slots_len(neighbors, count - 1);
    let prev = ground_slots(neighbors, count - 1);
    let last = slot_bytes(ground_slot(neighbors, count - 1));
    assert(last.len() == SLOT);
    if i < count - 1 {
        lemma_ground_slots_at(neighbors, count - 1, i);
        assert((prev + last).subrange(i * SLOT, i * SLOT + SLOT) =~= prev.subrange(i * SLOT, i * SLOT + SLOT));
    } else {
        assert((prev + last).subrange(i * SLOT, i * SLOT + SLOT) =~= last);
    }
}

proof fn lemma_ground_live_match(t: Seq<u8>, start: int, neighbors: Seq<Addr>, count: int)
    requires
        forall|i: int| 0 <= i < count ==> #[trigger] crate::codec::slot_addr(t, start + i) == ground_slot(neighbors, i),
    ensures
        crate::codec::live_slots(t, start, count) == ground_live(neighbors, count),
    decreases count,
{
    if count > 0 {
        lemma_ground_live_match(t, start, neighbors, count - 1);
        assert(crate::codec::slot_addr(t, start + (count - 1)) == ground_slot(neighbors, count - 1));
    }
}

} // verus!
