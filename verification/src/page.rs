//! Page images of the blob layout and the pending region: the blob meta item and its chunk pages,
//! and the encoding of one pending `(tid, vector)` entry.
use crate::bytes::{
    le32, le64, le_i64_at, le_u32_at, le_u64_at, lei64, lemma_le_roundtrip, push_bytes, push_i64_le, push_u32_le,
    push_u64_le, read_i64_le, read_u32_le, read_u64_le,
};
use crate::pack::{ceil_div, concat_items};
use vstd::prelude::*;

verus! {

broadcast use vstd::seq_lib::group_seq_properties;

pub const META_MAGIC: u32 = 0x5449_4D45;
pub const META_VERSION: u32 = 1;
/// Max blob bytes per data page.
pub const CHUNK: usize = 8000;

pub const ERR_TRUNCATED_BLOB_META: &'static str = "theodb am: truncated meta page";
pub const ERR_BAD_BLOB_MAGIC: &'static str = "theodb am: bad meta page magic";
pub const ERR_MISSING_DATA_PAGE: &'static str = "theodb am: missing data page";
pub const ERR_BLOB_LENGTH: &'static str = "theodb am: blob length mismatch (corrupt index)";
pub const ERR_PENDING_SHORT: &'static str = "theodb am: corrupt pending item (too short for header)";
pub const ERR_PENDING_TRUNCATED: &'static str = "theodb am: corrupt pending item (truncated vector)";

/// Pages needed for `nbytes` bytes in `CHUNK`-sized chunks (at least one).
pub open spec fn spec_npages_for(nbytes: int) -> int {
    let c = ceil_div(nbytes, CHUNK as int);
    if c >= 1 { c } else { 1 }
}

/// Number of `CHUNK`-sized pages needed to store `nbytes` (at least one, so an empty list still
/// gets a page for the directory to point at).
pub fn npages_for(nbytes: usize) -> (r: u32)
    ensures
        r == (spec_npages_for(nbytes as int) as u32),
{
    let c = nbytes / CHUNK + if nbytes % CHUNK != 0 { 1 } else { 0 };
    assert(c == ceil_div(nbytes as int, CHUNK as int));
    let c = if c >= 1 { c } else { 1 };
    #[verifier::truncate] (c as u32)
}

// ---------------------------------------------------------------------------------------------
// The blob layout: block 0 = meta `[magic][version][blob_len:u64][nchunks:u32]`, blocks
// 1..=nchunks = one chunk each.
// ---------------------------------------------------------------------------------------------

pub open spec fn spec_blob_meta(blob_len: int, nchunks: int) -> Seq<u8> {
    le32(META_MAGIC) + le32(META_VERSION) + le64(blob_len as u64) + le32(nchunks as u32)
}

/// Chunk `i` of a blob.
pub open spec fn blob_chunk(blob: Seq<u8>, i: int) -> Seq<u8> {
    let lo = i * CHUNK;
    let hi = if lo + CHUNK <= blob.len() { lo + CHUNK } else { blob.len() as int };
    blob.subrange(lo, hi)
}

/// The chunk pages of a data region: `CHUNK`-sized slices in order, or one empty page for an
/// empty region (so a directory always has a real page to point at).
pub open spec fn spec_data_chunks(data: Seq<u8>) -> Seq<Seq<u8>> {
    if data.len() == 0 {
        seq![Seq::<u8>::empty()]
    } else {
        Seq::new(ceil_div(data.len() as int, CHUNK as int) as nat, |i: int| blob_chunk(data, i))
    }
}

/// The page items of a blob: the meta, then each chunk.
pub open spec fn spec_blob_page_items(blob: Seq<u8>) -> Seq<Seq<u8>> {
    seq![spec_blob_meta(blob.len() as int, spec_npages_for(blob.len() as int))] + spec_data_chunks(blob)
}

/// Append the chunk pages of `data` to `items`.
pub fn push_chunks(items: &mut Vec<Vec<u8>>, data: &[u8])
    ensures
        final(items).deep_view() == old(items).deep_view() + spec_data_chunks(data@),
{
    let n = data.len();
    if n == 0 {
        let ghost prev = items.deep_view();
        let ghost old_items = items@;
        let e: Vec<u8> = Vec::new();
        proof {
            assert(e.deep_view() =~= Seq::<u8>::empty());
        }
        items.push(e);
        proof {
            assert forall|k: int| 0 <= k < items@.len() implies #[trigger] items.deep_view()[k] == (prev
                + spec_data_chunks(data@))[k] by {
                if k < prev.len() {
                    assert(items@[k] == old_items[k]);
                }
            }
            assert(items.deep_view() =~= prev + spec_data_chunks(data@));
        }
        return;
    }
    let nchunks = n / CHUNK + if n % CHUNK != 0 { 1 } else { 0 };
    assert(nchunks == ceil_div(n as int, CHUNK as int));
    let ghost head = items.deep_view();
    let mut i: usize = 0;
    while i < nchunks
        invariant
            n == data@.len(),
            n > 0,
            nchunks == ceil_div(n as int, CHUNK as int),
            i <= nchunks,
            items.deep_view() =~= head + Seq::new(i as nat, |k: int| blob_chunk(data@, k)),
        decreases nchunks - i,
    {
        assert(i * CHUNK < n) by (nonlinear_arith)
            requires i < nchunks, nchunks == (n + CHUNK - 1) / (CHUNK as int);
        let lo = i * CHUNK;
        let hi = if n - lo >= CHUNK { lo + CHUNK } else { n };
        let chunk = crate::bytes::copy_bytes(&data[lo..hi]);
        let ghost prev = items.deep_view();
        let ghost old_items = items@;
        proof {
            assert(chunk@ =~= blob_chunk(data@, i as int));
            assert(chunk.deep_view() =~= blob_chunk(data@, i as int));
        }
        items.push(chunk);
        proof {
            assert forall|k: int| 0 <= k < items@.len() implies #[trigger] items.deep_view()[k] == prev.push(
                blob_chunk(data@, i as int),
            )[k] by {
                if k < prev.len() {
                    assert(items@[k] == old_items[k]);
                }
            }
            assert(items.deep_view() =~= prev.push(blob_chunk(data@, i as int)));
            assert(head + Seq::new((i + 1) as nat, |k: int| blob_chunk(data@, k)) =~= (head + Seq::new(
                i as nat,
                |k: int| blob_chunk(data@, k),
            )).push(blob_chunk(data@, i as int)));
        }
        i = i + 1;
    }
}

/// The page items (one per page, meta first) a blob is written as.
pub fn blob_page_items(blob: &[u8]) -> (r: Vec<Vec<u8>>)
    ensures
        r.deep_view() == spec_blob_page_items(blob@),
{
    let n = blob.len();
    let nchunks = npages_for(n);
    let mut meta: Vec<u8> = Vec::new();
    push_u32_le(&mut meta, META_MAGIC);
    push_u32_le(&mut meta, META_VERSION);
    push_u64_le(&mut meta, n as u64);
    push_u32_le(&mut meta, nchunks);
    proof {
        assert(meta@ =~= spec_blob_meta(n as int, spec_npages_for(n as int)));
        assert(meta.deep_view() =~= meta@);
    }
    let mut items: Vec<Vec<u8>> = Vec::new();
    let ghost empty = items.deep_view();
    items.push(meta);
    proof {
        assert(items.deep_view() =~= empty.push(spec_blob_meta(n as int, spec_npages_for(n as int))));
    }
    push_chunks(&mut items, blob);
    proof {
        assert(items.deep_view() =~~= spec_blob_page_items(blob@));
    }
    items
}

/// A parsed blob meta: the declared blob length and chunk count.
pub struct BlobMeta {
    pub blob_len: u64,
    pub nchunks: u32,
}

/// The blob meta item `m` parses in a relation of `nblocks` blocks: a full header with the
/// right magic, and every declared chunk page present.
pub open spec fn blob_meta_ok(m: Seq<u8>, nblocks: int) -> bool {
    &&& m.len() >= 20
    &&& le_u32_at(m, 0) == META_MAGIC
    &&& le_u32_at(m, 16) < nblocks
}

/// Parse the blob meta item of a relation of `nblocks` blocks. Typed error on a truncated
/// header, a wrong magic, or a declared chunk page past the relation's end.
pub fn plan_blob_read(m: &[u8], nblocks: u32) -> (r: Result<BlobMeta, String>)
    ensures
        r is Ok <==> blob_meta_ok(m@, nblocks as int),
        r matches Ok(bm) ==> bm.blob_len == le_u64_at(m@, 8) && bm.nchunks == le_u32_at(m@, 16),
        m@.len() < 20 ==> (r matches Err(e) && e@ == ERR_TRUNCATED_BLOB_META@),
        m@.len() >= 20 && le_u32_at(m@, 0) != META_MAGIC ==> (r matches Err(e) && e@ == ERR_BAD_BLOB_MAGIC@),
        m@.len() >= 20 && le_u32_at(m@, 0) == META_MAGIC && le_u32_at(m@, 16) >= nblocks ==> (r matches Err(e)
            && e@ == ERR_MISSING_DATA_PAGE@),
{
    if m.len() < 20 {
        return Err(ERR_TRUNCATED_BLOB_META.to_string());
    }
    let magic = read_u32_le(m, 0);
    if magic != META_MAGIC {
        return Err(ERR_BAD_BLOB_MAGIC.to_string());
    }
    let blob_len = read_u64_le(m, 8);
    let nchunks = read_u32_le(m, 16);
    if nchunks >= nblocks {
        return Err(ERR_MISSING_DATA_PAGE.to_string());
    }
    Ok(BlobMeta { blob_len, nchunks })
}

/// Reassemble a blob from its chunks (each data page's item, in block order); its length must
/// be the declared one.
pub fn blob_from_chunks(chunks: &Vec<Vec<u8>>, blob_len: u64) -> (r: Result<Vec<u8>, String>)
    ensures
        r is Ok <==> concat_items(chunks.deep_view()).len() == blob_len,
        r matches Ok(b) ==> b@ == concat_items(chunks.deep_view()),
        r matches Err(e) ==> e@ == ERR_BLOB_LENGTH@,
{
    let mut blob: Vec<u8> = Vec::new();
    let mut j: usize = 0;
    while j < chunks.len()
        invariant
            j <= chunks@.len(),
            blob@ == concat_items(chunks.deep_view().take(j as int)),
        decreases chunks@.len() - j,
    {
        push_bytes(&mut blob, chunks[j].as_slice());
        proof {
            assert(chunks.deep_view().take(j + 1).drop_last() =~= chunks.deep_view().take(j as int));
            assert(chunks@[j as int].deep_view() =~= chunks@[j as int]@);
        }
        j = j + 1;
    }
    proof {
        assert(chunks.deep_view().take(chunks@.len() as int) =~= chunks.deep_view());
    }
    if blob.len() as u64 != blob_len {
        return Err(ERR_BLOB_LENGTH.to_string());
    }
    Ok(blob)
}

proof fn lemma_concat_chunks(blob: Seq<u8>, k: int)
    requires
        blob.len() > 0,
        0 <= k <= ceil_div(blob.len() as int, CHUNK as int),
    ensures
        concat_items(Seq::new(k as nat, |i: int| blob_chunk(blob, i))) == blob.take(if k * CHUNK <= blob.len() { k * CHUNK } else { blob.len() as int }),
    decreases k,
{
    if k > 0 {
        lemma_concat_chunks(blob, k - 1);
        assert(Seq::new(k as nat, |i: int| blob_chunk(blob, i)).drop_last() =~= Seq::new((k - 1) as nat, |i: int| blob_chunk(blob, i)));
        assert((k - 1) * CHUNK < blob.len()) by (nonlinear_arith)
            requires k <= (blob.len() + CHUNK - 1) / (CHUNK as int), k > 0;
        let lo = (k - 1) * CHUNK;
        let hi = if k * CHUNK <= blob.len() { k * CHUNK } else { blob.len() as int };
        assert(blob.take(lo) + blob.subrange(lo, hi) =~= blob.take(hi));
    } else {
        assert(Seq::new(0, |i: int| blob_chunk(blob, i)) =~= Seq::<Seq<u8>>::empty());
        assert(blob.take(0) =~= Seq::<u8>::empty());
    }
}

/// A region's chunk pages number `spec_npages_for` of its length and concatenate back to it.
pub proof fn lemma_data_chunks(data: Seq<u8>)
    ensures
        spec_data_chunks(data).len() == spec_npages_for(data.len() as int),
        concat_items(spec_data_chunks(data)) == data,
{
    if data.len() == 0 {
        assert(seq![Seq::<u8>::empty()].drop_last() =~= Seq::<Seq<u8>>::empty());
        assert(concat_items(Seq::<Seq<u8>>::empty()) == Seq::<u8>::empty());
        assert(Seq::<u8>::empty() + Seq::<u8>::empty() =~= data);
    } else {
        let nchunks = ceil_div(data.len() as int, CHUNK as int);
        assert(nchunks >= 1 && nchunks * CHUNK >= data.len()) by (nonlinear_arith)
            requires nchunks == (data.len() + CHUNK - 1) / (CHUNK as int), data.len() > 0;
        lemma_concat_chunks(data, nchunks);
        assert(data.take(data.len() as int) =~= data);
    }
}

/// A blob written as `blob_page_items` reads back: its meta parses (in a relation holding at
/// least those pages) with the written length and chunk count, and the chunk pages concatenate
/// to the blob.
pub proof fn lemma_blob_roundtrip(blob: Seq<u8>, nblocks: int)
    requires
        blob.len() <= u32::MAX,
        nblocks >= spec_blob_page_items(blob).len(),
    ensures
        ({
            let items = spec_blob_page_items(blob);
            &&& blob_meta_ok(items[0], nblocks)
            &&& le_u64_at(items[0], 8) == blob.len()
            &&& le_u32_at(items[0], 16) == items.len() - 1
            &&& concat_items(items.subrange(1, items.len() as int)) == blob
        }),
{
    lemma_le_roundtrip();
    let items = spec_blob_page_items(blob);
    let nchunks = if blob.len() == 0 { 1 } else { ceil_div(blob.len() as int, CHUNK as int) };
    let m = spec_blob_meta(blob.len() as int, nchunks);
    assert(nchunks <= blob.len() + 1) by (nonlinear_arith)
        requires blob.len() > 0 ==> nchunks == (blob.len() + CHUNK - 1) / (CHUNK as int), blob.len() == 0 ==> nchunks == 1;
    assert(m.subrange(0, 4) =~= le32(META_MAGIC));
    assert(m.subrange(8, 16) =~= le64(blob.len() as u64));
    assert(m.subrange(16, 20) =~= le32(nchunks as u32));
    if blob.len() == 0 {
        assert(items.subrange(1, items.len() as int) =~= seq![Seq::<u8>::empty()]);
        assert(seq![Seq::<u8>::empty()].drop_last() =~= Seq::<Seq<u8>>::empty());
        assert(concat_items(Seq::<Seq<u8>>::empty()) == Seq::<u8>::empty());
        assert(Seq::<u8>::empty() + Seq::<u8>::empty() =~= blob);
    } else {
        assert(items.subrange(1, items.len() as int) =~= Seq::new(nchunks as nat, |i: int| blob_chunk(blob, i)));
        lemma_concat_chunks(blob, nchunks);
        assert(nchunks * CHUNK >= blob.len()) by (nonlinear_arith)
            requires nchunks == (blob.len() + CHUNK - 1) / (CHUNK as int);
        assert(blob.take(blob.len() as int) =~= blob);
    }
}

// ---------------------------------------------------------------------------------------------
// The pending region's place in the relation
// ---------------------------------------------------------------------------------------------

pub const ERR_INSERT_BEFORE_BUILD: &'static str = "theodb am: aminsert before build";

/// Where an insert appends its pending item, given the pending region's first block `pstart` (0
/// for an unbuilt index) and the relation's block count: an error before the build; the last
/// block when the pending region already has pages (tried first, extended past if full);
/// otherwise `None`, a fresh page.
pub fn pending_append_target(pstart: u32, nblocks: u32) -> (r: Result<Option<u32>, String>)
    ensures
        pstart == 0 ==> (r matches Err(e) && e@ == ERR_INSERT_BEFORE_BUILD@),
        pstart != 0 && nblocks > pstart ==> r == Ok::<Option<u32>, String>(Some((nblocks - 1) as u32)),
        pstart != 0 && nblocks <= pstart ==> r == Ok::<Option<u32>, String>(None),
{
    if pstart == 0 {
        return Err(ERR_INSERT_BEFORE_BUILD.to_string());
    }
    if nblocks > pstart {
        Ok(Some(nblocks - 1))
    } else {
        Ok(None)
    }
}

/// The blocks of the pending region, `lo..hi`: empty for an unbuilt index or when nothing was
/// appended past the main index.
pub fn pending_block_range(pstart: u32, nblocks: u32) -> (r: (u32, u32))
    ensures
        pstart == 0 || nblocks <= pstart ==> r.0 == r.1,
        pstart != 0 && nblocks > pstart ==> r == (pstart, nblocks),
{
    if pstart == 0 || nblocks <= pstart {
        (0, 0)
    } else {
        (pstart, nblocks)
    }
}

/// An item of `len` bytes fits a page with `free` bytes of free space (the item plus its line
/// pointer and alignment slack).
pub fn item_fits(free: usize, len: usize) -> (r: bool)
    ensures
        r == (free >= len + 8),
{
    free >= len && free - len >= 8
}

// ---------------------------------------------------------------------------------------------
// Pending entries: `[tid:i64][dim:u32][f32 x dim]`
// ---------------------------------------------------------------------------------------------

pub open spec fn spec_pending_item(tid: i64, vec: Seq<u8>) -> Seq<u8> {
    lei64(tid) + le32((vec.len() / 4) as u32) + vec
}

/// Encode one pending entry; `vec` holds the vector's little-endian f32 bytes.
pub fn encode_pending(tid: i64, vec: &[u8]) -> (r: Vec<u8>)
    ensures
        r@ == spec_pending_item(tid, vec@),
{
    let mut e: Vec<u8> = Vec::new();
    push_i64_le(&mut e, tid);
    push_u32_le(&mut e, #[verifier::truncate] ((vec.len() / 4) as u32));
    push_bytes(&mut e, vec);
    proof {
        assert(e@ =~= spec_pending_item(tid, vec@));
    }
    e
}

/// A pending item parses: a full header and the vector its header declares.
pub open spec fn pending_decodes(b: Seq<u8>) -> bool {
    b.len() >= 12 && b.len() >= 12 + le_u32_at(b, 8) * 4
}

/// Decode one pending item into its heap id and vector bytes. A short item is corruption: a
/// typed error, never a silently dropped row.
pub fn decode_pending_item(item: &[u8]) -> (r: Result<(i64, Vec<u8>), String>)
    ensures
        r is Ok <==> pending_decodes(item@),
        r matches Ok((tid, v)) ==> tid == le_i64_at(item@, 0) && v@ == item@.subrange(12, 12 + le_u32_at(item@, 8) * 4),
        item@.len() < 12 ==> (r matches Err(e) && e@ == ERR_PENDING_SHORT@),
        item@.len() >= 12 && !pending_decodes(item@) ==> (r matches Err(e) && e@ == ERR_PENDING_TRUNCATED@),
{
    if item.len() < 12 {
        return Err(ERR_PENDING_SHORT.to_string());
    }
    let tid = read_i64_le(item, 0);
    let dim = read_u32_le(item, 8) as usize;
    if (item.len() - 12) / 4 < dim {
        return Err(ERR_PENDING_TRUNCATED.to_string());
    }
    Ok((tid, crate::bytes::copy_bytes(&item[12..12 + dim * 4])))
}

/// A pending entry decodes to the id and vector it was encoded from (for a vector of whole
/// floats whose count fits the 32-bit header).
pub proof fn lemma_pending_roundtrip(tid: i64, vec: Seq<u8>)
    requires
        vec.len() % 4 == 0,
        vec.len() / 4 <= u32::MAX,
    ensures
        ({
            let b = spec_pending_item(tid, vec);
            &&& pending_decodes(b)
            &&& le_i64_at(b, 0) == tid
            &&& b.subrange(12, 12 + le_u32_at(b, 8) * 4) == vec
        }),
{
    lemma_le_roundtrip();
    let b = spec_pending_item(tid, vec);
    assert(b.subrange(0, 8) =~= lei64(tid));
    assert(b.subrange(8, 12) =~= le32((vec.len() / 4) as u32));
    assert(b.subrange(12, 12 + vec.len() as int) =~= vec);
}

} // verus!
