//! The structured IVFFlat layout: block 0 holds a fixed meta header; the generation body (at
//! `gen_base`) holds the chunked list directory, the chunked centroid region and each list's
//! chunked entries. Vectors are carried as their little-endian f32 bytes.
use crate::layout::HNSW_STRUCT_MAGIC;
use crate::meta::{decode_meta, hnsw_ranges_fit, meta_decodes, meta_error_text, meta_reads, spec_pending_start, MetaModel};
use crate::text::{decimal, push_decimal, push_str};
use crate::bytes::{le32, lei64, lemma_le_roundtrip, le_i64_at, le_u32_at, push_bytes, push_i64_le, push_u32_le, read_i64_le, read_u32_le};
use crate::pack::{ceil_div, concat_items};
use crate::page::{npages_for, push_chunks, spec_data_chunks, spec_npages_for, CHUNK};
use vstd::prelude::*;

verus! {

broadcast use vstd::seq_lib::group_seq_properties;

pub const IVF_STRUCT_MAGIC: u32 = 0x5449_5653;
/// The format `structured_page_items` writes: v3 carries an explicit generation base.
pub const IVF_STRUCT_VERSION: u32 = 3;
/// The earlier format, read with an implicit generation base of block 1.
pub const IVF_STRUCT_VERSION_V2: u32 = 2;
/// Bytes of one directory entry `[first_block][npages][count]`.
pub const DIR_ENTRY: usize = 12;

/// One list entry: a heap id and its vector's bytes.
pub type ListEntry = (i64, Vec<u8>);

/// One list's entries encoded back to back as `[tid:i64][vector bytes]`.
pub open spec fn spec_encode_list(l: Seq<(i64, Seq<u8>)>) -> Seq<u8>
    decreases l.len(),
{
    if l.len() == 0 {
        Seq::empty()
    } else {
        spec_encode_list(l.drop_last()) + lei64(l.last().0) + l.last().1
    }
}

/// Encode one list's entries as `[tid:i64][vector f32 bytes]` per entry.
pub fn encode_list(entries: &[ListEntry]) -> (r: Vec<u8>)
    ensures
        r@ == spec_encode_list(entries.deep_view()),
{
    let mut b: Vec<u8> = Vec::new();
    let mut i: usize = 0;
    while i < entries.len()
        invariant
            i <= entries@.len(),
            b@ == spec_encode_list(entries.deep_view().take(i as int)),
        decreases entries@.len() - i,
    {
        let (tid, v) = (&entries[i].0, &entries[i].1);
        push_i64_le(&mut b, *tid);
        push_bytes(&mut b, v.as_slice());
        proof {
            assert(entries.deep_view().take(i + 1).drop_last() =~= entries.deep_view().take(i as int));
            assert(entries.deep_view()[i as int].1 =~= v@);
        }
        i = i + 1;
    }
    proof {
        assert(entries.deep_view().take(entries@.len() as int) =~= entries.deep_view());
    }
    b
}

/// Pages taken by the first `i` encoded lists.
pub open spec fn pages_before(encs: Seq<Seq<u8>>, i: int) -> int
    decreases i,
{
    if i <= 0 {
        0
    } else {
        pages_before(encs, i - 1) + spec_npages_for(encs[i - 1].len() as int)
    }
}

/// The encoded lists.
pub open spec fn spec_encoded_lists(lists: Seq<Seq<(i64, Seq<u8>)>>) -> Seq<Seq<u8>> {
    Seq::new(lists.len(), |i: int| spec_encode_list(lists[i]))
}

/// The directory: list `i` starts at `body + pages_before(i)` (absolute block numbers, where
/// `body` is the first block after the directory and centroid regions), spans its own page
/// count, and records its entry count.
pub open spec fn spec_dir(body: int, lists: Seq<Seq<(i64, Seq<u8>)>>) -> Seq<(u32, u32, u32)> {
    let encs = spec_encoded_lists(lists);
    Seq::new(
        lists.len(),
        |i: int|
            (
                (body + pages_before(encs, i)) as u32,
                spec_npages_for(encs[i].len() as int) as u32,
                lists[i].len() as u32,
            ),
    )
}

/// The directory bytes: each entry as three little-endian `u32`s.
pub open spec fn spec_dir_bytes(dir: Seq<(u32, u32, u32)>) -> Seq<u8>
    decreases dir.len(),
{
    if dir.len() == 0 {
        Seq::empty()
    } else {
        spec_dir_bytes(dir.drop_last()) + le32(dir.last().0) + le32(dir.last().1) + le32(dir.last().2)
    }
}

/// The meta header `[magic][version=3][metric:u8][dim][nlists][dir_npages][centroid_npages][gen_base]`.
pub open spec fn spec_ivf_meta(base: u32, dim: u32, metric_tag: u8, nlists: u32, dir_np: u32, c_np: u32) -> Seq<u8> {
    le32(IVF_STRUCT_MAGIC) + le32(IVF_STRUCT_VERSION) + seq![metric_tag] + le32(dim) + le32(nlists) + le32(dir_np)
        + le32(c_np) + le32(base)
}

/// The chunk pages of the first `k` encoded lists, in order.
pub open spec fn list_chunk_items(encs: Seq<Seq<u8>>, k: int) -> Seq<Seq<u8>>
    decreases k,
{
    if k <= 0 {
        Seq::empty()
    } else {
        list_chunk_items(encs, k - 1) + spec_data_chunks(encs[k - 1])
    }
}

/// Pages of the directory region (sized by the number of centroids).
pub open spec fn spec_dir_npages(centroids: Seq<Seq<u8>>) -> int {
    spec_npages_for((centroids.len() as u32) * DIR_ENTRY)
}

/// Pages of the centroid region.
pub open spec fn spec_centroid_npages(centroids: Seq<Seq<u8>>) -> int {
    spec_npages_for(concat_items(centroids).len() as int)
}

/// First block of the list pages of a generation based at `base`.
pub open spec fn spec_body_start(base: int, centroids: Seq<Seq<u8>>) -> int {
    base + spec_dir_npages(centroids) + spec_centroid_npages(centroids)
}

/// The page items of a generation based at `base`: the meta, the directory chunks, the
/// centroid chunks, then each list's chunks.
pub open spec fn spec_structured_items(
    base: u32,
    dim: u32,
    metric_tag: u8,
    centroids: Seq<Seq<u8>>,
    lists: Seq<Seq<(i64, Seq<u8>)>>,
) -> Seq<Seq<u8>> {
    let encs = spec_encoded_lists(lists);
    let body = spec_body_start(base as int, centroids);
    seq![
        spec_ivf_meta(
            base,
            dim,
            metric_tag,
            #[verifier::truncate] (centroids.len() as u32),
            spec_dir_npages(centroids) as u32,
            spec_centroid_npages(centroids) as u32,
        ),
    ] + spec_data_chunks(spec_dir_bytes(spec_dir(body, lists))) + spec_data_chunks(concat_items(centroids))
        + list_chunk_items(encs, encs.len() as int)
}

/// The whole generation's block range fits the 32-bit block numbers, and the directory size
/// fits `usize`.
pub open spec fn structured_fits(base: int, centroids: Seq<Seq<u8>>, lists: Seq<Seq<(i64, Seq<u8>)>>) -> bool {
    let encs = spec_encoded_lists(lists);
    &&& spec_body_start(base, centroids) + pages_before(encs, encs.len() as int) <= u32::MAX
    &&& (centroids.len() as u32) * DIR_ENTRY <= usize::MAX
}

proof fn lemma_pages_before_mono(encs: Seq<Seq<u8>>, i: int, j: int)
    requires
        0 <= i <= j,
    ensures
        pages_before(encs, i) <= pages_before(encs, j),
        pages_before(encs, i) >= 0,
    decreases j,
{
    if j > i {
        lemma_pages_before_mono(encs, i, j - 1);
    } else if i > 0 {
        lemma_pages_before_mono(encs, i - 1, i - 1);
    }
}

proof fn lemma_npages_pos(n: int)
    requires
        n >= 0,
    ensures
        spec_npages_for(n) >= 1,
{
}

/// The centroids' bytes back to back.
fn concat_centroids(centroids: &[Vec<u8>]) -> (r: Vec<u8>)
    ensures
        r@ == concat_items(centroids.deep_view()),
{
    let ghost cs = centroids.deep_view();
    let mut cbytes: Vec<u8> = Vec::new();
    let mut i: usize = 0;
    while i < centroids.len()
        invariant
            i <= centroids@.len(),
            cs == centroids.deep_view(),
            cbytes@ == concat_items(cs.take(i as int)),
        decreases centroids@.len() - i,
    {
        push_bytes(&mut cbytes, centroids[i].as_slice());
        proof {
            assert(cs.take(i + 1).drop_last() =~= cs.take(i as int));
            assert(cs[i as int] =~= centroids@[i as int]@);
        }
        i = i + 1;
    }
    proof {
        assert(cs.take(centroids@.len() as int) =~= cs);
    }
    cbytes
}

/// Each list encoded.
fn encode_lists(lists: &[Vec<ListEntry>]) -> (r: Vec<Vec<u8>>)
    ensures
        r.deep_view() == spec_encoded_lists(lists.deep_view()),
{
    let ghost ls = lists.deep_view();
    let ghost encs = spec_encoded_lists(ls);
    let mut encoded: Vec<Vec<u8>> = Vec::new();
    let mut i: usize = 0;
    while i < lists.len()
        invariant
            i <= lists@.len(),
            ls == lists.deep_view(),
            encs == spec_encoded_lists(ls),
            encoded.deep_view() =~= encs.take(i as int),
        decreases lists@.len() - i,
    {
        let e = encode_list(lists[i].as_slice());
        let ghost prev = encoded.deep_view();
        let ghost old_enc = encoded@;
        proof {
            assert(lists@[i as int].deep_view() =~= ls[i as int]);
            assert(e.deep_view() =~= e@);
            assert(encs[i as int] == e@);
            assert(encoded.deep_view().len() == encoded@.len());
        }
        encoded.push(e);
        proof {
            assert forall|k: int| 0 <= k < encoded@.len() implies #[trigger] encoded.deep_view()[k] == encs.take(
                i + 1,
            )[k] by {
                if k < prev.len() {
                    assert(encoded@[k] == old_enc[k]);
                }
            }
            assert(encoded.deep_view() =~= encs.take(i + 1));
        }
        i = i + 1;
    }
    proof {
        assert(encs.take(lists@.len() as int) =~= encs);
    }
    encoded
}

/// The directory bytes of lists whose pages start at block `body`.
fn directory_bytes(body: u32, encoded: &Vec<Vec<u8>>, lists: &[Vec<ListEntry>]) -> (r: Vec<u8>)
    requires
        encoded.deep_view() == spec_encoded_lists(lists.deep_view()),
        body + pages_before(encoded.deep_view(), encoded@.len() as int) <= u32::MAX,
    ensures
        r@ == spec_dir_bytes(spec_dir(body as int, lists.deep_view())),
{
    let ghost ls = lists.deep_view();
    let ghost encs = spec_encoded_lists(ls);
    proof {
        lemma_pages_before_mono(encs, 0, encs.len() as int);
    }
    let mut cursor: u32 = body;
    let mut dirbytes: Vec<u8> = Vec::new();
    let mut i: usize = 0;
    while i < encoded.len()
        invariant
            i <= encoded@.len(),
            encoded@.len() == lists@.len(),
            ls == lists.deep_view(),
            encs == spec_encoded_lists(ls),
            encoded.deep_view() == encs,
            body + pages_before(encs, encs.len() as int) <= u32::MAX,
            cursor == body + pages_before(encs, i as int),
            dirbytes@ == spec_dir_bytes(spec_dir(body as int, ls).take(i as int)),
        decreases encoded@.len() - i,
    {
        proof {
            lemma_pages_before_mono(encs, i + 1, encs.len() as int);
            assert(encoded@[i as int]@ =~= encs[i as int]);
        }
        let np = npages_for(encoded[i].len());
        let cnt = #[verifier::truncate] (lists[i].len() as u32);
        push_u32_le(&mut dirbytes, cursor);
        push_u32_le(&mut dirbytes, np);
        push_u32_le(&mut dirbytes, cnt);
        proof {
            assert(spec_dir(body as int, ls).take(i + 1).drop_last() =~= spec_dir(body as int, ls).take(i as int));
            assert(lists@[i as int]@.len() == ls[i as int].len());
        }
        cursor = cursor + np;
        i = i + 1;
    }
    proof {
        assert(spec_dir(body as int, ls).take(encoded@.len() as int) =~= spec_dir(body as int, ls));
    }
    dirbytes
}

/// The page items of a structured generation based at `base`: the meta (block 0, written last
/// by a fold), then the body blocks `base..` in order. Vectors are little-endian f32 bytes.
pub fn structured_page_items(
    base: u32,
    dim: u32,
    metric_tag: u8,
    centroids: &[Vec<u8>],
    lists: &[Vec<ListEntry>],
) -> (r: Vec<Vec<u8>>)
    requires
        structured_fits(base as int, centroids.deep_view(), lists.deep_view()),
    ensures
        r.deep_view() == spec_structured_items(base, dim, metric_tag, centroids.deep_view(), lists.deep_view()),
{
    let ghost cs = centroids.deep_view();
    let ghost ls = lists.deep_view();
    let ghost encs = spec_encoded_lists(ls);
    let nlists = #[verifier::truncate] (centroids.len() as u32);
    let cbytes = concat_centroids(centroids);
    let centroid_npages = npages_for(cbytes.len());
    let encoded = encode_lists(lists);
    proof {
        lemma_pages_before_mono(encs, 0, encs.len() as int);
    }
    let dir_npages = npages_for(nlists as usize * DIR_ENTRY);
    let dirbytes = directory_bytes(base + dir_npages + centroid_npages, &encoded, lists);
    let mut meta: Vec<u8> = Vec::new();
    push_u32_le(&mut meta, IVF_STRUCT_MAGIC);
    push_u32_le(&mut meta, IVF_STRUCT_VERSION);
    meta.push(metric_tag);
    push_u32_le(&mut meta, dim);
    push_u32_le(&mut meta, nlists);
    push_u32_le(&mut meta, dir_npages);
    push_u32_le(&mut meta, centroid_npages);
    push_u32_le(&mut meta, base);
    let ghost meta_spec = spec_ivf_meta(
        base,
        dim,
        metric_tag,
        #[verifier::truncate] (cs.len() as u32),
        spec_dir_npages(cs) as u32,
        spec_centroid_npages(cs) as u32,
    );
    proof {
        assert(meta@ =~= meta_spec);
        assert(meta.deep_view() =~= meta@);
    }
    let mut items: Vec<Vec<u8>> = Vec::new();
    let ghost empty = items.deep_view();
    items.push(meta);
    proof {
        assert(items.deep_view() =~= empty.push(meta_spec));
    }
    push_chunks(&mut items, dirbytes.as_slice());
    push_chunks(&mut items, cbytes.as_slice());
    let ghost head = items.deep_view();
    let mut i: usize = 0;
    while i < encoded.len()
        invariant
            i <= encoded@.len(),
            encoded.deep_view() == encs,
            items.deep_view() == head + list_chunk_items(encs, i as int),
        decreases encoded@.len() - i,
    {
        proof {
            assert(encoded@[i as int]@ =~= encs[i as int]);
        }
        push_chunks(&mut items, encoded[i].as_slice());
        proof {
            assert(head + list_chunk_items(encs, i + 1) =~= head + list_chunk_items(encs, i as int)
                + spec_data_chunks(encs[i as int]));
        }
        i = i + 1;
    }
    proof {
        assert(items.deep_view() =~~= spec_structured_items(base, dim, metric_tag, cs, ls));
    }
    items
}

/// The page items of a structured generation based at `base`, for a fold that writes items
/// `1..` to blocks `base..` and the meta to block 0 last.
pub fn ivf_structured_items(
    base: u32,
    dim: u32,
    metric_tag: u8,
    centroids: &[Vec<u8>],
    lists: &[Vec<ListEntry>],
) -> (r: Vec<Vec<u8>>)
    requires
        structured_fits(base as int, centroids.deep_view(), lists.deep_view()),
    ensures
        r.deep_view() == spec_structured_items(base, dim, metric_tag, centroids.deep_view(), lists.deep_view()),
{
    structured_page_items(base, dim, metric_tag, centroids, lists)
}

// ---------------------------------------------------------------------------------------------
// Reading a generation back
// ---------------------------------------------------------------------------------------------

/// The fixed header of a structured meta item.
pub struct IvfHeader {
    pub version: u32,
    pub metric_tag: u8,
    pub dim: u32,
    pub nlists: u32,
    pub dir_npages: u32,
    pub centroid_npages: u32,
    /// First block of the generation body (1 for a v2 index).
    pub gen_base: u32,
}

/// Why a structured meta header does not parse.
pub enum IvfHeaderError {
    Truncated,
    BadMagic,
    Unsupported(u32),
    MissingGenBase,
}

/// What is wrong with a meta header, checked in order: too short for the fixed header, wrong
/// magic, a version other than 2 or 3, a v3 header without its generation base.
pub open spec fn ivf_header_error(m: Seq<u8>) -> Option<IvfHeaderError> {
    if m.len() < 25 {
        Some(IvfHeaderError::Truncated)
    } else if le_u32_at(m, 0) != IVF_STRUCT_MAGIC {
        Some(IvfHeaderError::BadMagic)
    } else if le_u32_at(m, 4) != IVF_STRUCT_VERSION_V2 && le_u32_at(m, 4) != IVF_STRUCT_VERSION {
        Some(IvfHeaderError::Unsupported(le_u32_at(m, 4)))
    } else if le_u32_at(m, 4) == IVF_STRUCT_VERSION && m.len() < 29 {
        Some(IvfHeaderError::MissingGenBase)
    } else {
        None
    }
}

/// `h` holds what the meta header `m` records; a v2 header's generation starts at block 1.
pub open spec fn ivf_header_reads(h: IvfHeader, m: Seq<u8>) -> bool {
    &&& h.version == le_u32_at(m, 4)
    &&& h.metric_tag == m[8]
    &&& h.dim == le_u32_at(m, 9)
    &&& h.nlists == le_u32_at(m, 13)
    &&& h.dir_npages == le_u32_at(m, 17)
    &&& h.centroid_npages == le_u32_at(m, 21)
    &&& h.gen_base == (if h.version == IVF_STRUCT_VERSION { le_u32_at(m, 25) } else { 1u32 })
}

/// Parse a structured meta header.
pub fn parse_ivf_header(m: &[u8]) -> (r: Result<IvfHeader, IvfHeaderError>)
    ensures
        ivf_header_error(m@) is None ==> (r matches Ok(h) && ivf_header_reads(h, m@)),
        ivf_header_error(m@) matches Some(e) ==> r == Err::<IvfHeader, IvfHeaderError>(e),
{
    if m.len() < 25 {
        return Err(IvfHeaderError::Truncated);
    }
    if read_u32_le(m, 0) != IVF_STRUCT_MAGIC {
        return Err(IvfHeaderError::BadMagic);
    }
    let version = read_u32_le(m, 4);
    if version != IVF_STRUCT_VERSION_V2 && version != IVF_STRUCT_VERSION {
        return Err(IvfHeaderError::Unsupported(version));
    }
    let gen_base = if version == IVF_STRUCT_VERSION {
        if m.len() < 29 {
            return Err(IvfHeaderError::MissingGenBase);
        }
        read_u32_le(m, 25)
    } else {
        1
    };
    Ok(IvfHeader {
        version,
        metric_tag: m[8],
        dim: read_u32_le(m, 9),
        nlists: read_u32_le(m, 13),
        dir_npages: read_u32_le(m, 17),
        centroid_npages: read_u32_le(m, 21),
        gen_base,
    })
}

/// The unsupported-format error text, after the caller's `prefix`.
pub open spec fn unsupported_ivf_text(prefix: Seq<char>, version: nat) -> Seq<char> {
    prefix + ": unsupported structured format v"@ + decimal(version)
        + " — REINDEX to upgrade to the M48 relocatable generation (v3)"@
}

fn unsupported_ivf_message(prefix: &str, version: u32) -> (r: String)
    requires
        4 * (prefix@.len() + 200) <= isize::MAX,
    ensures
        r@ == unsupported_ivf_text(prefix@, version as nat),
{
    proof {
        reveal_strlit(": unsupported structured format v");
        reveal_strlit(" — REINDEX to upgrade to the M48 relocatable generation (v3)");
    }
    let mut s = String::new();
    push_str(&mut s, prefix);
    proof {
        assert(s@ =~= prefix@);
    }
    push_str(&mut s, ": unsupported structured format v");
    push_decimal(&mut s, version as u64);
    push_str(&mut s, " — REINDEX to upgrade to the M48 relocatable generation (v3)");
    s
}

pub const ERR_IVF_TRUNCATED_META: &'static str = "theodb ivf: truncated structured meta";
pub const ERR_IVF_BAD_MAGIC: &'static str = "theodb ivf: bad structured meta magic";
pub const ERR_IVF_MISSING_GEN_BASE: &'static str = "theodb ivf: truncated v3 meta (missing gen_base)";
pub const ERR_IVF_TRUNCATED_DIR: &'static str = "theodb ivf: truncated list directory";
pub const ERR_IVF_TRUNCATED_CENTROIDS: &'static str = "theodb ivf: truncated centroid region";
pub const ERR_IVF_TRUNCATED_LIST: &'static str = "theodb ivf: truncated list page";
pub const ERR_AM_TRUNCATED_META: &'static str = "theodb am: truncated meta page";
pub const ERR_AM_TRUNCATED_STRUCTURED: &'static str = "theodb am: truncated structured meta";
pub const ERR_AM_MISSING_GEN_BASE: &'static str = "theodb am: truncated v3 meta (missing gen_base)";
pub const ERR_AM_TRUNCATED_DIR: &'static str = "theodb am: truncated directory";
pub const ERR_AM_TRUNCATED_BLOB_META: &'static str = "theodb am: truncated blob meta";

/// Parse the meta header of a structured IVFFlat index for a scan or a vacuum. Typed error on a
/// truncated header, a wrong magic, an unsupported version or a v3 header without its base.
pub fn read_ivf_header(m: &[u8]) -> (r: Result<IvfHeader, String>)
    ensures
        r is Ok <==> ivf_header_error(m@) is None,
        r matches Ok(h) ==> ivf_header_reads(h, m@),
        ivf_header_error(m@) == Some(IvfHeaderError::Truncated) ==> (r matches Err(e) && e@
            == ERR_IVF_TRUNCATED_META@),
        ivf_header_error(m@) == Some(IvfHeaderError::BadMagic) ==> (r matches Err(e) && e@ == ERR_IVF_BAD_MAGIC@),
        ivf_header_error(m@) == Some(IvfHeaderError::MissingGenBase) ==> (r matches Err(e) && e@
            == ERR_IVF_MISSING_GEN_BASE@),
        ivf_header_error(m@) matches Some(IvfHeaderError::Unsupported(v)) ==> (r matches Err(e) && e@
            == unsupported_ivf_text("theodb ivf"@, v as nat)),
{
    proof {
        reveal_strlit("theodb ivf");
    }
    match parse_ivf_header(m) {
        Ok(h) => Ok(h),
        Err(IvfHeaderError::Truncated) => Err(ERR_IVF_TRUNCATED_META.to_string()),
        Err(IvfHeaderError::BadMagic) => Err(ERR_IVF_BAD_MAGIC.to_string()),
        Err(IvfHeaderError::Unsupported(v)) => Err(unsupported_ivf_message("theodb ivf", v)),
        Err(IvfHeaderError::MissingGenBase) => Err(ERR_IVF_MISSING_GEN_BASE.to_string()),
    }
}

/// Directory entry `i` of the directory bytes `d`.
pub open spec fn dir_entry_at(d: Seq<u8>, i: int) -> (u32, u32, u32) {
    (le_u32_at(d, i * 12), le_u32_at(d, i * 12 + 4), le_u32_at(d, i * 12 + 8))
}

/// Decode the first `nlists` entries of the directory region `dbytes`; `None` when the region is
/// shorter than that.
pub fn decode_dir_entries(dbytes: &[u8], nlists: u32) -> (r: Option<Vec<(u32, u32, u32)>>)
    requires
        nlists * DIR_ENTRY <= usize::MAX,
    ensures
        r is Some <==> dbytes@.len() >= nlists * 12,
        r matches Some(v) ==> v@ == Seq::new(nlists as nat, |i: int| dir_entry_at(dbytes@, i)),
{
    let n = nlists as usize;
    if dbytes.len() < n * DIR_ENTRY {
        return None;
    }
    let mut dir: Vec<(u32, u32, u32)> = Vec::new();
    let mut i: usize = 0;
    while i < n
        invariant
            n == nlists,
            i <= n,
            n * 12 <= usize::MAX,
            dbytes@.len() >= n * 12,
            dir@ == Seq::new(i as nat, |k: int| dir_entry_at(dbytes@, k)),
        decreases n - i,
    {
        assert(i * 12 + 12 <= n * 12) by (nonlinear_arith)
            requires i < n;
        let o = i * DIR_ENTRY;
        dir.push((read_u32_le(dbytes, o), read_u32_le(dbytes, o + 4), read_u32_le(dbytes, o + 8)));
        i = i + 1;
        proof {
            assert(dir@ =~= Seq::new(i as nat, |k: int| dir_entry_at(dbytes@, k)));
        }
    }
    Some(dir)
}

/// Decode the list directory of a structured index from its region's bytes.
pub fn decode_ivf_directory(h: &IvfHeader, dbytes: &[u8]) -> (r: Result<Vec<(u32, u32, u32)>, String>)
    requires
        h.nlists * DIR_ENTRY <= usize::MAX,
    ensures
        r is Ok <==> dbytes@.len() >= h.nlists * 12,
        r matches Ok(v) ==> v@ == Seq::new(h.nlists as nat, |i: int| dir_entry_at(dbytes@, i)),
        r matches Err(e) ==> e@ == ERR_IVF_TRUNCATED_DIR@,
{
    match decode_dir_entries(dbytes, h.nlists) {
        Some(v) => Ok(v),
        None => Err(ERR_IVF_TRUNCATED_DIR.to_string()),
    }
}

/// `a + b`, saturating at `u32::MAX`.
pub open spec fn sat_add(a: int, b: int) -> int {
    if a + b > u32::MAX { u32::MAX as int } else { a + b }
}

/// The saturating sum of the generation base, the directory and centroid page counts, and the
/// page counts of the first `k` directory entries.
pub open spec fn ivf_pages_total(h: IvfHeader, d: Seq<u8>, k: int) -> int
    decreases k,
{
    if k <= 0 {
        sat_add(sat_add(h.gen_base as int, h.dir_npages as int), h.centroid_npages as int)
    } else {
        sat_add(ivf_pages_total(h, d, k - 1), le_u32_at(d, (k - 1) * 12 + 4) as int)
    }
}

/// First block of the pending region of a structured IVFFlat index: past the generation body
/// (base, directory, centroids and every list's pages), saturating at `u32::MAX`.
pub fn ivf_pending_start(h: &IvfHeader, dbytes: &[u8]) -> (r: Result<u32, String>)
    requires
        h.nlists * DIR_ENTRY <= usize::MAX,
    ensures
        r is Ok <==> dbytes@.len() >= h.nlists * 12,
        r matches Ok(n) ==> n == ivf_pages_total(*h, dbytes@, h.nlists as int),
        r matches Err(e) ==> e@ == ERR_AM_TRUNCATED_DIR@,
{
    let n = h.nlists as usize;
    if dbytes.len() < n * DIR_ENTRY {
        return Err(ERR_AM_TRUNCATED_DIR.to_string());
    }
    let mut total = h.gen_base.saturating_add(h.dir_npages).saturating_add(h.centroid_npages);
    let mut i: usize = 0;
    while i < n
        invariant
            n == h.nlists,
            i <= n,
            n * 12 <= usize::MAX,
            dbytes@.len() >= n * 12,
            total == ivf_pages_total(*h, dbytes@, i as int),
        decreases n - i,
    {
        assert(i * 12 + 12 <= n * 12) by (nonlinear_arith)
            requires i < n;
        let o = i * DIR_ENTRY + 4;
        total = total.saturating_add(read_u32_le(dbytes, o));
        i = i + 1;
    }
    Ok(total)
}

/// The centroids recorded in a centroid region, `dim` floats (`4 * dim` bytes) each.
pub open spec fn spec_centroids_at(c: Seq<u8>, nlists: int, dim: int) -> Seq<Seq<u8>> {
    Seq::new(nlists as nat, |i: int| c.subrange(i * dim * 4, (i + 1) * dim * 4))
}

/// Split the centroid region into `nlists` centroids of `dim` floats. A region too short for
/// them (or a zero dimension) is corruption, unless there are no lists at all.
pub fn decode_centroids(cbytes: &[u8], nlists: u32, dim: u32) -> (r: Result<Vec<Vec<u8>>, String>)
    requires
        nlists * dim * 4 <= usize::MAX,
    ensures
        r is Ok <==> (nlists == 0 || (dim != 0 && cbytes@.len() >= nlists * dim * 4)),
        r matches Ok(v) ==> v.deep_view() == (if dim == 0 || cbytes@.len() < nlists * dim * 4 {
            Seq::<Seq<u8>>::empty()
        } else {
            spec_centroids_at(cbytes@, nlists as int, dim as int)
        }),
        r matches Err(e) ==> e@ == ERR_IVF_TRUNCATED_CENTROIDS@,
{
    let n = nlists as usize;
    let d = dim as usize;
    if d == 0 || cbytes.len() < n * d * 4 {
        if n == 0 {
            let v: Vec<Vec<u8>> = Vec::new();
            proof {
                assert(v.deep_view() =~= Seq::<Seq<u8>>::empty());
            }
            return Ok(v);
        }
        return Err(ERR_IVF_TRUNCATED_CENTROIDS.to_string());
    }
    let ghost want = spec_centroids_at(cbytes@, n as int, d as int);
    let mut out: Vec<Vec<u8>> = Vec::new();
    let mut i: usize = 0;
    while i < n
        invariant
            n == nlists,
            d == dim,
            d > 0,
            i <= n,
            n * d * 4 <= usize::MAX,
            n * d * 4 <= cbytes@.len(),
            want == spec_centroids_at(cbytes@, n as int, d as int),
            out.deep_view() =~= want.take(i as int),
        decreases n - i,
    {
        assert((i + 1) * d * 4 <= n * d * 4 && i * d * 4 + d * 4 == (i + 1) * d * 4 && 0 <= i * d * 4)
            by (nonlinear_arith)
            requires i < n, d > 0;
        let lo = i * d * 4;
        let c = crate::bytes::copy_bytes(&cbytes[lo..lo + d * 4]);
        let ghost prev = out.deep_view();
        let ghost old_out = out@;
        proof {
            assert(c.deep_view() =~= want[i as int]);
            assert(out.deep_view().len() == out@.len());
        }
        out.push(c);
        proof {
            assert forall|k: int| 0 <= k < out@.len() implies #[trigger] out.deep_view()[k] == want.take(
                i + 1,
            )[k] by {
                if k < prev.len() {
                    assert(out@[k] == old_out[k]);
                }
            }
            assert(out.deep_view() =~= want.take(i + 1));
        }
        i = i + 1;
    }
    proof {
        assert(want.take(n as int) =~= want);
    }
    Ok(out)
}

/// The entries recorded in a list's bytes: `count` records of `[tid:i64][4 * dim bytes]`.
pub open spec fn spec_list_entries(b: Seq<u8>, count: int, dim: int) -> Seq<(i64, Seq<u8>)> {
    let entry = 8 + dim * 4;
    Seq::new(count as nat, |i: int| (le_i64_at(b, i * entry), b.subrange(i * entry + 8, (i + 1) * entry)))
}

/// Decode one list's `count` entries of `dim` floats from its pages' bytes. Typed error when the
/// bytes are too short for them.
pub fn decode_ivf_list(bytes: &[u8], count: u32, dim: u32) -> (r: Result<Vec<ListEntry>, String>)
    requires
        8 + dim * 4 <= usize::MAX,
        count * (8 + dim * 4) <= usize::MAX,
    ensures
        r is Ok <==> bytes@.len() >= count * (8 + dim * 4),
        r matches Ok(v) ==> v.deep_view() == spec_list_entries(bytes@, count as int, dim as int),
        r matches Err(e) ==> e@ == ERR_IVF_TRUNCATED_LIST@,
{
    let d = dim as usize;
    let n = count as usize;
    let entry: usize = 8 + d * 4;
    if bytes.len() < n * entry {
        return Err(ERR_IVF_TRUNCATED_LIST.to_string());
    }
    let ghost want = spec_list_entries(bytes@, n as int, d as int);
    let mut out: Vec<ListEntry> = Vec::new();
    let mut i: usize = 0;
    while i < n
        invariant
            n == count,
            d == dim,
            i <= n,
            entry == 8 + d * 4,
            n * entry <= usize::MAX,
            n * entry <= bytes@.len(),
            want == spec_list_entries(bytes@, n as int, d as int),
            out.deep_view() =~= want.take(i as int),
        decreases n - i,
    {
        assert((i + 1) * entry <= n * entry && i * entry + entry == (i + 1) * entry && 0 <= i * entry)
            by (nonlinear_arith)
            requires i < n;
        let o = i * entry;
        let tid = read_i64_le(bytes, o);
        let v = crate::bytes::copy_bytes(&bytes[o + 8..o + entry]);
        let ghost prev = out.deep_view();
        let ghost old_out = out@;
        proof {
            assert(v.deep_view() =~= want[i as int].1);
            assert(out.deep_view().len() == out@.len());
        }
        out.push((tid, v));
        proof {
            assert forall|k: int| 0 <= k < out@.len() implies #[trigger] out.deep_view()[k] == want.take(
                i + 1,
            )[k] by {
                if k < prev.len() {
                    assert(out@[k] == old_out[k]);
                }
            }
            assert(out.deep_view() =~= want.take(i + 1));
        }
        i = i + 1;
    }
    proof {
        assert(want.take(n as int) =~= want);
    }
    Ok(out)
}

// ---------------------------------------------------------------------------------------------
// Locating the pending region of any layout
// ---------------------------------------------------------------------------------------------

/// The leading magic of block 0's item (0 when it is shorter than a magic).
pub fn peek_magic_of(m: &[u8]) -> (r: u32)
    ensures
        r == (if m@.len() < 4 { 0u32 } else { le_u32_at(m@, 0) }),
{
    if m.len() < 4 {
        0
    } else {
        read_u32_le(m, 0)
    }
}

/// How many pages the main index occupies before its pending region: known from block 0
/// alone, or (structured IVFFlat) only once the directory named by the header is read.
pub enum MainIndexPages {
    Pages(u32),
    IvfDirectory(IvfHeader),
}

/// Block 0's item is one whose page count can be computed without overflow: an HNSW meta's
/// block ranges end within 32 bits, and a blob meta's chunk count is below `u32::MAX`.
pub open spec fn main_pages_safe(m: Seq<u8>) -> bool {
    &&& (m.len() >= 4 && le_u32_at(m, 0) == HNSW_STRUCT_MAGIC ==> forall|mm: MetaModel|
        meta_reads(mm, m) ==> #[trigger] hnsw_ranges_fit(mm))
    &&& (m.len() >= 20 && le_u32_at(m, 0) != HNSW_STRUCT_MAGIC && le_u32_at(m, 0) != IVF_STRUCT_MAGIC
        ==> le_u32_at(m, 16) < u32::MAX)
}

/// The main index's extent, from block 0's item: a blob takes its meta and `nchunks` data
/// pages; an HNSW index ends where its meta's pending region starts; a structured IVFFlat
/// index needs its directory (see `ivf_pending_start`). Typed error on a truncated or
/// unreadable meta.
pub fn main_index_plan(m: &[u8]) -> (r: Result<MainIndexPages, String>)
    requires
        main_pages_safe(m@),
    ensures
        m@.len() < 4 ==> (r matches Err(e) && e@ == ERR_AM_TRUNCATED_META@),
        m@.len() >= 4 && le_u32_at(m@, 0) == IVF_STRUCT_MAGIC ==> {
            &&& (r is Ok <==> ivf_header_error(m@) is None)
            &&& (r is Ok ==> (r matches Ok(MainIndexPages::IvfDirectory(h)) && ivf_header_reads(h, m@)))
            &&& (ivf_header_error(m@) == Some(IvfHeaderError::Truncated) ==> (r matches Err(e) && e@
                == ERR_AM_TRUNCATED_STRUCTURED@))
            &&& (ivf_header_error(m@) == Some(IvfHeaderError::MissingGenBase) ==> (r matches Err(e) && e@
                == ERR_AM_MISSING_GEN_BASE@))
            &&& (ivf_header_error(m@) matches Some(IvfHeaderError::Unsupported(v)) ==> (r matches Err(e) && e@
                == unsupported_ivf_text("theodb am"@, v as nat)))
        },
        m@.len() >= 4 && le_u32_at(m@, 0) == HNSW_STRUCT_MAGIC ==> {
            &&& (r is Ok <==> meta_decodes(m@))
            &&& (r matches Err(e) ==> e@ == meta_error_text(m@))
            &&& (r is Ok ==> (r matches Ok(MainIndexPages::Pages(n)) && forall|mm: MetaModel|
                meta_reads(mm, m@) ==> n == #[trigger] spec_pending_start(mm)))
        },
        m@.len() >= 4 && le_u32_at(m@, 0) != IVF_STRUCT_MAGIC && le_u32_at(m@, 0) != HNSW_STRUCT_MAGIC ==> {
            &&& (m@.len() < 20 ==> (r matches Err(e) && e@ == ERR_AM_TRUNCATED_BLOB_META@))
            &&& (m@.len() >= 20 ==> r == Ok::<MainIndexPages, String>(
                MainIndexPages::Pages((1 + le_u32_at(m@, 16)) as u32),
            ))
        },
{
    if m.len() < 4 {
        return Err(ERR_AM_TRUNCATED_META.to_string());
    }
    let magic = read_u32_le(m, 0);
    if magic == IVF_STRUCT_MAGIC {
        proof {
            reveal_strlit("theodb am");
        }
        match parse_ivf_header(m) {
            Ok(h) => Ok(MainIndexPages::IvfDirectory(h)),
            Err(IvfHeaderError::Truncated) => Err(ERR_AM_TRUNCATED_STRUCTURED.to_string()),
            Err(IvfHeaderError::BadMagic) => Err(ERR_AM_TRUNCATED_STRUCTURED.to_string()),
            Err(IvfHeaderError::Unsupported(v)) => Err(unsupported_ivf_message("theodb am", v)),
            Err(IvfHeaderError::MissingGenBase) => Err(ERR_AM_MISSING_GEN_BASE.to_string()),
        }
    } else if magic == HNSW_STRUCT_MAGIC {
        match decode_meta(m) {
            Ok(meta) => {
                proof {
                    assert(meta_reads(meta@, m@));
                    assert(hnsw_ranges_fit(meta@));
                }
                Ok(MainIndexPages::Pages(meta.pending_start()))
            },
            Err(e) => Err(e),
        }
    } else {
        if m.len() < 20 {
            return Err(ERR_AM_TRUNCATED_BLOB_META.to_string());
        }
        Ok(MainIndexPages::Pages(1 + read_u32_le(m, 16)))
    }
}

// ---------------------------------------------------------------------------------------------
// What a read gives back of a written generation
// ---------------------------------------------------------------------------------------------

proof fn lemma_dir_bytes(dir: Seq<(u32, u32, u32)>)
    ensures
        spec_dir_bytes(dir).len() == dir.len() * 12,
        forall|i: int| 0 <= i < dir.len() ==> #[trigger] dir_entry_at(spec_dir_bytes(dir), i) == dir[i],
    decreases dir.len(),
{
    lemma_le_roundtrip();
    if dir.len() > 0 {
        let p = dir.drop_last();
        lemma_dir_bytes(p);
        let a = spec_dir_bytes(p);
        let e = dir.last();
        let b = spec_dir_bytes(dir);
        assert forall|i: int| 0 <= i < dir.len() implies #[trigger] dir_entry_at(b, i) == dir[i] by {
            if i < p.len() {
                assert(i * 12 + 12 <= p.len() * 12) by (nonlinear_arith)
                    requires i < p.len();
                assert(b.subrange(i * 12, i * 12 + 4) =~= a.subrange(i * 12, i * 12 + 4));
                assert(b.subrange(i * 12 + 4, i * 12 + 8) =~= a.subrange(i * 12 + 4, i * 12 + 8));
                assert(b.subrange(i * 12 + 8, i * 12 + 12) =~= a.subrange(i * 12 + 8, i * 12 + 12));
                assert(dir_entry_at(a, i) == p[i]);
            } else {
                let o = (p.len() * 12) as int;
                assert(i * 12 == o);
                assert(b.subrange(o, o + 4) =~= le32(e.0));
                assert(b.subrange(o + 4, o + 8) =~= le32(e.1));
                assert(b.subrange(o + 8, o + 12) =~= le32(e.2));
            }
        }
    }
}

/// The entries of a list read back from its encoding are the list (for vectors of `dim`
/// floats each).
pub proof fn lemma_ivf_list_roundtrip(l: Seq<(i64, Seq<u8>)>, dim: int)
    requires
        dim >= 0,
        forall|i: int| 0 <= i < l.len() ==> #[trigger] l[i].1.len() == dim * 4,
    ensures
        spec_encode_list(l).len() == l.len() * (8 + dim * 4),
        spec_list_entries(spec_encode_list(l), l.len() as int, dim) == l,
    decreases l.len(),
{
    lemma_le_roundtrip();
    if l.len() > 0 {
        let p = l.drop_last();
        lemma_ivf_list_roundtrip(p, dim);
        let a = spec_encode_list(p);
        let b = spec_encode_list(l);
        let entry = 8 + dim * 4;
        let n = l.len() as int;
        assert(a.len() == (n - 1) * entry);
        assert(b.len() == n * entry) by (nonlinear_arith)
            requires b.len() == a.len() + 8 + dim * 4, a.len() == (n - 1) * entry, entry == 8 + dim * 4;
        let got = spec_list_entries(b, n, dim);
        assert forall|i: int| 0 <= i < n implies #[trigger] got[i] == l[i] by {
            if i < n - 1 {
                assert(i * entry + entry <= (n - 1) * entry && 0 <= i * entry) by (nonlinear_arith)
                    requires i < n - 1, 0 <= i, entry >= 8;
                assert((i + 1) * entry == i * entry + entry) by (nonlinear_arith);
                assert(b.subrange(i * entry, i * entry + 8) =~= a.subrange(i * entry, i * entry + 8));
                assert(b.subrange(i * entry + 8, (i + 1) * entry) =~= a.subrange(i * entry + 8, (i + 1) * entry));
                assert(spec_list_entries(a, n - 1, dim)[i] == p[i]);
            } else {
                assert(i * entry == (n - 1) * entry);
                assert((i + 1) * entry == n * entry) by (nonlinear_arith)
                    requires i == n - 1;
                let o = a.len() as int;
                assert(b.subrange(o, o + 8) =~= lei64(l.last().0));
                assert(b.subrange(o + 8, b.len() as int) =~= l.last().1);
            }
        }
        assert(got =~= l);
    } else {
        assert(spec_list_entries(spec_encode_list(l), 0, dim) =~= l);
    }
}

proof fn lemma_list_chunk_items(encs: Seq<Seq<u8>>, k: int)
    requires
        0 <= k <= encs.len(),
    ensures
        list_chunk_items(encs, k).len() == pages_before(encs, k),
        forall|i: int|
            0 <= i < k ==> #[trigger] list_chunk_items(encs, k).subrange(pages_before(encs, i), pages_before(encs, i + 1))
                == spec_data_chunks(encs[i]),
    decreases k,
{
    if k > 0 {
        lemma_list_chunk_items(encs, k - 1);
        crate::page::lemma_data_chunks(encs[k - 1]);
        let a = list_chunk_items(encs, k - 1);
        let b = list_chunk_items(encs, k);
        assert forall|i: int| 0 <= i < k implies #[trigger] b.subrange(pages_before(encs, i), pages_before(encs, i + 1))
            == spec_data_chunks(encs[i]) by {
            if i < k - 1 {
                lemma_pages_before_mono(encs, i + 1, k - 1);
                lemma_pages_before_mono(encs, i, i + 1);
                assert(b.subrange(pages_before(encs, i), pages_before(encs, i + 1)) =~= a.subrange(
                    pages_before(encs, i),
                    pages_before(encs, i + 1),
                ));
            } else {
                assert(b.subrange(pages_before(encs, i), pages_before(encs, i + 1)) =~= spec_data_chunks(encs[i]));
            }
        }
    }
}

/// The header a generation's meta records.
pub open spec fn spec_ivf_header(
    base: u32,
    dim: u32,
    metric_tag: u8,
    centroids: Seq<Seq<u8>>,
) -> IvfHeader {
    IvfHeader {
        version: IVF_STRUCT_VERSION,
        metric_tag,
        dim,
        nlists: centroids.len() as u32,
        dir_npages: spec_dir_npages(centroids) as u32,
        centroid_npages: spec_centroid_npages(centroids) as u32,
        gen_base: base,
    }
}

/// One centroid per list, and no more lists than a 32-bit count records.
pub open spec fn ivf_shape_ok(centroids: Seq<Seq<u8>>, lists: Seq<Seq<(i64, Seq<u8>)>>) -> bool {
    &&& centroids.len() == lists.len()
    &&& lists.len() <= u32::MAX
    &&& forall|i: int| 0 <= i < lists.len() ==> #[trigger] lists[i].len() <= u32::MAX
}

/// A generation written by `structured_page_items` reads back: its meta parses to the header it
/// was written with; the directory pages (blocks `base..`) hold the directory; the centroid pages
/// concatenate to the centroids' bytes; each list's directory entry points at exactly the pages
/// holding that list's encoding and records its entry count; and the page count after the base
/// is the directory's, the centroids' and every list's together.
pub proof fn lemma_structured_roundtrip(
    base: u32,
    dim: u32,
    metric_tag: u8,
    centroids: Seq<Seq<u8>>,
    lists: Seq<Seq<(i64, Seq<u8>)>>,
)
    requires
        structured_fits(base as int, centroids, lists),
        ivf_shape_ok(centroids, lists),
    ensures
        ({
            let items = spec_structured_items(base, dim, metric_tag, centroids, lists);
            let h = spec_ivf_header(base, dim, metric_tag, centroids);
            let body = spec_body_start(base as int, centroids);
            let dir = spec_dir(body, lists);
            let dbytes = concat_items(items.subrange(1, 1 + h.dir_npages));
            let cbytes = concat_items(items.subrange(1 + h.dir_npages, 1 + h.dir_npages + h.centroid_npages));
            &&& ivf_header_error(items[0]) is None
            &&& ivf_header_reads(h, items[0])
            &&& dbytes.len() >= h.nlists * 12
            &&& Seq::new(h.nlists as nat, |i: int| dir_entry_at(dbytes, i)) == dir
            &&& cbytes == concat_items(centroids)
            &&& items.len() == 1 + h.dir_npages + h.centroid_npages + pages_before(
                spec_encoded_lists(lists),
                lists.len() as int,
            )
            &&& forall|i: int|
                0 <= i < lists.len() ==> {
                    let e = #[trigger] dir[i];
                    &&& base <= e.0
                    &&& e.0 - base + 1 + e.1 <= items.len()
                    &&& concat_items(items.subrange(e.0 - base + 1, e.0 - base + 1 + e.1)) == spec_encode_list(lists[i])
                    &&& e.2 == lists[i].len()
                }
        }),
{
    lemma_le_roundtrip();
    let items = spec_structured_items(base, dim, metric_tag, centroids, lists);
    let h = spec_ivf_header(base, dim, metric_tag, centroids);
    let encs = spec_encoded_lists(lists);
    let n = lists.len() as int;
    let body = spec_body_start(base as int, centroids);
    let dir = spec_dir(body, lists);
    let db = spec_dir_bytes(dir);
    let cb = concat_items(centroids);
    lemma_dir_bytes(dir);
    crate::page::lemma_data_chunks(db);
    crate::page::lemma_data_chunks(cb);
    lemma_list_chunk_items(encs, n);
    lemma_pages_before_mono(encs, 0, n);
    let dir_np = spec_dir_npages(centroids);
    let c_np = spec_centroid_npages(centroids);
    assert(dir_np >= 1 && c_np >= 1);
    assert(db.len() == (centroids.len() as u32) * 12);
    // the meta header
    let m = items[0];
    assert(m == spec_ivf_meta(base, dim, metric_tag, centroids.len() as u32, dir_np as u32, c_np as u32));
    assert(m.subrange(0, 4) =~= le32(IVF_STRUCT_MAGIC));
    assert(m.subrange(4, 8) =~= le32(IVF_STRUCT_VERSION));
    assert(m.subrange(9, 13) =~= le32(dim));
    assert(m.subrange(13, 17) =~= le32(centroids.len() as u32));
    assert(m.subrange(17, 21) =~= le32(dir_np as u32));
    assert(m.subrange(21, 25) =~= le32(c_np as u32));
    assert(m.subrange(25, 29) =~= le32(base));
    // the regions
    let dchunks = spec_data_chunks(db);
    let cchunks = spec_data_chunks(cb);
    let lchunks = list_chunk_items(encs, n);
    assert(items == seq![m] + dchunks + cchunks + lchunks);
    assert(items.subrange(1, 1 + dir_np) =~= dchunks);
    assert(items.subrange(1 + dir_np, 1 + dir_np + c_np) =~= cchunks);
    assert(Seq::new(h.nlists as nat, |i: int| dir_entry_at(db, i)) =~= dir);
    assert forall|i: int| 0 <= i < lists.len() implies {
        let e = #[trigger] dir[i];
        &&& base <= e.0
        &&& e.0 - base + 1 + e.1 <= items.len()
        &&& concat_items(items.subrange(e.0 - base + 1, e.0 - base + 1 + e.1)) == spec_encode_list(lists[i])
        &&& e.2 == lists[i].len()
    } by {
        lemma_pages_before_mono(encs, i + 1, n);
        lemma_pages_before_mono(encs, i, i + 1);
        crate::page::lemma_data_chunks(encs[i]);
        let e = dir[i];
        let lo = 1 + dir_np + c_np + pages_before(encs, i);
        assert(e.0 - base + 1 == lo);
        assert(e.1 == pages_before(encs, i + 1) - pages_before(encs, i));
        assert(items.subrange(lo, lo + e.1) =~= lchunks.subrange(pages_before(encs, i), pages_before(encs, i + 1)));
    }
}

/// The pending region of a written generation starts right after its last page: reading the
/// header and directory back, the saturating page total is `base` plus the body's page count.
pub proof fn lemma_ivf_pending_start(
    base: u32,
    dim: u32,
    metric_tag: u8,
    centroids: Seq<Seq<u8>>,
    lists: Seq<Seq<(i64, Seq<u8>)>>,
)
    requires
        structured_fits(base as int, centroids, lists),
        ivf_shape_ok(centroids, lists),
    ensures
        ({
            let items = spec_structured_items(base, dim, metric_tag, centroids, lists);
            let h = spec_ivf_header(base, dim, metric_tag, centroids);
            let dbytes = concat_items(items.subrange(1, 1 + h.dir_npages));
            ivf_pages_total(h, dbytes, h.nlists as int) == base + items.len() - 1
        }),
{
    lemma_structured_roundtrip(base, dim, metric_tag, centroids, lists);
    let items = spec_structured_items(base, dim, metric_tag, centroids, lists);
    let h = spec_ivf_header(base, dim, metric_tag, centroids);
    let dbytes = concat_items(items.subrange(1, 1 + h.dir_npages));
    let encs = spec_encoded_lists(lists);
    let body = spec_body_start(base as int, centroids);
    let dir = spec_dir(body, lists);
    let n = lists.len() as int;
    lemma_pages_before_mono(encs, 0, n);
    assert forall|k: int| 0 <= k <= n implies #[trigger] ivf_pages_total(h, dbytes, k) == body + pages_before(encs, k) by {
        lemma_ivf_total_prefix(base, dim, metric_tag, centroids, lists, dbytes, k);
    }
}

proof fn lemma_ivf_total_prefix(
    base: u32,
    dim: u32,
    metric_tag: u8,
    centroids: Seq<Seq<u8>>,
    lists: Seq<Seq<(i64, Seq<u8>)>>,
    dbytes: Seq<u8>,
    k: int,
)
    requires
        structured_fits(base as int, centroids, lists),
        ivf_shape_ok(centroids, lists),
        0 <= k <= lists.len(),
        Seq::new(lists.len(), |i: int| dir_entry_at(dbytes, i)) == spec_dir(spec_body_start(base as int, centroids), lists),
    ensures
        ivf_pages_total(spec_ivf_header(base, dim, metric_tag, centroids), dbytes, k) == spec_body_start(base as int, centroids)
            + pages_before(spec_encoded_lists(lists), k),
    decreases k,
{
    let encs = spec_encoded_lists(lists);
    let n = lists.len() as int;
    lemma_pages_before_mono(encs, k, n);
    lemma_pages_before_mono(encs, 0, k);
    lemma_npages_pos(concat_items(centroids).len() as int);
    lemma_npages_pos((centroids.len() as u32) * DIR_ENTRY);
    if k > 0 {
        lemma_ivf_total_prefix(base, dim, metric_tag, centroids, lists, dbytes, k - 1);
        lemma_pages_before_mono(encs, k - 1, k);
        let body = spec_body_start(base as int, centroids);
        let dir = spec_dir(body, lists);
        assert(dir[k - 1] == dir_entry_at(dbytes, k - 1));
        assert(le_u32_at(dbytes, (k - 1) * 12 + 4) == dir[k - 1].1);
    }
}

/// Centroids of `dim` floats each, concatenated, split back into the same centroids.
pub proof fn lemma_ivf_centroids_roundtrip(centroids: Seq<Seq<u8>>, dim: int)
    requires
        dim >= 0,
        forall|i: int| 0 <= i < centroids.len() ==> #[trigger] centroids[i].len() == dim * 4,
    ensures
        concat_items(centroids).len() == centroids.len() * dim * 4,
        spec_centroids_at(concat_items(centroids), centroids.len() as int, dim) == centroids,
    decreases centroids.len(),
{
    if centroids.len() > 0 {
        let p = centroids.drop_last();
        lemma_ivf_centroids_roundtrip(p, dim);
        let a = concat_items(p);
        let b = concat_items(centroids);
        let n = centroids.len() as int;
        let w = dim * 4;
        assert(n * dim * 4 == (n - 1) * dim * 4 + w) by (nonlinear_arith)
            requires w == dim * 4;
        let got = spec_centroids_at(b, n, dim);
        assert forall|i: int| 0 <= i < n implies #[trigger] got[i] == centroids[i] by {
            assert(i * dim * 4 + w == (i + 1) * dim * 4) by (nonlinear_arith)
                requires w == dim * 4;
            if i < n - 1 {
                assert((i + 1) * dim * 4 <= (n - 1) * dim * 4 && 0 <= i * dim * 4) by (nonlinear_arith)
                    requires i < n - 1, 0 <= i, dim >= 0;
                assert(b.subrange(i * dim * 4, (i + 1) * dim * 4) =~= a.subrange(i * dim * 4, (i + 1) * dim * 4));
                assert(spec_centroids_at(a, n - 1, dim)[i] == p[i]);
            } else {
                assert(i * dim * 4 == (n - 1) * dim * 4);
                assert(b.subrange(i * dim * 4, (i + 1) * dim * 4) =~= centroids.last());
            }
        }
        assert(got =~= centroids);
    } else {
        assert(spec_centroids_at(concat_items(centroids), 0, dim) =~= centroids);
    }
}

} // verus!
