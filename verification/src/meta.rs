//! The HNSW meta page (block 0): its fixed 45-byte core, the per-version trailer (SBQ codebook
//! inline for v2, AQ descriptor for v3/v4), and where the pending region starts.
use crate::bytes::{
    le16, le32, le_i16_at, le_u16_at, le_u32_at, lei16, lemma_le_roundtrip, push_bytes, push_i16_le,
    push_u16_le, push_u32_le, read_i16_le, read_u16_le, read_u32_le,
};
use crate::layout::HNSW_STRUCT_MAGIC;
use crate::text::{decimal, push_decimal, push_str};
use crate::layout::HNSW_STRUCT_VERSION;
use vstd::prelude::*;

verus! {

broadcast use vstd::seq_lib::group_seq_properties;

pub const META_LEN: usize = 45;
pub const HNSW_STRUCT_VERSION_SBQ: u32 = 2;
pub const HNSW_STRUCT_VERSION_AQ: u32 = 3;
pub const HNSW_STRUCT_VERSION_V4: u32 = 4;
/// v3 trailer `[aq_m:u8][cb_len:u32][cb_first:u32][cb_npages:u32]`.
pub const AQ_DESC_LEN: usize = 13;
/// v4 trailer: the v3 descriptor plus `[raw_first:u32][raw_npages:u32]`.
pub const V4_DESC_LEN: usize = 21;
/// Bytes of AQ codebook per dedicated codebook page.
pub const CB_CHUNK: usize = 8000;

pub const ERR_TRUNCATED_META: &'static str = "theodb hnsw: truncated meta page";
pub const ERR_BAD_META_MAGIC: &'static str =
    "theodb hnsw: bad structured meta magic (REINDEX to upgrade the M26 blob to the M35 page-native format)";

/// Fully resolved page images: `meta` for block 0, `pages[p]` the items of block `p + 1`.
pub struct Packed {
    pub meta: Vec<u8>,
    pub pages: Vec<Vec<Vec<u8>>>,
}

/// The parsed meta page. `entry_level < 0` means an empty graph.
#[derive(Clone, Debug)]
pub struct HnswMeta {
    pub metric_tag: u8,
    pub dim: u32,
    pub m: u16,
    pub m0: u16,
    pub entry_blkno: u32,
    pub entry_offno: u16,
    pub entry_level: i16,
    pub node_count: u32,
    pub elem_first: u32,
    pub elem_npages: u32,
    pub nbr_first: u32,
    pub nbr_npages: u32,
    /// v2: SBQ bits per dimension (0 = none) and the inline SBQ codebook.
    pub sbq_bits: u8,
    pub codebook: Vec<u8>,
    /// v3/v4: AQ subspace count (0 = none); the codebook lives on dedicated pages.
    pub aq_m: u8,
    pub aq_codebook: Vec<u8>,
    pub aq_cb_first: u32,
    pub aq_cb_npages: u32,
    /// v4: the cold raw-vector region.
    pub raw_first: u32,
    pub raw_npages: u32,
}

/// The mathematical content of an `HnswMeta`: the same fields, codebooks as byte sequences.
pub struct MetaModel {
    pub metric_tag: u8,
    pub dim: u32,
    pub m: u16,
    pub m0: u16,
    pub entry_blkno: u32,
    pub entry_offno: u16,
    pub entry_level: i16,
    pub node_count: u32,
    pub elem_first: u32,
    pub elem_npages: u32,
    pub nbr_first: u32,
    pub nbr_npages: u32,
    pub sbq_bits: u8,
    pub codebook: Seq<u8>,
    pub aq_m: u8,
    pub aq_codebook: Seq<u8>,
    pub aq_cb_first: u32,
    pub aq_cb_npages: u32,
    pub raw_first: u32,
    pub raw_npages: u32,
}

impl View for HnswMeta {
    type V = MetaModel;

    open spec fn view(&self) -> MetaModel {
        MetaModel {
            metric_tag: self.metric_tag,
            dim: self.dim,
            m: self.m,
            m0: self.m0,
            entry_blkno: self.entry_blkno,
            entry_offno: self.entry_offno,
            entry_level: self.entry_level,
            node_count: self.node_count,
            elem_first: self.elem_first,
            elem_npages: self.elem_npages,
            nbr_first: self.nbr_first,
            nbr_npages: self.nbr_npages,
            sbq_bits: self.sbq_bits,
            codebook: self.codebook@,
            aq_m: self.aq_m,
            aq_codebook: self.aq_codebook@,
            aq_cb_first: self.aq_cb_first,
            aq_cb_npages: self.aq_cb_npages,
            raw_first: self.raw_first,
            raw_npages: self.raw_npages,
        }
    }
}

pub open spec fn max_u32(a: int, b: int) -> int {
    if a >= b { a } else { b }
}

/// The first block past everything the structured index occupies: the neighbor pages, the AQ
/// codebook pages and the raw-vector region.
pub open spec fn spec_pending_start(m: MetaModel) -> int {
    max_u32(
        max_u32(m.nbr_first + m.nbr_npages, m.aq_cb_first + m.aq_cb_npages),
        m.raw_first + m.raw_npages,
    )
}

/// Each of the meta's block ranges ends within the 32-bit block numbers.
pub open spec fn hnsw_ranges_fit(m: MetaModel) -> bool {
    &&& m.nbr_first + m.nbr_npages <= u32::MAX
    &&& m.aq_cb_first + m.aq_cb_npages <= u32::MAX
    &&& m.raw_first + m.raw_npages <= u32::MAX
}

impl HnswMeta {
    /// First block of the pending region.
    pub fn pending_start(&self) -> (r: u32)
        requires
            hnsw_ranges_fit(self@),
        ensures
            r == spec_pending_start(self@),
    {
        let a = self.nbr_first + self.nbr_npages;
        let b = self.aq_cb_first + self.aq_cb_npages;
        let c = self.raw_first + self.raw_npages;
        let ab = if a >= b { a } else { b };
        if ab >= c {
            ab
        } else {
            c
        }
    }
}

impl HnswMeta {
    /// Whether a filtered scan of this index resumes from its retained frontier: only with the
    /// resume setting on, on a built (non-empty) graph, of an uncoded index; otherwise the scan
    /// re-searches with a larger `ef`.
    pub fn resume_applies(&self, enabled: bool) -> (r: bool)
        ensures
            r == (enabled && self.entry_level >= 0 && self.node_count != 0 && self.sbq_bits == 0 && self.aq_m == 0),
    {
        enabled && self.entry_level >= 0 && self.node_count != 0 && self.sbq_bits == 0 && self.aq_m == 0
    }
}

/// The layout version `encode_meta` writes: v4 when there is a raw region, else v3 for AQ, v2
/// for SBQ, v1 otherwise.
pub open spec fn spec_meta_version(m: MetaModel) -> u32 {
    if m.raw_npages != 0 {
        HNSW_STRUCT_VERSION_V4
    } else if m.aq_m != 0 {
        HNSW_STRUCT_VERSION_AQ
    } else if m.sbq_bits != 0 {
        HNSW_STRUCT_VERSION_SBQ
    } else {
        HNSW_STRUCT_VERSION
    }
}

/// The 45-byte core header.
pub open spec fn spec_meta_core(m: MetaModel, version: u32) -> Seq<u8> {
    le32(HNSW_STRUCT_MAGIC) + le32(version) + seq![m.metric_tag] + le32(m.dim) + le16(m.m) + le16(m.m0)
        + le32(m.entry_blkno) + le16(m.entry_offno) + lei16(m.entry_level) + le32(m.node_count)
        + le32(m.elem_first) + le32(m.elem_npages) + le32(m.nbr_first) + le32(m.nbr_npages)
}

/// The trailer after the core: the AQ descriptor (plus the raw region on v4), else the inline
/// SBQ codebook, else nothing.
pub open spec fn spec_meta_trailer(m: MetaModel) -> Seq<u8> {
    if m.aq_m != 0 {
        seq![m.aq_m] + le32(m.aq_codebook.len() as u32) + le32(m.aq_cb_first) + le32(m.aq_cb_npages)
            + if m.raw_npages != 0 { le32(m.raw_first) + le32(m.raw_npages) } else { Seq::<u8>::empty() }
    } else if m.sbq_bits != 0 {
        seq![m.sbq_bits] + le32(m.codebook.len() as u32) + m.codebook
    } else {
        Seq::<u8>::empty()
    }
}

pub open spec fn spec_encode_meta(m: MetaModel) -> Seq<u8> {
    spec_meta_core(m, spec_meta_version(m)) + spec_meta_trailer(m)
}

/// Encode the meta item: the core header tagged with the layout version, then exactly one
/// trailer (or none for v1).
pub fn encode_meta(m: &HnswMeta) -> (r: Vec<u8>)
    ensures
        r@ == spec_encode_meta(m@),
{
    let is_v4 = m.raw_npages != 0;
    let version = if is_v4 {
        HNSW_STRUCT_VERSION_V4
    } else if m.aq_m != 0 {
        HNSW_STRUCT_VERSION_AQ
    } else if m.sbq_bits != 0 {
        HNSW_STRUCT_VERSION_SBQ
    } else {
        HNSW_STRUCT_VERSION
    };
    let mut b: Vec<u8> = Vec::new();
    push_u32_le(&mut b, HNSW_STRUCT_MAGIC);
    push_u32_le(&mut b, version);
    b.push(m.metric_tag);
    push_u32_le(&mut b, m.dim);
    push_u16_le(&mut b, m.m);
    push_u16_le(&mut b, m.m0);
    push_u32_le(&mut b, m.entry_blkno);
    push_u16_le(&mut b, m.entry_offno);
    push_i16_le(&mut b, m.entry_level);
    push_u32_le(&mut b, m.node_count);
    push_u32_le(&mut b, m.elem_first);
    push_u32_le(&mut b, m.elem_npages);
    push_u32_le(&mut b, m.nbr_first);
    push_u32_le(&mut b, m.nbr_npages);
    let ghost core = b@;
    proof {
        assert(core =~= spec_meta_core(m@, version));
    }
    if m.aq_m != 0 {
        b.push(m.aq_m);
        push_u32_le(&mut b, #[verifier::truncate] (m.aq_codebook.len() as u32));
        push_u32_le(&mut b, m.aq_cb_first);
        push_u32_le(&mut b, m.aq_cb_npages);
        if is_v4 {
            push_u32_le(&mut b, m.raw_first);
            push_u32_le(&mut b, m.raw_npages);
        }
    } else if m.sbq_bits != 0 {
        b.push(m.sbq_bits);
        push_u32_le(&mut b, #[verifier::truncate] (m.codebook.len() as u32));
        push_bytes(&mut b, m.codebook.as_slice());
    }
    proof {
        assert(b@ =~= spec_encode_meta(m@));
    }
    b
}

/// The layout version recorded in a meta image.
pub open spec fn meta_version_at(b: Seq<u8>) -> u32 {
    le_u32_at(b, 4)
}

pub open spec fn is_known_version(v: u32) -> bool {
    v == HNSW_STRUCT_VERSION || v == HNSW_STRUCT_VERSION_SBQ || v == HNSW_STRUCT_VERSION_AQ || v == HNSW_STRUCT_VERSION_V4
}

/// A v2 trailer parses: present, and exactly as long as its declared codebook.
pub open spec fn trailer_decodes(b: Seq<u8>) -> bool {
    b.len() >= META_LEN + 5 && b.len() == META_LEN + 5 + le_u32_at(b, META_LEN + 1)
}

/// An AQ descriptor parses: the image is exactly core + descriptor.
pub open spec fn aq_descriptor_decodes(b: Seq<u8>, is_v4: bool) -> bool {
    b.len() == META_LEN + if is_v4 { V4_DESC_LEN } else { AQ_DESC_LEN }
}

/// A meta image parses: a full core with the right magic and a known version whose trailer
/// parses.
pub open spec fn meta_decodes(b: Seq<u8>) -> bool {
    &&& b.len() >= META_LEN
    &&& le_u32_at(b, 0) == HNSW_STRUCT_MAGIC
    &&& is_known_version(meta_version_at(b))
    &&& (meta_version_at(b) == HNSW_STRUCT_VERSION_SBQ ==> trailer_decodes(b))
    &&& (meta_version_at(b) == HNSW_STRUCT_VERSION_AQ ==> aq_descriptor_decodes(b, false))
    &&& (meta_version_at(b) == HNSW_STRUCT_VERSION_V4 ==> aq_descriptor_decodes(b, true))
}

/// `m` holds what a meta image `b` records, field by field; the AQ codebook (which lives on its
/// own pages) is left empty.
pub open spec fn meta_reads(m: MetaModel, b: Seq<u8>) -> bool {
    let v = meta_version_at(b);
    let is_aq = v == HNSW_STRUCT_VERSION_AQ || v == HNSW_STRUCT_VERSION_V4;
    &&& m.metric_tag == b[8]
    &&& m.dim == le_u32_at(b, 9)
    &&& m.m == le_u16_at(b, 13)
    &&& m.m0 == le_u16_at(b, 15)
    &&& m.entry_blkno == le_u32_at(b, 17)
    &&& m.entry_offno == le_u16_at(b, 21)
    &&& m.entry_level == le_i16_at(b, 23)
    &&& m.node_count == le_u32_at(b, 25)
    &&& m.elem_first == le_u32_at(b, 29)
    &&& m.elem_npages == le_u32_at(b, 33)
    &&& m.nbr_first == le_u32_at(b, 37)
    &&& m.nbr_npages == le_u32_at(b, 41)
    &&& m.sbq_bits == (if v == HNSW_STRUCT_VERSION_SBQ { b[META_LEN as int] } else { 0u8 })
    &&& m.codebook == (if v == HNSW_STRUCT_VERSION_SBQ { b.subrange(META_LEN + 5, b.len() as int) } else { Seq::<u8>::empty() })
    &&& m.aq_m == (if is_aq { b[META_LEN as int] } else { 0u8 })
    &&& m.aq_codebook == Seq::<u8>::empty()
    &&& m.aq_cb_first == (if is_aq { le_u32_at(b, META_LEN + 5) } else { 0u32 })
    &&& m.aq_cb_npages == (if is_aq { le_u32_at(b, META_LEN + 9) } else { 0u32 })
    &&& m.raw_first == (if v == HNSW_STRUCT_VERSION_V4 { le_u32_at(b, META_LEN + 13) } else { 0u32 })
    &&& m.raw_npages == (if v == HNSW_STRUCT_VERSION_V4 { le_u32_at(b, META_LEN + 17) } else { 0u32 })
}

/// The truncated-trailer error text.
pub open spec fn truncated_trailer_text(label: Seq<char>) -> Seq<char> {
    "theodb hnsw: truncated "@ + label + " trailer"@
}

/// The codebook-length error text of a trailer.
pub open spec fn trailer_length_text(label: Seq<char>, cb_len: nat, have: nat) -> Seq<char> {
    "theodb hnsw: "@ + label + " codebook length mismatch (declared "@ + decimal(cb_len) + ", have "@ + decimal(have)
        + ")"@
}

/// The AQ-descriptor length error text.
pub open spec fn descriptor_length_text(label: Seq<char>, want: nat, have: nat) -> Seq<char> {
    "theodb hnsw: "@ + label + " descriptor length mismatch (expected "@ + decimal(want) + ", have "@ + decimal(have)
        + ")"@
}

/// The unknown-version error text.
pub open spec fn unsupported_version_text(version: nat) -> Seq<char> {
    "theodb hnsw: unsupported structured meta version v"@ + decimal(version)
        + " — REINDEX with a compatible theodb build"@
}

/// A label short enough for an error text to be built around it.
pub open spec fn label_fits(label: Seq<char>) -> bool {
    4 * (label.len() + 200) <= isize::MAX
}

fn truncated_trailer_message(label: &str) -> (r: String)
    requires
        label_fits(label@),
    ensures
        r@ == truncated_trailer_text(label@),
{
    proof {
        reveal_strlit("theodb hnsw: truncated ");
        reveal_strlit(" trailer");
    }
    let mut s = String::new();
    push_str(&mut s, "theodb hnsw: truncated ");
    proof {
        assert(s@ =~= "theodb hnsw: truncated "@);
    }
    push_str(&mut s, label);
    push_str(&mut s, " trailer");
    s
}

fn trailer_length_message(label: &str, cb_len: usize, have: usize) -> (r: String)
    requires
        label_fits(label@),
    ensures
        r@ == trailer_length_text(label@, cb_len as nat, have as nat),
{
    proof {
        reveal_strlit("theodb hnsw: ");
        reveal_strlit(" codebook length mismatch (declared ");
        reveal_strlit(", have ");
        reveal_strlit(")");
    }
    let mut s = String::new();
    push_str(&mut s, "theodb hnsw: ");
    proof {
        assert(s@ =~= "theodb hnsw: "@);
    }
    push_str(&mut s, label);
    push_str(&mut s, " codebook length mismatch (declared ");
    push_decimal(&mut s, cb_len as u64);
    push_str(&mut s, ", have ");
    push_decimal(&mut s, have as u64);
    push_str(&mut s, ")");
    s
}

fn descriptor_length_message(label: &str, want: usize, have: usize) -> (r: String)
    requires
        label_fits(label@),
    ensures
        r@ == descriptor_length_text(label@, want as nat, have as nat),
{
    proof {
        reveal_strlit("theodb hnsw: ");
        reveal_strlit(" descriptor length mismatch (expected ");
        reveal_strlit(", have ");
        reveal_strlit(")");
    }
    let mut s = String::new();
    push_str(&mut s, "theodb hnsw: ");
    proof {
        assert(s@ =~= "theodb hnsw: "@);
    }
    push_str(&mut s, label);
    push_str(&mut s, " descriptor length mismatch (expected ");
    push_decimal(&mut s, want as u64);
    push_str(&mut s, ", have ");
    push_decimal(&mut s, have as u64);
    push_str(&mut s, ")");
    s
}

fn unsupported_version_message(version: u32) -> (r: String)
    ensures
        r@ == unsupported_version_text(version as nat),
{
    proof {
        reveal_strlit("theodb hnsw: unsupported structured meta version v");
        reveal_strlit(" — REINDEX with a compatible theodb build");
    }
    let mut s = String::new();
    push_str(&mut s, "theodb hnsw: unsupported structured meta version v");
    proof {
        assert(s@ =~= "theodb hnsw: unsupported structured meta version v"@);
    }
    push_decimal(&mut s, version as u64);
    push_str(&mut s, " — REINDEX with a compatible theodb build");
    s
}

/// The error text of a trailer that does not parse.
pub open spec fn trailer_error_text(b: Seq<u8>, label: Seq<char>) -> Seq<char> {
    if b.len() < META_LEN + 5 {
        truncated_trailer_text(label)
    } else {
        trailer_length_text(label, le_u32_at(b, META_LEN + 1) as nat, (b.len() - (META_LEN + 5)) as nat)
    }
}

/// The error text of an AQ descriptor that does not parse.
pub open spec fn descriptor_error_text(b: Seq<u8>, is_v4: bool) -> Seq<char> {
    descriptor_length_text(
        if is_v4 { "v4 AQ"@ } else { "v3 AQ"@ },
        (META_LEN + if is_v4 { V4_DESC_LEN } else { AQ_DESC_LEN }) as nat,
        b.len(),
    )
}

/// The error text of a meta image that does not parse.
pub open spec fn meta_error_text(b: Seq<u8>) -> Seq<char> {
    let v = meta_version_at(b);
    if b.len() < META_LEN {
        ERR_TRUNCATED_META@
    } else if le_u32_at(b, 0) != HNSW_STRUCT_MAGIC {
        ERR_BAD_META_MAGIC@
    } else if !is_known_version(v) {
        unsupported_version_text(v as nat)
    } else if v == HNSW_STRUCT_VERSION_SBQ {
        trailer_error_text(b, "v2 SBQ"@)
    } else {
        descriptor_error_text(b, v == HNSW_STRUCT_VERSION_V4)
    }
}

/// Parse the v2 trailer `[sbq_bits:u8][cb_len:u32][codebook]` after the core; its length must
/// match the declared codebook length exactly.
pub fn decode_trailer(b: &[u8], label: &str) -> (r: Result<(u8, Vec<u8>), String>)
    requires
        label_fits(label@),
    ensures
        r is Ok <==> trailer_decodes(b@),
        r matches Ok((bits, cb)) ==> bits == b@[META_LEN as int] && cb@ == b@.subrange(META_LEN + 5, b@.len() as int),
        r matches Err(e) ==> e@ == trailer_error_text(b@, label@),
{
    if b.len() < META_LEN + 5 {
        return Err(truncated_trailer_message(label));
    }
    let byte = b[META_LEN];
    let cb_len = read_u32_le(b, META_LEN + 1) as usize;
    let have = b.len() - (META_LEN + 5);
    if have != cb_len {
        return Err(trailer_length_message(label, cb_len, have));
    }
    Ok((byte, crate::bytes::copy_bytes(&b[META_LEN + 5..b.len()])))
}

/// A parsed AQ descriptor (v3), or AQ descriptor plus raw region (v4; `(0, 0)` for v3).
pub struct AqDescriptor {
    pub aq_m: u8,
    pub cb_len: usize,
    pub cb_first: u32,
    pub cb_npages: u32,
    pub raw_first: u32,
    pub raw_npages: u32,
}

/// Parse the AQ descriptor trailer; the image must be exactly core + descriptor long.
pub fn decode_aq_descriptor(b: &[u8], is_v4: bool) -> (r: Result<AqDescriptor, String>)
    ensures
        r is Ok <==> aq_descriptor_decodes(b@, is_v4),
        r matches Err(e) ==> e@ == descriptor_error_text(b@, is_v4),
        r matches Ok(d) ==> {
            &&& d.aq_m == b@[META_LEN as int]
            &&& d.cb_len == le_u32_at(b@, META_LEN + 1)
            &&& d.cb_first == le_u32_at(b@, META_LEN + 5)
            &&& d.cb_npages == le_u32_at(b@, META_LEN + 9)
            &&& d.raw_first == (if is_v4 { le_u32_at(b@, META_LEN + 13) } else { 0u32 })
            &&& d.raw_npages == (if is_v4 { le_u32_at(b@, META_LEN + 17) } else { 0u32 })
        },
{
    let want = META_LEN + if is_v4 { V4_DESC_LEN } else { AQ_DESC_LEN };
    if b.len() != want {
        proof {
            reveal_strlit("v4 AQ");
            reveal_strlit("v3 AQ");
        }
        let label = if is_v4 { "v4 AQ" } else { "v3 AQ" };
        return Err(descriptor_length_message(label, want, b.len()));
    }
    let (raw_first, raw_npages) = if is_v4 {
        (read_u32_le(b, META_LEN + 13), read_u32_le(b, META_LEN + 17))
    } else {
        (0u32, 0u32)
    };
    Ok(AqDescriptor {
        aq_m: b[META_LEN],
        cb_len: read_u32_le(b, META_LEN + 1) as usize,
        cb_first: read_u32_le(b, META_LEN + 5),
        cb_npages: read_u32_le(b, META_LEN + 9),
        raw_first,
        raw_npages,
    })
}

/// Parse the meta item. Typed error on a truncated core, a wrong magic, an unknown version, or
/// a trailer that does not parse.
pub fn decode_meta(b: &[u8]) -> (r: Result<HnswMeta, String>)
    ensures
        r is Ok <==> meta_decodes(b@),
        r matches Ok(m) ==> meta_reads(m@, b@),
        b@.len() < META_LEN ==> (r matches Err(e) && e@ == ERR_TRUNCATED_META@),
        b@.len() >= META_LEN && le_u32_at(b@, 0) != HNSW_STRUCT_MAGIC ==> (r matches Err(e) && e@ == ERR_BAD_META_MAGIC@),
        r matches Err(e) ==> e@ == meta_error_text(b@),
{
    if b.len() < META_LEN {
        return Err(ERR_TRUNCATED_META.to_string());
    }
    let magic = read_u32_le(b, 0);
    if magic != HNSW_STRUCT_MAGIC {
        return Err(ERR_BAD_META_MAGIC.to_string());
    }
    let version = read_u32_le(b, 4);
    if version != HNSW_STRUCT_VERSION && version != HNSW_STRUCT_VERSION_SBQ && version != HNSW_STRUCT_VERSION_AQ
        && version != HNSW_STRUCT_VERSION_V4 {
        return Err(unsupported_version_message(version));
    }
    let mut sbq_bits: u8 = 0;
    let mut codebook: Vec<u8> = Vec::new();
    let mut aq_m: u8 = 0;
    let mut aq_cb_first: u32 = 0;
    let mut aq_cb_npages: u32 = 0;
    let mut raw_first: u32 = 0;
    let mut raw_npages: u32 = 0;
    if version == HNSW_STRUCT_VERSION_SBQ {
        proof {
            reveal_strlit("v2 SBQ");
        }
        match decode_trailer(b, "v2 SBQ") {
            Ok((bits, cb)) => {
                sbq_bits = bits;
                codebook = cb;
            },
            Err(e) => {
                return Err(e);
            },
        }
    } else if version == HNSW_STRUCT_VERSION_AQ || version == HNSW_STRUCT_VERSION_V4 {
        match decode_aq_descriptor(b, version == HNSW_STRUCT_VERSION_V4) {
            Ok(d) => {
                aq_m = d.aq_m;
                aq_cb_first = d.cb_first;
                aq_cb_npages = d.cb_npages;
                raw_first = d.raw_first;
                raw_npages = d.raw_npages;
            },
            Err(e) => {
                return Err(e);
            },
        }
    }
    Ok(HnswMeta {
        metric_tag: b[8],
        dim: read_u32_le(b, 9),
        m: read_u16_le(b, 13),
        m0: read_u16_le(b, 15),
        entry_blkno: read_u32_le(b, 17),
        entry_offno: read_u16_le(b, 21),
        entry_level: read_i16_le(b, 23),
        node_count: read_u32_le(b, 25),
        elem_first: read_u32_le(b, 29),
        elem_npages: read_u32_le(b, 33),
        nbr_first: read_u32_le(b, 37),
        nbr_npages: read_u32_le(b, 41),
        sbq_bits,
        codebook,
        aq_m,
        aq_codebook: Vec::new(),
        aq_cb_first,
        aq_cb_npages,
        raw_first,
        raw_npages,
    })
}

/// A meta whose fields agree with what its own encoding can carry: a raw region only on an AQ
/// index, and an inline SBQ codebook whose length fits the 32-bit length field.
pub open spec fn meta_consistent(m: MetaModel) -> bool {
    &&& (m.raw_npages != 0 ==> m.aq_m != 0)
    &&& (m.aq_m == 0 && m.sbq_bits != 0 ==> m.codebook.len() <= u32::MAX)
}

/// `d` is what decoding `m`'s encoding must give: the core as is, exactly the trailer fields of
/// `m`'s version (the others zero/empty), and no AQ codebook bytes (they live on their own pages).
pub open spec fn meta_equiv(d: MetaModel, m: MetaModel) -> bool {
    let sbq = m.aq_m == 0 && m.sbq_bits != 0;
    &&& d.metric_tag == m.metric_tag
    &&& d.dim == m.dim
    &&& d.m == m.m
    &&& d.m0 == m.m0
    &&& d.entry_blkno == m.entry_blkno
    &&& d.entry_offno == m.entry_offno
    &&& d.entry_level == m.entry_level
    &&& d.node_count == m.node_count
    &&& d.elem_first == m.elem_first
    &&& d.elem_npages == m.elem_npages
    &&& d.nbr_first == m.nbr_first
    &&& d.nbr_npages == m.nbr_npages
    &&& d.sbq_bits == (if sbq { m.sbq_bits } else { 0u8 })
    &&& d.codebook == (if sbq { m.codebook } else { Seq::<u8>::empty() })
    &&& d.aq_m == m.aq_m
    &&& d.aq_codebook == Seq::<u8>::empty()
    &&& d.aq_cb_first == (if m.aq_m != 0 { m.aq_cb_first } else { 0u32 })
    &&& d.aq_cb_npages == (if m.aq_m != 0 { m.aq_cb_npages } else { 0u32 })
    &&& d.raw_first == (if m.raw_npages != 0 { m.raw_first } else { 0u32 })
    &&& d.raw_npages == m.raw_npages
}

/// Encoding a consistent meta and decoding it again gives the same meta, up to the fields its
/// layout version does not carry: every layout version round-trips through the meta page.
pub proof fn lemma_meta_roundtrip(m: MetaModel)
    requires
        meta_consistent(m),
    ensures
        meta_decodes(spec_encode_meta(m)),
        forall|d: MetaModel| meta_reads(d, spec_encode_meta(m)) ==> meta_equiv(d, m),
{
    lemma_le_roundtrip();
    let v = spec_meta_version(m);
    let core = spec_meta_core(m, v);
    let t = spec_meta_trailer(m);
    let b = core + t;
    assert(core.len() == META_LEN);
    assert(b.subrange(0, 4) =~= le32(HNSW_STRUCT_MAGIC));
    assert(b.subrange(4, 8) =~= le32(v));
    assert(b[8] == m.metric_tag);
    assert(b.subrange(9, 13) =~= le32(m.dim));
    assert(b.subrange(13, 15) =~= le16(m.m));
    assert(b.subrange(15, 17) =~= le16(m.m0));
    assert(b.subrange(17, 21) =~= le32(m.entry_blkno));
    assert(b.subrange(21, 23) =~= le16(m.entry_offno));
    assert(b.subrange(23, 25) =~= lei16(m.entry_level));
    assert(b.subrange(25, 29) =~= le32(m.node_count));
    assert(b.subrange(29, 33) =~= le32(m.elem_first));
    assert(b.subrange(33, 37) =~= le32(m.elem_npages));
    assert(b.subrange(37, 41) =~= le32(m.nbr_first));
    assert(b.subrange(41, 45) =~= le32(m.nbr_npages));
    if m.aq_m != 0 {
        assert(b[45] == m.aq_m);
        assert(b.subrange(46, 50) =~= le32(m.aq_codebook.len() as u32));
        assert(b.subrange(50, 54) =~= le32(m.aq_cb_first));
        assert(b.subrange(54, 58) =~= le32(m.aq_cb_npages));
        if m.raw_npages != 0 {
            assert(b.subrange(58, 62) =~= le32(m.raw_first));
            assert(b.subrange(62, 66) =~= le32(m.raw_npages));
        }
    } else if m.sbq_bits != 0 {
        assert(b[45] == m.sbq_bits);
        assert(b.subrange(46, 50) =~= le32(m.codebook.len() as u32));
        assert(b.subrange(50, b.len() as int) =~= m.codebook);
    }
}

/// The encoded meta records its header fields where `decode_meta` reads them: the metric tag,
/// dimension, degrees, node count and entry level come back as they were encoded.
pub proof fn lemma_meta_header_fields(m: MetaModel)
    ensures
        ({
            let b = spec_encode_meta(m);
            &&& b.len() >= META_LEN
            &&& b[8] == m.metric_tag
            &&& le_u32_at(b, 9) == m.dim
            &&& le_u16_at(b, 13) == m.m
            &&& le_u16_at(b, 15) == m.m0
            &&& le_i16_at(b, 23) == m.entry_level
            &&& le_u32_at(b, 25) == m.node_count
        }),
{
    lemma_le_roundtrip();
    let v = spec_meta_version(m);
    let core = spec_meta_core(m, v);
    let b = core + spec_meta_trailer(m);
    assert(core.len() == META_LEN);
    assert(b[8] == m.metric_tag);
    assert(b.subrange(9, 13) =~= le32(m.dim));
    assert(b.subrange(13, 15) =~= le16(m.m));
    assert(b.subrange(15, 17) =~= le16(m.m0));
    assert(b.subrange(23, 25) =~= lei16(m.entry_level));
    assert(b.subrange(25, 29) =~= le32(m.node_count));
}

} // verus!
