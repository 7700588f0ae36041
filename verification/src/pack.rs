//! The packer: resolves a whole in-memory graph into a meta image plus fully formed page images
//! (element pages, neighbor pages, AQ codebook pages and, for v4, raw-vector pages), with every
//! `(block, offset)` pointer already resolved relative to the generation's base block.
use crate::codec::{
    encode_element, encode_element_v4, encode_neighbors, encode_raw_vec, spec_encode_element, spec_encode_element_v4,
    spec_element_bytes, spec_element_v4_bytes, lemma_element_v4_roundtrip, spec_encode_neighbors, spec_raw_bytes,
};
use crate::bytes::{le16, le32, le_u16_at, le_u32_at, lemma_le_roundtrip};
use crate::graph::HnswGraph;
use crate::layout::{
    elems_per_page, elems_per_page_v4, maxalign, raws_per_page, spec_elem_size_v4, spec_raw_size, nbr_size, spec_elem_size, spec_items_per_page, spec_maxalign, spec_nbr_size, Addr,
    ITEMID, USABLE, E4_RAW_BLK, E4_RAW_OFF, E_NBR_BLK, E_NBR_OFF,
};
use crate::meta::{encode_meta, spec_encode_meta, spec_pending_start, HnswMeta, MetaModel, Packed, CB_CHUNK};
use crate::text::{decimal, push_decimal, push_str};
use vstd::prelude::*;

verus! {

broadcast use vstd::seq_lib::group_seq_properties;

/// Which trailing per-node code a pack writes: none (v1), SBQ (v2), or AQ (v4).
pub enum CodeKind {
    Plain,
    Sbq { bits: u8 },
    Aq { m: usize, bits: u8 },
}

/// The trained per-node codes for a `CodeKind` and the two meta-trailer slots. `code_len == 0`
/// means no code; at most one of (`sbq_bits`, `codebook`) / (`aq_m`, `aq_codebook`) is set.
pub struct CodeSpec {
    pub code_len: usize,
    pub codes: Vec<Vec<u8>>,
    pub sbq_bits: u8,
    pub codebook: Vec<u8>,
    pub aq_m: u8,
    pub aq_codebook: Vec<u8>,
}

/// The content of a `CodeSpec`: its fields, codes and codebooks as byte sequences.
pub struct CodeModel {
    pub code_len: usize,
    pub codes: Seq<Seq<u8>>,
    pub sbq_bits: u8,
    pub codebook: Seq<u8>,
    pub aq_m: u8,
    pub aq_codebook: Seq<u8>,
}

impl View for CodeSpec {
    type V = CodeModel;

    open spec fn view(&self) -> CodeModel {
        CodeModel {
            code_len: self.code_len,
            codes: self.codes.deep_view(),
            sbq_bits: self.sbq_bits,
            codebook: self.codebook@,
            aq_m: self.aq_m,
            aq_codebook: self.aq_codebook@,
        }
    }
}

/// The codes of an uncoded (v1) pack: none at all.
pub open spec fn code_model_none() -> CodeModel {
    CodeModel {
        code_len: 0,
        codes: Seq::empty(),
        sbq_bits: 0,
        codebook: Seq::empty(),
        aq_m: 0,
        aq_codebook: Seq::empty(),
    }
}

impl CodeSpec {
    /// The spec of an uncoded (v1) pack.
    pub fn none() -> (r: CodeSpec)
        ensures
            r@ == code_model_none(),
    {
        let r = CodeSpec {
            code_len: 0,
            codes: Vec::new(),
            sbq_bits: 0,
            codebook: Vec::new(),
            aq_m: 0,
            aq_codebook: Vec::new(),
        };
        proof {
            assert(r@.codes =~= Seq::<Seq<u8>>::empty());
            assert(r@.codebook =~= Seq::<u8>::empty());
            assert(r@.aq_codebook =~= Seq::<u8>::empty());
        }
        r
    }
}

/// Number of codebook pages: one per `CB_CHUNK` bytes, none for an empty codebook.
pub open spec fn cb_npages(len: int) -> int {
    (len + CB_CHUNK - 1) / (CB_CHUNK as int)
}

/// Page `p` of a split codebook: a single item holding bytes `[p*CB_CHUNK, (p+1)*CB_CHUNK)`.
pub open spec fn cb_chunk(cb: Seq<u8>, p: int) -> Seq<u8> {
    let lo = p * CB_CHUNK;
    let hi = if lo + CB_CHUNK <= cb.len() { lo + CB_CHUNK } else { cb.len() as int };
    cb.subrange(lo, hi)
}

pub open spec fn spec_codebook_pages(cb: Seq<u8>) -> Seq<Seq<Seq<u8>>> {
    Seq::new(cb_npages(cb.len() as int) as nat, |p: int| seq![cb_chunk(cb, p)])
}

/// Split the AQ codebook into one-item pages of at most `CB_CHUNK` bytes; an empty codebook
/// gives no pages.
pub fn codebook_pages(codebook: &[u8]) -> (r: Vec<Vec<Vec<u8>>>)
    ensures
        r.deep_view() == spec_codebook_pages(codebook@),
{
    let n = codebook.len();
    let np = n / CB_CHUNK + if n % CB_CHUNK != 0 { 1 } else { 0 };
    assert(np == cb_npages(n as int));
    let mut pages: Vec<Vec<Vec<u8>>> = Vec::new();
    let mut p: usize = 0;
    while p < np
        invariant
            n == codebook@.len(),
            np == cb_npages(n as int),
            p <= np,
            pages@.len() == p,
            pages.deep_view() =~= spec_codebook_pages(codebook@).take(p as int),
        decreases np - p,
    {
        assert(p * CB_CHUNK < n) by (nonlinear_arith)
            requires p < np, np == cb_npages(n as int);
        let lo = p * CB_CHUNK;
        let hi = if n - lo >= CB_CHUNK { lo + CB_CHUNK } else { n };
        let chunk = crate::bytes::copy_bytes(&codebook[lo..hi]);
        let mut page: Vec<Vec<u8>> = Vec::new();
        page.push(chunk);
        proof {
            assert(chunk.deep_view() =~= chunk@);
            assert(cb_chunk(codebook@, p as int) == codebook@.subrange(lo as int, hi as int));
            assert(page.deep_view() =~= seq![cb_chunk(codebook@, p as int)]);
        }
        pages.push(page);
        p = p + 1;
        proof {
            assert(pages.deep_view() =~= spec_codebook_pages(codebook@).take(p as int));
        }
    }
    proof {
        assert(spec_codebook_pages(codebook@).take(np as int) =~= spec_codebook_pages(codebook@));
    }
    pages
}

/// Line pointer plus MAXALIGN'd length of `node`'s neighbor tuple: what it costs on a page.
pub open spec fn nbr_cost(idx: HnswGraph, node: int) -> int {
    ITEMID + spec_maxalign(spec_nbr_size(idx.level(node) as int, idx.m as int, idx.m0 as int))
}

/// Every node's neighbor tuple fits on one page.
pub open spec fn nbrs_fit(idx: HnswGraph, k: int) -> bool {
    forall|i: int| 0 <= i < k ==> #[trigger] nbr_cost(idx, i) <= USABLE
}

/// Every node's neighbor tuple size is a machine-representable length.
pub open spec fn nbr_sizes_fit(idx: HnswGraph) -> bool {
    forall|i: int| 0 <= i < idx.n() ==> #[trigger] spec_nbr_size(idx.level(i) as int, idx.m as int, idx.m0 as int) + 7 <= usize::MAX
}

/// Greedy in-order page packing of the first `k` neighbor tuples: each tuple goes on the current
/// page if its cost still fits (or the page is empty), else it opens a new page. Returns the
/// pages (each a list of tuples) and the bytes used on the last page.
pub open spec fn spec_pack_nbrs(idx: HnswGraph, elem_addr: Seq<Addr>, k: int) -> (Seq<Seq<Seq<u8>>>, int)
    decreases k,
{
    if k <= 0 {
        (seq![Seq::<Seq<u8>>::empty()], 0)
    } else {
        let (pages, used) = spec_pack_nbrs(idx, elem_addr, k - 1);
        let cost = nbr_cost(idx, k - 1);
        let item = spec_encode_neighbors(idx, k - 1, elem_addr, idx.m as int, idx.m0 as int);
        if used + cost > USABLE && pages.last().len() > 0 {
            (pages.push(seq![item]), cost)
        } else {
            (pages.update(pages.len() - 1, pages.last().push(item)), used + cost)
        }
    }
}

/// Where neighbor tuple `i` lands: block `nbr_first + page`, 1-based offset within the page.
pub open spec fn nbr_addr_of(idx: HnswGraph, elem_addr: Seq<Addr>, nbr_first: int, i: int) -> Addr {
    let pages = spec_pack_nbrs(idx, elem_addr, i + 1).0;
    ((nbr_first + pages.len() - 1) as u32, pages.last().len() as u16)
}

proof fn lemma_pack_nbrs_shape(idx: HnswGraph, elem_addr: Seq<Addr>, k: int)
    requires
        k >= 0,
    ensures
        1 <= spec_pack_nbrs(idx, elem_addr, k).0.len() <= k + 1,
        spec_pack_nbrs(idx, elem_addr, k).0.last().len() <= k,
        0 <= spec_pack_nbrs(idx, elem_addr, k).1,
        nbrs_fit(idx, k) ==> spec_pack_nbrs(idx, elem_addr, k).1 <= USABLE,
        k > 0 ==> spec_pack_nbrs(idx, elem_addr, k).0.last().len() > 0,
        k == 0 ==> spec_pack_nbrs(idx, elem_addr, k).1 == 0,
        12 * spec_pack_nbrs(idx, elem_addr, k).0.last().len() <= spec_pack_nbrs(idx, elem_addr, k).1,
    decreases k,
{
    if k > 0 {
        lemma_pack_nbrs_shape(idx, elem_addr, k - 1);
        lemma_nbr_cost_min(idx, k - 1);
        if nbrs_fit(idx, k) {
            assert(nbrs_fit(idx, k - 1));
            assert(nbr_cost(idx, k - 1) <= USABLE);
        }
        assert(nbr_cost(idx, k - 1) >= 0);
    }
}

proof fn lemma_nbr_cost_min(idx: HnswGraph, i: int)
    ensures
        nbr_cost(idx, i) >= 12,
{
    vstd::arithmetic::mul::lemma_mul_nonnegative(idx.level(i) as int, idx.m as int);
    let sz = spec_nbr_size(idx.level(i) as int, idx.m as int, idx.m0 as int);
    assert(sz >= 4);
    assert(spec_maxalign(sz) >= 8) by (nonlinear_arith)
        requires sz >= 4;
}

/// The error text of a neighbor tuple too large for a page, with the node's level and the tuple's
/// size.
pub open spec fn oversized_text(level: nat, size: nat) -> Seq<char> {
    "theodb hnsw: neighbor tuple for a level-"@ + decimal(level) + " node exceeds one page ("@ + decimal(size)
        + " B) — build must cap max level"@
}

/// `e` is the error text of the first node whose neighbor tuple does not fit a page.
pub open spec fn oversized_error(idx: HnswGraph, e: Seq<char>) -> bool {
    exists|i: int|
        0 <= i < idx.n() && nbrs_fit(idx, i) && #[trigger] nbr_cost(idx, i) > USABLE && e == oversized_text(
            idx.level(i) as nat,
            spec_nbr_size(idx.level(i) as int, idx.m as int, idx.m0 as int) as nat,
        )
}

fn oversized_neighbor_message(level: usize, size: usize) -> (r: String)
    ensures
        r@ == oversized_text(level as nat, size as nat),
{
    proof {
        reveal_strlit("theodb hnsw: neighbor tuple for a level-");
        reveal_strlit(" node exceeds one page (");
        reveal_strlit(" B) — build must cap max level");
    }
    let mut s = String::new();
    push_str(&mut s, "theodb hnsw: neighbor tuple for a level-");
    proof {
        assert(s@ =~= "theodb hnsw: neighbor tuple for a level-"@);
    }
    push_decimal(&mut s, level as u64);
    push_str(&mut s, " node exceeds one page (");
    push_decimal(&mut s, size as u64);
    push_str(&mut s, " B) — build must cap max level");
    s
}

/// Pack every node's neighbor tuple onto pages starting at block `nbr_first`, in node order,
/// greedily by free space; returns the pages and each node's neighbor-tuple address. A tuple
/// larger than one page is an error.
pub fn pack_neighbor_pages(idx: &HnswGraph, elem_addr: &Vec<Addr>, nbr_first: usize) -> (r: Result<(Vec<Vec<Vec<u8>>>, Vec<Addr>), String>)
    requires
        idx.wf(),
        elem_addr@.len() == idx.n(),
        nbr_sizes_fit(*idx),
        nbr_first + idx.n() <= usize::MAX,
    ensures
        r is Ok <==> nbrs_fit(*idx, idx.n() as int),
        r matches Err(e) ==> oversized_error(*idx, e@),
        r matches Ok((pages, addrs)) ==> {
            &&& pages.deep_view() == spec_pack_nbrs(*idx, elem_addr@, idx.n() as int).0
            &&& addrs@ == Seq::new(idx.n(), |i: int| nbr_addr_of(*idx, elem_addr@, nbr_first as int, i))
        },
{
    let n = idx.node_count();
    let m = idx.m;
    let m0 = idx.m0;
    let mut done: Vec<Vec<Vec<u8>>> = Vec::new();
    let mut cur: Vec<Vec<u8>> = Vec::new();
    let mut used: usize = 0;
    let mut addrs: Vec<Addr> = Vec::new();
    let mut node: usize = 0;
    proof {
        assert(done.deep_view().push(cur.deep_view()) =~~= spec_pack_nbrs(*idx, elem_addr@, 0).0);
    }
    while node < n
        invariant
            idx.wf(),
            n == idx.n(),
            m == idx.m,
            m0 == idx.m0,
            elem_addr@.len() == n,
            nbr_sizes_fit(*idx),
            nbr_first + n <= usize::MAX,
            node <= n,
            nbrs_fit(*idx, node as int),
            spec_pack_nbrs(*idx, elem_addr@, node as int) == (done.deep_view().push(cur.deep_view()), used as int),
            used <= USABLE,
            done@.len() + 1 <= node + 1,
            cur@.len() <= node,
            addrs@ == Seq::new(node as nat, |i: int| nbr_addr_of(*idx, elem_addr@, nbr_first as int, i)),
        decreases n - node,
    {
        let level = idx.node_level(node);
        assert(spec_nbr_size(level as int, m as int, m0 as int) + 7 <= usize::MAX);
        let size = nbr_size(level, m, m0);
        let cost = ITEMID + maxalign(size);
        assert(cost == nbr_cost(*idx, node as int));
        if cost > USABLE {
            let e = oversized_neighbor_message(level, size);
            proof {
                assert(nbr_cost(*idx, node as int) > USABLE);
            }
            return Err(e);
        }
        let ghost old_pages = done.deep_view().push(cur.deep_view());
        let ghost item = spec_encode_neighbors(*idx, node as int, elem_addr@, m as int, m0 as int);
        if used + cost > USABLE && cur.len() > 0 {
            let mut full: Vec<Vec<u8>> = Vec::new();
            std::mem::swap(&mut full, &mut cur);
            done.push(full);
            used = 0;
            proof {
                assert(done.deep_view().push(cur.deep_view()) =~~= old_pages.push(Seq::<Seq<u8>>::empty()));
            }
        }
        let blkno = #[verifier::truncate] ((nbr_first + done.len()) as u32);
        let offno = #[verifier::truncate] ((cur.len() + 1) as u16);
        addrs.push((blkno, offno));
        proof {
            assert forall|lc: int, k: int|
                0 <= lc <= idx.level(node as int) && 0 <= k < crate::codec::layer_len(lc, m as int, m0 as int)
                    && k < idx.nbrs(node as int, lc).len() implies
                (#[trigger] idx.nbrs(node as int, lc)[k]) < elem_addr@.len() by {
                assert(idx.nbrs(node as int, lc)[k] < idx.n());
            }
            assert(crate::codec::neighbor_refs_resolve(*idx, node as int, elem_addr@, m as int, m0 as int));
        }
        let enc = encode_neighbors(idx, node, elem_addr.as_slice(), m, m0);
        cur.push(enc);
        used = used + cost;
        proof {
            lemma_pack_nbrs_shape(*idx, elem_addr@, node as int);
            let next = spec_pack_nbrs(*idx, elem_addr@, node + 1);
            assert(enc.deep_view() =~= enc@);
            assert(next.0 =~~= done.deep_view().push(cur.deep_view()));
            assert(next.1 == used);
            assert(nbr_addr_of(*idx, elem_addr@, nbr_first as int, node as int) == (blkno, offno));
        }
        node = node + 1;
        proof {
            assert(addrs@ =~= Seq::new(node as nat, |i: int| nbr_addr_of(*idx, elem_addr@, nbr_first as int, i)));
        }
    }
    done.push(cur);
    Ok((done, addrs))
}

pub open spec fn ceil_div(a: int, b: int) -> int {
    (a + b - 1) / b
}

/// `items` cut into consecutive pages of `per` items (the last page possibly shorter).
pub open spec fn spec_chunks(items: Seq<Seq<u8>>, per: int) -> Seq<Seq<Seq<u8>>> {
    Seq::new(
        ceil_div(items.len() as int, per) as nat,
        |p: int| items.subrange(p * per, if p * per + per <= items.len() { p * per + per } else { items.len() as int }),
    )
}

/// Cut `items` into pages of `per` items each, in order.
pub fn chunk_items(items: Vec<Vec<u8>>, per: usize) -> (r: Vec<Vec<Vec<u8>>>)
    requires
        per >= 1,
    ensures
        r.deep_view() == spec_chunks(items.deep_view(), per as int),
{
    let ghost all = items.deep_view();
    let mut rest = items;
    let mut pages: Vec<Vec<Vec<u8>>> = Vec::new();
    let ghost np = ceil_div(all.len() as int, per as int);
    proof {
        assert(rest.deep_view().len() == rest@.len());
        if all.len() > 0 {
            assert(np >= 1) by (nonlinear_arith)
                requires np == (all.len() + per - 1) / (per as int), per >= 1, all.len() > 0;
        } else {
            assert(np == 0) by (nonlinear_arith)
                requires np == (all.len() + per - 1) / (per as int), per >= 1, all.len() == 0;
        }
        assert(rest.deep_view() =~= all.skip(0));
        assert(pages.deep_view() =~= spec_chunks(all, per as int).take(0));
    }
    while rest.len() > 0
        invariant
            per >= 1,
            np == ceil_div(all.len() as int, per as int),
            rest@.len() > 0 ==> pages@.len() * per + rest@.len() == all.len(),
            rest@.len() > 0 ==> pages@.len() < np,
            rest@.len() > 0 ==> rest.deep_view() == all.skip(pages@.len() * per),
            rest@.len() == 0 ==> pages@.len() == np,
            pages.deep_view() == spec_chunks(all, per as int).take(pages@.len() as int),
        decreases rest@.len(),
    {
        let ghost p = pages@.len() as int;
        proof {
            assert((p + 1) * per == p * per + per) by (nonlinear_arith);
        }
        if rest.len() > per {
            let tail = rest.split_off(per);
            proof {
                assert(rest.deep_view() =~= all.subrange(p * per, p * per + per));
                assert(tail.deep_view() =~= all.skip(p * per + per));
                assert(p + 1 < np) by (nonlinear_arith)
                    requires (p + 1) * per < all.len(), np == (all.len() + per - 1) / (per as int), per >= 1;
            }
            pages.push(rest);
            rest = tail;
        } else {
            let mut last: Vec<Vec<u8>> = Vec::new();
            std::mem::swap(&mut last, &mut rest);
            proof {
                assert(last.deep_view() =~= all.subrange(p * per, all.len() as int));
                assert(p + 1 == np) by (nonlinear_arith)
                    requires p * per < all.len(), (p + 1) * per >= all.len(), np == (all.len() + per - 1) / (per as int), per >= 1;
            }
            pages.push(last);
        }
        proof {
            assert(pages.deep_view() =~= spec_chunks(all, per as int).take(pages@.len() as int));
        }
    }
    proof {
        assert(spec_chunks(all, per as int).take(np) =~= spec_chunks(all, per as int));
    }
    pages
}

/// Element `i`'s analytic address: `ipp` fixed-size tuples per page from block `base`, offsets 1-based.
pub open spec fn elem_addr_of(base: int, ipp: int, i: int) -> Addr {
    ((base + i / ipp) as u32, (1 + i % ipp) as u16)
}

pub open spec fn spec_elem_addrs(base: int, ipp: int, n: int) -> Seq<Addr> {
    Seq::new(n as nat, |i: int| elem_addr_of(base, ipp, i))
}

/// The analytic element addresses of `n` nodes, `ipp` per page from block `base`.
pub fn elem_addrs(n: usize, ipp: usize, base: usize) -> (r: Vec<Addr>)
    requires
        ipp >= 1,
        base + n <= usize::MAX,
    ensures
        r@ == spec_elem_addrs(base as int, ipp as int, n as int),
{
    let mut out: Vec<Addr> = Vec::new();
    let mut i: usize = 0;
    while i < n
        invariant
            ipp >= 1,
            base + n <= usize::MAX,
            i <= n,
            out@ == spec_elem_addrs(base as int, ipp as int, i as int),
        decreases n - i,
    {
        assert(i / ipp <= i) by (nonlinear_arith)
            requires ipp >= 1;
        let blk = #[verifier::truncate] ((base + i / ipp) as u32);
        let off = #[verifier::truncate] ((1 + i % ipp) as u16);
        out.push((blk, off));
        i = i + 1;
        proof {
            assert(out@ =~= spec_elem_addrs(base as int, ipp as int, i as int));
        }
    }
    out
}

/// The code written after node `i`'s vector: its trained code, or nothing when uncoded.
pub open spec fn node_code(code_len: usize, codes: Seq<Seq<u8>>, i: int) -> Seq<u8> {
    if code_len > 0 { codes[i] } else { Seq::<u8>::empty() }
}

/// The packer's preconditions on a graph and its codes: a well-formed graph, vectors no longer
/// than the index dimension, a code for every node when coded, and tuple sizes and block numbers
/// that are machine-representable.
pub open spec fn pack_inputs_ok(idx: HnswGraph, base: int, code_len: usize, codes: Seq<Seq<u8>>) -> bool {
    &&& idx.wf()
    &&& forall|i: int| 0 <= i < idx.n() ==> (#[trigger] idx.vectors@[i])@.len() <= idx.dim * 4
    &&& (code_len > 0 ==> codes.len() >= idx.n())
    &&& spec_elem_size(idx.dim as int, code_len as int) + 7 <= usize::MAX
    &&& forall|i: int| 0 <= i < idx.n() ==> #[trigger] spec_elem_size(idx.dim as int, node_code(code_len, codes, i).len() as int) <= usize::MAX
    &&& nbr_sizes_fit(idx)
    &&& base + 2 * idx.n() + 1 <= usize::MAX
}

/// Every node's element tuple, in node order, pointing at its neighbor tuple.
pub open spec fn spec_elements(idx: HnswGraph, nbr_addr: Seq<Addr>, dim: int, code_len: usize, codes: Seq<Seq<u8>>) -> Seq<Seq<u8>> {
    Seq::new(idx.n(), |i: int| spec_encode_element(idx, i, nbr_addr[i], dim, node_code(code_len, codes, i)))
}

fn encode_all_elements(idx: &HnswGraph, nbr_addr: &Vec<Addr>, dim: usize, code_len: usize, codes: &Vec<Vec<u8>>) -> (r: Vec<Vec<u8>>)
    requires
        pack_inputs_ok(*idx, 0, code_len, codes.deep_view()),
        dim == idx.dim,
        nbr_addr@.len() == idx.n(),
    ensures
        r.deep_view() == spec_elements(*idx, nbr_addr@, dim as int, code_len, codes.deep_view()),
{
    let n = idx.node_count();
    let empty: Vec<u8> = Vec::new();
    let mut out: Vec<Vec<u8>> = Vec::new();
    let mut node: usize = 0;
    while node < n
        invariant
            pack_inputs_ok(*idx, 0, code_len, codes.deep_view()),
            dim == idx.dim,
            n == idx.n(),
            nbr_addr@.len() == n,
            empty@.len() == 0,
            node <= n,
            out.deep_view() =~= spec_elements(*idx, nbr_addr@, dim as int, code_len, codes.deep_view()).take(node as int),
        decreases n - node,
    {
        let code: &[u8] = if code_len > 0 { codes[node].as_slice() } else { empty.as_slice() };
        proof {
            if code_len > 0 {
                assert(codes@[node as int].deep_view() =~= codes@[node as int]@);
            }
        }
        assert(code@ == node_code(code_len, codes.deep_view(), node as int));
        assert(idx.vectors@[node as int]@.len() <= dim * 4);
        assert(spec_elem_size(dim as int, node_code(code_len, codes.deep_view(), node as int).len() as int) <= usize::MAX);
        let item = encode_element(idx, node, nbr_addr[node], dim, code);
        let ghost prev = out.deep_view();
        proof {
            assert(item.deep_view() =~= item@);
        }
        out.push(item);
        proof {
            assert(out.deep_view() =~= prev.push(item@));
            assert(spec_elements(*idx, nbr_addr@, dim as int, code_len, codes.deep_view())[node as int] == item@);
            assert(spec_elements(*idx, nbr_addr@, dim as int, code_len, codes.deep_view()).take(node + 1) =~= spec_elements(
                *idx,
                nbr_addr@,
                dim as int,
                code_len,
                codes.deep_view(),
            ).take(node as int).push(item@));
        }
        node = node + 1;
    }
    proof {
        assert(spec_elements(*idx, nbr_addr@, dim as int, code_len, codes.deep_view()).take(n as int) =~= spec_elements(*idx, nbr_addr@, dim as int, code_len, codes.deep_view()));
    }
    out
}

/// The meta of an empty graph: parameters only, `entry_level = -1`, everything based at `base`.
pub open spec fn spec_empty_meta(idx: HnswGraph, base: int) -> MetaModel {
    MetaModel {
        metric_tag: idx.metric_tag,
        dim: idx.dim as u32,
        m: idx.m as u16,
        m0: idx.m0 as u16,
        entry_blkno: 0,
        entry_offno: 0,
        entry_level: -1i16,
        node_count: 0,
        elem_first: base as u32,
        elem_npages: 0,
        nbr_first: base as u32,
        nbr_npages: 0,
        sbq_bits: 0,
        codebook: Seq::empty(),
        aq_m: 0,
        aq_codebook: Seq::empty(),
        aq_cb_first: 0,
        aq_cb_npages: 0,
        raw_first: 0,
        raw_npages: 0,
    }
}

pub open spec fn kind_ipp(idx: HnswGraph, code_len: usize) -> int {
    spec_items_per_page(spec_elem_size(idx.dim as int, code_len as int))
}

pub open spec fn kind_elem_addrs(idx: HnswGraph, base: int, code_len: usize) -> Seq<Addr> {
    spec_elem_addrs(base, kind_ipp(idx, code_len), idx.n() as int)
}

pub open spec fn kind_nbr_first(idx: HnswGraph, base: int, code_len: usize) -> int {
    base + ceil_div(idx.n() as int, kind_ipp(idx, code_len))
}

pub open spec fn kind_nbr_pages(idx: HnswGraph, base: int, code_len: usize) -> Seq<Seq<Seq<u8>>> {
    spec_pack_nbrs(idx, kind_elem_addrs(idx, base, code_len), idx.n() as int).0
}

pub open spec fn kind_nbr_addrs(idx: HnswGraph, base: int, code_len: usize) -> Seq<Addr> {
    Seq::new(idx.n(), |i: int| nbr_addr_of(idx, kind_elem_addrs(idx, base, code_len), kind_nbr_first(idx, base, code_len), i))
}

/// The meta `pack_kind` writes for a non-empty graph: parameters, the entry point's element
/// address and level, the element and neighbor page ranges, the code kind's trailer, and the
/// AQ codebook page range right after the neighbor pages.
pub open spec fn spec_pack_kind_meta(idx: HnswGraph, base: int, cs: CodeModel) -> MetaModel {
    let n = idx.n() as int;
    let ipp = kind_ipp(idx, cs.code_len);
    let elem_npages = ceil_div(n, ipp);
    let nbr_first = base + elem_npages;
    let eaddr = kind_elem_addrs(idx, base, cs.code_len);
    let nbr_npages = kind_nbr_pages(idx, base, cs.code_len).len() as int;
    let e = idx.entry->0 as int;
    MetaModel {
        metric_tag: idx.metric_tag,
        dim: idx.dim as u32,
        m: idx.m as u16,
        m0: idx.m0 as u16,
        entry_blkno: eaddr[e].0,
        entry_offno: eaddr[e].1,
        entry_level: idx.level(e) as i16,
        node_count: n as u32,
        elem_first: base as u32,
        elem_npages: elem_npages as u32,
        nbr_first: nbr_first as u32,
        nbr_npages: nbr_npages as u32,
        sbq_bits: cs.sbq_bits,
        codebook: cs.codebook,
        aq_m: cs.aq_m,
        aq_codebook: cs.aq_codebook,
        aq_cb_first: if cs.aq_m != 0 { (nbr_first + nbr_npages) as u32 } else { 0u32 },
        aq_cb_npages: if cs.aq_m != 0 { cb_npages(cs.aq_codebook.len() as int) as u32 } else { 0u32 },
        raw_first: 0,
        raw_npages: 0,
    }
}

/// The body `pack_kind` writes: element pages, then neighbor pages, then AQ codebook pages.
pub open spec fn spec_pack_kind_pages(idx: HnswGraph, base: int, cs: CodeModel) -> Seq<Seq<Seq<u8>>> {
    let elems = spec_elements(idx, kind_nbr_addrs(idx, base, cs.code_len), idx.dim as int, cs.code_len, cs.codes);
    spec_chunks(elems, kind_ipp(idx, cs.code_len)) + kind_nbr_pages(idx, base, cs.code_len) + spec_codebook_pages(cs.aq_codebook)
}

/// The codes were trained for `kind`: none at all for a plain pack, SBQ codes of that width
/// (and no AQ codebook) for SBQ, AQ codes of that subspace count (and no SBQ codebook) for AQ.
pub open spec fn codes_match_kind(kind: CodeKind, cs: CodeModel) -> bool {
    match kind {
        CodeKind::Plain => cs == code_model_none(),
        CodeKind::Sbq { bits } => cs.sbq_bits == bits && cs.aq_m == 0 && cs.aq_codebook.len() == 0,
        CodeKind::Aq { m, .. } => cs.aq_m == m && cs.sbq_bits == 0 && cs.codebook.len() == 0,
    }
}

/// When `pack_kind` succeeds: always on an empty graph; otherwise for a non-AQ kind, every
/// neighbor tuple fitting a page, and an entry point.
pub open spec fn pack_kind_ok(idx: HnswGraph, kind: CodeKind) -> bool {
    idx.n() == 0 || (!(kind is Aq) && nbrs_fit(idx, idx.n() as int) && idx.entry is Some)
}

pub const ERR_NO_ENTRY: &'static str = "theodb hnsw: non-empty graph without an entry point";
pub const ERR_AQ_VIA_KIND: &'static str =
    "theodb hnsw: internal — AQ must be packed via pack_v4 (v4 code/vector split), not pack_kind";

/// The shared v1/v2 pack core: analytic element addresses, neighbor tuples packed by free
/// space, element tuples carrying `cs`'s per-node code, and the meta with `cs`'s trailer. An empty
/// graph packs to a meta page alone.
pub fn pack_kind(idx: &HnswGraph, base: usize, kind: &CodeKind, cs: CodeSpec) -> (r: Result<Packed, String>)
    requires
        pack_inputs_ok(*idx, base as int, cs@.code_len, cs@.codes),
        codes_match_kind(*kind, cs@),
    ensures
        r is Ok <==> pack_kind_ok(*idx, *kind),
        r matches Ok(p) ==> if idx.n() == 0 {
            p.meta@ == spec_encode_meta(spec_empty_meta(*idx, base as int)) && p.pages@.len() == 0
        } else {
            &&& p.meta@ == spec_encode_meta(spec_pack_kind_meta(*idx, base as int, cs@))
            &&& p.pages.deep_view() == spec_pack_kind_pages(*idx, base as int, cs@)
        },
        r matches Err(e) ==> idx.n() > 0 && (kind is Aq ==> e@ == ERR_AQ_VIA_KIND@),
        idx.n() > 0 && !(kind is Aq) && nbrs_fit(*idx, idx.n() as int) && idx.entry is None ==> (r matches Err(e) && e@
            == ERR_NO_ENTRY@),
        idx.n() > 0 && !(kind is Aq) && !nbrs_fit(*idx, idx.n() as int) ==> (r matches Err(e) && oversized_error(
            *idx,
            e@,
        )),
{
    let n = idx.node_count();
    let dim = idx.dim;
    let m = idx.m;
    let m0 = idx.m0;
    if n == 0 {
        let meta = encode_meta(
            &HnswMeta {
                metric_tag: idx.metric_tag,
                dim: #[verifier::truncate] (dim as u32),
                m: #[verifier::truncate] (m as u16),
                m0: #[verifier::truncate] (m0 as u16),
                entry_blkno: 0,
                entry_offno: 0,
                entry_level: -1,
                node_count: 0,
                elem_first: #[verifier::truncate] (base as u32),
                elem_npages: 0,
                nbr_first: #[verifier::truncate] (base as u32),
                nbr_npages: 0,
                sbq_bits: 0,
                codebook: Vec::new(),
                aq_m: 0,
                aq_codebook: Vec::new(),
                aq_cb_first: 0,
                aq_cb_npages: 0,
                raw_first: 0,
                raw_npages: 0,
            },
        );
        proof {
            assert(meta@ == spec_encode_meta(spec_empty_meta(*idx, base as int)));
        }
        return Ok(Packed { meta, pages: Vec::new() });
    }
    if let CodeKind::Aq { .. } = kind {
        return Err(ERR_AQ_VIA_KIND.to_string());
    }
    let ghost csv = cs@;
    let CodeSpec { code_len, codes, sbq_bits, codebook, aq_m, aq_codebook } = cs;
    let ipp = elems_per_page(dim, code_len);
    let elem_npages = n / ipp + if n % ipp != 0 { 1 } else { 0 };
    proof {
        assert(elem_npages == ceil_div(n as int, ipp as int)) by (nonlinear_arith)
            requires elem_npages == n / ipp + (if n % ipp != 0 { 1int } else { 0int }), ipp >= 1;
        assert(elem_npages <= n) by (nonlinear_arith)
            requires elem_npages == ceil_div(n as int, ipp as int), ipp >= 1;
    }
    let elem_addr = elem_addrs(n, ipp, base);
    let nbr_first = base + elem_npages;
    let (nbr_pages, nbr_addr) = match pack_neighbor_pages(idx, &elem_addr, nbr_first) {
        Ok(x) => x,
        Err(e) => {
            return Err(e);
        },
    };
    let nbr_npages = nbr_pages.len();
    proof {
        lemma_pack_nbrs_shape(*idx, elem_addr@, n as int);
        assert(nbr_addr@ == kind_nbr_addrs(*idx, base as int, code_len));
    }
    let items = encode_all_elements(idx, &nbr_addr, dim, code_len, &codes);
    let mut pages = chunk_items(items, ipp);
    let cb_first = nbr_first + nbr_npages;
    let mut cb_pages = codebook_pages(aq_codebook.as_slice());
    let aq_cb_npages = cb_pages.len();
    let entry_node = match idx.entry {
        Some(e) => e,
        None => {
            return Err(ERR_NO_ENTRY.to_string());
        },
    };
    let (eb, eo) = elem_addr[entry_node];
    let entry_level = idx.node_level(entry_node);
    let meta_value = HnswMeta {
        metric_tag: idx.metric_tag,
        dim: #[verifier::truncate] (dim as u32),
        m: #[verifier::truncate] (m as u16),
        m0: #[verifier::truncate] (m0 as u16),
        entry_blkno: eb,
        entry_offno: eo,
        entry_level: #[verifier::truncate] (entry_level as i16),
        node_count: #[verifier::truncate] (n as u32),
        elem_first: #[verifier::truncate] (base as u32),
        elem_npages: #[verifier::truncate] (elem_npages as u32),
        nbr_first: #[verifier::truncate] (nbr_first as u32),
        nbr_npages: #[verifier::truncate] (nbr_npages as u32),
        sbq_bits,
        codebook,
        aq_m,
        aq_codebook,
        aq_cb_first: if aq_m != 0 { #[verifier::truncate] (cb_first as u32) } else { 0 },
        aq_cb_npages: if aq_m != 0 { #[verifier::truncate] (aq_cb_npages as u32) } else { 0 },
        raw_first: 0,
        raw_npages: 0,
    };
    let meta = encode_meta(&meta_value);
    let ghost elem_view = pages.deep_view();
    let mut nbr_pages = nbr_pages;
    let ghost nbr_view = nbr_pages.deep_view();
    let ghost cb_view = cb_pages.deep_view();
    pages.append(&mut nbr_pages);
    proof {
        assert(pages.deep_view() =~= elem_view + nbr_view);
    }
    pages.append(&mut cb_pages);
    proof {
        assert(pages.deep_view() =~= elem_view + nbr_view + cb_view);
        assert(meta_value@ == spec_pack_kind_meta(*idx, base as int, csv));
    }
    Ok(Packed { meta, pages })
}

// ---------------------------------------------------------------------------------------------
// v4: hot code-only element tuples plus a separate cold raw-vector region
// ---------------------------------------------------------------------------------------------

/// The v4 packer's preconditions: a well-formed graph with a code for every node, and tuple
/// sizes and block numbers that are machine-representable.
pub open spec fn pack_v4_inputs_ok(idx: HnswGraph, base: int, cs: CodeModel) -> bool {
    &&& idx.wf()
    &&& cs.codes.len() >= idx.n()
    &&& spec_elem_size_v4(cs.code_len as int) + 7 <= usize::MAX
    &&& spec_raw_size(idx.dim as int) + 7 <= usize::MAX
    &&& nbr_sizes_fit(idx)
    &&& base + 3 * idx.n() + cb_npages(cs.aq_codebook.len() as int) + 2 <= usize::MAX
}

pub open spec fn v4_ipp(cs: CodeModel) -> int {
    spec_items_per_page(spec_elem_size_v4(cs.code_len as int))
}

pub open spec fn v4_rpp(idx: HnswGraph) -> int {
    spec_items_per_page(spec_raw_size(idx.dim as int))
}

pub open spec fn v4_elem_addrs(idx: HnswGraph, base: int, cs: CodeModel) -> Seq<Addr> {
    spec_elem_addrs(base, v4_ipp(cs), idx.n() as int)
}

pub open spec fn v4_nbr_first(idx: HnswGraph, base: int, cs: CodeModel) -> int {
    base + ceil_div(idx.n() as int, v4_ipp(cs))
}

pub open spec fn v4_nbr_pages(idx: HnswGraph, base: int, cs: CodeModel) -> Seq<Seq<Seq<u8>>> {
    spec_pack_nbrs(idx, v4_elem_addrs(idx, base, cs), idx.n() as int).0
}

pub open spec fn v4_nbr_addrs(idx: HnswGraph, base: int, cs: CodeModel) -> Seq<Addr> {
    Seq::new(idx.n(), |i: int| nbr_addr_of(idx, v4_elem_addrs(idx, base, cs), v4_nbr_first(idx, base, cs), i))
}

pub open spec fn v4_cb_first(idx: HnswGraph, base: int, cs: CodeModel) -> int {
    v4_nbr_first(idx, base, cs) + v4_nbr_pages(idx, base, cs).len()
}

pub open spec fn v4_raw_first(idx: HnswGraph, base: int, cs: CodeModel) -> int {
    v4_cb_first(idx, base, cs) + cb_npages(cs.aq_codebook.len() as int)
}

pub open spec fn v4_raw_addrs(idx: HnswGraph, base: int, cs: CodeModel) -> Seq<Addr> {
    spec_elem_addrs(v4_raw_first(idx, base, cs), v4_rpp(idx), idx.n() as int)
}

/// Every node's hot element tuple, pointing at its neighbor tuple and its raw-vector tuple.
pub open spec fn spec_elements_v4(idx: HnswGraph, nbr_addr: Seq<Addr>, raw_addr: Seq<Addr>, cs: CodeModel) -> Seq<Seq<u8>> {
    Seq::new(idx.n(), |i: int| spec_encode_element_v4(idx, i, nbr_addr[i], raw_addr[i], idx.dim as int, cs.codes[i]))
}

/// Every node's raw-vector tuple.
pub open spec fn spec_raws(idx: HnswGraph) -> Seq<Seq<u8>> {
    Seq::new(idx.n(), |i: int| spec_raw_bytes(idx.vectors@[i]@))
}

/// The meta `pack_v4` writes: parameters, the entry point's hot element address, the page
/// ranges of the hot elements, neighbors, AQ codebook and raw region, and the AQ descriptor.
pub open spec fn spec_pack_v4_meta(idx: HnswGraph, base: int, cs: CodeModel) -> MetaModel {
    let n = idx.n() as int;
    let eaddr = v4_elem_addrs(idx, base, cs);
    let e = idx.entry->0 as int;
    MetaModel {
        metric_tag: idx.metric_tag,
        dim: idx.dim as u32,
        m: idx.m as u16,
        m0: idx.m0 as u16,
        entry_blkno: eaddr[e].0,
        entry_offno: eaddr[e].1,
        entry_level: idx.level(e) as i16,
        node_count: n as u32,
        elem_first: base as u32,
        elem_npages: ceil_div(n, v4_ipp(cs)) as u32,
        nbr_first: v4_nbr_first(idx, base, cs) as u32,
        nbr_npages: v4_nbr_pages(idx, base, cs).len() as u32,
        sbq_bits: 0,
        codebook: Seq::empty(),
        aq_m: cs.aq_m,
        aq_codebook: cs.aq_codebook,
        aq_cb_first: v4_cb_first(idx, base, cs) as u32,
        aq_cb_npages: cb_npages(cs.aq_codebook.len() as int) as u32,
        raw_first: v4_raw_first(idx, base, cs) as u32,
        raw_npages: ceil_div(n, v4_rpp(idx)) as u32,
    }
}

/// The v4 body: hot element pages, neighbor pages, AQ codebook pages, raw-vector pages.
pub open spec fn spec_pack_v4_pages(idx: HnswGraph, base: int, cs: CodeModel) -> Seq<Seq<Seq<u8>>> {
    let elems = spec_elements_v4(idx, v4_nbr_addrs(idx, base, cs), v4_raw_addrs(idx, base, cs), cs);
    spec_chunks(elems, v4_ipp(cs)) + v4_nbr_pages(idx, base, cs) + spec_codebook_pages(cs.aq_codebook)
        + spec_chunks(spec_raws(idx), v4_rpp(idx))
}

fn encode_all_elements_v4(idx: &HnswGraph, nbr_addr: &Vec<Addr>, raw_addr: &Vec<Addr>, cs: &CodeSpec) -> (r: Vec<Vec<u8>>)
    requires
        idx.wf(),
        cs@.codes.len() >= idx.n(),
        nbr_addr@.len() == idx.n(),
        raw_addr@.len() == idx.n(),
    ensures
        r.deep_view() == spec_elements_v4(*idx, nbr_addr@, raw_addr@, cs@),
{
    let n = idx.node_count();
    let mut out: Vec<Vec<u8>> = Vec::new();
    let mut node: usize = 0;
    while node < n
        invariant
            idx.wf(),
            cs@.codes.len() >= idx.n(),
            n == idx.n(),
            nbr_addr@.len() == n,
            raw_addr@.len() == n,
            node <= n,
            out.deep_view() =~= spec_elements_v4(*idx, nbr_addr@, raw_addr@, cs@).take(node as int),
        decreases n - node,
    {
        proof {
            assert(cs.codes@[node as int].deep_view() =~= cs.codes@[node as int]@);
        }
        let item = encode_element_v4(idx, node, nbr_addr[node], raw_addr[node], idx.dim, cs.codes[node].as_slice());
        let ghost prev = out.deep_view();
        proof {
            assert(item.deep_view() =~= item@);
        }
        out.push(item);
        proof {
            assert(out.deep_view() =~= prev.push(item@));
            assert(spec_elements_v4(*idx, nbr_addr@, raw_addr@, cs@).take(node + 1) =~= spec_elements_v4(
                *idx,
                nbr_addr@,
                raw_addr@,
                cs@,
            ).take(node as int).push(item@));
        }
        node = node + 1;
    }
    proof {
        assert(spec_elements_v4(*idx, nbr_addr@, raw_addr@, cs@).take(n as int) =~= spec_elements_v4(*idx, nbr_addr@, raw_addr@, cs@));
    }
    out
}

fn encode_all_raws(idx: &HnswGraph) -> (r: Vec<Vec<u8>>)
    requires
        idx.wf(),
    ensures
        r.deep_view() == spec_raws(*idx),
{
    let n = idx.node_count();
    let mut out: Vec<Vec<u8>> = Vec::new();
    let mut node: usize = 0;
    while node < n
        invariant
            idx.wf(),
            n == idx.n(),
            node <= n,
            out.deep_view() =~= spec_raws(*idx).take(node as int),
        decreases n - node,
    {
        let item = encode_raw_vec(idx.node_vector(node));
        let ghost prev = out.deep_view();
        proof {
            assert(item.deep_view() =~= item@);
        }
        out.push(item);
        proof {
            assert(out.deep_view() =~= prev.push(item@));
            assert(spec_raws(*idx).take(node + 1) =~= spec_raws(*idx).take(node as int).push(item@));
        }
        node = node + 1;
    }
    proof {
        assert(spec_raws(*idx).take(n as int) =~= spec_raws(*idx));
    }
    out
}

/// The v4 pack core: hot code-only element tuples (each with its neighbor and raw-vector
/// addresses), neighbor tuples packed by free space, the AQ codebook pages, then the raw-vector
/// region, and the meta with the AQ descriptor and raw region. A graph without an entry point
/// (including an empty one) is an error.
pub fn pack_v4(idx: &HnswGraph, base: usize, cs: CodeSpec) -> (r: Result<Packed, String>)
    requires
        pack_v4_inputs_ok(*idx, base as int, cs@),
    ensures
        r is Ok <==> nbrs_fit(*idx, idx.n() as int) && idx.entry is Some,
        !nbrs_fit(*idx, idx.n() as int) ==> (r matches Err(e) && oversized_error(*idx, e@)),
        nbrs_fit(*idx, idx.n() as int) && idx.entry is None ==> (r matches Err(e) && e@ == ERR_NO_ENTRY@),
        r matches Ok(p) ==> {
            &&& p.meta@ == spec_encode_meta(spec_pack_v4_meta(*idx, base as int, cs@))
            &&& p.pages.deep_view() == spec_pack_v4_pages(*idx, base as int, cs@)
        },
{
    let n = idx.node_count();
    let dim = idx.dim;
    let m = idx.m;
    let m0 = idx.m0;
    let ipp = elems_per_page_v4(cs.code_len);
    let elem_npages = n / ipp + if n % ipp != 0 { 1 } else { 0 };
    proof {
        assert(elem_npages == ceil_div(n as int, ipp as int)) by (nonlinear_arith)
            requires elem_npages == n / ipp + (if n % ipp != 0 { 1int } else { 0int }), ipp >= 1;
        assert(elem_npages <= n) by (nonlinear_arith)
            requires elem_npages == ceil_div(n as int, ipp as int), ipp >= 1;
    }
    let elem_addr = elem_addrs(n, ipp, base);
    let nbr_first = base + elem_npages;
    let (nbr_pages, nbr_addr) = match pack_neighbor_pages(idx, &elem_addr, nbr_first) {
        Ok(x) => x,
        Err(e) => {
            return Err(e);
        },
    };
    let nbr_npages = nbr_pages.len();
    proof {
        lemma_pack_nbrs_shape(*idx, elem_addr@, n as int);
        assert(nbr_addr@ == v4_nbr_addrs(*idx, base as int, cs@));
    }
    let cb_first = nbr_first + nbr_npages;
    let mut cb_pages = codebook_pages(cs.aq_codebook.as_slice());
    let aq_cb_npages = cb_pages.len();
    proof {
        assert(nbr_pages.deep_view().len() == nbr_pages@.len());
        assert(cb_pages.deep_view().len() == cb_pages@.len());
        assert(aq_cb_npages == cb_npages(cs.aq_codebook@.len() as int));
    }
    let raw_first = cb_first + aq_cb_npages;
    let rpp = raws_per_page(dim);
    let raw_npages = n / rpp + if n % rpp != 0 { 1 } else { 0 };
    proof {
        assert(raw_npages == ceil_div(n as int, rpp as int)) by (nonlinear_arith)
            requires raw_npages == n / rpp + (if n % rpp != 0 { 1int } else { 0int }), rpp >= 1;
        assert(raw_npages <= n) by (nonlinear_arith)
            requires raw_npages == ceil_div(n as int, rpp as int), rpp >= 1;
    }
    let raw_addr = elem_addrs(n, rpp, raw_first);
    let raws = encode_all_raws(idx);
    let mut raw_pages = chunk_items(raws, rpp);
    let items = encode_all_elements_v4(idx, &nbr_addr, &raw_addr, &cs);
    let mut pages = chunk_items(items, ipp);
    let entry_node = match idx.entry {
        Some(e) => e,
        None => {
            return Err(ERR_NO_ENTRY.to_string());
        },
    };
    let (eb, eo) = elem_addr[entry_node];
    let entry_level = idx.node_level(entry_node);
    let ghost csv = cs@;
    let CodeSpec { code_len: _, codes: _, sbq_bits: _, codebook: _, aq_m, aq_codebook } = cs;
    let meta_value = HnswMeta {
        metric_tag: idx.metric_tag,
        dim: #[verifier::truncate] (dim as u32),
        m: #[verifier::truncate] (m as u16),
        m0: #[verifier::truncate] (m0 as u16),
        entry_blkno: eb,
        entry_offno: eo,
        entry_level: #[verifier::truncate] (entry_level as i16),
        node_count: #[verifier::truncate] (n as u32),
        elem_first: #[verifier::truncate] (base as u32),
        elem_npages: #[verifier::truncate] (elem_npages as u32),
        nbr_first: #[verifier::truncate] (nbr_first as u32),
        nbr_npages: #[verifier::truncate] (nbr_npages as u32),
        sbq_bits: 0,
        codebook: Vec::new(),
        aq_m,
        aq_codebook,
        aq_cb_first: #[verifier::truncate] (cb_first as u32),
        aq_cb_npages: #[verifier::truncate] (aq_cb_npages as u32),
        raw_first: #[verifier::truncate] (raw_first as u32),
        raw_npages: #[verifier::truncate] (raw_npages as u32),
    };
    let meta = encode_meta(&meta_value);
    let ghost elem_view = pages.deep_view();
    let mut nbr_pages = nbr_pages;
    let ghost nbr_view = nbr_pages.deep_view();
    let ghost cb_view = cb_pages.deep_view();
    let ghost raw_view = raw_pages.deep_view();
    pages.append(&mut nbr_pages);
    proof {
        assert(pages.deep_view() =~= elem_view + nbr_view);
    }
    pages.append(&mut cb_pages);
    proof {
        assert(pages.deep_view() =~= elem_view + nbr_view + cb_view);
    }
    pages.append(&mut raw_pages);
    proof {
        assert(pages.deep_view() =~= elem_view + nbr_view + cb_view + raw_view);
        assert(meta_value@ == spec_pack_v4_meta(*idx, base as int, csv));
    }
    Ok(Packed { meta, pages })
}

// ---------------------------------------------------------------------------------------------
// Entry points
// ---------------------------------------------------------------------------------------------

/// The codes a v1/v2 pack uses: none for `sbq_bits == 0`, else the trained SBQ codes.
pub open spec fn codes_for_bits(sbq_bits: u8, codes: CodeModel) -> CodeModel {
    if sbq_bits == 0 { code_model_none() } else { codes }
}

/// `pack_at` succeeds on an empty graph, or when every neighbor tuple fits a page and there is an
/// entry point.
pub open spec fn pack_at_ok(idx: HnswGraph) -> bool {
    idx.n() == 0 || (nbrs_fit(idx, idx.n() as int) && idx.entry is Some)
}

/// What `pack_at` produces on success.
pub open spec fn pack_at_result(idx: HnswGraph, base: int, cs: CodeModel, p: Packed) -> bool {
    if idx.n() == 0 {
        p.meta@ == spec_encode_meta(spec_empty_meta(idx, base)) && p.pages@.len() == 0
    } else {
        &&& p.meta@ == spec_encode_meta(spec_pack_kind_meta(idx, base, cs))
        &&& p.pages.deep_view() == spec_pack_kind_pages(idx, base, cs)
    }
}

/// Pack a generation whose body starts at block `base` (v1 for `sbq_bits == 0`, else v2 with
/// `sbq_codes`, the SBQ codes trained over the graph). Every pointer is resolved from `base`, so
/// the image is position-independent.
pub fn pack_at(idx: &HnswGraph, base: usize, sbq_bits: u8, sbq_codes: CodeSpec) -> (r: Result<Packed, String>)
    requires
        sbq_bits != 0 ==> codes_match_kind(CodeKind::Sbq { bits: sbq_bits }, sbq_codes@),
        pack_inputs_ok(*idx, base as int, codes_for_bits(sbq_bits, sbq_codes@).code_len, codes_for_bits(sbq_bits, sbq_codes@).codes),
    ensures
        r is Ok <==> pack_at_ok(*idx),
        r matches Ok(p) ==> pack_at_result(*idx, base as int, codes_for_bits(sbq_bits, sbq_codes@), p),
        idx.n() > 0 && nbrs_fit(*idx, idx.n() as int) && idx.entry is None ==> (r matches Err(e) && e@ == ERR_NO_ENTRY@),
        idx.n() > 0 && !nbrs_fit(*idx, idx.n() as int) ==> (r matches Err(e) && oversized_error(*idx, e@)),
{
    if sbq_bits == 0 {
        pack_kind(idx, base, &CodeKind::Plain, CodeSpec::none())
    } else {
        pack_kind(idx, base, &CodeKind::Sbq { bits: sbq_bits }, sbq_codes)
    }
}

/// Pack an initial build: a contiguous v1 generation right after the meta page (block 1).
pub fn pack(idx: &HnswGraph) -> (r: Result<Packed, String>)
    requires
        pack_inputs_ok(*idx, 1, 0, Seq::empty()),
    ensures
        r is Ok <==> pack_at_ok(*idx),
        r matches Ok(p) ==> pack_at_result(*idx, 1, code_model_none(), p),
        idx.n() > 0 && nbrs_fit(*idx, idx.n() as int) && idx.entry is None ==> (r matches Err(e) && e@ == ERR_NO_ENTRY@),
        idx.n() > 0 && !nbrs_fit(*idx, idx.n() as int) ==> (r matches Err(e) && oversized_error(*idx, e@)),
{
    pack_at(idx, 1, 0, CodeSpec::none())
}

/// Like `pack` but v2: each element carries its SBQ code and the meta the SBQ codebook
/// (`sbq_bits == 0` is identical to `pack`).
pub fn pack_sbq(idx: &HnswGraph, sbq_bits: u8, sbq_codes: CodeSpec) -> (r: Result<Packed, String>)
    requires
        sbq_bits != 0 ==> codes_match_kind(CodeKind::Sbq { bits: sbq_bits }, sbq_codes@),
        pack_inputs_ok(*idx, 1, codes_for_bits(sbq_bits, sbq_codes@).code_len, codes_for_bits(sbq_bits, sbq_codes@).codes),
    ensures
        r is Ok <==> pack_at_ok(*idx),
        r matches Ok(p) ==> pack_at_result(*idx, 1, codes_for_bits(sbq_bits, sbq_codes@), p),
        idx.n() > 0 && nbrs_fit(*idx, idx.n() as int) && idx.entry is None ==> (r matches Err(e) && e@ == ERR_NO_ENTRY@),
        idx.n() > 0 && !nbrs_fit(*idx, idx.n() as int) ==> (r matches Err(e) && oversized_error(*idx, e@)),
{
    pack_at(idx, 1, sbq_bits, sbq_codes)
}

/// Pack with the AQ code/vector split (v4) using `aq_codes`, the AQ codes trained with `m`
/// subspaces; `m == 0` falls back to the v1 pack.
pub fn pack_aq(idx: &HnswGraph, base: usize, m: usize, aq_codes: CodeSpec) -> (r: Result<Packed, String>)
    requires
        m != 0 ==> aq_codes@.aq_m == m && aq_codes@.sbq_bits == 0 && aq_codes@.codebook.len() == 0,
        m == 0 ==> pack_inputs_ok(*idx, base as int, 0, Seq::empty()),
        m != 0 ==> pack_v4_inputs_ok(*idx, base as int, aq_codes@),
    ensures
        m == 0 ==> (r is Ok <==> pack_at_ok(*idx)),
        m == 0 ==> (r matches Ok(p) ==> pack_at_result(*idx, base as int, code_model_none(), p)),
        m != 0 ==> (r is Ok <==> nbrs_fit(*idx, idx.n() as int) && idx.entry is Some),
        idx.n() > 0 && !nbrs_fit(*idx, idx.n() as int) ==> (r matches Err(e) && oversized_error(*idx, e@)),
        nbrs_fit(*idx, idx.n() as int) && idx.entry is None && (m != 0 || idx.n() > 0) ==> (r matches Err(e) && e@
            == ERR_NO_ENTRY@),
        m != 0 ==> (r matches Ok(p) ==> {
            &&& p.meta@ == spec_encode_meta(spec_pack_v4_meta(*idx, base as int, aq_codes@))
            &&& p.pages.deep_view() == spec_pack_v4_pages(*idx, base as int, aq_codes@)
        }),
{
    if m == 0 {
        return pack_kind(idx, base, &CodeKind::Plain, CodeSpec::none());
    }
    pack_v4(idx, base, aq_codes)
}

// ---------------------------------------------------------------------------------------------
// Reassembling the codebook
// ---------------------------------------------------------------------------------------------

/// The concatenation of a page's items.
pub open spec fn concat_items(items: Seq<Seq<u8>>) -> Seq<u8>
    decreases items.len(),
{
    if items.len() == 0 { Seq::empty() } else { concat_items(items.drop_last()) + items.last() }
}

/// The concatenation of the items of pages `lo .. hi`, in order.
pub open spec fn concat_pages(pages: Seq<Seq<Seq<u8>>>, lo: int, hi: int) -> Seq<u8>
    decreases hi - lo,
{
    if hi <= lo { Seq::empty() } else { concat_pages(pages, lo, hi - 1) + concat_items(pages[hi - 1]) }
}

/// Reassemble the AQ codebook from the `npages` codebook pages starting at block `first` of an
/// in-memory pack (`pages[0]` is block 1).
pub fn codebook_from_packed(packed: &Packed, first: u32, npages: u32) -> (r: Vec<u8>)
    requires
        first >= 1,
        first + npages <= u32::MAX,
        first - 1 + npages <= packed.pages@.len(),
    ensures
        r@ == concat_pages(packed.pages.deep_view(), first - 1, first - 1 + npages),
{
    let mut cb: Vec<u8> = Vec::new();
    let mut p: u32 = first;
    let end = first + npages;
    while p < end
        invariant
            first <= p <= end,
            end == first + npages,
            first >= 1,
            first - 1 + npages <= packed.pages@.len(),
            cb@ == concat_pages(packed.pages.deep_view(), first - 1, p - 1),
        decreases end - p,
    {
        let page = &packed.pages[(p - 1) as usize];
        let ghost before = cb@;
        let mut j: usize = 0;
        while j < page.len()
            invariant
                j <= page@.len(),
                cb@ == before + concat_items(page.deep_view().take(j as int)),
            decreases page@.len() - j,
        {
            let ghost prev = cb@;
            crate::bytes::push_bytes(&mut cb, page[j].as_slice());
            proof {
                assert(page.deep_view().take(j + 1).drop_last() =~= page.deep_view().take(j as int));
                assert(page@[j as int].deep_view() =~= page@[j as int]@);
            }
            j = j + 1;
        }
        proof {
            assert(page.deep_view().take(page@.len() as int) =~= page.deep_view());
            assert(packed.pages.deep_view()[p - 1] == page.deep_view());
        }
        p = p + 1;
    }
    cb
}

proof fn lemma_concat_single(x: Seq<u8>)
    ensures
        concat_items(seq![x]) == x,
{
    assert(seq![x].drop_last() =~= Seq::<Seq<u8>>::empty());
    assert(concat_items(Seq::<Seq<u8>>::empty()) == Seq::<u8>::empty());
    assert(Seq::<u8>::empty() + x =~= x);
}

proof fn lemma_concat_pages_append(a: Seq<Seq<Seq<u8>>>, b: Seq<Seq<Seq<u8>>>, lo: int, hi: int)
    requires
        0 <= lo <= hi <= b.len(),
    ensures
        concat_pages(a + b, a.len() + lo, a.len() + hi) == concat_pages(b, lo, hi),
    decreases hi - lo,
{
    if hi > lo {
        lemma_concat_pages_append(a, b, lo, hi - 1);
        assert((a + b)[a.len() + hi - 1] == b[hi - 1]);
    }
}

proof fn lemma_concat_pages_prefix(a: Seq<Seq<Seq<u8>>>, b: Seq<Seq<Seq<u8>>>, lo: int, hi: int)
    requires
        0 <= lo <= hi <= a.len(),
    ensures
        concat_pages(a + b, lo, hi) == concat_pages(a, lo, hi),
    decreases hi - lo,
{
    if hi > lo {
        lemma_concat_pages_prefix(a, b, lo, hi - 1);
    }
}

proof fn lemma_concat_pages_window(pages: Seq<Seq<Seq<u8>>>, lo: int, hi: int)
    requires
        0 <= lo <= hi <= pages.len(),
    ensures
        concat_pages(pages, lo, hi) == concat_pages(pages.subrange(lo, hi), 0, hi - lo),
    decreases hi - lo,
{
    if hi > lo {
        lemma_concat_pages_window(pages, lo, hi - 1);
        let w = pages.subrange(lo, hi);
        lemma_concat_pages_prefix(pages.subrange(lo, hi - 1), seq![pages[hi - 1]], 0, hi - 1 - lo);
        assert(pages.subrange(lo, hi - 1) + seq![pages[hi - 1]] =~= w);
    }
}

/// Codebook pages placed anywhere in a pack read back as the codebook: wherever the pages of
/// `codebook_pages(cb)` stand, from page index `first - 1` (block `first`) on, concatenating their
/// items gives `cb`, which is what `codebook_from_packed` returns for that range.
pub proof fn lemma_codebook_pages_anywhere(pages: Seq<Seq<Seq<u8>>>, cb: Seq<u8>, first: int)
    requires
        first >= 1,
        first - 1 + cb_npages(cb.len() as int) <= pages.len(),
        pages.subrange(first - 1, first - 1 + cb_npages(cb.len() as int)) == spec_codebook_pages(cb),
    ensures
        concat_pages(pages, first - 1, first - 1 + cb_npages(cb.len() as int)) == cb,
{
    let np = cb_npages(cb.len() as int);
    assert(np >= 0);
    lemma_concat_pages_window(pages, first - 1, first - 1 + np);
    lemma_codebook_pages_roundtrip(cb);
}

/// Splitting a codebook into pages and concatenating the pages' items gives the codebook back.
pub proof fn lemma_codebook_pages_roundtrip(cb: Seq<u8>)
    ensures
        concat_pages(spec_codebook_pages(cb), 0, cb_npages(cb.len() as int)) == cb,
{
    lemma_codebook_prefix(cb, cb_npages(cb.len() as int));
    let np = cb_npages(cb.len() as int);
    if cb.len() > 0 {
        assert((np - 1) * CB_CHUNK < cb.len() && np * CB_CHUNK >= cb.len()) by (nonlinear_arith)
            requires np == (cb.len() + CB_CHUNK - 1) / (CB_CHUNK as int), cb.len() > 0;
    } else {
        assert(np == 0);
    }
    assert(cb.take(if np * CB_CHUNK <= cb.len() { np * CB_CHUNK } else { cb.len() as int }) =~= cb);
}

/// The first `k` codebook pages concatenate to the codebook's first `k * CB_CHUNK` bytes.
proof fn lemma_codebook_prefix(cb: Seq<u8>, k: int)
    requires
        0 <= k <= cb_npages(cb.len() as int),
    ensures
        concat_pages(spec_codebook_pages(cb), 0, k) == cb.take(if k * CB_CHUNK <= cb.len() { k * CB_CHUNK } else { cb.len() as int }),
    decreases k,
{
    if k > 0 {
        lemma_codebook_prefix(cb, k - 1);
        lemma_concat_single(cb_chunk(cb, k - 1));
        assert((k - 1) * CB_CHUNK < cb.len()) by (nonlinear_arith)
            requires k <= (cb.len() + CB_CHUNK - 1) / (CB_CHUNK as int), k > 0;
        assert((k - 1) * CB_CHUNK + CB_CHUNK == k * CB_CHUNK);
        let lo = (k - 1) * CB_CHUNK;
        let hi = if k * CB_CHUNK <= cb.len() { k * CB_CHUNK } else { cb.len() as int };
        assert(cb.take(lo) + cb.subrange(lo, hi) =~= cb.take(hi));
    } else {
        assert(cb.take(0) =~= Seq::<u8>::empty());
    }
}

/// An in-memory v4 pack based at block 1 holds its AQ codebook on the page range its meta
/// records: reassembling `[aq_cb_first, aq_cb_first + aq_cb_npages)` gives the codebook back.
pub proof fn lemma_pack_v4_codebook_recoverable(idx: HnswGraph, cs: CodeModel)
    requires
        v4_raw_first(idx, 1, cs) <= u32::MAX,
    ensures
        ({
            let meta = spec_pack_v4_meta(idx, 1, cs);
            let pages = spec_pack_v4_pages(idx, 1, cs);
            concat_pages(pages, meta.aq_cb_first - 1, meta.aq_cb_first - 1 + meta.aq_cb_npages) == cs.aq_codebook
        }),
{
    let elems = spec_chunks(
        spec_elements_v4(idx, v4_nbr_addrs(idx, 1, cs), v4_raw_addrs(idx, 1, cs), cs),
        v4_ipp(cs),
    );
    let nbrs = v4_nbr_pages(idx, 1, cs);
    let cbp = spec_codebook_pages(cs.aq_codebook);
    let raws = spec_chunks(spec_raws(idx), v4_rpp(idx));
    let np = cb_npages(cs.aq_codebook.len() as int);
    let a = elems + nbrs;
    assert(a.len() == v4_cb_first(idx, 1, cs) - 1);
    lemma_codebook_pages_roundtrip(cs.aq_codebook);
    lemma_concat_pages_prefix(a + cbp, raws, a.len() as int, a.len() + np);
    lemma_concat_pages_append(a, cbp, 0, np);
    assert(a + cbp + raws == elems + nbrs + cbp + raws);
}

// ---------------------------------------------------------------------------------------------
// Pointer resolution: every address a pack writes names the tuple it means
// ---------------------------------------------------------------------------------------------

/// The tuple stored at address `a` of a generation body whose first page is block `base`.
pub open spec fn tuple_at(pages: Seq<Seq<Seq<u8>>>, base: int, a: Addr) -> Seq<u8> {
    pages[a.0 - base][a.1 - 1]
}

/// `a` names an existing tuple of a body based at `base`.
pub open spec fn addr_in(pages: Seq<Seq<Seq<u8>>>, base: int, a: Addr) -> bool {
    &&& base <= a.0 < base + pages.len()
    &&& 1 <= a.1 <= pages[a.0 - base].len()
}

/// The neighbor-tuple pointer recorded in an element tuple's header (same offsets for v1 and v4).
pub open spec fn elem_nbr_ptr(el: Seq<u8>) -> Addr {
    (le_u32_at(el, E_NBR_BLK as int), le_u16_at(el, E_NBR_OFF as int))
}

/// The raw-vector pointer recorded in a v4 hot element tuple's header.
pub open spec fn elem_raw_ptr(el: Seq<u8>) -> Addr {
    (le_u32_at(el, E4_RAW_BLK as int), le_u16_at(el, E4_RAW_OFF as int))
}

proof fn lemma_element_pointer(level: u8, tid: i64, nbr: Addr, dim: u16, vec: Seq<u8>, code: Seq<u8>)
    ensures
        elem_nbr_ptr(spec_element_bytes(level, tid, nbr, dim, vec, code)) == nbr,
{
    lemma_le_roundtrip();
    let b = spec_element_bytes(level, tid, nbr, dim, vec, code);
    assert(b.subrange(12, 16) =~= le32(nbr.0));
    assert(b.subrange(16, 18) =~= le16(nbr.1));
}

proof fn lemma_element_v4_pointers(level: u8, tid: i64, nbr: Addr, raw: Addr, dim: u16, code: Seq<u8>)
    ensures
        elem_nbr_ptr(spec_element_v4_bytes(level, tid, nbr, raw, dim, code)) == nbr,
        elem_raw_ptr(spec_element_v4_bytes(level, tid, nbr, raw, dim, code)) == raw,
{
    lemma_element_v4_roundtrip(level, tid, nbr, raw, dim, code);
}

/// Once placed, neighbor tuple `i` stays where it was put as later tuples are packed.
proof fn lemma_pack_nbrs_stable(idx: HnswGraph, ea: Seq<Addr>, i: int, k: int)
    requires
        0 <= i < k,
    ensures
        ({
            let placed = spec_pack_nbrs(idx, ea, i + 1).0;
            let pages = spec_pack_nbrs(idx, ea, k).0;
            let p = placed.len() - 1;
            let o = placed.last().len();
            &&& 0 <= p < pages.len()
            &&& 1 <= o <= pages[p].len()
            &&& pages[p][o - 1] == spec_encode_neighbors(idx, i, ea, idx.m as int, idx.m0 as int)
        }),
    decreases k - i,
{
    lemma_pack_nbrs_shape(idx, ea, i + 1);
    lemma_pack_nbrs_shape(idx, ea, k - 1);
    let item_k = spec_encode_neighbors(idx, k - 1, ea, idx.m as int, idx.m0 as int);
    let (pp, used) = spec_pack_nbrs(idx, ea, k - 1);
    let pages = spec_pack_nbrs(idx, ea, k).0;
    let cost = nbr_cost(idx, k - 1);
    let opened = used + cost > USABLE && pp.last().len() > 0;
    if opened {
        assert(pages == pp.push(seq![item_k]));
    } else {
        assert(pages == pp.update(pp.len() - 1, pp.last().push(item_k)));
    }
    if k > i + 1 {
        lemma_pack_nbrs_stable(idx, ea, i, k - 1);
        let placed = spec_pack_nbrs(idx, ea, i + 1).0;
        let p = placed.len() - 1;
        let o = placed.last().len();
        if !opened && p == pp.len() - 1 {
            assert(pages[p] == pp[p].push(item_k));
            assert(pages[p][o - 1] == pp[p][o - 1]);
        } else {
            assert(pages[p] == pp[p]);
        }
    } else {
        if opened {
            assert(pages.last() == seq![item_k]);
        } else {
            assert(pages.last() == pp.last().push(item_k));
        }
    }
}

/// At most `USABLE / 12` fixed-size tuples share a page.
proof fn lemma_ipp_bounds(size: int)
    requires
        size >= 1,
    ensures
        1 <= spec_items_per_page(size) <= USABLE / 12,
{
    let a = spec_maxalign(size);
    assert(a >= 8) by (nonlinear_arith)
        requires a == size + 7 - (size + 7) % 8, size >= 1;
    assert(USABLE as int / (ITEMID + a) <= USABLE as int / 12) by (nonlinear_arith)
        requires a >= 8;
}

/// Item `i` of a chunked sequence sits on page `i / per` at position `i % per`.
proof fn lemma_chunk_position(items: Seq<Seq<u8>>, per: int, i: int)
    requires
        per >= 1,
        0 <= i < items.len(),
    ensures
        i / per < spec_chunks(items, per).len(),
        i % per < spec_chunks(items, per)[i / per].len(),
        spec_chunks(items, per)[i / per][i % per] == items[i],
{
    let p = i / per;
    vstd::arithmetic::div_mod::lemma_fundamental_div_mod(i, per);
    assert(p * per <= i);
    assert(p < ceil_div(items.len() as int, per)) by (nonlinear_arith)
        requires p == i / per, i < items.len(), per >= 1, p * per <= i;
    assert(p * per + i % per == i);
}

/// The body of a successful v1/v2 pack resolves every pointer it writes: node `i`'s analytic
/// element address holds node `i`'s element tuple, and the neighbor pointer in that tuple's
/// header holds node `i`'s neighbor tuple. (Block numbers within 32 bits.)
pub proof fn lemma_pack_kind_pointers_resolve(idx: HnswGraph, base: int, cs: CodeModel, i: int)
    requires
        idx.wf(),
        base >= 0,
        nbrs_fit(idx, idx.n() as int),
        0 <= i < idx.n(),
        base + spec_pack_kind_pages(idx, base, cs).len() <= u32::MAX,
    ensures
        ({
            let pages = spec_pack_kind_pages(idx, base, cs);
            let ea = kind_elem_addrs(idx, base, cs.code_len);
            let el = tuple_at(pages, base, ea[i]);
            &&& addr_in(pages, base, ea[i])
            &&& el == spec_encode_element(idx, i, kind_nbr_addrs(idx, base, cs.code_len)[i], idx.dim as int, node_code(cs.code_len, cs.codes, i))
            &&& addr_in(pages, base, elem_nbr_ptr(el))
            &&& tuple_at(pages, base, elem_nbr_ptr(el)) == spec_encode_neighbors(idx, i, ea, idx.m as int, idx.m0 as int)
        }),
{
    let n = idx.n() as int;
    let ipp = kind_ipp(idx, cs.code_len);
    let ea = kind_elem_addrs(idx, base, cs.code_len);
    let na = kind_nbr_addrs(idx, base, cs.code_len);
    let elems = spec_elements(idx, na, idx.dim as int, cs.code_len, cs.codes);
    let chunks = spec_chunks(elems, ipp);
    let nbrs = kind_nbr_pages(idx, base, cs.code_len);
    let pages = spec_pack_kind_pages(idx, base, cs);
    assert(pages == chunks + nbrs + spec_codebook_pages(cs.aq_codebook));
    lemma_ipp_bounds(spec_elem_size(idx.dim as int, cs.code_len as int));
    lemma_chunk_position(elems, ipp, i);
    assert(i % ipp < ipp) by (nonlinear_arith)
        requires ipp >= 1;
    assert(ea[i] == ((base + i / ipp) as u32, (1 + i % ipp) as u16));
    assert(ea[i].0 == base + i / ipp);
    assert(ea[i].1 == 1 + i % ipp);
    let el = elems[i];
    assert(tuple_at(pages, base, ea[i]) == el);
    // the element's header points at the neighbor tuple's packed address
    lemma_element_pointer(
        #[verifier::truncate] (idx.level(i) as u8),
        idx.ids@[i],
        na[i],
        #[verifier::truncate] (idx.dim as u16),
        crate::codec::pad_to(idx.vectors@[i]@, idx.dim * 4),
        node_code(cs.code_len, cs.codes, i),
    );
    assert(elem_nbr_ptr(el) == na[i]);
    lemma_pack_nbrs_stable(idx, ea, i, n);
    lemma_pack_nbrs_shape(idx, ea, i + 1);
    lemma_pack_nbrs_shape(idx, ea, n);
    assert(nbrs_fit(idx, i + 1));
    let placed = spec_pack_nbrs(idx, ea, i + 1).0;
    assert(placed.last().len() <= USABLE / 12);
    let nbr_first = kind_nbr_first(idx, base, cs.code_len);
    assert(chunks.len() == ceil_div(n, ipp));
    assert(na[i] == nbr_addr_of(idx, ea, nbr_first, i));
    assert(na[i].0 == nbr_first + placed.len() - 1);
    assert(na[i].1 == placed.last().len());
    assert(pages[na[i].0 - base] == nbrs[placed.len() - 1]);
}

/// The meta's entry point of a successful v1/v2 pack is the entry node's element address.
pub proof fn lemma_pack_kind_entry_resolves(idx: HnswGraph, base: int, cs: CodeModel)
    requires
        idx.wf(),
        idx.entry is Some,
    ensures
        ({
            let meta = spec_pack_kind_meta(idx, base, cs);
            (meta.entry_blkno, meta.entry_offno) == kind_elem_addrs(idx, base, cs.code_len)[idx.entry->0 as int]
        }),
{
}

/// The body of a successful v4 pack resolves every pointer it writes: node `i`'s analytic hot
/// element address holds node `i`'s hot tuple, whose neighbor pointer holds its neighbor tuple and
/// whose raw pointer holds its raw-vector tuple; the meta's entry point is the entry node's hot
/// element address. (Block numbers within 32 bits.)
pub proof fn lemma_pack_v4_pointers_resolve(idx: HnswGraph, base: int, cs: CodeModel, i: int)
    requires
        idx.wf(),
        base >= 0,
        cs.codes.len() >= idx.n(),
        nbrs_fit(idx, idx.n() as int),
        0 <= i < idx.n(),
        base + spec_pack_v4_pages(idx, base, cs).len() <= u32::MAX,
    ensures
        ({
            let pages = spec_pack_v4_pages(idx, base, cs);
            let ea = v4_elem_addrs(idx, base, cs);
            let el = tuple_at(pages, base, ea[i]);
            &&& addr_in(pages, base, ea[i])
            &&& el == spec_encode_element_v4(idx, i, v4_nbr_addrs(idx, base, cs)[i], v4_raw_addrs(idx, base, cs)[i], idx.dim as int, cs.codes[i])
            &&& addr_in(pages, base, elem_nbr_ptr(el))
            &&& tuple_at(pages, base, elem_nbr_ptr(el)) == spec_encode_neighbors(idx, i, ea, idx.m as int, idx.m0 as int)
            &&& addr_in(pages, base, elem_raw_ptr(el))
            &&& tuple_at(pages, base, elem_raw_ptr(el)) == spec_raw_bytes(idx.vectors@[i]@)
        }),
        idx.entry is Some ==> {
            let meta = spec_pack_v4_meta(idx, base, cs);
            (meta.entry_blkno, meta.entry_offno) == v4_elem_addrs(idx, base, cs)[idx.entry->0 as int]
        },
{
    let n = idx.n() as int;
    let ipp = v4_ipp(cs);
    let rpp = v4_rpp(idx);
    let ea = v4_elem_addrs(idx, base, cs);
    let na = v4_nbr_addrs(idx, base, cs);
    let ra = v4_raw_addrs(idx, base, cs);
    let elems = spec_elements_v4(idx, na, ra, cs);
    let chunks = spec_chunks(elems, ipp);
    let nbrs = v4_nbr_pages(idx, base, cs);
    let cbp = spec_codebook_pages(cs.aq_codebook);
    let raws = spec_chunks(spec_raws(idx), rpp);
    let pages = spec_pack_v4_pages(idx, base, cs);
    assert(pages == chunks + nbrs + cbp + raws);
    lemma_ipp_bounds(spec_elem_size_v4(cs.code_len as int));
    lemma_ipp_bounds(spec_raw_size(idx.dim as int));
    lemma_chunk_position(elems, ipp, i);
    lemma_chunk_position(spec_raws(idx), rpp, i);
    assert(i % ipp < ipp) by (nonlinear_arith)
        requires ipp >= 1;
    assert(i % rpp < rpp) by (nonlinear_arith)
        requires rpp >= 1;
    let el = elems[i];
    assert(ea[i].0 == base + i / ipp);
    assert(ea[i].1 == 1 + i % ipp);
    assert(tuple_at(pages, base, ea[i]) == el);
    lemma_element_v4_pointers(
        #[verifier::truncate] (idx.level(i) as u8),
        idx.ids@[i],
        na[i],
        ra[i],
        #[verifier::truncate] (idx.dim as u16),
        cs.codes[i],
    );
    assert(elem_nbr_ptr(el) == na[i]);
    assert(elem_raw_ptr(el) == ra[i]);
    lemma_pack_nbrs_stable(idx, ea, i, n);
    lemma_pack_nbrs_shape(idx, ea, i + 1);
    lemma_pack_nbrs_shape(idx, ea, n);
    assert(nbrs_fit(idx, i + 1));
    let placed = spec_pack_nbrs(idx, ea, i + 1).0;
    assert(placed.last().len() <= USABLE / 12);
    let nbr_first = v4_nbr_first(idx, base, cs);
    assert(chunks.len() == ceil_div(n, ipp));
    assert(na[i] == nbr_addr_of(idx, ea, nbr_first, i));
    assert(pages[na[i].0 - base] == nbrs[placed.len() - 1]);
    let raw_first = v4_raw_first(idx, base, cs);
    assert(cbp.len() == cb_npages(cs.aq_codebook.len() as int));
    assert(raw_first - base == chunks.len() + nbrs.len() + cbp.len());
    assert(ra[i].0 == raw_first + i / rpp);
    assert(ra[i].1 == 1 + i % rpp);
    assert(pages[ra[i].0 - base] == raws[i / rpp]);
}

/// The pending region of a successful v1/v2 pack starts right after its body: the meta reserves
/// exactly the pages the pack writes (given the AQ codebook only with an AQ subspace count, and
/// block numbers within 32 bits).
pub proof fn lemma_pack_kind_pending_start(idx: HnswGraph, base: int, cs: CodeModel)
    requires
        idx.n() > 0,
        base >= 0,
        cs.aq_m == 0 ==> cs.aq_codebook.len() == 0,
        base + spec_pack_kind_pages(idx, base, cs).len() <= u32::MAX,
    ensures
        spec_pending_start(spec_pack_kind_meta(idx, base, cs)) == base + spec_pack_kind_pages(idx, base, cs).len(),
{
    let ipp = kind_ipp(idx, cs.code_len);
    let elems = spec_elements(idx, kind_nbr_addrs(idx, base, cs.code_len), idx.dim as int, cs.code_len, cs.codes);
    assert(spec_chunks(elems, ipp).len() == ceil_div(idx.n() as int, ipp));
    assert(cs.aq_m == 0 ==> spec_codebook_pages(cs.aq_codebook).len() == 0);
}

/// The pending region of a successful v4 pack starts right after its raw-vector region, the last
/// part of its body.
pub proof fn lemma_pack_v4_pending_start(idx: HnswGraph, base: int, cs: CodeModel)
    requires
        base >= 0,
        base + spec_pack_v4_pages(idx, base, cs).len() <= u32::MAX,
    ensures
        spec_pending_start(spec_pack_v4_meta(idx, base, cs)) == base + spec_pack_v4_pages(idx, base, cs).len(),
{
    let elems = spec_elements_v4(idx, v4_nbr_addrs(idx, base, cs), v4_raw_addrs(idx, base, cs), cs);
    assert(spec_chunks(elems, v4_ipp(cs)).len() == ceil_div(idx.n() as int, v4_ipp(cs)));
    assert(spec_chunks(spec_raws(idx), v4_rpp(idx)).len() == ceil_div(idx.n() as int, v4_rpp(idx)));
}

/// An empty graph's meta reserves nothing past the meta page: pending starts at `base`.
pub proof fn lemma_empty_pack_pending_start(idx: HnswGraph, base: int)
    requires
        0 <= base <= u32::MAX,
    ensures
        spec_pending_start(spec_empty_meta(idx, base)) == base,
{
}

/// What a scan reads back from a packed meta describes the graph that was packed: for the v1/v2/v3
/// pack, the v4 pack and an empty graph, every meta `decode_meta` reads from the image has the
/// graph's metric tag, dimension, degrees and node count (in their 32- and 16-bit fields), and
/// the entry point's level (an empty graph: no entry, level -1).
pub proof fn lemma_packed_meta_records_graph(idx: HnswGraph, base: int, cs: CodeModel)
    ensures
        forall|d: MetaModel| #[trigger] crate::meta::meta_reads(d, spec_encode_meta(spec_pack_kind_meta(idx, base, cs))) ==> {
            &&& d.metric_tag == idx.metric_tag
            &&& d.dim == idx.dim as u32
            &&& d.m == idx.m as u16
            &&& d.m0 == idx.m0 as u16
            &&& d.node_count == idx.n() as u32
            &&& (idx.entry matches Some(e) ==> d.entry_level == idx.level(e as int) as i16)
        },
        forall|d: MetaModel| #[trigger] crate::meta::meta_reads(d, spec_encode_meta(spec_pack_v4_meta(idx, base, cs))) ==> {
            &&& d.metric_tag == idx.metric_tag
            &&& d.dim == idx.dim as u32
            &&& d.m == idx.m as u16
            &&& d.m0 == idx.m0 as u16
            &&& d.node_count == idx.n() as u32
            &&& (idx.entry matches Some(e) ==> d.entry_level == idx.level(e as int) as i16)
        },
        forall|d: MetaModel| #[trigger] crate::meta::meta_reads(d, spec_encode_meta(spec_empty_meta(idx, base))) ==> {
            &&& d.metric_tag == idx.metric_tag
            &&& d.dim == idx.dim as u32
            &&& d.m == idx.m as u16
            &&& d.m0 == idx.m0 as u16
            &&& d.node_count == 0
            &&& d.entry_level == -1
        },
{
    crate::meta::lemma_meta_header_fields(spec_pack_kind_meta(idx, base, cs));
    crate::meta::lemma_meta_header_fields(spec_pack_v4_meta(idx, base, cs));
    crate::meta::lemma_meta_header_fields(spec_empty_meta(idx, base));
}

} // verus!
