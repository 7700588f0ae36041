//! The decisions of an HNSW scan, apart from the page reads and the floating-point distance: the
//! greedy descent of the upper layers to the ground entry point, and the order in which scored
//! candidates are returned. A distance enters as an integer key that orders as the distance does.
use vstd::prelude::*;

verus! {

broadcast use vstd::seq_lib::group_seq_properties;

/// The ordering key of an `f64` distance given by its bit pattern: the key order is the IEEE-754
/// total order of the distances (negative values flipped, non-negative ones above them).
pub open spec fn spec_distance_key(bits: u64) -> u64 {
    if bits >= 0x8000_0000_0000_0000 { !bits } else { bits | 0x8000_0000_0000_0000 }
}

/// The ordering key of a distance's bit pattern.
pub fn distance_key(bits: u64) -> (r: u64)
    ensures
        r == spec_distance_key(bits),
{
    if bits >= 0x8000_0000_0000_0000 {
        !bits
    } else {
        bits | 0x8000_0000_0000_0000
    }
}

/// The bit pattern of the distance whose ordering key is `key`; it undoes `distance_key`.
pub fn key_bits(key: u64) -> (r: u64)
    ensures
        r == (if key >= 0x8000_0000_0000_0000 { key & 0x7fff_ffff_ffff_ffff } else { !key }),
        spec_distance_key(r) == key,
{
    let r = if key >= 0x8000_0000_0000_0000 { key & 0x7fff_ffff_ffff_ffff } else { !key };
    proof {
        lemma_key_round_trip(key);
    }
    r
}

/// A distance's bit pattern is recovered from its key, and a key from its bit pattern.
pub proof fn lemma_key_round_trip(key: u64)
    ensures
        spec_distance_key(if key >= 0x8000_0000_0000_0000 { key & 0x7fff_ffff_ffff_ffff } else { !key }) == key,
        forall|bits: u64| #[trigger] spec_distance_key(bits) == key ==> bits == (if key >= 0x8000_0000_0000_0000 {
            key & 0x7fff_ffff_ffff_ffff
        } else {
            !key
        }),
{
    assert(spec_distance_key(if key >= 0x8000_0000_0000_0000 { key & 0x7fff_ffff_ffff_ffff } else { !key }) == key) by (bit_vector);
    assert forall|bits: u64| #[trigger] spec_distance_key(bits) == key implies bits == (if key >= 0x8000_0000_0000_0000 {
        key & 0x7fff_ffff_ffff_ffff
    } else {
        !key
    }) by {
        assert(((if bits >= 0x8000_0000_0000_0000 { !bits } else { bits | 0x8000_0000_0000_0000 }) == key) ==> bits == (if key >= 0x8000_0000_0000_0000 {
            key & 0x7fff_ffff_ffff_ffff
        } else {
            !key
        })) by (bit_vector);
    }
}

/// A candidate of the walk: its element tuple's address `(blk, off)`, the address of its neighbor
/// tuple and its level (what expanding it reads), its heap id, whether it is a tombstone, and its
/// distance key.
#[derive(Clone, Copy, Debug, PartialEq, Eq, Structural)]
pub struct WalkCand {
    pub blk: u32,
    pub off: u16,
    pub nbr_blk: u32,
    pub nbr_off: u16,
    pub level: u8,
    pub tid: i64,
    pub deleted: bool,
    pub key: u64,
}

/// What the descent does next.
#[derive(Clone, Copy, Debug, PartialEq, Eq, Structural)]
pub enum DescentAction {
    /// Load the neighbors of `node` on `layer` and score them.
    Expand { node: WalkCand, layer: u32 },
    /// The descent is over: `entry` is the ground layer's entry point.
    Done { entry: WalkCand },
}

/// Start the descent at the index's entry point: expand it on its top layer, or (a ground-only
/// graph) enter the ground layer at once.
pub fn descent_start(entry: WalkCand, entry_level: u32) -> (r: DescentAction)
    ensures
        r == (if entry_level >= 1 {
            DescentAction::Expand { node: entry, layer: entry_level }
        } else {
            DescentAction::Done { entry }
        }),
{
    if entry_level >= 1 {
        DescentAction::Expand { node: entry, layer: entry_level }
    } else {
        DescentAction::Done { entry }
    }
}

/// The best of `ep` and the candidates `s`, scanned in order: a candidate replaces the current
/// best only when its key is strictly smaller.
pub open spec fn spec_better(ep: WalkCand, s: Seq<WalkCand>) -> WalkCand
    decreases s.len(),
{
    if s.len() == 0 {
        ep
    } else {
        let b = spec_better(ep, s.drop_last());
        if s.last().key < b.key { s.last() } else { b }
    }
}

/// The descent's decision after the neighbors of `ep` on `layer` were loaded and scored: move to
/// the best strictly closer one and expand it on the same layer; with none closer, go down a layer,
/// or end at the ground layer with `ep` as the entry point.
pub open spec fn spec_descent_step(ep: WalkCand, layer: u32, loaded: Seq<WalkCand>) -> DescentAction {
    let b = spec_better(ep, loaded);
    if b.key < ep.key {
        DescentAction::Expand { node: b, layer }
    } else if layer > 1 {
        DescentAction::Expand { node: ep, layer: (layer - 1) as u32 }
    } else {
        DescentAction::Done { entry: ep }
    }
}

proof fn lemma_better_le(ep: WalkCand, s: Seq<WalkCand>)
    ensures
        spec_better(ep, s).key <= ep.key,
        spec_better(ep, s) == ep || exists|i: int| 0 <= i < s.len() && spec_better(ep, s) == s[i],
    decreases s.len(),
{
    if s.len() > 0 {
        lemma_better_le(ep, s.drop_last());
        let b = spec_better(ep, s.drop_last());
        if b != ep {
            let i = choose|i: int| 0 <= i < s.drop_last().len() && b == s.drop_last()[i];
            assert(s[i] == b);
        }
        if s.last().key < b.key {
            assert(s[s.len() - 1] == s.last());
        }
    }
}

/// One step of the greedy descent of the upper layers.
pub fn descent_step(ep: WalkCand, layer: u32, loaded: &[WalkCand]) -> (r: DescentAction)
    ensures
        r == spec_descent_step(ep, layer, loaded@),
{
    let mut best = ep;
    let mut i: usize = 0;
    while i < loaded.len()
        invariant
            i <= loaded@.len(),
            best == spec_better(ep, loaded@.take(i as int)),
        decreases loaded@.len() - i,
    {
        proof {
            assert(loaded@.take(i + 1).drop_last() =~= loaded@.take(i as int));
        }
        if loaded[i].key < best.key {
            best = loaded[i];
        }
        i = i + 1;
    }
    proof {
        assert(loaded@.take(loaded@.len() as int) =~= loaded@);
    }
    if best.key < ep.key {
        DescentAction::Expand { node: best, layer }
    } else if layer > 1 {
        DescentAction::Expand { node: ep, layer: layer - 1 }
    } else {
        DescentAction::Done { entry: ep }
    }
}

/// The descent terminates and only ever gets closer: each step either stays on its layer with a
/// strictly smaller key, or goes one layer down (or ends) keeping its node; the node it moves to
/// is one of the loaded candidates.
pub proof fn lemma_descent_progress(ep: WalkCand, layer: u32, loaded: Seq<WalkCand>)
    requires
        layer >= 1,
    ensures
        match spec_descent_step(ep, layer, loaded) {
            DescentAction::Expand { node, layer: l } => (l == layer && node.key < ep.key && exists|i: int|
                0 <= i < loaded.len() && loaded[i] == node) || (l == layer - 1 && node == ep),
            DescentAction::Done { entry } => layer == 1 && entry == ep && forall|i: int|
                0 <= i < loaded.len() ==> #[trigger] loaded[i].key >= ep.key,
        },
{
    lemma_better_le(ep, loaded);
    lemma_better_min(ep, loaded);
}

proof fn lemma_better_min(ep: WalkCand, s: Seq<WalkCand>)
    ensures
        forall|i: int| 0 <= i < s.len() ==> spec_better(ep, s).key <= #[trigger] s[i].key,
    decreases s.len(),
{
    if s.len() > 0 {
        lemma_better_min(ep, s.drop_last());
        assert forall|i: int| 0 <= i < s.len() implies spec_better(ep, s).key <= #[trigger] s[i].key by {
            if i < s.len() - 1 {
                assert(s.drop_last()[i] == s[i]);
            }
        }
    }
}

/// The ground-search pool of a scan: `ef_search` (at least 1), widened by the over-fetch factor
/// (at least 1, saturating) when the walk ranks by an approximate code and reranks afterwards.
pub fn walk_ef(ef_search: usize, over_fetch: usize, approximate: bool) -> (r: usize)
    ensures
        ({
            let ef = if ef_search >= 1 { ef_search as int } else { 1 };
            let of = if over_fetch >= 1 { over_fetch as int } else { 1 };
            r == (if !approximate {
                ef
            } else if ef * of <= usize::MAX {
                ef * of
            } else {
                usize::MAX as int
            })
        }),
{
    let ef = if ef_search >= 1 { ef_search } else { 1 };
    if !approximate {
        return ef;
    }
    let of = if over_fetch >= 1 { over_fetch } else { 1 };
    match ef.checked_mul(of) {
        Some(v) => v,
        None => usize::MAX,
    }
}

// ---------------------------------------------------------------------------------------------
// The order of the results
// ---------------------------------------------------------------------------------------------

/// `a` comes before `b`: a smaller distance key, ties broken by the smaller heap id.
pub open spec fn ranks_before(a: (i64, u64), b: (i64, u64)) -> bool {
    a.1 < b.1 || (a.1 == b.1 && a.0 < b.0)
}

/// `a` comes no later than `b`.
pub open spec fn ranks_le(a: (i64, u64), b: (i64, u64)) -> bool {
    ranks_before(a, b) || a == b
}

/// `s` is in result order.
pub open spec fn ranked(s: Seq<(i64, u64)>) -> bool {
    forall|p: int, q: int| 0 <= p < q < s.len() ==> ranks_le(#[trigger] s[p], #[trigger] s[q])
}

proof fn lemma_insert_keeps_ranked(s: Seq<(i64, u64)>, j: int, x: (i64, u64))
    requires
        ranked(s),
        0 <= j <= s.len(),
        forall|p: int| 0 <= p < j ==> !ranks_before(x, #[trigger] s[p]),
        j < s.len() ==> ranks_before(x, s[j]),
    ensures
        ranked(s.insert(j, x)),
{
    let t = s.insert(j, x);
    assert forall|p: int, q: int| 0 <= p < q < t.len() implies ranks_le(#[trigger] t[p], #[trigger] t[q]) by {
        if q < j {
            assert(t[p] == s[p] && t[q] == s[q]);
        } else if q == j {
            assert(t[p] == s[p]);
            assert(!ranks_before(x, s[p]));
        } else if p == j {
            assert(t[q] == s[q - 1]);
            assert(ranks_before(x, s[j]));
            assert(ranks_le(s[j], s[q - 1]) || q - 1 == j);
        } else if p < j {
            assert(t[p] == s[p] && t[q] == s[q - 1]);
        } else {
            assert(t[p] == s[p - 1] && t[q] == s[q - 1]);
        }
    }
}

fn sort_ranked(cands: &[(i64, u64)]) -> (r: Vec<(i64, u64)>)
    ensures
        ranked(r@),
        r@.to_multiset() == cands@.to_multiset(),
{
    broadcast use vstd::seq_lib::to_multiset_insert;

    let mut out: Vec<(i64, u64)> = Vec::new();
    let mut i: usize = 0;
    while i < cands.len()
        invariant
            i <= cands@.len(),
            ranked(out@),
            out@.to_multiset() == cands@.take(i as int).to_multiset(),
        decreases cands@.len() - i,
    {
        let x = cands[i];
        let mut j: usize = 0;
        while j < out.len() && !(x.1 < out[j].1 || (x.1 == out[j].1 && x.0 < out[j].0))
            invariant
                j <= out@.len(),
                x == cands@[i as int],
                forall|p: int| 0 <= p < j ==> !ranks_before(x, #[trigger] out@[p]),
            decreases out@.len() - j,
        {
            j = j + 1;
        }
        let ghost before = out@;
        out.insert(j, x);
        proof {
            lemma_insert_keeps_ranked(before, j as int, x);
            assert(cands@.take(i + 1) =~= cands@.take(i as int).push(x));
            vstd::seq_lib::to_multiset_build(cands@.take(i as int), x);
        }
        i = i + 1;
    }
    proof {
        assert(cands@.take(cands@.len() as int) =~= cands@);
    }
    out
}

/// Order scored candidates `(heap id, distance key)` by distance key, ties by heap id, and keep
/// the first `ef`: the result is in order, and together with the candidates left out it is the
/// input, every left-out candidate ranking no earlier than every kept one.
pub fn rank_by_distance(cands: &[(i64, u64)], ef: usize) -> (r: Vec<(i64, u64)>)
    ensures
        r@.len() == (if cands@.len() < ef { cands@.len() as int } else { ef as int }),
        ranked(r@),
        exists|rest: Seq<(i64, u64)>|
            (r@ + rest).to_multiset() == cands@.to_multiset() && forall|p: int, q: int|
                0 <= p < r@.len() && 0 <= q < rest.len() ==> ranks_le(#[trigger] r@[p], #[trigger] rest[q]),
{
    let mut out = sort_ranked(cands);
    let ghost full = out@;
    proof {
        assert(full.len() == cands@.len()) by {
            full.to_multiset_ensures();
            cands@.to_multiset_ensures();
        }
    }
    if ef < out.len() {
        out.truncate(ef);
    }
    proof {
        let k = out@.len() as int;
        let rest = full.subrange(k, full.len() as int);
        assert(out@ =~= full.take(k));
        assert(out@ + rest =~= full);
        assert forall|p: int, q: int| 0 <= p < out@.len() && 0 <= q < rest.len() implies ranks_le(
            #[trigger] out@[p],
            #[trigger] rest[q],
        ) by {
            assert(out@[p] == full[p] && rest[q] == full[k + q]);
        }
    }
    out
}

} // verus!
