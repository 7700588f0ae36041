//! The in-memory HNSW graph as the packer reads it: per-node level, heap id, vector bytes and
//! per-layer neighbor lists, plus the graph parameters and entry point.
use vstd::prelude::*;

verus! {

/// A built HNSW graph. `vectors[i]` holds node `i`'s vector as little-endian `f32` bytes;
/// `neighbors[i][lc]` lists node `i`'s neighbors (node indices) on layer `lc`.
pub struct HnswGraph {
    pub metric_tag: u8,
    pub m: usize,
    pub m0: usize,
    pub dim: usize,
    pub levels: Vec<usize>,
    pub ids: Vec<i64>,
    pub vectors: Vec<Vec<u8>>,
    pub neighbors: Vec<Vec<Vec<usize>>>,
    pub entry: Option<usize>,
}

impl HnswGraph {
    pub open spec fn n(&self) -> nat {
        self.levels@.len()
    }

    pub open spec fn level(&self, i: int) -> usize {
        self.levels@[i]
    }

    pub open spec fn nbrs(&self, i: int, lc: int) -> Seq<usize> {
        self.neighbors@[i]@[lc]@
    }

    /// Shape of a graph: one entry per node in every per-node table, a neighbor list for every
    /// layer `0..=level`, every neighbor and the entry point naming an existing node.
    pub open spec fn wf(&self) -> bool {
        &&& self.ids@.len() == self.n()
        &&& self.vectors@.len() == self.n()
        &&& self.neighbors@.len() == self.n()
        &&& forall|i: int| 0 <= i < self.n() ==> #[trigger] self.neighbors@[i]@.len() == self.levels@[i] + 1
        &&& forall|i: int, lc: int, k: int|
            0 <= i < self.n() && 0 <= lc <= self.levels@[i] && 0 <= k < self.nbrs(i, lc).len()
                ==> #[trigger] self.nbrs(i, lc)[k] < self.n()
        &&& (self.entry matches Some(e) ==> e < self.n())
    }

    pub fn node_count(&self) -> (r: usize)
        ensures
            r == self.n(),
    {
        self.levels.len()
    }

    pub fn node_level(&self, i: usize) -> (r: usize)
        requires
            i < self.n(),
        ensures
            r == self.level(i as int),
    {
        self.levels[i]
    }

    pub fn node_id(&self, i: usize) -> (r: i64)
        requires
            self.wf(),
            i < self.n(),
        ensures
            r == self.ids@[i as int],
    {
        self.ids[i]
    }

    pub fn node_vector(&self, i: usize) -> (r: &[u8])
        requires
            self.wf(),
            i < self.n(),
        ensures
            r@ == self.vectors@[i as int]@,
    {
        self.vectors[i].as_slice()
    }

    pub fn node_neighbors(&self, i: usize, lc: usize) -> (r: &[usize])
        requires
            self.wf(),
            i < self.n(),
            lc <= self.level(i as int),
        ensures
            r@ == self.nbrs(i as int, lc as int),
    {
        self.neighbors[i][lc].as_slice()
    }
}

} // verus!
