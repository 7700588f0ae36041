//! The HNSW scan as a state machine. The caller reads pages and scores vectors; every decision of
//! the walk is taken here: the greedy descent of the upper layers, then the ground-layer search
//! with `ef` (which candidate is expanded next, which neighbors are new, which scored candidates
//! enter the pool, when the search stops) and the order of the results.
//!
//! The ground search keeps two lists ordered by distance key, ties by heap id: the candidates
//! still to expand and the best `ef` results. A tombstone is walked through (it enters the
//! candidates and is expanded) but never enters the results.
use crate::walk::{descent_step, spec_descent_step, DescentAction, WalkCand};
use vstd::prelude::*;

verus! {

broadcast use vstd::seq_lib::group_seq_properties;

/// `a` ranks strictly before `b`: a smaller distance key, ties broken by the smaller heap id.
pub open spec fn cand_before(a: WalkCand, b: WalkCand) -> bool {
    a.key < b.key || (a.key == b.key && a.tid < b.tid)
}

/// `s` is in rank order: no element ranks strictly before an earlier one.
pub open spec fn cands_ranked(s: Seq<WalkCand>) -> bool {
    forall|p: int, q: int| 0 <= p < q < s.len() ==> !cand_before(#[trigger] s[q], #[trigger] s[p])
}

/// Where `e` enters `s`: in front of the first element that `e` ranks strictly before, else at
/// the end.
pub open spec fn insert_pos(s: Seq<WalkCand>, e: WalkCand) -> int
    decreases s.len(),
{
    if s.len() == 0 {
        0
    } else {
        let j = insert_pos(s.drop_last(), e);
        if j < s.len() - 1 {
            j
        } else if cand_before(e, s.last()) {
            s.len() - 1
        } else {
            s.len() as int
        }
    }
}

/// `s` with `e` inserted at its rank position.
pub open spec fn insert_ranked(s: Seq<WalkCand>, e: WalkCand) -> Seq<WalkCand> {
    s.insert(insert_pos(s, e), e)
}

/// The address of a candidate's element tuple.
pub open spec fn addr_of(c: WalkCand) -> (u32, u16) {
    (c.blk, c.off)
}

/// The neighbor addresses of an expanded node, taken in order against the visited set: each one
/// not visited yet is marked visited and is to be scored. Gives the visited set after and the
/// addresses to score.
pub open spec fn spec_mark(visited: Seq<(u32, u16)>, addrs: Seq<(u32, u16)>) -> (Seq<(u32, u16)>, Seq<(u32, u16)>)
    decreases addrs.len(),
{
    if addrs.len() == 0 {
        (visited, Seq::empty())
    } else {
        let (v, f) = spec_mark(visited, addrs.drop_last());
        if v.contains(addrs.last()) {
            (v, f)
        } else {
            (v.push(addrs.last()), f.push(addrs.last()))
        }
    }
}

/// A scored candidate `e` offered to the candidates `c` and results `w`: it enters when the
/// results hold fewer than `ef` or it is strictly closer than the furthest result; it then joins
/// the candidates and, unless it is a tombstone, the results, whose furthest leaves when they
/// exceed `ef`.
pub open spec fn spec_offer(c: Seq<WalkCand>, w: Seq<WalkCand>, e: WalkCand, ef: usize) -> (Seq<WalkCand>, Seq<WalkCand>) {
    if w.len() < ef || (w.len() > 0 && e.key < w.last().key) {
        let c2 = insert_ranked(c, e);
        if e.deleted {
            (c2, w)
        } else {
            let w2 = insert_ranked(w, e);
            if w2.len() > ef {
                (c2, w2.drop_last())
            } else {
                (c2, w2)
            }
        }
    } else {
        (c, w)
    }
}

/// The scored candidates `es` offered one after the other.
pub open spec fn spec_offer_all(c: Seq<WalkCand>, w: Seq<WalkCand>, es: Seq<WalkCand>, ef: usize) -> (Seq<WalkCand>, Seq<WalkCand>)
    decreases es.len(),
{
    if es.len() == 0 {
        (c, w)
    } else {
        let (c1, w1) = spec_offer_all(c, w, es.drop_last(), ef);
        spec_offer(c1, w1, es.last(), ef)
    }
}

proof fn lemma_insert_pos(s: Seq<WalkCand>, e: WalkCand)
    ensures
        0 <= insert_pos(s, e) <= s.len(),
        forall|p: int| 0 <= p < insert_pos(s, e) ==> !cand_before(e, #[trigger] s[p]),
        insert_pos(s, e) < s.len() ==> cand_before(e, s[insert_pos(s, e)]),
    decreases s.len(),
{
    if s.len() > 0 {
        lemma_insert_pos(s.drop_last(), e);
        assert forall|p: int| 0 <= p < insert_pos(s, e) implies !cand_before(e, #[trigger] s[p]) by {
            if p < s.len() - 1 {
                assert(s.drop_last()[p] == s[p]);
            }
        }
    }
}

proof fn lemma_insert_ranked(s: Seq<WalkCand>, e: WalkCand)
    requires
        cands_ranked(s),
    ensures
        cands_ranked(insert_ranked(s, e)),
        insert_ranked(s, e).len() == s.len() + 1,
{
    lemma_insert_pos(s, e);
    let j = insert_pos(s, e);
    let t = insert_ranked(s, e);
    assert forall|p: int, q: int| 0 <= p < q < t.len() implies !cand_before(#[trigger] t[q], #[trigger] t[p]) by {
        if q < j {
            assert(t[p] == s[p] && t[q] == s[q]);
        } else if q == j {
            assert(t[p] == s[p]);
        } else if p == j {
            assert(t[q] == s[q - 1]);
            if q - 1 > j {
                assert(!cand_before(s[q - 1], s[j]));
            }
        } else if p < j {
            assert(t[p] == s[p] && t[q] == s[q - 1]);
        } else {
            assert(t[p] == s[p - 1] && t[q] == s[q - 1]);
        }
    }
}

fn before(a: &WalkCand, b: &WalkCand) -> (r: bool)
    ensures
        r == cand_before(*a, *b),
{
    a.key < b.key || (a.key == b.key && a.tid < b.tid)
}

fn insert_position(s: &Vec<WalkCand>, e: &WalkCand) -> (r: usize)
    ensures
        r as int == insert_pos(s@, *e),
{
    let mut pos: usize = 0;
    let mut i: usize = 0;
    while i < s.len()
        invariant
            i <= s@.len(),
            pos <= i,
            pos as int == insert_pos(s@.take(i as int), *e),
        decreases s@.len() - i,
    {
        proof {
            assert(s@.take(i + 1).drop_last() =~= s@.take(i as int));
            lemma_insert_pos(s@.take(i as int), *e);
        }
        if pos == i && !before(e, &s[i]) {
            pos = i + 1;
        }
        i = i + 1;
    }
    proof {
        assert(s@.take(s@.len() as int) =~= s@);
    }
    pos
}

fn insert_into(v: &mut Vec<WalkCand>, e: WalkCand)
    ensures
        final(v)@ == insert_ranked(old(v)@, e),
{
    let p = insert_position(v, &e);
    proof {
        lemma_insert_pos(v@, e);
    }
    v.insert(p, e);
}

fn contains_addr(v: &Vec<(u32, u16)>, a: (u32, u16)) -> (r: bool)
    ensures
        r == v@.contains(a),
{
    let mut i: usize = 0;
    while i < v.len()
        invariant
            i <= v@.len(),
            forall|p: int| 0 <= p < i ==> v@[p] != a,
        decreases v@.len() - i,
    {
        if v[i].0 == a.0 && v[i].1 == a.1 {
            proof {
                assert(v@[i as int] == a);
            }
            return true;
        }
        i = i + 1;
    }
    false
}

fn mark_fresh(visited: &mut Vec<(u32, u16)>, addrs: &Vec<(u32, u16)>) -> (fresh: Vec<(u32, u16)>)
    ensures
        (final(visited)@, fresh@) == spec_mark(old(visited)@, addrs@),
{
    let mut fresh: Vec<(u32, u16)> = Vec::new();
    let mut i: usize = 0;
    while i < addrs.len()
        invariant
            i <= addrs@.len(),
            (visited@, fresh@) == spec_mark(old(visited)@, addrs@.take(i as int)),
        decreases addrs@.len() - i,
    {
        proof {
            assert(addrs@.take(i + 1).drop_last() =~= addrs@.take(i as int));
        }
        let a = addrs[i];
        if !contains_addr(visited, a) {
            visited.push(a);
            fresh.push(a);
        }
        i = i + 1;
    }
    proof {
        assert(addrs@.take(addrs@.len() as int) =~= addrs@);
    }
    fresh
}

fn offer(c: &mut Vec<WalkCand>, w: &mut Vec<WalkCand>, e: WalkCand, ef: usize)
    ensures
        (final(c)@, final(w)@) == spec_offer(old(c)@, old(w)@, e, ef),
{
    let wl = w.len();
    if wl < ef || (wl > 0 && e.key < w[wl - 1].key) {
        insert_into(c, e);
        if !e.deleted {
            insert_into(w, e);
            if w.len() > ef {
                let _ = w.pop();
            }
        }
    }
}

fn offer_all(c: &mut Vec<WalkCand>, w: &mut Vec<WalkCand>, es: &Vec<WalkCand>, ef: usize)
    ensures
        (final(c)@, final(w)@) == spec_offer_all(old(c)@, old(w)@, es@, ef),
{
    let mut i: usize = 0;
    while i < es.len()
        invariant
            i <= es@.len(),
            (c@, w@) == spec_offer_all(old(c)@, old(w)@, es@.take(i as int), ef),
        decreases es@.len() - i,
    {
        proof {
            assert(es@.take(i + 1).drop_last() =~= es@.take(i as int));
        }
        offer(c, w, es[i], ef);
        i = i + 1;
    }
    proof {
        assert(es@.take(es@.len() as int) =~= es@);
    }
}

/// Where the walk stands.
#[derive(Clone, Copy, Debug, PartialEq, Eq, Structural)]
pub enum TraversePhase {
    /// Descending the upper layers; the scored neighbors of `node` on `layer` are awaited.
    Descent,
    /// On the ground layer; the neighbor addresses of `node` are awaited.
    AwaitNeighbors,
    /// On the ground layer; the scores of the `pending` addresses are awaited.
    AwaitScores,
    /// The search is over; `results` is the answer.
    Finished,
}

/// The state of a walk: the phase, the result pool size `ef`, the node being expanded and its
/// layer, the candidates still to expand and the results (both in rank order), the element
/// addresses visited on the ground layer, and the addresses whose scores are awaited.
#[derive(Debug)]
pub struct TraverseState {
    pub phase: TraversePhase,
    pub ef: usize,
    pub node: WalkCand,
    pub layer: u32,
    pub candidates: Vec<WalkCand>,
    pub results: Vec<WalkCand>,
    pub visited: Vec<(u32, u16)>,
    pub pending: Vec<(u32, u16)>,
}

/// The content of a `TraverseState`, its lists as sequences.
pub struct TraverseModel {
    pub phase: TraversePhase,
    pub ef: usize,
    pub node: WalkCand,
    pub layer: u32,
    pub candidates: Seq<WalkCand>,
    pub results: Seq<WalkCand>,
    pub visited: Seq<(u32, u16)>,
    pub pending: Seq<(u32, u16)>,
}

impl View for TraverseState {
    type V = TraverseModel;

    open spec fn view(&self) -> TraverseModel {
        TraverseModel {
            phase: self.phase,
            ef: self.ef,
            node: self.node,
            layer: self.layer,
            candidates: self.candidates@,
            results: self.results@,
            visited: self.visited@,
            pending: self.pending@,
        }
    }
}

/// What the caller reports back.
#[derive(Debug)]
pub enum TraverseEvent {
    /// The candidates asked for, loaded and scored.
    Scored(Vec<WalkCand>),
    /// The ground-layer neighbor addresses of the node asked for.
    Neighbors(Vec<(u32, u16)>),
}

/// The content of a `TraverseEvent`.
pub enum EventModel {
    Scored(Seq<WalkCand>),
    Neighbors(Seq<(u32, u16)>),
}

impl View for TraverseEvent {
    type V = EventModel;

    open spec fn view(&self) -> EventModel {
        match self {
            TraverseEvent::Scored(v) => EventModel::Scored(v@),
            TraverseEvent::Neighbors(v) => EventModel::Neighbors(v@),
        }
    }
}

/// What the caller does next.
#[derive(Debug, PartialEq, Eq)]
pub enum TraverseAction {
    /// Load and score every neighbor of `node` on `layer`; answer `Scored`.
    ScoreLayer { node: WalkCand, layer: u32 },
    /// Read the ground-layer neighbor addresses of `node`; answer `Neighbors`.
    ReadNeighbors { node: WalkCand },
    /// Load and score the elements at `addrs`; answer `Scored`.
    Score { addrs: Vec<(u32, u16)> },
    /// The search is over: `results`, closest first.
    Finish { results: Vec<WalkCand> },
}

/// The content of a `TraverseAction`.
pub enum ActionModel {
    ScoreLayer { node: WalkCand, layer: u32 },
    ReadNeighbors { node: WalkCand },
    Score { addrs: Seq<(u32, u16)> },
    Finish { results: Seq<WalkCand> },
}

impl View for TraverseAction {
    type V = ActionModel;

    open spec fn view(&self) -> ActionModel {
        match self {
            TraverseAction::ScoreLayer { node, layer } => ActionModel::ScoreLayer { node: *node, layer: *layer },
            TraverseAction::ReadNeighbors { node } => ActionModel::ReadNeighbors { node: *node },
            TraverseAction::Score { addrs } => ActionModel::Score { addrs: addrs@ },
            TraverseAction::Finish { results } => ActionModel::Finish { results: results@ },
        }
    }
}

/// The request a state is waiting on.
pub open spec fn spec_pending_action(s: TraverseModel) -> ActionModel {
    match s.phase {
        TraversePhase::Descent => ActionModel::ScoreLayer { node: s.node, layer: s.layer },
        TraversePhase::AwaitNeighbors => ActionModel::ReadNeighbors { node: s.node },
        TraversePhase::AwaitScores => ActionModel::Score { addrs: s.pending },
        TraversePhase::Finished => ActionModel::Finish { results: s.results },
    }
}

/// The next ground-layer move: with no candidate left the search is over; the search is also
/// over, its candidates left unexpanded, when the closest candidate is strictly further than the
/// furthest result; else the closest candidate leaves the list and is expanded.
pub open spec fn spec_ground_next(s: TraverseModel) -> (TraverseModel, ActionModel) {
    if s.candidates.len() == 0 {
        (TraverseModel { phase: TraversePhase::Finished, ..s }, ActionModel::Finish { results: s.results })
    } else {
        let c = s.candidates[0];
        let rest = s.candidates.drop_first();
        if s.results.len() > 0 && c.key > s.results.last().key {
            (TraverseModel { phase: TraversePhase::Finished, ..s }, ActionModel::Finish { results: s.results })
        } else {
            (
                TraverseModel { phase: TraversePhase::AwaitNeighbors, node: c, candidates: rest, ..s },
                ActionModel::ReadNeighbors { node: c },
            )
        }
    }
}

/// Entering the ground layer at `ep`: it is the only candidate and visited, and a result unless
/// it is a tombstone.
pub open spec fn spec_ground_enter(s: TraverseModel, ep: WalkCand) -> (TraverseModel, ActionModel) {
    spec_ground_next(
        TraverseModel {
            node: ep,
            candidates: seq![ep],
            results: if ep.deleted { Seq::empty() } else { seq![ep] },
            visited: seq![addr_of(ep)],
            pending: Seq::empty(),
            ..s
        },
    )
}

/// A walk from the index's entry point on its top layer, with a result pool of `ef` (at least 1).
pub open spec fn spec_traverse_start(entry: WalkCand, entry_level: u32, ef: usize) -> (TraverseModel, ActionModel) {
    let s = TraverseModel {
        phase: TraversePhase::Descent,
        ef: if ef >= 1 { ef } else { 1 },
        node: entry,
        layer: entry_level,
        candidates: Seq::empty(),
        results: Seq::empty(),
        visited: Seq::empty(),
        pending: Seq::empty(),
    };
    if entry_level >= 1 {
        (s, ActionModel::ScoreLayer { node: entry, layer: entry_level })
    } else {
        spec_ground_enter(s, entry)
    }
}

/// One step of the walk. In the descent, the scored neighbors decide the next node or layer
/// (`spec_descent_step`), and the end of the descent enters the ground layer. On the ground layer,
/// the neighbor addresses not visited yet are marked and asked to be scored (none: the next move),
/// and the scored candidates are offered to the pool before the next move. An event that does not
/// answer the awaited request changes nothing, and the request stands.
pub open spec fn spec_traverse_step(s: TraverseModel, ev: EventModel) -> (TraverseModel, ActionModel) {
    match ev {
        EventModel::Scored(cands) => {
            if s.phase == TraversePhase::Descent {
                match spec_descent_step(s.node, s.layer, cands) {
                    DescentAction::Expand { node, layer } => (
                        TraverseModel { node, layer, ..s },
                        ActionModel::ScoreLayer { node, layer },
                    ),
                    DescentAction::Done { entry } => spec_ground_enter(s, entry),
                }
            } else if s.phase == TraversePhase::AwaitScores {
                let (c, w) = spec_offer_all(s.candidates, s.results, cands, s.ef);
                spec_ground_next(TraverseModel { candidates: c, results: w, pending: Seq::empty(), ..s })
            } else {
                (s, spec_pending_action(s))
            }
        },
        EventModel::Neighbors(addrs) => {
            if s.phase == TraversePhase::AwaitNeighbors {
                let (v, fresh) = spec_mark(s.visited, addrs);
                if fresh.len() == 0 {
                    spec_ground_next(TraverseModel { visited: v, ..s })
                } else {
                    (
                        TraverseModel { phase: TraversePhase::AwaitScores, visited: v, pending: fresh, ..s },
                        ActionModel::Score { addrs: fresh },
                    )
                }
            } else {
                (s, spec_pending_action(s))
            }
        },
    }
}

fn copy_vec<T: Copy>(v: &Vec<T>) -> (r: Vec<T>)
    ensures
        r@ == v@,
{
    let mut r: Vec<T> = Vec::new();
    let mut i: usize = 0;
    while i < v.len()
        invariant
            i <= v@.len(),
            r@ == v@.take(i as int),
        decreases v@.len() - i,
    {
        proof {
            assert(v@.take(i + 1) =~= v@.take(i as int).push(v@[i as int]));
        }
        r.push(v[i]);
        i = i + 1;
    }
    proof {
        assert(v@.take(v@.len() as int) =~= v@);
    }
    r
}

fn pending_action(s: &TraverseState) -> (r: TraverseAction)
    ensures
        r@ == spec_pending_action(s@),
{
    match s.phase {
        TraversePhase::Descent => TraverseAction::ScoreLayer { node: s.node, layer: s.layer },
        TraversePhase::AwaitNeighbors => TraverseAction::ReadNeighbors { node: s.node },
        TraversePhase::AwaitScores => TraverseAction::Score { addrs: copy_vec(&s.pending) },
        TraversePhase::Finished => TraverseAction::Finish { results: copy_vec(&s.results) },
    }
}

fn ground_next(s: TraverseState) -> (r: (TraverseState, TraverseAction))
    ensures
        (r.0@, r.1@) == spec_ground_next(s@),
{
    let mut s = s;
    if s.candidates.len() == 0 {
        s.phase = TraversePhase::Finished;
        let results = copy_vec(&s.results);
        return (s, TraverseAction::Finish { results });
    }
    let c = s.candidates[0];
    let rl = s.results.len();
    if rl > 0 && c.key > s.results[rl - 1].key {
        s.phase = TraversePhase::Finished;
        let results = copy_vec(&s.results);
        (s, TraverseAction::Finish { results })
    } else {
        let ghost before = s.candidates@;
        let _ = s.candidates.remove(0);
        proof {
            assert(s.candidates@ =~= before.drop_first());
        }
        s.phase = TraversePhase::AwaitNeighbors;
        s.node = c;
        (s, TraverseAction::ReadNeighbors { node: c })
    }
}

fn ground_enter(s: TraverseState, ep: WalkCand) -> (r: (TraverseState, TraverseAction))
    ensures
        (r.0@, r.1@) == spec_ground_enter(s@, ep),
{
    let ghost s0 = s@;
    let mut s = s;
    s.node = ep;
    s.candidates = vec![ep];
    s.results = if ep.deleted { Vec::new() } else { vec![ep] };
    s.visited = vec![(ep.blk, ep.off)];
    s.pending = Vec::new();
    proof {
        assert(s.candidates@ =~= seq![ep]);
        assert(s.visited@ =~= seq![addr_of(ep)]);
        if !ep.deleted {
            assert(s.results@ =~= seq![ep]);
        }
        assert(s@ == TraverseModel {
            node: ep,
            candidates: seq![ep],
            results: if ep.deleted { Seq::empty() } else { seq![ep] },
            visited: seq![addr_of(ep)],
            pending: Seq::empty(),
            ..s0
        });
    }
    ground_next(s)
}

/// Start a walk at the index's entry point `entry` on its top layer `entry_level`, keeping the
/// best `ef` results (at least 1).
pub fn traverse_start(entry: WalkCand, entry_level: u32, ef: usize) -> (r: (TraverseState, TraverseAction))
    ensures
        (r.0@, r.1@) == spec_traverse_start(entry, entry_level, ef),
{
    let s = TraverseState {
        phase: TraversePhase::Descent,
        ef: if ef >= 1 { ef } else { 1 },
        node: entry,
        layer: entry_level,
        candidates: Vec::new(),
        results: Vec::new(),
        visited: Vec::new(),
        pending: Vec::new(),
    };
    if entry_level >= 1 {
        (s, TraverseAction::ScoreLayer { node: entry, layer: entry_level })
    } else {
        ground_enter(s, entry)
    }
}

/// One step of the walk: the state after `ev` and the caller's next request.
pub fn traverse_step(state: TraverseState, ev: TraverseEvent) -> (r: (TraverseState, TraverseAction))
    ensures
        (r.0@, r.1@) == spec_traverse_step(state@, ev@),
{
    let mut s = state;
    match ev {
        TraverseEvent::Scored(cands) => match s.phase {
            TraversePhase::Descent => match descent_step(s.node, s.layer, cands.as_slice()) {
                DescentAction::Expand { node, layer } => {
                    s.node = node;
                    s.layer = layer;
                    (s, TraverseAction::ScoreLayer { node, layer })
                },
                DescentAction::Done { entry } => ground_enter(s, entry),
            },
            TraversePhase::AwaitScores => {
                offer_all(&mut s.candidates, &mut s.results, &cands, s.ef);
                s.pending = Vec::new();
                ground_next(s)
            },
            _ => {
                let a = pending_action(&s);
                (s, a)
            },
        },
        TraverseEvent::Neighbors(addrs) => match s.phase {
            TraversePhase::AwaitNeighbors => {
                let fresh = mark_fresh(&mut s.visited, &addrs);
                if fresh.len() == 0 {
                    ground_next(s)
                } else {
                    s.phase = TraversePhase::AwaitScores;
                    s.pending = copy_vec(&fresh);
                    (s, TraverseAction::Score { addrs: fresh })
                }
            },
            _ => {
                let a = pending_action(&s);
                (s, a)
            },
        },
    }
}

/// The result pool of the search for a new element's ground neighbors: `ef_construction`, at
/// least `m0`.
pub fn insert_search_ef(ef_construction: usize, m0: usize) -> (r: usize)
    ensures
        r == (if ef_construction >= m0 { ef_construction } else { m0 }),
{
    if ef_construction >= m0 {
        ef_construction
    } else {
        m0
    }
}

/// The ground neighbors of a new element: the element addresses of the first `m0` results, in
/// result order.
pub fn nearest_addrs(results: &Vec<WalkCand>, m0: usize) -> (r: Vec<(u32, u16)>)
    ensures
        r@ == results@.take(if m0 <= results@.len() { m0 as int } else { results@.len() as int }).map_values(
            |c: WalkCand| addr_of(c),
        ),
{
    let n = if m0 <= results.len() { m0 } else { results.len() };
    let mut r: Vec<(u32, u16)> = Vec::new();
    let mut i: usize = 0;
    while i < n
        invariant
            n <= results@.len(),
            i <= n,
            r@ == results@.take(i as int).map_values(|c: WalkCand| addr_of(c)),
        decreases n - i,
    {
        proof {
            assert(results@.take(i + 1).map_values(|c: WalkCand| addr_of(c)) =~= results@.take(
                i as int,
            ).map_values(|c: WalkCand| addr_of(c)).push(addr_of(results@[i as int])));
        }
        r.push((results[i].blk, results[i].off));
        i = i + 1;
    }
    r
}

// ---------------------------------------------------------------------------------------------
// Laws of the walk
// ---------------------------------------------------------------------------------------------

/// A well-formed walk: a pool of at least one, both lists in rank order, at most `ef` results and
/// no tombstone among them, and a descent that stands on an upper layer.
pub open spec fn traverse_wf(s: TraverseModel) -> bool {
    &&& pool_wf(s)
    &&& s.phase == TraversePhase::Descent ==> s.layer >= 1
    &&& s.phase == TraversePhase::Finished ==> stopped_past_results(s)
}

/// The beam search's stopping rule, as it stands when the walk is over: every candidate left
/// unexpanded is strictly further than the furthest result (so none is left while the results are
/// empty).
pub open spec fn stopped_past_results(s: TraverseModel) -> bool {
    forall|i: int|
        0 <= i < s.candidates.len() ==> s.results.len() > 0 && (#[trigger] s.candidates[i]).key
            > s.results.last().key
}

/// The pool part of `traverse_wf`.
pub open spec fn pool_wf(s: TraverseModel) -> bool {
    &&& s.ef >= 1
    &&& cands_ranked(s.candidates)
    &&& cands_ranked(s.results)
    &&& s.results.len() <= s.ef
    &&& forall|i: int| 0 <= i < s.results.len() ==> !(#[trigger] s.results[i]).deleted
}

/// A finishing request carries results in rank order, at most `ef` of them, none a tombstone.
pub open spec fn answer_ok(a: ActionModel, ef: usize) -> bool {
    a matches ActionModel::Finish { results } ==> {
        &&& cands_ranked(results)
        &&& results.len() <= ef
        &&& forall|i: int| 0 <= i < results.len() ==> !(#[trigger] results[i]).deleted
    }
}

proof fn lemma_ranked_drop_first(s: Seq<WalkCand>)
    requires
        cands_ranked(s),
        s.len() > 0,
    ensures
        cands_ranked(s.drop_first()),
{
    assert forall|p: int, q: int| 0 <= p < q < s.drop_first().len() implies !cand_before(
        #[trigger] s.drop_first()[q],
        #[trigger] s.drop_first()[p],
    ) by {
        assert(s.drop_first()[q] == s[q + 1] && s.drop_first()[p] == s[p + 1]);
    }
}

proof fn lemma_ranked_drop_last(s: Seq<WalkCand>)
    requires
        cands_ranked(s),
        s.len() > 0,
    ensures
        cands_ranked(s.drop_last()),
{
    assert forall|p: int, q: int| 0 <= p < q < s.drop_last().len() implies !cand_before(
        #[trigger] s.drop_last()[q],
        #[trigger] s.drop_last()[p],
    ) by {
        assert(s.drop_last()[q] == s[q] && s.drop_last()[p] == s[p]);
    }
}

proof fn lemma_ground_next_wf(s: TraverseModel)
    requires
        pool_wf(s),
    ensures
        traverse_wf(spec_ground_next(s).0),
        spec_ground_next(s).0.ef == s.ef,
        answer_ok(spec_ground_next(s).1, s.ef),
{
    if s.candidates.len() > 0 {
        lemma_ranked_drop_first(s.candidates);
        let c = s.candidates[0];
        if s.results.len() > 0 && s.candidates[0].key > s.results.last().key {
            assert forall|i: int| 0 <= i < s.candidates.len() implies (#[trigger] s.candidates[i]).key
                > s.results.last().key by {
                if i > 0 {
                    assert(!cand_before(s.candidates[i], s.candidates[0]));
                }
            }
        }
    }
}

proof fn lemma_offer_wf(c: Seq<WalkCand>, w: Seq<WalkCand>, e: WalkCand, ef: usize)
    requires
        ef >= 1,
        cands_ranked(c),
        cands_ranked(w),
        w.len() <= ef,
        forall|i: int| 0 <= i < w.len() ==> !(#[trigger] w[i]).deleted,
    ensures
        ({
            let (c2, w2) = spec_offer(c, w, e, ef);
            &&& cands_ranked(c2)
            &&& cands_ranked(w2)
            &&& w2.len() <= ef
            &&& forall|i: int| 0 <= i < w2.len() ==> !(#[trigger] w2[i]).deleted
        }),
{
    lemma_insert_ranked(c, e);
    lemma_insert_ranked(w, e);
    lemma_insert_pos(w, e);
    let t = insert_ranked(w, e);
    let j = insert_pos(w, e);
    assert forall|i: int| 0 <= i < t.len() && !e.deleted implies !(#[trigger] t[i]).deleted by {
        if i < j {
            assert(t[i] == w[i]);
        } else if i > j {
            assert(t[i] == w[i - 1]);
        }
    }
    if t.len() > ef {
        lemma_ranked_drop_last(t);
        assert forall|i: int| 0 <= i < t.drop_last().len() && !e.deleted implies !(#[trigger] t.drop_last()[i]).deleted by {
            assert(t.drop_last()[i] == t[i]);
        }
    }
}

proof fn lemma_offer_all_wf(c: Seq<WalkCand>, w: Seq<WalkCand>, es: Seq<WalkCand>, ef: usize)
    requires
        ef >= 1,
        cands_ranked(c),
        cands_ranked(w),
        w.len() <= ef,
        forall|i: int| 0 <= i < w.len() ==> !(#[trigger] w[i]).deleted,
    ensures
        ({
            let (c2, w2) = spec_offer_all(c, w, es, ef);
            &&& cands_ranked(c2)
            &&& cands_ranked(w2)
            &&& w2.len() <= ef
            &&& forall|i: int| 0 <= i < w2.len() ==> !(#[trigger] w2[i]).deleted
        }),
    decreases es.len(),
{
    if es.len() > 0 {
        lemma_offer_all_wf(c, w, es.drop_last(), ef);
        let (c1, w1) = spec_offer_all(c, w, es.drop_last(), ef);
        lemma_offer_wf(c1, w1, es.last(), ef);
    }
}

proof fn lemma_ground_enter_wf(s: TraverseModel, ep: WalkCand)
    requires
        s.ef >= 1,
    ensures
        traverse_wf(spec_ground_enter(s, ep).0),
        spec_ground_enter(s, ep).0.ef == s.ef,
        answer_ok(spec_ground_enter(s, ep).1, s.ef),
{
    let t = TraverseModel {
        node: ep,
        candidates: seq![ep],
        results: if ep.deleted { Seq::empty() } else { seq![ep] },
        visited: seq![addr_of(ep)],
        pending: Seq::empty(),
        ..s
    };
    assert(pool_wf(t));
    lemma_ground_next_wf(t);
}

/// A walk starts well formed, and a finish at once answers at most `ef` live results in rank
/// order.
pub proof fn lemma_traverse_start_wf(entry: WalkCand, entry_level: u32, ef: usize)
    ensures
        traverse_wf(spec_traverse_start(entry, entry_level, ef).0),
        answer_ok(spec_traverse_start(entry, entry_level, ef).1, spec_traverse_start(entry, entry_level, ef).0.ef),
        spec_traverse_start(entry, entry_level, ef).0.ef == (if ef >= 1 { ef } else { 1 }),
{
    let s = TraverseModel {
        phase: TraversePhase::Descent,
        ef: if ef >= 1 { ef } else { 1 },
        node: entry,
        layer: entry_level,
        candidates: Seq::empty(),
        results: Seq::empty(),
        visited: Seq::empty(),
        pending: Seq::empty(),
    };
    if entry_level < 1 {
        lemma_ground_enter_wf(s, entry);
    }
}

/// Every step keeps a walk well formed and its pool size: whatever the events, the results stay
/// in rank order (distance key, then heap id), never exceed `ef` and never hold a tombstone, and
/// so does the answer the walk finishes with.
pub proof fn lemma_traverse_step_wf(s: TraverseModel, ev: EventModel)
    requires
        traverse_wf(s),
    ensures
        traverse_wf(spec_traverse_step(s, ev).0),
        spec_traverse_step(s, ev).0.ef == s.ef,
        answer_ok(spec_traverse_step(s, ev).1, s.ef),
{
    match ev {
        EventModel::Scored(cands) => {
            if s.phase == TraversePhase::Descent {
                match spec_descent_step(s.node, s.layer, cands) {
                    DescentAction::Expand { node, layer } => {},
                    DescentAction::Done { entry } => {
                        lemma_ground_enter_wf(s, entry);
                    },
                }
            } else if s.phase == TraversePhase::AwaitScores {
                lemma_offer_all_wf(s.candidates, s.results, cands, s.ef);
                let (c, w) = spec_offer_all(s.candidates, s.results, cands, s.ef);
                lemma_ground_next_wf(TraverseModel { candidates: c, results: w, pending: Seq::empty(), ..s });
            }
        },
        EventModel::Neighbors(addrs) => {
            if s.phase == TraversePhase::AwaitNeighbors {
                let (v, fresh) = spec_mark(s.visited, addrs);
                lemma_ground_next_wf(TraverseModel { visited: v, ..s });
            }
        },
    }
}

/// How the walk ends: whenever a step answers `Finish`, the walk is over and its answer is its
/// results, and no candidate was left unexpanded unless it is strictly further than the furthest
/// result. So the search never stops while a candidate could still improve the results.
pub proof fn lemma_walk_stops_only_past_results(s: TraverseModel, ev: EventModel)
    requires
        traverse_wf(s),
    ensures
        ({
            let r = spec_traverse_step(s, ev);
            r.1 matches ActionModel::Finish { results } ==> {
                &&& r.0.phase == TraversePhase::Finished
                &&& results == r.0.results
                &&& forall|i: int|
                    0 <= i < r.0.candidates.len() ==> results.len() > 0 && (#[trigger] r.0.candidates[i]).key
                        > results.last().key
            }
        }),
{
    lemma_traverse_step_wf(s, ev);
    let r = spec_traverse_step(s, ev);
    assert(r.1 is Finish ==> r.0.phase == TraversePhase::Finished && r.1->results == r.0.results) by {
        match ev {
            EventModel::Scored(cands) => {
                if s.phase == TraversePhase::Descent {
                    match spec_descent_step(s.node, s.layer, cands) {
                        DescentAction::Expand { node, layer } => {},
                        DescentAction::Done { entry } => {},
                    }
                }
            },
            EventModel::Neighbors(addrs) => {},
        }
    }
}

/// How a scored candidate is offered to the pool: it is taken when the results hold fewer than
/// `ef` or it is strictly closer than the furthest result, and otherwise nothing changes. A taken
/// candidate joins the candidates; unless it is a tombstone it also joins the results, which lose
/// only their furthest element, and only when they were full.
pub proof fn lemma_offer_takes_closer(c: Seq<WalkCand>, w: Seq<WalkCand>, e: WalkCand, ef: usize)
    requires
        ef >= 1,
        cands_ranked(w),
        w.len() <= ef,
    ensures
        ({
            let (c2, w2) = spec_offer(c, w, e, ef);
            let taken = w.len() < ef || (w.len() > 0 && e.key < w.last().key);
            &&& !taken ==> c2 == c && w2 == w
            &&& taken ==> c2.len() == c.len() + 1 && c2.contains(e) && forall|i: int|
                0 <= i < c.len() ==> c2.contains(#[trigger] c[i])
            &&& taken && e.deleted ==> w2 == w
            &&& taken && !e.deleted ==> {
                &&& w2.contains(e)
                &&& w2.len() == (if w.len() < ef { w.len() + 1 } else { ef as nat })
                &&& forall|i: int| 0 <= i < w.len() && (w.len() < ef || i < w.len() - 1) ==> w2.contains(#[trigger] w[i])
                &&& forall|x: WalkCand| #[trigger] w2.contains(x) ==> x == e || w.contains(x)
            }
        }),
{
    let taken = w.len() < ef || (w.len() > 0 && e.key < w.last().key);
    if taken {
        lemma_insert_pos(c, e);
        let jc = insert_pos(c, e);
        let c2 = insert_ranked(c, e);
        assert(c2[jc] == e);
        assert forall|i: int| 0 <= i < c.len() implies c2.contains(#[trigger] c[i]) by {
            if i < jc {
                assert(c2[i] == c[i]);
            } else {
                assert(c2[i + 1] == c[i]);
            }
        }
        if !e.deleted {
            lemma_insert_pos(w, e);
            let j = insert_pos(w, e);
            let t = insert_ranked(w, e);
            assert(t[j] == e);
            assert forall|x: WalkCand| #[trigger] t.contains(x) implies x == e || w.contains(x) by {
                let k = choose|k: int| 0 <= k < t.len() && t[k] == x;
                if k < j {
                    assert(w[k] == x);
                } else if k > j {
                    assert(w[k - 1] == x);
                }
            }
            if t.len() > ef {
                assert(w.len() == ef);
                assert(cand_before(e, w.last()));
                assert(j < w.len()) by {
                    if j == w.len() {
                        assert(!cand_before(e, w[w.len() - 1]));
                    }
                }
                let w2 = t.drop_last();
                assert(w2[j] == e);
                assert forall|i: int| 0 <= i < w.len() && i < w.len() - 1 implies w2.contains(#[trigger] w[i]) by {
                    if i < j {
                        assert(w2[i] == w[i]);
                    } else {
                        assert(w2[i + 1] == w[i]);
                    }
                }
                assert forall|x: WalkCand| #[trigger] w2.contains(x) implies x == e || w.contains(x) by {
                    let k = choose|k: int| 0 <= k < w2.len() && w2[k] == x;
                    assert(t[k] == x);
                    assert(t.contains(x));
                }
            } else {
                assert forall|i: int| 0 <= i < w.len() implies t.contains(#[trigger] w[i]) by {
                    if i < j {
                        assert(t[i] == w[i]);
                    } else {
                        assert(t[i + 1] == w[i]);
                    }
                }
            }
        }
    }
}

/// The ground layer expands the closest candidate: when a move expands a node, that node was the
/// first of the candidates, none of which ranks strictly before it, and it leaves the list.
pub proof fn lemma_ground_expands_closest(s: TraverseModel)
    requires
        cands_ranked(s.candidates),
    ensures
        spec_ground_next(s).1 matches ActionModel::ReadNeighbors { node } ==> {
            &&& s.candidates == seq![node] + spec_ground_next(s).0.candidates
            &&& forall|i: int| 0 <= i < s.candidates.len() ==> !cand_before(#[trigger] s.candidates[i], node)
        },
{
    if s.candidates.len() > 0 {
        assert(s.candidates =~= seq![s.candidates[0]] + s.candidates.drop_first());
    }
}

proof fn lemma_mark(visited: Seq<(u32, u16)>, addrs: Seq<(u32, u16)>)
    ensures
        ({
            let (v, f) = spec_mark(visited, addrs);
            &&& v == visited + f
            &&& f.no_duplicates()
            &&& forall|i: int| 0 <= i < f.len() ==> !visited.contains(#[trigger] f[i])
            &&& forall|j: int| 0 <= j < addrs.len() ==> v.contains(#[trigger] addrs[j])
        }),
    decreases addrs.len(),
{
    if addrs.len() > 0 {
        lemma_mark(visited, addrs.drop_last());
        let (v0, f0) = spec_mark(visited, addrs.drop_last());
        let a = addrs.last();
        let (v, f) = spec_mark(visited, addrs);
        if !v0.contains(a) {
            assert(v0.push(a) =~= visited + f0.push(a));
            assert forall|i: int| 0 <= i < f0.len() implies f0[i] != a by {
                assert(v0[visited.len() + i] == f0[i]);
            }
            assert forall|i: int| 0 <= i < f.len() implies !visited.contains(#[trigger] f[i]) by {
                if i == f0.len() {
                    if visited.contains(a) {
                        let k = choose|k: int| 0 <= k < visited.len() && visited[k] == a;
                        assert(v0[k] == a);
                    }
                } else {
                    assert(f[i] == f0[i]);
                }
            }
        }
        assert forall|j: int| 0 <= j < addrs.len() implies v.contains(#[trigger] addrs[j]) by {
            if j < addrs.len() - 1 {
                assert(addrs.drop_last()[j] == addrs[j]);
                let k = choose|k: int| 0 <= k < v0.len() && v0[k] == addrs[j];
                if !v0.contains(a) {
                    assert(v[k] == addrs[j]);
                }
            } else if !v0.contains(a) {
                assert(v[v.len() - 1] == a);
            }
        }
    }
}

/// On the ground layer each element is scored at most once: the addresses a `Score` request
/// asks for are distinct and none was visited before, every neighbor address reported is visited
/// afterwards, and the visited set grows by exactly the addresses asked for.
pub proof fn lemma_scores_are_fresh(s: TraverseModel, addrs: Seq<(u32, u16)>)
    requires
        s.phase == TraversePhase::AwaitNeighbors,
    ensures
        ({
            let r = spec_traverse_step(s, EventModel::Neighbors(addrs));
            &&& forall|j: int| 0 <= j < addrs.len() ==> r.0.visited.contains(#[trigger] addrs[j])
            &&& match r.1 {
                ActionModel::Score { addrs: f } => {
                    &&& f.no_duplicates()
                    &&& forall|i: int| 0 <= i < f.len() ==> !s.visited.contains(#[trigger] f[i])
                    &&& r.0.visited == s.visited + f
                },
                _ => r.0.visited == s.visited,
            }
        }),
{
    lemma_mark(s.visited, addrs);
    let (v, f) = spec_mark(s.visited, addrs);
    if f.len() == 0 {
        assert(v =~= s.visited);
    }
}

} // verus!
