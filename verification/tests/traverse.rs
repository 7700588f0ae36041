use theodb_am::traverse::{
    insert_search_ef, nearest_addrs, traverse_start, traverse_step, TraverseAction, TraverseEvent, TraversePhase,
};
use theodb_am::walk::{distance_key, WalkCand};

/// A graph held in memory: per node its address, heap id, distance to the query, tombstone flag
/// and neighbor addresses per layer.
struct Node {
    off: u16,
    tid: i64,
    d: f64,
    deleted: bool,
    layers: Vec<Vec<u16>>,
}

fn node(graph: &[Node], off: u16) -> &Node {
    graph.iter().find(|n| n.off == off).expect("node")
}

fn cand(n: &Node) -> WalkCand {
    WalkCand {
        blk: 1,
        off: n.off,
        nbr_blk: 2,
        nbr_off: n.off,
        level: (n.layers.len() - 1) as u8,
        tid: n.tid,
        deleted: n.deleted,
        key: distance_key(n.d.to_bits()),
    }
}

/// Drive a walk to its end, as the scan does with pages; returns the results and every address
/// that was scored on the ground layer.
fn run(graph: &[Node], entry: u16, entry_level: u32, ef: usize) -> (Vec<WalkCand>, Vec<(u32, u16)>) {
    let (mut st, mut act) = traverse_start(cand(node(graph, entry)), entry_level, ef);
    let mut scored = Vec::new();
    for _ in 0..10_000 {
        let ev = match act {
            TraverseAction::ScoreLayer { node: c, layer } => TraverseEvent::Scored(
                node(graph, c.off).layers[layer as usize].iter().map(|&o| cand(node(graph, o))).collect(),
            ),
            TraverseAction::ReadNeighbors { node: c } => {
                TraverseEvent::Neighbors(node(graph, c.off).layers[0].iter().map(|&o| (1u32, o)).collect())
            }
            TraverseAction::Score { addrs } => {
                scored.extend(addrs.iter().copied());
                TraverseEvent::Scored(addrs.iter().map(|&(_, o)| cand(node(graph, o))).collect())
            }
            TraverseAction::Finish { results } => return (results, scored),
        };
        let (s, a) = traverse_step(st, ev);
        st = s;
        act = a;
    }
    panic!("the walk did not finish");
}

/// A chain 1-2-..-8 on the ground layer, closer to the query towards 8; nodes 1 and 4 also
/// stand on layer 1, linked to each other.
fn chain(deleted: &[u16]) -> Vec<Node> {
    let ds = [7.0, 6.0, 5.0, 4.0, 3.0, 2.0, 1.0, 0.5];
    (1..=8u16)
        .map(|off| {
            let mut ground = Vec::new();
            if off > 1 {
                ground.push(off - 1);
            }
            if off < 8 {
                ground.push(off + 1);
            }
            let mut layers = vec![ground];
            if off == 1 {
                layers.push(vec![4]);
            }
            if off == 4 {
                layers.push(vec![1]);
            }
            Node { off, tid: 100 + off as i64, d: ds[off as usize - 1], deleted: deleted.contains(&off), layers }
        })
        .collect()
}

fn tids(r: &[WalkCand]) -> Vec<i64> {
    r.iter().map(|c| c.tid).collect()
}

#[test]
fn the_walk_descends_then_keeps_the_ef_closest() {
    let g = chain(&[]);
    let (results, scored) = run(&g, 1, 1, 3);
    assert_eq!(tids(&results), vec![108, 107, 106]);
    // each ground element is scored once, and the far end of the chain is never reached
    let mut sorted = scored.clone();
    sorted.sort();
    sorted.dedup();
    assert_eq!(sorted.len(), scored.len());
    assert!(!scored.contains(&(1, 1)) && !scored.contains(&(1, 2)));
}

#[test]
fn a_tombstone_is_walked_through_but_never_returned() {
    let g = chain(&[7]);
    let (results, _) = run(&g, 1, 1, 3);
    assert_eq!(tids(&results), vec![108, 106, 105]);
}

#[test]
fn a_large_pool_returns_every_live_node_in_order() {
    let g = chain(&[2]);
    let (results, _) = run(&g, 1, 0, 100);
    assert_eq!(tids(&results), vec![108, 107, 106, 105, 104, 103, 101]);
    let (results, _) = run(&g, 1, 0, 0);
    assert_eq!(results.len(), 1);
}

#[test]
fn an_event_that_answers_nothing_repeats_the_request() {
    let g = chain(&[]);
    let (st, act) = traverse_start(cand(node(&g, 1)), 1, 3);
    assert_eq!(st.phase, TraversePhase::Descent);
    let (st, again) = traverse_step(st, TraverseEvent::Neighbors(vec![(1, 2)]));
    assert_eq!(again, act);
    assert_eq!(st.phase, TraversePhase::Descent);
    assert!(st.visited.is_empty());
}

#[test]
fn the_insert_search_keeps_the_m0_nearest_addresses() {
    assert_eq!(insert_search_ef(40, 16), 40);
    assert_eq!(insert_search_ef(8, 16), 16);
    let g = chain(&[]);
    let (results, _) = run(&g, 1, 1, insert_search_ef(3, 2));
    assert_eq!(nearest_addrs(&results, 2), vec![(1, 8), (1, 7)]);
    assert_eq!(nearest_addrs(&results, 10).len(), 3);
}
