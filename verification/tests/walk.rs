use theodb_am::walk::{descent_start, descent_step, distance_key, key_bits, rank_by_distance, walk_ef, DescentAction, WalkCand};

fn cand(off: u16, tid: i64, d: f64) -> WalkCand {
    WalkCand { blk: 1, off, nbr_blk: 2, nbr_off: off, level: 0, tid, deleted: false, key: distance_key(d.to_bits()) }
}

#[test]
fn distance_keys_order_as_the_distances() {
    let ds = [-3.5f64, -0.0, 0.0, 1e-300, 0.5, 2.0, 1e300];
    for w in ds.windows(2) {
        assert!(distance_key(w[0].to_bits()) < distance_key(w[1].to_bits()), "{} < {}", w[0], w[1]);
    }
    assert_eq!(distance_key(0.0f64.to_bits()), 0x8000_0000_0000_0000);
}

#[test]
fn descent_moves_to_the_closest_then_goes_down() {
    let ep = cand(1, 10, 5.0);
    assert_eq!(descent_start(ep, 2), DescentAction::Expand { node: ep, layer: 2 });
    assert_eq!(descent_start(ep, 0), DescentAction::Done { entry: ep });
    let a = cand(2, 11, 3.0);
    let b = cand(3, 12, 1.0);
    let c = cand(4, 13, 1.0);
    // the first strict minimum wins
    assert_eq!(descent_step(ep, 2, &[a, b, c]), DescentAction::Expand { node: b, layer: 2 });
    // nothing closer: down a layer, then done at the ground
    let far = cand(5, 14, 9.0);
    assert_eq!(descent_step(ep, 2, &[far]), DescentAction::Expand { node: ep, layer: 1 });
    assert_eq!(descent_step(ep, 1, &[far, cand(6, 15, 5.0)]), DescentAction::Done { entry: ep });
    assert_eq!(descent_step(ep, 1, &[]), DescentAction::Done { entry: ep });
}

#[test]
fn results_are_ordered_by_distance_then_id_and_cut_at_ef() {
    let k = |d: f64| distance_key(d.to_bits());
    let c = vec![(7i64, k(2.0)), (3, k(0.5)), (9, k(2.0)), (1, k(4.0)), (2, k(0.5))];
    assert_eq!(rank_by_distance(&c, 3), vec![(2, k(0.5)), (3, k(0.5)), (7, k(2.0))]);
    assert_eq!(rank_by_distance(&c, 10).len(), 5);
    assert!(rank_by_distance(&c, 0).is_empty());
}

#[test]
fn pool_widens_only_for_an_approximate_walk() {
    assert_eq!(walk_ef(64, 4, false), 64);
    assert_eq!(walk_ef(64, 4, true), 256);
    assert_eq!(walk_ef(0, 0, true), 1);
    assert_eq!(walk_ef(usize::MAX, 2, true), usize::MAX);
}

#[test]
fn a_key_gives_back_its_distance() {
    for d in [-2.5f64, -0.0, 0.0, 0.25, 3.0, f64::INFINITY] {
        assert_eq!(key_bits(distance_key(d.to_bits())), d.to_bits());
    }
}
