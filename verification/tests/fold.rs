use theodb_am::fold::{fold_actions, free_region, vacuum_cleanup_action, CleanupAction, FoldAction};

#[test]
fn free_region_reuses_low_dead_region_when_it_fits() {
    // dead low region [1, 100) has 99 pages; a 50-page generation fits → reuse at base 1.
    assert_eq!(free_region(100, 200, 50), 1);
}

#[test]
fn free_region_extends_when_low_region_too_small() {
    // dead low region [1, 10) has 9 pages; a 50-page generation does not fit → extend at the tail.
    assert_eq!(free_region(10, 200, 50), 200);
}

#[test]
fn free_region_extends_for_a_contiguous_index_with_no_dead_region() {
    // cur_gen_start == 1 → no dead low region at all → always extend.
    assert_eq!(free_region(1, 100, 5), 100);
}

#[test]
fn reused_base_never_touches_the_live_generation() {
    for cur in 1u32..40 {
        for need in 0u32..40 {
            for nblocks in cur..80 {
                let base = free_region(cur, nblocks, need);
                if base == 1 {
                    assert!(1 + need <= cur, "reuse must fit strictly below the live gen (cur={cur} need={need})");
                    assert!(cur > 1, "reuse requires a non-empty dead low region");
                } else {
                    assert!(base >= nblocks.max(1), "extend must be at/after the tail");
                }
            }
        }
    }
}

#[test]
fn free_region_exact_fit_reuses() {
    // [1, 51) holds exactly 50 pages.
    assert_eq!(free_region(51, 300, 50), 1);
    assert_eq!(free_region(50, 300, 50), 300);
}

#[test]
fn free_region_never_returns_block_zero() {
    assert_eq!(free_region(1, 0, 3), 2);
    assert_eq!(free_region(1, 1, 0), 2);
    assert!(free_region(5, 0, 10) >= 1);
}

#[test]
fn fold_actions_write_the_body_then_pivot_then_reclaim() {
    // a 5-page body at 8 in a 12-block relation: blocks 8..12 exist, 12 is fresh
    let a = fold_actions(8, 5, 12);
    assert_eq!(
        a,
        vec![
            FoldAction::Body { page: 0, block: 8, reinit: true },
            FoldAction::Body { page: 1, block: 9, reinit: true },
            FoldAction::Body { page: 2, block: 10, reinit: true },
            FoldAction::Body { page: 3, block: 11, reinit: true },
            FoldAction::Body { page: 4, block: 12, reinit: false },
            FoldAction::Pivot,
        ]
    );
}

#[test]
fn fold_into_the_low_region_empties_the_old_generation_after_the_pivot() {
    // live generation at 5..9: a 3-page body fits [1, 5)
    let base = free_region(5, 9, 3);
    assert_eq!(base, 1);
    let a = fold_actions(base, 3, 9);
    let pivot = a.iter().position(|x| *x == FoldAction::Pivot).unwrap();
    assert_eq!(pivot, 3);
    for x in &a[..pivot] {
        match x {
            FoldAction::Body { block, .. } => assert!(*block >= 1 && *block < 5),
            _ => panic!("only body writes before the pivot"),
        }
    }
    let reclaimed: Vec<u32> = a[pivot + 1..]
        .iter()
        .map(|x| match x {
            FoldAction::Reclaim { block } => *block,
            _ => panic!("only reclaims after the pivot"),
        })
        .collect();
    assert_eq!(reclaimed, vec![4, 5, 6, 7, 8]);
}

#[test]
fn fold_past_the_end_pads_first() {
    assert_eq!(
        fold_actions(2, 1, 1),
        vec![FoldAction::Pad { block: 1 }, FoldAction::Body { page: 0, block: 2, reinit: false }, FoldAction::Pivot]
    );
}

#[test]
fn an_empty_body_only_pivots_and_reclaims() {
    assert_eq!(fold_actions(3, 0, 5), vec![FoldAction::Pivot, FoldAction::Reclaim { block: 3 }, FoldAction::Reclaim { block: 4 }]);
}

#[test]
fn cleanup_folds_pending_only_past_the_threshold_without_a_bulk_delete() {
    assert_eq!(vacuum_cleanup_action(true, false, 100, 16), CleanupAction::Nothing);
    assert_eq!(vacuum_cleanup_action(false, true, 100, 16), CleanupAction::ReportPages);
    assert_eq!(vacuum_cleanup_action(false, false, 17, 16), CleanupAction::FoldPending);
    assert_eq!(vacuum_cleanup_action(false, false, 16, 16), CleanupAction::Nothing);
    assert_eq!(vacuum_cleanup_action(false, false, 2, 0), CleanupAction::FoldPending);
}
