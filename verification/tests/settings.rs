use theodb_am::guc::{
    ai_max_batch, arrow_cache_max_entries, crash_after_body_page_fires, crash_at_phase_fires, ef_search,
    hnsw_resume_max_bytes, hnsw_tombstone_compact_pct, http_breaker_open_ms, max_scan_tuples, over_fetch, probes,
    resolve_alias, vacuum_fold_max_mb, vacuum_pending_threshold, vectorizer_dead_letter_max, CRASH_PHASE_MID_RECLAIM,
    CRASH_PHASE_POST_PIVOT,
};
use theodb_am::options::{
    degree_bound_from_relation, lists_from_relation, pq_bits_from_relation, pq_subspaces_from_relation,
    rabitq_bits_from_relation, refine_rabitq_from_relation, refine_sq8_from_relation, sbq_bits_from_relation,
    separate_storage_from_relation,
};

#[test]
fn floors_and_clamps() {
    assert_eq!(vacuum_pending_threshold(0), 1);
    assert_eq!(vacuum_pending_threshold(16), 16);
    assert_eq!(hnsw_tombstone_compact_pct(-5), 0);
    assert_eq!(hnsw_tombstone_compact_pct(250), 100);
    assert_eq!(hnsw_tombstone_compact_pct(20), 20);
    assert_eq!(vacuum_fold_max_mb(-1), 0);
    assert_eq!(vacuum_fold_max_mb(1024), 1024);
    assert_eq!(arrow_cache_max_entries(0), 1);
    assert_eq!(vectorizer_dead_letter_max(-3), 0);
    assert_eq!(http_breaker_open_ms(30000), 30000);
    assert_eq!(ai_max_batch(-7), 1);
    assert_eq!(over_fetch(0), 1);
    assert_eq!(max_scan_tuples(-1), 0);
}

#[test]
fn own_name_beats_the_alias_only_off_its_default() {
    assert_eq!(resolve_alias(10, 10, 40), 40);
    assert_eq!(resolve_alias(7, 10, 40), 7);
    assert_eq!(probes(10, 25), 25);
    assert_eq!(probes(3, 25), 3);
    assert_eq!(probes(10, 0), 1);
    assert_eq!(ef_search(64, 200), 200);
    assert_eq!(ef_search(100, 200), 100);
}

#[test]
fn resume_ceiling_in_bytes() {
    assert_eq!(hnsw_resume_max_bytes(64), 64 * 1024 * 1024);
    assert_eq!(hnsw_resume_max_bytes(0), 0);
    assert_eq!(hnsw_resume_max_bytes(-4), 0);
}

#[test]
fn crash_hooks_fire_only_when_armed_by_a_superuser() {
    assert!(crash_after_body_page_fires(true, 3, 3));
    assert!(!crash_after_body_page_fires(false, 3, 3));
    assert!(!crash_after_body_page_fires(true, 0, 0));
    assert!(!crash_after_body_page_fires(true, 3, 2));
    assert!(crash_at_phase_fires(true, CRASH_PHASE_POST_PIVOT, CRASH_PHASE_POST_PIVOT));
    assert!(!crash_at_phase_fires(true, CRASH_PHASE_POST_PIVOT, CRASH_PHASE_MID_RECLAIM));
    assert!(!crash_at_phase_fires(true, 0, 0));
    assert!(!crash_at_phase_fires(false, CRASH_PHASE_MID_RECLAIM, CRASH_PHASE_MID_RECLAIM));
}

#[test]
fn reloptions_fall_back_to_defaults() {
    assert_eq!(lists_from_relation(None), 100);
    assert_eq!(lists_from_relation(Some(0)), 100);
    assert_eq!(lists_from_relation(Some(250)), 250);
    assert_eq!(sbq_bits_from_relation(Some(4)), 4);
    assert_eq!(sbq_bits_from_relation(Some(9)), 0);
    assert_eq!(pq_subspaces_from_relation(Some(-1)), 0);
    assert_eq!(pq_subspaces_from_relation(Some(16)), 16);
    assert_eq!(pq_bits_from_relation(Some(8)), 4);
    assert!(separate_storage_from_relation(Some(1)));
    assert!(!separate_storage_from_relation(None));
    assert!(refine_sq8_from_relation(Some(1)));
    assert!(!refine_sq8_from_relation(Some(2)));
    assert!(refine_rabitq_from_relation(Some(2)));
    assert_eq!(rabitq_bits_from_relation(None), 7);
    assert_eq!(rabitq_bits_from_relation(Some(3)), 3);
    assert_eq!(rabitq_bits_from_relation(Some(0)), 7);
    assert_eq!(degree_bound_from_relation(None), 32);
    assert_eq!(degree_bound_from_relation(Some(40)), 64);
    assert_eq!(degree_bound_from_relation(Some(1000)), 512);
    assert_eq!(degree_bound_from_relation(Some(1)), 32);
}
