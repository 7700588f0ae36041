//! Effective values of the index access methods' session settings, computed from the raw setting
//! values: floors, clamps, the pgvector-alias precedence, and the superuser-gated crash hooks.
use vstd::prelude::*;

verus! {

pub const DEFAULT_PROBES: i32 = 10;
pub const MIN_PROBES: i32 = 1;
pub const MAX_PROBES: i32 = 32768;
pub const DEFAULT_EF_SEARCH: i32 = 64;
pub const MIN_EF_SEARCH: i32 = 1;
pub const MAX_EF_SEARCH: i32 = 1000;
pub const DEFAULT_OVER_FETCH: i32 = 1;
pub const MIN_OVER_FETCH: i32 = 1;
pub const MAX_OVER_FETCH: i32 = 64;
pub const DEFAULT_MAX_SCAN_TUPLES: i32 = 20000;
pub const DEFAULT_HNSW_RESUME_MAX_MB: i32 = 64;
pub const DEFAULT_VACUUM_PENDING_THRESHOLD: i32 = 16;
pub const DEFAULT_HNSW_TOMBSTONE_COMPACT_PCT: i32 = 20;
pub const DEFAULT_VACUUM_FOLD_MAX_MB: i32 = 1024;
pub const DEFAULT_ARROW_CACHE_MAX_ENTRIES: i32 = 16;
pub const DEFAULT_VECTORIZER_DEAD_LETTER_MAX: i32 = 1000;
pub const DEFAULT_HTTP_BREAKER_OPEN_MS: i32 = 30000;
pub const DEFAULT_AI_MAX_BATCH: i32 = 256;
/// Crash-hook phase: right after block 0 is pivoted, before reclaim.
pub const CRASH_PHASE_POST_PIVOT: i32 = 1;
/// Crash-hook phase: after the first reclaimed (emptied) page.
pub const CRASH_PHASE_MID_RECLAIM: i32 = 2;

pub open spec fn floor_at(v: int, lo: int) -> int {
    if v >= lo { v } else { lo }
}

/// The pending-fold threshold in pages (never below 1).
pub fn vacuum_pending_threshold(raw: i32) -> (r: u32)
    ensures
        r == floor_at(raw as int, 1),
{
    if raw >= 1 {
        raw as u32
    } else {
        1
    }
}

/// The tombstone-compaction percentage, clamped to `0..=100` (0 = disabled).
pub fn hnsw_tombstone_compact_pct(raw: i32) -> (r: i32)
    ensures
        r == (if raw < 0 { 0 } else if raw > 100 { 100 } else { raw as int }),
{
    if raw < 0 {
        0
    } else if raw > 100 {
        100
    } else {
        raw
    }
}

/// The fold size guard in MB (never below 0; 0 disables the guard).
pub fn vacuum_fold_max_mb(raw: i32) -> (r: u64)
    ensures
        r == floor_at(raw as int, 0),
{
    if raw >= 0 {
        raw as u64
    } else {
        0
    }
}

/// Max tables in the per-backend Arrow cache (never below 1).
pub fn arrow_cache_max_entries(raw: i32) -> (r: usize)
    ensures
        r == floor_at(raw as int, 1),
{
    if raw >= 1 {
        raw as usize
    } else {
        1
    }
}

/// Retained dead-letter rows per vectorizer job (never below 0).
pub fn vectorizer_dead_letter_max(raw: i32) -> (r: i32)
    ensures
        r == floor_at(raw as int, 0),
{
    if raw >= 0 {
        raw
    } else {
        0
    }
}

/// How long the AI circuit breaker stays open, in ms (never below 0).
pub fn http_breaker_open_ms(raw: i32) -> (r: u64)
    ensures
        r == floor_at(raw as int, 0),
{
    if raw >= 0 {
        raw as u64
    } else {
        0
    }
}

/// Max prompts per batched AI request (never below 1).
pub fn ai_max_batch(raw: i32) -> (r: usize)
    ensures
        r == floor_at(raw as int, 1),
{
    if raw >= 1 {
        raw as usize
    } else {
        1
    }
}

/// Precedence between a setting's own name and its pgvector alias: the own name wins when it
/// is off its default, otherwise the alias applies.
pub fn resolve_alias(native: i32, native_default: i32, alias: i32) -> (r: i32)
    ensures
        r == (if native != native_default { native } else { alias }),
{
    if native != native_default {
        native
    } else {
        alias
    }
}

/// The effective probes of a scan from `theodb_ivfflat.probes` and its `ivfflat.probes` alias
/// (never below 1).
pub fn probes(native: i32, alias: i32) -> (r: usize)
    ensures
        r == floor_at((if native != DEFAULT_PROBES { native } else { alias }) as int, MIN_PROBES as int),
{
    let v = resolve_alias(native, DEFAULT_PROBES, alias);
    if v >= MIN_PROBES {
        v as usize
    } else {
        MIN_PROBES as usize
    }
}

/// The effective `ef_search` of a scan from `theodb_hnsw.ef_search` and its `hnsw.ef_search`
/// alias (never below 1).
pub fn ef_search(native: i32, alias: i32) -> (r: usize)
    ensures
        r == floor_at((if native != DEFAULT_EF_SEARCH { native } else { alias }) as int, MIN_EF_SEARCH as int),
{
    let v = resolve_alias(native, DEFAULT_EF_SEARCH, alias);
    if v >= MIN_EF_SEARCH {
        v as usize
    } else {
        MIN_EF_SEARCH as usize
    }
}

/// The SBQ over-fetch factor (never below 1).
pub fn over_fetch(raw: i32) -> (r: usize)
    ensures
        r == floor_at(raw as int, MIN_OVER_FETCH as int),
{
    if raw >= MIN_OVER_FETCH {
        raw as usize
    } else {
        MIN_OVER_FETCH as usize
    }
}

/// The iterative-scan ceiling (never below 0; 0 turns the iterative scan off).
pub fn max_scan_tuples(raw: i32) -> (r: usize)
    ensures
        r == floor_at(raw as int, 0),
{
    if raw >= 0 {
        raw as usize
    } else {
        0
    }
}

/// The resume-frontier memory ceiling in bytes: the MB setting (never below 0) times 2^20,
/// saturating at the largest `usize` (0 = unbounded).
pub fn hnsw_resume_max_bytes(raw: i32) -> (r: usize)
    ensures
        r == (if floor_at(raw as int, 0) * 1048576 <= usize::MAX { floor_at(raw as int, 0) * 1048576 } else { usize::MAX as int }),
{
    let mb: usize = if raw >= 0 {
        raw as usize
    } else {
        0
    };
    match mb.checked_mul(1024 * 1024) {
        Some(v) => v,
        None => usize::MAX,
    }
}

/// Whether the fold's body-page crash hook fires after `pages_written` pages: only for a
/// superuser, only with the hook armed (> 0), and only at exactly that page.
pub fn crash_after_body_page_fires(is_superuser: bool, setting: i32, pages_written: u32) -> (r: bool)
    ensures
        r == (is_superuser && setting > 0 && pages_written == setting),
{
    is_superuser && setting > 0 && pages_written == setting as u32
}

/// Whether the fold's phase crash hook fires at `phase`: only for a superuser, only for a real
/// phase (non-zero), and only when the setting selects that phase.
pub fn crash_at_phase_fires(is_superuser: bool, setting: i32, phase: i32) -> (r: bool)
    ensures
        r == (is_superuser && phase != 0 && setting == phase),
{
    is_superuser && phase != 0 && setting == phase
}

} // verus!
