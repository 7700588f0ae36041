//! The crash-safe VACUUM fold: where the next generation's body goes, and the order of page
//! writes that keeps block 0 (the pivot) and the live generation untouched until the pivot.
use vstd::prelude::*;

verus! {

/// Where the next generation body (`need` pages) goes, given the live generation's first block
/// and the relation's current size: block 1, the dead low region `[1, cur_gen_start)`, when the
/// body fits there; else at or past the tail. Base 1 is reserved for the reclaimed region, so a
/// relation of at most one block extends from block 2.
pub open spec fn spec_free_region(cur_gen_start: u32, nblocks: u32, need: u32) -> u32 {
    if cur_gen_start > 1 && cur_gen_start - 1 >= need {
        1
    } else if nblocks >= 2 {
        nblocks
    } else {
        2
    }
}

/// Choose the base block for the next generation body: reuse the dead low region when the new
/// generation fits below the live one, else extend at the tail.
pub fn free_region(cur_gen_start: u32, nblocks: u32, need: u32) -> (r: u32)
    ensures
        r == spec_free_region(cur_gen_start, nblocks, need),
{
    if cur_gen_start > 1 && cur_gen_start - 1 >= need {
        1
    } else if nblocks >= 2 {
        nblocks
    } else {
        2
    }
}

/// Whenever `free_region` reuses the low region (returns 1), the body `[1, 1 + need)` stays
/// strictly below the live generation, which needs a non-empty dead low region; otherwise the base
/// lies at or past the relation's tail. Either way block 0 is never a body block.
pub proof fn lemma_free_region_never_touches_live(cur_gen_start: u32, nblocks: u32, need: u32)
    ensures
        spec_free_region(cur_gen_start, nblocks, need) >= 1,
        spec_free_region(cur_gen_start, nblocks, need) == 1 ==> 1 + need <= cur_gen_start && cur_gen_start > 1,
        spec_free_region(cur_gen_start, nblocks, need) != 1 ==> spec_free_region(cur_gen_start, nblocks, need) >= nblocks,
{
}

/// What a VACUUM cleanup pass does with an index.
#[derive(Clone, Copy, Debug, PartialEq, Eq, Structural)]
pub enum CleanupAction {
    /// Return the statistics as they are.
    Nothing,
    /// Fold the pending region into the main structure (no dead tuples to drop).
    FoldPending,
    /// Record the relation's page count in the statistics of the bulk delete that ran.
    ReportPages,
}

/// The cleanup decision: nothing for an ANALYZE-only pass; after a bulk delete, report the page
/// count; otherwise (an insert-only workload) fold the pending region once it has more pages than
/// the threshold setting (never below 1).
pub fn vacuum_cleanup_action(analyze_only: bool, bulkdelete_ran: bool, pending_pages: u32, threshold_setting: i32) -> (r:
    CleanupAction)
    ensures
        r == (if analyze_only {
            CleanupAction::Nothing
        } else if bulkdelete_ran {
            CleanupAction::ReportPages
        } else if pending_pages > crate::guc::floor_at(threshold_setting as int, 1) {
            CleanupAction::FoldPending
        } else {
            CleanupAction::Nothing
        }),
{
    if analyze_only {
        return CleanupAction::Nothing;
    }
    if bulkdelete_ran {
        return CleanupAction::ReportPages;
    }
    if pending_pages > crate::guc::vacuum_pending_threshold(threshold_setting) {
        CleanupAction::FoldPending
    } else {
        CleanupAction::Nothing
    }
}

/// One page write of a fold, in the order it is made.
#[derive(Clone, Copy, Debug, PartialEq, Eq, Structural)]
pub enum FoldAction {
    /// Extend the relation by one empty page (the body starts past the current end).
    Pad { block: u32 },
    /// Write body page `page` to `block`: re-initialise it in place when it exists, else extend.
    Body { page: u32, block: u32, reinit: bool },
    /// Replace block 0 with the new meta: the generation switch.
    Pivot,
    /// Empty a block past the new generation.
    Reclaim { block: u32 },
}

/// The relation's size once the body of `npages` pages at `base` is written into a relation of
/// `nblocks` blocks.
pub open spec fn fold_end(base: int, npages: int, nblocks: int) -> int {
    if base + npages >= nblocks { base + npages } else { nblocks }
}

/// Empty pages padded before the body (when the body starts past the relation's end).
pub open spec fn pad_count(base: int, nblocks: int) -> int {
    if base > nblocks { base - nblocks } else { 0 }
}

/// The writes of a fold, in order: padding to `base`, body page `i` at `base + i`, the pivot of
/// block 0, then every block past the new generation emptied.
pub open spec fn spec_fold_actions(base: int, npages: int, nblocks: int) -> Seq<FoldAction> {
    let pads = pad_count(base, nblocks);
    let end = fold_end(base, npages, nblocks);
    Seq::new(pads as nat, |i: int| FoldAction::Pad { block: (nblocks + i) as u32 }) + Seq::new(
        npages as nat,
        |i: int| FoldAction::Body { page: i as u32, block: (base + i) as u32, reinit: base + i < nblocks },
    ) + seq![FoldAction::Pivot] + Seq::new(
        (end - (base + npages)) as nat,
        |j: int| FoldAction::Reclaim { block: (base + npages + j) as u32 },
    )
}

/// Plan a fold of `npages` body pages based at `base` into a relation of `nblocks` blocks: the
/// ordered page writes, block 0 last but for the reclaim of what lies past the new generation.
pub fn fold_actions(base: u32, npages: u32, nblocks: u32) -> (r: Vec<FoldAction>)
    requires
        base + npages <= u32::MAX,
    ensures
        r@ == spec_fold_actions(base as int, npages as int, nblocks as int),
{
    let ghost want = spec_fold_actions(base as int, npages as int, nblocks as int);
    let mut out: Vec<FoldAction> = Vec::new();
    let mut b: u32 = nblocks;
    while b < base
        invariant
            nblocks <= b <= base || (b == nblocks && nblocks >= base),
            out@ =~= Seq::new((b - nblocks) as nat, |i: int| FoldAction::Pad { block: (nblocks + i) as u32 }),
        decreases base - b,
    {
        out.push(FoldAction::Pad { block: b });
        b = b + 1;
    }
    let ghost pads = out@;
    assert(pads =~= Seq::new(pad_count(base as int, nblocks as int) as nat, |i: int| FoldAction::Pad { block: (nblocks + i) as u32 }));
    let mut i: u32 = 0;
    while i < npages
        invariant
            base + npages <= u32::MAX,
            i <= npages,
            out@ =~= pads + Seq::new(
                i as nat,
                |k: int| FoldAction::Body { page: k as u32, block: (base + k) as u32, reinit: base + k < nblocks },
            ),
        decreases npages - i,
    {
        out.push(FoldAction::Body { page: i, block: base + i, reinit: base + i < nblocks });
        i = i + 1;
    }
    let ghost head = out@;
    out.push(FoldAction::Pivot);
    let gen_end = base + npages;
    let end = if gen_end >= nblocks { gen_end } else { nblocks };
    let mut b: u32 = gen_end;
    while b < end
        invariant
            gen_end == base + npages,
            gen_end <= b <= end,
            out@ =~= head + seq![FoldAction::Pivot] + Seq::new(
                (b - gen_end) as nat,
                |j: int| FoldAction::Reclaim { block: (gen_end + j) as u32 },
            ),
        decreases end - b,
    {
        out.push(FoldAction::Reclaim { block: b });
        b = b + 1;
    }
    out
}

/// Before the pivot a fold writes only fresh blocks (past the relation's end) or blocks at or
/// after `base`, never block 0; so a body placed by `free_region` never touches the live
/// generation or the meta until the pivot, which comes after every body page.
pub proof fn lemma_fold_order(base: u32, npages: u32, nblocks: u32, cur_gen_start: u32)
    requires
        nblocks >= 1,
        base + npages <= u32::MAX,
        base == spec_free_region(cur_gen_start, nblocks, npages),
    ensures
        ({
            let acts = spec_fold_actions(base as int, npages as int, nblocks as int);
            let p = pad_count(base as int, nblocks as int) + npages;
            &&& acts[p] == FoldAction::Pivot
            &&& forall|k: int| 0 <= k < acts.len() && k != p ==> !(#[trigger] acts[k] is Pivot)
            &&& forall|k: int| 0 <= k < p ==> match #[trigger] acts[k] {
                FoldAction::Pad { block } => block >= nblocks && block >= 1,
                FoldAction::Body { block, .. } => block >= 1 && (block < cur_gen_start || block >= nblocks),
                _ => false,
            }
            &&& forall|i: int| 0 <= i < npages ==> (#[trigger] acts[pad_count(base as int, nblocks as int) + i] matches FoldAction::Body {
                page,
                ..
            } && page == i)
        }),
{
}

/// The page contents after one write of a fold (`meta` for block 0, `body[i]` for body page `i`).
pub open spec fn apply_action(
    pages: Seq<Seq<Seq<u8>>>,
    a: FoldAction,
    meta: Seq<u8>,
    body: Seq<Seq<Seq<u8>>>,
) -> Seq<Seq<Seq<u8>>> {
    match a {
        FoldAction::Pad { .. } => pages.push(Seq::empty()),
        FoldAction::Body { page, block, reinit } => if reinit {
            pages.update(block as int, body[page as int])
        } else {
            pages.push(body[page as int])
        },
        FoldAction::Pivot => pages.update(0, seq![meta]),
        FoldAction::Reclaim { block } => pages.update(block as int, Seq::empty()),
    }
}

/// The page contents after the first `k` writes of `acts`.
pub open spec fn run_actions(
    pages: Seq<Seq<Seq<u8>>>,
    acts: Seq<FoldAction>,
    k: int,
    meta: Seq<u8>,
    body: Seq<Seq<Seq<u8>>>,
) -> Seq<Seq<Seq<u8>>>
    decreases k,
{
    if k <= 0 {
        pages
    } else {
        apply_action(run_actions(pages, acts, k - 1, meta, body), acts[k - 1], meta, body)
    }
}

proof fn lemma_run_pads(pages: Seq<Seq<Seq<u8>>>, base: int, npages: int, meta: Seq<u8>, body: Seq<Seq<Seq<u8>>>, k: int)
    requires
        0 <= base,
        0 <= npages,
        base + npages <= u32::MAX,
        pages.len() <= u32::MAX,
        0 <= k <= pad_count(base, pages.len() as int),
    ensures
        ({
            let r = run_actions(pages, spec_fold_actions(base, npages, pages.len() as int), k, meta, body);
            &&& r.len() == pages.len() + k
            &&& forall|b: int| 0 <= b < pages.len() ==> #[trigger] r[b] == pages[b]
            &&& forall|b: int| pages.len() <= b < r.len() ==> #[trigger] r[b] == Seq::<Seq<u8>>::empty()
        }),
    decreases k,
{
    if k > 0 {
        lemma_run_pads(pages, base, npages, meta, body, k - 1);
    }
}

proof fn lemma_run_body(pages: Seq<Seq<Seq<u8>>>, base: int, npages: int, meta: Seq<u8>, body: Seq<Seq<Seq<u8>>>, i: int)
    requires
        1 <= base,
        0 <= npages,
        base + npages <= u32::MAX,
        pages.len() <= u32::MAX,
        0 <= i <= npages,
    ensures
        ({
            let n = pages.len() as int;
            let r = run_actions(pages, spec_fold_actions(base, npages, n), pad_count(base, n) + i, meta, body);
            &&& r.len() == (if base + i >= n { base + i } else { n })
            &&& forall|b: int| 0 <= b < n && !(base <= b < base + i) ==> #[trigger] r[b] == pages[b]
            &&& forall|b: int| n <= b < base ==> #[trigger] r[b] == Seq::<Seq<u8>>::empty()
            &&& forall|j: int| 0 <= j < i ==> #[trigger] r[base + j] == body[j]
        }),
    decreases i,
{
    let n = pages.len() as int;
    if i == 0 {
        lemma_run_pads(pages, base, npages, meta, body, pad_count(base, n));
    } else {
        lemma_run_body(pages, base, npages, meta, body, i - 1);
        let acts = spec_fold_actions(base, npages, n);
        assert(acts[pad_count(base, n) + i - 1] == FoldAction::Body {
            page: (i - 1) as u32,
            block: (base + i - 1) as u32,
            reinit: base + i - 1 < n,
        });
    }
}

proof fn lemma_run_reclaim(pages: Seq<Seq<Seq<u8>>>, base: int, npages: int, meta: Seq<u8>, body: Seq<Seq<Seq<u8>>>, j: int)
    requires
        1 <= base,
        0 <= npages,
        base + npages <= u32::MAX,
        1 <= pages.len() <= u32::MAX,
        0 <= j <= fold_end(base, npages, pages.len() as int) - (base + npages),
    ensures
        ({
            let n = pages.len() as int;
            let r = run_actions(pages, spec_fold_actions(base, npages, n), pad_count(base, n) + npages + 1 + j, meta, body);
            &&& r.len() == fold_end(base, npages, n)
            &&& r[0] == seq![meta]
            &&& forall|b: int| 1 <= b < n && b < base ==> #[trigger] r[b] == pages[b]
            &&& forall|b: int| n <= b < base ==> #[trigger] r[b] == Seq::<Seq<u8>>::empty()
            &&& forall|k: int| 0 <= k < npages ==> #[trigger] r[base + k] == body[k]
            &&& forall|b: int| base + npages <= b < base + npages + j ==> #[trigger] r[b] == Seq::<Seq<u8>>::empty()
            &&& forall|b: int| base + npages + j <= b < r.len() ==> #[trigger] r[b] == pages[b]
        }),
    decreases j,
{
    let n = pages.len() as int;
    let acts = spec_fold_actions(base, npages, n);
    if j == 0 {
        lemma_run_body(pages, base, npages, meta, body, npages);
        assert(acts[pad_count(base, n) + npages] == FoldAction::Pivot);
    } else {
        lemma_run_reclaim(pages, base, npages, meta, body, j - 1);
        assert(acts[pad_count(base, n) + npages + 1 + j - 1] == FoldAction::Reclaim { block: (base + npages + j - 1) as u32 });
    }
}

/// What a fold leaves in the relation: block 0 holds the new meta, blocks `base..` the body,
/// every block past the new generation is empty, and the blocks between the meta and `base`
/// keep what they held (or are empty pages padded past the old end).
pub proof fn lemma_fold_result(pages: Seq<Seq<Seq<u8>>>, base: u32, meta: Seq<u8>, body: Seq<Seq<Seq<u8>>>)
    requires
        1 <= pages.len() <= u32::MAX,
        1 <= base,
        base + body.len() <= u32::MAX,
    ensures
        ({
            let n = pages.len() as int;
            let npages = body.len() as int;
            let acts = spec_fold_actions(base as int, npages, n);
            let r = run_actions(pages, acts, acts.len() as int, meta, body);
            &&& r.len() == fold_end(base as int, npages, n)
            &&& r[0] == seq![meta]
            &&& forall|i: int| 0 <= i < npages ==> #[trigger] r[base + i] == body[i]
            &&& forall|b: int| base + npages <= b < r.len() ==> #[trigger] r[b] == Seq::<Seq<u8>>::empty()
            &&& forall|b: int| 1 <= b < base && b < n ==> #[trigger] r[b] == pages[b]
            &&& forall|b: int| n <= b < base ==> #[trigger] r[b] == Seq::<Seq<u8>>::empty()
        }),
{
    let n = pages.len() as int;
    let npages = body.len() as int;
    lemma_run_reclaim(pages, base as int, npages, meta, body, fold_end(base as int, npages, n) - (base + npages));
}

} // verus!
