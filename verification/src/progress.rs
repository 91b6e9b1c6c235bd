//! Progress reporting: the renderer announces the fixed total before any file
//! is rendered and the number of processed files after each one; the consumer
//! derives a percentage, with an empty scan immediately complete.

use vstd::prelude::*;

verus! {

/// One progress event: how many files are done out of a total that is fixed
/// when the scan starts.
#[derive(Clone, Copy, Debug, PartialEq, Eq, Structural)]
pub struct Progress {
    pub processed: usize,
    pub total: usize,
}

/// The percentage a consumer derives from an event; an empty file set is
/// reported as already complete.
pub fn progress_percent(processed: usize, total: usize) -> (pct: u32)
    requires
        processed <= total,
    ensures
        total == 0 ==> pct == 100,
        total > 0 ==> pct == (processed as int) * 100 / (total as int),
        pct <= 100,
{
    if total == 0 {
        100
    } else {
        let p: u128 = (processed as u128) * 100 / (total as u128);
        proof {
            assert((processed as int) * 100 / (total as int) <= 100) by (nonlinear_arith)
                requires
                    0 <= processed as int <= total as int,
                    total as int > 0,
            ;
            assert(p == (processed as int) * 100 / (total as int));
        }
        p as u32
    }
}

/// The first `k + 1` progress events of a scan of `total` files: processed
/// counts 0 through `k`, each against the same total.
pub open spec fn progress_events_upto(k: nat, total: nat) -> Seq<(nat, nat)>
    decreases k,
{
    if k == 0 {
        seq![(0nat, total)]
    } else {
        progress_events_upto((k - 1) as nat, total).push((k, total))
    }
}

/// The whole event sequence of a scan of `total` files.
pub open spec fn progress_trace(total: nat) -> Seq<(nat, nat)> {
    progress_events_upto(total, total)
}

proof fn lemma_events_upto(k: nat, total: nat)
    ensures
        progress_events_upto(k, total).len() == k + 1,
        forall|j: int|
            0 <= j <= k ==> progress_events_upto(k, total)[j] == (j as nat, total),
    decreases k,
{
    if k > 0 {
        lemma_events_upto((k - 1) as nat, total);
    }
}

/// The event sequence of a scan of `total` files has one event per file plus
/// the initial one, the j-th event reports j files processed against the
/// fixed total, and the final event's processed count equals the total.
pub proof fn lemma_final_progress(total: nat)
    ensures
        progress_trace(total).len() == total + 1,
        forall|j: int| 0 <= j <= total ==> progress_trace(total)[j] == (j as nat, total),
        progress_trace(total).last() == (total, total),
        progress_trace(total)[0] == (0nat, total),
{
    lemma_events_upto(total, total);
}

} // verus!
