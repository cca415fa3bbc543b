//! Laws over runs of operations. Every mutating operation of `Giveaway`
//! keeps the state well formed and relates the states before and after it
//! by `state_step`; these lemmas take any run of such steps.
use vstd::prelude::*;

use crate::event::{status_rank, EventStatus};
use crate::giveaway::{state_step, state_wf, GiveawayView};
use crate::payout::PayoutStatus;

verus! {

/// A run of states, each well formed and each reached from the one before
/// by one operation.
pub open spec fn valid_run(run: Seq<GiveawayView>) -> bool {
    &&& forall|i: int| 0 <= i < run.len() ==> #[trigger] state_wf(run[i])
    &&& forall|i: int| 0 <= i < run.len() - 1 ==> #[trigger] state_step(run[i], run[i + 1])
}

/// Whether payout `j` of event `id` exists and is complete in `v`.
pub open spec fn is_complete(v: GiveawayView, id: int, j: int) -> bool {
    &&& 0 <= id < v.payouts.len()
    &&& 0 <= j < v.payouts[id].len()
    &&& v.payouts[id][j].status == PayoutStatus::Complete
}

/// How many times payout `j` of event `id` turns complete along `run`.
pub open spec fn completions(run: Seq<GiveawayView>, id: int, j: int) -> nat
    decreases run.len(),
{
    if run.len() < 2 {
        0
    } else {
        let prev = run.drop_last();
        completions(prev, id, j) + if !is_complete(prev.last(), id, j) && is_complete(
            run.last(),
            id,
            j,
        ) {
            1nat
        } else {
            0nat
        }
    }
}

proof fn lemma_step_keeps_complete(a: GiveawayView, b: GiveawayView, id: int, j: int)
    requires
        state_wf(a),
        state_wf(b),
        state_step(a, b),
        is_complete(a, id, j),
    ensures
        is_complete(b, id, j),
{
    assert(crate::giveaway::event_wf(a.events[id], a.payouts[id]));
    assert(a.events[id].status != EventStatus::Pending);
    assert(status_rank(a.events[id].status) <= status_rank(b.events[id].status));
    assert(crate::giveaway::payouts_step(a.payouts[id], b.payouts[id]));
    assert(b.payouts[id][j].account_id == a.payouts[id][j].account_id);
}

proof fn lemma_completions_bound(run: Seq<GiveawayView>, id: int, j: int)
    requires
        run.len() > 0,
        valid_run(run),
    ensures
        completions(run, id, j) <= if is_complete(run.last(), id, j) {
            1nat
        } else {
            0nat
        },
    decreases run.len(),
{
    if run.len() >= 2 {
        let prev = run.drop_last();
        assert(valid_run(prev)) by {
            assert forall|i: int| 0 <= i < prev.len() - 1 implies #[trigger] state_step(
                prev[i],
                prev[i + 1],
            ) by {
                assert(state_step(run[i], run[i + 1]));
            }
        }
        lemma_completions_bound(prev, id, j);
        let n = run.len() - 1;
        let h = n - 1;
        assert(state_step(run[h], run[h + 1]));
        assert(state_wf(run[n - 1]) && state_wf(run[n]));
        if is_complete(prev.last(), id, j) {
            lemma_step_keeps_complete(run[n - 1], run[n], id, j);
        }
    }
}

/// At most one completion: along any run of operations, a payout turns
/// from pending to complete at most once.
pub proof fn lemma_at_most_one_completion(run: Seq<GiveawayView>, id: int, j: int)
    requires
        valid_run(run),
    ensures
        completions(run, id, j) <= 1,
{
    if run.len() > 0 {
        lemma_completions_bound(run, id, j);
    }
}

/// Status monotonicity: along any run of operations, an event's status
/// never moves backward, moves at most one step per operation, and starts
/// at `Pending`; so its successive statuses run through a prefix of
/// `Pending`, `Calculated`, `Distributed`.
pub proof fn lemma_status_monotone(run: Seq<GiveawayView>, id: int, i: int, k: int)
    requires
        valid_run(run),
        0 <= i <= k < run.len(),
        0 <= id < run[i].events.len(),
    ensures
        id < run[k].events.len(),
        status_rank(run[i].events[id].status) <= status_rank(run[k].events[id].status),
        k == i + 1 ==> status_rank(run[k].events[id].status) <= status_rank(
            run[i].events[id].status,
        ) + 1,
        i > 0 && id >= run[i - 1].events.len() ==> run[i].events[id].status
            == EventStatus::Pending,
    decreases k - i,
{
    if i > 0 {
        let h = i - 1;
        assert(state_step(run[h], run[h + 1]));
    }
    if k > i {
        assert(state_step(run[i], run[i + 1]));
        lemma_status_monotone(run, id, i + 1, k);
    }
}

} // verus!
