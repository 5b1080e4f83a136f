use crate::block::{CoinbaseSolution, ProverSolution, TransactionSet};
use crate::ledger::{solution_seq, CommitReceipt, LedgerState};
use crate::reward::lemma_target_sum_nonneg;
use vstd::prelude::*;

verus! {

/// A successfully prepared candidate is one higher than the head and of a later round.
pub proof fn lemma_prepare_advances_height_and_round(
    l: LedgerState,
    candidate_solutions: Option<Vec<ProverSolution>>,
    accumulated: Option<CoinbaseSolution>,
    speculated: Option<TransactionSet>,
    next_timestamp: i64,
)
    requires
        l.prepared(candidate_solutions, accumulated, speculated, next_timestamp) is Ok,
    ensures
        ({
            let b = l.prepared(candidate_solutions, accumulated, speculated, next_timestamp)->Ok_0;
            &&& b.header.metadata.height == l.metadata().height + 1
            &&& b.header.metadata.round == l.metadata().round + 1
            &&& b.header.metadata.round > l.metadata().round
        }),
{
}

/// Without prover solutions (none handed in, or an empty list), a prepared candidate has
/// no coinbase and carries the head's last coinbase target and timestamp unchanged.
pub proof fn lemma_no_solutions_no_coinbase(
    l: LedgerState,
    candidate_solutions: Option<Vec<ProverSolution>>,
    accumulated: Option<CoinbaseSolution>,
    speculated: Option<TransactionSet>,
    next_timestamp: i64,
)
    requires
        solution_seq(candidate_solutions).len() == 0,
        l.prepared(candidate_solutions, accumulated, speculated, next_timestamp) is Ok,
    ensures
        ({
            let b = l.prepared(candidate_solutions, accumulated, speculated, next_timestamp)->Ok_0;
            &&& b.coinbase is None
            &&& b.header.metadata.last_coinbase_target == l.metadata().last_coinbase_target
            &&& b.header.metadata.last_coinbase_timestamp == l.metadata().last_coinbase_timestamp
        }),
{
}

/// A prepared candidate extends the head it was prepared from, and committing it makes it
/// the head exactly as prepared: height, round, weight and targets are not adjusted.
pub proof fn lemma_prepare_then_commit(
    l: LedgerState,
    candidate_solutions: Option<Vec<ProverSolution>>,
    accumulated: Option<CoinbaseSolution>,
    speculated: Option<TransactionSet>,
    next_timestamp: i64,
    receipt: CommitReceipt,
)
    requires
        l.prepared(candidate_solutions, accumulated, speculated, next_timestamp) is Ok,
    ensures
        ({
            let b = l.prepared(candidate_solutions, accumulated, speculated, next_timestamp)->Ok_0;
            let next = l.after_commit(b, receipt);
            &&& l.extends(b)
            &&& l.commits_to(next)
            &&& next.block == b
            &&& next.metadata() == b.header.metadata
        }),
{
    let sols = solution_seq(candidate_solutions);
    lemma_target_sum_nonneg(sols, sols.len());
}

/// Along any sequence of successful commits the cumulative weight never decreases.
pub proof fn lemma_cumulative_weight_monotone(states: Seq<LedgerState>, i: int, j: int)
    requires
        forall|k: int| 0 <= k < states.len() - 1 ==> #[trigger] states[k].commits_to(states[k + 1]),
        0 <= i <= j < states.len(),
    ensures
        states[i].metadata().cumulative_weight <= states[j].metadata().cumulative_weight,
    decreases j - i,
{
    if i < j {
        lemma_cumulative_weight_monotone(states, i, j - 1);
        let k = j - 1;
        assert(states[k].commits_to(states[k + 1]));
    }
}

} // verus!
