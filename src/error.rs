use vstd::prelude::*;

verus! {

/// Why a block could not be prepared or committed.
#[derive(Clone, Copy, Debug, PartialEq, Eq, Structural)]
pub enum LedgerError {
    /// A checked addition, multiplication or division overflowed or divided by zero.
    ArithmeticOverflow,
    /// A single prover's reward exceeded the hard ceiling.
    RewardTooLarge,
    /// The puzzle accumulator rejected the solution set.
    AccumulatorFailure,
    /// The execution engine failed to speculate or to commit.
    ExecutionFailure,
    /// The epoch challenge could not be recomputed.
    InvalidEpochBoundary,
    /// The block does not extend the current head.
    InvalidBlock,
}

} // verus!
