//! Block production and chain-head advancement for a ledger whose blocks carry
//! an optional aggregated coinbase-puzzle solution.
//!
//! The library holds the consensus arithmetic (difficulty retargeting, coinbase
//! rewards, prover reward splits, supply accounting) and the decisions of the
//! commit protocol. The work of its collaborators (speculative execution,
//! durable commit, puzzle accumulation, signing) is done by the caller, who
//! hands the outcomes in as plain values.

pub mod error;
pub mod block;
pub mod target;
pub mod reward;
pub mod ledger;
pub mod laws;
pub mod transmissions;
