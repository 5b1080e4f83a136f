use crate::block::{
    supply_after, update_total_supply, Block, CoinbaseSolution, EpochChallenge, Header, Metadata,
    ProverSolution, TransactionSet,
};
use crate::error::LedgerError;
use crate::reward::{
    coinbase_reward, coinbase_reward_spec, cumulative_proof_target, cumulative_target, prover_rewards,
    prover_rewards_spec,
};
use crate::target::{coinbase_target, coinbase_target_spec, min_int, proof_target, proof_target_spec};
use vstd::prelude::*;

verus! {

/// The consensus constants of a network.
#[derive(Clone, Copy, Debug, PartialEq, Eq, Structural)]
pub struct NetworkParams {
    pub id: u16,
    pub starting_supply: u64,
    /// The expected number of seconds between coinbase-bearing blocks.
    pub anchor_time: u16,
    pub blocks_per_epoch: u32,
    pub genesis_coinbase_target: u64,
    pub genesis_proof_target: u64,
}

impl NetworkParams {
    /// Anchor time and epoch length are positive.
    pub open spec fn valid(&self) -> bool {
        self.anchor_time > 0 && self.blocks_per_epoch > 0
    }
}

/// What committing a block durably produced: the block's hash and the state root after it.
#[derive(Clone, Copy, Debug, PartialEq, Eq)]
pub struct CommitReceipt {
    pub block_hash: [u8; 32],
    pub state_root: [u8; 32],
}

/// The abstract state of a ledger: its parameters, its head block with that block's hash,
/// the state root after the head, and the cached epoch challenge.
pub struct LedgerState {
    pub params: NetworkParams,
    pub block: Block,
    pub hash: [u8; 32],
    pub state_root: [u8; 32],
    pub epoch_challenge: Option<EpochChallenge>,
}

/// The solutions handed in, with an absent list read as an empty one.
pub open spec fn solution_seq(solutions: Option<Vec<ProverSolution>>) -> Seq<ProverSolution> {
    match solutions {
        Some(v) => v@,
        None => Seq::empty(),
    }
}

/// The accumulator point of a block without a coinbase: the additive identity.
pub const IDENTITY_POINT: [u8; 32] = [0, 0, 0, 0, 0, 0, 0, 0, 0, 0, 0, 0, 0, 0, 0, 0, 0, 0, 0, 0, 0, 0, 0, 0, 0, 0, 0, 0, 0, 0, 0, 0];

impl LedgerState {
    pub open spec fn metadata(&self) -> Metadata {
        self.block.header.metadata
    }

    /// The block that preparation assembles from this head, or the first error on the way.
    ///
    /// With prover solutions present, the accumulator must have produced a coinbase
    /// solution, and the prover reward split must succeed (its result is not paid out).
    /// Round and height advance by one; the cumulative weight grows by the cumulative
    /// proof target, saturating; the supply follows the speculated transactions; the
    /// targets are retargeted; the last coinbase target and timestamp move only with a
    /// coinbase.
    pub open spec fn prepared(
        &self,
        candidate_solutions: Option<Vec<ProverSolution>>,
        accumulated: Option<CoinbaseSolution>,
        speculated: Option<TransactionSet>,
        next_timestamp: i64,
    ) -> Result<Block, LedgerError> {
        let m = self.metadata();
        let p = self.params;
        let sols = solution_seq(candidate_solutions);
        let present = sols.len() > 0;
        let cumulative = if present { cumulative_target(sols) } else { 0 };
        if present && accumulated is None {
            Err(LedgerError::AccumulatorFailure)
        } else if m.round == u64::MAX || m.height == u32::MAX {
            Err(LedgerError::ArithmeticOverflow)
        } else if speculated is None {
            Err(LedgerError::ExecutionFailure)
        } else {
            let txs = speculated->Some_0;
            let next_height = m.height + 1;
            let reward = coinbase_reward_spec(
                m.last_coinbase_timestamp as int,
                next_timestamp as int,
                next_height,
                p.starting_supply as int,
                p.anchor_time as int,
            );
            match supply_after(m.total_supply_in_microcredits as int, txs.transactions@, txs.transactions@.len()) {
                None => Err(LedgerError::ArithmeticOverflow),
                Some(supply) => if present && prover_rewards_spec(reward, sols) is Err {
                    Err(prover_rewards_spec(reward, sols)->Err_0)
                } else {
                    match coinbase_target_spec(
                        m.last_coinbase_target as int,
                        m.last_coinbase_timestamp as int,
                        next_timestamp as int,
                        p.anchor_time as int,
                        p.blocks_per_epoch as int,
                        p.genesis_coinbase_target as int,
                    ) {
                        None => Err(LedgerError::ArithmeticOverflow),
                        Some(ct) => Ok(
                            Block {
                                previous_hash: self.hash,
                                header: Header {
                                    previous_state_root: self.state_root,
                                    transactions_root: txs.transactions_root,
                                    finalize_root: txs.finalize_root,
                                    coinbase_accumulator_point: if present {
                                        accumulated->Some_0.accumulator_point
                                    } else {
                                        IDENTITY_POINT
                                    },
                                    metadata: Metadata {
                                        network: p.id,
                                        round: (m.round + 1) as u64,
                                        height: (m.height + 1) as u32,
                                        total_supply_in_microcredits: supply as u64,
                                        cumulative_weight: min_int(
                                            u128::MAX as int,
                                            m.cumulative_weight + cumulative,
                                        ) as u128,
                                        coinbase_target: ct as u64,
                                        proof_target: proof_target_spec(ct, p.genesis_proof_target as int) as u64,
                                        last_coinbase_target: if present {
                                            ct as u64
                                        } else {
                                            m.last_coinbase_target
                                        },
                                        last_coinbase_timestamp: if present {
                                            next_timestamp
                                        } else {
                                            m.last_coinbase_timestamp
                                        },
                                        timestamp: next_timestamp,
                                    },
                                },
                                transactions: txs,
                                coinbase: if present { accumulated } else { None },
                            },
                        ),
                    }
                },
            }
        }
    }

    /// `block` extends the head: it names the head's hash as its predecessor, it is one
    /// higher, of a later round, and it does not lower the cumulative weight.
    pub open spec fn extends(&self, block: Block) -> bool {
        &&& block.previous_hash@ == self.hash@
        &&& block.header.metadata.height == self.metadata().height + 1
        &&& block.header.metadata.round > self.metadata().round
        &&& block.header.metadata.cumulative_weight >= self.metadata().cumulative_weight
    }

    /// The state after `block` was durably committed with the given receipt: the block is
    /// the head, and the epoch challenge is as it was.
    pub open spec fn after_commit(&self, block: Block, receipt: CommitReceipt) -> LedgerState {
        LedgerState {
            params: self.params,
            block: block,
            hash: receipt.block_hash,
            state_root: receipt.state_root,
            epoch_challenge: self.epoch_challenge,
        }
    }

    /// The epoch challenge must be recomputed after a block at `height`: an epoch starts
    /// there, or no challenge is cached.
    pub open spec fn epoch_challenge_due(&self, height: u32) -> bool {
        height % self.params.blocks_per_epoch == 0 || self.epoch_challenge is None
    }

    /// `next` is a state that a successful commit leads to from this one.
    pub open spec fn commits_to(&self, next: LedgerState) -> bool {
        self.extends(next.block) && next.params == self.params
    }
}

/// The chain head and epoch-challenge cache of a ledger.
///
/// Readers take snapshots through the accessors; a commit takes `&mut self`, so commits
/// are serialised by whoever owns the ledger.
pub struct Ledger {
    params: NetworkParams,
    current_block: Block,
    current_hash: [u8; 32],
    current_state_root: [u8; 32],
    current_epoch_challenge: Option<EpochChallenge>,
}

impl View for Ledger {
    type V = LedgerState;

    closed spec fn view(&self) -> LedgerState {
        LedgerState {
            params: self.params,
            block: self.current_block,
            hash: self.current_hash,
            state_root: self.current_state_root,
            epoch_challenge: self.current_epoch_challenge,
        }
    }
}

/// Whether two digests are equal, byte for byte.
fn same_digest(a: &[u8; 32], b: &[u8; 32]) -> (r: bool)
    ensures
        r == (a@ == b@),
{
    let mut i: usize = 0;
    while i < 32
        invariant
            i <= 32,
            a@.len() == 32,
            b@.len() == 32,
            forall|j: int| 0 <= j < i ==> a@[j] == b@[j],
        decreases 32 - i,
    {
        if a[i] != b[i] {
            return false;
        }
        i = i + 1;
    }
    proof {
        assert(a@ =~= b@);
    }
    true
}

impl Ledger {
    pub open spec fn wf(&self) -> bool {
        self@.params.valid()
    }

    /// A ledger whose head is `block`, with the given hash, state root and epoch challenge;
    /// `None` unless the parameters are valid.
    pub fn new(
        params: NetworkParams,
        block: Block,
        hash: [u8; 32],
        state_root: [u8; 32],
        epoch_challenge: Option<EpochChallenge>,
    ) -> (r: Option<Ledger>)
        ensures
            r is Some <==> params.valid(),
            r is Some ==> r->Some_0.wf() && r->Some_0@ == (LedgerState {
                params,
                block,
                hash,
                state_root,
                epoch_challenge,
            }),
    {
        if params.anchor_time == 0 || params.blocks_per_epoch == 0 {
            return None;
        }
        Some(
            Ledger {
                params,
                current_block: block,
                current_hash: hash,
                current_state_root: state_root,
                current_epoch_challenge: epoch_challenge,
            },
        )
    }

    pub fn params(&self) -> (r: NetworkParams)
        ensures
            r == self@.params,
    {
        self.params
    }

    pub fn latest_block(&self) -> (r: &Block)
        ensures
            *r == self@.block,
    {
        &self.current_block
    }

    pub fn latest_hash(&self) -> (r: [u8; 32])
        ensures
            r == self@.hash,
    {
        self.current_hash
    }

    pub fn latest_state_root(&self) -> (r: [u8; 32])
        ensures
            r == self@.state_root,
    {
        self.current_state_root
    }

    pub fn latest_height(&self) -> (r: u32)
        ensures
            r == self@.metadata().height,
    {
        self.current_block.header.metadata.height
    }

    pub fn latest_round(&self) -> (r: u64)
        ensures
            r == self@.metadata().round,
    {
        self.current_block.header.metadata.round
    }

    pub fn latest_epoch_challenge(&self) -> (r: Option<EpochChallenge>)
        ensures
            r == self@.epoch_challenge,
    {
        self.current_epoch_challenge
    }
    /// Assembles a candidate for the next block from the head.
    ///
    /// The caller hands in what the collaborators produced: the prover solutions, the
    /// coinbase solution that the puzzle accumulator made of them against the current
    /// epoch challenge (`None` where it rejected them or no challenge was cached), the
    /// transaction set that speculative execution at the next height produced (`None`
    /// where it failed), and the current time. The candidate is not signed and not part of
    /// the chain; the head is not touched.
    pub fn prepare_advance_to_next_block(
        &self,
        candidate_solutions: Option<Vec<ProverSolution>>,
        accumulated: Option<CoinbaseSolution>,
        speculated: Option<TransactionSet>,
        next_timestamp: i64,
    ) -> (r: Result<Block, LedgerError>)
        requires
            self.wf(),
        ensures
            r == self@.prepared(candidate_solutions, accumulated, speculated, next_timestamp),
    {
        let latest = self.current_block.header.metadata;
        let no_solutions: Vec<ProverSolution> = Vec::new();
        let solutions: &Vec<ProverSolution> = match &candidate_solutions {
            Some(v) => v,
            None => &no_solutions,
        };
        assert(solutions@ == solution_seq(candidate_solutions));
        let present = solutions.len() > 0;

        // Accumulate the prover solutions into a coinbase solution.
        let (coinbase, coinbase_accumulator_point, cumulative_proof_target) = if present {
            match accumulated {
                None => return Err(LedgerError::AccumulatorFailure),
                Some(c) => {
                    let point = c.accumulator_point;
                    let cumulative = cumulative_proof_target(solutions);
                    (Some(c), point, cumulative)
                },
            }
        } else {
            (None, IDENTITY_POINT, 0u128)
        };

        // Advance the round, the height and the cumulative weight.
        if latest.round == u64::MAX || latest.height == u32::MAX {
            return Err(LedgerError::ArithmeticOverflow);
        }
        let next_round = latest.round + 1;
        let next_height = latest.height + 1;
        let next_cumulative_weight = latest.cumulative_weight.saturating_add(cumulative_proof_target);

        // Take the transactions that speculative execution selected.
        let transactions = match speculated {
            None => return Err(LedgerError::ExecutionFailure),
            Some(t) => t,
        };
        let next_total_supply = match update_total_supply(
            latest.total_supply_in_microcredits,
            &transactions.transactions,
        ) {
            Err(e) => return Err(e),
            Ok(s) => s,
        };

        // Split the coinbase reward among the provers. The split is checked but not paid
        // out: provers are credited through the coinbase solution the block carries.
        if present {
            let reward = coinbase_reward(
                latest.last_coinbase_timestamp,
                next_timestamp,
                next_height,
                self.params.starting_supply,
                self.params.anchor_time,
            );
            match prover_rewards(reward, solutions) {
                Err(e) => return Err(e),
                Ok(_) => {},
            }
        }

        // Retarget.
        let next_coinbase_target = match coinbase_target(
            latest.last_coinbase_target,
            latest.last_coinbase_timestamp,
            next_timestamp,
            self.params.anchor_time,
            self.params.blocks_per_epoch,
            self.params.genesis_coinbase_target,
        ) {
            Err(e) => return Err(e),
            Ok(t) => t,
        };
        let next_proof_target = proof_target(next_coinbase_target, self.params.genesis_proof_target);
        let (next_last_coinbase_target, next_last_coinbase_timestamp) = if present {
            (next_coinbase_target, next_timestamp)
        } else {
            (latest.last_coinbase_target, latest.last_coinbase_timestamp)
        };

        let metadata = Metadata {
            network: self.params.id,
            round: next_round,
            height: next_height,
            total_supply_in_microcredits: next_total_supply,
            cumulative_weight: next_cumulative_weight,
            coinbase_target: next_coinbase_target,
            proof_target: next_proof_target,
            last_coinbase_target: next_last_coinbase_target,
            last_coinbase_timestamp: next_last_coinbase_timestamp,
            timestamp: next_timestamp,
        };
        let header = Header {
            previous_state_root: self.current_state_root,
            transactions_root: transactions.transactions_root,
            finalize_root: transactions.finalize_root,
            coinbase_accumulator_point,
            metadata,
        };
        Ok(Block { previous_hash: self.current_hash, header, transactions, coinbase })
    }

    /// Checks that `block` extends the head; `InvalidBlock` where it does not.
    pub fn check_next_block(&self, block: &Block) -> (r: Result<(), LedgerError>)
        ensures
            r is Ok <==> self@.extends(*block),
            r is Err ==> r == Err::<(), LedgerError>(LedgerError::InvalidBlock),
    {
        let latest = &self.current_block.header.metadata;
        let next = &block.header.metadata;
        if !same_digest(&block.previous_hash, &self.current_hash) || latest.height == u32::MAX || next.height
            != latest.height + 1 || next.round <= latest.round || next.cumulative_weight < latest.cumulative_weight {
            return Err(LedgerError::InvalidBlock);
        }
        Ok(())
    }

    /// Installs `block` as the head, once the execution engine has durably applied it.
    ///
    /// The caller checks the block with `check_next_block`, commits it to the engine, and
    /// hands in the receipt (`None` where the commit failed). On success the result says
    /// whether the epoch challenge must now be recomputed for the block's height and
    /// handed to `update_epoch_challenge`. On any error the head is unchanged.
    pub fn advance_to_next_block(&mut self, block: Block, receipt: Option<CommitReceipt>) -> (r: Result<
        bool,
        LedgerError,
    >)
        requires
            old(self).wf(),
        ensures
            final(self).wf(),
            !old(self)@.extends(block) ==> r == Err::<bool, LedgerError>(LedgerError::InvalidBlock)
                && final(self)@ == old(self)@,
            old(self)@.extends(block) && receipt is None ==> r == Err::<bool, LedgerError>(
                LedgerError::ExecutionFailure,
            ) && final(self)@ == old(self)@,
            old(self)@.extends(block) && receipt is Some ==> r == Ok::<bool, LedgerError>(
                old(self)@.epoch_challenge_due(block.header.metadata.height),
            ) && final(self)@ == old(self)@.after_commit(block, receipt->Some_0),
            r is Ok ==> old(self)@.commits_to(final(self)@),
    {
        match self.check_next_block(&block) {
            Err(e) => return Err(e),
            Ok(()) => {},
        }
        let receipt = match receipt {
            None => return Err(LedgerError::ExecutionFailure),
            Some(c) => c,
        };
        let height = block.header.metadata.height;
        self.current_block = block;
        self.current_hash = receipt.block_hash;
        self.current_state_root = receipt.state_root;
        Ok(height % self.params.blocks_per_epoch == 0 || self.current_epoch_challenge.is_none())
    }

    /// Caches the epoch challenge recomputed after a commit. `None` means recomputing it
    /// failed: the cache is cleared, so the next commit recomputes it, and the result is
    /// `InvalidEpochBoundary`, which does not undo the commit.
    pub fn update_epoch_challenge(&mut self, epoch_challenge: Option<EpochChallenge>) -> (r: Result<(), LedgerError>)
        ensures
            final(self)@ == (LedgerState { epoch_challenge, ..old(self)@ }),
            final(self).wf() == old(self).wf(),
            r is Ok <==> epoch_challenge is Some,
            r is Err ==> r == Err::<(), LedgerError>(LedgerError::InvalidEpochBoundary),
    {
        let recomputed = epoch_challenge.is_some();
        self.current_epoch_challenge = epoch_challenge;
        if recomputed {
            Ok(())
        } else {
            Err(LedgerError::InvalidEpochBoundary)
        }
    }
}

} // verus!
