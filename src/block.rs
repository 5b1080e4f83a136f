use crate::error::LedgerError;
use vstd::prelude::*;

verus! {

/// A prover's solution to the coinbase puzzle, reduced to what the reward split reads:
/// the prover's address and the difficulty target the solution reached.
#[derive(Clone, Copy, Debug, PartialEq, Eq)]
pub struct ProverSolution {
    pub address: [u8; 32],
    pub target: u64,
}

/// The aggregate of a block's prover solutions, as the puzzle accumulator returns it.
#[derive(Clone, Debug, PartialEq, Eq)]
pub struct CoinbaseSolution {
    /// The accumulator commitment point that the block header carries.
    pub accumulator_point: [u8; 32],
    /// The encoded aggregate solution.
    pub proof: Vec<u8>,
}

/// A confirmed transaction, reduced to its identity and its effect on the supply.
#[derive(Clone, Copy, Debug, PartialEq, Eq)]
pub struct Transaction {
    pub id: [u8; 32],
    /// Microcredits that the transaction creates.
    pub minted: u64,
    /// Microcredits that the transaction destroys (fees included).
    pub burned: u64,
}

/// The authoritative transaction set that speculative execution produced, with its roots.
#[derive(Clone, Debug, PartialEq, Eq)]
pub struct TransactionSet {
    pub transactions: Vec<Transaction>,
    pub transactions_root: [u8; 32],
    pub finalize_root: [u8; 32],
}

/// The numeric metadata of a block header.
#[derive(Clone, Copy, Debug, PartialEq, Eq)]
pub struct Metadata {
    pub network: u16,
    pub round: u64,
    pub height: u32,
    pub total_supply_in_microcredits: u64,
    pub cumulative_weight: u128,
    pub coinbase_target: u64,
    pub proof_target: u64,
    pub last_coinbase_target: u64,
    pub last_coinbase_timestamp: i64,
    pub timestamp: i64,
}

/// A block header.
#[derive(Clone, Copy, Debug, PartialEq, Eq)]
pub struct Header {
    pub previous_state_root: [u8; 32],
    pub transactions_root: [u8; 32],
    pub finalize_root: [u8; 32],
    pub coinbase_accumulator_point: [u8; 32],
    pub metadata: Metadata,
}

/// A block: its header, the hash of its predecessor, its transactions and its
/// optional coinbase solution. Signing and hashing it are left to the caller.
#[derive(Clone, Debug, PartialEq, Eq)]
pub struct Block {
    pub previous_hash: [u8; 32],
    pub header: Header,
    pub transactions: TransactionSet,
    pub coinbase: Option<CoinbaseSolution>,
}

impl Block {
    pub open spec fn spec_height(&self) -> u32 {
        self.header.metadata.height
    }

    pub fn height(&self) -> (r: u32)
        ensures
            r == self.spec_height(),
    {
        self.header.metadata.height
    }

    pub fn round(&self) -> (r: u64)
        ensures
            r == self.header.metadata.round,
    {
        self.header.metadata.round
    }

    pub fn cumulative_weight(&self) -> (r: u128)
        ensures
            r == self.header.metadata.cumulative_weight,
    {
        self.header.metadata.cumulative_weight
    }

    pub fn total_supply_in_microcredits(&self) -> (r: u64)
        ensures
            r == self.header.metadata.total_supply_in_microcredits,
    {
        self.header.metadata.total_supply_in_microcredits
    }
}

/// The parameters of an epoch's coinbase puzzle.
#[derive(Clone, Copy, Debug, PartialEq, Eq)]
pub struct EpochChallenge {
    pub epoch_number: u32,
    pub epoch_block_hash: [u8; 32],
}

/// The supply after applying the first `n` transactions of `txs` to `supply`, one at a
/// time, each adding what it mints and then taking away what it burns; `None` where
/// some step leaves the range of a `u64`.
pub open spec fn supply_after(supply: int, txs: Seq<Transaction>, n: nat) -> Option<int>
    decreases n,
{
    if n == 0 {
        Some(supply)
    } else {
        match supply_after(supply, txs, (n - 1) as nat) {
            None => None,
            Some(s) => {
                let t = txs[n - 1];
                let minted = s + t.minted;
                if minted > u64::MAX || minted - t.burned < 0 {
                    None
                } else {
                    Some(minted - t.burned)
                }
            },
        }
    }
}

/// The total supply after a transaction set: `ArithmeticOverflow` where it would pass
/// `u64::MAX` or fall below zero on the way.
pub fn update_total_supply(supply: u64, transactions: &Vec<Transaction>) -> (r: Result<u64, LedgerError>)
    ensures
        match supply_after(supply as int, transactions@, transactions@.len()) {
            Some(s) => r == Ok::<u64, LedgerError>(s as u64),
            None => r == Err::<u64, LedgerError>(LedgerError::ArithmeticOverflow),
        },
{
    let mut total: u64 = supply;
    let mut i: usize = 0;
    while i < transactions.len()
        invariant
            i <= transactions@.len(),
            supply_after(supply as int, transactions@, i as nat) == Some(total as int),
        decreases transactions@.len() - i,
    {
        let t = transactions[i];
        let minted = match total.checked_add(t.minted) {
            Some(m) => m,
            None => {
                proof {
                    lemma_supply_after_stays_none(supply as int, transactions@, (i + 1) as nat);
                }
                return Err(LedgerError::ArithmeticOverflow);
            },
        };
        total = match minted.checked_sub(t.burned) {
            Some(s) => s,
            None => {
                proof {
                    lemma_supply_after_stays_none(supply as int, transactions@, (i + 1) as nat);
                }
                return Err(LedgerError::ArithmeticOverflow);
            },
        };
        i = i + 1;
    }
    Ok(total)
}

/// Once a step has left the range, every longer prefix stays out of it.
proof fn lemma_supply_after_stays_none(supply: int, txs: Seq<Transaction>, n: nat)
    requires
        n <= txs.len(),
        supply_after(supply, txs, n) is None,
    ensures
        supply_after(supply, txs, txs.len()) is None,
    decreases txs.len() - n,
{
    if n < txs.len() {
        lemma_supply_after_stays_none(supply, txs, n + 1);
    }
}

} // verus!
