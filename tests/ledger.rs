use snarkvm_ledger::block::{
    update_total_supply, Block, CoinbaseSolution, EpochChallenge, Header, Metadata, ProverSolution, Transaction,
    TransactionSet,
};
use snarkvm_ledger::error::LedgerError;
use snarkvm_ledger::ledger::{CommitReceipt, Ledger, NetworkParams, IDENTITY_POINT};
use snarkvm_ledger::reward::{
    anchor_block_reward_at_height, block_height_at_year, coinbase_reward, cumulative_proof_target, prover_rewards,
};
use snarkvm_ledger::target::{coinbase_target, proof_target, retarget};

const SUPPLY: u64 = 1_500_000_000_000_000;

fn params(blocks_per_epoch: u32) -> NetworkParams {
    NetworkParams {
        id: 3,
        starting_supply: SUPPLY,
        anchor_time: 25,
        blocks_per_epoch,
        genesis_coinbase_target: 500,
        genesis_proof_target: 4,
    }
}

fn digest(b: u8) -> [u8; 32] {
    [b; 32]
}

fn block_at(height: u32, round: u64, weight: u128, previous_hash: [u8; 32]) -> Block {
    Block {
        previous_hash,
        header: Header {
            previous_state_root: digest(0),
            transactions_root: digest(0),
            finalize_root: digest(0),
            coinbase_accumulator_point: IDENTITY_POINT,
            metadata: Metadata {
                network: 3,
                round,
                height,
                total_supply_in_microcredits: SUPPLY,
                cumulative_weight: weight,
                coinbase_target: 1000,
                proof_target: 8,
                last_coinbase_target: 1000,
                last_coinbase_timestamp: 0,
                timestamp: 0,
            },
        },
        transactions: TransactionSet { transactions: vec![], transactions_root: digest(0), finalize_root: digest(0) },
        coinbase: None,
    }
}

fn ledger_at(height: u32, blocks_per_epoch: u32, challenge: Option<EpochChallenge>) -> Ledger {
    Ledger::new(params(blocks_per_epoch), block_at(height, height as u64, 0, digest(1)), digest(2), digest(3), challenge)
        .unwrap()
}

fn challenge(epoch: u32) -> Option<EpochChallenge> {
    Some(EpochChallenge { epoch_number: epoch, epoch_block_hash: digest(9) })
}

fn one_transaction(minted: u64, burned: u64) -> TransactionSet {
    TransactionSet {
        transactions: vec![Transaction { id: digest(7), minted, burned }],
        transactions_root: digest(5),
        finalize_root: digest(6),
    }
}

fn solution(address: u8, target: u64) -> ProverSolution {
    ProverSolution { address: digest(address), target }
}

fn receipt(b: u8) -> Option<CommitReceipt> {
    Some(CommitReceipt { block_hash: digest(b), state_root: digest(b + 1) })
}

#[test]
fn genesis_to_height_one_without_solutions() {
    let mut ledger = ledger_at(0, 10, challenge(0));
    let block = ledger.prepare_advance_to_next_block(None, None, Some(one_transaction(0, 0)), 25).unwrap();
    let m = block.header.metadata;
    assert_eq!(m.height, 1);
    assert_eq!(m.round, 1);
    assert!(block.coinbase.is_none());
    assert_eq!(m.total_supply_in_microcredits, SUPPLY);
    assert_eq!(m.last_coinbase_target, 1000);
    assert_eq!(m.last_coinbase_timestamp, 0);
    assert_eq!(m.coinbase_target, 1000);
    assert_eq!(m.proof_target, 8);
    assert_eq!(m.cumulative_weight, 0);
    assert_eq!(m.timestamp, 25);
    assert_eq!(block.previous_hash, digest(2));
    assert_eq!(block.header.previous_state_root, digest(3));
    assert_eq!(block.header.transactions_root, digest(5));
    assert_eq!(block.header.coinbase_accumulator_point, IDENTITY_POINT);

    assert_eq!(ledger.advance_to_next_block(block.clone(), receipt(20)), Ok(false));
    assert_eq!(ledger.latest_height(), 1);
    assert_eq!(ledger.latest_round(), 1);
    assert_eq!(ledger.latest_hash(), digest(20));
    assert_eq!(ledger.latest_state_root(), digest(21));
    assert_eq!(ledger.latest_block(), &block);
    assert_eq!(ledger.latest_block().total_supply_in_microcredits(), SUPPLY);
}

#[test]
fn empty_solution_list_gives_no_coinbase() {
    let ledger = ledger_at(4, 10, challenge(0));
    let block = ledger.prepare_advance_to_next_block(Some(vec![]), None, Some(one_transaction(3, 1)), 30).unwrap();
    assert!(block.coinbase.is_none());
    assert_eq!(block.header.metadata.last_coinbase_target, 1000);
    assert_eq!(block.header.metadata.last_coinbase_timestamp, 0);
    assert_eq!(block.header.metadata.total_supply_in_microcredits, SUPPLY + 2);
}

#[test]
fn solutions_produce_coinbase_and_weight() {
    let ledger = ledger_at(4, 10, challenge(0));
    let coinbase = CoinbaseSolution { accumulator_point: digest(11), proof: vec![1, 2, 3] };
    let block = ledger
        .prepare_advance_to_next_block(
            Some(vec![solution(1, 3), solution(2, 1)]),
            Some(coinbase.clone()),
            Some(one_transaction(0, 0)),
            25,
        )
        .unwrap();
    assert_eq!(block.coinbase, Some(coinbase));
    assert_eq!(block.header.coinbase_accumulator_point, digest(11));
    assert_eq!(block.header.metadata.cumulative_weight, 4);
    assert_eq!(block.header.metadata.last_coinbase_target, 1000);
    assert_eq!(block.header.metadata.last_coinbase_timestamp, 25);
    assert_eq!(block.header.metadata.height, 5);
}

#[test]
fn prover_rewards_split_half_proportionally() {
    let rewards = prover_rewards(100, &vec![solution(1, 3), solution(2, 1)]).unwrap();
    assert_eq!(rewards, vec![(digest(1), 37), (digest(2), 12)]);
    assert_eq!(rewards.iter().map(|r| r.1).sum::<u64>(), 49);
    assert!(49 <= 100 / 2);
}

#[test]
fn prover_rewards_edge_cases() {
    assert_eq!(prover_rewards(100, &vec![]), Ok(vec![]));
    assert_eq!(prover_rewards(100, &vec![solution(1, 0), solution(2, 0)]), Err(LedgerError::ArithmeticOverflow));
    assert_eq!(prover_rewards(4_000_000_000, &vec![solution(1, 5)]), Err(LedgerError::RewardTooLarge));
    assert_eq!(prover_rewards(2_000_000_000, &vec![solution(1, 5)]), Ok(vec![(digest(1), 1_000_000_000)]));
    assert_eq!(prover_rewards(u64::MAX, &vec![solution(1, u64::MAX), solution(2, 0)]), Err(LedgerError::RewardTooLarge));
}

#[test]
fn cumulative_target_of_solutions() {
    assert_eq!(cumulative_proof_target(&vec![]), 0);
    assert_eq!(cumulative_proof_target(&vec![solution(1, u64::MAX), solution(2, u64::MAX)]), 2 * (u64::MAX as u128));
}

#[test]
fn epoch_challenge_rotates_at_epoch_start() {
    let mut ledger = ledger_at(9, 10, challenge(0));
    let block = ledger.prepare_advance_to_next_block(None, None, Some(one_transaction(0, 0)), 25).unwrap();
    assert_eq!(ledger.advance_to_next_block(block, receipt(30)), Ok(true));
    assert_eq!(ledger.latest_epoch_challenge(), challenge(0));
    assert_eq!(ledger.update_epoch_challenge(challenge(1)), Ok(()));
    assert_eq!(ledger.latest_epoch_challenge(), challenge(1));

    let block = ledger.prepare_advance_to_next_block(None, None, Some(one_transaction(0, 0)), 50).unwrap();
    assert_eq!(block.header.metadata.height, 11);
    assert_eq!(ledger.advance_to_next_block(block, receipt(40)), Ok(false));
    assert_eq!(ledger.latest_epoch_challenge(), challenge(1));
}

#[test]
fn failed_epoch_challenge_is_recomputed_next_commit() {
    let mut ledger = ledger_at(9, 10, challenge(0));
    let block = ledger.prepare_advance_to_next_block(None, None, Some(one_transaction(0, 0)), 25).unwrap();
    assert_eq!(ledger.advance_to_next_block(block, receipt(30)), Ok(true));
    assert_eq!(ledger.update_epoch_challenge(None), Err(LedgerError::InvalidEpochBoundary));
    assert_eq!(ledger.latest_epoch_challenge(), None);
    assert_eq!(ledger.latest_height(), 10);
    let block = ledger.prepare_advance_to_next_block(None, None, Some(one_transaction(0, 0)), 50).unwrap();
    assert_eq!(ledger.advance_to_next_block(block, receipt(40)), Ok(true));
}

#[test]
fn oversized_prover_reward_fails_preparation() {
    let mut p = params(10);
    p.starting_supply = 1 << 63;
    let ledger = Ledger::new(p, block_at(0, 0, 0, digest(1)), digest(2), digest(3), challenge(0)).unwrap();
    let coinbase = CoinbaseSolution { accumulator_point: digest(11), proof: vec![] };
    let r = ledger.prepare_advance_to_next_block(
        Some(vec![solution(1, 1)]),
        Some(coinbase),
        Some(one_transaction(0, 0)),
        25,
    );
    assert_eq!(r, Err(LedgerError::RewardTooLarge));
    assert_eq!(ledger.latest_height(), 0);
}

#[test]
fn preparation_errors() {
    let ledger = ledger_at(4, 10, challenge(0));
    assert_eq!(
        ledger.prepare_advance_to_next_block(Some(vec![solution(1, 1)]), None, Some(one_transaction(0, 0)), 25),
        Err(LedgerError::AccumulatorFailure)
    );
    assert_eq!(ledger.prepare_advance_to_next_block(None, None, None, 25), Err(LedgerError::ExecutionFailure));
    assert_eq!(
        ledger.prepare_advance_to_next_block(None, None, Some(one_transaction(0, SUPPLY + 1)), 25),
        Err(LedgerError::ArithmeticOverflow)
    );
    let top = Ledger::new(params(10), block_at(u32::MAX, 7, 0, digest(1)), digest(2), digest(3), None).unwrap();
    assert_eq!(top.prepare_advance_to_next_block(None, None, Some(one_transaction(0, 0)), 25), Err(LedgerError::ArithmeticOverflow));
    let short = Ledger::new(params(1), block_at(0, 0, 0, digest(1)), digest(2), digest(3), None).unwrap();
    assert_eq!(short.prepare_advance_to_next_block(None, None, Some(one_transaction(0, 0)), 25), Err(LedgerError::ArithmeticOverflow));
}

#[test]
fn commit_rejects_unlinked_blocks_and_failed_commits() {
    let mut ledger = ledger_at(4, 10, challenge(0));
    let wrong_parent = block_at(5, 5, 0, digest(8));
    assert_eq!(ledger.check_next_block(&wrong_parent), Err(LedgerError::InvalidBlock));
    assert_eq!(ledger.advance_to_next_block(wrong_parent, receipt(30)), Err(LedgerError::InvalidBlock));
    let wrong_height = block_at(6, 5, 0, digest(2));
    assert_eq!(ledger.advance_to_next_block(wrong_height, receipt(30)), Err(LedgerError::InvalidBlock));
    let same_round = block_at(5, 4, 0, digest(2));
    assert_eq!(ledger.advance_to_next_block(same_round, receipt(30)), Err(LedgerError::InvalidBlock));
    let good = block_at(5, 5, 0, digest(2));
    assert_eq!(ledger.check_next_block(&good), Ok(()));
    assert_eq!(ledger.advance_to_next_block(good, None), Err(LedgerError::ExecutionFailure));
    assert_eq!(ledger.latest_height(), 4);
    assert_eq!(ledger.latest_hash(), digest(2));
}

#[test]
fn cumulative_weight_never_decreases_over_commits() {
    let mut ledger = ledger_at(0, 10, challenge(0));
    let mut last = ledger.latest_block().cumulative_weight();
    for (i, targets) in [vec![3u64, 1], vec![], vec![u64::MAX]].into_iter().enumerate() {
        let sols: Vec<ProverSolution> = targets.iter().map(|t| solution(1, *t)).collect();
        let coinbase = CoinbaseSolution { accumulator_point: digest(11), proof: vec![] };
        let block = ledger
            .prepare_advance_to_next_block(Some(sols), Some(coinbase), Some(one_transaction(0, 0)), 25 * (i as i64 + 1))
            .unwrap();
        assert!(ledger.advance_to_next_block(block, receipt(40 + i as u8)).is_ok());
        let w = ledger.latest_block().cumulative_weight();
        assert!(w >= last);
        last = w;
    }
    assert_eq!(last, 4 + u64::MAX as u128);
}

#[test]
fn invalid_params_are_refused() {
    let mut p = params(10);
    p.anchor_time = 0;
    assert!(Ledger::new(p, block_at(0, 0, 0, digest(1)), digest(2), digest(3), None).is_none());
    assert!(Ledger::new(params(0), block_at(0, 0, 0, digest(1)), digest(2), digest(3), None).is_none());
    assert_eq!(ledger_at(0, 10, None).params(), params(10));
}

#[test]
fn retarget_values() {
    assert_eq!(retarget(1000, 0, 20, 20, 100), 1000);
    assert_eq!(retarget(1000, 0, 10, 20, 100), 1071);
    assert_eq!(retarget(1000, 0, 30, 20, 100), 932);
    assert_eq!(retarget(1000, 0, 1, 20, 10), 3732);
    assert_eq!(retarget(1_000_000, 0, 1020, 20, 100), 976);
    assert_eq!(retarget(u64::MAX, 0, 1, 20, 1), u64::MAX);
    assert_eq!(retarget(0, 0, 1, 20, 1), 0);
    assert_eq!(retarget(1000, 0, i64::MAX, 20, 1), 0);
}

#[test]
fn coinbase_and_proof_targets() {
    assert_eq!(coinbase_target(1000, 0, 10, 20, 10, 500), Ok(1071));
    assert_eq!(coinbase_target(1000, 0, 10_000, 20, 10, 500), Ok(500));
    assert_eq!(coinbase_target(1000, 0, 10, 20, 1, 500), Err(LedgerError::ArithmeticOverflow));
    assert_eq!(proof_target(1000, 4), 8);
    assert_eq!(proof_target(0, 4), 4);
    assert_eq!(proof_target(u64::MAX, 0), u64::MAX / 128 + 1);
}

#[test]
fn reward_schedule_values() {
    assert_eq!(block_height_at_year(25, 10), 12_614_400);
    assert_eq!(anchor_block_reward_at_height(1, SUPPLY, 25), 237_823_402);
    assert_eq!(anchor_block_reward_at_height(12_614_400, SUPPLY, 25), 0);
    assert_eq!(coinbase_reward(0, 25, 1, SUPPLY, 25), 237_823_402);
    assert_eq!(coinbase_reward(0, 10, 1, SUPPLY, 25), 95_129_360);
    assert_eq!(coinbase_reward(0, 100, 1, SUPPLY, 25), 475_646_804);
    assert_eq!(coinbase_reward(10, 5, 1, SUPPLY, 25), 0);
}

#[test]
fn total_supply_updates() {
    let txs = vec![Transaction { id: digest(1), minted: 10, burned: 3 }, Transaction { id: digest(2), minted: 0, burned: 7 }];
    assert_eq!(update_total_supply(100, &txs), Ok(100));
    assert_eq!(update_total_supply(5, &txs), Ok(5));
    assert_eq!(update_total_supply(0, &vec![Transaction { id: digest(1), minted: 0, burned: 1 }]), Err(LedgerError::ArithmeticOverflow));
    assert_eq!(update_total_supply(u64::MAX, &vec![Transaction { id: digest(1), minted: 1, burned: 1 }]), Err(LedgerError::ArithmeticOverflow));
    assert_eq!(update_total_supply(7, &vec![]), Ok(7));
}
