use crate::block::ProverSolution;
use crate::error::LedgerError;
use crate::target::{max_int, min_int};
use vstd::arithmetic::div_mod::{lemma_div_is_ordered_by_denominator, lemma_fundamental_div_mod, lemma_mod_bound};
use vstd::arithmetic::mul::lemma_mul_inequality;
use vstd::prelude::*;

verus! {

/// Seconds in a year of 365 days.
pub const SECONDS_PER_YEAR: u64 = 31_536_000;

/// The hard ceiling on a single prover's reward, in microcredits.
pub const MAX_PROVER_REWARD: u64 = 1_000_000_000;

/// The expected height after `years` years of blocks `anchor_time` seconds apart.
pub open spec fn block_height_at_year_spec(anchor_time: int, years: int) -> int {
    (SECONDS_PER_YEAR as int / anchor_time) * years
}

/// The anchor block reward at `height`: it falls linearly from
/// `2 * starting_supply / (H + 1)` to zero at the height `H` expected after ten years,
/// so that the anchor rewards of those ten years add up to the starting supply.
pub open spec fn anchor_block_reward_spec(height: int, starting_supply: int, anchor_time: int) -> int {
    let h10 = block_height_at_year_spec(anchor_time, 10);
    (2 * starting_supply * max_int(0, h10 - height)) / (h10 * (h10 + 1))
}

/// The coinbase reward: the anchor reward, scaled by the time since the last coinbase
/// over the anchor time, and capped at twice the anchor reward.
pub open spec fn coinbase_reward_spec(
    last_coinbase_timestamp: int,
    next_timestamp: int,
    next_height: int,
    starting_supply: int,
    anchor_time: int,
) -> int {
    let r = anchor_block_reward_spec(next_height, starting_supply, anchor_time);
    min_int(r * max_int(0, next_timestamp - last_coinbase_timestamp) / anchor_time, 2 * r)
}

/// The expected height after `years` years of blocks `anchor_time` seconds apart.
pub fn block_height_at_year(anchor_time: u16, years: u32) -> (r: u64)
    requires
        anchor_time > 0,
        years <= 100,
    ensures
        r == block_height_at_year_spec(anchor_time as int, years as int),
{
    assert((SECONDS_PER_YEAR / anchor_time as u64) * years <= SECONDS_PER_YEAR * 100) by (nonlinear_arith)
        requires SECONDS_PER_YEAR / anchor_time as u64 <= SECONDS_PER_YEAR, years <= 100, years >= 0;
    (SECONDS_PER_YEAR / anchor_time as u64) * years as u64
}

/// The anchor block reward at the given height.
pub fn anchor_block_reward_at_height(height: u32, starting_supply: u64, anchor_time: u16) -> (r: u64)
    requires
        anchor_time > 0,
    ensures
        r == anchor_block_reward_spec(height as int, starting_supply as int, anchor_time as int),
        r as int * 4811 <= 2 * starting_supply,
{
    let h10 = block_height_at_year(anchor_time, 10);
    proof {
        lemma_div_is_ordered_by_denominator(SECONDS_PER_YEAR as int, anchor_time as int, 65535);
        assert(SECONDS_PER_YEAR as int / 65535 == 481);
    }
    let remaining: u64 = if h10 > height as u64 { h10 - height as u64 } else { 0 };
    proof {
        assert(2 * starting_supply * remaining <= 2 * 0xffff_ffff_ffff_ffffu128 * 315_360_000) by (nonlinear_arith)
            requires starting_supply <= 0xffff_ffff_ffff_ffffu128, remaining <= 315_360_000, remaining >= 0;
        assert(h10 * (h10 + 1) <= 315_360_000 * 315_360_001) by (nonlinear_arith)
            requires 4810 <= h10 <= 315_360_000;
        assert(h10 * (h10 + 1) >= 1) by (nonlinear_arith)
            requires 4810 <= h10;
    }
    let numerator: u128 = 2 * starting_supply as u128 * remaining as u128;
    let denominator: u128 = h10 as u128 * (h10 as u128 + 1);
    let q = numerator / denominator;
    proof {
        let n = numerator as int;
        let d = denominator as int;
        lemma_fundamental_div_mod(n, d);
        lemma_mod_bound(n, d);
        assert(q * d <= n) by (nonlinear_arith)
            requires n == d * (n / d) + n % d, n % d >= 0, q == n / d;
        assert(q * 4811 <= 2 * starting_supply) by (nonlinear_arith)
            requires q * d <= n, d == h10 * (h10 + 1), h10 >= 4810, n == 2 * starting_supply * remaining,
                remaining <= h10, q >= 0, starting_supply >= 0, remaining >= 0;
    }
    q as u64
}

/// The total coinbase reward available for the block at `next_height`.
pub fn coinbase_reward(
    last_coinbase_timestamp: i64,
    next_timestamp: i64,
    next_height: u32,
    starting_supply: u64,
    anchor_time: u16,
) -> (r: u64)
    requires
        anchor_time > 0,
    ensures
        r == coinbase_reward_spec(last_coinbase_timestamp as int, next_timestamp as int, next_height as int,
            starting_supply as int, anchor_time as int),
{
    let anchor_reward = anchor_block_reward_at_height(next_height, starting_supply, anchor_time);
    let diff: i128 = next_timestamp as i128 - last_coinbase_timestamp as i128;
    let elapsed: u128 = if diff < 0 { 0 } else { diff as u128 };
    proof {
        assert(anchor_reward * elapsed <= 0x0040_0000_0000_0000u128 * 0x2_0000_0000_0000_0000u128) by (nonlinear_arith)
            requires anchor_reward * 4811 <= 2 * 0xffff_ffff_ffff_ffffu128, elapsed <= 0x2_0000_0000_0000_0000u128,
                anchor_reward >= 0, elapsed >= 0;
    }
    let scaled: u128 = anchor_reward as u128 * elapsed / anchor_time as u128;
    let cap: u128 = 2 * anchor_reward as u128;
    if scaled <= cap {
        scaled as u64
    } else {
        cap as u64
    }
}

/// The sum of the targets of the first `n` solutions.
pub open spec fn target_sum(s: Seq<ProverSolution>, n: nat) -> int
    decreases n,
{
    if n == 0 || n > s.len() {
        0
    } else {
        target_sum(s, (n - 1) as nat) + s[n - 1].target
    }
}

/// The cumulative proof target of a solution set.
pub open spec fn cumulative_target(s: Seq<ProverSolution>) -> int {
    target_sum(s, s.len())
}

/// A prover's share: half the coinbase reward, in proportion to its target,
/// `floor(coinbase_reward * target / (2 * cumulative))`.
pub open spec fn prover_share(coinbase_reward: int, target: int, cumulative: int) -> int {
    (coinbase_reward * target) / (2 * cumulative)
}

/// The rewards of all provers of `s`, in order, with their addresses.
pub open spec fn prover_shares(coinbase_reward: int, s: Seq<ProverSolution>) -> Seq<([u8; 32], u64)> {
    Seq::new(
        s.len(),
        |i: int| (s[i].address, prover_share(coinbase_reward, s[i].target as int, cumulative_target(s)) as u64),
    )
}

/// What splitting `coinbase_reward` among the provers of `s` yields: nothing to split for
/// no provers; `ArithmeticOverflow` where twice the cumulative target overflows a `u128`
/// or is zero; `RewardTooLarge` where a share passes the ceiling; else the shares.
pub open spec fn prover_rewards_spec(coinbase_reward: int, s: Seq<ProverSolution>) -> Result<
    Seq<([u8; 32], u64)>,
    LedgerError,
> {
    let c = cumulative_target(s);
    if s.len() == 0 {
        Ok(Seq::empty())
    } else if c == 0 || 2 * c > u128::MAX {
        Err(LedgerError::ArithmeticOverflow)
    } else if exists|i: int|
        0 <= i < s.len() && #[trigger] prover_share(coinbase_reward, s[i].target as int, c)
            > MAX_PROVER_REWARD {
        Err(LedgerError::RewardTooLarge)
    } else {
        Ok(prover_shares(coinbase_reward, s))
    }
}

/// The sum of the amounts of the first `n` rewards.
pub open spec fn amount_sum(v: Seq<([u8; 32], u64)>, n: nat) -> int
    decreases n,
{
    if n == 0 || n > v.len() {
        0
    } else {
        amount_sum(v, (n - 1) as nat) + v[n - 1].1
    }
}

/// The cumulative proof target of a solution set. Each target fits in a `u64`, so the
/// sum of fewer than `2^64` of them fits in a `u128`.
pub fn cumulative_proof_target(solutions: &Vec<ProverSolution>) -> (r: u128)
    ensures
        r == cumulative_target(solutions@),
{
    let mut sum: u128 = 0;
    let mut i: usize = 0;
    while i < solutions.len()
        invariant
            i <= solutions@.len(),
            sum == target_sum(solutions@, i as nat),
            sum <= i * 0xffff_ffff_ffff_ffffu128,
        decreases solutions@.len() - i,
    {
        proof {
            assert((i + 1) * 0xffff_ffff_ffff_ffffu128 <= 0x1_0000_0000_0000_0000u128 * 0xffff_ffff_ffff_ffffu128)
                by (nonlinear_arith)
                requires i < 0xffff_ffff_ffff_ffffu128;
        }
        sum = sum + solutions[i].target as u128;
        i = i + 1;
    }
    sum
}

/// Splits half of `coinbase_reward` among the provers of `solutions` in proportion to
/// their targets.
pub fn prover_rewards(coinbase_reward: u64, solutions: &Vec<ProverSolution>) -> (r: Result<
    Vec<([u8; 32], u64)>,
    LedgerError,
>)
    ensures
        match prover_rewards_spec(coinbase_reward as int, solutions@) {
            Ok(v) => r is Ok && r->Ok_0@ == v,
            Err(e) => r == Err::<Vec<([u8; 32], u64)>, LedgerError>(e),
        },
        r is Ok ==> amount_sum(r->Ok_0@, r->Ok_0@.len()) <= coinbase_reward / 2,
{
    let mut rewards: Vec<([u8; 32], u64)> = Vec::new();
    if solutions.len() == 0 {
        proof {
            assert(rewards@ =~= Seq::<([u8; 32], u64)>::empty());
        }
        return Ok(rewards);
    }
    let cumulative = cumulative_proof_target(solutions);
    let denominator = match cumulative.checked_mul(2) {
        Some(d) => d,
        None => return Err(LedgerError::ArithmeticOverflow),
    };
    if denominator == 0 {
        return Err(LedgerError::ArithmeticOverflow);
    }
    let ghost c = cumulative as int;
    let mut i: usize = 0;
    while i < solutions.len()
        invariant
            i <= solutions@.len(),
            c == cumulative_target(solutions@),
            denominator == 2 * c,
            c > 0,
            rewards@.len() == i,
            forall|j: int| 0 <= j < i ==> #[trigger] rewards@[j] == prover_shares(coinbase_reward as int, solutions@)[j],
            forall|j: int|
                0 <= j < i ==> #[trigger] prover_share(coinbase_reward as int, solutions@[j].target as int, c)
                    <= MAX_PROVER_REWARD,
        decreases solutions@.len() - i,
    {
        let s = solutions[i];
        proof {
            assert(coinbase_reward * s.target <= 0xffff_ffff_ffff_ffffu128 * 0xffff_ffff_ffff_ffffu128)
                by (nonlinear_arith)
                requires coinbase_reward <= 0xffff_ffff_ffff_ffffu128, s.target <= 0xffff_ffff_ffff_ffffu128;
        }
        let numerator: u128 = coinbase_reward as u128 * s.target as u128;
        let quotient = numerator / denominator;
        if quotient > MAX_PROVER_REWARD as u128 {
            proof {
                assert(prover_share(coinbase_reward as int, solutions@[i as int].target as int, c) > MAX_PROVER_REWARD);
            }
            return Err(LedgerError::RewardTooLarge);
        }
        rewards.push((s.address, quotient as u64));
        i = i + 1;
    }
    proof {
        assert(rewards@ =~= prover_shares(coinbase_reward as int, solutions@));
        lemma_prover_rewards_within_half(coinbase_reward, solutions@);
    }
    Ok(rewards)
}

/// `2c` times the sum of the first `n` shares is at most `coinbase_reward` times the sum
/// of their targets.
proof fn lemma_share_sum_bound(coinbase_reward: int, s: Seq<ProverSolution>, n: nat)
    requires
        n <= s.len(),
        0 <= coinbase_reward <= u64::MAX,
        cumulative_target(s) > 0,
    ensures
        2 * cumulative_target(s) * amount_sum(prover_shares(coinbase_reward, s), n) <= coinbase_reward
            * target_sum(s, n),
    decreases n,
{
    if n > 0 {
        lemma_share_sum_bound(coinbase_reward, s, (n - 1) as nat);
        let c = cumulative_target(s);
        let t = s[n - 1].target as int;
        let q = prover_share(coinbase_reward, t, c);
        let v = prover_shares(coinbase_reward, s);
        lemma_fundamental_div_mod(coinbase_reward * t, 2 * c);
        lemma_mod_bound(coinbase_reward * t, 2 * c);
        lemma_target_le_sum(s, n - 1, s.len());
        lemma_target_sum_nonneg(s, (n - 1) as nat);
        let m = (coinbase_reward * t) % (2 * c);
        assert(coinbase_reward * t >= 0) by (nonlinear_arith)
            requires coinbase_reward >= 0, t >= 0;
        assert(0 <= q) by (nonlinear_arith)
            requires 2 * c * q + m == coinbase_reward * t, m < 2 * c, coinbase_reward * t >= 0, c > 0;
        assert(2 * c * q <= coinbase_reward * t);
        assert(coinbase_reward * t <= coinbase_reward * c) by (nonlinear_arith)
            requires coinbase_reward >= 0, t <= c;
        if q > coinbase_reward {
            lemma_mul_inequality(coinbase_reward + 1, q, 2 * c);
            assert(false) by (nonlinear_arith)
                requires (coinbase_reward + 1) * (2 * c) <= q * (2 * c), 2 * c * q <= coinbase_reward * c, c > 0,
                    coinbase_reward >= 0;
        }
        assert(v[n - 1].1 == q);
        assert(2 * c * amount_sum(v, n) == 2 * c * amount_sum(v, (n - 1) as nat) + 2 * c * q)
            by (nonlinear_arith)
            requires amount_sum(v, n) == amount_sum(v, (n - 1) as nat) + q;
        assert(coinbase_reward * target_sum(s, n) == coinbase_reward * target_sum(s, (n - 1) as nat)
            + coinbase_reward * t) by (nonlinear_arith)
            requires target_sum(s, n) == target_sum(s, (n - 1) as nat) + t;
    }
}

/// Each target is at most the sum of the targets up to it, and that sum grows with `n`.
proof fn lemma_target_le_sum(s: Seq<ProverSolution>, j: int, n: nat)
    requires
        0 <= j < n <= s.len(),
    ensures
        s[j].target <= target_sum(s, n),
    decreases n,
{
    if j < n - 1 {
        lemma_target_le_sum(s, j, (n - 1) as nat);
    } else {
        lemma_target_sum_nonneg(s, (n - 1) as nat);
    }
}

pub(crate) proof fn lemma_target_sum_nonneg(s: Seq<ProverSolution>, n: nat)
    ensures
        target_sum(s, n) >= 0,
    decreases n,
{
    if n > 0 {
        lemma_target_sum_nonneg(s, (n - 1) as nat);
    }
}

/// The shares that a successful split hands out add up to at most half the coinbase
/// reward, whatever the targets.
pub proof fn lemma_prover_rewards_within_half(coinbase_reward: u64, s: Seq<ProverSolution>)
    ensures
        prover_rewards_spec(coinbase_reward as int, s) is Ok ==> amount_sum(
            prover_rewards_spec(coinbase_reward as int, s)->Ok_0,
            prover_rewards_spec(coinbase_reward as int, s)->Ok_0.len(),
        ) <= coinbase_reward / 2,
{
    if prover_rewards_spec(coinbase_reward as int, s) is Ok && s.len() > 0 {
        let c = cumulative_target(s);
        let v = prover_shares(coinbase_reward as int, s);
        lemma_target_sum_nonneg(s, s.len());
        lemma_share_sum_bound(coinbase_reward as int, s, s.len());
        let total = amount_sum(v, s.len());
        assert(2 * total <= coinbase_reward) by (nonlinear_arith)
            requires 2 * c * total <= coinbase_reward * c, c > 0;
    }
}

} // verus!
