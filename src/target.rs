use vstd::arithmetic::div_mod::lemma_basic_div;
use vstd::arithmetic::power2::*;
use vstd::prelude::*;

verus! {

/// The fixed-point radix of the retarget exponent: 16 fractional bits.
pub const RADIX: u128 = 65536;

/// Coefficients of the cubic approximation of `2^x - 1` on `[0, 1)`,
/// scaled to 48 fractional bits.
pub const POLY_C1: u128 = 195_766_423_245_049;
pub const POLY_C2: u128 = 971_821_376;
pub const POLY_C3: u128 = 5_127;
/// `2^48`, the scale of the polynomial, and half of it for rounding.
pub const POLY_SCALE: u128 = 281_474_976_710_656;
pub const POLY_HALF: u128 = 140_737_488_355_328;

/// The largest value of a `u64`, as an integer.
pub open spec fn u64_max() -> int {
    0xffff_ffff_ffff_ffff
}

pub open spec fn max_int(a: int, b: int) -> int {
    if a >= b { a } else { b }
}

pub open spec fn min_int(a: int, b: int) -> int {
    if a <= b { a } else { b }
}

/// `RADIX * (2^(f / RADIX) - 1)`, approximated by a rounded cubic.
pub open spec fn fraction_term(f: int) -> int {
    (POLY_C1 * f + POLY_C2 * (f * f) + POLY_C3 * (f * f * f) + POLY_HALF) / POLY_SCALE as int
}

/// `RADIX * 2^(f / RADIX)` for a fractional exponent `f < RADIX`.
pub open spec fn fraction_multiplier(f: int) -> int {
    RADIX + fraction_term(f)
}

/// Seconds between two timestamps, never less than one.
pub open spec fn elapsed(prev_timestamp: int, timestamp: int) -> int {
    max_int(1, timestamp - prev_timestamp)
}

/// The drift of a block from the anchor time: positive when it came late.
pub open spec fn drift(prev_timestamp: int, timestamp: int, anchor_time: int) -> int {
    elapsed(prev_timestamp, timestamp) - anchor_time
}

pub open spec fn abs_int(x: int) -> int {
    if x < 0 { -x } else { x }
}

/// The exponent `|drift| / half_life` in fixed point.
pub open spec fn exponent(drift: int, half_life: int) -> int {
    (RADIX * abs_int(drift)) / half_life
}

/// The retargeted value: `prev_target * 2^(-drift / half_life)`, capped at `u64::MAX`.
///
/// An early block (negative drift) raises the target, which makes it harder to
/// meet; a late block lowers it. The integral part of the exponent is a power of
/// two, the fractional part goes through `fraction_multiplier`.
pub open spec fn retarget_spec(
    prev_target: int,
    prev_timestamp: int,
    timestamp: int,
    anchor_time: int,
    half_life: int,
) -> int {
    let d = drift(prev_timestamp, timestamp, anchor_time);
    if d == 0 {
        prev_target
    } else {
        let e = exponent(d, half_life);
        let integral = (e / RADIX as int) as nat;
        let mult = fraction_multiplier(e % RADIX as int);
        if d < 0 {
            min_int(u64_max(), (prev_target * mult / RADIX as int) * pow2(integral))
        } else {
            (prev_target * RADIX / mult) / pow2(integral) as int
        }
    }
}

/// The time over which a constant drift halves or doubles the coinbase target:
/// half an epoch of anchor times, saturating at `u32::MAX`.
pub open spec fn half_life_spec(blocks_per_epoch: int, anchor_time: int) -> int {
    min_int(0xffff_ffff, (blocks_per_epoch / 2) * anchor_time)
}

/// The next coinbase target, or `None` where the half life is zero.
pub open spec fn coinbase_target_spec(
    last_coinbase_target: int,
    last_coinbase_timestamp: int,
    next_timestamp: int,
    anchor_time: int,
    blocks_per_epoch: int,
    genesis_target: int,
) -> Option<int> {
    let h = half_life_spec(blocks_per_epoch, anchor_time);
    if h == 0 {
        None
    } else {
        Some(max_int(genesis_target, retarget_spec(last_coinbase_target, last_coinbase_timestamp,
            next_timestamp, anchor_time, h)))
    }
}

/// The proof target: one part in 128 of the coinbase target plus one, never below the genesis
/// proof target.
pub open spec fn proof_target_spec(coinbase_target: int, genesis_proof_target: int) -> int {
    max_int(genesis_proof_target, coinbase_target / 128 + 1)
}

proof fn lemma_fraction_term_bound(f: int)
    requires
        0 <= f < RADIX,
    ensures
        0 <= fraction_term(f) < RADIX,
{
    assert(POLY_C1 * f <= POLY_C1 * 65535) by (nonlinear_arith)
        requires 0 <= f <= 65535;
    assert(f * f <= 65535 * 65535) by (nonlinear_arith)
        requires 0 <= f <= 65535;
    assert(f * f * f <= 65535 * 65535 * 65535) by (nonlinear_arith)
        requires 0 <= f <= 65535;
    assert(POLY_C2 * (f * f) <= POLY_C2 * (65535 * 65535)) by (nonlinear_arith)
        requires 0 <= f * f <= 65535 * 65535;
    assert(POLY_C3 * (f * f * f) <= POLY_C3 * (65535 * 65535 * 65535)) by (nonlinear_arith)
        requires 0 <= f * f * f <= 65535 * 65535 * 65535;
    assert(0 <= f * f) by (nonlinear_arith);
    assert(0 <= f * f * f) by (nonlinear_arith)
        requires 0 <= f;
}

/// `RADIX * 2^(f / RADIX)` for `f < RADIX`.
fn fraction_multiplier_exec(f: u128) -> (r: u128)
    requires
        f < RADIX,
    ensures
        r == fraction_multiplier(f as int),
        RADIX <= r < 2 * RADIX,
{
    proof {
        lemma_fraction_term_bound(f as int);
        assert(f * f <= 65535 * 65535) by (nonlinear_arith)
            requires f <= 65535;
        assert(f * f * f <= 65535 * 65535 * 65535) by (nonlinear_arith)
            requires f <= 65535;
        assert(POLY_C1 * f <= POLY_C1 * 65535) by (nonlinear_arith)
            requires f <= 65535;
        assert(POLY_C2 * (f * f) <= POLY_C2 * (65535 * 65535)) by (nonlinear_arith)
            requires f * f <= 65535 * 65535;
        assert(POLY_C3 * (f * f * f) <= POLY_C3 * (65535 * 65535 * 65535)) by (nonlinear_arith)
            requires f * f * f <= 65535 * 65535 * 65535;
    }
    let sq: u128 = f * f;
    let cube: u128 = sq * f;
    let sum: u128 = POLY_C1 * f + POLY_C2 * sq + POLY_C3 * cube + POLY_HALF;
    RADIX + sum / POLY_SCALE
}

/// `2^n` for `n < 64`.
fn pow2_exec(n: u32) -> (r: u128)
    requires
        n < 64,
    ensures
        r == pow2(n as nat),
{
    let mut p: u128 = 1;
    let mut k: u32 = 0;
    proof {
        lemma2_to64();
    }
    while k < n
        invariant
            k <= n < 64,
            p == pow2(k as nat),
        decreases n - k,
    {
        proof {
            lemma_pow2_unfold((k + 1) as nat);
            lemma_pow2_strictly_increases(k as nat, 64);
            lemma2_to64();
        }
        p = p * 2;
        k = k + 1;
    }
    p
}

/// `min(u64::MAX, t * 2^i)`.
fn scale_up(t: u128, i: u128) -> (r: u64)
    ensures
        r == min_int(u64_max(), t * pow2(i as nat)),
{
    proof {
        lemma_pow2_pos(i as nat);
    }
    if t == 0 {
        return 0;
    }
    if i >= 64 {
        proof {
            lemma2_to64();
            if i > 64 {
                lemma_pow2_strictly_increases(64, i as nat);
            }
            assert(t * pow2(i as nat) >= pow2(i as nat)) by (nonlinear_arith)
                requires t >= 1, pow2(i as nat) > 0;
        }
        return u64::MAX;
    }
    let p = pow2_exec(i as u32);
    match t.checked_mul(p) {
        None => u64::MAX,
        Some(x) => if x > u64::MAX as u128 {
            u64::MAX
        } else {
            x as u64
        },
    }
}

/// `t / 2^i` for a `t` that fits in a `u64`.
fn scale_down(t: u128, i: u128) -> (r: u64)
    requires
        t <= u64::MAX,
    ensures
        r == t as int / pow2(i as nat) as int,
{
    proof {
        lemma_pow2_pos(i as nat);
    }
    if i >= 64 {
        proof {
            lemma2_to64();
            if i > 64 {
                lemma_pow2_strictly_increases(64, i as nat);
            }
            lemma_basic_div(t as int, pow2(i as nat) as int);
        }
        return 0;
    }
    let p = pow2_exec(i as u32);
    proof {
        assert(t / p <= t) by (nonlinear_arith)
            requires p >= 1;
    }
    (t / p) as u64
}

/// Retargets `prev_target` after a block that came `timestamp - prev_timestamp`
/// seconds after the previous one, against an expected `anchor_time`.
pub fn retarget(prev_target: u64, prev_timestamp: i64, timestamp: i64, anchor_time: u16, half_life: u32) -> (r: u64)
    requires
        half_life > 0,
    ensures
        r == retarget_spec(prev_target as int, prev_timestamp as int, timestamp as int, anchor_time as int,
            half_life as int),
        drift(prev_timestamp as int, timestamp as int, anchor_time as int) < 0 ==> r >= prev_target,
        drift(prev_timestamp as int, timestamp as int, anchor_time as int) > 0 ==> r <= prev_target,
{
    let diff: i128 = timestamp as i128 - prev_timestamp as i128;
    let elapsed: i128 = if diff < 1 { 1 } else { diff };
    let drift: i128 = elapsed - anchor_time as i128;
    if drift == 0 {
        return prev_target;
    }
    let magnitude: u128 = if drift < 0 { (-drift) as u128 } else { drift as u128 };
    let e: u128 = RADIX * magnitude / half_life as u128;
    let integral: u128 = e / RADIX;
    let mult = fraction_multiplier_exec(e % RADIX);
    if drift < 0 {
        proof {
            assert(prev_target * mult <= 0xffff_ffff_ffff_ffff * 2 * RADIX) by (nonlinear_arith)
                requires prev_target <= 0xffff_ffff_ffff_ffff, mult < 2 * RADIX;
        }
        let scaled: u128 = prev_target as u128 * mult / RADIX;
        proof {
            assert(prev_target as int * mult as int / RADIX as int >= prev_target) by (nonlinear_arith)
                requires mult >= RADIX, prev_target >= 0;
            lemma_pow2_pos(integral as nat);
            assert(scaled * pow2(integral as nat) >= scaled) by (nonlinear_arith)
                requires pow2(integral as nat) >= 1, scaled >= 0;
        }
        scale_up(scaled, integral)
    } else {
        proof {
            assert((prev_target as int) * (RADIX as int) / (mult as int) <= prev_target) by (nonlinear_arith)
                requires mult >= RADIX, prev_target >= 0;
        }
        let scaled: u128 = prev_target as u128 * RADIX / mult;
        proof {
            lemma_pow2_pos(integral as nat);
            assert(scaled as int / pow2(integral as nat) as int <= scaled) by (nonlinear_arith)
                requires pow2(integral as nat) >= 1, scaled >= 0;
        }
        scale_down(scaled, integral)
    }
}

/// The next coinbase target: the last coinbase target retargeted over the time since
/// the last coinbase, never below `genesis_target`.
///
/// Fails with `ArithmeticOverflow` where the half life, half an epoch of anchor
/// times, is zero.
pub fn coinbase_target(
    last_coinbase_target: u64,
    last_coinbase_timestamp: i64,
    next_timestamp: i64,
    anchor_time: u16,
    blocks_per_epoch: u32,
    genesis_target: u64,
) -> (r: Result<u64, crate::error::LedgerError>)
    ensures
        match coinbase_target_spec(last_coinbase_target as int, last_coinbase_timestamp as int,
            next_timestamp as int, anchor_time as int, blocks_per_epoch as int, genesis_target as int) {
            Some(t) => r == Ok::<u64, crate::error::LedgerError>(t as u64),
            None => r == Err::<u64, crate::error::LedgerError>(crate::error::LedgerError::ArithmeticOverflow),
        },
        r is Ok ==> r->Ok_0 >= genesis_target,
        coinbase_target_spec(last_coinbase_target as int, last_coinbase_timestamp as int,
            next_timestamp as int, anchor_time as int, blocks_per_epoch as int, genesis_target as int) is Some
            ==> r is Ok && r->Ok_0 == coinbase_target_spec(last_coinbase_target as int, last_coinbase_timestamp as int,
            next_timestamp as int, anchor_time as int, blocks_per_epoch as int, genesis_target as int)->Some_0,
{
    proof {
        assert((blocks_per_epoch / 2) * anchor_time >= 0) by (nonlinear_arith)
            requires blocks_per_epoch >= 0, anchor_time >= 0;
        assert((blocks_per_epoch / 2) * anchor_time <= 0xffff_ffff * 0xffff) by (nonlinear_arith)
            requires blocks_per_epoch / 2 <= 0xffff_ffff, anchor_time <= 0xffff, blocks_per_epoch >= 0, anchor_time >= 0;
    }
    let product: u64 = (blocks_per_epoch / 2) as u64 * anchor_time as u64;
    let half_life: u32 = if product > u32::MAX as u64 { u32::MAX } else { product as u32 };
    if half_life == 0 {
        return Err(crate::error::LedgerError::ArithmeticOverflow);
    }
    let candidate = retarget(last_coinbase_target, last_coinbase_timestamp, next_timestamp, anchor_time, half_life);
    if candidate >= genesis_target {
        Ok(candidate)
    } else {
        Ok(genesis_target)
    }
}

/// The proof target that an individual prover solution must meet, derived from the
/// coinbase target.
pub fn proof_target(coinbase_target: u64, genesis_proof_target: u64) -> (r: u64)
    ensures
        r == proof_target_spec(coinbase_target as int, genesis_proof_target as int),
        r >= genesis_proof_target,
{
    let derived = coinbase_target / 128 + 1;
    if derived >= genesis_proof_target {
        derived
    } else {
        genesis_proof_target
    }
}

} // verus!
