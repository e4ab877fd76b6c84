use vstd::prelude::*;
use vstd::arithmetic::div_mod::{
    lemma_div_is_ordered, lemma_div_multiples_vanish, lemma_hoist_over_denominator,
};
use vstd::arithmetic::mul::{lemma_mul_inequality, lemma_mul_nonnegative};

verus! {

/// Basis points of a fully vested amount: 10 000 bp = 100%.
pub const FULL_BP: u32 = 10_000;

/// One step of a vesting schedule: by time `ts`, an additional `bp` basis
/// points (1 bp = 0.01%) of an envelope's total amount are unlocked. Order
/// within a schedule carries no meaning; the evaluator sums every slice
/// whose time has passed.
#[derive(Clone, Copy, Debug, PartialEq, Eq, Structural)]
pub struct VestSlice {
    pub ts: i64,
    pub bp: u32,
}

/// Sum of the basis points of every slice of `s` whose time is at most `now`.
pub open spec fn sum_vested_bp(s: Seq<VestSlice>, now: int) -> int
    decreases s.len(),
{
    if s.len() == 0 {
        0
    } else {
        sum_vested_bp(s.drop_last(), now) + (if s.last().ts <= now {
            s.last().bp as int
        } else {
            0
        })
    }
}

/// Fraction of an amount, in basis points, that the schedule `s` has vested
/// by time `now`. An empty schedule is fully vested; otherwise the sum of
/// the passed slices, clamped to 10 000.
pub open spec fn vested_bp(s: Seq<VestSlice>, now: int) -> int {
    if s.len() == 0 {
        FULL_BP as int
    } else if sum_vested_bp(s, now) > FULL_BP as int {
        FULL_BP as int
    } else {
        sum_vested_bp(s, now)
    }
}

pub proof fn lemma_sum_vested_bp_nonneg(s: Seq<VestSlice>, now: int)
    ensures
        0 <= sum_vested_bp(s, now),
    decreases s.len(),
{
    if s.len() > 0 {
        lemma_sum_vested_bp_nonneg(s.drop_last(), now);
    }
}

pub proof fn lemma_sum_vested_bp_monotone(s: Seq<VestSlice>, t1: int, t2: int)
    requires
        t1 <= t2,
    ensures
        sum_vested_bp(s, t1) <= sum_vested_bp(s, t2),
    decreases s.len(),
{
    if s.len() > 0 {
        lemma_sum_vested_bp_monotone(s.drop_last(), t1, t2);
    }
}

/// For a fixed schedule the vested fraction never decreases as time moves
/// forward.
pub proof fn lemma_vested_bp_monotone(s: Seq<VestSlice>, t1: int, t2: int)
    requires
        t1 <= t2,
    ensures
        vested_bp(s, t1) <= vested_bp(s, t2),
{
    if s.len() > 0 {
        lemma_sum_vested_bp_monotone(s, t1, t2);
    }
}

/// The vested fraction always lies in `[0, 10000]`, even when a schedule's
/// slice basis points sum above 10 000.
pub proof fn lemma_vested_bp_range(s: Seq<VestSlice>, now: int)
    ensures
        0 <= vested_bp(s, now) <= FULL_BP as int,
{
    if s.len() > 0 {
        lemma_sum_vested_bp_nonneg(s, now);
    }
}

proof fn lemma_sum_vested_bp_take_succ(s: Seq<VestSlice>, i: int, now: int)
    requires
        0 <= i < s.len(),
    ensures
        sum_vested_bp(s.take(i + 1), now) == sum_vested_bp(s.take(i), now) + (if s[i].ts <= now {
            s[i].bp as int
        } else {
            0
        }),
{
    assert(s.take(i + 1).drop_last() =~= s.take(i));
    assert(s.take(i + 1).last() == s[i]);
}

/// Pure vesting evaluator: the basis points of `vesting` vested at time
/// `now`. An empty schedule counts as fully vested; otherwise the passed
/// slices are summed with saturating addition and clamped to 10 000.
pub fn vested_fraction(vesting: &Vec<VestSlice>, now: i64) -> (r: u32)
    ensures
        r == vested_bp(vesting@, now as int),
        r <= FULL_BP,
{
    if vesting.len() == 0 {
        return FULL_BP;
    }
    let ghost s = vesting@;
    let mut sum: u32 = 0;
    let mut i: usize = 0;
    while i < vesting.len()
        invariant
            0 <= i <= s.len(),
            s == vesting@,
            sum_vested_bp(s.take(i as int), now as int) <= FULL_BP as int ==> sum
                == sum_vested_bp(s.take(i as int), now as int),
            sum_vested_bp(s.take(i as int), now as int) > FULL_BP as int ==> sum > FULL_BP,
        decreases s.len() - i,
    {
        proof {
            lemma_sum_vested_bp_take_succ(s, i as int, now as int);
            lemma_sum_vested_bp_nonneg(s.take(i as int), now as int);
        }
        let vs = vesting[i];
        if vs.ts <= now {
            sum = sum.saturating_add(vs.bp);
        }
        i += 1;
    }
    proof {
        assert(s.take(s.len() as int) =~= s);
    }
    if sum > FULL_BP {
        FULL_BP
    } else {
        sum
    }
}

/// Portion of `amount` that `bp` basis points denote, truncated toward
/// zero: `floor(amount * bp / 10000)`.
pub open spec fn vested_amount_of(amount: int, bp: int) -> int {
    (amount * bp) / (FULL_BP as int)
}

/// The vested portion of a positive amount at a fraction of at most 10 000
/// basis points lies between zero and the amount itself.
pub proof fn lemma_vested_amount_of_bounds(amount: int, bp: int)
    requires
        0 < amount,
        0 <= bp <= FULL_BP as int,
    ensures
        0 <= vested_amount_of(amount, bp) <= amount,
{
    let full: int = FULL_BP as int;
    lemma_mul_nonnegative(amount, bp);
    lemma_div_is_ordered(0, amount * bp, full);
    lemma_mul_inequality(bp, full, amount);
    assert(bp * amount == amount * bp) by (nonlinear_arith);
    assert(full * amount == amount * full) by (nonlinear_arith);
    lemma_div_is_ordered(amount * bp, full * amount, full);
    lemma_div_multiples_vanish(amount, full);
}

/// Computes `floor(amount * bp / 10000)` with exact integer arithmetic and
/// no overflow, by splitting `amount` into its quotient and remainder by
/// 10 000.
pub fn vested_amount(amount: i128, bp: u32) -> (r: i128)
    requires
        0 < amount,
        bp <= FULL_BP,
    ensures
        r == vested_amount_of(amount as int, bp as int),
        0 <= r <= amount,
{
    proof {
        lemma_vested_amount_of_bounds(amount as int, bp as int);
    }
    let ua: u128 = amount as u128;
    let ubp: u128 = bp as u128;
    let q: u128 = ua / 10_000u128;
    let rem: u128 = ua % 10_000u128;
    proof {
        let full: int = FULL_BP as int;
        let a: int = ua as int;
        let b: int = ubp as int;
        assert(a == full * (q as int) + (rem as int)) by {
            vstd::arithmetic::div_mod::lemma_fundamental_div_mod(a, full);
        }
        assert(0 <= a % full < full) by {
            vstd::arithmetic::div_mod::lemma_mod_bound(a, full);
        }
        // The two pieces of the final sum stay within bounds.
        lemma_mul_inequality(b, full, q as int);
        assert(full * (q as int) == (q as int) * full) by (nonlinear_arith);
        // floor((rem * bp + (q * bp) * 10000) / 10000) == q * bp + floor(rem * bp / 10000)
        lemma_hoist_over_denominator((rem as int) * b, (q as int) * b, FULL_BP as nat);
        assert((rem as int) * b + ((q as int) * b) * full == a * b) by (nonlinear_arith)
            requires
                a == full * (q as int) + (rem as int),
        ;
        lemma_mul_nonnegative(rem as int, b);
        vstd::arithmetic::mul::lemma_mul_upper_bound(rem as int, full, b, full);
        lemma_div_is_ordered(0, (rem as int) * b, full);
        lemma_mul_nonnegative(q as int, b);
    }
    let part: u128 = (rem * ubp) / 10_000u128;
    let res: u128 = q * ubp + part;
    res as i128
}

} // verus!
