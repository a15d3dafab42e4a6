use vstd::prelude::*;

verus! {

use vstd::arithmetic::div_mod::{
    lemma_fundamental_div_mod,
    lemma_fundamental_div_mod_converse,
    lemma_div_is_ordered,
    lemma_div_by_multiple,
    lemma_basic_div,
    lemma_hoist_over_denominator,
};

/// Fixed ceiling on the principal of a single loan, in the smallest unit.
pub const MAX_LOAN_AMOUNT: u128 = 100_000_000_000_000_000_000_000_000;

/// Milliseconds in one day.
pub const MS_PER_DAY: u64 = 86_400_000;

/// Length of a loan term: thirty days, in milliseconds.
pub const LOAN_TERM_MS: u64 = 2_592_000_000;

/// The largest count of whole overdue days that can arise from dividing a
/// millisecond timestamp difference by the length of a day.
pub const MAX_OVERDUE_DAYS: u64 = u64::MAX / MS_PER_DAY;

/// Overdue penalty rate: PENALTY_NUM / PENALTY_DEN of the original
/// principal accrues for each whole overdue day.
pub const PENALTY_NUM: u128 = 5;

/// See `PENALTY_NUM`.
pub const PENALTY_DEN: u128 = 1000;

/// Denominator of the interest estimate: 10_000 basis points times 365
/// days times the milliseconds in a day, so that a numerator of
/// `principal * rate_bps * elapsed_ms` comes out in value units.
pub const INTEREST_DENOM: u128 = 315_360_000_000_000;

/// `x` clamped into the `u128` range.
pub open spec fn sat128(x: int) -> u128 {
    if x > u128::MAX {
        u128::MAX
    } else if x < 0 {
        0
    } else {
        x as u128
    }
}

/// The quotient `n / d` rounded to the nearest integer, halves upward.
pub open spec fn round_half_up(n: int, d: int) -> int
    recommends
        d > 0,
{
    (n + d / 2) / d
}

/// A quotient is at least `k` once the dividend reaches `k * d`.
proof fn lemma_div_at_least(x: int, k: int, d: int)
    requires
        d > 0,
        k >= 0,
        x >= k * d,
    ensures
        x / d >= k,
{
    lemma_div_is_ordered(k * d, x, d);
    lemma_div_by_multiple(k, d);
}

/// The exact quotient and remainder of `(a * b) / d`, computed without any
/// loss; `None` exactly when the quotient does not fit in `u128`.
///
/// The product is never materialised: the multiplier `b` is consumed one
/// binary digit at a time, keeping every intermediate inside `u128`.
pub fn mul_div_rem(a: u128, b: u128, d: u128) -> (r: Option<(u128, u128)>)
    requires
        d > 0,
    ensures
        match r {
            Some(qr) => qr.0 == (a as int * b as int) / (d as int) && qr.1 == (a as int
                * b as int) % (d as int),
            None => (a as int * b as int) / (d as int) > u128::MAX,
        },
    decreases b,
{
    let ghost ai = a as int;
    let ghost bi = b as int;
    let ghost di = d as int;
    if b == 0 {
        proof {
            assert(ai * 0 == 0) by (nonlinear_arith);
        }
        return Some((0u128, 0u128));
    }
    let half = b / 2;
    let ghost hi = half as int;
    let ghost oi = (b % 2) as int;
    proof {
        lemma_fundamental_div_mod(bi, 2);
        assert(ai * bi == 2 * (ai * hi) + oi * ai) by (nonlinear_arith)
            requires
                bi == 2 * hi + oi,
        ;
    }
    match mul_div_rem(a, half, d) {
        None => {
            proof {
                assert(ai * hi <= ai * bi) by (nonlinear_arith)
                    requires
                        0 <= ai,
                        0 <= hi <= bi,
                ;
                lemma_div_is_ordered(ai * hi, ai * bi, di);
            }
            None
        },
        Some((q1, r1)) => {
            let ghost q1i = q1 as int;
            let ghost r1i = r1 as int;
            proof {
                lemma_fundamental_div_mod(ai * hi, di);
                assert(ai * hi == q1i * di + r1i) by (nonlinear_arith)
                    requires
                        ai * hi == di * ((ai * hi) / di) + (ai * hi) % di,
                        q1i == (ai * hi) / di,
                        r1i == (ai * hi) % di,
                ;
            }
            // Double the partial result: 2 * (ai * hi) == qd * di + rd.
            let mut q: u128;
            let mut rem: u128;
            match q1.checked_mul(2) {
                None => {
                    proof {
                        assert(ai * bi >= (2 * q1i) * di) by (nonlinear_arith)
                            requires
                                ai * bi == 2 * (ai * hi) + oi * ai,
                                ai * hi == q1i * di + r1i,
                                r1i >= 0,
                                oi >= 0,
                                ai >= 0,
                                di > 0,
                        ;
                        lemma_div_at_least(ai * bi, 2 * q1i, di);
                    }
                    return None;
                },
                Some(qd) => {
                    q = qd;
                },
            }
            if r1 >= d - r1 {
                rem = r1 - (d - r1);
                match q.checked_add(1) {
                    None => {
                        proof {
                            assert(ai * bi >= (2 * q1i + 1) * di) by (nonlinear_arith)
                                requires
                                    ai * bi == 2 * (ai * hi) + oi * ai,
                                    ai * hi == q1i * di + r1i,
                                    2 * r1i - di >= 0,
                                    oi >= 0,
                                    ai >= 0,
                                    di > 0,
                            ;
                            lemma_div_at_least(ai * bi, 2 * q1i + 1, di);
                        }
                        return None;
                    },
                    Some(qc) => {
                        q = qc;
                    },
                }
            } else {
                rem = r1 + r1;
            }
            proof {
                assert((2 * (ai * hi) == q as int * di + rem as int) && (0 <= (rem as int) && (rem as int) < di))
                    by (nonlinear_arith)
                    requires
                        ai * hi == q1i * di + r1i,
                        0 <= r1i < di,
                        (2 * r1i >= di) ==> (q as int == 2 * q1i + 1 && rem as int == 2 * r1i
                            - di),
                        (2 * r1i < di) ==> (q as int == 2 * q1i && rem as int == 2 * r1i),
                ;
            }
            let ghost qdi = q as int;
            let ghost rdi = rem as int;
            if b % 2 == 1 {
                let pq = a / d;
                let pr = a % d;
                let ghost pqi = pq as int;
                let ghost pri = pr as int;
                proof {
                    lemma_fundamental_div_mod(ai, di);
                    assert(ai == pqi * di + pri) by (nonlinear_arith)
                        requires
                            ai == di * (ai / di) + ai % di,
                            pqi == ai / di,
                            pri == ai % di,
                    ;
                }
                match q.checked_add(pq) {
                    None => {
                        proof {
                            assert(ai * bi >= (qdi + pqi) * di) by (nonlinear_arith)
                                requires
                                    ai * bi == 2 * (ai * hi) + oi * ai,
                                    2 * (ai * hi) == qdi * di + rdi,
                                    ai == pqi * di + pri,
                                    oi == 1,
                                    rdi >= 0,
                                    pri >= 0,
                                    di > 0,
                            ;
                            lemma_div_at_least(ai * bi, qdi + pqi, di);
                        }
                        return None;
                    },
                    Some(qa) => {
                        q = qa;
                    },
                }
                if rem >= d - pr {
                    rem = rem - (d - pr);
                    match q.checked_add(1) {
                        None => {
                            proof {
                                assert(ai * bi >= (qdi + pqi + 1) * di) by (nonlinear_arith)
                                    requires
                                        ai * bi == 2 * (ai * hi) + oi * ai,
                                        2 * (ai * hi) == qdi * di + rdi,
                                        ai == pqi * di + pri,
                                        oi == 1,
                                        rdi + pri - di >= 0,
                                        di > 0,
                                ;
                                lemma_div_at_least(ai * bi, qdi + pqi + 1, di);
                            }
                            return None;
                        },
                        Some(qc) => {
                            q = qc;
                        },
                    }
                } else {
                    rem = rem + pr;
                }
                proof {
                    assert((ai * bi == q as int * di + rem as int) && (0 <= (rem as int) && (rem as int) < di))
                        by (nonlinear_arith)
                        requires
                            ai * bi == 2 * (ai * hi) + oi * ai,
                            2 * (ai * hi) == qdi * di + rdi,
                            ai == pqi * di + pri,
                            oi == 1,
                            0 <= rdi < di,
                            0 <= pri < di,
                            (rdi + pri >= di) ==> (q as int == qdi + pqi + 1 && rem as int == rdi
                                + pri - di),
                            (rdi + pri < di) ==> (q as int == qdi + pqi && rem as int == rdi
                                + pri),
                    ;
                }
            } else {
                proof {
                    assert(ai * bi == q as int * di + rem as int) by (nonlinear_arith)
                        requires
                            ai * bi == 2 * (ai * hi) + oi * ai,
                            2 * (ai * hi) == qdi * di + rdi,
                            q as int == qdi,
                            rem as int == rdi,
                            oi == 0,
                    ;
                }
            }
            proof {
                lemma_fundamental_div_mod_converse(ai * bi, di, q as int, rem as int);
            }
            Some((q, rem))
        },
    }
}

/// `(a * b) / d` rounded half-up; `None` exactly when the rounded value
/// does not fit in `u128`.
pub fn mul_div_round_half_up(a: u128, b: u128, d: u128) -> (r: Option<u128>)
    requires
        d > 0,
    ensures
        match r {
            Some(v) => v == round_half_up(a as int * b as int, d as int),
            None => round_half_up(a as int * b as int, d as int) > u128::MAX,
        },
{
    let ghost ni = a as int * b as int;
    let ghost di = d as int;
    match mul_div_rem(a, b, d) {
        None => {
            proof {
                assert(ni >= 0) by (nonlinear_arith)
                    requires
                        ni == a as int * b as int,
                ;
                lemma_div_is_ordered(ni, ni + di / 2, di);
            }
            None
        },
        Some((q, rem)) => {
            proof {
                lemma_fundamental_div_mod(ni, di);
                assert(ni == (q as int) * di + (rem as int)) by (nonlinear_arith)
                    requires
                        ni == di * (ni / di) + ni % di,
                        q as int == ni / di,
                        rem as int == ni % di,
                ;
            }
            let h = d / 2;
            if rem >= d - h {
                proof {
                    assert(ni + di / 2 == (q as int + 1) * di + (rem as int + di / 2 - di))
                        by (nonlinear_arith)
                        requires
                            ni == (q as int) * di + (rem as int),
                    ;
                    lemma_fundamental_div_mod_converse(
                        ni + di / 2,
                        di,
                        q as int + 1,
                        rem as int + di / 2 - di,
                    );
                }
                match q.checked_add(1) {
                    None => None,
                    Some(v) => Some(v),
                }
            } else {
                proof {
                    lemma_fundamental_div_mod_converse(ni + di / 2, di, q as int, rem as int + di
                        / 2);
                }
                Some(q)
            }
        },
    }
}

/// The overdue penalty owed on a loan: `PENALTY_NUM / PENALTY_DEN` of the
/// original principal for each whole overdue day.
pub open spec fn penalty_total(principal: u128, overdue_days: int) -> int
    recommends
        overdue_days >= 0,
{
    (principal * overdue_days * PENALTY_NUM) / (PENALTY_DEN as int)
}

/// Computes `penalty_total` exactly; the ceilings on principal and days
/// keep the product inside `u128`.
pub fn compute_penalty(principal: u128, overdue_days: u64) -> (p: u128)
    requires
        principal <= MAX_LOAN_AMOUNT,
        overdue_days <= MAX_OVERDUE_DAYS,
    ensures
        p == penalty_total(principal, overdue_days as int),
{
    proof {
        assert(principal as int * overdue_days as int * 5 <= MAX_LOAN_AMOUNT as int
            * MAX_OVERDUE_DAYS as int * 5) by (nonlinear_arith)
            requires
                0 <= principal as int <= MAX_LOAN_AMOUNT as int,
                0 <= overdue_days as int <= MAX_OVERDUE_DAYS as int,
        ;
        assert(principal as int * overdue_days as int >= 0) by (nonlinear_arith)
            requires
                principal as int >= 0,
                overdue_days as int >= 0,
        ;
    }
    let t = principal * (overdue_days as u128);
    let t2 = t * PENALTY_NUM;
    t2 / PENALTY_DEN
}

/// Law: the overdue penalty never decreases as overdue days accumulate,
/// and no penalty at all is owed at zero overdue days.
pub proof fn lemma_penalty_monotonic(principal: u128, d1: int, d2: int)
    requires
        0 <= d1 <= d2,
    ensures
        penalty_total(principal, d1) <= penalty_total(principal, d2),
        penalty_total(principal, 0) == 0,
{
    assert(principal * d1 * PENALTY_NUM <= principal * d2 * PENALTY_NUM) by (nonlinear_arith)
        requires
            0 <= d1 <= d2,
            principal as int >= 0,
            PENALTY_NUM as int > 0,
    ;
    lemma_div_is_ordered(
        principal * d1 * PENALTY_NUM,
        principal * d2 * PENALTY_NUM,
        PENALTY_DEN as int,
    );
    assert(principal as int * 0 * PENALTY_NUM == 0) by (nonlinear_arith);
}

/// The staking reward for one lender: the pool times the lender's share of
/// all recorded lender balances, rounded half-up; zero whenever the pool,
/// the stake, or the staked total is empty.
pub open spec fn reward_amount(pool: u128, stake: u128, total: int) -> int {
    if pool == 0 || stake == 0 || total <= 0 {
        0
    } else {
        round_half_up(pool as int * stake as int, total)
    }
}

/// Computes `reward_amount` exactly; a stake never exceeding the staked
/// total keeps the reward at or below the whole pool.
pub fn compute_reward(pool: u128, stake: u128, total: u128) -> (r: u128)
    requires
        stake <= total,
    ensures
        r == reward_amount(pool, stake, total as int),
        r <= pool,
{
    if pool == 0 || stake == 0 {
        return 0;
    }
    let ghost pi = pool as int;
    let ghost si = stake as int;
    let ghost ti = total as int;
    proof {
        assert(pi * si <= pi * ti) by (nonlinear_arith)
            requires
                0 <= si <= ti,
                pi >= 0,
        ;
        assert(pi * si >= 0) by (nonlinear_arith)
            requires
                pi >= 0,
                si >= 0,
        ;
        lemma_div_is_ordered(pi * si + ti / 2, pi * ti + ti / 2, ti);
        lemma_hoist_over_denominator(ti / 2, pi, total as nat);
        lemma_basic_div(ti / 2, ti);
        // hence round_half_up(pi * si, ti) <= pi
    }
    match mul_div_round_half_up(pool, stake, total) {
        Some(v) => v,
        None => {
            proof {
                assert(false);
            }
            0
        },
    }
}

/// Helper for the proportionality law: the half-up rounded quotient
/// differs from the exact ratio by at most one half, stated multiplied
/// out to stay in integers.
pub proof fn lemma_rhu_within_half(n: int, d: int)
    requires
        n >= 0,
        d > 0,
    ensures
        2 * n <= 2 * (d * round_half_up(n, d)) + d,
        2 * (d * round_half_up(n, d)) <= 2 * n + d,
{
    let h = d / 2;
    let q = (n + h) / d;
    let m = (n + h) % d;
    lemma_fundamental_div_mod(n + h, d);
    lemma_fundamental_div_mod(d, 2);
    assert(n + h == d * q + m);
    assert(0 <= m < d);
    assert(d <= 2 * h + 1);
    assert(2 * n == 2 * (d * q) + 2 * m - 2 * h);
}

/// Law: rewards are proportional to stakes up to rounding. For a pool and
/// two stakes making up the whole staked total `t = b1 + b2`, each reward
/// is within one half of the exact share `pool * b / t`; multiplied out by
/// `2 * t`, each side differs by at most `t`.
pub proof fn lemma_reward_proportional(pool: u128, b1: u128, b2: u128)
    requires
        0 < pool,
        0 < b1,
        0 < b2,
        b1 + b2 <= u128::MAX,
    ensures
        ({
            let t = b1 as int + b2 as int;
            let r1 = reward_amount(pool, b1, t);
            let r2 = reward_amount(pool, b2, t);
            &&& 2 * (pool as int * b1 as int) <= 2 * (t * r1) + t
            &&& 2 * (t * r1) <= 2 * (pool as int * b1 as int) + t
            &&& 2 * (pool as int * b2 as int) <= 2 * (t * r2) + t
            &&& 2 * (t * r2) <= 2 * (pool as int * b2 as int) + t
        }),
{
    let t = b1 as int + b2 as int;
    assert(pool as int * b1 as int >= 0) by (nonlinear_arith)
        requires
            pool as int >= 0,
            b1 as int >= 0,
    ;
    assert(pool as int * b2 as int >= 0) by (nonlinear_arith)
        requires
            pool as int >= 0,
            b2 as int >= 0,
    ;
    lemma_rhu_within_half(pool as int * b1 as int, t);
    lemma_rhu_within_half(pool as int * b2 as int, t);
}

/// Interest accrued on a loan for the elapsed time, at `rate_bps` basis
/// points per 365-day year, rounded half-up.
pub open spec fn interest_amount(principal: u128, rate_bps: u64, elapsed_ms: u64) -> int {
    round_half_up(
        principal as int * rate_bps as int * elapsed_ms as int,
        INTEREST_DENOM as int,
    )
}

/// The advisory repayment estimate: principal plus accrued interest, each
/// leg saturating at the `u128` ceiling.
pub open spec fn repayment_estimate(principal: u128, rate_bps: u64, elapsed_ms: u64) -> u128 {
    principal.saturating_add(sat128(interest_amount(principal, rate_bps, elapsed_ms)))
}

/// Computes `repayment_estimate` exactly.
pub fn compute_estimate(principal: u128, rate_bps: u64, elapsed_ms: u64) -> (r: u128)
    ensures
        r == repayment_estimate(principal, rate_bps, elapsed_ms),
{
    proof {
        assert(rate_bps as int * elapsed_ms as int <= u64::MAX as int * u64::MAX as int)
            by (nonlinear_arith)
            requires
                0 <= rate_bps as int <= u64::MAX as int,
                0 <= elapsed_ms as int <= u64::MAX as int,
        ;
    }
    let rt = (rate_bps as u128) * (elapsed_ms as u128);
    proof {
        assert(principal as int * rt as int == principal as int * rate_bps as int
            * elapsed_ms as int) by (nonlinear_arith)
            requires
                rt as int == rate_bps as int * elapsed_ms as int,
        ;
    }
    match mul_div_round_half_up(principal, rt, INTEREST_DENOM) {
        Some(i) => principal.saturating_add(i),
        None => {
            proof {
                assert(principal as int * rt as int >= 0) by (nonlinear_arith)
                    requires
                        principal as int >= 0,
                        rt as int >= 0,
                ;
            }
            u128::MAX
        },
    }
}

} // verus!
