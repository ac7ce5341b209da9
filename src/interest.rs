use vstd::prelude::*;
use crate::types::INTEREST_RATE_PREC;

verus! {

/// Seconds in a day.
pub const SEC_PER_DAY: u128 = 86400;

/// Days in a year.
pub const DAYS_PER_YEAR: u128 = 365;

/// Utilization below this bound (scaled by `INTEREST_RATE_PREC`) is priced on the low slope.
pub const LOW_UTILIZATION: u128 = 40000000;

/// Utilization from this bound on (scaled by `INTEREST_RATE_PREC`) is priced on the steep curve.
pub const HIGH_UTILIZATION: u128 = 80000000;

/// Share of the pool that is lent out, scaled by `INTEREST_RATE_PREC`.
pub open spec fn utilization_of(total_loan: int, total_deposit: int) -> int {
    total_loan * INTEREST_RATE_PREC as int / (total_loan + total_deposit)
}

/// The steep part of the curve at utilization `w`, given at 10^-4 resolution.
pub open spec fn steep_rate(w: int) -> int {
    let c = w * w * w;
    (30 * (c * c) + 10 * c * 1000000000000 + 6000000000000000000000000) / 1000000000000000000
}

/// Annualized loan interest rate, scaled by `INTEREST_RATE_PREC`, at utilization `u`
/// (scaled the same way): a gentle slope up to 40%, a steeper one up to 80%,
/// and a sixth-degree curve beyond.
pub open spec fn rate_of(u: int) -> int {
    if u < LOW_UTILIZATION as int {
        (u + 50000000) / 10
    } else if u < HIGH_UTILIZATION as int {
        (20 * u + 100000000) / 100
    } else {
        steep_rate(u / 10000)
    }
}

/// Annualized saving rate implied by a loan rate at a utilization, both scaled
/// by `INTEREST_RATE_PREC`: depositors earn the loan rate on the lent-out share.
pub open spec fn saving_rate_of(rate: int, u: int) -> int {
    rate * u / INTEREST_RATE_PREC as int
}

/// Interest accrued by `total_loan` at `rate` over `elapsed` seconds, scaled by
/// `INTEREST_RATE_PREC`.
pub open spec fn interest_of(elapsed: int, total_loan: int, rate: int) -> int {
    elapsed * total_loan * rate / SEC_PER_DAY as int / DAYS_PER_YEAR as int
}

/// The part of `interest` (scaled by `INTEREST_RATE_PREC`) owed by a loan of
/// `debt` out of `total_loan`.
pub open spec fn loan_interest_of(interest: int, debt: int, total_loan: int) -> int {
    interest * debt / (total_loan * INTEREST_RATE_PREC as int)
}

proof fn lemma_steep_monotonic(w1: int, w2: int)
    requires
        0 <= w1 <= w2,
    ensures
        steep_rate(w1) <= steep_rate(w2),
{
    let c1 = w1 * w1 * w1;
    let c2 = w2 * w2 * w2;
    assert(0 <= c1 <= c2) by (nonlinear_arith)
        requires
            0 <= w1 <= w2,
            c1 == w1 * w1 * w1,
            c2 == w2 * w2 * w2,
    ;
    assert(c1 * c1 <= c2 * c2) by (nonlinear_arith)
        requires
            0 <= c1 <= c2,
    ;
    let n1 = 30 * (c1 * c1) + 10 * c1 * 1000000000000 + 6000000000000000000000000;
    let n2 = 30 * (c2 * c2) + 10 * c2 * 1000000000000 + 6000000000000000000000000;
    assert(n1 <= n2) by (nonlinear_arith)
        requires
            0 <= c1 <= c2,
            c1 * c1 <= c2 * c2,
            n1 == 30 * (c1 * c1) + 10 * c1 * 1000000000000 + 6000000000000000000000000,
            n2 == 30 * (c2 * c2) + 10 * c2 * 1000000000000 + 6000000000000000000000000,
    ;
    vstd::arithmetic::div_mod::lemma_div_is_ordered(n1, n2, 1000000000000000000);
}

/// The loan rate never decreases as utilization grows.
pub proof fn lemma_rate_monotonic(u1: int, u2: int)
    requires
        0 <= u1 <= u2,
    ensures
        rate_of(u1) <= rate_of(u2),
{
    vstd::arithmetic::div_mod::lemma_div_is_ordered(u1 / 10000, u2 / 10000, 1);
    vstd::arithmetic::div_mod::lemma_div_is_ordered(u1, u2, 10000);
    vstd::arithmetic::div_mod::lemma_div_is_ordered(u1 + 50000000, u2 + 50000000, 10);
    vstd::arithmetic::div_mod::lemma_div_is_ordered(20 * u1 + 100000000, 20 * u2 + 100000000, 100);
    if u2 >= HIGH_UTILIZATION as int {
        vstd::arithmetic::div_mod::lemma_div_is_ordered(80000000, u2, 10000);
        lemma_steep_monotonic(8000, u2 / 10000);
        assert(8000 * 8000 * 8000 == 512000000000int);
        assert(512000000000int * 512000000000int == 262144000000000000000000int);
        assert(30 * (512000000000int * 512000000000int) + 10 * 512000000000int * 1000000000000
            + 6000000000000000000000000 == 18984320000000000000000000int);
        assert(18984320000000000000000000int / 1000000000000000000 == 18984320);
        assert(steep_rate(8000) == 18984320);
        if u1 >= HIGH_UTILIZATION as int {
            lemma_steep_monotonic(u1 / 10000, u2 / 10000);
        }
    }
}

/// Utilization of the pool, scaled by `INTEREST_RATE_PREC`.
pub fn utilization(total_loan: u64, total_deposit: u64) -> (r: u128)
    requires
        total_loan as int + total_deposit as int > 0,
    ensures
        r == utilization_of(total_loan as int, total_deposit as int),
        r <= INTEREST_RATE_PREC,
{
    let d: u128 = total_loan as u128 + total_deposit as u128;
    proof {
        vstd::arithmetic::div_mod::lemma_div_is_ordered(
            total_loan as int * INTEREST_RATE_PREC as int,
            d as int * INTEREST_RATE_PREC as int,
            d as int,
        );
        vstd::arithmetic::div_mod::lemma_div_multiples_vanish(INTEREST_RATE_PREC as int, d as int);
        assert(total_loan as int * 100000000 <= d as int * 100000000) by (nonlinear_arith)
            requires
                total_loan as int <= d as int,
        ;
    }
    total_loan as u128 * INTEREST_RATE_PREC / d
}

/// The annualized loan interest rate at utilization `utilization_x`.
pub fn calculate_interest_rate(utilization_x: u128) -> (r: u128)
    requires
        utilization_x <= INTEREST_RATE_PREC,
    ensures
        r == rate_of(utilization_x as int),
        r <= 46000000,
{
    if utilization_x < LOW_UTILIZATION {
        (utilization_x + 50000000) / 10
    } else if utilization_x < HIGH_UTILIZATION {
        (20 * utilization_x + 100000000) / 100
    } else {
        let w: u128 = utilization_x / 10000;
        proof {
            vstd::arithmetic::div_mod::lemma_div_is_ordered(utilization_x as int, 100000000, 10000);
            lemma_steep_monotonic(w as int, 10000);
        }
        assert(w * w <= 100000000) by (nonlinear_arith)
            requires
                w <= 10000,
        ;
        let w2: u128 = w * w;
        assert(w2 * w <= 1000000000000) by (nonlinear_arith)
            requires
                w2 <= 100000000,
                w <= 10000,
        ;
        let c: u128 = w2 * w;
        assert(c * c <= 1000000000000000000000000) by (nonlinear_arith)
            requires
                c <= 1000000000000,
        ;
        let cc: u128 = c * c;
        (30 * cc + 10 * c * 1000000000000 + 6000000000000000000000000) / 1000000000000000000
    }
}

} // verus!
