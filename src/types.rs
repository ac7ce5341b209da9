use vstd::prelude::*;

verus! {

/// Identifier of a loan; handed out in increasing order and never reused.
pub type LoanId = u64;

/// Identifier of an account of the asset ledger.
pub type AccountId = u64;

/// Identifier of an asset of the asset ledger.
pub type AssetId = u32;

/// An amount of some asset.
pub type Balance = u64;

/// A price of the collateral asset in units of the loan asset, scaled by `PRICE_PREC`.
pub type PriceInUSDT = u64;

/// A loan-to-value ratio, scaled by `LTV_PREC`.
pub type LTV = u128;

/// Fixed-point scale of loan-to-value ratios.
pub const LTV_PREC: u128 = 10000;

/// Fixed-point scale of prices.
pub const PRICE_PREC: u128 = 10000;

/// Scale of a loan-to-value ratio computed from a price: `PRICE_PREC * LTV_PREC`.
pub const LTV_PRICE_SCALE: u128 = PRICE_PREC * LTV_PREC;

/// Fixed-point scale of interest rates and of utilization.
pub const INTEREST_RATE_PREC: u128 = 100000000;

/// Health of an open loan.
#[derive(Clone, Copy, Debug, PartialEq, Eq, Structural)]
pub enum LoanHealth {
    Well,
    Warning(LTV),
    Liquidating(LTV),
}

/// A collateral amount together with the loan amount it backs.
#[derive(Clone, Copy, Debug, PartialEq, Eq, Structural)]
pub struct CollateralLoan {
    pub collateral_amount: Balance,
    pub loan_amount: Balance,
}

/// An open loan.
#[derive(Clone, Copy, Debug, PartialEq, Eq, Structural)]
pub struct Loan {
    pub id: LoanId,
    pub who: AccountId,
    /// Collateral locked when the loan was opened, plus every top-up.
    pub collateral_balance_original: Balance,
    /// Collateral not yet consumed by drawn debt.
    pub collateral_balance_available: Balance,
    /// Outstanding debt in the loan asset.
    pub loan_balance_total: Balance,
    pub status: LoanHealth,
}

/// Why an operation of the ledger was refused. A refused operation changes nothing.
#[derive(Clone, Copy, Debug, PartialEq, Eq, Structural)]
pub enum LoanError {
    /// The ledger is paused.
    Paused,
    /// An amount that must be positive is zero.
    ZeroAmount,
    /// The asset named is not the one this operation takes.
    WrongAsset,
    /// The caller is not the account this operation is reserved for.
    NotAllowed,
    /// An account holds less than the operation moves.
    InsufficientBalance,
    /// A credited balance would exceed the largest representable amount.
    BalanceOverflow,
    /// No open loan has the given id.
    LoanNotFound,
    /// The loan belongs to another account.
    NotOwner,
    /// The loan is being liquidated.
    LoanInLiquidation,
    /// The loan is not being liquidated.
    LoanNotInLiquidation,
    /// The total outstanding debt has reached the configured cap.
    ReachLoanCap,
    /// Both the collateral and the loan amount are zero.
    InvalidCollateralLoanAmounts,
    /// The loan-to-value ratio would reach the configured limit.
    OverLTVLimit,
    /// The collateral is below the configured minimum.
    BelowMinimumCollateral,
    /// The draw exceeds the credit the available collateral allows.
    ShortOfCredit,
    /// The price of the collateral asset is zero.
    InvalidPrice,
    /// The redemption asks for more than the account's shares are worth.
    RedeemTooMuch,
    /// The pool's totals do not cover the account's claim.
    InconsistentPool,
    /// Liquidation proceeds do not cover the loan's debt.
    ProceedsShort,
    /// A fixed-point computation does not fit its type.
    Overflow,
}

/// The outcome of an operation whose first failing check is `e`.
pub open spec fn outcome<T>(e: Option<LoanError>, v: T) -> Result<T, LoanError> {
    match e {
        Some(err) => Err(err),
        None => Ok(v),
    }
}

/// `debt * PRICE_PREC * LTV_PREC / (collateral * price)`, for a positive denominator.
pub open spec fn ltv_of(collateral: int, debt: int, price: int) -> int {
    debt * PRICE_PREC * LTV_PREC / (collateral * price)
}

/// The health bucket of a loan-to-value ratio: thresholds are inclusive and the
/// stricter bucket is checked first.
pub open spec fn classify(ltv: int, liquidation: int, warning: int) -> LoanHealth {
    if ltv >= liquidation {
        LoanHealth::Liquidating(ltv as u128)
    } else if ltv >= warning {
        LoanHealth::Warning(ltv as u128)
    } else {
        LoanHealth::Well
    }
}

/// The health of a loan with the given collateral and debt at the given price;
/// `None` where no ratio can be formed (no collateral left, or a zero price).
pub open spec fn health_of(
    collateral: int,
    debt: int,
    price: int,
    liquidation: int,
    warning: int,
) -> Option<LoanHealth> {
    if collateral == 0 || price == 0 {
        None
    } else {
        Some(classify(ltv_of(collateral, debt, price), liquidation, warning))
    }
}

/// The product of two 64-bit amounts fits in 128 bits.
pub proof fn lemma_mul_u64_fits(a: int, b: int)
    requires
        0 <= a <= u64::MAX,
        0 <= b <= u64::MAX,
    ensures
        0 <= a * b <= 340282366920938463426481119284349108225,
{
    assert(0 <= a * b <= 18446744073709551615 * 18446744073709551615) by (nonlinear_arith)
        requires
            0 <= a <= 18446744073709551615,
            0 <= b <= 18446744073709551615,
    ;
}

pub proof fn lemma_ltv_fits(collateral: int, debt: int, price: int)
    requires
        0 < collateral <= u64::MAX,
        0 <= debt <= u64::MAX,
        0 < price <= u64::MAX,
    ensures
        0 <= ltv_of(collateral, debt, price) <= debt * PRICE_PREC * LTV_PREC,
        ltv_of(collateral, debt, price) <= u128::MAX,
{
    let n = debt * PRICE_PREC * LTV_PREC;
    let d = collateral * price;
    assert(d >= 1) by (nonlinear_arith)
        requires
            collateral >= 1,
            price >= 1,
            d == collateral * price,
    ;
    assert(0 <= n <= 18446744073709551615 * 100000000) by (nonlinear_arith)
        requires
            0 <= debt <= 18446744073709551615,
            n == debt * 10000 * 10000,
    ;
    vstd::arithmetic::div_mod::lemma_div_is_ordered_by_denominator(n, 1, d);
    vstd::arithmetic::div_mod::lemma_div_pos_is_pos(n, d);
}

impl Loan {
    /// The loan-to-value ratio of a debt against a collateral at a price.
    pub fn get_ltv(collateral_amount: Balance, loan_amount: Balance, btc_price: PriceInUSDT) -> (r:
        LTV)
        requires
            collateral_amount > 0,
            btc_price > 0,
        ensures
            r == ltv_of(collateral_amount as int, loan_amount as int, btc_price as int),
    {
        proof {
            lemma_ltv_fits(collateral_amount as int, loan_amount as int, btc_price as int);
            lemma_mul_u64_fits(collateral_amount as int, btc_price as int);
        }
        let n: u128 = loan_amount as u128 * PRICE_PREC * LTV_PREC;
        let d: u128 = collateral_amount as u128 * btc_price as u128;
        assert(d > 0) by (nonlinear_arith)
            requires
                d == collateral_amount as int * btc_price as int,
                collateral_amount > 0,
                btc_price > 0,
        ;
        n / d
    }
}

/// Classifies a loan at the given price against the liquidation and warning
/// thresholds; `None` where the loan has no available collateral or the price is zero.
pub fn check_loan_health(loan: &Loan, btc_price: PriceInUSDT, liquidation: LTV, warning: LTV) -> (r:
    Option<LoanHealth>)
    ensures
        r == health_of(
            loan.collateral_balance_available as int,
            loan.loan_balance_total as int,
            btc_price as int,
            liquidation as int,
            warning as int,
        ),
{
    if loan.collateral_balance_available == 0 || btc_price == 0 {
        return None;
    }
    let current_ltv = Loan::get_ltv(
        loan.collateral_balance_available,
        loan.loan_balance_total,
        btc_price,
    );
    if current_ltv >= liquidation {
        return Some(LoanHealth::Liquidating(current_ltv));
    }
    if current_ltv >= warning {
        return Some(LoanHealth::Warning(current_ltv));
    }
    Some(LoanHealth::Well)
}

} // verus!
