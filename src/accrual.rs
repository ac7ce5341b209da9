//! Per-block interest distribution.
use vstd::prelude::*;
use crate::engine::{Module, ModuleView};
use crate::interest::{
    calculate_interest_rate, DAYS_PER_YEAR, SEC_PER_DAY, interest_of, loan_interest_of, rate_of, saving_rate_of, utilization,
    utilization_of,
};
use crate::types::{lemma_mul_u64_fits, Balance, LoanError, PriceInUSDT, INTEREST_RATE_PREC};

verus! {

impl ModuleView {
    /// Seconds since interest was last distributed, as seen at `now`.
    pub open spec fn elapsed(self, now: u64) -> int {
        if now >= self.bonus_time {
            now - self.bonus_time
        } else {
            0
        }
    }

    /// The pool's unlent deposits.
    pub open spec fn deposit_total(self) -> int {
        self.balances[(self.config.collection_asset_id, self.config.collection_account_id)] as int
    }

    /// Charges the loan at position `k` its part of `interest`: the amount is
    /// drawn on the loan where its credit allows, and moved from the owner into
    /// the pool where the owner holds it; neither failure stops the other.
    pub open spec fn accrue_step(
        self,
        k: int,
        interest: int,
        total_loan: int,
        price: PriceInUSDT,
    ) -> ModuleView {
        let l = self.loans[k];
        let amount = loan_interest_of(interest, l.loan_balance_total as int, total_loan);
        if interest * l.loan_balance_total > u128::MAX || amount > u64::MAX {
            self
        } else {
            let v1 = if self.debt_error(l.who, l.id, amount as Balance, price) is None {
                self.drawn(l.id, amount as Balance, price)
            } else {
                self
            };
            if v1.interest_error(l.who, amount as Balance) is None {
                v1.interest_paid(l.who, amount as Balance)
            } else {
                v1
            }
        }
    }

    /// The state after the first `n` loans are charged their interest, in order.
    pub open spec fn accrued(self, n: int, interest: int, total_loan: int, price: PriceInUSDT) -> ModuleView
        decreases n,
    {
        if n <= 0 {
            self
        } else {
            self.accrued(n - 1, interest, total_loan, price).accrue_step(
                n - 1,
                interest,
                total_loan,
                price,
            )
        }
    }

    /// Utilization of the pool, scaled by `INTEREST_RATE_PREC`; zero for an empty pool.
    pub open spec fn utilization_now(self) -> int {
        if self.total_loan + self.deposit_total() == 0 {
            0
        } else {
            utilization_of(self.total_loan as int, self.deposit_total())
        }
    }

    /// Whether the interest accrued by time `now` is too large to compute; a
    /// distribution at `now` is then refused and changes nothing.
    pub open spec fn accrual_overflows(self, now: u64) -> bool {
        self.total_loan > 0 && self.elapsed(now) * self.total_loan * rate_of(self.utilization_now())
            > u128::MAX
    }

    /// The state after interest is distributed at time `now`: the rates are
    /// recomputed from the pool's utilization (zero for an empty pool) and
    /// every loan is charged its share of the interest accrued since the last
    /// distribution. Where that interest overflows, nothing changes.
    pub open spec fn interest_accrued(self, now: u64, price: PriceInUSDT) -> ModuleView {
        let total_loan = self.total_loan as int;
        let u = self.utilization_now();
        let rate = rate_of(u);
        let v = ModuleView { bonus_time: now, ..self };
        if self.accrual_overflows(now) {
            self
        } else {
            let interest = interest_of(self.elapsed(now), total_loan, rate);
            let v2 = if total_loan > 0 {
                v.accrued(self.loans.len() as int, interest, total_loan, price)
            } else {
                v
            };
            ModuleView {
                loan_interest_rate_current: rate as u128,
                saving_interest_rate: saving_rate_of(rate, u) as u128,
                ..v2
            }
        }
    }
}

impl Module {
    /// The part of `interest` owed by a loan of `debt` out of `total_loan`,
    /// where it can be computed and fits in a balance.
    pub(crate) fn loan_interest(interest: u128, debt: Balance, total_loan: Balance) -> (r: Option<Balance>)
        requires
            total_loan > 0,
        ensures
            r is None <==> interest * debt > u128::MAX || loan_interest_of(
                interest as int,
                debt as int,
                total_loan as int,
            ) > u64::MAX,
            r matches Some(a) ==> a == loan_interest_of(interest as int, debt as int, total_loan as int),
    {
        proof {
            lemma_mul_u64_fits(total_loan as int, INTEREST_RATE_PREC as int);
        }
        let d: u128 = total_loan as u128 * INTEREST_RATE_PREC;
        match interest.checked_mul(debt as u128) {
            None => None,
            Some(n) => {
                let a: u128 = n / d;
                if a > u64::MAX as u128 {
                    None
                } else {
                    Some(a as u64)
                }
            },
        }
    }

    /// Charges the loans, in order, their parts of `interest` accrued by
    /// `total_loan`. Each charge is drawn on the loan and paid by its owner
    /// into the pool on a best-effort basis: either step may be refused
    /// (credit exhausted, owner short of funds) without undoing the other or
    /// stopping the scan.
    fn charge_loans(&mut self, interest: u128, total_loan: Balance, btc_price: PriceInUSDT)
        requires
            old(self)@.wf(),
            total_loan > 0,
        ensures
            final(self)@ == old(self)@.accrued(
                old(self)@.loans.len() as int,
                interest as int,
                total_loan as int,
                btc_price,
            ),
            final(self)@.wf(),
    {
        let ghost start = self@;
        let count = self.loans.len();
        let mut i: usize = 0;
        while i < count
            invariant
                0 <= i <= count,
                count == start.loans.len(),
                total_loan > 0,
                self@ == start.accrued(i as int, interest as int, total_loan as int, btc_price),
                self@.wf(),
                self.loans@.len() == count,
            decreases count - i,
        {
            let ghost before = self@;
            let loan = self.loans[i];
            match Self::loan_interest(interest, loan.loan_balance_total, total_loan) {
                None => {},
                Some(amount) => {
                    let _drawn = self.add_debt(loan.who, loan.id, amount, btc_price);
                    let _paid = self.pay_interest(loan.who, amount);
                },
            }
            assert(self@ == before.accrue_step(i as int, interest as int, total_loan as int, btc_price));
            i += 1;
        }
    }

    /// Distributes interest at time `now`: recomputes the loan and saving
    /// rates from the pool's utilization and charges every loan its share of
    /// the interest accrued since the last distribution. Refused, with nothing
    /// changed, where that interest is too large to compute.
    pub fn calculate_loan_interest_rate(&mut self, now: u64, btc_price: PriceInUSDT) -> (r: Result<
        (),
        LoanError,
    >)
        requires
            old(self)@.wf(),
        ensures
            r is Err <==> old(self)@.accrual_overflows(now),
            r is Err ==> r == Err::<(), LoanError>(LoanError::Overflow) && *final(self) == *old(self),
            final(self)@ == old(self)@.interest_accrued(now, btc_price),
            final(self)@.wf(),
    {
        let ghost v0 = self@;
        let total_loan = self.total_loan;
        let total_deposit = self.assets.free_balance(
            self.config.collection_asset_id,
            self.config.collection_account_id,
        );
        let elapsed: u64 = if now >= self.bonus_time {
            now - self.bonus_time
        } else {
            0
        };
        let u: u128 = if total_loan as u128 + total_deposit as u128 == 0 {
            0
        } else {
            utilization(total_loan, total_deposit)
        };
        let rate = calculate_interest_rate(u);
        proof {
            lemma_mul_u64_fits(elapsed as int, total_loan as int);
        }
        let et: u128 = elapsed as u128 * total_loan as u128;
        let accrued = et.checked_mul(rate);
        if total_loan > 0 && accrued.is_none() {
            return Err(LoanError::Overflow);
        }
        self.bonus_time = now;
        if total_loan > 0 {
            match accrued {
                Some(n) => self.charge_loans(n / SEC_PER_DAY / DAYS_PER_YEAR, total_loan, btc_price),
                None => {},
            }
        }
        assert(rate * u <= 46000000 * INTEREST_RATE_PREC) by (nonlinear_arith)
            requires
                rate <= 46000000,
                u <= INTEREST_RATE_PREC,
        ;
        self.loan_interest_rate_current = rate;
        self.saving_interest_rate = rate * u / INTEREST_RATE_PREC;
        proof {
            assert(self@ == v0.interest_accrued(now, btc_price));
        }
        Ok(())
    }
}

} // verus!
