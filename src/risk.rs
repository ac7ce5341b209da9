//! The per-block health scan of the open loans.
use vstd::prelude::*;
use crate::engine::{Module, ModuleView};
use crate::loans::{lemma_sum_same_amounts, loan_amounts_equal};
use crate::types::{check_loan_health, health_of, Loan, LoanHealth, LoanId, PriceInUSDT, LTV};

verus! {

/// Every id that the scan adds belongs to a loan of the scanned sequence.
pub proof fn lemma_newly_liquidating_ids(v: ModuleView, s: Seq<Loan>, price: PriceInUSDT, x: LoanId)
    requires
        v.newly_liquidating(s, price).contains(x),
    ensures
        exists|j: int| 0 <= j < s.len() && (#[trigger] s[j]).id == x,
    decreases s.len(),
{
    let rest = v.newly_liquidating(s.drop_last(), price);
    if rest.contains(x) {
        lemma_newly_liquidating_ids(v, s.drop_last(), price, x);
        let j = choose|j: int| 0 <= j < s.drop_last().len() && (#[trigger] s.drop_last()[j]).id == x;
        assert(s[j] == s.drop_last()[j]);
    } else {
        assert(s[s.len() - 1].id == x);
    }
}

impl ModuleView {
    /// Whether the health scan at `price` sends loan `l` into liquidation.
    pub open spec fn starts_liquidating(self, l: Loan, price: PriceInUSDT) -> bool {
        !self.liquidating.contains(l.id) && health_of(
            l.collateral_balance_available as int,
            l.loan_balance_total as int,
            price as int,
            self.config.global_liquidation_threshold as int,
            self.config.global_warning_threshold as int,
        ) matches Some(LoanHealth::Liquidating(_))
    }

    /// Loan `l` after the health scan at `price`: a loan being liquidated is
    /// left alone; otherwise a warning or liquidation is recorded in its status,
    /// and a healthy ratio leaves the status as it was.
    pub open spec fn scanned(self, l: Loan, price: PriceInUSDT) -> Loan {
        if self.liquidating.contains(l.id) {
            l
        } else {
            match health_of(
                l.collateral_balance_available as int,
                l.loan_balance_total as int,
                price as int,
                self.config.global_liquidation_threshold as int,
                self.config.global_warning_threshold as int,
            ) {
                Some(LoanHealth::Liquidating(x)) => Loan { status: LoanHealth::Liquidating(x), ..l },
                Some(LoanHealth::Warning(x)) => Loan { status: LoanHealth::Warning(x), ..l },
                _ => l,
            }
        }
    }

    /// Ids of the loans of `s` that the scan at `price` sends into liquidation, in order.
    pub open spec fn newly_liquidating(self, s: Seq<Loan>, price: PriceInUSDT) -> Seq<LoanId>
        decreases s.len(),
    {
        if s.len() == 0 {
            Seq::empty()
        } else {
            let rest = self.newly_liquidating(s.drop_last(), price);
            if self.starts_liquidating(s.last(), price) {
                rest.push(s.last().id)
            } else {
                rest
            }
        }
    }

    /// The state after the health scan at `price`.
    pub open spec fn ticked(self, price: PriceInUSDT) -> ModuleView {
        ModuleView {
            loans: Seq::new(self.loans.len(), |i: int| self.scanned(self.loans[i], price)),
            liquidating: self.liquidating + self.newly_liquidating(self.loans, price),
            ..self
        }
    }
}

impl Module {
    /// Marks the loan at position `idx` as liquidating at `ltv` and adds it to
    /// the liquidating set.
    pub(crate) fn liquidate_loan(&mut self, idx: usize, liquidating_ltv: LTV)
        requires
            idx < old(self).loans@.len(),
        ensures
            final(self)@ == (ModuleView {
                loans: old(self)@.loans.update(
                    idx as int,
                    Loan { status: LoanHealth::Liquidating(liquidating_ltv), ..old(self)@.loans[idx as int] },
                ),
                liquidating: old(self)@.liquidating.push(old(self)@.loans[idx as int].id),
                ..old(self)@
            }),
    {
        let loan = self.loans[idx];
        self.loans.set(idx, Loan { status: LoanHealth::Liquidating(liquidating_ltv), ..loan });
        self.liquidating_loans.push(loan.id);
    }

    /// The health scan at `btc_price`: every loan not being liquidated is
    /// classified; a warning is recorded in its status, and a loan at or over
    /// the liquidation threshold is marked and joins the liquidating set.
    pub fn on_each_block(&mut self, btc_price: PriceInUSDT)
        requires
            old(self)@.wf(),
        ensures
            final(self)@ =~= old(self)@.ticked(btc_price),
            final(self)@.wf(),
    {
        let ghost v0 = self@;
        let liquidation = self.config.global_liquidation_threshold;
        let warning = self.config.global_warning_threshold;
        let n = self.loans.len();
        let mut i: usize = 0;
        while i < n
            invariant
                0 <= i <= n,
                n == v0.loans.len(),
                v0.wf(),
                liquidation == v0.config.global_liquidation_threshold,
                warning == v0.config.global_warning_threshold,
                self.loans@.len() == n,
                forall|j: int| 0 <= j < i ==> self.loans@[j] == v0.scanned(v0.loans[j], btc_price),
                forall|j: int| i <= j < n ==> self.loans@[j] == v0.loans[j],
                self.liquidating_loans@ == v0.liquidating + v0.newly_liquidating(
                    v0.loans.subrange(0, i as int),
                    btc_price,
                ),
                self@ == (ModuleView {
                    loans: self@.loans,
                    liquidating: self@.liquidating,
                    ..v0
                }),
            decreases n - i,
        {
            let loan = self.loans[i];
            let ghost pre = v0.loans.subrange(0, i as int);
            proof {
                assert(v0.loans.subrange(0, i + 1).drop_last() =~= pre);
                assert(v0.loans.subrange(0, i + 1).last() == v0.loans[i as int]);
                if v0.newly_liquidating(pre, btc_price).contains(loan.id) {
                    lemma_newly_liquidating_ids(v0, pre, btc_price, loan.id);
                    let j = choose|j: int| 0 <= j < pre.len() && (#[trigger] pre[j]).id == loan.id;
                    assert(pre[j] == v0.loans[j]);
                    assert(v0.loans[j].id < v0.loans[i as int].id);
                }
                let a = v0.liquidating;
                let b = v0.newly_liquidating(pre, btc_price);
                assert(self@.liquidating == a + b);
                if (a + b).contains(loan.id) {
                    let k = choose|k: int| 0 <= k < (a + b).len() && (a + b)[k] == loan.id;
                    if k >= a.len() {
                        assert(b[k - a.len()] == loan.id);
                        assert(b.contains(loan.id));
                    } else {
                        assert(a[k] == loan.id);
                    }
                }
                if a.contains(loan.id) {
                    let k = choose|k: int| 0 <= k < a.len() && a[k] == loan.id;
                    assert((a + b)[k] == loan.id);
                }
                assert(self@.liquidating.contains(loan.id) == v0.liquidating.contains(loan.id));
            }
            if !self.check_loan_in_liquidation(loan.id) {
                match check_loan_health(&loan, btc_price, liquidation, warning) {
                    Some(LoanHealth::Liquidating(l)) => {
                        self.liquidate_loan(i, l);
                    },
                    Some(LoanHealth::Warning(l)) => {
                        if loan.status != LoanHealth::Warning(l) {
                            self.loans.set(i, Loan { status: LoanHealth::Warning(l), ..loan });
                        }
                    },
                    _ => {},
                }
            }
            proof {
                assert(self.liquidating_loans@ =~= v0.liquidating + v0.newly_liquidating(
                    v0.loans.subrange(0, i + 1),
                    btc_price,
                ));
            }
            i += 1;
        }
        proof {
            assert(v0.loans.subrange(0, n as int) =~= v0.loans);
            let t = self@.loans;
            assert forall|j: int| 0 <= j < t.len() implies loan_amounts_equal(t[j], v0.loans[j]) by {}
            lemma_sum_same_amounts(t, v0.loans, true);
            lemma_sum_same_amounts(t, v0.loans, false);
            assert(self@.loans =~= v0.ticked(btc_price).loans);
            let a = v0.liquidating;
            let b = v0.newly_liquidating(v0.loans, btc_price);
            assert forall|j: int| 0 <= j < self@.liquidating.len() implies #[trigger] self@.liquidating[j]
                < self@.next_loan_id by {
                if j >= a.len() {
                    let x = b[j - a.len()];
                    assert(b.contains(x));
                    lemma_newly_liquidating_ids(v0, v0.loans, btc_price, x);
                }
            }
        }
    }
}

} // verus!
