//! Loans: opening against collateral, repaying, topping up collateral,
//! drawing more, and settling a liquidation.
use vstd::prelude::*;
use crate::assets::{lemma_transfer_back, transfer_error, transferred};
use crate::engine::{lemma_without_id, without_id, Module, ModuleView};
use crate::loans::{lemma_sum_push, lemma_sum_remove, lemma_sum_update};
use crate::types::{
    lemma_mul_u64_fits, ltv_of, outcome, AccountId, Balance, CollateralLoan, Loan, LoanError,
    LoanHealth, LoanId, PriceInUSDT, LTV_PRICE_SCALE,
};

verus! {

/// The collateral and loan amounts of a loan asked for with `collateral` and
/// `loan` at `price` under the limit `ltv`: a zero collateral is computed from
/// the loan, a zero loan from the collateral, and otherwise the pair must stay
/// under the limit.
pub open spec fn collateral_loan_of(ltv: int, collateral: int, loan: int, price: int) -> Result<
    CollateralLoan,
    LoanError,
> {
    if collateral == 0 && loan == 0 {
        Err(LoanError::InvalidCollateralLoanAmounts)
    } else if price == 0 {
        Err(LoanError::InvalidPrice)
    } else if collateral == 0 {
        let must = loan * LTV_PRICE_SCALE / (price * ltv);
        if must > u64::MAX {
            Err(LoanError::Overflow)
        } else {
            Ok(CollateralLoan { collateral_amount: must as Balance, loan_amount: loan as Balance })
        }
    } else if loan == 0 {
        let can = collateral * price * ltv / LTV_PRICE_SCALE as int;
        if can > u64::MAX {
            Err(LoanError::Overflow)
        } else {
            Ok(CollateralLoan { collateral_amount: collateral as Balance, loan_amount: can as Balance })
        }
    } else if ltv_of(collateral, loan, price) >= ltv {
        Err(LoanError::OverLTVLimit)
    } else {
        Ok(CollateralLoan { collateral_amount: collateral as Balance, loan_amount: loan as Balance })
    }
}

impl ModuleView {
    /// The amounts of a loan asked for with `collateral` and `loan` at `price`.
    pub open spec fn collateral_loan(self, collateral: Balance, loan: Balance, price: PriceInUSDT) -> Result<
        CollateralLoan,
        LoanError,
    > {
        collateral_loan_of(
            self.config.global_ltv_limit as int,
            collateral as int,
            loan as int,
            price as int,
        )
    }

    /// The first check that opening a loan fails.
    pub open spec fn apply_error(
        self,
        who: AccountId,
        collateral: Balance,
        loan: Balance,
        price: PriceInUSDT,
    ) -> Option<LoanError> {
        let cl = self.collateral_loan(collateral, loan, price);
        let c = cl->Ok_0.collateral_amount;
        let l = cl->Ok_0.loan_amount;
        let locked = transferred(
            self.balances,
            self.config.collateral_asset_id,
            who,
            self.config.pawn_shop,
            c,
        );
        if self.paused {
            Some(LoanError::Paused)
        } else if self.loan_cap is Some && self.total_loan >= self.loan_cap->Some_0 {
            Some(LoanError::ReachLoanCap)
        } else if cl is Err {
            Some(cl->Err_0)
        } else if collateral < self.config.minimum_collateral {
            Some(LoanError::BelowMinimumCollateral)
        } else if l as int / price as int > c || self.total_loan + l > u64::MAX || self.total_collateral + c
            > u64::MAX || self.next_loan_id == u64::MAX {
            Some(LoanError::Overflow)
        } else if transfer_error(
            self.balances,
            self.config.collateral_asset_id,
            who,
            self.config.pawn_shop,
            c,
        ) is Some {
            transfer_error(
                self.balances,
                self.config.collateral_asset_id,
                who,
                self.config.pawn_shop,
                c,
            )
        } else {
            transfer_error(
                locked,
                self.config.collection_asset_id,
                self.config.collection_account_id,
                who,
                l,
            )
        }
    }

    /// The state after `who` opens a loan: the collateral goes to the pawn
    /// shop, the loan comes out of the pool, and the loan is recorded.
    pub open spec fn applied(
        self,
        who: AccountId,
        collateral: Balance,
        loan: Balance,
        price: PriceInUSDT,
    ) -> ModuleView {
        let cl = self.collateral_loan(collateral, loan, price)->Ok_0;
        let c = cl.collateral_amount;
        let l = cl.loan_amount;
        let locked = transferred(
            self.balances,
            self.config.collateral_asset_id,
            who,
            self.config.pawn_shop,
            c,
        );
        let record = Loan {
            id: self.next_loan_id,
            who,
            collateral_balance_original: c,
            collateral_balance_available: (c - l as int / price as int) as Balance,
            loan_balance_total: l,
            status: LoanHealth::Well,
        };
        ModuleView {
            balances: transferred(
                locked,
                self.config.collection_asset_id,
                self.config.collection_account_id,
                who,
                l,
            ),
            next_loan_id: (self.next_loan_id + 1) as LoanId,
            loans: self.loans.push(record),
            total_loan: (self.total_loan + l) as Balance,
            total_collateral: (self.total_collateral + c) as Balance,
            ..self
        }
    }

    /// The first check that repaying loan `id` by `who` fails.
    pub open spec fn repay_error(self, who: AccountId, id: LoanId) -> Option<LoanError> {
        let l = self.loan(id);
        if self.paused {
            Some(LoanError::Paused)
        } else if !self.has_loan(id) {
            Some(LoanError::LoanNotFound)
        } else if l.who != who {
            Some(LoanError::NotOwner)
        } else if self.liquidating.contains(id) {
            Some(LoanError::LoanInLiquidation)
        } else if transfer_error(
            self.balances,
            self.config.collection_asset_id,
            who,
            self.config.collection_account_id,
            l.loan_balance_total,
        ) is Some {
            transfer_error(
                self.balances,
                self.config.collection_asset_id,
                who,
                self.config.collection_account_id,
                l.loan_balance_total,
            )
        } else {
            transfer_error(
                transferred(
                    self.balances,
                    self.config.collection_asset_id,
                    who,
                    self.config.collection_account_id,
                    l.loan_balance_total,
                ),
                self.config.collateral_asset_id,
                self.config.pawn_shop,
                who,
                l.collateral_balance_original,
            )
        }
    }

    /// The state after loan `id` is repaid: its debt goes back to the pool,
    /// its collateral back to its owner, and the loan is closed.
    pub open spec fn repaid(self, id: LoanId) -> ModuleView {
        let l = self.loan(id);
        ModuleView {
            balances: transferred(
                transferred(
                    self.balances,
                    self.config.collection_asset_id,
                    l.who,
                    self.config.collection_account_id,
                    l.loan_balance_total,
                ),
                self.config.collateral_asset_id,
                self.config.pawn_shop,
                l.who,
                l.collateral_balance_original,
            ),
            loans: self.loans.remove(self.loan_index(id)),
            total_loan: (self.total_loan - l.loan_balance_total) as Balance,
            total_collateral: (self.total_collateral - l.collateral_balance_original) as Balance,
            ..self
        }
    }

    /// The first check that adding `amount` of collateral to loan `id` fails.
    pub open spec fn add_collateral_error(self, who: AccountId, id: LoanId, amount: Balance) -> Option<
        LoanError,
    > {
        let l = self.loan(id);
        if self.paused {
            Some(LoanError::Paused)
        } else if !self.has_loan(id) {
            Some(LoanError::LoanNotFound)
        } else if l.who != who {
            Some(LoanError::NotOwner)
        } else if self.liquidating.contains(id) {
            Some(LoanError::LoanInLiquidation)
        } else if l.collateral_balance_original + amount > u64::MAX || self.total_collateral
            + amount > u64::MAX {
            Some(LoanError::Overflow)
        } else {
            transfer_error(
                self.balances,
                self.config.collateral_asset_id,
                who,
                self.config.pawn_shop,
                amount,
            )
        }
    }

    /// The state after `amount` of collateral is added to loan `id`.
    pub open spec fn collateral_added(self, id: LoanId, amount: Balance) -> ModuleView {
        let l = self.loan(id);
        ModuleView {
            balances: transferred(
                self.balances,
                self.config.collateral_asset_id,
                l.who,
                self.config.pawn_shop,
                amount,
            ),
            loans: self.loans.update(
                self.loan_index(id),
                Loan {
                    collateral_balance_original: (l.collateral_balance_original + amount) as Balance,
                    collateral_balance_available: (l.collateral_balance_available
                        + amount) as Balance,
                    ..l
                },
            ),
            total_collateral: (self.total_collateral + amount) as Balance,
            ..self
        }
    }

    /// The credit that `available` collateral gives at `price` under the LTV limit.
    pub open spec fn credit(self, available: int, price: int) -> int {
        available * price * self.config.global_ltv_limit / LTV_PRICE_SCALE as int
    }

    /// The first check that adding `amount` to the debt of loan `id` fails,
    /// whether or not the loan is being liquidated.
    pub open spec fn debt_error(self, who: AccountId, id: LoanId, amount: Balance, price: PriceInUSDT) -> Option<
        LoanError,
    > {
        let l = self.loan(id);
        if !self.has_loan(id) {
            Some(LoanError::LoanNotFound)
        } else if l.who != who {
            Some(LoanError::NotOwner)
        } else if price == 0 {
            Some(LoanError::InvalidPrice)
        } else if amount > self.credit(l.collateral_balance_available as int, price as int) || amount
            as int / price as int > l.collateral_balance_available {
            Some(LoanError::ShortOfCredit)
        } else if self.total_loan + amount > u64::MAX {
            Some(LoanError::Overflow)
        } else {
            None
        }
    }

    /// The state after `amount` more is drawn on loan `id`: the debt grows and
    /// the collateral it consumes at `price` is no longer available.
    pub open spec fn drawn(self, id: LoanId, amount: Balance, price: PriceInUSDT) -> ModuleView {
        let l = self.loan(id);
        ModuleView {
            loans: self.loans.update(
                self.loan_index(id),
                Loan {
                    loan_balance_total: (l.loan_balance_total + amount) as Balance,
                    collateral_balance_available: (l.collateral_balance_available - amount as int
                        / price as int) as Balance,
                    ..l
                },
            ),
            total_loan: (self.total_loan + amount) as Balance,
            ..self
        }
    }

    /// The first check that the owner's draw of `amount` more on loan `id`
    /// fails: a loan being liquidated takes no more debt from its owner.
    pub open spec fn draw_error(self, who: AccountId, id: LoanId, amount: Balance, price: PriceInUSDT) -> Option<
        LoanError,
    > {
        if self.has_loan(id) && self.loan(id).who == who && self.liquidating.contains(id) {
            Some(LoanError::LoanInLiquidation)
        } else {
            self.debt_error(who, id, amount, price)
        }
    }

    /// The first check that an owner's draw fails while the ledger may be paused.
    pub open spec fn user_draw_error(
        self,
        who: AccountId,
        id: LoanId,
        amount: Balance,
        price: PriceInUSDT,
    ) -> Option<LoanError> {
        if self.paused {
            Some(LoanError::Paused)
        } else {
            self.draw_error(who, id, amount, price)
        }
    }

    /// The penalty kept out of a liquidation surplus.
    pub open spec fn penalty(self, leftover: int) -> int {
        leftover * self.config.liquidation_penalty / 100
    }

    /// The first check that settling the liquidation of loan `id` with
    /// `proceeds` fails.
    pub open spec fn mark_liquidated_error(self, caller: AccountId, id: LoanId, proceeds: Balance) -> Option<
        LoanError,
    > {
        let l = self.loan(id);
        let asset = self.config.collection_asset_id;
        let debt = l.loan_balance_total;
        let leftover = proceeds - debt;
        let penalty = self.penalty(leftover) as Balance;
        let b1 = transferred(self.balances, asset, caller, self.config.collection_account_id, debt);
        let b2 = transferred(b1, asset, caller, self.config.profit_pool, penalty);
        if self.paused {
            Some(LoanError::Paused)
        } else if caller != self.config.liquidation_account {
            Some(LoanError::NotAllowed)
        } else if !self.has_loan(id) {
            Some(LoanError::LoanNotFound)
        } else if !self.liquidating.contains(id) {
            Some(LoanError::LoanNotInLiquidation)
        } else if self.balances[(asset, caller)] < proceeds {
            Some(LoanError::InsufficientBalance)
        } else if proceeds < debt {
            Some(LoanError::ProceedsShort)
        } else if transfer_error(
            self.balances,
            asset,
            caller,
            self.config.collection_account_id,
            debt,
        ) is Some {
            transfer_error(self.balances, asset, caller, self.config.collection_account_id, debt)
        } else if leftover == 0 {
            None
        } else if transfer_error(b1, asset, caller, self.config.profit_pool, penalty) is Some {
            transfer_error(b1, asset, caller, self.config.profit_pool, penalty)
        } else {
            transfer_error(b2, asset, caller, l.who, (leftover - penalty) as Balance)
        }
    }

    /// The state after the liquidation of loan `id` is settled: the debt goes
    /// to the pool, a surplus is split between the profit pool and the owner,
    /// and the loan is closed.
    pub open spec fn liquidated(self, caller: AccountId, id: LoanId, proceeds: Balance) -> ModuleView {
        let l = self.loan(id);
        let asset = self.config.collection_asset_id;
        let debt = l.loan_balance_total;
        let leftover = proceeds - debt;
        let penalty = self.penalty(leftover) as Balance;
        let b1 = transferred(self.balances, asset, caller, self.config.collection_account_id, debt);
        let b2 = transferred(b1, asset, caller, self.config.profit_pool, penalty);
        let b3 = transferred(b2, asset, caller, l.who, (leftover - penalty) as Balance);
        ModuleView {
            balances: if leftover == 0 {
                b1
            } else {
                b3
            },
            loans: self.loans.remove(self.loan_index(id)),
            liquidating: without_id(self.liquidating, id),
            total_loan: (self.total_loan - debt) as Balance,
            total_collateral: (self.total_collateral - l.collateral_balance_original) as Balance,
            ..self
        }
    }
}

impl Module {
    /// The collateral and loan amounts of a loan asked for with
    /// `collateral_amount` and `loan_amount` at `btc_price`.
    pub fn get_collateral_loan(
        &self,
        collateral_amount: Balance,
        loan_amount: Balance,
        btc_price: PriceInUSDT,
    ) -> (r: Result<CollateralLoan, LoanError>)
        requires
            self@.wf(),
        ensures
            r == self@.collateral_loan(collateral_amount, loan_amount, btc_price),
    {
        if collateral_amount == 0 && loan_amount == 0 {
            return Err(LoanError::InvalidCollateralLoanAmounts);
        }
        if btc_price == 0 {
            return Err(LoanError::InvalidPrice);
        }
        let ltv = self.config.global_ltv_limit;
        proof {
            lemma_mul_u64_fits(btc_price as int, ltv as int);
        }
        if collateral_amount == 0 {
            let d: u128 = btc_price as u128 * ltv;
            assert(d > 0) by (nonlinear_arith)
                requires
                    d == btc_price as int * ltv as int,
                    btc_price > 0,
                    ltv > 0,
            ;
            proof {
                lemma_mul_u64_fits(loan_amount as int, LTV_PRICE_SCALE as int);
            }
            let must: u128 = loan_amount as u128 * LTV_PRICE_SCALE / d;
            if must > u64::MAX as u128 {
                return Err(LoanError::Overflow);
            }
            return Ok(CollateralLoan { collateral_amount: must as u64, loan_amount });
        }
        if loan_amount == 0 {
            proof {
                lemma_mul_u64_fits(collateral_amount as int, btc_price as int);
            }
            let cp: u128 = collateral_amount as u128 * btc_price as u128;
            match cp.checked_mul(ltv) {
                None => {
                    assert(collateral_amount as int * btc_price as int * ltv as int / 100000000
                        > u64::MAX) by {
                        vstd::arithmetic::div_mod::lemma_div_is_ordered(
                            u128::MAX as int + 1,
                            collateral_amount as int * btc_price as int * ltv as int,
                            100000000,
                        );
                    }
                    return Err(LoanError::Overflow);
                },
                Some(n) => {
                    let can: u128 = n / LTV_PRICE_SCALE;
                    if can > u64::MAX as u128 {
                        return Err(LoanError::Overflow);
                    }
                    return Ok(CollateralLoan { collateral_amount, loan_amount: can as u64 });
                },
            }
        }
        let current = Loan::get_ltv(collateral_amount, loan_amount, btc_price);
        if current >= ltv {
            Err(LoanError::OverLTVLimit)
        } else {
            Ok(CollateralLoan { collateral_amount, loan_amount })
        }
    }

    /// `who` opens a loan of `loan_amount` against `collateral_amount` at
    /// `btc_price`; a zero amount is computed from the other at the LTV limit.
    /// Returns the new loan's id.
    pub fn apply_for_loan(
        &mut self,
        who: AccountId,
        collateral_amount: Balance,
        loan_amount: Balance,
        btc_price: PriceInUSDT,
    ) -> (r: Result<LoanId, LoanError>)
        requires
            old(self)@.wf(),
        ensures
            r == outcome(
                old(self)@.apply_error(who, collateral_amount, loan_amount, btc_price),
                old(self)@.next_loan_id,
            ),
            r is Ok ==> final(self)@ == old(self)@.applied(
                who,
                collateral_amount,
                loan_amount,
                btc_price,
            ),
            r is Err ==> final(self)@ == old(self)@,
            final(self)@.wf(),
    {
        if self.paused {
            return Err(LoanError::Paused);
        }
        match self.loan_cap {
            Some(cap) => {
                if self.total_loan >= cap {
                    return Err(LoanError::ReachLoanCap);
                }
            },
            None => {},
        }
        let cl = match self.get_collateral_loan(collateral_amount, loan_amount, btc_price) {
            Err(e) => {
                return Err(e);
            },
            Ok(cl) => cl,
        };
        let c = cl.collateral_amount;
        let l = cl.loan_amount;
        if collateral_amount < self.config.minimum_collateral {
            return Err(LoanError::BelowMinimumCollateral);
        }
        let consumed = l / btc_price;
        if consumed > c || self.total_loan > u64::MAX - l || self.total_collateral > u64::MAX - c
            || self.next_loan_id == u64::MAX {
            return Err(LoanError::Overflow);
        }
        let shop = self.config.pawn_shop;
        let custody = self.config.collection_account_id;
        let collateral_asset = self.config.collateral_asset_id;
        let loan_asset = self.config.collection_asset_id;
        match self.transfer(collateral_asset, who, shop, c) {
            Err(e) => {
                return Err(e);
            },
            Ok(()) => {},
        }
        match self.transfer(loan_asset, custody, who, l) {
            Err(e) => {
                proof {
                    old(self).assets.lemma_view_total();
                    lemma_transfer_back(old(self)@.balances, collateral_asset, who, shop, c);
                }
                let back = self.transfer(collateral_asset, shop, who, c);
                assert(back is Ok);
                proof {
                    assert(final(self)@ =~= old(self)@);
                }
                return Err(e);
            },
            Ok(()) => {},
        }
        let id = self.get_next_loan_id();
        let record = Loan {
            id,
            who,
            collateral_balance_original: c,
            collateral_balance_available: c - consumed,
            loan_balance_total: l,
            status: LoanHealth::Well,
        };
        self.loans.push(record);
        self.total_loan = self.total_loan + l;
        self.total_collateral = self.total_collateral + c;
        proof {
            lemma_sum_push(old(self)@.loans, record, true);
            lemma_sum_push(old(self)@.loans, record, false);
            assert(final(self)@ == old(self)@.applied(who, collateral_amount, loan_amount, btc_price));
        }
        Ok(id)
    }

    /// `who` repays loan `loan_id` in full and gets its collateral back.
    pub fn repay_for_loan(&mut self, who: AccountId, loan_id: LoanId) -> (r: Result<(), LoanError>)
        requires
            old(self)@.wf(),
        ensures
            r == outcome(old(self)@.repay_error(who, loan_id), ()),
            r is Ok ==> final(self)@ == old(self)@.repaid(loan_id),
            r is Err ==> final(self)@ == old(self)@,
            final(self)@.wf(),
    {
        if self.paused {
            return Err(LoanError::Paused);
        }
        let idx = match self.find_loan(loan_id) {
            None => {
                return Err(LoanError::LoanNotFound);
            },
            Some(i) => i,
        };
        let loan = self.loans[idx];
        if loan.who != who {
            return Err(LoanError::NotOwner);
        }
        if self.check_loan_in_liquidation(loan_id) {
            return Err(LoanError::LoanInLiquidation);
        }
        let loan_asset = self.config.collection_asset_id;
        let collateral_asset = self.config.collateral_asset_id;
        let custody = self.config.collection_account_id;
        let shop = self.config.pawn_shop;
        match self.transfer(loan_asset, who, custody, loan.loan_balance_total) {
            Err(e) => {
                return Err(e);
            },
            Ok(()) => {},
        }
        match self.transfer(collateral_asset, shop, who, loan.collateral_balance_original) {
            Err(e) => {
                proof {
                    old(self).assets.lemma_view_total();
                    lemma_transfer_back(
                        old(self)@.balances,
                        loan_asset,
                        who,
                        custody,
                        loan.loan_balance_total,
                    );
                }
                let back = self.transfer(loan_asset, custody, who, loan.loan_balance_total);
                assert(back is Ok);
                proof {
                    assert(final(self)@ =~= old(self)@);
                }
                return Err(e);
            },
            Ok(()) => {},
        }
        proof {
            lemma_sum_remove(old(self)@.loans, idx as int, true);
            lemma_sum_remove(old(self)@.loans, idx as int, false);
        }
        self.loans.remove(idx);
        self.total_loan = self.total_loan - loan.loan_balance_total;
        self.total_collateral = self.total_collateral - loan.collateral_balance_original;
        proof {
            let s = old(self)@.loans;
            let t = final(self)@.loans;
            assert forall|i: int, j: int| 0 <= i < j < t.len() implies t[i].id < t[j].id by {
                let i2 = if i < idx { i } else { i + 1 };
                let j2 = if j < idx { j } else { j + 1 };
                assert(t[i] == s[i2] && t[j] == s[j2]);
            }
            assert forall|i: int| 0 <= i < t.len() implies (#[trigger] t[i]).id
                < final(self)@.next_loan_id && t[i].collateral_balance_available
                <= t[i].collateral_balance_original by {
                let i2 = if i < idx { i } else { i + 1 };
                assert(t[i] == s[i2]);
            }
            assert(final(self)@ == old(self)@.repaid(loan_id));
        }
        Ok(())
    }

    /// `who` locks `amount` more collateral for its loan `loan_id`.
    pub fn add_loan_collateral(&mut self, who: AccountId, loan_id: LoanId, amount: Balance) -> (r:
        Result<(), LoanError>)
        requires
            old(self)@.wf(),
        ensures
            r == outcome(old(self)@.add_collateral_error(who, loan_id, amount), ()),
            r is Ok ==> final(self)@ == old(self)@.collateral_added(loan_id, amount),
            r is Err ==> *final(self) == *old(self),
            final(self)@.wf(),
    {
        if self.paused {
            return Err(LoanError::Paused);
        }
        let idx = match self.find_loan(loan_id) {
            None => {
                return Err(LoanError::LoanNotFound);
            },
            Some(i) => i,
        };
        let loan = self.loans[idx];
        if loan.who != who {
            return Err(LoanError::NotOwner);
        }
        if self.check_loan_in_liquidation(loan_id) {
            return Err(LoanError::LoanInLiquidation);
        }
        if loan.collateral_balance_original > u64::MAX - amount || self.total_collateral > u64::MAX
            - amount {
            return Err(LoanError::Overflow);
        }
        let collateral_asset = self.config.collateral_asset_id;
        let shop = self.config.pawn_shop;
        match self.transfer(collateral_asset, who, shop, amount) {
            Err(e) => {
                return Err(e);
            },
            Ok(()) => {},
        }
        let updated = Loan {
            collateral_balance_original: loan.collateral_balance_original + amount,
            collateral_balance_available: loan.collateral_balance_available + amount,
            ..loan
        };
        proof {
            lemma_sum_update(old(self)@.loans, idx as int, updated, true);
            lemma_sum_update(old(self)@.loans, idx as int, updated, false);
        }
        self.loans.set(idx, updated);
        self.total_collateral = self.total_collateral + amount;
        proof {
            let s = old(self)@.loans;
            let t = final(self)@.loans;
            assert forall|i: int, j: int| 0 <= i < j < t.len() implies t[i].id < t[j].id by {
                assert(t[i].id == s[i].id && t[j].id == s[j].id);
            }
            assert forall|i: int| 0 <= i < t.len() implies (#[trigger] t[i]).id
                < final(self)@.next_loan_id && t[i].collateral_balance_available
                <= t[i].collateral_balance_original by {
                assert(t[i].id == s[i].id);
            }
            assert(final(self)@ == old(self)@.collateral_added(loan_id, amount));
        }
        Ok(())
    }

    /// Adds `amount` to the debt of loan `loan_id` of `who`, as far as the
    /// loan's available collateral gives credit at `btc_price`, whether or not
    /// the loan is being liquidated; interest is charged this way.
    pub(crate) fn add_debt(
        &mut self,
        who: AccountId,
        loan_id: LoanId,
        amount: Balance,
        btc_price: PriceInUSDT,
    ) -> (r: Result<(), LoanError>)
        requires
            old(self)@.wf(),
        ensures
            r == outcome(old(self)@.debt_error(who, loan_id, amount, btc_price), ()),
            r is Ok ==> final(self)@ == old(self)@.drawn(loan_id, amount, btc_price),
            r is Err ==> *final(self) == *old(self),
            final(self)@.wf(),
    {
        let idx = match self.find_loan(loan_id) {
            None => {
                return Err(LoanError::LoanNotFound);
            },
            Some(i) => i,
        };
        let loan = self.loans[idx];
        if loan.who != who {
            return Err(LoanError::NotOwner);
        }
        if btc_price == 0 {
            return Err(LoanError::InvalidPrice);
        }
        let available = loan.collateral_balance_available;
        let ltv = self.config.global_ltv_limit;
        proof {
            lemma_mul_u64_fits(available as int, btc_price as int);
        }
        let ap: u128 = available as u128 * btc_price as u128;
        let short = match ap.checked_mul(ltv) {
            None => {
                assert(available as int * btc_price as int * ltv as int / 100000000 > u64::MAX) by {
                    vstd::arithmetic::div_mod::lemma_div_is_ordered(
                        u128::MAX as int + 1,
                        available as int * btc_price as int * ltv as int,
                        100000000,
                    );
                }
                false
            },
            Some(n) => amount as u128 > n / LTV_PRICE_SCALE,
        };
        let consumed = amount / btc_price;
        if short || consumed > available {
            return Err(LoanError::ShortOfCredit);
        }
        if self.total_loan > u64::MAX - amount {
            return Err(LoanError::Overflow);
        }
        proof {
            lemma_sum_remove(old(self)@.loans, idx as int, true);
        }
        let updated = Loan {
            loan_balance_total: loan.loan_balance_total + amount,
            collateral_balance_available: available - consumed,
            ..loan
        };
        proof {
            lemma_sum_update(old(self)@.loans, idx as int, updated, true);
            lemma_sum_update(old(self)@.loans, idx as int, updated, false);
        }
        self.loans.set(idx, updated);
        self.total_loan = self.total_loan + amount;
        proof {
            let s = old(self)@.loans;
            let t = final(self)@.loans;
            assert forall|i: int, j: int| 0 <= i < j < t.len() implies t[i].id < t[j].id by {
                assert(t[i].id == s[i].id && t[j].id == s[j].id);
            }
            assert forall|i: int| 0 <= i < t.len() implies (#[trigger] t[i]).id
                < final(self)@.next_loan_id && t[i].collateral_balance_available
                <= t[i].collateral_balance_original by {
                assert(t[i].id == s[i].id);
            }
            assert(final(self)@ == old(self)@.drawn(loan_id, amount, btc_price));
        }
        Ok(())
    }

    /// `who` draws `amount` more on its loan `loan_id`, as far as the loan's
    /// available collateral gives credit at `btc_price`; refused for a loan
    /// being liquidated.
    pub fn draw_from_loan(
        &mut self,
        who: AccountId,
        loan_id: LoanId,
        amount: Balance,
        btc_price: PriceInUSDT,
    ) -> (r: Result<(), LoanError>)
        requires
            old(self)@.wf(),
        ensures
            r == outcome(old(self)@.draw_error(who, loan_id, amount, btc_price), ()),
            r is Ok ==> final(self)@ == old(self)@.drawn(loan_id, amount, btc_price),
            r is Err ==> *final(self) == *old(self),
            final(self)@.wf(),
    {
        match self.get_loan_by_id(loan_id) {
            Some(l) => {
                if l.who == who && self.check_loan_in_liquidation(loan_id) {
                    return Err(LoanError::LoanInLiquidation);
                }
            },
            None => {},
        }
        self.add_debt(who, loan_id, amount, btc_price)
    }

    /// `who` draws `amount` more on its loan `loan_id`; refused while the
    /// ledger is paused or the loan is being liquidated.
    pub fn draw(&mut self, who: AccountId, loan_id: LoanId, amount: Balance, btc_price: PriceInUSDT) -> (r:
        Result<(), LoanError>)
        requires
            old(self)@.wf(),
        ensures
            r == outcome(old(self)@.user_draw_error(who, loan_id, amount, btc_price), ()),
            r is Ok ==> final(self)@ == old(self)@.drawn(loan_id, amount, btc_price),
            r is Err ==> *final(self) == *old(self),
            final(self)@.wf(),
    {
        if self.paused {
            return Err(LoanError::Paused);
        }
        self.draw_from_loan(who, loan_id, amount, btc_price)
    }

    /// The liquidation account settles liquidating loan `loan_id` with the
    /// `auction_balance` that selling its collateral brought: the debt goes to
    /// the pool, and of a surplus the penalty goes to the profit pool and the
    /// rest to the loan's owner. All or nothing.
    pub fn mark_loan_liquidated(
        &mut self,
        liquidation_account: AccountId,
        loan_id: LoanId,
        auction_balance: Balance,
    ) -> (r: Result<(), LoanError>)
        requires
            old(self)@.wf(),
        ensures
            r == outcome(
                old(self)@.mark_liquidated_error(liquidation_account, loan_id, auction_balance),
                (),
            ),
            r is Ok ==> final(self)@ == old(self)@.liquidated(
                liquidation_account,
                loan_id,
                auction_balance,
            ),
            r is Err ==> final(self)@ == old(self)@,
            final(self)@.wf(),
    {
        if self.paused {
            return Err(LoanError::Paused);
        }
        if liquidation_account != self.config.liquidation_account {
            return Err(LoanError::NotAllowed);
        }
        let idx = match self.find_loan(loan_id) {
            None => {
                return Err(LoanError::LoanNotFound);
            },
            Some(i) => i,
        };
        let loan = self.loans[idx];
        if !self.check_loan_in_liquidation(loan_id) {
            return Err(LoanError::LoanNotInLiquidation);
        }
        let asset = self.config.collection_asset_id;
        let custody = self.config.collection_account_id;
        let profit_pool = self.config.profit_pool;
        if self.assets.free_balance(asset, liquidation_account) < auction_balance {
            return Err(LoanError::InsufficientBalance);
        }
        let debt = loan.loan_balance_total;
        if auction_balance < debt {
            return Err(LoanError::ProceedsShort);
        }
        match self.transfer(asset, liquidation_account, custody, debt) {
            Err(e) => {
                return Err(e);
            },
            Ok(()) => {},
        }
        let ghost v1 = self@;
        proof {
            self.assets.lemma_view_total();
        }
        let leftover = auction_balance - debt;
        if leftover > 0 {
            proof {
                assert(leftover as int * self.config.liquidation_penalty as int <= leftover as int
                    * 100) by (nonlinear_arith)
                    requires
                        self.config.liquidation_penalty <= 100,
                ;
                vstd::arithmetic::div_mod::lemma_div_is_ordered(
                    leftover as int * self.config.liquidation_penalty as int,
                    leftover as int * 100,
                    100,
                );
                vstd::arithmetic::div_mod::lemma_div_by_multiple(leftover as int, 100);
            }
            let penalty: u64 = (leftover as u128 * self.config.liquidation_penalty as u128
                / 100) as u64;
            match self.transfer(asset, liquidation_account, profit_pool, penalty) {
                Err(e) => {
                    proof {
                        old(self).assets.lemma_view_total();
                        lemma_transfer_back(old(self)@.balances, asset, liquidation_account, custody, debt);
                    }
                    let back = self.transfer(asset, custody, liquidation_account, debt);
                    assert(back is Ok);
                    proof {
                        assert(final(self)@ =~= old(self)@);
                    }
                    return Err(e);
                },
                Ok(()) => {},
            }
            let ghost v2 = self@;
            proof {
                self.assets.lemma_view_total();
            }
            match self.transfer(asset, liquidation_account, loan.who, leftover - penalty) {
                Err(e) => {
                    proof {
                        lemma_transfer_back(v1.balances, asset, liquidation_account, profit_pool, penalty);
                    }
                    let back = self.transfer(asset, profit_pool, liquidation_account, penalty);
                    assert(back is Ok);
                    assert(self@.balances == v1.balances);
                    proof {
                        old(self).assets.lemma_view_total();
                        lemma_transfer_back(old(self)@.balances, asset, liquidation_account, custody, debt);
                    }
                    let back = self.transfer(asset, custody, liquidation_account, debt);
                    assert(back is Ok);
                    proof {
                        assert(final(self)@ =~= old(self)@);
                    }
                    return Err(e);
                },
                Ok(()) => {},
            }
        }
        proof {
            lemma_sum_remove(old(self)@.loans, idx as int, true);
            lemma_sum_remove(old(self)@.loans, idx as int, false);
        }
        self.loans.remove(idx);
        self.remove_liquidating(loan_id);
        self.total_loan = self.total_loan - debt;
        self.total_collateral = self.total_collateral - loan.collateral_balance_original;
        proof {
            let s = old(self)@.loans;
            let t = final(self)@.loans;
            assert forall|i: int, j: int| 0 <= i < j < t.len() implies t[i].id < t[j].id by {
                let i2 = if i < idx { i } else { i + 1 };
                let j2 = if j < idx { j } else { j + 1 };
                assert(t[i] == s[i2] && t[j] == s[j2]);
            }
            assert forall|i: int| 0 <= i < t.len() implies (#[trigger] t[i]).id
                < final(self)@.next_loan_id && t[i].collateral_balance_available
                <= t[i].collateral_balance_original by {
                let i2 = if i < idx { i } else { i + 1 };
                assert(t[i] == s[i2]);
            }
            let ls = old(self)@.liquidating;
            let lf = final(self)@.liquidating;
            assert forall|j: int| 0 <= j < lf.len() implies #[trigger] lf[j]
                < final(self)@.next_loan_id by {
                let x = lf[j];
                assert(without_id(ls, loan_id).contains(x));
                lemma_without_id(ls, loan_id, x);
            }
            assert(final(self)@ == old(self)@.liquidated(liquidation_account, loan_id, auction_balance));
        }
        Ok(())
    }
}

} // verus!
