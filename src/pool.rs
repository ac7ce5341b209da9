//! The deposit pool: deposits mint shares in proportion to the pool, and
//! redemptions pay out what the shares are worth.
use vstd::prelude::*;
use crate::assets::{transfer_error, transferred};
use crate::engine::{Module, ModuleView};
use crate::types::{lemma_mul_u64_fits, outcome, AccountId, AssetId, Balance, LoanError};

verus! {

broadcast use vstd::std_specs::hash::group_hash_axioms;

/// A redemption never pays out more than the pool's principal, and leaves at
/// least one unit of principal per remaining share.
pub proof fn lemma_redeem_bounds(market: int, total: int, shares: int)
    requires
        0 <= shares <= market,
        market <= total,
        market > 0,
    ensures
        0 <= shares * total / market <= total,
        market - shares <= total - shares * total / market,
{
    let p = shares * total / market;
    vstd::arithmetic::div_mod::lemma_fundamental_div_mod(shares * total, market);
    vstd::arithmetic::div_mod::lemma_mod_bound(shares * total, market);
    assert(0 <= shares * total) by (nonlinear_arith)
        requires
            0 <= shares,
            0 <= total,
    ;
    vstd::arithmetic::div_mod::lemma_div_pos_is_pos(shares * total, market);
    assert(shares * total <= market * total) by (nonlinear_arith)
        requires
            0 <= shares <= market,
            0 <= total,
    ;
    vstd::arithmetic::div_mod::lemma_div_is_ordered(shares * total, market * total, market);
    vstd::arithmetic::div_mod::lemma_div_multiples_vanish(total, market);
    assert(p * market <= shares * total);
    assert(market - shares <= total - p) by (nonlinear_arith)
        requires
            p * market <= shares * total,
            0 <= shares <= market,
            market <= total,
            market > 0,
    ;
}

/// A deposit into a pool whose principal covers its shares mints at most one
/// share per unit deposited.
pub proof fn lemma_minted_bound(market: int, total: int, amount: int)
    requires
        0 <= market <= total,
        total > 0,
        0 <= amount,
    ensures
        0 <= amount * market / total <= amount,
{
    assert(0 <= amount * market <= amount * total) by (nonlinear_arith)
        requires
            0 <= market <= total,
            0 <= amount,
    ;
    vstd::arithmetic::div_mod::lemma_div_pos_is_pos(amount * market, total);
    vstd::arithmetic::div_mod::lemma_div_is_ordered(amount * market, amount * total, total);
    vstd::arithmetic::div_mod::lemma_div_by_multiple(amount, total);
}

impl ModuleView {
    /// Shares minted for a deposit of `amount`: one per unit into an empty pool,
    /// else in proportion to the pool, rounded down.
    pub open spec fn minted_shares(self, amount: int) -> int {
        if self.total_dtoken == 0 {
            amount
        } else {
            amount * self.market_dtoken / self.total_dtoken as int
        }
    }

    /// What the shares of `who` are worth, rounded down.
    pub open spec fn redeemable(self, who: AccountId) -> int {
        if self.market_dtoken == 0 {
            0
        } else {
            self.shares[who] * self.total_dtoken / self.market_dtoken as int
        }
    }

    /// The first check that a deposit of `amount` of `asset` by `who` fails.
    pub open spec fn staking_error(self, who: AccountId, asset: AssetId, amount: Balance) -> Option<
        LoanError,
    > {
        let minted = self.minted_shares(amount as int);
        if self.paused {
            Some(LoanError::Paused)
        } else if asset != self.config.collection_asset_id {
            Some(LoanError::WrongAsset)
        } else if amount == 0 {
            Some(LoanError::ZeroAmount)
        } else if self.shares[who] + minted > u64::MAX || self.market_dtoken + minted > u64::MAX
            || self.total_dtoken + amount > u64::MAX {
            Some(LoanError::Overflow)
        } else {
            transfer_error(self.balances, asset, who, self.config.collection_account_id, amount)
        }
    }

    /// The state after `who` deposits `amount` into the pool.
    pub open spec fn staked(self, who: AccountId, amount: Balance) -> ModuleView {
        let minted = self.minted_shares(amount as int);
        ModuleView {
            balances: transferred(
                self.balances,
                self.config.collection_asset_id,
                who,
                self.config.collection_account_id,
                amount,
            ),
            shares: self.shares.insert(who, (self.shares[who] + minted) as Balance),
            market_dtoken: (self.market_dtoken + minted) as Balance,
            total_dtoken: (self.total_dtoken + amount) as Balance,
            ..self
        }
    }

    /// The first check that redeeming all shares of `who` fails.
    pub open spec fn redeem_all_error(self, who: AccountId) -> Option<LoanError> {
        if self.paused {
            Some(LoanError::Paused)
        } else if self.shares[who] > self.market_dtoken {
            Some(LoanError::InconsistentPool)
        } else {
            transfer_error(
                self.balances,
                self.config.collection_asset_id,
                self.config.collection_account_id,
                who,
                self.redeemable(who) as Balance,
            )
        }
    }

    /// The state after all shares of `who` are redeemed.
    pub open spec fn redeemed_all(self, who: AccountId) -> ModuleView {
        let payout = self.redeemable(who);
        ModuleView {
            balances: transferred(
                self.balances,
                self.config.collection_asset_id,
                self.config.collection_account_id,
                who,
                payout as Balance,
            ),
            shares: self.shares.insert(who, 0),
            market_dtoken: (self.market_dtoken - self.shares[who]) as Balance,
            total_dtoken: (self.total_dtoken - payout) as Balance,
            ..self
        }
    }

    /// The first check that redeeming `amount` of `asset` for `who` fails.
    pub open spec fn redeem_error(self, who: AccountId, asset: AssetId, amount: Balance) -> Option<
        LoanError,
    > {
        if self.paused {
            Some(LoanError::Paused)
        } else if asset != self.config.collection_asset_id {
            Some(LoanError::WrongAsset)
        } else if self.shares[who] > self.market_dtoken {
            Some(LoanError::InconsistentPool)
        } else if self.redeemable(who) < amount {
            Some(LoanError::RedeemTooMuch)
        } else {
            self.redeem_all_error(who)
        }
    }

    /// The state after `who` redeems `amount`: everything is redeemed and the
    /// remainder deposited again.
    pub open spec fn redeemed(self, who: AccountId, amount: Balance) -> ModuleView {
        let rest = (self.redeemable(who) - amount) as Balance;
        let r = self.redeemed_all(who);
        if rest > 0 {
            r.staked(who, rest)
        } else {
            r
        }
    }

    /// The first check that paying `amount` of interest from `who` into the pool fails.
    pub open spec fn interest_error(self, who: AccountId, amount: Balance) -> Option<LoanError> {
        if self.total_dtoken + amount > u64::MAX {
            Some(LoanError::Overflow)
        } else {
            transfer_error(
                self.balances,
                self.config.collection_asset_id,
                who,
                self.config.collection_account_id,
                amount,
            )
        }
    }

    /// The state after `who` pays `amount` of interest into the pool: the
    /// pool's principal grows by it, and with it the worth of every share.
    pub open spec fn interest_paid(self, who: AccountId, amount: Balance) -> ModuleView {
        ModuleView {
            balances: transferred(
                self.balances,
                self.config.collection_asset_id,
                who,
                self.config.collection_account_id,
                amount,
            ),
            total_dtoken: (self.total_dtoken + amount) as Balance,
            ..self
        }
    }
}

impl Module {
    /// `who` deposits `balance` of the pool's asset and receives shares for it.
    pub fn create_staking(&mut self, who: AccountId, asset_id: AssetId, balance: Balance) -> (r:
        Result<(), LoanError>)
        requires
            old(self)@.wf(),
        ensures
            r == outcome(old(self)@.staking_error(who, asset_id, balance), ()),
            r is Ok ==> final(self)@ == old(self)@.staked(who, balance),
            r is Err ==> *final(self) == *old(self),
            final(self)@.wf(),
    {
        if self.paused {
            return Err(LoanError::Paused);
        }
        if asset_id != self.config.collection_asset_id {
            return Err(LoanError::WrongAsset);
        }
        if balance == 0 {
            return Err(LoanError::ZeroAmount);
        }
        let market = self.market_dtoken;
        let total = self.total_dtoken;
        let minted: u128 = if total == 0 {
            balance as u128
        } else {
            proof {
                lemma_minted_bound(market as int, total as int, balance as int);
                lemma_mul_u64_fits(balance as int, market as int);
            }
            balance as u128 * market as u128 / total as u128
        };
        let held = self.user_dtoken(who);
        if held as u128 + minted > u64::MAX as u128 || market as u128 + minted > u64::MAX as u128
            || total > u64::MAX - balance {
            return Err(LoanError::Overflow);
        }
        let custody = self.config.collection_account_id;
        match self.transfer(asset_id, who, custody, balance) {
            Err(e) => {
                return Err(e);
            },
            Ok(()) => {},
        }
        self.set_user_dtoken(who, held + minted as u64);
        self.market_dtoken = market + minted as u64;
        self.total_dtoken = total + balance;
        proof {
            if total > 0 {
                lemma_minted_bound(market as int, total as int, balance as int);
            }
            assert(final(self)@ == old(self)@.staked(who, balance));
        }
        Ok(())
    }

    /// Computes what the shares of `who` are worth, refusing an account that
    /// holds more shares than are outstanding.
    pub(crate) fn redeemable_value(&self, who: AccountId) -> (r: Result<Balance, LoanError>)
        requires
            self@.wf(),
        ensures
            self@.shares[who] > self@.market_dtoken ==> r == Err::<Balance, LoanError>(
                LoanError::InconsistentPool,
            ),
            self@.shares[who] <= self@.market_dtoken ==> r == Ok::<Balance, LoanError>(
                self@.redeemable(who) as Balance,
            ) && self@.redeemable(who) <= self@.total_dtoken,
    {
        let held = self.user_dtoken(who);
        let market = self.market_dtoken;
        let total = self.total_dtoken;
        if held > market {
            return Err(LoanError::InconsistentPool);
        }
        if market == 0 {
            return Ok(0);
        }
        proof {
            lemma_redeem_bounds(market as int, total as int, held as int);
            lemma_mul_u64_fits(held as int, total as int);
        }
        Ok((held as u128 * total as u128 / market as u128) as u64)
    }

    /// Burns all shares of `who` and pays out what they are worth; returns the payout.
    pub fn make_redeem_all(&mut self, who: AccountId) -> (r: Result<Balance, LoanError>)
        requires
            old(self)@.wf(),
        ensures
            r == outcome(old(self)@.redeem_all_error(who), old(self)@.redeemable(who) as Balance),
            r is Ok ==> final(self)@ == old(self)@.redeemed_all(who),
            r is Err ==> *final(self) == *old(self),
            final(self)@.wf(),
    {
        if self.paused {
            return Err(LoanError::Paused);
        }
        let payout = match self.redeemable_value(who) {
            Err(e) => {
                return Err(e);
            },
            Ok(v) => v,
        };
        let held = self.user_dtoken(who);
        let asset = self.config.collection_asset_id;
        let custody = self.config.collection_account_id;
        match self.transfer(asset, custody, who, payout) {
            Err(e) => {
                return Err(e);
            },
            Ok(()) => {},
        }
        proof {
            if old(self).market_dtoken > 0 {
                lemma_redeem_bounds(
                    old(self).market_dtoken as int,
                    old(self).total_dtoken as int,
                    held as int,
                );
            }
        }
        self.set_user_dtoken(who, 0);
        self.market_dtoken = self.market_dtoken - held;
        self.total_dtoken = self.total_dtoken - payout;
        proof {
            assert(final(self)@ == old(self)@.redeemed_all(who));
        }
        Ok(payout)
    }

    /// `who` takes `amount` out of the pool: all its shares are redeemed and
    /// what exceeds `amount` is deposited again.
    pub fn make_redeem(&mut self, who: AccountId, asset_id: AssetId, amount: Balance) -> (r:
        Result<(), LoanError>)
        requires
            old(self)@.wf(),
        ensures
            r == outcome(old(self)@.redeem_error(who, asset_id, amount), ()),
            r is Ok ==> final(self)@ == old(self)@.redeemed(who, amount),
            r is Err ==> *final(self) == *old(self),
            final(self)@.wf(),
    {
        if self.paused {
            return Err(LoanError::Paused);
        }
        if asset_id != self.config.collection_asset_id {
            return Err(LoanError::WrongAsset);
        }
        let value = match self.redeemable_value(who) {
            Err(e) => {
                return Err(e);
            },
            Ok(v) => v,
        };
        if value < amount {
            return Err(LoanError::RedeemTooMuch);
        }
        match self.make_redeem_all(who) {
            Err(e) => {
                return Err(e);
            },
            Ok(_) => {},
        }
        let rest = value - amount;
        if rest > 0 {
            let ghost mid = self@;
            proof {
                let v0 = old(self)@;
                let c = (v0.config.collection_asset_id, v0.config.collection_account_id);
                let w = (v0.config.collection_asset_id, who);
                assert(mid.shares[who] == 0);
                if mid.total_dtoken > 0 {
                    lemma_minted_bound(
                        mid.market_dtoken as int,
                        mid.total_dtoken as int,
                        rest as int,
                    );
                }
                if who != v0.config.collection_account_id {
                    assert(mid.balances[w] == v0.balances[w] + value);
                    assert(mid.balances[c] == v0.balances[c] - value);
                }
            }
            let staked = self.create_staking(who, asset_id, rest);
            assert(staked is Ok);
        }
        Ok(())
    }

    /// `who` pays `amount` of interest into the pool, which adds to the
    /// pool's principal and so to the worth of every share.
    pub fn pay_interest(&mut self, who: AccountId, amount: Balance) -> (r: Result<(), LoanError>)
        requires
            old(self)@.wf(),
        ensures
            r == outcome(old(self)@.interest_error(who, amount), ()),
            r is Ok ==> final(self)@ == old(self)@.interest_paid(who, amount),
            r is Err ==> *final(self) == *old(self),
            final(self)@.wf(),
    {
        if self.total_dtoken > u64::MAX - amount {
            return Err(LoanError::Overflow);
        }
        let asset = self.config.collection_asset_id;
        let custody = self.config.collection_account_id;
        match self.transfer(asset, who, custody, amount) {
            Err(e) => {
                return Err(e);
            },
            Ok(()) => {},
        }
        self.total_dtoken = self.total_dtoken + amount;
        Ok(())
    }
}

} // verus!
