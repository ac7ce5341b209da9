use vstd::prelude::*;
use crate::assets::{lemma_transfer_back, transferred};
use crate::engine::{lemma_owned_ids, lemma_without_id, owned_ids, ModuleView};
use crate::lending::collateral_loan_of;
use crate::pool::{lemma_minted_bound, lemma_redeem_bounds};
use crate::types::{health_of, ltv_of, AccountId, AssetId, Balance, LoanHealth, LoanId, PriceInUSDT};

verus! {

/// Repaying a loan right after opening it, with no block in between, gives
/// the borrower, the pawn shop and the pool back exactly the balances they had
/// before, and leaves the same open loans and totals.
pub proof fn lemma_apply_then_repay(
    v: ModuleView,
    who: AccountId,
    collateral: Balance,
    loan: Balance,
    price: PriceInUSDT,
)
    requires
        v.wf(),
        forall|k: (AssetId, AccountId)| #[trigger] v.balances.contains_key(k),
        v.apply_error(who, collateral, loan, price) is None,
    ensures
        ({
            let opened = v.applied(who, collateral, loan, price);
            let id = v.next_loan_id;
            &&& opened.repay_error(who, id) is None
            &&& opened.repaid(id).balances == v.balances
            &&& opened.repaid(id).loans == v.loans
            &&& opened.repaid(id).total_loan == v.total_loan
            &&& opened.repaid(id).total_collateral == v.total_collateral
        }),
{
    let opened = v.applied(who, collateral, loan, price);
    let id = v.next_loan_id;
    let cl = v.collateral_loan(collateral, loan, price)->Ok_0;
    let c = cl.collateral_amount;
    let l = cl.loan_amount;
    let ca = v.config.collateral_asset_id;
    let la = v.config.collection_asset_id;
    let shop = v.config.pawn_shop;
    let custody = v.config.collection_account_id;
    let b1 = transferred(v.balances, ca, who, shop, c);
    let n = v.loans.len();
    assert(opened.loans[n as int].id == id);
    assert(opened.has_loan(id));
    let k = opened.loan_index(id);
    if k != n {
        assert(opened.loans[k] == v.loans[k]);
    }
    assert(k == n);
    if opened.liquidating.contains(id) {
        let j = choose|j: int| 0 <= j < v.liquidating.len() && v.liquidating[j] == id;
    }
    lemma_transfer_back(v.balances, ca, who, shop, c);
    lemma_transfer_back(b1, la, custody, who, l);
    assert(opened.loans.remove(n as int) =~= v.loans);
}

/// Health depends on collateral, debt, price and thresholds alone, and a
/// ratio exactly at the liquidation threshold is classified as liquidating,
/// never as a warning.
pub proof fn lemma_threshold_is_liquidating(
    collateral: int,
    debt: int,
    price: int,
    liquidation: int,
    warning: int,
)
    requires
        collateral > 0,
        price > 0,
        ltv_of(collateral, debt, price) == liquidation,
    ensures
        health_of(collateral, debt, price, liquidation, warning) == Some(
            LoanHealth::Liquidating(liquidation as u128),
        ),
{
}

/// The collateral computed for a loan, fed back with that loan, sits at the
/// LTV limit: never under it, and exactly on it once the computed collateral
/// is at least the limit's value.
pub proof fn lemma_computed_collateral_at_limit(ltv: int, loan: int, price: int)
    requires
        0 < ltv,
        0 < loan,
        0 < price,
        collateral_loan_of(ltv, 0, loan, price) is Ok,
        collateral_loan_of(ltv, 0, loan, price)->Ok_0.collateral_amount > 0,
    ensures
        ({
            let m = collateral_loan_of(ltv, 0, loan, price)->Ok_0.collateral_amount as int;
            &&& ltv_of(m, loan, price) >= ltv
            &&& m >= ltv ==> ltv_of(m, loan, price) == ltv
        }),
{
    let k: int = 100000000;
    let m = collateral_loan_of(ltv, 0, loan, price)->Ok_0.collateral_amount as int;
    let x = loan * k;
    let y = price * ltv;
    assert(y > 0) by (nonlinear_arith)
        requires
            price > 0,
            ltv > 0,
            y == price * ltv,
    ;
    assert(m == x / y);
    vstd::arithmetic::div_mod::lemma_fundamental_div_mod(x, y);
    vstd::arithmetic::div_mod::lemma_mod_bound(x, y);
    assert(m * y <= x && x < m * y + y);
    let d = m * price;
    assert(d > 0) by (nonlinear_arith)
        requires
            m > 0,
            price > 0,
            d == m * price,
    ;
    assert(loan * 10000 * 10000 == x);
    assert(ltv_of(m, loan, price) == x / d);
    assert(d * ltv <= x) by (nonlinear_arith)
        requires
            m * y <= x,
            y == price * ltv,
            d == m * price,
    ;
    vstd::arithmetic::div_mod::lemma_div_is_ordered(d * ltv, x, d);
    vstd::arithmetic::div_mod::lemma_div_by_multiple(ltv, d);
    assert(ltv * d / d == ltv) by {
        assert(ltv * d == d * ltv) by (nonlinear_arith);
    }
    if m >= ltv {
        assert(x < d * (ltv + 1)) by (nonlinear_arith)
            requires
                x < m * y + y,
                y == price * ltv,
                d == m * price,
                m >= ltv,
                price > 0,
        ;
        vstd::arithmetic::div_mod::lemma_div_is_ordered(x, d * (ltv + 1) - 1, d);
        vstd::arithmetic::div_mod::lemma_fundamental_div_mod(d * (ltv + 1) - 1, d);
        vstd::arithmetic::div_mod::lemma_mod_bound(d * (ltv + 1) - 1, d);
        let q = (d * (ltv + 1) - 1) / d;
        let r = (d * (ltv + 1) - 1) % d;
        assert(q <= ltv) by (nonlinear_arith)
            requires
                d * (ltv + 1) - 1 == d * q + r,
                0 <= r < d,
                d > 0,
        ;
    }
}

/// The loan computed for a collateral, fed back with that collateral, sits at
/// the LTV limit: never over it, and less than one unit under it once the
/// collateral is worth at least one unit at both precisions.
pub proof fn lemma_computed_loan_at_limit(ltv: int, collateral: int, price: int)
    requires
        0 < ltv,
        0 < collateral,
        0 < price,
        collateral_loan_of(ltv, collateral, 0, price) is Ok,
    ensures
        ({
            let l = collateral_loan_of(ltv, collateral, 0, price)->Ok_0.loan_amount as int;
            &&& ltv_of(collateral, l, price) <= ltv
            &&& collateral * price >= 100000000 ==> ltv_of(collateral, l, price) >= ltv - 1
        }),
{
    let k: int = 100000000;
    let l = collateral_loan_of(ltv, collateral, 0, price)->Ok_0.loan_amount as int;
    let d = collateral * price;
    assert(d > 0) by (nonlinear_arith)
        requires
            collateral > 0,
            price > 0,
            d == collateral * price,
    ;
    let x = collateral * price * ltv;
    assert(x == d * ltv) by (nonlinear_arith)
        requires
            x == collateral * price * ltv,
            d == collateral * price,
    ;
    assert(l == x / k);
    vstd::arithmetic::div_mod::lemma_fundamental_div_mod(x, k);
    vstd::arithmetic::div_mod::lemma_mod_bound(x, k);
    assert(l * k <= x && x < l * k + k);
    assert(ltv_of(collateral, l, price) == (l * k) / d) by {
        assert(l * 10000 * 10000 == l * k);
    }
    vstd::arithmetic::div_mod::lemma_div_is_ordered(l * k, d * ltv, d);
    vstd::arithmetic::div_mod::lemma_div_multiples_vanish(ltv, d);
    if d >= k {
        assert(l * k > d * (ltv - 1) - 1) by (nonlinear_arith)
            requires
                x < l * k + k,
                x == d * ltv,
                d >= k,
        ;
        vstd::arithmetic::div_mod::lemma_div_is_ordered(d * (ltv - 1), l * k, d);
        vstd::arithmetic::div_mod::lemma_div_multiples_vanish(ltv - 1, d);
    }
}

/// Settling a liquidation with proceeds exactly equal to the debt succeeds
/// whenever the ledger runs, the caller is the liquidation account holding the
/// proceeds, the loan is being liquidated and the pool's balance can take
/// them. It moves all of the proceeds into the pool, pays nothing to the
/// profit pool or the owner, and closes the loan: it is no longer open, no
/// longer among its owner's loans, and no longer being liquidated.
pub proof fn lemma_exact_proceeds_settle(v: ModuleView, caller: AccountId, id: LoanId)
    requires
        v.wf(),
        v.has_loan(id),
        !v.paused,
        caller == v.config.liquidation_account,
        v.liquidating.contains(id),
        v.balances[(v.config.collection_asset_id, caller)] >= v.loan(id).loan_balance_total,
        caller == v.config.collection_account_id || v.balances[(
            v.config.collection_asset_id,
            v.config.collection_account_id,
        )] + v.loan(id).loan_balance_total <= u64::MAX,
    ensures
        v.mark_liquidated_error(caller, id, v.loan(id).loan_balance_total) is None,
        ({
            let after = v.liquidated(caller, id, v.loan(id).loan_balance_total);
            &&& after.balances == transferred(
                v.balances,
                v.config.collection_asset_id,
                caller,
                v.config.collection_account_id,
                v.loan(id).loan_balance_total,
            )
            &&& !after.has_loan(id)
            &&& !owned_ids(after.loans, v.loan(id).who).contains(id)
            &&& !after.liquidating.contains(id)
        }),
{
    let after = v.liquidated(caller, id, v.loan(id).loan_balance_total);
    let k = v.loan_index(id);
    if after.has_loan(id) {
        let j = choose|j: int| 0 <= j < after.loans.len() && #[trigger] after.loans[j].id == id;
        let j2 = if j < k { j } else { j + 1 };
        assert(after.loans[j] == v.loans[j2]);
        if j2 < k {
            assert(v.loans[j2].id < v.loans[k].id);
        } else {
            assert(v.loans[k].id < v.loans[j2].id);
        }
    }
    if after.liquidating.contains(id) {
        lemma_without_id(v.liquidating, id, id);
    }
    if owned_ids(after.loans, v.loan(id).who).contains(id) {
        lemma_owned_ids(after.loans, v.loan(id).who, id);
    }
}

/// Liquidation proceeds short of the debt are always refused; a refused
/// settlement changes nothing.
pub proof fn lemma_short_proceeds_refused(
    v: ModuleView,
    caller: AccountId,
    id: LoanId,
    proceeds: Balance,
)
    requires
        v.has_loan(id),
        proceeds < v.loan(id).loan_balance_total,
    ensures
        v.mark_liquidated_error(caller, id, proceeds) is Some,
{
}

/// An operation on the pool: a deposit, a full redemption, or a partial one.
#[derive(Clone, Copy, Debug, PartialEq, Eq, Structural)]
pub enum PoolOp {
    Deposit(AccountId, Balance),
    RedeemAll(AccountId),
    Redeem(AccountId, Balance),
}

/// The account that `op` acts for.
pub open spec fn op_account(op: PoolOp) -> AccountId {
    match op {
        PoolOp::Deposit(who, _) => who,
        PoolOp::RedeemAll(who) => who,
        PoolOp::Redeem(who, _) => who,
    }
}

/// Whether the ledger `w` accepts `op`.
pub open spec fn op_accepted(w: ModuleView, op: PoolOp) -> bool {
    match op {
        PoolOp::Deposit(who, amount) => w.staking_error(who, w.config.collection_asset_id, amount)
            is None,
        PoolOp::RedeemAll(who) => w.redeem_all_error(who) is None,
        PoolOp::Redeem(who, amount) => w.redeem_error(who, w.config.collection_asset_id, amount)
            is None,
    }
}

/// The ledger `w` after `op`; a refused operation changes nothing.
pub open spec fn op_applied(w: ModuleView, op: PoolOp) -> ModuleView {
    if !op_accepted(w, op) {
        w
    } else {
        match op {
            PoolOp::Deposit(who, amount) => w.staked(who, amount),
            PoolOp::RedeemAll(who) => w.redeemed_all(who),
            PoolOp::Redeem(who, amount) => w.redeemed(who, amount),
        }
    }
}

/// Principal that `op` puts into the pool of `w`.
pub open spec fn op_in(w: ModuleView, op: PoolOp) -> int {
    match op {
        PoolOp::Deposit(_, amount) => if op_accepted(w, op) {
            amount as int
        } else {
            0
        },
        _ => 0,
    }
}

/// Principal that `op` pays out of the pool of `w`.
pub open spec fn op_out(w: ModuleView, op: PoolOp) -> int {
    if !op_accepted(w, op) {
        0
    } else {
        match op {
            PoolOp::Deposit(_, _) => 0,
            PoolOp::RedeemAll(who) => w.redeemable(who),
            PoolOp::Redeem(_, amount) => amount as int,
        }
    }
}

/// The state after the pool operations `ops`, in order.
pub open spec fn pool_run(v: ModuleView, ops: Seq<PoolOp>) -> ModuleView
    decreases ops.len(),
{
    if ops.len() == 0 {
        v
    } else {
        op_applied(pool_run(v, ops.drop_last()), ops.last())
    }
}

/// Principal put into the pool by `ops`.
pub open spec fn pool_deposited(v: ModuleView, ops: Seq<PoolOp>) -> int
    decreases ops.len(),
{
    if ops.len() == 0 {
        0
    } else {
        pool_deposited(v, ops.drop_last()) + op_in(pool_run(v, ops.drop_last()), ops.last())
    }
}

/// Principal paid out of the pool by `ops`.
pub open spec fn pool_redeemed(v: ModuleView, ops: Seq<PoolOp>) -> int
    decreases ops.len(),
{
    if ops.len() == 0 {
        0
    } else {
        pool_redeemed(v, ops.drop_last()) + op_out(pool_run(v, ops.drop_last()), ops.last())
    }
}

/// Shares held by the accounts `accts`.
pub open spec fn sum_shares(shares: Map<AccountId, Balance>, accts: Seq<AccountId>) -> int
    decreases accts.len(),
{
    if accts.len() == 0 {
        0
    } else {
        sum_shares(shares, accts.drop_last()) + shares[accts.last()]
    }
}

proof fn lemma_sum_shares_insert(
    shares: Map<AccountId, Balance>,
    accts: Seq<AccountId>,
    who: AccountId,
    x: Balance,
)
    requires
        accts.no_duplicates(),
    ensures
        sum_shares(shares.insert(who, x), accts) == sum_shares(shares, accts) + if accts.contains(
            who,
        ) {
            x - shares[who]
        } else {
            0
        },
    decreases accts.len(),
{
    if accts.len() > 0 {
        let init = accts.drop_last();
        assert(init.no_duplicates());
        lemma_sum_shares_insert(shares, init, who, x);
        if accts.last() == who {
            assert(!init.contains(who));
        } else {
            if accts.contains(who) {
                let k = choose|k: int| 0 <= k < accts.len() && accts[k] == who;
                assert(init[k] == who);
            }
            if init.contains(who) {
                let k = choose|k: int| 0 <= k < init.len() && init[k] == who;
                assert(accts[k] == who);
            }
        }
    }
}

/// One pool operation keeps the invariant, moves the principal by exactly what
/// it puts in and pays out, keeps the shares of `accts` level with the shares
/// outstanding, and keeps a pool whose principal equals its shares so.
pub proof fn lemma_pool_step(w: ModuleView, op: PoolOp, accts: Seq<AccountId>)
    requires
        w.wf(),
        accts.no_duplicates(),
        accts.contains(op_account(op)),
    ensures
        op_applied(w, op).wf(),
        op_applied(w, op).total_dtoken == w.total_dtoken + op_in(w, op) - op_out(w, op),
        sum_shares(op_applied(w, op).shares, accts) - op_applied(w, op).market_dtoken
            == sum_shares(w.shares, accts) - w.market_dtoken,
        w.market_dtoken == w.total_dtoken ==> op_applied(w, op).market_dtoken == op_applied(
            w,
            op,
        ).total_dtoken,
{
    if op_accepted(w, op) {
        match op {
            PoolOp::Deposit(who, amount) => {
                lemma_deposit_shape(w, who, amount, accts);
            },
            PoolOp::RedeemAll(who) => {
                lemma_redeem_all_step(w, who, accts);
            },
            PoolOp::Redeem(who, amount) => {
                lemma_redeem_all_step(w, who, accts);
                let r = w.redeemed_all(who);
                let rest = (w.redeemable(who) - amount) as Balance;
                if rest > 0 {
                    if r.total_dtoken > 0 {
                        lemma_minted_bound(r.market_dtoken as int, r.total_dtoken as int, rest as int);
                    }
                    assert(r.shares[who] == 0);
                    lemma_deposit_shape(r, who, rest, accts);
                }
            },
        }
    }
}

/// A deposit within the bounds it is checked against keeps the invariant and
/// the share balance, and mints one share per unit into a pool whose
/// principal equals its shares.
proof fn lemma_deposit_shape(w: ModuleView, who: AccountId, amount: Balance, accts: Seq<AccountId>)
    requires
        w.wf(),
        accts.no_duplicates(),
        accts.contains(who),
        w.shares[who] + w.minted_shares(amount as int) <= u64::MAX,
        w.total_dtoken + amount <= u64::MAX,
    ensures
        w.staked(who, amount).wf(),
        w.staked(who, amount).total_dtoken == w.total_dtoken + amount,
        sum_shares(w.staked(who, amount).shares, accts) - w.staked(who, amount).market_dtoken
            == sum_shares(w.shares, accts) - w.market_dtoken,
        w.market_dtoken == w.total_dtoken ==> w.staked(who, amount).market_dtoken == w.staked(
            who,
            amount,
        ).total_dtoken,
{
    let m = w.market_dtoken as int;
    let t = w.total_dtoken as int;
    let a = amount as int;
    if t > 0 {
        lemma_minted_bound(m, t, a);
        if m == t {
            vstd::arithmetic::div_mod::lemma_div_by_multiple(a, t);
        }
    }
    lemma_sum_shares_insert(w.shares, accts, who, (w.shares[who] + w.minted_shares(a)) as Balance);
}

/// A full redemption keeps the invariant and the share balance.
proof fn lemma_redeem_all_step(w: ModuleView, who: AccountId, accts: Seq<AccountId>)
    requires
        w.wf(),
        accts.no_duplicates(),
        accts.contains(who),
        w.shares[who] <= w.market_dtoken,
    ensures
        w.redeemed_all(who).wf(),
        w.redeemed_all(who).total_dtoken == w.total_dtoken - w.redeemable(who),
        w.redeemable(who) <= w.total_dtoken,
        w.redeemed_all(who).shares[who] == 0,
        sum_shares(w.redeemed_all(who).shares, accts) - w.redeemed_all(who).market_dtoken
            == sum_shares(w.shares, accts) - w.market_dtoken,
        w.market_dtoken == w.total_dtoken ==> w.redeemed_all(who).market_dtoken == w.redeemed_all(
            who,
        ).total_dtoken,
{
    let m = w.market_dtoken as int;
    let t = w.total_dtoken as int;
    let sh = w.shares[who] as int;
    if m > 0 {
        lemma_redeem_bounds(m, t, sh);
        if m == t {
            assert(sh * t == t * sh) by (nonlinear_arith);
            vstd::arithmetic::div_mod::lemma_div_multiples_vanish(sh, t);
        }
    }
    lemma_sum_shares_insert(w.shares, accts, who, 0);
}

/// Without interest, the pool's principal is exactly what was deposited less
/// what was paid out, and the shares held by any set of accounts that takes
/// part in every operation stay level with the shares outstanding.
pub proof fn lemma_pool_conservation(v: ModuleView, ops: Seq<PoolOp>, accts: Seq<AccountId>)
    requires
        v.wf(),
        accts.no_duplicates(),
        forall|i: int| 0 <= i < ops.len() ==> accts.contains(op_account(#[trigger] ops[i])),
    ensures
        pool_run(v, ops).wf(),
        pool_run(v, ops).total_dtoken == v.total_dtoken + pool_deposited(v, ops) - pool_redeemed(
            v,
            ops,
        ),
        sum_shares(pool_run(v, ops).shares, accts) - pool_run(v, ops).market_dtoken == sum_shares(
            v.shares,
            accts,
        ) - v.market_dtoken,
        v.market_dtoken == v.total_dtoken ==> pool_run(v, ops).market_dtoken == pool_run(
            v,
            ops,
        ).total_dtoken,
    decreases ops.len(),
{
    if ops.len() > 0 {
        let init = ops.drop_last();
        assert forall|i: int| 0 <= i < init.len() implies accts.contains(
            op_account(#[trigger] init[i]),
        ) by {
            assert(init[i] == ops[i]);
        }
        lemma_pool_conservation(v, init, accts);
        assert(accts.contains(op_account(ops[ops.len() - 1])));
        lemma_pool_step(pool_run(v, init), ops.last(), accts);
    }
}

/// Without interest, starting from an empty pool, the shares held are worth
/// exactly the principal deposited less the principal paid out: the pool holds
/// one unit of principal per share, each account's shares redeem for exactly
/// their number, and the shares of the accounts taking part add up to the
/// principal. No rounding is lost, whatever the number of operations.
pub proof fn lemma_pool_exact_from_empty(v: ModuleView, ops: Seq<PoolOp>, accts: Seq<AccountId>)
    requires
        v.wf(),
        v.market_dtoken == 0,
        v.total_dtoken == 0,
        sum_shares(v.shares, accts) == 0,
        accts.no_duplicates(),
        forall|i: int| 0 <= i < ops.len() ==> accts.contains(op_account(#[trigger] ops[i])),
    ensures
        ({
            let w = pool_run(v, ops);
            &&& w.total_dtoken == pool_deposited(v, ops) - pool_redeemed(v, ops)
            &&& w.market_dtoken == w.total_dtoken
            &&& sum_shares(w.shares, accts) == w.total_dtoken
            &&& w.market_dtoken > 0 ==> forall|a: AccountId| #[trigger] w.redeemable(a)
                == w.shares[a]
        }),
{
    lemma_pool_conservation(v, ops, accts);
    let w = pool_run(v, ops);
    if w.market_dtoken > 0 {
        assert forall|a: AccountId| #[trigger] w.redeemable(a) == w.shares[a] by {
            let t = w.total_dtoken as int;
            assert(w.shares[a] as int * t == t * w.shares[a] as int) by (nonlinear_arith);
            vstd::arithmetic::div_mod::lemma_div_multiples_vanish(w.shares[a] as int, t);
        }
    }
}

/// A full redemption pays what the shares are worth at the exchange rate,
/// short of it by less than one unit.
pub proof fn lemma_redeem_rounding(v: ModuleView, who: AccountId)
    requires
        v.market_dtoken > 0,
    ensures
        v.redeemable(who) * v.market_dtoken <= v.shares[who] * v.total_dtoken,
        v.shares[who] * v.total_dtoken < (v.redeemable(who) + 1) * v.market_dtoken,
{
    let n = v.shares[who] * v.total_dtoken;
    let m = v.market_dtoken as int;
    vstd::arithmetic::div_mod::lemma_fundamental_div_mod(n, m);
    vstd::arithmetic::div_mod::lemma_mod_bound(n, m);
    assert((n / m) * m == m * (n / m)) by (nonlinear_arith);
    assert((n / m + 1) * m == m * (n / m) + m) by (nonlinear_arith);
}

/// The exchange rate (principal per share) never falls: not on a deposit,
/// not on a full redemption, and not when interest is paid into the pool.
/// Rates are compared cross-multiplied, so an empty pool compares as equal.
pub proof fn lemma_exchange_rate_never_falls(v: ModuleView, who: AccountId, amount: Balance)
    requires
        v.wf(),
    ensures
        v.staking_error(who, v.config.collection_asset_id, amount) is None ==> {
            let w = v.staked(who, amount);
            w.total_dtoken * v.market_dtoken >= v.total_dtoken * w.market_dtoken
        },
        v.redeem_all_error(who) is None ==> {
            let w = v.redeemed_all(who);
            w.total_dtoken * v.market_dtoken >= v.total_dtoken * w.market_dtoken
        },
        v.interest_error(who, amount) is None ==> {
            let w = v.interest_paid(who, amount);
            w.total_dtoken * v.market_dtoken >= v.total_dtoken * w.market_dtoken
        },
{
    let m = v.market_dtoken as int;
    let t = v.total_dtoken as int;
    let a = amount as int;
    if t == 0 {
        assert(m == 0);
        let w = v.staked(who, amount);
        assert(w.total_dtoken * m == 0);
        assert(t * w.market_dtoken == 0);
    }
    if v.staking_error(who, v.config.collection_asset_id, amount) is None && t > 0 {
        let q = a * m / t;
        vstd::arithmetic::div_mod::lemma_fundamental_div_mod(a * m, t);
        vstd::arithmetic::div_mod::lemma_mod_bound(a * m, t);
        lemma_minted_bound(m, t, a);
        assert((t + a) * m >= t * (m + q)) by (nonlinear_arith)
            requires
                a * m == t * q + (a * m) % t,
                (a * m) % t >= 0,
        ;
    }
    if v.redeem_all_error(who) is None && m > 0 {
        let sh = v.shares[who] as int;
        let p = sh * t / m;
        vstd::arithmetic::div_mod::lemma_fundamental_div_mod(sh * t, m);
        vstd::arithmetic::div_mod::lemma_mod_bound(sh * t, m);
        lemma_redeem_bounds(m, t, sh);
        assert((t - p) * m >= t * (m - sh)) by (nonlinear_arith)
            requires
                sh * t == m * p + (sh * t) % m,
                (sh * t) % m >= 0,
        ;
    }
    if v.interest_error(who, amount) is None {
        assert((t + a) * m >= t * m) by (nonlinear_arith)
            requires
                a >= 0,
                m >= 0,
        ;
    }
}

} // verus!
