use deposit_loan::engine::Module;
use deposit_loan::genesis::{
    new_test_ext, ExtBuilder, ALICE, ASSET_ID, BOB, BTC_PRICE, CHRIS, COLLECTION_ACCOUNT_ID,
    LIQUIDATION_ACCOUNT, PAWN_SHOP, PROFIT_POOL, SBTC_ASSET_ID,
};
use deposit_loan::types::{CollateralLoan, LoanError, LoanHealth};

const COLLATERAL: u64 = 100000000;
const LOAN: u64 = 100000000000;
const POOL: u64 = 1000000000000;

/// A ledger whose pool holds `POOL` from BOB and where ALICE holds twice `COLLATERAL`.
fn funded() -> Module {
    let mut m = new_test_ext();
    m.mint(ASSET_ID, BOB, POOL).unwrap();
    m.create_staking(BOB, ASSET_ID, POOL).unwrap();
    m.mint(SBTC_ASSET_ID, ALICE, 2 * COLLATERAL).unwrap();
    m
}

/// `funded` with loan 1 open for ALICE.
fn with_loan() -> Module {
    let mut m = funded();
    assert_eq!(m.apply_for_loan(ALICE, COLLATERAL, LOAN, BTC_PRICE), Ok(1));
    m
}

#[test]
fn unittest_works() {
    let m = ExtBuilder::default().build();
    assert_eq!(m.total_loan, 0);
}

#[test]
fn first_deposit_mints_one_share_per_unit() {
    let mut m = new_test_ext();
    m.mint(ASSET_ID, ALICE, 1000).unwrap();
    assert_eq!(m.create_staking(ALICE, ASSET_ID, 1000), Ok(()));
    assert_eq!(m.user_dtoken(ALICE), 1000);
    assert_eq!(m.market_dtoken, 1000);
    assert_eq!(m.total_dtoken, 1000);
    assert_eq!(m.free_balance(ASSET_ID, COLLECTION_ACCOUNT_ID), 1000);
    assert_eq!(m.free_balance(ASSET_ID, ALICE), 0);
}

#[test]
fn exchange_rate_end_to_end() {
    let mut m = new_test_ext();
    m.mint(ASSET_ID, ALICE, 1000).unwrap();
    m.mint(ASSET_ID, BOB, 1000).unwrap();
    m.mint(ASSET_ID, CHRIS, 100).unwrap();
    m.create_staking(ALICE, ASSET_ID, 1000).unwrap();
    assert_eq!(m.user_dtoken(ALICE), 1000);
    assert_eq!(m.total_dtoken, m.market_dtoken);
    m.create_staking(BOB, ASSET_ID, 1000).unwrap();
    assert_eq!(m.user_dtoken(BOB), 1000);
    assert_eq!(m.pay_interest(CHRIS, 100), Ok(()));
    assert_eq!(m.total_dtoken, 2100);
    assert_eq!(m.market_dtoken, 2000);
    assert_eq!(m.make_redeem_all(ALICE), Ok(1050));
    assert_eq!(m.free_balance(ASSET_ID, ALICE), 1050);
    assert_eq!(m.user_dtoken(ALICE), 0);
}

#[test]
fn deposit_after_interest_mints_fewer_shares() {
    let mut m = new_test_ext();
    m.mint(ASSET_ID, ALICE, 1000).unwrap();
    m.mint(ASSET_ID, BOB, 105).unwrap();
    m.mint(ASSET_ID, CHRIS, 50).unwrap();
    m.create_staking(ALICE, ASSET_ID, 1000).unwrap();
    m.pay_interest(CHRIS, 50).unwrap();
    m.create_staking(BOB, ASSET_ID, 105).unwrap();
    assert_eq!(m.user_dtoken(BOB), 100);
}

#[test]
fn pool_principal_tracks_deposits_and_redemptions() {
    let mut m = new_test_ext();
    m.mint(ASSET_ID, ALICE, 700).unwrap();
    m.mint(ASSET_ID, BOB, 300).unwrap();
    m.create_staking(ALICE, ASSET_ID, 700).unwrap();
    m.create_staking(BOB, ASSET_ID, 300).unwrap();
    let paid = m.make_redeem_all(BOB).unwrap();
    assert_eq!(paid, 300);
    assert_eq!(m.total_dtoken, 700 + 300 - paid);
    assert_eq!(m.user_dtoken(ALICE) + m.user_dtoken(BOB), m.market_dtoken);
}

#[test]
fn partial_redeem_keeps_the_rest_deposited() {
    let mut m = new_test_ext();
    m.mint(ASSET_ID, ALICE, 1000).unwrap();
    m.create_staking(ALICE, ASSET_ID, 1000).unwrap();
    assert_eq!(m.make_redeem(ALICE, ASSET_ID, 400), Ok(()));
    assert_eq!(m.free_balance(ASSET_ID, ALICE), 400);
    assert_eq!(m.user_dtoken(ALICE), 600);
    assert_eq!(m.total_dtoken, 600);
    assert_eq!(m.make_redeem(ALICE, ASSET_ID, 200), Ok(()));
    assert_eq!(m.user_dtoken(ALICE), 400);
}

#[test]
fn partial_redeem_twice_after_interest_rounds_down() {
    let mut m = new_test_ext();
    m.mint(ASSET_ID, ALICE, 3).unwrap();
    m.mint(ASSET_ID, BOB, 1).unwrap();
    m.create_staking(ALICE, ASSET_ID, 3).unwrap();
    m.pay_interest(BOB, 1).unwrap();
    assert_eq!(m.make_redeem(ALICE, ASSET_ID, 1), Ok(()));
    assert_eq!(m.user_dtoken(ALICE), 3);
    assert_eq!(m.total_dtoken, 3);
    assert_eq!(m.make_redeem(ALICE, ASSET_ID, 1), Ok(()));
    assert_eq!(m.free_balance(ASSET_ID, ALICE), 2);
}

#[test]
fn redeem_too_much_is_refused() {
    let mut m = new_test_ext();
    m.mint(ASSET_ID, ALICE, 1000).unwrap();
    m.create_staking(ALICE, ASSET_ID, 1000).unwrap();
    assert_eq!(m.make_redeem(ALICE, ASSET_ID, 1001), Err(LoanError::RedeemTooMuch));
    assert_eq!(m.user_dtoken(ALICE), 1000);
}

#[test]
fn staking_errors() {
    let mut m = new_test_ext();
    m.mint(ASSET_ID, ALICE, 10).unwrap();
    assert_eq!(m.create_staking(ALICE, ASSET_ID, 0), Err(LoanError::ZeroAmount));
    assert_eq!(m.create_staking(ALICE, SBTC_ASSET_ID, 5), Err(LoanError::WrongAsset));
    assert_eq!(m.create_staking(ALICE, ASSET_ID, 11), Err(LoanError::InsufficientBalance));
    m.pause();
    assert_eq!(m.create_staking(ALICE, ASSET_ID, 5), Err(LoanError::Paused));
    m.resume();
    assert_eq!(m.create_staking(ALICE, ASSET_ID, 5), Ok(()));
}

#[test]
fn balance_overflow_is_refused() {
    let mut m = new_test_ext();
    m.mint(ASSET_ID, ALICE, u64::MAX).unwrap();
    assert_eq!(m.mint(ASSET_ID, ALICE, 1), Err(LoanError::BalanceOverflow));
    m.mint(ASSET_ID, COLLECTION_ACCOUNT_ID, 1).unwrap();
    assert_eq!(m.create_staking(ALICE, ASSET_ID, u64::MAX), Err(LoanError::BalanceOverflow));
}

#[test]
fn collateral_loan_computations() {
    let m = new_test_ext();
    assert_eq!(
        m.get_collateral_loan(0, LOAN, BTC_PRICE),
        Ok(CollateralLoan { collateral_amount: 19230769, loan_amount: LOAN })
    );
    assert_eq!(
        m.get_collateral_loan(COLLATERAL, 0, BTC_PRICE),
        Ok(CollateralLoan { collateral_amount: COLLATERAL, loan_amount: 520000000000 })
    );
    assert_eq!(
        m.get_collateral_loan(COLLATERAL, LOAN, BTC_PRICE),
        Ok(CollateralLoan { collateral_amount: COLLATERAL, loan_amount: LOAN })
    );
    assert_eq!(
        m.get_collateral_loan(COLLATERAL, 520000000000, BTC_PRICE),
        Err(LoanError::OverLTVLimit)
    );
    assert_eq!(m.get_collateral_loan(0, 0, BTC_PRICE), Err(LoanError::InvalidCollateralLoanAmounts));
    assert_eq!(m.get_collateral_loan(COLLATERAL, LOAN, 0), Err(LoanError::InvalidPrice));
    assert_eq!(m.get_collateral_loan(0, u64::MAX, 1), Err(LoanError::Overflow));
}

#[test]
fn computed_amounts_sit_at_the_limit() {
    let m = new_test_ext();
    let c = m.get_collateral_loan(0, LOAN, BTC_PRICE).unwrap().collateral_amount;
    assert_eq!(deposit_loan::types::Loan::get_ltv(c, LOAN, BTC_PRICE), 6500);
    let l = m.get_collateral_loan(COLLATERAL, 0, BTC_PRICE).unwrap().loan_amount;
    assert_eq!(deposit_loan::types::Loan::get_ltv(COLLATERAL, l, BTC_PRICE), 6500);
}

#[test]
fn apply_for_loan_moves_assets_and_records_the_loan() {
    let m = with_loan();
    assert_eq!(m.free_balance(SBTC_ASSET_ID, ALICE), COLLATERAL);
    assert_eq!(m.free_balance(SBTC_ASSET_ID, PAWN_SHOP), COLLATERAL);
    assert_eq!(m.free_balance(ASSET_ID, ALICE), LOAN);
    assert_eq!(m.free_balance(ASSET_ID, COLLECTION_ACCOUNT_ID), POOL - LOAN);
    let loan = m.get_loan_by_id(1).unwrap();
    assert_eq!(loan.who, ALICE);
    assert_eq!(loan.collateral_balance_original, COLLATERAL);
    assert_eq!(loan.collateral_balance_available, 99998750);
    assert_eq!(loan.loan_balance_total, LOAN);
    assert_eq!(loan.status, LoanHealth::Well);
    assert_eq!(m.total_loan, LOAN);
    assert_eq!(m.total_collateral, COLLATERAL);
    assert_eq!(m.next_loan_id, 2);
    assert_eq!(m.loans_by_account(ALICE), vec![1]);
    assert_eq!(m.loans_by_account(BOB), Vec::<u64>::new());
}

#[test]
fn loan_ids_increase() {
    let mut m = with_loan();
    assert_eq!(m.apply_for_loan(ALICE, COLLATERAL, LOAN, BTC_PRICE), Ok(2));
    m.repay_for_loan(ALICE, 2).unwrap();
    assert_eq!(m.apply_for_loan(ALICE, COLLATERAL, LOAN, BTC_PRICE), Ok(3));
}

#[test]
fn apply_then_repay_restores_balances() {
    let mut m = funded();
    let before = [
        m.free_balance(SBTC_ASSET_ID, ALICE),
        m.free_balance(ASSET_ID, ALICE),
        m.free_balance(SBTC_ASSET_ID, PAWN_SHOP),
        m.free_balance(ASSET_ID, COLLECTION_ACCOUNT_ID),
    ];
    let id = m.apply_for_loan(ALICE, COLLATERAL, LOAN, BTC_PRICE).unwrap();
    assert_eq!(m.repay_for_loan(ALICE, id), Ok(()));
    let after = [
        m.free_balance(SBTC_ASSET_ID, ALICE),
        m.free_balance(ASSET_ID, ALICE),
        m.free_balance(SBTC_ASSET_ID, PAWN_SHOP),
        m.free_balance(ASSET_ID, COLLECTION_ACCOUNT_ID),
    ];
    assert_eq!(before, after);
    assert_eq!(m.get_loan_by_id(id), None);
    assert_eq!(m.total_loan, 0);
    assert_eq!(m.total_collateral, 0);
}

#[test]
fn apply_errors() {
    let mut m = funded();
    assert_eq!(
        m.apply_for_loan(ALICE, 10000000, 1000, BTC_PRICE),
        Err(LoanError::BelowMinimumCollateral)
    );
    assert_eq!(
        m.apply_for_loan(ALICE, 3 * COLLATERAL, LOAN, BTC_PRICE),
        Err(LoanError::InsufficientBalance)
    );
    assert_eq!(
        m.apply_for_loan(ALICE, 2 * COLLATERAL, POOL + 1, BTC_PRICE),
        Err(LoanError::InsufficientBalance)
    );
    assert_eq!(m.free_balance(SBTC_ASSET_ID, ALICE), 2 * COLLATERAL);
    m.set_loan_cap(LOAN);
    m.apply_for_loan(ALICE, COLLATERAL, LOAN, BTC_PRICE).unwrap();
    assert_eq!(
        m.apply_for_loan(ALICE, COLLATERAL, LOAN, BTC_PRICE),
        Err(LoanError::ReachLoanCap)
    );
    m.set_loan_cap(0);
    assert_eq!(m.loan_cap, None);
}

#[test]
fn repay_errors() {
    let mut m = with_loan();
    assert_eq!(m.repay_for_loan(ALICE, 9), Err(LoanError::LoanNotFound));
    assert_eq!(m.repay_for_loan(BOB, 1), Err(LoanError::NotOwner));
    m.mint(ASSET_ID, CHRIS, 1).unwrap();
    assert_eq!(m.free_balance(ASSET_ID, ALICE), LOAN);
    m.on_each_block(11000000);
    assert_eq!(m.repay_for_loan(ALICE, 1), Err(LoanError::LoanInLiquidation));
}

#[test]
fn repay_without_funds_changes_nothing() {
    let mut m = with_loan();
    m.draw_from_loan(ALICE, 1, 1000, BTC_PRICE).unwrap();
    assert_eq!(m.repay_for_loan(ALICE, 1), Err(LoanError::InsufficientBalance));
    assert_eq!(m.free_balance(ASSET_ID, ALICE), LOAN);
    assert!(m.get_loan_by_id(1).is_some());
}

#[test]
fn add_collateral_raises_both_amounts() {
    let mut m = with_loan();
    assert_eq!(m.add_loan_collateral(ALICE, 1, 500), Ok(()));
    let loan = m.get_loan_by_id(1).unwrap();
    assert_eq!(loan.collateral_balance_original, COLLATERAL + 500);
    assert_eq!(loan.collateral_balance_available, 99998750 + 500);
    assert_eq!(m.total_collateral, COLLATERAL + 500);
    assert_eq!(m.free_balance(SBTC_ASSET_ID, PAWN_SHOP), COLLATERAL + 500);
    assert_eq!(m.add_loan_collateral(BOB, 1, 5), Err(LoanError::NotOwner));
    assert_eq!(m.add_loan_collateral(ALICE, 4, 5), Err(LoanError::LoanNotFound));
}

#[test]
fn draw_adds_debt_and_consumes_collateral() {
    let mut m = with_loan();
    assert_eq!(m.draw(ALICE, 1, 8000000000, BTC_PRICE), Ok(()));
    let loan = m.get_loan_by_id(1).unwrap();
    assert_eq!(loan.loan_balance_total, LOAN + 8000000000);
    assert_eq!(loan.collateral_balance_available, 99998750 - 100);
    assert_eq!(m.total_loan, LOAN + 8000000000);
}

#[test]
fn draw_errors() {
    let mut m = with_loan();
    assert_eq!(m.draw(ALICE, 1, 600000000000, BTC_PRICE), Err(LoanError::ShortOfCredit));
    assert_eq!(m.draw(ALICE, 1, 1, 0), Err(LoanError::InvalidPrice));
    assert_eq!(m.draw(BOB, 1, 1, BTC_PRICE), Err(LoanError::NotOwner));
    m.on_each_block(11000000);
    assert_eq!(m.draw(ALICE, 1, 1, BTC_PRICE), Err(LoanError::LoanInLiquidation));
}

#[test]
fn scan_records_warning_and_liquidation() {
    let mut m = with_loan();
    m.on_each_block(BTC_PRICE);
    assert_eq!(m.get_loan_by_id(1).unwrap().status, LoanHealth::Well);
    m.on_each_block(12500000);
    assert_eq!(m.get_loan_by_id(1).unwrap().status, LoanHealth::Warning(8000));
    m.on_each_block(11111111);
    assert_eq!(m.get_loan_by_id(1).unwrap().status, LoanHealth::Liquidating(9000));
    assert!(m.check_loan_in_liquidation(1));
    m.on_each_block(BTC_PRICE);
    assert_eq!(m.get_loan_by_id(1).unwrap().status, LoanHealth::Liquidating(9000));
    assert_eq!(m.liquidating_loans, vec![1]);
}

#[test]
fn liquidation_with_exact_proceeds() {
    let mut m = with_loan();
    m.on_each_block(11000000);
    m.mint(ASSET_ID, LIQUIDATION_ACCOUNT, LOAN).unwrap();
    assert_eq!(m.mark_loan_liquidated(LIQUIDATION_ACCOUNT, 1, LOAN), Ok(()));
    assert_eq!(m.free_balance(ASSET_ID, COLLECTION_ACCOUNT_ID), POOL);
    assert_eq!(m.free_balance(ASSET_ID, LIQUIDATION_ACCOUNT), 0);
    assert_eq!(m.free_balance(ASSET_ID, PROFIT_POOL), 0);
    assert_eq!(m.free_balance(ASSET_ID, ALICE), LOAN);
    assert_eq!(m.get_loan_by_id(1), None);
    assert!(!m.check_loan_in_liquidation(1));
    assert_eq!(m.loans_by_account(ALICE), Vec::<u64>::new());
    assert_eq!(m.total_loan, 0);
    assert_eq!(m.total_collateral, 0);
}

#[test]
fn liquidation_surplus_is_split() {
    let mut m = with_loan();
    m.on_each_block(11000000);
    m.mint(ASSET_ID, LIQUIDATION_ACCOUNT, LOAN + 1000).unwrap();
    assert_eq!(m.mark_loan_liquidated(LIQUIDATION_ACCOUNT, 1, LOAN + 1000), Ok(()));
    assert_eq!(m.free_balance(ASSET_ID, PROFIT_POOL), 130);
    assert_eq!(m.free_balance(ASSET_ID, ALICE), LOAN + 870);
    assert_eq!(m.free_balance(ASSET_ID, LIQUIDATION_ACCOUNT), 0);
}

#[test]
fn liquidation_with_short_proceeds_changes_nothing() {
    let mut m = with_loan();
    m.on_each_block(11000000);
    m.mint(ASSET_ID, LIQUIDATION_ACCOUNT, LOAN).unwrap();
    assert_eq!(
        m.mark_loan_liquidated(LIQUIDATION_ACCOUNT, 1, LOAN - 1),
        Err(LoanError::ProceedsShort)
    );
    assert_eq!(m.free_balance(ASSET_ID, LIQUIDATION_ACCOUNT), LOAN);
    assert_eq!(m.free_balance(ASSET_ID, COLLECTION_ACCOUNT_ID), POOL - LOAN);
    assert_eq!(m.get_loan_by_id(1).unwrap().loan_balance_total, LOAN);
    assert!(m.check_loan_in_liquidation(1));
    assert_eq!(m.total_loan, LOAN);
}

#[test]
fn liquidation_errors() {
    let mut m = with_loan();
    m.mint(ASSET_ID, LIQUIDATION_ACCOUNT, LOAN).unwrap();
    assert_eq!(m.mark_loan_liquidated(BOB, 1, LOAN), Err(LoanError::NotAllowed));
    assert_eq!(m.mark_loan_liquidated(LIQUIDATION_ACCOUNT, 1, LOAN), Err(LoanError::LoanNotInLiquidation));
    assert_eq!(m.mark_loan_liquidated(LIQUIDATION_ACCOUNT, 7, LOAN), Err(LoanError::LoanNotFound));
    m.on_each_block(11000000);
    assert_eq!(
        m.mark_loan_liquidated(LIQUIDATION_ACCOUNT, 1, LOAN + 1),
        Err(LoanError::InsufficientBalance)
    );
}

#[test]
fn block_hook_accrues_interest() {
    let mut m = with_loan();
    m.on_initialize(31536000, BTC_PRICE);
    assert_eq!(m.bonus_time, 31536000);
    assert_eq!(m.loan_interest_rate_current, 6000000);
    assert_eq!(m.saving_interest_rate, 600000);
    let loan = m.get_loan_by_id(1).unwrap();
    assert_eq!(loan.loan_balance_total, LOAN + 6000000000);
    assert_eq!(loan.collateral_balance_available, 99998750 - 75);
    assert_eq!(m.total_loan, LOAN + 6000000000);
    assert_eq!(m.free_balance(ASSET_ID, ALICE), LOAN - 6000000000);
    assert_eq!(m.free_balance(ASSET_ID, COLLECTION_ACCOUNT_ID), POOL - LOAN + 6000000000);
    assert_eq!(m.total_dtoken, POOL + 6000000000);
}

#[test]
fn block_hook_does_nothing_while_paused() {
    let mut m = with_loan();
    m.pause();
    m.on_initialize(31536000, 11000000);
    assert_eq!(m.bonus_time, 0);
    assert_eq!(m.get_loan_by_id(1).unwrap().status, LoanHealth::Well);
}

#[test]
fn accrual_on_empty_pool_only_moves_the_clock() {
    let mut m = new_test_ext();
    assert_eq!(m.calculate_loan_interest_rate(100, BTC_PRICE), Ok(()));
    assert_eq!(m.bonus_time, 100);
    assert_eq!(m.loan_interest_rate_current, 5000000);
    assert_eq!(m.saving_interest_rate, 0);
}

#[test]
fn requested_collateral_below_minimum_is_refused() {
    let mut m = new_test_ext();
    m.mint(SBTC_ASSET_ID, ALICE, 20000000).unwrap();
    m.mint(ASSET_ID, COLLECTION_ACCOUNT_ID, 104000000000).unwrap();
    assert_eq!(
        m.get_collateral_loan(0, 104000000000, BTC_PRICE),
        Ok(CollateralLoan { collateral_amount: 20000000, loan_amount: 104000000000 })
    );
    assert_eq!(
        m.apply_for_loan(ALICE, 0, 104000000000, BTC_PRICE),
        Err(LoanError::BelowMinimumCollateral)
    );
    assert_eq!(m.free_balance(SBTC_ASSET_ID, ALICE), 20000000);
    assert_eq!(m.next_loan_id, 1);
}

#[test]
fn draw_on_liquidating_loan_is_refused() {
    let mut m = with_loan();
    m.on_each_block(11000000);
    assert_eq!(
        m.draw_from_loan(ALICE, 1, 1000, BTC_PRICE),
        Err(LoanError::LoanInLiquidation)
    );
    assert_eq!(m.get_loan_by_id(1).unwrap().loan_balance_total, LOAN);
}

#[test]
fn liquidating_loan_still_accrues_interest() {
    let mut m = with_loan();
    m.on_each_block(11000000);
    assert_eq!(m.calculate_loan_interest_rate(31536000, BTC_PRICE), Ok(()));
    assert_eq!(m.get_loan_by_id(1).unwrap().loan_balance_total, LOAN + 6000000000);
}

#[test]
fn overflowing_accrual_changes_nothing() {
    let mut m = new_test_ext();
    m.mint(ASSET_ID, BOB, 20000000000000000).unwrap();
    m.create_staking(BOB, ASSET_ID, 20000000000000000).unwrap();
    m.mint(SBTC_ASSET_ID, ALICE, 4000000000000).unwrap();
    m.apply_for_loan(ALICE, 4000000000000, 10000000000000000, BTC_PRICE).unwrap();
    assert_eq!(
        m.calculate_loan_interest_rate(u64::MAX, BTC_PRICE),
        Err(LoanError::Overflow)
    );
    assert_eq!(m.bonus_time, 0);
    assert_eq!(m.loan_interest_rate_current, 0);
    assert_eq!(m.get_loan_by_id(1).unwrap().loan_balance_total, 10000000000000000);
}

#[test]
fn share_value_equals_net_principal_from_empty_pool() {
    let mut m = new_test_ext();
    m.mint(ASSET_ID, ALICE, 1000).unwrap();
    m.mint(ASSET_ID, BOB, 777).unwrap();
    m.create_staking(ALICE, ASSET_ID, 1000).unwrap();
    m.create_staking(BOB, ASSET_ID, 777).unwrap();
    m.make_redeem(ALICE, ASSET_ID, 333).unwrap();
    let paid = m.make_redeem_all(BOB).unwrap();
    m.create_staking(BOB, ASSET_ID, 100).unwrap();
    let net = 1000 + 777 + 100 - 333 - paid;
    assert_eq!(paid, 777);
    assert_eq!(m.total_dtoken, net);
    assert_eq!(m.market_dtoken, net);
    assert_eq!(m.user_dtoken(ALICE) + m.user_dtoken(BOB), net);
}
