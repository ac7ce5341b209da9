use vstd::prelude::*;
use crate::engine::{Config, Module};
use crate::types::{AccountId, AssetId, PriceInUSDT};

verus! {

pub const ROOT: AccountId = 1;
pub const ALICE: AccountId = 2;
pub const BOB: AccountId = 3;
pub const CHRIS: AccountId = 4;
pub const DAVE: AccountId = 5;
pub const TEAM: AccountId = 6;
pub const PROFIT_POOL: AccountId = 7;
pub const LIQUIDATION_ACCOUNT: AccountId = 8;
pub const COLLECTION_ACCOUNT_ID: AccountId = 999;
pub const PAWN_SHOP: AccountId = 888;

/// The collateral asset.
pub const SBTC_ASSET_ID: AssetId = 7;

/// The asset saved into the pool and lent out.
pub const ASSET_ID: AssetId = 8;

/// A collateral price of 8000 loan-asset units, at `PRICE_PREC`.
pub const BTC_PRICE: PriceInUSDT = 80000000;

/// The settings a fresh test ledger starts from.
pub open spec fn test_config() -> Config {
    Config {
        collection_asset_id: ASSET_ID,
        collection_account_id: COLLECTION_ACCOUNT_ID,
        collateral_asset_id: SBTC_ASSET_ID,
        pawn_shop: PAWN_SHOP,
        profit_pool: PROFIT_POOL,
        liquidation_account: LIQUIDATION_ACCOUNT,
        global_ltv_limit: 6500,
        global_warning_threshold: 8000,
        global_liquidation_threshold: 9000,
        minimum_collateral: 20000000,
        liquidation_penalty: 13,
    }
}

/// Builds a fresh ledger with the test settings.
pub struct ExtBuilder {}

impl Default for ExtBuilder {
    fn default() -> (r: ExtBuilder)
        ensures
            r == (ExtBuilder {}),
    {
        ExtBuilder {}
    }
}

impl ExtBuilder {
    /// A ledger with the test settings, no balances and no loans.
    pub fn build(self) -> (r: Module)
        ensures
            r@.wf(),
            r@.config == test_config(),
            !r@.paused,
            forall|k: (AssetId, AccountId)| #[trigger] r@.balances[k] == 0,
            forall|w: AccountId| #[trigger] r@.shares[w] == 0,
            r@.market_dtoken == 0,
            r@.total_dtoken == 0,
            r@.next_loan_id == 1,
            r@.loans.len() == 0,
            r@.liquidating.len() == 0,
            r@.total_loan == 0,
            r@.total_collateral == 0,
            r@.loan_cap is None,
            r@.bonus_time == 0,
    {
        new_test_ext()
    }
}

/// A ledger with the test settings, no balances and no loans.
pub fn new_test_ext() -> (r: Module)
    ensures
        r@.wf(),
        r@.config == test_config(),
        !r@.paused,
        forall|k: (AssetId, AccountId)| #[trigger] r@.balances[k] == 0,
        forall|w: AccountId| #[trigger] r@.shares[w] == 0,
        r@.market_dtoken == 0,
        r@.total_dtoken == 0,
        r@.next_loan_id == 1,
        r@.loans.len() == 0,
        r@.liquidating.len() == 0,
        r@.total_loan == 0,
        r@.total_collateral == 0,
        r@.loan_cap is None,
        r@.bonus_time == 0,
{
    Module::new(
        Config {
            collection_asset_id: ASSET_ID,
            collection_account_id: COLLECTION_ACCOUNT_ID,
            collateral_asset_id: SBTC_ASSET_ID,
            pawn_shop: PAWN_SHOP,
            profit_pool: PROFIT_POOL,
            liquidation_account: LIQUIDATION_ACCOUNT,
            global_ltv_limit: 6500,
            global_warning_threshold: 8000,
            global_liquidation_threshold: 9000,
            minimum_collateral: 20000000,
            liquidation_penalty: 13,
        },
    )
}

} // verus!
