//! The ledger's state, its invariant, and the operations shared by its parts.
use vstd::prelude::*;
use vstd::hash_map::HashMapWithView;
use crate::assets::{transfer_error, transferred, AssetLedger};
use crate::loans::sum_loans;
use crate::types::{outcome, AccountId, AssetId, Balance, Loan, LoanError, LoanId, PriceInUSDT, LTV};

verus! {

broadcast use vstd::std_specs::hash::group_hash_axioms;

/// Settings of the ledger, fixed when it is created.
#[derive(Clone, Copy, Debug, PartialEq, Eq, Structural)]
pub struct Config {
    /// The asset saved into the pool; loans are paid out, repaid and settled in it.
    pub collection_asset_id: AssetId,
    /// The account that holds the pool's deposits.
    pub collection_account_id: AccountId,
    /// The asset locked as collateral.
    pub collateral_asset_id: AssetId,
    /// The account that holds locked collateral.
    pub pawn_shop: AccountId,
    /// The account that receives liquidation penalties.
    pub profit_pool: AccountId,
    /// The only account that may settle a liquidation.
    pub liquidation_account: AccountId,
    /// The largest loan-to-value ratio a loan may be opened at (exclusive).
    pub global_ltv_limit: LTV,
    /// From this ratio on, a loan is flagged with a warning.
    pub global_warning_threshold: LTV,
    /// From this ratio on, a loan is liquidated.
    pub global_liquidation_threshold: LTV,
    /// The least collateral a loan may be opened with.
    pub minimum_collateral: Balance,
    /// Percentage of a liquidation surplus kept as penalty.
    pub liquidation_penalty: u64,
}

impl Config {
    /// A positive LTV limit that fits in 64 bits, and a penalty of at most 100%.
    pub open spec fn wf(&self) -> bool {
        &&& 0 < self.global_ltv_limit <= u64::MAX
        &&& self.liquidation_penalty <= 100
    }
}

/// The abstract state of the ledger.
pub struct ModuleView {
    pub config: Config,
    pub paused: bool,
    /// Balance of each asset held by each account.
    pub balances: Map<(AssetId, AccountId), Balance>,
    /// Pool shares held by each account.
    pub shares: Map<AccountId, Balance>,
    /// Pool shares outstanding.
    pub market_dtoken: Balance,
    /// Pool principal outstanding.
    pub total_dtoken: Balance,
    /// The id the next loan gets.
    pub next_loan_id: LoanId,
    /// Open loans, in increasing order of id.
    pub loans: Seq<Loan>,
    /// Ids of the loans being liquidated.
    pub liquidating: Seq<LoanId>,
    /// Debt outstanding over all open loans.
    pub total_loan: Balance,
    /// Collateral locked over all open loans.
    pub total_collateral: Balance,
    /// A cap on `total_loan` for opening loans, if any.
    pub loan_cap: Option<Balance>,
    /// When interest was last distributed, in seconds.
    pub bonus_time: u64,
    /// The annualized loan rate last published, scaled by `INTEREST_RATE_PREC`.
    pub loan_interest_rate_current: u128,
    /// The annualized saving rate last published, scaled by `INTEREST_RATE_PREC`.
    pub saving_interest_rate: u128,
}

/// The lending ledger: asset balances, the deposit pool and the open loans.
pub struct Module {
    pub config: Config,
    pub paused: bool,
    pub assets: AssetLedger,
    pub user_dtoken: HashMapWithView<AccountId, Balance>,
    pub market_dtoken: Balance,
    pub total_dtoken: Balance,
    pub next_loan_id: LoanId,
    pub loans: Vec<Loan>,
    pub liquidating_loans: Vec<LoanId>,
    pub total_loan: Balance,
    pub total_collateral: Balance,
    pub loan_cap: Option<Balance>,
    pub bonus_time: u64,
    pub loan_interest_rate_current: u128,
    pub saving_interest_rate: u128,
}

impl View for Module {
    type V = ModuleView;

    open spec fn view(&self) -> ModuleView {
        ModuleView {
            config: self.config,
            paused: self.paused,
            balances: self.assets@,
            shares: Map::total(
                |w: AccountId|
                    if self.user_dtoken@.contains_key(w) {
                        self.user_dtoken@[w]
                    } else {
                        0
                    },
            ),
            market_dtoken: self.market_dtoken,
            total_dtoken: self.total_dtoken,
            next_loan_id: self.next_loan_id,
            loans: self.loans@,
            liquidating: self.liquidating_loans@,
            total_loan: self.total_loan,
            total_collateral: self.total_collateral,
            loan_cap: self.loan_cap,
            bonus_time: self.bonus_time,
            loan_interest_rate_current: self.loan_interest_rate_current,
            saving_interest_rate: self.saving_interest_rate,
        }
    }
}

impl ModuleView {
    /// The ledger's invariant.
    pub open spec fn wf(self) -> bool {
        &&& self.config.wf()
        &&& self.market_dtoken <= self.total_dtoken
        &&& forall|i: int, j: int|
            0 <= i < j < self.loans.len() ==> (#[trigger] self.loans[i]).id
                < (#[trigger] self.loans[j]).id
        &&& forall|i: int|
            0 <= i < self.loans.len() ==> (#[trigger] self.loans[i]).id < self.next_loan_id
        &&& forall|i: int|
            0 <= i < self.loans.len() ==> (#[trigger] self.loans[i]).collateral_balance_available
                <= self.loans[i].collateral_balance_original
        &&& forall|j: int|
            0 <= j < self.liquidating.len() ==> #[trigger] self.liquidating[j] < self.next_loan_id
        &&& self.total_loan == sum_loans(self.loans, true)
        &&& self.total_collateral == sum_loans(self.loans, false)
    }

    /// Whether a loan with id `id` is open.
    pub open spec fn has_loan(self, id: LoanId) -> bool {
        exists|i: int| 0 <= i < self.loans.len() && #[trigger] self.loans[i].id == id
    }

    /// The position of the open loan with id `id`.
    pub open spec fn loan_index(self, id: LoanId) -> int {
        choose|i: int| 0 <= i < self.loans.len() && #[trigger] self.loans[i].id == id
    }

    /// The open loan with id `id`.
    pub open spec fn loan(self, id: LoanId) -> Loan {
        self.loans[self.loan_index(id)]
    }
}

/// `s` without the id `id`.
pub open spec fn without_id(s: Seq<LoanId>, id: LoanId) -> Seq<LoanId> {
    s.filter(|x: LoanId| x != id)
}

/// What is left after removing an id was there before, and is not that id.
pub proof fn lemma_without_id(s: Seq<LoanId>, id: LoanId, x: LoanId)
    requires
        without_id(s, id).contains(x),
    ensures
        s.contains(x),
        x != id,
    decreases s.len(),
{
    reveal(Seq::filter);
    if s.len() > 0 {
        let r = without_id(s.drop_last(), id);
        if r.contains(x) {
            lemma_without_id(s.drop_last(), id, x);
            let k = choose|k: int| 0 <= k < s.drop_last().len() && s.drop_last()[k] == x;
            assert(s[k] == x);
        } else {
            assert(s.last() == x);
            assert(s[s.len() - 1] == x);
        }
    }
}

/// Ids of the loans of `s` owned by `who`, in order.
pub open spec fn owned_ids(s: Seq<Loan>, who: AccountId) -> Seq<LoanId>
    decreases s.len(),
{
    if s.len() == 0 {
        Seq::empty()
    } else if s.last().who == who {
        owned_ids(s.drop_last(), who).push(s.last().id)
    } else {
        owned_ids(s.drop_last(), who)
    }
}

/// Every id owned by `who` is the id of a loan of `s`.
pub proof fn lemma_owned_ids(s: Seq<Loan>, who: AccountId, x: LoanId)
    requires
        owned_ids(s, who).contains(x),
    ensures
        exists|j: int| 0 <= j < s.len() && (#[trigger] s[j]).id == x && s[j].who == who,
    decreases s.len(),
{
    let rest = owned_ids(s.drop_last(), who);
    if rest.contains(x) {
        lemma_owned_ids(s.drop_last(), who, x);
        let j = choose|j: int|
            0 <= j < s.drop_last().len() && (#[trigger] s.drop_last()[j]).id == x
                && s.drop_last()[j].who == who;
        assert(s[j] == s.drop_last()[j]);
    } else {
        assert(s[s.len() - 1].id == x);
    }
}

impl Module {
    /// A ledger with the given settings: no balances, no deposits, no loans.
    pub fn new(config: Config) -> (r: Module)
        requires
            config.wf(),
        ensures
            r@.wf(),
            r@.config == config,
            !r@.paused,
            forall|k: (AssetId, AccountId)| #[trigger] r@.balances[k] == 0,
            forall|w: AccountId| #[trigger] r@.shares[w] == 0,
            r@.market_dtoken == 0,
            r@.total_dtoken == 0,
            r@.next_loan_id == 1,
            r@.loans.len() == 0,
            r@.liquidating.len() == 0,
            r@.total_loan == 0,
            r@.total_collateral == 0,
            r@.loan_cap is None,
            r@.bonus_time == 0,
            r@.loan_interest_rate_current == 0,
            r@.saving_interest_rate == 0,
    {
        Module {
            config,
            paused: false,
            assets: AssetLedger::new(),
            user_dtoken: HashMapWithView::new(),
            market_dtoken: 0,
            total_dtoken: 0,
            next_loan_id: 1,
            loans: Vec::new(),
            liquidating_loans: Vec::new(),
            total_loan: 0,
            total_collateral: 0,
            loan_cap: None,
            bonus_time: 0,
            loan_interest_rate_current: 0,
            saving_interest_rate: 0,
        }
    }

    /// Pool shares held by `who`.
    pub fn user_dtoken(&self, who: AccountId) -> (r: Balance)
        ensures
            r == self@.shares[who],
    {
        match self.user_dtoken.get(&who) {
            Some(v) => *v,
            None => 0,
        }
    }

    /// Sets the pool shares of `who`.
    pub(crate) fn set_user_dtoken(&mut self, who: AccountId, amount: Balance)
        ensures
            final(self)@ == (ModuleView { shares: old(self)@.shares.insert(who, amount), ..old(self)@ }),
    {
        self.user_dtoken.insert(who, amount);
        proof {
            assert(final(self)@.shares =~= old(self)@.shares.insert(who, amount));
        }
    }

    /// Moves `amount` of `asset` between two accounts of the ledger.
    pub(crate) fn transfer(&mut self, asset: AssetId, from: AccountId, to: AccountId, amount: Balance) -> (r:
        Result<(), LoanError>)
        ensures
            r == outcome(transfer_error(old(self)@.balances, asset, from, to, amount), ()),
            r is Ok ==> final(self)@ == (ModuleView {
                balances: transferred(old(self)@.balances, asset, from, to, amount),
                ..old(self)@
            }),
            r is Err ==> *final(self) == *old(self),
    {
        self.assets.transfer(asset, from, to, amount)
    }

    /// Credits `amount` of `asset` to `who`.
    pub fn mint(&mut self, asset: AssetId, who: AccountId, amount: Balance) -> (r: Result<
        (),
        LoanError,
    >)
        ensures
            r is Ok <==> old(self)@.balances[(asset, who)] + amount <= u64::MAX,
            r is Ok ==> final(self)@ == (ModuleView {
                balances: old(self)@.balances.insert(
                    (asset, who),
                    (old(self)@.balances[(asset, who)] + amount) as Balance,
                ),
                ..old(self)@
            }),
            r is Err ==> r == Err::<(), LoanError>(LoanError::BalanceOverflow) && *final(self)
                == *old(self),
    {
        self.assets.mint(asset, who, amount)
    }

    /// The balance of `who` in `asset`.
    pub fn free_balance(&self, asset: AssetId, who: AccountId) -> (r: Balance)
        ensures
            r == self@.balances[(asset, who)],
    {
        self.assets.free_balance(asset, who)
    }

    /// The position of the open loan with id `id`, if any.
    pub fn find_loan(&self, id: LoanId) -> (r: Option<usize>)
        requires
            self@.wf(),
        ensures
            r is None <==> !self@.has_loan(id),
            r matches Some(i) ==> i < self@.loans.len() && self@.loans[i as int].id == id
                && self@.loan_index(id) == i,
    {
        let mut i: usize = 0;
        while i < self.loans.len()
            invariant
                0 <= i <= self.loans@.len(),
                self@.wf(),
                forall|j: int| 0 <= j < i ==> (#[trigger] self.loans@[j]).id != id,
            decreases self.loans@.len() - i,
        {
            if self.loans[i].id == id {
                proof {
                    let k = self@.loan_index(id);
                    assert(self@.loans[i as int].id == id);
                    assert(0 <= k < self@.loans.len() && self@.loans[k].id == id);
                    if k < i {
                        assert(self@.loans[k].id < self@.loans[i as int].id);
                    } else if k > i {
                        assert(self@.loans[i as int].id < self@.loans[k].id);
                    }
                }
                return Some(i);
            }
            i += 1;
        }
        None
    }

    /// The open loan with id `id`, if any.
    pub fn get_loan_by_id(&self, id: LoanId) -> (r: Option<Loan>)
        requires
            self@.wf(),
        ensures
            r is None <==> !self@.has_loan(id),
            r matches Some(l) ==> l == self@.loan(id),
    {
        match self.find_loan(id) {
            Some(i) => Some(self.loans[i]),
            None => None,
        }
    }

    /// Hands out the next loan id.
    pub(crate) fn get_next_loan_id(&mut self) -> (r: LoanId)
        requires
            old(self).next_loan_id < u64::MAX,
        ensures
            r == old(self).next_loan_id,
            final(self)@ == (ModuleView { next_loan_id: (r + 1) as LoanId, ..old(self)@ }),
    {
        let id = self.next_loan_id;
        self.next_loan_id = id + 1;
        id
    }

    /// Whether loan `loan_id` is being liquidated.
    pub fn check_loan_in_liquidation(&self, loan_id: LoanId) -> (r: bool)
        ensures
            r == self@.liquidating.contains(loan_id),
    {
        let mut i: usize = 0;
        while i < self.liquidating_loans.len()
            invariant
                0 <= i <= self.liquidating_loans@.len(),
                forall|j: int| 0 <= j < i ==> self.liquidating_loans@[j] != loan_id,
            decreases self.liquidating_loans@.len() - i,
        {
            if self.liquidating_loans[i] == loan_id {
                assert(self@.liquidating[i as int] == loan_id);
                return true;
            }
            i += 1;
        }
        false
    }

    /// The same ledger with loan `id` taken out of the liquidating set.
    pub(crate) fn remove_liquidating(&mut self, id: LoanId)
        ensures
            final(self)@ == (ModuleView {
                liquidating: without_id(old(self)@.liquidating, id),
                ..old(self)@
            }),
    {
        let ghost s = self.liquidating_loans@;
        let mut kept: Vec<LoanId> = Vec::new();
        let mut i: usize = 0;
        while i < self.liquidating_loans.len()
            invariant
                0 <= i <= s.len(),
                self.liquidating_loans@ == s,
                kept@ == without_id(s.subrange(0, i as int), id),
            decreases s.len() - i,
        {
            let x = self.liquidating_loans[i];
            proof {
                assert(s.subrange(0, i + 1).drop_last() =~= s.subrange(0, i as int));
                reveal(Seq::filter);
            }
            if x != id {
                kept.push(x);
            }
            i += 1;
        }
        proof {
            assert(s.subrange(0, s.len() as int) =~= s);
        }
        self.liquidating_loans = kept;
    }

    /// The work done once per block at time `now` and price `btc_price`,
    /// unless the ledger is paused: the health scan, then interest
    /// distribution (which changes nothing where the interest overflows).
    pub fn on_initialize(&mut self, now: u64, btc_price: PriceInUSDT)
        requires
            old(self)@.wf(),
        ensures
            old(self)@.paused ==> *final(self) == *old(self),
            !old(self)@.paused ==> final(self)@ == old(self)@.ticked(btc_price).interest_accrued(
                now,
                btc_price,
            ),
            final(self)@.wf(),
    {
        if !self.paused {
            self.on_each_block(btc_price);
            let _accrued = self.calculate_loan_interest_rate(now, btc_price);
        }
    }

    /// Stops every operation but the administrative ones.
    pub fn pause(&mut self)
        ensures
            final(self)@ == (ModuleView { paused: true, ..old(self)@ }),
    {
        self.paused = true;
    }

    /// Lets operations run again.
    pub fn resume(&mut self)
        ensures
            final(self)@ == (ModuleView { paused: false, ..old(self)@ }),
    {
        self.paused = false;
    }

    /// Caps the total outstanding debt at `balance`; zero lifts the cap.
    pub fn set_loan_cap(&mut self, balance: Balance)
        ensures
            final(self)@ == (ModuleView {
                loan_cap: if balance == 0 {
                    None
                } else {
                    Some(balance)
                },
                ..old(self)@
            }),
    {
        if balance == 0 {
            self.loan_cap = None;
        } else {
            self.loan_cap = Some(balance);
        }
    }

    /// Ids of the open loans of `who`, oldest first.
    pub fn loans_by_account(&self, who: AccountId) -> (r: Vec<LoanId>)
        ensures
            r@ == owned_ids(self@.loans, who),
    {
        let mut out: Vec<LoanId> = Vec::new();
        let mut i: usize = 0;
        while i < self.loans.len()
            invariant
                0 <= i <= self.loans@.len(),
                out@ == owned_ids(self.loans@.subrange(0, i as int), who),
            decreases self.loans@.len() - i,
        {
            let l = self.loans[i];
            proof {
                assert(self.loans@.subrange(0, i + 1).drop_last() =~= self.loans@.subrange(0, i as int));
            }
            if l.who == who {
                out.push(l.id);
            }
            i += 1;
        }
        proof {
            assert(self.loans@.subrange(0, i as int) =~= self.loans@);
        }
        out
    }
}

} // verus!
