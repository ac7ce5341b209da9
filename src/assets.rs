use vstd::prelude::*;
use vstd::hash_map::HashMapWithView;
use crate::types::{outcome, AccountId, AssetId, Balance, LoanError};

verus! {

broadcast use vstd::std_specs::hash::group_hash_axioms;

/// The ledger's storage key of an account's balance of an asset.
pub open spec fn balance_key(asset: AssetId, who: AccountId) -> u128 {
    (asset as int * 0x1_0000_0000_0000_0000 + who as int) as u128
}

proof fn lemma_balance_key_injective(a1: AssetId, w1: AccountId, a2: AssetId, w2: AccountId)
    ensures
        balance_key(a1, w1) == balance_key(a2, w2) ==> a1 == a2 && w1 == w2,
{
    let b: int = 0x1_0000_0000_0000_0000;
    let k1 = a1 as int * b + w1 as int;
    let k2 = a2 as int * b + w2 as int;
    assert(0 <= k1 < 0x1_0000_0000_0000_0000_0000_0000_0000_0000) by (nonlinear_arith)
        requires
            k1 == a1 as int * b + w1 as int,
            b == 0x1_0000_0000_0000_0000,
            0 <= a1 < 0x1_0000_0000,
            0 <= w1 < b,
    ;
    assert(0 <= k2 < 0x1_0000_0000_0000_0000_0000_0000_0000_0000) by (nonlinear_arith)
        requires
            k2 == a2 as int * b + w2 as int,
            b == 0x1_0000_0000_0000_0000,
            0 <= a2 < 0x1_0000_0000,
            0 <= w2 < b,
    ;
    if k1 == k2 {
        assert(a1 == a2 && w1 == w2) by (nonlinear_arith)
            requires
                a1 as int * b + w1 as int == a2 as int * b + w2 as int,
                b == 0x1_0000_0000_0000_0000,
                0 <= a1,
                0 <= a2,
                0 <= w1 < b,
                0 <= w2 < b,
        ;
    }
}

/// Whether a transfer of `amount` of `asset` from `from` to `to` can be made
/// on the balances `m`: the payer holds the amount and the payee's balance
/// stays representable.
pub open spec fn transfer_ok(
    m: Map<(AssetId, AccountId), Balance>,
    asset: AssetId,
    from: AccountId,
    to: AccountId,
    amount: Balance,
) -> bool {
    m[(asset, from)] >= amount && (from == to || m[(asset, to)] + amount <= u64::MAX)
}

/// The error a transfer meets on the balances `m`, if any.
pub open spec fn transfer_error(
    m: Map<(AssetId, AccountId), Balance>,
    asset: AssetId,
    from: AccountId,
    to: AccountId,
    amount: Balance,
) -> Option<LoanError> {
    if m[(asset, from)] < amount {
        Some(LoanError::InsufficientBalance)
    } else if !transfer_ok(m, asset, from, to, amount) {
        Some(LoanError::BalanceOverflow)
    } else {
        None
    }
}

/// The balances `m` after a transfer that `transfer_ok` admits.
pub open spec fn transferred(
    m: Map<(AssetId, AccountId), Balance>,
    asset: AssetId,
    from: AccountId,
    to: AccountId,
    amount: Balance,
) -> Map<(AssetId, AccountId), Balance> {
    if from == to {
        m
    } else {
        m.insert((asset, from), (m[(asset, from)] - amount) as Balance).insert(
            (asset, to),
            (m[(asset, to)] + amount) as Balance,
        )
    }
}

/// A transfer that went through can be made in reverse, which restores the balances.
pub proof fn lemma_transfer_back(
    m: Map<(AssetId, AccountId), Balance>,
    asset: AssetId,
    from: AccountId,
    to: AccountId,
    amount: Balance,
)
    requires
        transfer_ok(m, asset, from, to, amount),
        m.contains_key((asset, from)),
        m.contains_key((asset, to)),
    ensures
        transfer_ok(transferred(m, asset, from, to, amount), asset, to, from, amount),
        transferred(transferred(m, asset, from, to, amount), asset, to, from, amount) == m,
{
    if from != to {
        let m1 = transferred(m, asset, from, to, amount);
        assert(m1[(asset, from)] == m[(asset, from)] - amount);
        assert(m1[(asset, to)] == m[(asset, to)] + amount);
        assert(transferred(m1, asset, to, from, amount) =~= m);
    }
}

/// Balances of fungible assets, per asset and account; an account that was
/// never credited holds zero.
pub struct AssetLedger {
    balances: HashMapWithView<u128, Balance>,
}

impl View for AssetLedger {
    type V = Map<(AssetId, AccountId), Balance>;

    closed spec fn view(&self) -> Map<(AssetId, AccountId), Balance> {
        Map::total(
            |k: (AssetId, AccountId)|
                if self.balances@.contains_key(balance_key(k.0, k.1)) {
                    self.balances@[balance_key(k.0, k.1)]
                } else {
                    0
                },
        )
    }
}

impl AssetLedger {
    /// Every account holds a balance of every asset.
    pub proof fn lemma_view_total(&self)
        ensures
            forall|k: (AssetId, AccountId)| #[trigger] self@.contains_key(k),
    {
    }

    /// A ledger in which every balance is zero.
    pub fn new() -> (r: AssetLedger)
        ensures
            forall|k: (AssetId, AccountId)| #[trigger] r@[k] == 0,
    {
        AssetLedger { balances: HashMapWithView::new() }
    }

    /// The balance of `who` in `asset`.
    pub fn free_balance(&self, asset: AssetId, who: AccountId) -> (r: Balance)
        ensures
            r == self@[(asset, who)],
    {
        match self.balances.get(&Self::key(asset, who)) {
            Some(v) => *v,
            None => 0,
        }
    }

    fn key(asset: AssetId, who: AccountId) -> (r: u128)
        ensures
            r == balance_key(asset, who),
    {
        assert(asset as int * 0x1_0000_0000_0000_0000 + who as int <= u128::MAX) by (nonlinear_arith)
            requires
                asset <= u32::MAX,
                who <= u64::MAX,
        ;
        asset as u128 * 0x1_0000_0000_0000_0000 + who as u128
    }

    fn put(&mut self, asset: AssetId, who: AccountId, amount: Balance)
        ensures
            final(self)@ == old(self)@.insert((asset, who), amount),
    {
        self.balances.insert(Self::key(asset, who), amount);
        proof {
            assert forall|k: (AssetId, AccountId)|
                #[trigger] final(self)@[k] == old(self)@.insert((asset, who), amount)[k] by {
                lemma_balance_key_injective(k.0, k.1, asset, who);
            }
            assert(final(self)@ =~= old(self)@.insert((asset, who), amount));
        }
    }

    /// Credits `amount` of `asset` to `who`; refused where the balance would overflow.
    pub fn mint(&mut self, asset: AssetId, who: AccountId, amount: Balance) -> (r: Result<
        (),
        LoanError,
    >)
        ensures
            r is Ok <==> old(self)@[(asset, who)] + amount <= u64::MAX,
            r is Ok ==> final(self)@ == old(self)@.insert(
                (asset, who),
                (old(self)@[(asset, who)] + amount) as Balance,
            ),
            r is Err ==> r == Err::<(), LoanError>(LoanError::BalanceOverflow) && *final(self)
                == *old(self),
    {
        let b = self.free_balance(asset, who);
        if b > u64::MAX - amount {
            return Err(LoanError::BalanceOverflow);
        }
        self.put(asset, who, b + amount);
        Ok(())
    }

    /// Moves `amount` of `asset` from `from` to `to`, all or nothing.
    pub fn transfer(&mut self, asset: AssetId, from: AccountId, to: AccountId, amount: Balance) -> (r:
        Result<(), LoanError>)
        ensures
            r == outcome(transfer_error(old(self)@, asset, from, to, amount), ()),
            r is Ok <==> transfer_ok(old(self)@, asset, from, to, amount),
            r is Ok ==> final(self)@ == transferred(old(self)@, asset, from, to, amount),
            r is Err ==> *final(self) == *old(self),
            r == Err::<(), LoanError>(LoanError::InsufficientBalance) <==> old(self)@[(
                asset,
                from,
            )] < amount,
            r == Err::<(), LoanError>(LoanError::BalanceOverflow) <==> old(self)@[(asset, from)]
                >= amount && !transfer_ok(old(self)@, asset, from, to, amount),
    {
        let bf = self.free_balance(asset, from);
        if bf < amount {
            return Err(LoanError::InsufficientBalance);
        }
        if from == to {
            return Ok(());
        }
        let bt = self.free_balance(asset, to);
        if bt > u64::MAX - amount {
            return Err(LoanError::BalanceOverflow);
        }
        self.put(asset, from, bf - amount);
        self.put(asset, to, bt + amount);
        Ok(())
    }
}

} // verus!
