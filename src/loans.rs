use vstd::prelude::*;
use crate::types::Loan;

verus! {

/// The amount a loan contributes to the debt total (`debt`) or to the collateral total.
pub open spec fn loan_amount(l: Loan, debt: bool) -> int {
    if debt {
        l.loan_balance_total as int
    } else {
        l.collateral_balance_original as int
    }
}

/// Sum of the debts (`debt`) or of the locked collateral of the loans `s`.
pub open spec fn sum_loans(s: Seq<Loan>, debt: bool) -> int
    decreases s.len(),
{
    if s.len() == 0 {
        0
    } else {
        sum_loans(s.drop_last(), debt) + loan_amount(s.last(), debt)
    }
}

pub proof fn lemma_sum_push(s: Seq<Loan>, x: Loan, debt: bool)
    ensures
        sum_loans(s.push(x), debt) == sum_loans(s, debt) + loan_amount(x, debt),
{
    assert(s.push(x).drop_last() =~= s);
}

pub proof fn lemma_sum_concat(a: Seq<Loan>, b: Seq<Loan>, debt: bool)
    ensures
        sum_loans(a + b, debt) == sum_loans(a, debt) + sum_loans(b, debt),
    decreases b.len(),
{
    if b.len() == 0 {
        assert(a + b =~= a);
    } else {
        lemma_sum_concat(a, b.drop_last(), debt);
        assert((a + b).drop_last() =~= a + b.drop_last());
    }
}

pub proof fn lemma_sum_nonneg(s: Seq<Loan>, debt: bool)
    ensures
        sum_loans(s, debt) >= 0,
    decreases s.len(),
{
    if s.len() > 0 {
        lemma_sum_nonneg(s.drop_last(), debt);
    }
}

pub proof fn lemma_sum_remove(s: Seq<Loan>, i: int, debt: bool)
    requires
        0 <= i < s.len(),
    ensures
        sum_loans(s.remove(i), debt) == sum_loans(s, debt) - loan_amount(s[i], debt),
        sum_loans(s, debt) >= loan_amount(s[i], debt),
{
    let pre = s.subrange(0, i);
    let post = s.subrange(i + 1, s.len() as int);
    assert(s =~= pre.push(s[i]) + post);
    assert(s.remove(i) =~= pre + post);
    lemma_sum_concat(pre.push(s[i]), post, debt);
    lemma_sum_concat(pre, post, debt);
    lemma_sum_push(pre, s[i], debt);
    lemma_sum_nonneg(pre + post, debt);
}

pub proof fn lemma_sum_update(s: Seq<Loan>, i: int, x: Loan, debt: bool)
    requires
        0 <= i < s.len(),
    ensures
        sum_loans(s.update(i, x), debt) == sum_loans(s, debt) - loan_amount(s[i], debt)
            + loan_amount(x, debt),
{
    lemma_sum_remove(s, i, debt);
    lemma_sum_remove(s.update(i, x), i, debt);
    assert(s.update(i, x).remove(i) =~= s.remove(i));
}

/// Whether two loans have the same id, owner and amounts.
pub open spec fn loan_amounts_equal(a: Loan, b: Loan) -> bool {
    &&& a.id == b.id
    &&& a.who == b.who
    &&& a.collateral_balance_original == b.collateral_balance_original
    &&& a.collateral_balance_available == b.collateral_balance_available
    &&& a.loan_balance_total == b.loan_balance_total
}

pub proof fn lemma_sum_same_amounts(a: Seq<Loan>, b: Seq<Loan>, debt: bool)
    requires
        a.len() == b.len(),
        forall|j: int| 0 <= j < a.len() ==> loan_amounts_equal(#[trigger] a[j], b[j]),
    ensures
        sum_loans(a, debt) == sum_loans(b, debt),
    decreases a.len(),
{
    if a.len() > 0 {
        assert forall|j: int| 0 <= j < a.drop_last().len() implies loan_amounts_equal(
            #[trigger] a.drop_last()[j],
            b.drop_last()[j],
        ) by {
            assert(a.drop_last()[j] == a[j] && b.drop_last()[j] == b[j]);
        }
        lemma_sum_same_amounts(a.drop_last(), b.drop_last(), debt);
        assert(loan_amounts_equal(a[a.len() - 1], b[b.len() - 1]));
    }
}

} // verus!
