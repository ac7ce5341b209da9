use deposit_loan::interest::{calculate_interest_rate, utilization};
use deposit_loan::types::{check_loan_health, Loan, LoanHealth};

#[test]
fn rate_on_each_slope() {
    assert_eq!(calculate_interest_rate(0), 5000000);
    assert_eq!(calculate_interest_rate(30000000), 8000000);
    assert_eq!(calculate_interest_rate(39999999), 8999999);
    assert_eq!(calculate_interest_rate(40000000), 9000000);
    assert_eq!(calculate_interest_rate(79999999), 16999999);
    assert_eq!(calculate_interest_rate(80000000), 18984320);
    assert_eq!(calculate_interest_rate(100000000), 46000000);
}

#[test]
fn rate_never_decreases() {
    let mut last = 0;
    let mut u: u128 = 0;
    while u <= 100000000 {
        let r = calculate_interest_rate(u);
        assert!(r >= last);
        last = r;
        u += 99991;
    }
}

#[test]
fn utilization_is_lent_share() {
    assert_eq!(utilization(1, 1), 50000000);
    assert_eq!(utilization(0, 5), 0);
    assert_eq!(utilization(5, 0), 100000000);
    assert_eq!(utilization(100000000000, 900000000000), 10000000);
}

#[test]
fn ltv_formula() {
    assert_eq!(Loan::get_ltv(99998750, 100000000000, 80000000), 1250);
    assert_eq!(Loan::get_ltv(100000000, 520000000000, 80000000), 6500);
}

fn loan(available: u64, debt: u64) -> Loan {
    Loan {
        id: 1,
        who: 2,
        collateral_balance_original: available,
        collateral_balance_available: available,
        loan_balance_total: debt,
        status: LoanHealth::Well,
    }
}

#[test]
fn health_at_each_threshold() {
    let l = loan(99998750, 100000000000);
    assert_eq!(check_loan_health(&l, 80000000, 9000, 8000), Some(LoanHealth::Well));
    assert_eq!(check_loan_health(&l, 12500000, 9000, 8000), Some(LoanHealth::Warning(8000)));
    assert_eq!(check_loan_health(&l, 11200000, 9000, 8000), Some(LoanHealth::Warning(8928)));
    assert_eq!(
        check_loan_health(&l, 11111111, 9000, 8000),
        Some(LoanHealth::Liquidating(9000))
    );
    assert_eq!(
        check_loan_health(&l, 11000000, 9000, 8000),
        Some(LoanHealth::Liquidating(9091))
    );
}

#[test]
fn health_without_ratio() {
    assert_eq!(check_loan_health(&loan(0, 5), 80000000, 9000, 8000), None);
    assert_eq!(check_loan_health(&loan(5, 5), 0, 9000, 8000), None);
}
