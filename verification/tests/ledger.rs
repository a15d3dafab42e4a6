use credit_score_proofs::{CreditScoreProofs, LedgerError, LoanStatus, MAX_LOAN_AMOUNT};

const OWNER: u64 = 1;
const LENDER: u64 = 2;
const BORROWER: u64 = 3;
const OTHER: u64 = 4;

const DAY_MS: u64 = 86_400_000;
const TERM_MS: u64 = 2_592_000_000;

#[test]
fn deposit_loan_repay_round_trip() {
    let mut l = CreditScoreProofs::new(OWNER);
    l.deposit(LENDER, 10).unwrap();
    l.verify_user(OWNER, BORROWER, true).unwrap();
    l.create_loan(BORROWER, 5, 1000, 0).unwrap();
    assert_eq!(l.get_pool_balance(), 5, "loan principal leaves the pool");
    l.repay(BORROWER, 5, 1000).unwrap();
    assert_eq!(l.get_pool_balance(), 10, "full repayment restores the pool");
    assert_eq!(l.get_loan_status(BORROWER), LoanStatus::NoLoan);
}

#[test]
fn create_loan_unverified_fails() {
    let mut l = CreditScoreProofs::new(OWNER);
    l.deposit(LENDER, 10).unwrap();
    let r = l.create_loan(BORROWER, 5, 1000, 0);
    assert_eq!(r, Err(LedgerError::NotVerified));
    assert_eq!(l.get_pool_balance(), 10, "a refused loan leaves the pool unchanged");
}

#[test]
fn claim_without_balance_fails() {
    let mut l = CreditScoreProofs::new(OWNER);
    l.deposit(LENDER, 10).unwrap();
    let r = l.claim_staking_rewards(OTHER);
    assert_eq!(r, Err(LedgerError::NoRewardsAvailable));
    assert_eq!(l.get_pool_balance(), 10);
}

#[test]
fn conservation_under_deposits_and_withdrawals() {
    let mut l = CreditScoreProofs::new(OWNER);
    l.deposit(LENDER, 100).unwrap();
    l.deposit(OTHER, 40).unwrap();
    l.withdraw(LENDER, 30).unwrap();
    l.deposit(LENDER, 5).unwrap();
    l.withdraw(OTHER, 40).unwrap();
    let sum = l.get_lender_balance(LENDER) + l.get_lender_balance(OTHER);
    assert_eq!(l.get_pool_balance(), sum, "pool equals the sum of lender balances");
    assert_eq!(l.get_pool_balance(), 75);
}

#[test]
fn deposit_zero_rejected() {
    let mut l = CreditScoreProofs::new(OWNER);
    assert_eq!(l.deposit(LENDER, 0), Err(LedgerError::InvalidAmount));
    assert_eq!(l.get_pool_balance(), 0);
}

#[test]
fn withdraw_error_paths() {
    let mut l = CreditScoreProofs::new(OWNER);
    l.deposit(LENDER, 10).unwrap();
    assert_eq!(l.withdraw(LENDER, 0), Err(LedgerError::InvalidAmount));
    assert_eq!(l.withdraw(LENDER, 11), Err(LedgerError::InsufficientBalance));
    // A loan drains liquidity without reducing the lender's entitlement.
    l.verify_user(OWNER, BORROWER, true).unwrap();
    l.create_loan(BORROWER, 6, 1000, 0).unwrap();
    assert_eq!(l.get_lender_balance(LENDER), 10);
    assert_eq!(l.withdraw(LENDER, 10), Err(LedgerError::InsufficientLiquidity));
    l.withdraw(LENDER, 4).unwrap();
    assert_eq!(l.get_pool_balance(), 0);
    assert_eq!(l.get_lender_balance(LENDER), 6);
}

#[test]
fn create_loan_error_paths() {
    let mut l = CreditScoreProofs::new(OWNER);
    l.deposit(LENDER, 50).unwrap();
    l.verify_user(OWNER, BORROWER, true).unwrap();
    assert_eq!(
        l.create_loan(BORROWER, MAX_LOAN_AMOUNT + 1, 1000, 0),
        Err(LedgerError::ExceedsMaxAmount)
    );
    assert_eq!(l.create_loan(BORROWER, 51, 1000, 0), Err(LedgerError::InsufficientLiquidity));
    l.create_loan(BORROWER, 20, 1000, 0).unwrap();
    assert_eq!(l.create_loan(BORROWER, 1, 1000, 0), Err(LedgerError::LoanAlreadyExists));
    assert_eq!(l.get_pool_balance(), 30);
}

#[test]
fn loan_status_transitions() {
    let mut l = CreditScoreProofs::new(OWNER);
    l.deposit(LENDER, 50).unwrap();
    l.verify_user(OWNER, BORROWER, true).unwrap();
    assert_eq!(
        l.set_loan_status(BORROWER, BORROWER, LoanStatus::Borrowed),
        Err(LedgerError::Unauthorized)
    );
    // A missing record stands for the NoLoan state, a non-Pending state.
    assert_eq!(
        l.set_loan_status(OWNER, BORROWER, LoanStatus::Borrowed),
        Err(LedgerError::InvalidTransition)
    );
    l.create_loan(BORROWER, 20, 1000, 0).unwrap();
    assert_eq!(l.get_loan_status(BORROWER), LoanStatus::Pending);
    l.set_loan_status(OWNER, BORROWER, LoanStatus::Borrowed).unwrap();
    assert_eq!(l.get_loan_status(BORROWER), LoanStatus::Borrowed);
    assert_eq!(
        l.set_loan_status(OWNER, BORROWER, LoanStatus::Pending),
        Err(LedgerError::InvalidTransition)
    );
}

#[test]
fn overdue_repayment_charges_penalty() {
    let mut l = CreditScoreProofs::new(OWNER);
    l.deposit(LENDER, 1000).unwrap();
    l.verify_user(OWNER, BORROWER, true).unwrap();
    l.create_loan(BORROWER, 1000, 1000, 0).unwrap();
    assert_eq!(l.get_pool_balance(), 0);
    // Three whole days past due: penalty is 1000 * 3 * 5 / 1000 = 15.
    let now = TERM_MS + 3 * DAY_MS;
    assert_eq!(l.repay(BORROWER, 14, now), Err(LedgerError::AmountBelowPenalty));
    l.repay(BORROWER, 1015, now).unwrap();
    assert_eq!(l.get_loan_status(BORROWER), LoanStatus::NoLoan, "principal fully covered");
    // The whole attached amount is credited once, penalty included.
    assert_eq!(l.get_pool_balance(), 1015);
}

#[test]
fn repayment_before_due_has_no_penalty() {
    let mut l = CreditScoreProofs::new(OWNER);
    l.deposit(LENDER, 1000).unwrap();
    l.verify_user(OWNER, BORROWER, true).unwrap();
    l.create_loan(BORROWER, 1000, 1000, 0).unwrap();
    l.repay(BORROWER, 400, TERM_MS).unwrap();
    assert_eq!(l.get_pool_balance(), 400);
    assert_eq!(l.get_loan_status(BORROWER), LoanStatus::Pending, "partial repayment keeps the record");
    l.repay(BORROWER, 600, TERM_MS).unwrap();
    assert_eq!(l.get_pool_balance(), 1000);
    assert_eq!(l.get_loan_status(BORROWER), LoanStatus::NoLoan);
}

#[test]
fn repay_without_loan_fails() {
    let mut l = CreditScoreProofs::new(OWNER);
    assert_eq!(l.repay(BORROWER, 5, 0), Err(LedgerError::NoActiveLoan));
}

#[test]
fn repayment_history_is_appended() {
    let mut l = CreditScoreProofs::new(OWNER);
    l.deposit(LENDER, 1000).unwrap();
    l.verify_user(OWNER, BORROWER, true).unwrap();
    l.create_loan(BORROWER, 1000, 1000, 0).unwrap();
    l.repay(BORROWER, 400, 7).unwrap();
    l.repay(BORROWER, 600, 9).unwrap();
    let h = l.get_repayment_history(BORROWER);
    assert_eq!(h.len(), 2);
    assert_eq!((h[0].timestamp, h[0].amount), (7, 400));
    assert_eq!((h[1].timestamp, h[1].amount), (9, 600));
    assert!(l.get_repayment_history(OTHER).is_empty());
}

#[test]
fn rewards_are_proportional() {
    let mut l = CreditScoreProofs::new(OWNER);
    l.deposit(LENDER, 10).unwrap();
    l.deposit(OTHER, 30).unwrap();
    l.verify_user(OWNER, BORROWER, true).unwrap();
    l.create_loan(BORROWER, 40, 1000, 0).unwrap();
    l.repay(BORROWER, 40, 0).unwrap();
    // Pool 40, stakes 10 and 30: exact shares 10 and 30.
    assert_eq!(l.get_staking_rewards(LENDER), 10);
    assert_eq!(l.get_staking_rewards(OTHER), 30);
    assert_eq!(l.get_staking_rewards(BORROWER), 0);
}

#[test]
fn reward_rounding_is_half_up() {
    let mut l = CreditScoreProofs::new(OWNER);
    l.deposit(LENDER, 1).unwrap();
    l.deposit(OTHER, 1).unwrap();
    l.deposit(BORROWER, 3).unwrap();
    // Pool 5, stake 1 of 5: exact share 1, no rounding.
    assert_eq!(l.get_staking_rewards(LENDER), 1);
    // Stake 3 of 5: exact share 3.
    assert_eq!(l.get_staking_rewards(BORROWER), 3);
    let mut m = CreditScoreProofs::new(OWNER);
    m.deposit(LENDER, 2).unwrap();
    m.deposit(OTHER, 2).unwrap();
    m.verify_user(OWNER, BORROWER, true).unwrap();
    m.create_loan(BORROWER, 1, 1000, 0).unwrap();
    // Pool 3, stakes 2 and 2: exact shares 1.5 each, rounded up to 2.
    assert_eq!(m.get_staking_rewards(LENDER), 2);
    assert_eq!(m.get_staking_rewards(OTHER), 2);
}

#[test]
fn claim_reduces_pool_and_recomputes() {
    let mut l = CreditScoreProofs::new(OWNER);
    l.deposit(LENDER, 10).unwrap();
    l.deposit(OTHER, 30).unwrap();
    let r = l.claim_staking_rewards(LENDER).unwrap();
    assert_eq!(r, 10);
    assert_eq!(l.get_pool_balance(), 30);
    // The entitlement is untouched; the share is recomputed live.
    assert_eq!(l.get_lender_balance(LENDER), 10);
    // Pool 30, stake 10 of 40: round(7.5) = 8.
    assert_eq!(l.claim_staking_rewards(LENDER).unwrap(), 8);
    assert_eq!(l.get_pool_balance(), 22);
}

#[test]
fn estimate_matches_yearly_interest() {
    let mut l = CreditScoreProofs::new(OWNER);
    l.deposit(LENDER, 1000).unwrap();
    l.verify_user(OWNER, BORROWER, true).unwrap();
    l.create_loan(BORROWER, 1000, 1000, 0).unwrap();
    // After exactly 365 days at 1000 bps, interest is 10% of 1000.
    let year = 365 * DAY_MS;
    assert_eq!(l.estimate_repayment(BORROWER, year), Some(1100));
    // Half a year accrues half the interest.
    assert_eq!(l.estimate_repayment(BORROWER, year / 2), Some(1050));
    // A clock before the start accrues nothing.
    assert_eq!(l.estimate_repayment(BORROWER, 0), Some(1000));
    assert_eq!(l.estimate_repayment(OTHER, year), None);
}

#[test]
fn view_loan_labels() {
    let mut l = CreditScoreProofs::new(OWNER);
    l.deposit(LENDER, 50).unwrap();
    l.verify_user(OWNER, BORROWER, true).unwrap();
    l.create_loan(BORROWER, 20, 1000, 0).unwrap();
    let (loan, label) = l.view_loan(BORROWER, 0).unwrap();
    assert_eq!(loan.amount, 20);
    assert_eq!(loan.due_timestamp, TERM_MS);
    assert_eq!(label, "Pending");
    l.set_loan_status(OWNER, BORROWER, LoanStatus::Borrowed).unwrap();
    let (_, label) = l.view_loan(BORROWER, TERM_MS).unwrap();
    assert_eq!(label, "Borrowed", "not yet past due at the due instant");
    let (_, label) = l.view_loan(BORROWER, TERM_MS + 1).unwrap();
    assert_eq!(label, "Overdue");
    assert!(l.view_loan(OTHER, 0).is_none());
}

#[test]
fn privileged_calls_require_owner() {
    let mut l = CreditScoreProofs::new(OWNER);
    assert_eq!(l.verify_user(OTHER, BORROWER, true), Err(LedgerError::Unauthorized));
    assert_eq!(l.set_credit_score(OTHER, BORROWER, 700), Err(LedgerError::Unauthorized));
    assert!(!l.is_verified(BORROWER));
    l.set_credit_score(OWNER, BORROWER, 700).unwrap();
    assert!(l.is_verified(BORROWER), "setting a score also verifies the account");
    l.verify_user(OWNER, BORROWER, false).unwrap();
    assert!(!l.is_verified(BORROWER));
}
