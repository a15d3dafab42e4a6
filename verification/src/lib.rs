//! Accounting core of a pooled lending facility: lenders deposit value
//! into a shared pool, a verified borrower draws a loan against pool
//! liquidity and repays it with an overdue penalty when late, and lenders
//! claim a proportional share of the accumulated pool as rewards.
//!
//! The ledger is an explicitly owned object: the hosting environment
//! delivers each call together with the caller, the attached value and
//! the current time, persists the state between calls, and performs the
//! outgoing value transfers that successful operations request.

mod balances;
mod ledger;
mod math;
mod table;

pub use math::{
    MAX_LOAN_AMOUNT, MS_PER_DAY, LOAN_TERM_MS, MAX_OVERDUE_DAYS, PENALTY_NUM, PENALTY_DEN,
    INTEREST_DENOM, sat128, round_half_up, mul_div_rem, mul_div_round_half_up, penalty_total,
    compute_penalty, lemma_penalty_monotonic, reward_amount, compute_reward,
    lemma_rhu_within_half, lemma_reward_proportional, interest_amount, repayment_estimate,
    compute_estimate,
};
pub use table::{lookup, distinct_keys, AccountTable};
pub use balances::{sum_amounts, BalanceMap, lemma_amount_le_total};
pub use ledger::{
    StorageKey, LoanStatus, Loan, RepaymentRecord, LedgerError, CreditScoreProofs,
    overdue_days, elapsed_ms, lemma_balance_le_total, lemma_no_negative_balances,
    lemma_penalty_zero_on_time,
    lemma_penalty_monotone_in_time,
};

use vstd::prelude::*;

verus! {

/// Smallest indivisible value unit; every ledger quantity is held in it.
pub type Amount = u128;

/// An account participating in the pool. The hosting environment names
/// its principals however it likes and hands the ledger a stable numeric
/// identifier for each of them.
pub type AccountId = u64;

} // verus!
