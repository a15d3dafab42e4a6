use vstd::prelude::*;

verus! {

use vstd::string::StringExecFns;
use vstd::arithmetic::div_mod::{lemma_div_is_ordered, lemma_div_pos_is_pos};
use crate::{AccountId, Amount};
use crate::balances::{BalanceMap, lemma_amount_le_total};
use crate::table::AccountTable;
use crate::math::{
    MAX_LOAN_AMOUNT, MS_PER_DAY, LOAN_TERM_MS, MAX_OVERDUE_DAYS, sat128, penalty_total,
    compute_penalty, lemma_penalty_monotonic, reward_amount, compute_reward,
    repayment_estimate, compute_estimate,
};

/// Names the persistent sections of the ledger, for hosts that store
/// each collection under a key of its own.
#[derive(Clone, Copy, Debug, PartialEq, Eq, Structural)]
pub enum StorageKey {
    IsVerifiedUser,
    Loans,
    CreditScore,
    RepaymentHistory,
    LenderBalances,
}

/// Where a loan stands in its lifecycle. The absence of a loan record is
/// reported as `NoLoan`.
#[derive(Clone, Copy, Debug, PartialEq, Eq, Structural)]
pub enum LoanStatus {
    Pending,
    Borrowed,
    NoLoan,
}

/// One borrower's loan record.
#[derive(Clone, Copy, Debug, PartialEq, Eq, Structural)]
pub struct Loan {
    pub due_timestamp: u64,
    pub amount: Amount,
    pub interest_rate: u64,
    pub start_timestamp: u64,
    pub loan_status: LoanStatus,
}

/// One completed repayment, kept for read-side reporting only.
#[derive(Clone, Copy, Debug, PartialEq, Eq, Structural)]
pub struct RepaymentRecord {
    pub timestamp: u64,
    pub amount: Amount,
}

/// Why an operation was refused. Every failure leaves the ledger exactly
/// as it was.
#[derive(Clone, Copy, Debug, PartialEq, Eq, Structural)]
pub enum LedgerError {
    InvalidAmount,
    NotVerified,
    LoanAlreadyExists,
    ExceedsMaxAmount,
    InsufficientLiquidity,
    InsufficientBalance,
    NoActiveLoan,
    InvalidTransition,
    AmountBelowPenalty,
    NoRewardsAvailable,
    Unauthorized,
}

/// Whole overdue days at time `now` for a loan due at `due`.
pub open spec fn overdue_days(due: u64, now: u64) -> int {
    if now > due {
        (now - due) as int / (MS_PER_DAY as int)
    } else {
        0
    }
}

/// Milliseconds elapsed since `start` at time `now`; zero when the clock
/// reads earlier than the start.
pub open spec fn elapsed_ms(start: u64, now: u64) -> u64 {
    if now > start {
        (now - start) as u64
    } else {
        0
    }
}

/// The ledger and loan-lifecycle engine of the pool: aggregate liquidity,
/// per-lender contributions, borrower verification, loan records and
/// repayment history, owned as one value and mutated one operation at a
/// time.
pub struct CreditScoreProofs {
    lender_balances: BalanceMap,
    fund_pool: Amount,
    is_verified_user: AccountTable<bool>,
    loans: AccountTable<Loan>,
    score_threshold: AccountTable<u64>,
    repayment_history: AccountTable<Vec<RepaymentRecord>>,
    owner: AccountId,
}

impl CreditScoreProofs {
    /// Total liquidity currently held by the pool.
    pub closed spec fn pool(&self) -> Amount {
        self.fund_pool
    }

    /// The administrator fixed at initialization.
    pub closed spec fn admin(&self) -> AccountId {
        self.owner
    }

    /// The recorded contribution of lender `a`; zero if unknown.
    pub closed spec fn balance_of(&self, a: AccountId) -> Amount {
        self.lender_balances.spec_amount(a)
    }

    /// The sum of all recorded lender contributions.
    pub closed spec fn total_staked(&self) -> int {
        self.lender_balances.total()
    }

    /// Whether `a` may borrow; unknown accounts are not verified.
    pub closed spec fn verified_of(&self, a: AccountId) -> bool {
        self.is_verified_user.spec_get(a) == Some(true)
    }

    /// The credit score threshold recorded for `a`, if any.
    pub closed spec fn score_of(&self, a: AccountId) -> Option<u64> {
        self.score_threshold.spec_get(a)
    }

    /// The loan record of borrower `a`, if any.
    pub closed spec fn loan_of(&self, a: AccountId) -> Option<Loan> {
        self.loans.spec_get(a)
    }

    /// All completed repayments recorded for `a`, oldest first.
    pub closed spec fn history_of(&self, a: AccountId) -> Seq<RepaymentRecord> {
        match self.repayment_history.spec_get(a) {
            Some(v) => v@,
            None => Seq::empty(),
        }
    }

    /// Internal consistency: no duplicate keys anywhere, and every stored
    /// loan principal respects the fixed ceiling.
    pub closed spec fn wf(&self) -> bool {
        &&& self.lender_balances.wf()
        &&& self.is_verified_user.wf()
        &&& self.loans.wf()
        &&& self.score_threshold.wf()
        &&& self.repayment_history.wf()
        &&& forall|a: AccountId|
            (#[trigger] self.loans.spec_get(a)) matches Some(l) ==> l.amount <= MAX_LOAN_AMOUNT
    }

    /// Conservation between the pool and the recorded contributions;
    /// deposits and withdrawals preserve it, loans and rewards move the
    /// pool alone and break it deliberately.
    pub open spec fn conserves(&self) -> bool {
        self.pool() == self.total_staked()
    }

    /// The reward a claim would pay `a` right now: the pool times `a`'s
    /// share of all recorded contributions, rounded half-up. Because each
    /// lender's reward is rounded independently, the rewards of all
    /// lenders summed may drift from the pool by up to half a unit each;
    /// that drift is accepted, not corrected.
    pub open spec fn staking_reward_of(&self, a: AccountId) -> int {
        reward_amount(self.pool(), self.balance_of(a), sat128(self.total_staked()) as int)
    }

    /// No loan record of `b` changes.
    pub open spec fn loans_unchanged(self, post: Self) -> bool {
        forall|b: AccountId| #[trigger] post.loan_of(b) == self.loan_of(b)
    }

    /// No lender balance changes, nor their total.
    pub open spec fn balances_unchanged(self, post: Self) -> bool {
        &&& forall|b: AccountId| #[trigger] post.balance_of(b) == self.balance_of(b)
        &&& post.total_staked() == self.total_staked()
    }

    /// No verification flag or score threshold changes.
    pub open spec fn credit_unchanged(self, post: Self) -> bool {
        &&& forall|b: AccountId| #[trigger] post.verified_of(b) == self.verified_of(b)
        &&& forall|b: AccountId| #[trigger] post.score_of(b) == self.score_of(b)
    }

    /// No repayment history changes.
    pub open spec fn history_unchanged(self, post: Self) -> bool {
        forall|b: AccountId| #[trigger] post.history_of(b) == self.history_of(b)
    }

    /// The decision `deposit` makes before touching any state.
    pub open spec fn deposit_check(&self, amount: Amount) -> Result<(), LedgerError> {
        if amount == 0 {
            Err(LedgerError::InvalidAmount)
        } else {
            Ok(())
        }
    }

    /// The decision `withdraw` makes before touching any state.
    pub open spec fn withdraw_check(&self, sender: AccountId, amount: Amount) -> Result<
        (),
        LedgerError,
    > {
        if amount == 0 {
            Err(LedgerError::InvalidAmount)
        } else if amount > self.balance_of(sender) {
            Err(LedgerError::InsufficientBalance)
        } else if amount > self.pool() {
            Err(LedgerError::InsufficientLiquidity)
        } else {
            Ok(())
        }
    }

    /// The decision `create_loan` makes before touching any state.
    pub open spec fn create_loan_check(&self, borrower: AccountId, amount: Amount) -> Result<
        (),
        LedgerError,
    > {
        if !self.verified_of(borrower) {
            Err(LedgerError::NotVerified)
        } else if self.loan_of(borrower) is Some {
            Err(LedgerError::LoanAlreadyExists)
        } else if amount > MAX_LOAN_AMOUNT {
            Err(LedgerError::ExceedsMaxAmount)
        } else if amount > self.pool() {
            Err(LedgerError::InsufficientLiquidity)
        } else {
            Ok(())
        }
    }

    /// The decision `set_loan_status` makes before touching any state.
    /// A missing record stands for the `NoLoan` state, a non-`Pending`
    /// state like any other, so updating it is an invalid transition.
    pub open spec fn set_loan_status_check(&self, caller: AccountId, borrower: AccountId) -> Result<
        (),
        LedgerError,
    > {
        if caller != self.admin() {
            Err(LedgerError::Unauthorized)
        } else if self.loan_of(borrower) is None {
            Err(LedgerError::InvalidTransition)
        } else if self.loan_of(borrower).unwrap().loan_status != LoanStatus::Pending {
            Err(LedgerError::InvalidTransition)
        } else {
            Ok(())
        }
    }

    /// The penalty owed on `a`'s loan at time `now`; zero without a loan.
    pub open spec fn penalty_owed(&self, a: AccountId, now: u64) -> int {
        match self.loan_of(a) {
            Some(l) => penalty_total(l.amount, overdue_days(l.due_timestamp, now)),
            None => 0,
        }
    }

    /// The decision `repay` makes before touching any state.
    pub open spec fn repay_check(&self, borrower: AccountId, amount: Amount, now: u64) -> Result<
        (),
        LedgerError,
    > {
        if self.loan_of(borrower) is None {
            Err(LedgerError::NoActiveLoan)
        } else if (amount as int) < self.penalty_owed(borrower, now) {
            Err(LedgerError::AmountBelowPenalty)
        } else {
            Ok(())
        }
    }

    /// An empty ledger administered by `owner`.
    pub fn new(owner: AccountId) -> (l: Self)
        ensures
            l.wf(),
            l.pool() == 0,
            l.total_staked() == 0,
            l.admin() == owner,
            l.conserves(),
            forall|a: AccountId| #[trigger] l.balance_of(a) == 0,
            forall|a: AccountId| #[trigger] l.loan_of(a) is None,
            forall|a: AccountId| !(#[trigger] l.verified_of(a)),
            forall|a: AccountId| #[trigger] l.score_of(a) is None,
            forall|a: AccountId| #[trigger] l.history_of(a) == Seq::<RepaymentRecord>::empty(),
    {
        CreditScoreProofs {
            lender_balances: BalanceMap::new(),
            fund_pool: 0,
            is_verified_user: AccountTable::new(),
            loans: AccountTable::new(),
            score_threshold: AccountTable::new(),
            repayment_history: AccountTable::new(),
            owner,
        }
    }

    /// Total liquidity currently held by the pool. Never fails.
    pub fn get_pool_balance(&self) -> (r: Amount)
        ensures
            r == self.pool(),
    {
        self.fund_pool
    }

    /// The recorded contribution of `account_id`. Never fails.
    pub fn get_lender_balance(&self, account_id: AccountId) -> (r: Amount)
        ensures
            r == self.balance_of(account_id),
    {
        self.lender_balances.amount_of(account_id)
    }

    /// Whether `account_id` is a verified borrower. Never fails.
    pub fn is_verified(&self, account_id: AccountId) -> (r: bool)
        ensures
            r == self.verified_of(account_id),
    {
        match self.is_verified_user.get(account_id) {
            Some(v) => *v,
            None => false,
        }
    }

    /// Lender `sender` adds `amount` to the pool; the amount was attached
    /// to the call by the environment. Grows the pool and the sender's
    /// recorded contribution alike.
    pub fn deposit(&mut self, sender: AccountId, amount: Amount) -> (r: Result<(), LedgerError>)
        requires
            old(self).wf(),
        ensures
            final(self).wf(),
            r == old(self).deposit_check(amount),
            r is Err ==> *final(self) == *old(self),
            r is Ok ==> {
                &&& final(self).pool() == sat128(old(self).pool() + amount)
                &&& final(self).balance_of(sender) == sat128(old(self).balance_of(sender) + amount)
                &&& forall|b: AccountId|
                    b != sender ==> #[trigger] final(self).balance_of(b) == old(self).balance_of(b)
                &&& final(self).total_staked() == old(self).total_staked() - old(self).balance_of(
                    sender,
                ) + final(self).balance_of(sender)
                &&& old(self).loans_unchanged(*final(self))
                &&& old(self).credit_unchanged(*final(self))
                &&& old(self).history_unchanged(*final(self))
                &&& final(self).admin() == old(self).admin()
            },
            // Conservation law: a deposit keeps the pool equal to the sum
            // of lender balances, as long as that sum stays representable.
            old(self).conserves() && old(self).total_staked() + amount <= u128::MAX && r is Ok
                ==> final(self).conserves(),
    {
        if amount == 0 {
            return Err(LedgerError::InvalidAmount);
        }
        proof {
            lemma_amount_le_total(&self.lender_balances, sender);
        }
        self.fund_pool = self.fund_pool.saturating_add(amount);
        self.lender_balances.credit(sender, amount);
        Ok(())
    }

    /// Lender `sender` takes `amount` back out of the pool; the
    /// environment transfers the value after the call succeeds. Shrinks
    /// the pool and the sender's recorded contribution alike.
    pub fn withdraw(&mut self, sender: AccountId, amount: Amount) -> (r: Result<(), LedgerError>)
        requires
            old(self).wf(),
        ensures
            final(self).wf(),
            r == old(self).withdraw_check(sender, amount),
            r is Err ==> *final(self) == *old(self),
            r is Ok ==> {
                &&& final(self).pool() == old(self).pool() - amount
                &&& final(self).balance_of(sender) == old(self).balance_of(sender) - amount
                &&& forall|b: AccountId|
                    b != sender ==> #[trigger] final(self).balance_of(b) == old(self).balance_of(b)
                &&& final(self).total_staked() == old(self).total_staked() - amount
                &&& old(self).loans_unchanged(*final(self))
                &&& old(self).credit_unchanged(*final(self))
                &&& old(self).history_unchanged(*final(self))
                &&& final(self).admin() == old(self).admin()
            },
            // Conservation law: a withdrawal keeps the pool equal to the
            // sum of lender balances.
            old(self).conserves() && r is Ok ==> final(self).conserves(),
    {
        if amount == 0 {
            return Err(LedgerError::InvalidAmount);
        }
        let bal = self.lender_balances.amount_of(sender);
        if amount > bal {
            return Err(LedgerError::InsufficientBalance);
        }
        if amount > self.fund_pool {
            return Err(LedgerError::InsufficientLiquidity);
        }
        self.fund_pool = self.fund_pool - amount;
        self.lender_balances.debit(sender, amount);
        Ok(())
    }

    /// Issues a loan to a verified borrower without an outstanding one.
    /// The principal leaves the pool at issuance; the record starts
    /// `Pending` until the administrator activates it, and falls due
    /// thirty days after `now_ms`.
    pub fn create_loan(
        &mut self,
        account_id: AccountId,
        amount: Amount,
        interest_rate: u64,
        now_ms: u64,
    ) -> (r: Result<(), LedgerError>)
        requires
            old(self).wf(),
            // Only a successful issuance computes the due timestamp, so
            // only then must it stay representable; a refused call takes
            // any clock value.
            old(self).create_loan_check(account_id, amount) is Ok ==> now_ms <= u64::MAX
                - LOAN_TERM_MS,
        ensures
            final(self).wf(),
            r == old(self).create_loan_check(account_id, amount),
            r is Err ==> *final(self) == *old(self),
            r is Ok ==> {
                &&& final(self).pool() == old(self).pool() - amount
                &&& final(self).loan_of(account_id) == Some(
                    Loan {
                        due_timestamp: (now_ms + LOAN_TERM_MS) as u64,
                        amount,
                        interest_rate,
                        start_timestamp: now_ms,
                        loan_status: LoanStatus::Pending,
                    },
                )
                &&& forall|b: AccountId|
                    b != account_id ==> #[trigger] final(self).loan_of(b) == old(self).loan_of(b)
                &&& old(self).balances_unchanged(*final(self))
                &&& old(self).credit_unchanged(*final(self))
                &&& old(self).history_unchanged(*final(self))
                &&& final(self).admin() == old(self).admin()
            },
    {
        if !self.is_verified(account_id) {
            return Err(LedgerError::NotVerified);
        }
        let existing = self.loans.get(account_id);
        if existing.is_some() {
            return Err(LedgerError::LoanAlreadyExists);
        }
        if amount > MAX_LOAN_AMOUNT {
            return Err(LedgerError::ExceedsMaxAmount);
        }
        if amount > self.fund_pool {
            return Err(LedgerError::InsufficientLiquidity);
        }
        self.fund_pool = self.fund_pool - amount;
        let loan = Loan {
            due_timestamp: now_ms + LOAN_TERM_MS,
            amount,
            interest_rate,
            start_timestamp: now_ms,
            loan_status: LoanStatus::Pending,
        };
        self.loans.put(account_id, loan);
        Ok(())
    }

    /// Administrator-driven status change, valid only out of `Pending`.
    pub fn set_loan_status(
        &mut self,
        caller: AccountId,
        account_id: AccountId,
        status: LoanStatus,
    ) -> (r: Result<(), LedgerError>)
        requires
            old(self).wf(),
        ensures
            final(self).wf(),
            r == old(self).set_loan_status_check(caller, account_id),
            r is Err ==> *final(self) == *old(self),
            r is Ok ==> {
                &&& final(self).loan_of(account_id) == Some(
                    Loan { loan_status: status, ..old(self).loan_of(account_id).unwrap() },
                )
                &&& forall|b: AccountId|
                    b != account_id ==> #[trigger] final(self).loan_of(b) == old(self).loan_of(b)
                &&& final(self).pool() == old(self).pool()
                &&& old(self).balances_unchanged(*final(self))
                &&& old(self).credit_unchanged(*final(self))
                &&& old(self).history_unchanged(*final(self))
                &&& final(self).admin() == old(self).admin()
            },
    {
        if caller != self.owner {
            return Err(LedgerError::Unauthorized);
        }
        let loan: Loan = match self.loans.get(account_id) {
            None => {
                return Err(LedgerError::InvalidTransition);
            },
            Some(l) => *l,
        };
        if loan.loan_status != LoanStatus::Pending {
            return Err(LedgerError::InvalidTransition);
        }
        let updated = Loan { loan_status: status, ..loan };
        self.loans.put(account_id, updated);
        Ok(())
    }

    /// Borrower `account_id` repays `amount`, attached to the call by the
    /// environment, at time `now_ms`. When overdue, a penalty of 0.5% of
    /// the original principal per whole overdue day must be covered by
    /// the amount; the remainder reduces the principal, a fully repaid
    /// loan record is deleted, the repayment is recorded in the history,
    /// and the whole attached amount is credited to the pool once, the
    /// penalty portion included.
    pub fn repay(&mut self, account_id: AccountId, amount: Amount, now_ms: u64) -> (r: Result<
        (),
        LedgerError,
    >)
        requires
            old(self).wf(),
        ensures
            final(self).wf(),
            r == old(self).repay_check(account_id, amount, now_ms),
            r is Err ==> *final(self) == *old(self),
            r is Ok ==> {
                let loan = old(self).loan_of(account_id).unwrap();
                let net = amount - old(self).penalty_owed(account_id, now_ms);
                &&& (net >= loan.amount ==> final(self).loan_of(account_id) is None)
                &&& (net < loan.amount ==> final(self).loan_of(account_id) == Some(
                    Loan { amount: (loan.amount - net) as Amount, ..loan },
                ))
                &&& forall|b: AccountId|
                    b != account_id ==> #[trigger] final(self).loan_of(b) == old(self).loan_of(b)
                &&& final(self).pool() == sat128(old(self).pool() + amount)
                &&& final(self).history_of(account_id) == old(self).history_of(account_id).push(
                    RepaymentRecord { timestamp: now_ms, amount },
                )
                &&& forall|b: AccountId|
                    b != account_id ==> #[trigger] final(self).history_of(b) == old(
                        self,
                    ).history_of(b)
                &&& old(self).balances_unchanged(*final(self))
                &&& old(self).credit_unchanged(*final(self))
                &&& final(self).admin() == old(self).admin()
            },
    {
        let loan: Loan = match self.loans.get(account_id) {
            None => {
                return Err(LedgerError::NoActiveLoan);
            },
            Some(l) => *l,
        };
        let overdue: u64 = if now_ms > loan.due_timestamp {
            (now_ms - loan.due_timestamp) / MS_PER_DAY
        } else {
            0
        };
        proof {
            if now_ms > loan.due_timestamp {
                lemma_div_is_ordered(
                    (now_ms - loan.due_timestamp) as int,
                    u64::MAX as int,
                    MS_PER_DAY as int,
                );
            }
        }
        let pen = compute_penalty(loan.amount, overdue);
        if amount < pen {
            return Err(LedgerError::AmountBelowPenalty);
        }
        let net = amount - pen;
        if net >= loan.amount {
            let _ = self.loans.take(account_id);
        } else {
            let updated = Loan { amount: loan.amount - net, ..loan };
            self.loans.put(account_id, updated);
        }
        let mut hist: Vec<RepaymentRecord> = match self.repayment_history.take(account_id) {
            Some(h) => h,
            None => Vec::new(),
        };
        hist.push(RepaymentRecord { timestamp: now_ms, amount });
        self.repayment_history.put(account_id, hist);
        self.fund_pool = self.fund_pool.saturating_add(amount);
        Ok(())
    }

    /// Administrator marks `account_id` as verified or not.
    pub fn verify_user(&mut self, caller: AccountId, account_id: AccountId, verified: bool) -> (r:
        Result<(), LedgerError>)
        requires
            old(self).wf(),
        ensures
            final(self).wf(),
            r == if caller != old(self).admin() {
                Err::<(), LedgerError>(LedgerError::Unauthorized)
            } else {
                Ok(())
            },
            r is Err ==> *final(self) == *old(self),
            r is Ok ==> {
                &&& final(self).verified_of(account_id) == verified
                &&& forall|b: AccountId|
                    b != account_id ==> #[trigger] final(self).verified_of(b) == old(
                        self,
                    ).verified_of(b)
                &&& forall|b: AccountId| #[trigger] final(self).score_of(b) == old(self).score_of(b)
                &&& final(self).pool() == old(self).pool()
                &&& old(self).balances_unchanged(*final(self))
                &&& old(self).loans_unchanged(*final(self))
                &&& old(self).history_unchanged(*final(self))
                &&& final(self).admin() == old(self).admin()
            },
    {
        if caller != self.owner {
            return Err(LedgerError::Unauthorized);
        }
        self.is_verified_user.put(account_id, verified);
        Ok(())
    }

    /// Administrator records a credit score threshold for `account_id`,
    /// marking the account verified at the same time.
    pub fn set_credit_score(&mut self, caller: AccountId, account_id: AccountId, score: u64) -> (r:
        Result<(), LedgerError>)
        requires
            old(self).wf(),
        ensures
            final(self).wf(),
            r == if caller != old(self).admin() {
                Err::<(), LedgerError>(LedgerError::Unauthorized)
            } else {
                Ok(())
            },
            r is Err ==> *final(self) == *old(self),
            r is Ok ==> {
                &&& final(self).verified_of(account_id)
                &&& final(self).score_of(account_id) == Some(score)
                &&& forall|b: AccountId|
                    b != account_id ==> #[trigger] final(self).verified_of(b) == old(
                        self,
                    ).verified_of(b)
                &&& forall|b: AccountId|
                    b != account_id ==> #[trigger] final(self).score_of(b) == old(self).score_of(b)
                &&& final(self).pool() == old(self).pool()
                &&& old(self).balances_unchanged(*final(self))
                &&& old(self).loans_unchanged(*final(self))
                &&& old(self).history_unchanged(*final(self))
                &&& final(self).admin() == old(self).admin()
            },
    {
        if caller != self.owner {
            return Err(LedgerError::Unauthorized);
        }
        self.is_verified_user.put(account_id, true);
        self.score_threshold.put(account_id, score);
        Ok(())
    }

    /// The reward a claim would pay `account_id` right now. Never fails;
    /// never exceeds the pool.
    pub fn get_staking_rewards(&self, account_id: AccountId) -> (r: Amount)
        ensures
            r as int == self.staking_reward_of(account_id),
            r <= self.pool(),
    {
        let stake = self.lender_balances.amount_of(account_id);
        let total = self.lender_balances.total_saturated();
        proof {
            lemma_amount_le_total(&self.lender_balances, account_id);
        }
        compute_reward(self.fund_pool, stake, total)
    }

    /// Pays `sender` their current proportional reward out of the pool;
    /// the environment transfers the value after the call succeeds. The
    /// sender's recorded contribution is deliberately not reduced: the
    /// reward is a live snapshot of the pool, not an accrued entitlement.
    pub fn claim_staking_rewards(&mut self, sender: AccountId) -> (r: Result<Amount, LedgerError>)
        requires
            old(self).wf(),
        ensures
            final(self).wf(),
            r is Err <==> old(self).staking_reward_of(sender) == 0,
            r is Err ==> r == Err::<Amount, LedgerError>(LedgerError::NoRewardsAvailable)
                && *final(self) == *old(self),
            r is Ok ==> {
                let reward = old(self).staking_reward_of(sender);
                &&& r == Ok::<Amount, LedgerError>(reward as Amount)
                &&& final(self).pool() == old(self).pool() - reward
                &&& old(self).balances_unchanged(*final(self))
                &&& old(self).loans_unchanged(*final(self))
                &&& old(self).credit_unchanged(*final(self))
                &&& old(self).history_unchanged(*final(self))
                &&& final(self).admin() == old(self).admin()
            },
    {
        let reward = self.get_staking_rewards(sender);
        if reward == 0 {
            return Err(LedgerError::NoRewardsAvailable);
        }
        self.fund_pool = self.fund_pool - reward;
        Ok(reward)
    }

    /// The stored lifecycle status of `account_id`'s loan; `NoLoan` when
    /// no record exists. Never fails.
    pub fn get_loan_status(&self, account_id: AccountId) -> (r: LoanStatus)
        ensures
            r == match self.loan_of(account_id) {
                Some(l) => l.loan_status,
                None => LoanStatus::NoLoan,
            },
    {
        match self.loans.get(account_id) {
            Some(l) => l.loan_status,
            None => LoanStatus::NoLoan,
        }
    }

    /// The loan record of `account_id` together with a display label:
    /// `"Overdue"` past the due time, regardless of the stored status,
    /// otherwise the stored status spelled out. Never fails; never
    /// mutates.
    pub fn view_loan(&self, account_id: AccountId, now_ms: u64) -> (r: Option<(Loan, String)>)
        ensures
            match r {
                Some(p) => self.loan_of(account_id) == Some(p.0) && p.1@ == (if now_ms
                    > p.0.due_timestamp {
                    "Overdue"@
                } else {
                    match p.0.loan_status {
                        LoanStatus::Pending => "Pending"@,
                        LoanStatus::Borrowed => "Borrowed"@,
                        LoanStatus::NoLoan => "No Loan"@,
                    }
                }),
                None => self.loan_of(account_id) is None,
            },
    {
        match self.loans.get(account_id) {
            None => None,
            Some(l) => {
                let loan: Loan = *l;
                let label: &str = if now_ms > loan.due_timestamp {
                    "Overdue"
                } else {
                    match loan.loan_status {
                        LoanStatus::Pending => "Pending",
                        LoanStatus::Borrowed => "Borrowed",
                        LoanStatus::NoLoan => "No Loan",
                    }
                };
                Some((loan, String::from_str(label)))
            },
        }
    }

    /// Advisory projection of principal plus interest accrued so far;
    /// distinct from what `repay` actually charges, which is the flat
    /// overdue penalty. Never fails; never mutates.
    pub fn estimate_repayment(&self, account_id: AccountId, now_ms: u64) -> (r: Option<Amount>)
        ensures
            match r {
                Some(v) => self.loan_of(account_id) matches Some(l) && v == repayment_estimate(
                    l.amount,
                    l.interest_rate,
                    elapsed_ms(l.start_timestamp, now_ms),
                ),
                None => self.loan_of(account_id) is None,
            },
    {
        match self.loans.get(account_id) {
            None => None,
            Some(l) => {
                let loan: Loan = *l;
                let elapsed: u64 = if now_ms > loan.start_timestamp {
                    now_ms - loan.start_timestamp
                } else {
                    0
                };
                Some(compute_estimate(loan.amount, loan.interest_rate, elapsed))
            },
        }
    }

    /// All completed repayments recorded for `account_id`, oldest first.
    /// Never fails.
    pub fn get_repayment_history(&self, account_id: AccountId) -> (r: Vec<RepaymentRecord>)
        ensures
            r@ == self.history_of(account_id),
    {
        match self.repayment_history.get(account_id) {
            None => Vec::new(),
            Some(v) => {
                let n = v.len();
                let mut out: Vec<RepaymentRecord> = Vec::new();
                proof {
                    assert(out@ =~= v@.subrange(0, 0));
                }
                for i in 0..n
                    invariant
                        n == v@.len(),
                        out@ == v@.subrange(0, i as int),
                {
                    out.push(v[i]);
                    proof {
                        assert(v@.subrange(0, i as int).push(v@[i as int]) =~= v@.subrange(
                            0,
                            i as int + 1,
                        ));
                    }
                }
                proof {
                    assert(v@.subrange(0, n as int) =~= v@);
                }
                out
            },
        }
    }
}

/// Law: no penalty is owed at or before the due time.
pub proof fn lemma_penalty_zero_on_time(l: &CreditScoreProofs, a: AccountId, now: u64)
    requires
        l.loan_of(a) is Some,
        now <= l.loan_of(a).unwrap().due_timestamp,
    ensures
        l.penalty_owed(a, now) == 0,
{
    lemma_penalty_monotonic(l.loan_of(a).unwrap().amount, 0, 0);
}

/// Law: the penalty owed on a loan never decreases as the clock
/// advances.
pub proof fn lemma_penalty_monotone_in_time(
    l: &CreditScoreProofs,
    a: AccountId,
    n1: u64,
    n2: u64,
)
    requires
        l.loan_of(a) is Some,
        n1 <= n2,
    ensures
        l.penalty_owed(a, n1) <= l.penalty_owed(a, n2),
{
    let loan = l.loan_of(a).unwrap();
    let due = loan.due_timestamp;
    let d1 = overdue_days(due, n1);
    let d2 = overdue_days(due, n2);
    if n1 > due {
        lemma_div_is_ordered((n1 - due) as int, (n2 - due) as int, MS_PER_DAY as int);
    }
    if n2 > due {
        lemma_div_pos_is_pos((n2 - due) as int, MS_PER_DAY as int);
    }
    lemma_penalty_monotonic(loan.amount, d1, d2);
}

/// Law: a single lender's recorded contribution never exceeds the staked
/// total. With conservation, a withdrawal within one's own balance
/// therefore always finds the liquidity it needs, and a positive balance
/// rules out an empty staked total in the reward share.
pub proof fn lemma_balance_le_total(l: &CreditScoreProofs, a: AccountId)
    ensures
        l.balance_of(a) <= l.total_staked(),
{
    lemma_amount_le_total(&l.lender_balances, a);
}

/// Law: balances are never negative. The pool, every recorded lender
/// contribution and their total are unsigned quantities, so every
/// operation leaves them at or above zero.
pub proof fn lemma_no_negative_balances(l: &CreditScoreProofs, a: AccountId)
    ensures
        l.pool() >= 0,
        l.balance_of(a) >= 0,
        l.total_staked() >= 0,
{
    lemma_amount_le_total(&l.lender_balances, a);
}

} // verus!
