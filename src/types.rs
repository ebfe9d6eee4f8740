//! The pool's parameters, callers, errors and the delegations it asks for.
use vstd::prelude::*;

use crate::queue::WithdrawalRequest;

verus! {

/// Who submits a call: the privileged manager, or a signed user account.
#[derive(Clone, Copy, Debug, PartialEq, Eq, Structural)]
pub enum Origin {
    Root,
    Signed(u64),
}

/// Errors that the staking protocol reports.
#[derive(Clone, Copy, Debug, PartialEq, Eq, Structural)]
pub enum StakingError {
    DelegationDNE,
    DelegatorDNE,
    CannotDelegateLessThanOrEqualToLowestBottomWhenFull,
    Other,
}

/// Why a call on the pool failed. A failed call changes nothing.
#[derive(Clone, Copy, Debug, PartialEq, Eq, Structural)]
pub enum PoolError {
    /// The caller may not make this call.
    BadOrigin,
    /// The drawing schedule is already running.
    LotteryIsRunning,
    /// The drawing schedule is not running.
    LotteryNotStarted,
    /// The pool's own account cannot cover its reserve for fees.
    PotBalanceBelowGasReserve,
    /// The call falls in the freezeout window before the next drawing.
    TooCloseToDrawing,
    DepositBelowMinAmount,
    WithdrawBelowMinAmount,
    /// The account has no active balance.
    NoDepositForAccount,
    /// The account's active balance is below the amount asked for.
    InsufficientBalance,
    /// The account has no winnings to claim.
    NoWinningsToClaim,
    /// The account holds fewer claim tokens than it asks to withdraw.
    InsufficientClaimTokens,
    /// The account already has as many unmatured requests as allowed.
    WithdrawLimitCountExceeded,
    /// No collator can take the stake.
    NoCollatorForDeposit,
    /// A balance or round would leave its machine range.
    ArithmeticOverflow,
    /// The protocol unbonded less than was asked for: the pool's books and the protocol disagree.
    UnstakedLessThanRequested,
    /// The staking protocol refused the call.
    Staking(StakingError),
}

/// The pool's fixed parameters.
#[derive(Clone, Copy, Debug, PartialEq, Eq, Structural)]
pub struct PoolConfig {
    pub min_deposit: u128,
    pub min_withdraw: u128,
    /// The most unmatured withdrawal requests one account may have queued.
    pub withdraw_limit_count: u64,
    /// Rounds the staking protocol takes to release an unbonded delegation; a request made in
    /// round `r` matures in round `r + unstake_delay`.
    pub unstake_delay: u32,
    /// Blocks between two drawings.
    pub drawing_interval: u64,
    /// Blocks before a drawing during which deposits and withdrawals are refused.
    pub drawing_freezeout: u64,
    /// Free balance the pool's account keeps for fees.
    pub gas_reserve: u128,
    /// Deposits mint claim tokens one for one to the depositor, and a withdrawal request must be
    /// able to burn as many claim tokens as it withdraws.
    pub farming_enabled: bool,
}

/// What the staking protocol is asked to do with new stake.
#[derive(Clone, Copy, Debug, PartialEq, Eq, Structural)]
pub struct Delegation {
    pub collator: u64,
    pub amount: u128,
    /// The pool already delegates to this collator: bond more rather than delegate afresh.
    pub bond_more: bool,
}

/// What a drawing did: the requests it paid, the winner of its prize, and the delegation with
/// which it re-staked leftover unlocked funds.
#[derive(Debug)]
pub struct Drawing {
    pub paid: Vec<WithdrawalRequest>,
    pub winner: Option<u64>,
    pub restaked: Option<Delegation>,
}

} // verus!
