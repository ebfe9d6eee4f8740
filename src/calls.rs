//! The pool's calls as values, and `run`, which applies one.
use vstd::prelude::*;

use crate::ledger::value_of;
use crate::model::PoolView;
use crate::pool::Pool;
use crate::queue::WithdrawalRequest;
use crate::selection::CandidateSnapshot;
use crate::stake::bonded_total;
use crate::types::{Delegation, Drawing, Origin, PoolError, StakingError};

verus! {

/// One call on the pool, with what the caller and the staking protocol supply for it.
pub enum Call {
    StartLottery { now: u64, pot_balance: u128 },
    StopLottery,
    Deposit {
        amount: u128,
        now: u64,
        candidates: Vec<CandidateSnapshot>,
        seed: u64,
        delegated: Result<(), StakingError>,
    },
    RequestWithdraw {
        amount: u128,
        now: u64,
        round: u32,
        claim_balance: u128,
        unbonded: Result<u128, StakingError>,
    },
    ProcessMaturedWithdrawals { round: u32, released: Vec<u64> },
    RebalanceStake { candidates: Vec<CandidateSnapshot>, seed: u64, delegated: Result<(), StakingError> },
    DrawLottery {
        now: u64,
        round: u32,
        released: Vec<u64>,
        random: u128,
        prize: u128,
        candidates: Vec<CandidateSnapshot>,
        seed: u64,
        delegated: Result<(), StakingError>,
    },
    ClaimMyWinnings,
    LiquidateLottery { round: u32, unbonded: Result<u128, StakingError> },
}

/// What a successful call hands back.
pub enum Outcome {
    Done,
    Delegated(Delegation),
    Rebalanced(Option<Delegation>),
    Paid(Vec<WithdrawalRequest>),
    Drawn(Drawing),
    Claimed(u128),
}

/// The state after `call` by `origin`, and its error if it fails (then the state is `v`).
pub open spec fn step(v: PoolView, origin: Origin, call: Call) -> (PoolView, Option<PoolError>) {
    match call {
        Call::StartLottery { now, pot_balance } => {
            if !(origin is Root) {
                (v, Some(PoolError::BadOrigin))
            } else if v.running() {
                (v, Some(PoolError::LotteryIsRunning))
            } else if pot_balance < v.config.gas_reserve {
                (v, Some(PoolError::PotBalanceBelowGasReserve))
            } else if now + v.config.drawing_interval > u64::MAX {
                (v, Some(PoolError::ArithmeticOverflow))
            } else {
                (PoolView { next_drawing_at: Some((now + v.config.drawing_interval) as u64), ..v }, None)
            }
        },
        Call::StopLottery => {
            if !(origin is Root) {
                (v, Some(PoolError::BadOrigin))
            } else if !v.running() {
                (v, Some(PoolError::LotteryNotStarted))
            } else {
                (PoolView { next_drawing_at: None, ..v }, None)
            }
        },
        Call::Deposit { amount, now, candidates, seed, delegated } => {
            match v.deposit_error(origin, amount, now, candidates@, seed) {
                Some(e) => (v, Some(e)),
                None => match delegated {
                    Err(e) => (v, Some(PoolError::Staking(e))),
                    Ok(_) => (
                        v.after_deposit(
                            origin->Signed_0,
                            v.deposit_delegation(amount, candidates@, seed).collator,
                            amount,
                        ),
                        None,
                    ),
                },
            }
        },
        Call::RequestWithdraw { amount, now, round, claim_balance, unbonded } => {
            match v.withdraw_error(origin, amount, now, round, claim_balance) {
                Some(e) => (v, Some(e)),
                None => match unbonded {
                    Err(e) => (v, Some(PoolError::Staking(e))),
                    Ok(u) => if u < v.shortfall(amount) {
                        (v, Some(PoolError::UnstakedLessThanRequested))
                    } else {
                        (v.after_withdraw(origin->Signed_0, amount, round), None)
                    },
                },
            }
        },
        Call::ProcessMaturedWithdrawals { round, released } => {
            if !(origin is Root) {
                (v, Some(PoolError::BadOrigin))
            } else {
                (v.after_releases(released@).after_drain(round), None)
            }
        },
        Call::RebalanceStake { candidates, seed, delegated } => {
            if !(origin is Root) {
                (v, Some(PoolError::BadOrigin))
            } else if v.redeployable() == 0 {
                (v, None)
            } else {
                match v.rebalance_delegation(candidates@, seed) {
                    None => (v, Some(PoolError::NoCollatorForDeposit)),
                    Some(d) => match delegated {
                        Err(e) => (v, Some(PoolError::Staking(e))),
                        Ok(_) => (v.after_rebalance(d.collator, d.amount), None),
                    },
                }
            }
        },
        Call::DrawLottery { now, round, released, random, prize, candidates, seed, delegated } => {
            match v.draw_error(origin, now, prize) {
                Some(e) => (v, Some(e)),
                None => (
                    v.after_draw(now, round, released@, random, prize, candidates@, seed, delegated is Ok),
                    None,
                ),
            }
        },
        Call::ClaimMyWinnings => {
            if !(origin is Signed) {
                (v, Some(PoolError::BadOrigin))
            } else if value_of(v.winnings, origin->Signed_0) == 0 {
                (v, Some(PoolError::NoWinningsToClaim))
            } else {
                (v.after_claim(origin->Signed_0), None)
            }
        },
        Call::LiquidateLottery { round, unbonded } => {
            if !(origin is Root) {
                (v, Some(PoolError::BadOrigin))
            } else if v.running() {
                (v, Some(PoolError::LotteryIsRunning))
            } else {
                match unbonded {
                    Err(e) => (v, Some(PoolError::Staking(e))),
                    Ok(u) => if u < bonded_total(v.stake) {
                        (v, Some(PoolError::UnstakedLessThanRequested))
                    } else {
                        (v.after_liquidate(round), None)
                    },
                }
            }
        },
    }
}

/// Applies `call` by `origin` to `pool`: the state afterwards and the error, if any, are those
/// of `step`. A deposit hands back its delegation, a rebalance the delegation it made, a
/// settlement the requests it paid, a drawing what it paid, awarded and re-staked, and a claim
/// its amount.
pub fn run(pool: &mut Pool, origin: Origin, call: Call) -> (r: Result<Outcome, PoolError>)
    requires
        old(pool).wf(),
    ensures
        final(pool).wf(),
        final(pool)@ == step(old(pool)@, origin, call).0,
        match step(old(pool)@, origin, call).1 {
            Some(e) => r == Err::<Outcome, PoolError>(e),
            None => r is Ok,
        },
        r is Ok && r->Ok_0 is Paid ==> r->Ok_0->Paid_0@ == match call {
            Call::ProcessMaturedWithdrawals { round, released } => old(pool)@.after_releases(released@).payable(round),
            _ => Seq::<WithdrawalRequest>::empty(),
        },
        r is Ok && r->Ok_0 is Drawn ==> call is DrawLottery && r->Ok_0->Drawn_0.paid@ == old(pool)@.after_releases(
            call->DrawLottery_released@,
        ).payable(call->DrawLottery_round) && r->Ok_0->Drawn_0.winner == old(pool)@.winner(call->DrawLottery_random),
        r is Ok && r->Ok_0 is Claimed ==> call is ClaimMyWinnings && r->Ok_0->Claimed_0 == value_of(
            old(pool)@.winnings,
            origin->Signed_0,
        ),
        r is Ok && r->Ok_0 is Delegated ==> call is Deposit && r->Ok_0->Delegated_0 == old(pool)@.deposit_delegation(
            call->Deposit_amount,
            call->Deposit_candidates@,
            call->Deposit_seed,
        ),
        r is Ok && r->Ok_0 is Rebalanced ==> call is RebalanceStake && (r->Ok_0->Rebalanced_0 is Some
            ==> r->Ok_0->Rebalanced_0 == old(pool)@.rebalance_delegation(
            call->RebalanceStake_candidates@,
            call->RebalanceStake_seed,
        )),
{
    match call {
        Call::StartLottery { now, pot_balance } => {
            pool.start_lottery(origin, now, pot_balance)?;
            Ok(Outcome::Done)
        },
        Call::StopLottery => {
            pool.stop_lottery(origin)?;
            Ok(Outcome::Done)
        },
        Call::Deposit { amount, now, candidates, seed, delegated } => {
            let d = pool.deposit(origin, amount, now, &candidates, seed, delegated)?;
            Ok(Outcome::Delegated(d))
        },
        Call::RequestWithdraw { amount, now, round, claim_balance, unbonded } => {
            pool.request_withdraw(origin, amount, now, round, claim_balance, unbonded)?;
            Ok(Outcome::Done)
        },
        Call::ProcessMaturedWithdrawals { round, released } => {
            let paid = pool.process_matured_withdrawals(origin, round, &released)?;
            Ok(Outcome::Paid(paid))
        },
        Call::RebalanceStake { candidates, seed, delegated } => {
            let d = pool.rebalance_stake(origin, &candidates, seed, delegated)?;
            Ok(Outcome::Rebalanced(d))
        },
        Call::DrawLottery { now, round, released, random, prize, candidates, seed, delegated } => {
            let drawing = pool.draw_lottery(origin, now, round, &released, random, prize, &candidates, seed, delegated)?;
            Ok(Outcome::Drawn(drawing))
        },
        Call::ClaimMyWinnings => {
            let amount = pool.claim_my_winnings(origin)?;
            Ok(Outcome::Claimed(amount))
        },
        Call::LiquidateLottery { round, unbonded } => {
            pool.liquidate_lottery(origin, round, unbonded)?;
            Ok(Outcome::Done)
        },
    }
}

} // verus!
