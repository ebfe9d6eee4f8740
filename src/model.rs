//! The pool's state as a value: its invariant, what each operation does to it, and proofs that
//! every operation keeps the invariant.
use vstd::prelude::*;

use crate::ledger::{credit, debit, keys_unique, lemma_credit, lemma_debit, lemma_value_le_total, owner_at, total, value_of};
use crate::queue::{lemma_payable_len, payable_len, pending_count, queued_sum, request_amount, WithdrawalRequest};
use crate::selection::{chosen, selected, CandidateSnapshot};
use crate::stake::{
    add_stake, bonded_amount, bonded_total, collators_unique, has_collator, is_unstaking, lemma_add_stake,
    lemma_position, lemma_remove_collator, lemma_same_shape, lemma_schedule_all, lemma_schedule_unstake,
    lemma_stake_le_total, lemma_stake_sums, pair_amount, position, remove_collator, schedule_all,
    schedule_unstake, staked_total, unbonding_total, unstake_targets, StakeEntry,
};
use crate::sums::{lemma_sum_ge_element, lemma_sum_nonneg, lemma_sum_push, lemma_sum_split, sum_by};
use crate::types::{Delegation, Origin, PoolConfig, PoolError};

verus! {

/// The pool's state as a value.
pub struct PoolView {
    pub config: PoolConfig,
    pub next_drawing_at: Option<u64>,
    /// Active balance per account.
    pub deposits: Seq<(u64, u128)>,
    /// Stake per collator, with the delegations being unbonded marked.
    pub stake: Seq<StakeEntry>,
    /// Withdrawal requests, oldest first.
    pub queue: Seq<WithdrawalRequest>,
    pub sum_of_deposits: u128,
    /// Stake being unbonded that no withdrawal request is owed.
    pub surplus: u128,
    /// Unbonded funds held by the pool's account, not yet paid out or re-staked.
    pub unlocked: u128,
    /// Prizes won per account and not yet claimed.
    pub winnings: Seq<(u64, u128)>,
    pub total_unclaimed: u128,
}

impl PoolView {
    /// The pool's invariant. Every active balance is bonded or surplus; every queued request is
    /// covered by stake being unbonded or by unlocked funds, and what is left of those two is
    /// the surplus.
    pub open spec fn wf(self) -> bool {
        &&& keys_unique(self.deposits)
        &&& collators_unique(self.stake)
        &&& self.sum_of_deposits == total(self.deposits)
        &&& bonded_total(self.stake) + self.surplus == self.sum_of_deposits
        &&& unbonding_total(self.stake) + self.unlocked == queued_sum(self.queue) + self.surplus
        &&& self.sum_of_deposits + queued_sum(self.queue) <= u128::MAX
        &&& keys_unique(self.winnings)
        &&& self.total_unclaimed == total(self.winnings)
    }

    /// The drawing schedule is running.
    pub open spec fn running(self) -> bool {
        self.next_drawing_at.is_some()
    }

    /// Block `now` falls in the freezeout window before the next drawing.
    pub open spec fn in_freezeout(self, now: u64) -> bool {
        match self.next_drawing_at {
            None => false,
            Some(at) => now + self.config.drawing_freezeout >= at,
        }
    }

    /// Unlocked funds beyond what the queued requests are owed.
    pub open spec fn redeployable(self) -> int {
        if self.unlocked > queued_sum(self.queue) {
            self.unlocked - queued_sum(self.queue)
        } else {
            0
        }
    }

    /// Why a deposit of `amount` fails, if it does.
    pub open spec fn deposit_error(
        self,
        origin: Origin,
        amount: u128,
        now: u64,
        cands: Seq<CandidateSnapshot>,
        seed: u64,
    ) -> Option<PoolError> {
        if !(origin is Signed) {
            Some(PoolError::BadOrigin)
        } else if self.in_freezeout(now) {
            Some(PoolError::TooCloseToDrawing)
        } else if amount < self.config.min_deposit {
            Some(PoolError::DepositBelowMinAmount)
        } else if self.sum_of_deposits + queued_sum(self.queue) + amount > u128::MAX {
            Some(PoolError::ArithmeticOverflow)
        } else if selected(self.stake, cands, amount, seed).is_none() {
            Some(PoolError::NoCollatorForDeposit)
        } else {
            None
        }
    }

    /// The delegation that a deposit of `amount` asks for, where it does not fail.
    pub open spec fn deposit_delegation(self, amount: u128, cands: Seq<CandidateSnapshot>, seed: u64) -> Delegation {
        let c = chosen(self.stake, cands, amount, seed).unwrap();
        Delegation { collator: c.collator, amount, bond_more: has_collator(self.stake, c.collator) && c.pool_delegates }
    }

    /// The state after `account` deposited `amount` and it was delegated to `collator`.
    pub open spec fn after_deposit(self, account: u64, collator: u64, amount: u128) -> PoolView {
        PoolView {
            deposits: credit(self.deposits, account, amount),
            stake: add_stake(self.stake, collator, amount),
            sum_of_deposits: (self.sum_of_deposits + amount) as u128,
            ..self
        }
    }

    /// Why a withdrawal request of `amount` fails before the protocol is asked, if it does.
    pub open spec fn withdraw_error(
        self,
        origin: Origin,
        amount: u128,
        now: u64,
        round: u32,
        claim_balance: u128,
    ) -> Option<PoolError> {
        if !(origin is Signed) {
            Some(PoolError::BadOrigin)
        } else if self.in_freezeout(now) {
            Some(PoolError::TooCloseToDrawing)
        } else if amount < self.config.min_withdraw {
            Some(PoolError::WithdrawBelowMinAmount)
        } else if value_of(self.deposits, origin->Signed_0) == 0 {
            Some(PoolError::NoDepositForAccount)
        } else if value_of(self.deposits, origin->Signed_0) < amount {
            Some(PoolError::InsufficientBalance)
        } else if self.config.farming_enabled && claim_balance < amount {
            Some(PoolError::InsufficientClaimTokens)
        } else if pending_count(self.queue, origin->Signed_0, round) >= self.config.withdraw_limit_count {
            Some(PoolError::WithdrawLimitCountExceeded)
        } else if round + self.config.unstake_delay > u32::MAX {
            Some(PoolError::ArithmeticOverflow)
        } else {
            None
        }
    }

    /// The part of a withdrawal of `amount` that the surplus does not cover.
    pub open spec fn shortfall(self, amount: u128) -> u128 {
        if amount > self.surplus {
            (amount - self.surplus) as u128
        } else {
            0
        }
    }

    /// The delegations that a withdrawal of `amount` unbonds.
    pub open spec fn withdraw_targets(self, amount: u128) -> Seq<(u64, u128)> {
        unstake_targets(self.stake, self.shortfall(amount))
    }

    /// The state after `account` asked in `round` for `amount` back.
    pub open spec fn after_withdraw(self, account: u64, amount: u128, round: u32) -> PoolView {
        let need = self.shortfall(amount);
        let unbonded = bonded_total(self.stake) - bonded_total(schedule_unstake(self.stake, need, round));
        PoolView {
            deposits: debit(self.deposits, account, amount),
            stake: schedule_unstake(self.stake, need, round),
            queue: self.queue.push(
                WithdrawalRequest {
                    account,
                    amount,
                    matures_at_round: (round + self.config.unstake_delay) as u32,
                },
            ),
            sum_of_deposits: (self.sum_of_deposits - amount) as u128,
            surplus: (self.surplus + unbonded - amount) as u128,
            ..self
        }
    }

    /// The state after the protocol released the pool's delegation to `c`: its stake becomes
    /// unlocked funds. A delegation the pool was still counting as bonded was pushed out by
    /// other delegators; its funds are surplus to the queue as well.
    pub open spec fn after_release(self, c: u64) -> PoolView {
        if has_collator(self.stake, c) {
            let e = self.stake[position(self.stake, c)];
            PoolView {
                stake: remove_collator(self.stake, c),
                unlocked: (self.unlocked + e.amount) as u128,
                surplus: if e.unstaking_since.is_some() {
                    self.surplus
                } else {
                    (self.surplus + e.amount) as u128
                },
                ..self
            }
        } else {
            self
        }
    }

    /// The state after the protocol released the delegations to the collators of `cs`, in order.
    pub open spec fn after_releases(self, cs: Seq<u64>) -> PoolView
        decreases cs.len(),
    {
        if cs.len() == 0 {
            self
        } else {
            self.after_releases(cs.drop_last()).after_release(cs.last())
        }
    }

    /// The requests paid out in round `round`.
    pub open spec fn payable(self, round: u32) -> Seq<WithdrawalRequest> {
        self.queue.take(payable_len(self.queue, round, self.unlocked as int) as int)
    }

    /// The state after the payable requests of round `round` were paid.
    pub open spec fn after_drain(self, round: u32) -> PoolView {
        let k = payable_len(self.queue, round, self.unlocked as int) as int;
        PoolView {
            queue: self.queue.skip(k),
            unlocked: (self.unlocked - queued_sum(self.queue.take(k))) as u128,
            ..self
        }
    }

    /// The delegation that re-stakes the redeployable funds, where there are any and a collator
    /// can take them.
    pub open spec fn rebalance_delegation(self, cands: Seq<CandidateSnapshot>, seed: u64) -> Option<Delegation> {
        let x = self.redeployable() as u128;
        if x == 0 || selected(self.stake, cands, x, seed).is_none() {
            None
        } else {
            Some(self.deposit_delegation(x, cands, seed))
        }
    }

    /// The state after `amount` of unlocked surplus was re-staked with `collator`.
    pub open spec fn after_rebalance(self, collator: u64, amount: u128) -> PoolView {
        PoolView {
            stake: add_stake(self.stake, collator, amount),
            unlocked: (self.unlocked - amount) as u128,
            surplus: (self.surplus - amount) as u128,
            ..self
        }
    }

    /// Why a drawing fails, if it does.
    pub open spec fn draw_error(self, origin: Origin, now: u64, prize: u128) -> Option<PoolError> {
        if !(origin is Root) {
            Some(PoolError::BadOrigin)
        } else if self.running() && now + self.config.drawing_interval > u64::MAX {
            Some(PoolError::ArithmeticOverflow)
        } else if self.total_unclaimed + prize > u128::MAX {
            Some(PoolError::ArithmeticOverflow)
        } else {
            None
        }
    }

    /// The winner of a drawing with random number `random`: the depositor whose stretch of the
    /// active balances, laid end to end in ledger order, covers `random` modulo their sum. Each
    /// depositor's chance is thus its share of the pot.
    pub open spec fn winner(self, random: u128) -> Option<u64> {
        if self.sum_of_deposits == 0 {
            None
        } else {
            owner_at(self.deposits, (random as int) % (self.sum_of_deposits as int))
        }
    }

    /// The state after `prize` went to the winner for `random`; with no depositor, or no prize,
    /// nothing changes.
    pub open spec fn after_prize(self, random: u128, prize: u128) -> PoolView {
        match self.winner(random) {
            Some(w) => if prize > 0 {
                PoolView {
                    winnings: credit(self.winnings, w, prize),
                    total_unclaimed: (self.total_unclaimed + prize) as u128,
                    ..self
                }
            } else {
                self
            },
            None => self,
        }
    }

    /// The state after a drawing's settlement and prize, before it re-stakes: the releases and
    /// payouts of round `round`, the next drawing moved past block `now`, and the prize credited.
    pub open spec fn settled_and_awarded(
        self,
        now: u64,
        round: u32,
        released: Seq<u64>,
        random: u128,
        prize: u128,
    ) -> PoolView {
        PoolView {
            next_drawing_at: if self.running() {
                Some((now + self.config.drawing_interval) as u64)
            } else {
                None
            },
            ..self.after_releases(released).after_drain(round)
        }.after_prize(random, prize)
    }

    /// The delegation with which a drawing re-stakes the unlocked funds that the queue does not
    /// need after its settlement, where there are any and a collator can take them.
    pub open spec fn draw_restake(
        self,
        now: u64,
        round: u32,
        released: Seq<u64>,
        random: u128,
        prize: u128,
        cands: Seq<CandidateSnapshot>,
        seed: u64,
    ) -> Option<Delegation> {
        self.settled_and_awarded(now, round, released, random, prize).rebalance_delegation(cands, seed)
    }

    /// The state after a whole drawing: settlement, prize, and the re-stake of the leftover
    /// unlocked funds, which takes place when the protocol `accepted` its delegation.
    pub open spec fn after_draw(
        self,
        now: u64,
        round: u32,
        released: Seq<u64>,
        random: u128,
        prize: u128,
        cands: Seq<CandidateSnapshot>,
        seed: u64,
        accepted: bool,
    ) -> PoolView {
        let s = self.settled_and_awarded(now, round, released, random, prize);
        match s.rebalance_delegation(cands, seed) {
            Some(d) => if accepted {
                s.after_rebalance(d.collator, d.amount)
            } else {
                s
            },
            None => s,
        }
    }

    /// The state after `account` claimed all its winnings.
    pub open spec fn after_claim(self, account: u64) -> PoolView {
        PoolView {
            winnings: debit(self.winnings, account, value_of(self.winnings, account)),
            total_unclaimed: (self.total_unclaimed - value_of(self.winnings, account)) as u128,
            ..self
        }
    }

    /// The state after every bonded delegation was scheduled for unbonding in `round`.
    pub open spec fn after_liquidate(self, round: u32) -> PoolView {
        PoolView {
            stake: schedule_all(self.stake, round),
            surplus: (self.surplus + bonded_total(self.stake)) as u128,
            ..self
        }
    }
}

/// Funds the pool holds in all: stake of either kind plus unlocked funds, equal to what the
/// depositors and the queue are owed together.
pub proof fn lemma_holdings(v: PoolView)
    requires
        v.wf(),
    ensures
        staked_total(v.stake) + v.unlocked == v.sum_of_deposits + queued_sum(v.queue),
        bonded_total(v.stake) >= 0,
        unbonding_total(v.stake) >= 0,
        queued_sum(v.queue) >= 0,
        v.surplus <= v.sum_of_deposits,
{
    lemma_stake_sums(v.stake);
    lemma_sum_nonneg(v.queue, request_amount());
}

/// A deposit keeps the invariant.
pub proof fn lemma_deposit_wf(v: PoolView, account: u64, collator: u64, amount: u128)
    requires
        v.wf(),
        !is_unstaking(v.stake, collator),
        v.sum_of_deposits + queued_sum(v.queue) + amount <= u128::MAX,
    ensures
        v.after_deposit(account, collator, amount).wf(),
{
    lemma_holdings(v);
    lemma_value_le_total(v.deposits, account);
    lemma_stake_le_total(v.stake, collator);
    lemma_credit(v.deposits, account, amount);
    lemma_add_stake(v.stake, collator, amount);
}

/// A withdrawal request keeps the invariant, and the delegations it unbonds cover the part of
/// the request that the surplus does not.
pub proof fn lemma_withdraw_wf(v: PoolView, account: u64, amount: u128, round: u32)
    requires
        v.wf(),
        amount <= value_of(v.deposits, account),
        round + v.config.unstake_delay <= u32::MAX,
    ensures
        v.after_withdraw(account, amount, round).wf(),
        sum_by(v.withdraw_targets(amount), pair_amount()) >= v.shortfall(amount),
        bonded_total(v.stake) - bonded_total(schedule_unstake(v.stake, v.shortfall(amount), round))
            == sum_by(v.withdraw_targets(amount), pair_amount()),
{
    let need = v.shortfall(amount);
    lemma_holdings(v);
    lemma_value_le_total(v.deposits, account);
    lemma_debit(v.deposits, account, amount);
    lemma_schedule_unstake(v.stake, need, round);
    lemma_same_shape(v.stake, schedule_unstake(v.stake, need, round));
    let req = WithdrawalRequest {
        account,
        amount,
        matures_at_round: (round + v.config.unstake_delay) as u32,
    };
    lemma_sum_push(v.queue, req, request_amount());
    let unbonded = bonded_total(v.stake) - bonded_total(schedule_unstake(v.stake, need, round));
    lemma_stake_sums(schedule_unstake(v.stake, need, round));
    assert(need <= bonded_total(v.stake));
    assert(unbonded >= need);
    assert(v.surplus + unbonded - amount >= 0);
    let w = v.after_withdraw(account, amount, round);
    assert(w.surplus == v.surplus + unbonded - amount);
    assert(w.queue == v.queue.push(req));
    assert(bonded_total(w.stake) + w.surplus == w.sum_of_deposits);
    assert(unbonding_total(w.stake) + w.unlocked == queued_sum(w.queue) + w.surplus);
}

/// A release keeps the invariant.
pub proof fn lemma_release_wf(v: PoolView, c: u64)
    requires
        v.wf(),
    ensures
        v.after_release(c).wf(),
{
    lemma_holdings(v);
    if has_collator(v.stake, c) {
        let i = position(v.stake, c);
        lemma_position(v.stake, c, i);
        lemma_remove_collator(v.stake, c);
        lemma_stake_le_total(v.stake, c);
        lemma_sum_ge_element(v.stake, i, bonded_amount());
        lemma_stake_sums(remove_collator(v.stake, c));
    }
}

/// Releases in turn keep the invariant.
pub proof fn lemma_releases_wf(v: PoolView, cs: Seq<u64>)
    requires
        v.wf(),
    ensures
        v.after_releases(cs).wf(),
    decreases cs.len(),
{
    if cs.len() > 0 {
        lemma_releases_wf(v, cs.drop_last());
        lemma_release_wf(v.after_releases(cs.drop_last()), cs.last());
    }
}

/// Releases change only the stake, the surplus and the unlocked funds.
pub proof fn lemma_releases_frame(v: PoolView, cs: Seq<u64>)
    ensures
        v.after_releases(cs).config == v.config,
        v.after_releases(cs).next_drawing_at == v.next_drawing_at,
        v.after_releases(cs).deposits == v.deposits,
        v.after_releases(cs).sum_of_deposits == v.sum_of_deposits,
        v.after_releases(cs).queue == v.queue,
        v.after_releases(cs).winnings == v.winnings,
        v.after_releases(cs).total_unclaimed == v.total_unclaimed,
    decreases cs.len(),
{
    if cs.len() > 0 {
        lemma_releases_frame(v, cs.drop_last());
    }
}

/// Paying out keeps the invariant; the payouts are what leaves the queue and the unlocked funds.
pub proof fn lemma_drain_wf(v: PoolView, round: u32)
    requires
        v.wf(),
    ensures
        v.after_drain(round).wf(),
        queued_sum(v.payable(round)) <= v.unlocked,
        v.payable(round) + v.after_drain(round).queue == v.queue,
{
    let k = payable_len(v.queue, round, v.unlocked as int) as int;
    lemma_payable_len(v.queue, round, v.unlocked as int);
    lemma_sum_split(v.queue, k, request_amount());
    assert(v.queue.take(k) + v.queue.skip(k) =~= v.queue);
    lemma_holdings(v);
    lemma_sum_nonneg(v.queue.skip(k), request_amount());
    lemma_sum_nonneg(v.queue.take(k), request_amount());
    let w = v.after_drain(round);
    assert(w.queue == v.queue.skip(k));
    assert(queued_sum(v.queue.take(k)) <= v.unlocked);
    assert(w.unlocked == v.unlocked - queued_sum(v.queue.take(k)));
    assert(unbonding_total(w.stake) + w.unlocked == queued_sum(w.queue) + w.surplus);
}

/// Re-staking the redeployable funds keeps the invariant.
pub proof fn lemma_rebalance_wf(v: PoolView, collator: u64)
    requires
        v.wf(),
        !is_unstaking(v.stake, collator),
    ensures
        v.after_rebalance(collator, v.redeployable() as u128).wf(),
        v.redeployable() <= v.surplus,
        v.redeployable() <= v.unlocked,
{
    lemma_holdings(v);
    lemma_stake_le_total(v.stake, collator);
    lemma_add_stake(v.stake, collator, v.redeployable() as u128);
}

/// Crediting a prize keeps the invariant.
pub proof fn lemma_prize_wf(v: PoolView, random: u128, prize: u128)
    requires
        v.wf(),
        v.total_unclaimed + prize <= u128::MAX,
    ensures
        v.after_prize(random, prize).wf(),
{
    if let Some(w) = v.winner(random) {
        lemma_value_le_total(v.winnings, w);
        lemma_credit(v.winnings, w, prize);
    }
}

/// A claim keeps the invariant.
pub proof fn lemma_claim_wf(v: PoolView, account: u64)
    requires
        v.wf(),
    ensures
        v.after_claim(account).wf(),
{
    lemma_value_le_total(v.winnings, account);
    lemma_debit(v.winnings, account, value_of(v.winnings, account));
}

/// Scheduling every bonded delegation for unbonding keeps the invariant.
pub proof fn lemma_liquidate_wf(v: PoolView, round: u32)
    requires
        v.wf(),
    ensures
        v.after_liquidate(round).wf(),
{
    lemma_holdings(v);
    lemma_schedule_all(v.stake, round);
    lemma_same_shape(v.stake, schedule_all(v.stake, round));
}

/// A pool in its initial state: no deposits, no stake, no requests, no drawing scheduled.
pub open spec fn empty_pool(config: PoolConfig) -> PoolView {
    PoolView {
        config,
        next_drawing_at: None,
        deposits: Seq::empty(),
        stake: Seq::empty(),
        queue: Seq::empty(),
        sum_of_deposits: 0,
        surplus: 0,
        unlocked: 0,
        winnings: Seq::empty(),
        total_unclaimed: 0,
    }
}

} // verus!
