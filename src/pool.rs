//! The pool: deposits, withdrawal requests, unbond reconciliation, settlement and drawings.
//!
//! The staking protocol is a service outside the pool. Each operation that needs it comes in two
//! calls on the same state: `plan_*` decides what the protocol is asked to do, and the operation
//! itself takes what the protocol answered and applies the change, or none at all.
use vstd::prelude::*;

use crate::ledger::{lemma_credit, lemma_debit, lemma_value_le_total, value_of, BalanceMap};
use crate::model::{
    empty_pool, lemma_deposit_wf, lemma_drain_wf, lemma_holdings, lemma_liquidate_wf, lemma_rebalance_wf,
    lemma_release_wf, lemma_releases_frame, lemma_withdraw_wf, PoolView,
};
use crate::queue::{count_pending, lemma_payable_len, payable_prefix, queued_sum, request_amount, WithdrawalRequest};
use crate::selection::{lemma_selected, select_collator, CandidateSnapshot};
use crate::stake::{
    bonded_amount, bonded_pairs, bonded_total, due_collators, has_collator, lemma_position, lemma_stake_le_total,
    lemma_stake_sums, position, schedule_unstake, stake_of, unstaking_collators, StakeLedger,
};
use crate::sums::{lemma_sum_ge_element, lemma_sum_nonneg, lemma_sum_push, lemma_sum_split};
use crate::types::{Delegation, Drawing, Origin, PoolConfig, PoolError, StakingError};

verus! {

/// The staking pool.
pub struct Pool {
    config: PoolConfig,
    next_drawing_at: Option<u64>,
    deposits: BalanceMap,
    stake: StakeLedger,
    queue: Vec<WithdrawalRequest>,
    queued_total: u128,
    sum_of_deposits: u128,
    surplus: u128,
    unlocked: u128,
    winnings: BalanceMap,
    total_unclaimed: u128,
}

impl View for Pool {
    type V = PoolView;

    closed spec fn view(&self) -> PoolView {
        PoolView {
            config: self.config,
            next_drawing_at: self.next_drawing_at,
            deposits: self.deposits@,
            stake: self.stake@,
            queue: self.queue@,
            sum_of_deposits: self.sum_of_deposits,
            surplus: self.surplus,
            unlocked: self.unlocked,
            winnings: self.winnings@,
            total_unclaimed: self.total_unclaimed,
        }
    }
}

impl Pool {
    /// The invariant of the state, and the running total of the queue.
    pub closed spec fn wf(&self) -> bool {
        &&& self@.wf()
        &&& self.queued_total == queued_sum(self.queue@)
    }

    /// A well-formed pool has a well-formed state.
    pub proof fn lemma_wf(&self)
        requires
            self.wf(),
        ensures
            self@.wf(),
    {
    }

    /// A new pool with the given parameters.
    pub fn new(config: PoolConfig) -> (r: Pool)
        ensures
            r.wf(),
            r@ == empty_pool(config),
    {
        let r = Pool {
            config,
            next_drawing_at: None,
            deposits: BalanceMap::new(),
            stake: StakeLedger::new(),
            queue: Vec::new(),
            queued_total: 0,
            sum_of_deposits: 0,
            surplus: 0,
            unlocked: 0,
            winnings: BalanceMap::new(),
            total_unclaimed: 0,
        };
        proof {
            assert(r.queue@ =~= Seq::<WithdrawalRequest>::empty());
        }
        r
    }

    /// Whether block `now` falls in the freezeout window before the next drawing.
    pub fn in_freezeout(&self, now: u64) -> (r: bool)
        ensures
            r == self@.in_freezeout(now),
    {
        match self.next_drawing_at {
            None => false,
            Some(at) => {
                if at > self.config.drawing_freezeout {
                    now >= at - self.config.drawing_freezeout
                } else {
                    true
                }
            },
        }
    }

    /// Whether deposits and withdrawals are accepted at block `now`.
    pub fn not_in_drawing_freezeout(&self, now: u64) -> (r: bool)
        ensures
            r == !self@.in_freezeout(now),
    {
        !self.in_freezeout(now)
    }

    /// Starts the drawing schedule: the next drawing falls `drawing_interval` blocks after `now`.
    /// `pot_balance` is the free balance of the pool's account.
    pub fn start_lottery(&mut self, origin: Origin, now: u64, pot_balance: u128) -> (r: Result<(), PoolError>)
        requires
            old(self).wf(),
        ensures
            final(self).wf(),
            r == if !(origin is Root) {
                Err(PoolError::BadOrigin)
            } else if old(self)@.running() {
                Err(PoolError::LotteryIsRunning)
            } else if pot_balance < old(self)@.config.gas_reserve {
                Err(PoolError::PotBalanceBelowGasReserve)
            } else if now + old(self)@.config.drawing_interval > u64::MAX {
                Err(PoolError::ArithmeticOverflow)
            } else {
                Ok::<(), PoolError>(())
            },
            r is Ok ==> final(self)@ == (PoolView {
                next_drawing_at: Some((now + old(self)@.config.drawing_interval) as u64),
                ..old(self)@
            }),
            r is Err ==> final(self)@ == old(self)@,
    {
        if !matches!(origin, Origin::Root) {
            return Err(PoolError::BadOrigin);
        }
        if self.next_drawing_at.is_some() {
            return Err(PoolError::LotteryIsRunning);
        }
        if pot_balance < self.config.gas_reserve {
            return Err(PoolError::PotBalanceBelowGasReserve);
        }
        if now > u64::MAX - self.config.drawing_interval {
            return Err(PoolError::ArithmeticOverflow);
        }
        self.next_drawing_at = Some(now + self.config.drawing_interval);
        Ok(())
    }

    /// Stops the drawing schedule.
    pub fn stop_lottery(&mut self, origin: Origin) -> (r: Result<(), PoolError>)
        requires
            old(self).wf(),
        ensures
            final(self).wf(),
            r == if !(origin is Root) {
                Err(PoolError::BadOrigin)
            } else if !old(self)@.running() {
                Err(PoolError::LotteryNotStarted)
            } else {
                Ok::<(), PoolError>(())
            },
            r is Ok ==> final(self)@ == (PoolView { next_drawing_at: None, ..old(self)@ }),
            r is Err ==> final(self)@ == old(self)@,
    {
        if !matches!(origin, Origin::Root) {
            return Err(PoolError::BadOrigin);
        }
        if self.next_drawing_at.is_none() {
            return Err(PoolError::LotteryNotStarted);
        }
        self.next_drawing_at = None;
        Ok(())
    }

    /// Decides where a deposit of `amount` goes, without changing anything: the staking protocol
    /// is then asked for this delegation, and `deposit` is called with its answer.
    pub fn plan_deposit(
        &self,
        origin: Origin,
        amount: u128,
        now: u64,
        cands: &Vec<CandidateSnapshot>,
        seed: u64,
    ) -> (r: Result<Delegation, PoolError>)
        requires
            self.wf(),
        ensures
            r == match self@.deposit_error(origin, amount, now, cands@, seed) {
                Some(e) => Err(e),
                None => Ok(self@.deposit_delegation(amount, cands@, seed)),
            },
    {
        if !matches!(origin, Origin::Signed(_)) {
            return Err(PoolError::BadOrigin);
        }
        if self.in_freezeout(now) {
            return Err(PoolError::TooCloseToDrawing);
        }
        if amount < self.config.min_deposit {
            return Err(PoolError::DepositBelowMinAmount);
        }
        proof {
            lemma_holdings(self@);
        }
        if amount > u128::MAX - self.sum_of_deposits - self.queued_total {
            return Err(PoolError::ArithmeticOverflow);
        }
        match select_collator(&self.stake, cands, amount, seed) {
            None => Err(PoolError::NoCollatorForDeposit),
            Some(c) => Ok(
                Delegation { collator: c.collator, amount, bond_more: self.stake.contains(c.collator) && c.pool_delegates },
            ),
        }
    }

    /// Deposits `amount` for the signed caller. `delegated` is the staking protocol's answer to
    /// the delegation that `plan_deposit` returned for the same arguments; when it is an error,
    /// nothing changes.
    pub fn deposit(
        &mut self,
        origin: Origin,
        amount: u128,
        now: u64,
        cands: &Vec<CandidateSnapshot>,
        seed: u64,
        delegated: Result<(), StakingError>,
    ) -> (r: Result<Delegation, PoolError>)
        requires
            old(self).wf(),
        ensures
            final(self).wf(),
            match old(self)@.deposit_error(origin, amount, now, cands@, seed) {
                Some(e) => r == Err::<Delegation, PoolError>(e) && final(self)@ == old(self)@,
                None => match delegated {
                    Err(e) => r == Err::<Delegation, PoolError>(PoolError::Staking(e)) && final(self)@
                        == old(self)@,
                    Ok(_) => r == Ok::<Delegation, PoolError>(old(self)@.deposit_delegation(amount, cands@, seed))
                        && final(self)@ == old(self)@.after_deposit(
                        origin->Signed_0,
                        old(self)@.deposit_delegation(amount, cands@, seed).collator,
                        amount,
                    ),
                },
            },
    {
        let d = match self.plan_deposit(origin, amount, now, cands, seed) {
            Err(e) => return Err(e),
            Ok(d) => d,
        };
        if let Err(e) = delegated {
            return Err(PoolError::Staking(e));
        }
        let account = match origin {
            Origin::Signed(a) => a,
            Origin::Root => return Err(PoolError::BadOrigin),
        };
        proof {
            lemma_selected(self@.stake, cands@, amount, seed);
            lemma_holdings(self@);
            lemma_deposit_wf(self@, account, d.collator, amount);
            lemma_value_le_total(self@.deposits, account);
            lemma_stake_le_total(self@.stake, d.collator);
        }
        self.deposits.credit(account, amount);
        self.stake.add_stake(d.collator, amount);
        self.sum_of_deposits = self.sum_of_deposits + amount;
        Ok(d)
    }

    /// Why a withdrawal request fails before the protocol is asked, if it does.
    fn check_withdraw(&self, origin: Origin, amount: u128, now: u64, round: u32, claim_balance: u128) -> (r: Result<
        u64,
        PoolError,
    >)
        requires
            self.wf(),
        ensures
            r == match self@.withdraw_error(origin, amount, now, round, claim_balance) {
                Some(e) => Err(e),
                None => Ok::<u64, PoolError>(origin->Signed_0),
            },
    {
        let account = match origin {
            Origin::Signed(a) => a,
            Origin::Root => return Err(PoolError::BadOrigin),
        };
        if self.in_freezeout(now) {
            return Err(PoolError::TooCloseToDrawing);
        }
        if amount < self.config.min_withdraw {
            return Err(PoolError::WithdrawBelowMinAmount);
        }
        let active = self.deposits.get(account);
        if active == 0 {
            return Err(PoolError::NoDepositForAccount);
        }
        if active < amount {
            return Err(PoolError::InsufficientBalance);
        }
        if self.config.farming_enabled && claim_balance < amount {
            return Err(PoolError::InsufficientClaimTokens);
        }
        if count_pending(&self.queue, account, round) >= self.config.withdraw_limit_count {
            return Err(PoolError::WithdrawLimitCountExceeded);
        }
        if round > u32::MAX - self.config.unstake_delay {
            return Err(PoolError::ArithmeticOverflow);
        }
        Ok(account)
    }

    /// The part of a withdrawal of `amount` that the surplus does not cover.
    fn shortfall(&self, amount: u128) -> (r: u128)
        ensures
            r == self@.shortfall(amount),
    {
        if amount > self.surplus {
            amount - self.surplus
        } else {
            0
        }
    }

    /// Decides what a withdrawal request of `amount` unbonds, without changing anything. Where
    /// claim tokens are in use, `claim_balance` is what the caller holds of them. The
    /// whole delegations listed are to be revoked with the staking protocol, and
    /// `request_withdraw` is then called with the amount it unbonded.
    pub fn plan_withdraw(&self, origin: Origin, amount: u128, now: u64, round: u32, claim_balance: u128) -> (r: Result<
        Vec<(u64, u128)>,
        PoolError,
    >)
        requires
            self.wf(),
        ensures
            match self@.withdraw_error(origin, amount, now, round, claim_balance) {
                Some(e) => r == Err::<Vec<(u64, u128)>, PoolError>(e),
                None => r is Ok && r->Ok_0@ == self@.withdraw_targets(amount),
            },
    {
        match self.check_withdraw(origin, amount, now, round, claim_balance) {
            Err(e) => Err(e),
            Ok(_) => Ok(self.stake.unstake_targets(self.shortfall(amount))),
        }
    }

    /// Takes `amount` out of the signed caller's active balance and queues a request to pay it
    /// once the protocol's unbonding delay has passed after `round`. What the surplus does not
    /// cover is unbonded: `unbonded` is the protocol's answer to the revocations that
    /// `plan_withdraw` returned for the same arguments. An error from the protocol, or less
    /// unbonded than needed, leaves everything unchanged.
    pub fn request_withdraw(
        &mut self,
        origin: Origin,
        amount: u128,
        now: u64,
        round: u32,
        claim_balance: u128,
        unbonded: Result<u128, StakingError>,
    ) -> (r: Result<(), PoolError>)
        requires
            old(self).wf(),
        ensures
            final(self).wf(),
            match old(self)@.withdraw_error(origin, amount, now, round, claim_balance) {
                Some(e) => r == Err::<(), PoolError>(e) && final(self)@ == old(self)@,
                None => match unbonded {
                    Err(e) => r == Err::<(), PoolError>(PoolError::Staking(e)) && final(self)@ == old(self)@,
                    Ok(u) => if u < old(self)@.shortfall(amount) {
                        r == Err::<(), PoolError>(PoolError::UnstakedLessThanRequested) && final(self)@
                            == old(self)@
                    } else {
                        r == Ok::<(), PoolError>(()) && final(self)@ == old(self)@.after_withdraw(
                            origin->Signed_0,
                            amount,
                            round,
                        )
                    },
                },
            },
    {
        let account = match self.check_withdraw(origin, amount, now, round, claim_balance) {
            Err(e) => return Err(e),
            Ok(a) => a,
        };
        let need = self.shortfall(amount);
        match unbonded {
            Err(e) => return Err(PoolError::Staking(e)),
            Ok(u) => {
                if u < need {
                    return Err(PoolError::UnstakedLessThanRequested);
                }
            },
        }
        let ghost v0 = self@;
        proof {
            lemma_withdraw_wf(v0, account, amount, round);
            lemma_holdings(v0);
            lemma_stake_sums(schedule_unstake(v0.stake, need, round));
        }
        let bonded_before = self.stake.bonded_total();
        self.stake.schedule_unstake(need, round);
        let bonded_after = self.stake.bonded_total();
        let newly = bonded_before - bonded_after;
        self.deposits.debit(account, amount);
        self.sum_of_deposits = self.sum_of_deposits - amount;
        self.surplus = self.surplus + newly - amount;
        let req = WithdrawalRequest { account, amount, matures_at_round: round + self.config.unstake_delay };
        proof {
            lemma_sum_push(self.queue@, req, request_amount());
        }
        self.queue.push(req);
        self.queued_total = self.queued_total + amount;
        Ok(())
    }

    /// The collators whose unbond is due by `round`: the protocol is to be asked to execute these.
    pub fn collators_due(&self, round: u32) -> (r: Vec<u64>)
        ensures
            r@ == due_collators(self@.stake, round, self@.config.unstake_delay),
    {
        self.stake.due_collators(round, self.config.unstake_delay)
    }

    /// The protocol released the pool's delegation to `c`.
    fn release(&mut self, c: u64)
        requires
            old(self).wf(),
        ensures
            final(self).wf(),
            final(self)@ == old(self)@.after_release(c),
    {
        proof {
            lemma_release_wf(self@, c);
            lemma_holdings(self@);
            lemma_stake_le_total(self@.stake, c);
            if has_collator(self@.stake, c) {
                lemma_position(self@.stake, c, position(self@.stake, c));
                lemma_sum_ge_element(self@.stake, position(self@.stake, c), bonded_amount());
            }
        }
        match self.stake.remove(c) {
            Some(e) => {
                self.unlocked = self.unlocked + e.amount;
                if e.unstaking_since.is_none() {
                    self.surplus = self.surplus + e.amount;
                }
            },
            None => {},
        }
    }

    /// Pays out, in queue order, the requests payable in `round`, and returns them.
    fn drain(&mut self, round: u32) -> (r: Vec<WithdrawalRequest>)
        requires
            old(self).wf(),
        ensures
            final(self).wf(),
            final(self)@ == old(self)@.after_drain(round),
            r@ == old(self)@.payable(round),
    {
        let ghost v0 = self@;
        proof {
            lemma_drain_wf(v0, round);
            lemma_payable_len(v0.queue, round, v0.unlocked as int);
        }
        let (k, paid) = payable_prefix(&self.queue, round, self.unlocked);
        let n = self.queue.len();
        let mut out: Vec<WithdrawalRequest> = Vec::new();
        let mut rest: Vec<WithdrawalRequest> = Vec::new();
        let mut i: usize = 0;
        while i < n
            invariant
                n == self.queue@.len(),
                self@ == v0,
                self.queued_total == queued_sum(v0.queue),
                k <= n,
                i <= n,
                i <= k ==> out@ == v0.queue.take(i as int) && rest@.len() == 0,
                i > k ==> out@ == v0.queue.take(k as int) && rest@ == v0.queue.subrange(k as int, i as int),
            decreases n - i,
        {
            let q = self.queue[i];
            if i < k {
                out.push(q);
                proof {
                    assert(out@ =~= v0.queue.take(i + 1));
                }
            } else {
                rest.push(q);
                proof {
                    assert(rest@ =~= v0.queue.subrange(k as int, i + 1));
                }
            }
            i = i + 1;
        }
        proof {
            assert(rest@ =~= v0.queue.skip(k as int));
            lemma_sum_split(v0.queue, k as int, request_amount());
            lemma_sum_nonneg(v0.queue.skip(k as int), request_amount());
        }
        self.queue = rest;
        self.unlocked = self.unlocked - paid;
        self.queued_total = self.queued_total - paid;
        out
    }

    /// Settles matured withdrawals in round `round`. `released` lists the collators whose
    /// delegation the protocol has released since the last settlement, those whose unbond it
    /// executed and those that pushed the pool out; their stake becomes unlocked funds. Then the
    /// requests at the front of the queue are paid, oldest first, while they have matured and
    /// the unlocked funds cover them. Returns the requests paid. This is the payout on its own,
    /// which the manager can trigger at any time, also while the pool winds down; the settlement
    /// at a round change, `draw_lottery`, also re-stakes what the queue does not need.
    pub fn process_matured_withdrawals(&mut self, origin: Origin, round: u32, released: &Vec<u64>) -> (r: Result<
        Vec<WithdrawalRequest>,
        PoolError,
    >)
        requires
            old(self).wf(),
        ensures
            final(self).wf(),
            !(origin is Root) ==> r == Err::<Vec<WithdrawalRequest>, PoolError>(PoolError::BadOrigin) && final(self)@
                == old(self)@,
            origin is Root ==> r is Ok && r->Ok_0@ == old(self)@.after_releases(released@).payable(round)
                && final(self)@ == old(self)@.after_releases(released@).after_drain(round),
    {
        if !matches!(origin, Origin::Root) {
            return Err(PoolError::BadOrigin);
        }
        Ok(self.settle(round, released))
    }

    /// Applies the releases, then pays what is payable.
    fn settle(&mut self, round: u32, released: &Vec<u64>) -> (r: Vec<WithdrawalRequest>)
        requires
            old(self).wf(),
        ensures
            final(self).wf(),
            r@ == old(self)@.after_releases(released@).payable(round),
            final(self)@ == old(self)@.after_releases(released@).after_drain(round),
    {
        let ghost v0 = self@;
        let mut i: usize = 0;
        proof {
            assert(released@.take(0) =~= Seq::<u64>::empty());
        }
        while i < released.len()
            invariant
                self.wf(),
                i <= released@.len(),
                self@ == v0.after_releases(released@.take(i as int)),
            decreases released@.len() - i,
        {
            proof {
                assert(released@.take(i + 1).drop_last() =~= released@.take(i as int));
            }
            self.release(released[i]);
            i = i + 1;
        }
        proof {
            assert(released@.take(released@.len() as int) =~= released@);
        }
        self.drain(round)
    }

    /// The unlocked funds beyond what the queue is owed.
    fn redeployable(&self) -> (r: u128)
        requires
            self.wf(),
        ensures
            r == self@.redeployable(),
    {
        if self.unlocked > self.queued_total {
            self.unlocked - self.queued_total
        } else {
            0
        }
    }

    /// The delegation that would re-stake the unlocked funds the queue does not need, if there
    /// are any and a collator can take them.
    pub fn plan_rebalance(&self, cands: &Vec<CandidateSnapshot>, seed: u64) -> (r: Option<Delegation>)
        requires
            self.wf(),
        ensures
            r == self@.rebalance_delegation(cands@, seed),
    {
        let x = self.redeployable();
        if x == 0 {
            return None;
        }
        match select_collator(&self.stake, cands, x, seed) {
            None => None,
            Some(c) => Some(
                Delegation { collator: c.collator, amount: x, bond_more: self.stake.contains(c.collator) && c.pool_delegates },
            ),
        }
    }

    /// Re-stakes the unlocked funds that the queue does not need with the least-loaded eligible
    /// collator. `delegated` is the protocol's answer to the delegation that `plan_rebalance`
    /// returned. With nothing to re-stake nothing changes and no delegation is returned.
    pub fn rebalance_stake(
        &mut self,
        origin: Origin,
        cands: &Vec<CandidateSnapshot>,
        seed: u64,
        delegated: Result<(), StakingError>,
    ) -> (r: Result<Option<Delegation>, PoolError>)
        requires
            old(self).wf(),
        ensures
            final(self).wf(),
            r is Ok && r->Ok_0 is Some ==> final(self)@ == old(self)@.after_rebalance(
                r->Ok_0->Some_0.collator,
                r->Ok_0->Some_0.amount,
            ),
            !(r is Ok && r->Ok_0 is Some) ==> final(self)@ == old(self)@,
            r == if !(origin is Root) {
                Err(PoolError::BadOrigin)
            } else if old(self)@.redeployable() == 0 {
                Ok(None)
            } else if old(self)@.rebalance_delegation(cands@, seed).is_none() {
                Err(PoolError::NoCollatorForDeposit)
            } else if delegated is Err {
                Err(PoolError::Staking(delegated->Err_0))
            } else {
                Ok(old(self)@.rebalance_delegation(cands@, seed))
            },
    {
        if !matches!(origin, Origin::Root) {
            return Err(PoolError::BadOrigin);
        }
        let x = self.redeployable();
        if x == 0 {
            return Ok(None);
        }
        if self.plan_rebalance(cands, seed).is_none() {
            return Err(PoolError::NoCollatorForDeposit);
        }
        if let Err(e) = delegated {
            return Err(PoolError::Staking(e));
        }
        Ok(self.restake(cands, seed))
    }

    /// Re-stakes the redeployable funds as `rebalance_delegation` says, and returns that
    /// delegation; with none, nothing changes.
    fn restake(&mut self, cands: &Vec<CandidateSnapshot>, seed: u64) -> (r: Option<Delegation>)
        requires
            old(self).wf(),
        ensures
            final(self).wf(),
            r == old(self)@.rebalance_delegation(cands@, seed),
            final(self)@ == match r {
                Some(d) => old(self)@.after_rebalance(d.collator, d.amount),
                None => old(self)@,
            },
    {
        let d = match self.plan_rebalance(cands, seed) {
            None => return None,
            Some(d) => d,
        };
        let x = d.amount;
        proof {
            lemma_selected(self@.stake, cands@, x, seed);
            lemma_rebalance_wf(self@, d.collator);
            lemma_holdings(self@);
            lemma_stake_le_total(self@.stake, d.collator);
        }
        self.stake.add_stake(d.collator, x);
        self.unlocked = self.unlocked - x;
        self.surplus = self.surplus - x;
        Some(d)
    }

    /// A copy of the pool.
    fn copy(&self) -> (r: Pool)
        requires
            self.wf(),
        ensures
            r.wf(),
            r@ == self@,
    {
        Pool {
            config: self.config,
            next_drawing_at: self.next_drawing_at,
            deposits: self.deposits.copy(),
            stake: self.stake.copy(),
            queue: self.withdrawal_request_queue(),
            queued_total: self.queued_total,
            sum_of_deposits: self.sum_of_deposits,
            surplus: self.surplus,
            unlocked: self.unlocked,
            winnings: self.winnings.copy(),
            total_unclaimed: self.total_unclaimed,
        }
    }

    /// Decides with which delegation a drawing with these arguments re-stakes its leftover
    /// unlocked funds, without changing anything: the staking protocol is then asked for it, and
    /// `draw_lottery` is called with its answer. `None` where the drawing fails or has nothing
    /// to re-stake, or no collator can take it.
    pub fn plan_draw(
        &self,
        origin: Origin,
        now: u64,
        round: u32,
        released: &Vec<u64>,
        random: u128,
        prize: u128,
        cands: &Vec<CandidateSnapshot>,
        seed: u64,
    ) -> (r: Option<Delegation>)
        requires
            self.wf(),
        ensures
            r == match self@.draw_error(origin, now, prize) {
                Some(_) => None,
                None => self@.draw_restake(now, round, released@, random, prize, cands@, seed),
            },
    {
        let mut trial = self.copy();
        match trial.settle_and_award(origin, now, round, released, random, prize) {
            Err(_) => None,
            Ok(_) => trial.plan_rebalance(cands, seed),
        }
    }

    /// A drawing in round `round` at block `now`, the settlement at a round change:
    /// - it settles matured withdrawals as `process_matured_withdrawals` does;
    /// - while the schedule runs, it moves the next drawing `drawing_interval` blocks past `now`;
    /// - it credits `prize`, the staking rewards the pool has accrued, to the depositor that
    ///   `random` selects, weighted by active balance;
    /// - it re-stakes the unlocked funds that the queue does not need with the least-loaded
    ///   eligible collator of `cands`, when `delegated`, the protocol's answer to the delegation
    ///   that `plan_draw` returned for the same arguments, accepts it. Refused, the funds stay
    ///   unlocked for a later `rebalance_stake`.
    /// Returns the requests paid, the winner and the re-stake made.
    pub fn draw_lottery(
        &mut self,
        origin: Origin,
        now: u64,
        round: u32,
        released: &Vec<u64>,
        random: u128,
        prize: u128,
        cands: &Vec<CandidateSnapshot>,
        seed: u64,
        delegated: Result<(), StakingError>,
    ) -> (r: Result<Drawing, PoolError>)
        requires
            old(self).wf(),
        ensures
            final(self).wf(),
            match old(self)@.draw_error(origin, now, prize) {
                Some(e) => r == Err::<Drawing, PoolError>(e) && final(self)@ == old(self)@,
                None => r is Ok && r->Ok_0.paid@ == old(self)@.after_releases(released@).payable(round)
                    && r->Ok_0.winner == old(self)@.winner(random) && r->Ok_0.restaked == (if delegated is Ok {
                    old(self)@.draw_restake(now, round, released@, random, prize, cands@, seed)
                } else {
                    None
                }) && final(self)@ == old(self)@.after_draw(
                    now,
                    round,
                    released@,
                    random,
                    prize,
                    cands@,
                    seed,
                    delegated is Ok,
                ),
            },
    {
        let (paid, winner) = match self.settle_and_award(origin, now, round, released, random, prize) {
            Err(e) => return Err(e),
            Ok(pw) => pw,
        };
        let restaked = if delegated.is_ok() {
            self.restake(cands, seed)
        } else {
            None
        };
        Ok(Drawing { paid, winner, restaked })
    }

    /// The settlement and prize of a drawing.
    fn settle_and_award(
        &mut self,
        origin: Origin,
        now: u64,
        round: u32,
        released: &Vec<u64>,
        random: u128,
        prize: u128,
    ) -> (r: Result<(Vec<WithdrawalRequest>, Option<u64>), PoolError>)
        requires
            old(self).wf(),
        ensures
            final(self).wf(),
            match old(self)@.draw_error(origin, now, prize) {
                Some(e) => r == Err::<(Vec<WithdrawalRequest>, Option<u64>), PoolError>(e) && final(self)@
                    == old(self)@,
                None => r is Ok && r->Ok_0.0@ == old(self)@.after_releases(released@).payable(round)
                    && r->Ok_0.1 == old(self)@.winner(random) && final(self)@
                    == old(self)@.settled_and_awarded(now, round, released@, random, prize),
            },
    {
        if !matches!(origin, Origin::Root) {
            return Err(PoolError::BadOrigin);
        }
        let running = self.next_drawing_at.is_some();
        let interval = self.config.drawing_interval;
        if running && now > u64::MAX - interval {
            return Err(PoolError::ArithmeticOverflow);
        }
        if prize > u128::MAX - self.total_unclaimed {
            return Err(PoolError::ArithmeticOverflow);
        }
        proof {
            lemma_releases_frame(self@, released@);
        }
        let paid = self.settle(round, released);
        if running {
            self.next_drawing_at = Some(now + interval);
        }
        let winner = self.award(random, prize);
        Ok((paid, winner))
    }

    /// Credits `prize` to the winner for `random`, and returns the winner.
    fn award(&mut self, random: u128, prize: u128) -> (r: Option<u64>)
        requires
            old(self).wf(),
            old(self)@.total_unclaimed + prize <= u128::MAX,
        ensures
            final(self).wf(),
            r == old(self)@.winner(random),
            final(self)@ == old(self)@.after_prize(random, prize),
    {
        if self.sum_of_deposits == 0 {
            return None;
        }
        proof {
            lemma_holdings(self@);
        }
        let winner = self.deposits.owner_at(random % self.sum_of_deposits);
        proof {
            assert((random % self.sum_of_deposits) as int == (random as int) % (self.sum_of_deposits as int));
        }
        match winner {
            Some(w) => {
                if prize > 0 {
                    proof {
                        lemma_value_le_total(self@.winnings, w);
                        lemma_credit(self@.winnings, w, prize);
                    }
                    self.winnings.credit(w, prize);
                    self.total_unclaimed = self.total_unclaimed + prize;
                }
                Some(w)
            },
            None => None,
        }
    }

    /// Pays the signed caller all its unclaimed winnings: returns the amount for the host to
    /// transfer.
    pub fn claim_my_winnings(&mut self, origin: Origin) -> (r: Result<u128, PoolError>)
        requires
            old(self).wf(),
        ensures
            final(self).wf(),
            r == if !(origin is Signed) {
                Err(PoolError::BadOrigin)
            } else if value_of(old(self)@.winnings, origin->Signed_0) == 0 {
                Err(PoolError::NoWinningsToClaim)
            } else {
                Ok::<u128, PoolError>(value_of(old(self)@.winnings, origin->Signed_0))
            },
            r is Ok ==> final(self)@ == old(self)@.after_claim(origin->Signed_0),
            r is Err ==> final(self)@ == old(self)@,
    {
        let account = match origin {
            Origin::Signed(a) => a,
            Origin::Root => return Err(PoolError::BadOrigin),
        };
        let amount = self.winnings.get(account);
        if amount == 0 {
            return Err(PoolError::NoWinningsToClaim);
        }
        proof {
            lemma_value_le_total(self@.winnings, account);
            lemma_debit(self@.winnings, account, amount);
        }
        self.winnings.debit(account, amount);
        self.total_unclaimed = self.total_unclaimed - amount;
        Ok(amount)
    }

    /// The unclaimed winnings of `account`.
    pub fn unclaimed_winnings(&self, account: u64) -> (r: u128)
        requires
            self.wf(),
        ensures
            r == value_of(self@.winnings, account),
    {
        self.winnings.get(account)
    }

    /// All unclaimed winnings.
    pub fn total_unclaimed_winnings(&self) -> (r: u128)
        ensures
            r == self@.total_unclaimed,
    {
        self.total_unclaimed
    }

    /// The bonded delegations, which a liquidation revokes.
    pub fn plan_liquidation(&self) -> (r: Vec<(u64, u128)>)
        ensures
            r@ == bonded_pairs(self@.stake),
    {
        self.stake.bonded_pairs()
    }

    /// Winds the pool down while the drawing schedule is stopped: every bonded delegation is
    /// scheduled for unbonding in `round`, and all of it becomes surplus from which withdrawal
    /// requests are then paid. `unbonded` is the protocol's answer to the revocations that
    /// `plan_liquidation` returned.
    pub fn liquidate_lottery(&mut self, origin: Origin, round: u32, unbonded: Result<u128, StakingError>) -> (r: Result<
        (),
        PoolError,
    >)
        requires
            old(self).wf(),
        ensures
            final(self).wf(),
            r == if !(origin is Root) {
                Err(PoolError::BadOrigin)
            } else if old(self)@.running() {
                Err(PoolError::LotteryIsRunning)
            } else if unbonded is Err {
                Err(PoolError::Staking(unbonded->Err_0))
            } else if unbonded->Ok_0 < bonded_total(old(self)@.stake) {
                Err(PoolError::UnstakedLessThanRequested)
            } else {
                Ok::<(), PoolError>(())
            },
            r is Ok ==> final(self)@ == old(self)@.after_liquidate(round),
            r is Err ==> final(self)@ == old(self)@,
    {
        if !matches!(origin, Origin::Root) {
            return Err(PoolError::BadOrigin);
        }
        if self.next_drawing_at.is_some() {
            return Err(PoolError::LotteryIsRunning);
        }
        proof {
            lemma_holdings(self@);
            lemma_liquidate_wf(self@, round);
        }
        let bonded = self.stake.bonded_total();
        match unbonded {
            Err(e) => return Err(PoolError::Staking(e)),
            Ok(u) => {
                if u < bonded {
                    return Err(PoolError::UnstakedLessThanRequested);
                }
            },
        }
        self.stake.schedule_all(round);
        self.surplus = self.surplus + bonded;
        Ok(())
    }

    /// The active balance of `account`.
    pub fn active_balance_per_user(&self, account: u64) -> (r: u128)
        requires
            self.wf(),
        ensures
            r == value_of(self@.deposits, account),
    {
        self.deposits.get(account)
    }

    /// The sum of all active balances.
    pub fn sum_of_deposits(&self) -> (r: u128)
        ensures
            r == self@.sum_of_deposits,
    {
        self.sum_of_deposits
    }

    /// The pot that takes part in drawings: every active balance.
    pub fn total_pot(&self) -> (r: u128)
        ensures
            r == self@.sum_of_deposits,
    {
        self.sum_of_deposits
    }

    /// Stake being unbonded that no request is owed.
    pub fn surplus_unstaking_balance(&self) -> (r: u128)
        ensures
            r == self@.surplus,
    {
        self.surplus
    }

    /// Unbonded funds awaiting payout or re-staking.
    pub fn unlocked_unstaking_funds(&self) -> (r: u128)
        ensures
            r == self@.unlocked,
    {
        self.unlocked
    }

    /// The queued withdrawal requests, oldest first.
    pub fn withdrawal_request_queue(&self) -> (r: Vec<WithdrawalRequest>)
        ensures
            r@ == self@.queue,
    {
        let mut r: Vec<WithdrawalRequest> = Vec::new();
        let mut i: usize = 0;
        while i < self.queue.len()
            invariant
                i <= self.queue@.len(),
                r@ == self.queue@.take(i as int),
            decreases self.queue@.len() - i,
        {
            r.push(self.queue[i]);
            proof {
                assert(r@ =~= self.queue@.take(i + 1));
            }
            i = i + 1;
        }
        proof {
            assert(self.queue@.take(self.queue@.len() as int) =~= self.queue@);
        }
        r
    }

    /// The number of queued withdrawal requests.
    pub fn withdrawal_queue_len(&self) -> (r: usize)
        ensures
            r == self@.queue.len(),
    {
        self.queue.len()
    }

    /// The pool's stake with `collator`, bonded or being unbonded; zero where it has none.
    pub fn staked_collators(&self, collator: u64) -> (r: u128)
        requires
            self.wf(),
        ensures
            r == stake_of(self@.stake, collator),
    {
        self.stake.stake_of(collator)
    }

    /// The number of collators the pool has stake with.
    pub fn staked_collator_count(&self) -> (r: usize)
        ensures
            r == self@.stake.len(),
    {
        self.stake.len()
    }

    /// The collators whose delegation is being unbonded, in the order they were first staked.
    pub fn unstaking_collators(&self) -> (r: Vec<u64>)
        ensures
            r@ == unstaking_collators(self@.stake),
    {
        self.stake.unstaking_collators()
    }

    /// The block of the next drawing, while the schedule runs.
    pub fn next_drawing_at(&self) -> (r: Option<u64>)
        ensures
            r == self@.next_drawing_at,
    {
        self.next_drawing_at
    }

    /// Whether a drawing is due at block `now`: the schedule runs and its block has come.
    pub fn drawing_due(&self, now: u64) -> (r: bool)
        ensures
            r == (self@.running() && now >= self@.next_drawing_at.unwrap()),
    {
        match self.next_drawing_at {
            Some(at) => now >= at,
            None => false,
        }
    }

    /// The pool's parameters.
    pub fn config(&self) -> (r: PoolConfig)
        ensures
            r == self@.config,
    {
        self.config
    }
}

} // verus!
