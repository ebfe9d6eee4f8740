//! Properties of the pool that hold across its operations.
use vstd::prelude::*;

use crate::calls::{step, Call};
use crate::ledger::{lemma_owner_at, lemma_value_le_total, value_of};
use crate::model::{
    lemma_claim_wf, lemma_deposit_wf, lemma_drain_wf, lemma_holdings, lemma_liquidate_wf, lemma_prize_wf,
    lemma_rebalance_wf, lemma_releases_frame, lemma_releases_wf, lemma_withdraw_wf, PoolView,
};
use crate::queue::{lemma_payable_len, payable_len, queued_sum, WithdrawalRequest};
use crate::selection::{eligible, lemma_selected, CandidateSnapshot};
use crate::stake::{
    bonded_total, collators_unique, has_collator, is_unstaking, lemma_add_stake, lemma_position,
    lemma_remove_collator, lemma_same_shape, lemma_schedule_unstake, lemma_stake_le_total, lemma_targets_marked,
    pair_amount, schedule_unstake, stake_of, staked_total, unbonding_total, StakeEntry,
};
use crate::sums::sum_by;
use crate::types::{Origin, PoolError, StakingError};

verus! {

/// Funds are conserved. Every active balance is bonded or surplus; stake being unbonded plus
/// unlocked funds cover exactly the queued requests plus the surplus; so all stake plus the
/// unlocked funds equals the active balances plus what the queue is owed. While no withdrawal
/// is in progress (empty queue, no surplus), the stake, the surplus and the unlocked funds add
/// up to the sum of deposits.
pub proof fn law_funds_conserved(v: PoolView)
    requires
        v.wf(),
    ensures
        bonded_total(v.stake) + v.surplus == v.sum_of_deposits,
        unbonding_total(v.stake) + v.unlocked == queued_sum(v.queue) + v.surplus,
        staked_total(v.stake) + v.unlocked == v.sum_of_deposits + queued_sum(v.queue),
        v.queue.len() == 0 && v.surplus == 0 ==> staked_total(v.stake) + v.surplus + v.unlocked
            == v.sum_of_deposits,
{
    lemma_holdings(v);
    if v.queue.len() == 0 {
        assert(queued_sum(v.queue) == 0);
    }
}

/// Every call keeps the invariant, whether it succeeds or fails.
pub proof fn law_step_keeps_invariant(v: PoolView, origin: Origin, call: Call)
    requires
        v.wf(),
    ensures
        step(v, origin, call).0.wf(),
{
    match call {
        Call::Deposit { amount, now, candidates, seed, delegated } => {
            if v.deposit_error(origin, amount, now, candidates@, seed).is_none() {
                lemma_selected(v.stake, candidates@, amount, seed);
                lemma_deposit_wf(
                    v,
                    origin->Signed_0,
                    v.deposit_delegation(amount, candidates@, seed).collator,
                    amount,
                );
            }
        },
        Call::RequestWithdraw { amount, now, round, claim_balance, unbonded } => {
            if v.withdraw_error(origin, amount, now, round, claim_balance).is_none() {
                lemma_withdraw_wf(v, origin->Signed_0, amount, round);
            }
        },
        Call::ProcessMaturedWithdrawals { round, released } => {
            lemma_releases_wf(v, released@);
            lemma_drain_wf(v.after_releases(released@), round);
        },
        Call::RebalanceStake { candidates, seed, delegated } => {
            if v.redeployable() != 0 {
                if let Some(d) = v.rebalance_delegation(candidates@, seed) {
                    lemma_selected(v.stake, candidates@, v.redeployable() as u128, seed);
                    lemma_rebalance_wf(v, d.collator);
                }
            }
        },
        Call::DrawLottery { now, round, released, random, prize, candidates, seed, delegated } => {
            if v.draw_error(origin, now, prize).is_none() {
                lemma_releases_wf(v, released@);
                lemma_releases_frame(v, released@);
                lemma_drain_wf(v.after_releases(released@), round);
                let settled = PoolView {
                    next_drawing_at: if v.running() {
                        Some((now + v.config.drawing_interval) as u64)
                    } else {
                        None
                    },
                    ..v.after_releases(released@).after_drain(round)
                };
                lemma_prize_wf(settled, random, prize);
                lemma_restake_wf(v.settled_and_awarded(now, round, released@, random, prize), candidates@, seed);
            }
        },
        Call::ClaimMyWinnings => {
            lemma_claim_wf(v, origin->Signed_0);
        },
        Call::LiquidateLottery { round, unbonded } => {
            lemma_liquidate_wf(v, round);
        },
        _ => {},
    }
}

/// The state after the calls of `calls`, in order, each by its origin.
pub open spec fn run_all(v: PoolView, calls: Seq<(Origin, Call)>) -> PoolView
    decreases calls.len(),
{
    if calls.len() == 0 {
        v
    } else {
        step(run_all(v, calls.drop_last()), calls.last().0, calls.last().1).0
    }
}

/// Funds stay conserved over any sequence of calls: after every prefix of it, the invariant
/// holds, and with it the balance of funds that `law_funds_conserved` states.
pub proof fn law_sequences_keep_invariant(v: PoolView, calls: Seq<(Origin, Call)>)
    requires
        v.wf(),
    ensures
        run_all(v, calls).wf(),
        bonded_total(run_all(v, calls).stake) + run_all(v, calls).surplus == run_all(v, calls).sum_of_deposits,
        staked_total(run_all(v, calls).stake) + run_all(v, calls).unlocked == run_all(v, calls).sum_of_deposits
            + queued_sum(run_all(v, calls).queue),
    decreases calls.len(),
{
    if calls.len() > 0 {
        law_sequences_keep_invariant(v, calls.drop_last());
        law_step_keeps_invariant(run_all(v, calls.drop_last()), calls.last().0, calls.last().1);
    }
    law_funds_conserved(run_all(v, calls));
}

/// After the releases of `cs`, the pool holds no stake with any collator of `cs`.
proof fn lemma_released_gone(v: PoolView, cs: Seq<u64>)
    requires
        v.wf(),
    ensures
        forall|k: int| 0 <= k < cs.len() ==> !has_collator(v.after_releases(cs).stake, #[trigger] cs[k]),
    decreases cs.len(),
{
    if cs.len() > 0 {
        let d = cs.drop_last();
        lemma_released_gone(v, d);
        lemma_releases_wf(v, d);
        let w = v.after_releases(d);
        lemma_remove_collator(w.stake, cs.last());
        assert forall|k: int| 0 <= k < cs.len() implies !has_collator(
            v.after_releases(cs).stake,
            #[trigger] cs[k],
        ) by {
            if k < d.len() {
                assert(cs[k] == d[k]);
            }
        }
    }
}

/// Releasing collators the pool holds no stake with changes nothing.
proof fn lemma_releases_noop(v: PoolView, cs: Seq<u64>)
    requires
        forall|k: int| 0 <= k < cs.len() ==> !has_collator(v.stake, #[trigger] cs[k]),
    ensures
        v.after_releases(cs) == v,
    decreases cs.len(),
{
    if cs.len() > 0 {
        let d = cs.drop_last();
        assert forall|k: int| 0 <= k < d.len() implies !has_collator(v.stake, #[trigger] d[k]) by {
            assert(d[k] == cs[k]);
        }
        lemma_releases_noop(v, d);
        assert(!has_collator(v.stake, cs[cs.len() - 1]));
    }
}

/// Settling twice in the same round with the same releases pays each request once: the second
/// settlement pays nothing and changes nothing.
pub proof fn law_settlement_idempotent(v: PoolView, round: u32, released: Seq<u64>)
    requires
        v.wf(),
    ensures
        ({
            let once = v.after_releases(released).after_drain(round);
            &&& once.after_releases(released).payable(round).len() == 0
            &&& once.after_releases(released).after_drain(round) == once
        }),
{
    let r = v.after_releases(released);
    lemma_releases_wf(v, released);
    lemma_released_gone(v, released);
    lemma_drain_wf(r, round);
    let once = r.after_drain(round);
    assert(once.stake == r.stake);
    lemma_releases_noop(once, released);
    let k = payable_len(r.queue, round, r.unlocked as int) as int;
    lemma_payable_len(r.queue, round, r.unlocked as int);
    let rest = r.queue.skip(k);
    if rest.len() > 0 {
        assert(rest[0] == r.queue[k]);
        crate::sums::lemma_sum_take_next(r.queue, k, crate::queue::request_amount());
    }
    assert(payable_len(once.queue, round, once.unlocked as int) == 0);
    assert(once.queue.take(0) =~= Seq::<WithdrawalRequest>::empty());
    assert(once.queue.skip(0) =~= once.queue);
}

/// Payouts go strictly in queue order: what is paid is a prefix of the queue, and when the
/// oldest request has matured but the unlocked funds do not cover it, nothing is paid, so no
/// later request is paid before it.
pub proof fn law_fifo_payout(v: PoolView, round: u32)
    requires
        v.wf(),
    ensures
        v.payable(round) + v.after_drain(round).queue == v.queue,
        v.queue.len() > 0 && v.queue[0].amount > v.unlocked ==> v.payable(round).len() == 0,
{
    lemma_drain_wf(v, round);
    lemma_payable_len(v.queue, round, v.unlocked as int);
}

/// A deposit or a withdrawal request by a signed account inside the freezeout window fails with
/// `TooCloseToDrawing`, and a failed call leaves the state as it was.
pub proof fn law_freezeout_rejects(
    v: PoolView,
    origin: Origin,
    amount: u128,
    now: u64,
    round: u32,
    candidates: Vec<CandidateSnapshot>,
    seed: u64,
    claim_balance: u128,
    delegated: Result<(), StakingError>,
    unbonded: Result<u128, StakingError>,
)
    requires
        origin is Signed,
        v.in_freezeout(now),
    ensures
        step(v, origin, Call::Deposit { amount, now, candidates, seed, delegated }) == (
        v,
        Some(PoolError::TooCloseToDrawing),
        ),
        step(v, origin, Call::RequestWithdraw { amount, now, round, claim_balance, unbonded }) == (
        v,
        Some(PoolError::TooCloseToDrawing),
        ),
{
}

/// A withdrawal request made in `round` is queued behind the existing requests, matures only
/// when the protocol's unbonding delay has passed, and no settlement in an earlier round pays
/// it, whatever was released meanwhile.
pub proof fn law_withdrawal_waits_for_delay(
    v: PoolView,
    account: u64,
    amount: u128,
    round: u32,
    later: u32,
    released: Seq<u64>,
)
    requires
        v.wf(),
        amount <= value_of(v.deposits, account),
        round + v.config.unstake_delay <= u32::MAX,
        later < round + v.config.unstake_delay,
    ensures
        v.after_withdraw(account, amount, round).queue.last() == (WithdrawalRequest {
            account,
            amount,
            matures_at_round: (round + v.config.unstake_delay) as u32,
        }),
        v.after_withdraw(account, amount, round).unlocked == v.unlocked,
        v.after_withdraw(account, amount, round).after_releases(released).payable(later).len()
            < v.after_withdraw(account, amount, round).queue.len(),
{
    let w = v.after_withdraw(account, amount, round);
    lemma_withdraw_wf(v, account, amount, round);
    lemma_releases_frame(w, released);
    lemma_releases_wf(w, released);
    let r = w.after_releases(released);
    lemma_payable_len(r.queue, later, r.unlocked as int);
    let n = r.queue.len() as int;
    assert(r.queue[n - 1].matures_at_round > later);
}

/// A withdrawal that the surplus covers unbonds nothing and takes its amount from the surplus;
/// after a rebalance no unlocked funds beyond the queue's needs stay idle.
pub proof fn law_surplus_and_redeploy(v: PoolView, account: u64, amount: u128, round: u32, collator: u64)
    requires
        v.wf(),
        amount <= value_of(v.deposits, account),
        round + v.config.unstake_delay <= u32::MAX,
        !crate::stake::is_unstaking(v.stake, collator),
    ensures
        amount <= v.surplus ==> v.after_withdraw(account, amount, round).surplus == v.surplus - amount
            && v.after_withdraw(account, amount, round).stake == v.stake,
        v.after_rebalance(collator, v.redeployable() as u128).redeployable() == 0,
{
    lemma_withdraw_wf(v, account, amount, round);
    if amount <= v.surplus {
        lemma_schedule_nothing(v.stake, round);
    }
    lemma_rebalance_wf(v, collator);
}

/// While anyone has an active balance, every drawing has a winner, and the winner is a depositor
/// with a positive active balance.
pub proof fn law_winner_is_a_depositor(v: PoolView, random: u128)
    requires
        v.wf(),
        v.sum_of_deposits > 0,
    ensures
        v.winner(random).is_some(),
        exists|i: int|
            0 <= i < v.deposits.len() && #[trigger] v.deposits[i].0 == v.winner(random).unwrap()
                && v.deposits[i].1 > 0,
{
    lemma_owner_at(v.deposits, (random as int) % (v.sum_of_deposits as int));
}

/// A withdrawal request that the surplus does not cover unbonds at least the rest: it schedules
/// the unbond of one or more whole delegations, each of whose collators is then unbonding, and
/// the surplus becomes the old surplus plus what was unbonded minus the amount, exactly.
pub proof fn law_withdrawal_unbonds_the_shortfall(v: PoolView, account: u64, amount: u128, round: u32)
    requires
        v.wf(),
        amount <= value_of(v.deposits, account),
        round + v.config.unstake_delay <= u32::MAX,
        amount > v.surplus,
    ensures
        ({
            let w = v.after_withdraw(account, amount, round);
            let t = v.withdraw_targets(amount);
            &&& t.len() > 0
            &&& sum_by(t, pair_amount()) >= amount - v.surplus
            &&& w.surplus == v.surplus + sum_by(t, pair_amount()) - amount
            &&& forall|k: int| 0 <= k < t.len() ==> is_unstaking(w.stake, (#[trigger] t[k]).0)
            &&& collators_unique(w.stake)
        }),
{
    let need = v.shortfall(amount);
    let w = v.after_withdraw(account, amount, round);
    let t = v.withdraw_targets(amount);
    lemma_withdraw_wf(v, account, amount, round);
    lemma_holdings(v);
    lemma_value_le_total(v.deposits, account);
    lemma_targets_marked(v.stake, need, round);
    lemma_schedule_unstake(v.stake, need, round);
    lemma_same_shape(v.stake, w.stake);
    assert forall|k: int| 0 <= k < t.len() implies is_unstaking(w.stake, (#[trigger] t[k]).0) by {
        let i = choose|i: int|
            0 <= i < v.stake.len() && v.stake[i].collator == (#[trigger] t[k]).0
                && schedule_unstake(v.stake, need, round)[i].unstaking_since == Some(round);
        lemma_position(w.stake, t[k].0, i);
    }
}

/// Re-staking as `rebalance_delegation` says keeps the invariant.
proof fn lemma_restake_wf(v: PoolView, cands: Seq<CandidateSnapshot>, seed: u64)
    requires
        v.wf(),
    ensures
        v.rebalance_delegation(cands, seed) matches Some(d) ==> v.after_rebalance(d.collator, d.amount).wf(),
{
    if let Some(d) = v.rebalance_delegation(cands, seed) {
        lemma_selected(v.stake, cands, v.redeployable() as u128, seed);
        lemma_rebalance_wf(v, d.collator);
    }
}

/// Settlement at a round change leaves no unlocked funds idle beyond the queue's needs: when a
/// drawing's leftover can go to an eligible collator and the protocol accepts the delegation,
/// the leftover is re-staked with the least-loaded eligible collator, whose stake grows by it,
/// and the unlocked funds that remain are at most what the queue is owed.
pub proof fn law_drawing_restakes_leftover(
    v: PoolView,
    now: u64,
    round: u32,
    released: Seq<u64>,
    random: u128,
    prize: u128,
    cands: Seq<CandidateSnapshot>,
    seed: u64,
)
    requires
        v.wf(),
        v.draw_error(Origin::Root, now, prize).is_none(),
        ({
            let s = v.settled_and_awarded(now, round, released, random, prize);
            exists|i: int| 0 <= i < cands.len() && eligible(s.stake, #[trigger] cands[i], s.redeployable() as u128)
        }),
    ensures
        ({
            let s = v.settled_and_awarded(now, round, released, random, prize);
            let f = v.after_draw(now, round, released, random, prize, cands, seed, true);
            &&& f.wf()
            &&& f.unlocked <= queued_sum(f.queue)
            &&& f.queue == s.queue
            &&& s.redeployable() > 0 ==> (v.draw_restake(now, round, released, random, prize, cands, seed) matches Some(d)
                && d.amount == s.redeployable() && stake_of(f.stake, d.collator) == stake_of(s.stake, d.collator) + d.amount
                && f.unlocked == queued_sum(f.queue))
        }),
{
    let s = v.settled_and_awarded(now, round, released, random, prize);
    lemma_releases_wf(v, released);
    lemma_releases_frame(v, released);
    lemma_drain_wf(v.after_releases(released), round);
    let settled = PoolView {
        next_drawing_at: if v.running() {
            Some((now + v.config.drawing_interval) as u64)
        } else {
            None
        },
        ..v.after_releases(released).after_drain(round)
    };
    lemma_prize_wf(settled, random, prize);
    lemma_holdings(s);
    lemma_selected(s.stake, cands, s.redeployable() as u128, seed);
    if let Some(d) = s.rebalance_delegation(cands, seed) {
        lemma_rebalance_wf(s, d.collator);
        lemma_stake_le_total(s.stake, d.collator);
        lemma_add_stake(s.stake, d.collator, d.amount);
    }
}

/// Scheduling unbonds for no need marks nothing.
proof fn lemma_schedule_nothing(s: Seq<StakeEntry>, round: u32)
    ensures
        schedule_unstake(s, 0, round) == s,
    decreases s.len(),
{
    if s.len() > 0 {
        lemma_schedule_nothing(s.subrange(1, s.len() as int), round);
        assert(s =~= seq![s[0]] + s.subrange(1, s.len() as int));
    }
}

} // verus!
