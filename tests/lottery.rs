use lottery_pool::{CandidateSnapshot, Delegation, Origin, Pool, PoolConfig, PoolError, StakingError, WithdrawalRequest};

const UNIT: u128 = 1_000_000_000_000;
const HIGH_BALANCE: u128 = 1_000_000_000 * UNIT;

const ALICE: u64 = 1;
const BOB: u64 = 2;
const CHARLIE: u64 = 3;
const DELEGATOR8: u64 = 12;
const NEW_COLLATOR: u64 = 0xDEADBEEF;

fn config() -> PoolConfig {
    PoolConfig {
        min_deposit: 5_000 * UNIT,
        min_withdraw: 5_000 * UNIT,
        withdraw_limit_count: 10,
        unstake_delay: 2,
        drawing_interval: 100,
        drawing_freezeout: 10,
        gas_reserve: 10_000 * UNIT,
        farming_enabled: false,
    }
}

fn cand(collator: u64, pool_delegates: bool) -> CandidateSnapshot {
    CandidateSnapshot {
        collator,
        total_staked: 0,
        lowest_top_delegation: 0,
        lowest_bottom_delegation: 0,
        delegations_full: false,
        pool_delegates,
    }
}

fn full(collator: u64, lowest_bottom: u128, pool_delegates: bool) -> CandidateSnapshot {
    CandidateSnapshot {
        collator,
        total_staked: 0,
        lowest_top_delegation: lowest_bottom,
        lowest_bottom_delegation: lowest_bottom,
        delegations_full: true,
        pool_delegates,
    }
}

/// Candidates as the protocol reports them: the pool delegates to those it holds bonded stake with.
fn cands(pool: &Pool, collators: &[u64]) -> Vec<CandidateSnapshot> {
    collators.iter().map(|c| cand(*c, pool.staked_collators(*c) > 0)).collect()
}

fn deposit(pool: &mut Pool, who: u64, amount: u128, cands: &Vec<CandidateSnapshot>) -> Result<Delegation, PoolError> {
    pool.plan_deposit(Origin::Signed(who), amount, 0, cands, 0)?;
    pool.deposit(Origin::Signed(who), amount, 0, cands, 0, Ok(()))
}

fn withdraw(pool: &mut Pool, who: u64, amount: u128, round: u32) -> Result<(), PoolError> {
    let targets = pool.plan_withdraw(Origin::Signed(who), amount, 0, round, amount)?;
    let unbonded: u128 = targets.iter().map(|t| t.1).sum();
    pool.request_withdraw(Origin::Signed(who), amount, 0, round, amount, Ok(unbonded))
}

/// A drawing at a round change, with the unbonds due released and its re-stake accepted.
fn draw(pool: &mut Pool, round: u32, collators: &[u64]) -> Vec<WithdrawalRequest> {
    let due = pool.collators_due(round);
    let c = cands(pool, collators);
    let plan = pool.plan_draw(Origin::Root, 0, round, &due, 0, 0, &c, 0);
    let drawing = pool.draw_lottery(Origin::Root, 0, round, &due, 0, 0, &c, 0, Ok(())).unwrap();
    assert_eq!(drawing.restaked, plan);
    drawing.paid
}

#[test]
fn call_manager_extrinsics_as_normal_user_should_not_work() {
    let mut pool = Pool::new(config());
    let user = Origin::Signed(1);
    assert_eq!(pool.start_lottery(user, 0, HIGH_BALANCE), Err(PoolError::BadOrigin));
    assert_eq!(pool.stop_lottery(user), Err(PoolError::BadOrigin));
    assert_eq!(pool.draw_lottery(user, 0, 1, &vec![], 0, 0, &vec![], 0, Ok(())).unwrap_err(), PoolError::BadOrigin);
    assert_eq!(pool.process_matured_withdrawals(user, 1, &vec![]).unwrap_err(), PoolError::BadOrigin);
    assert_eq!(pool.liquidate_lottery(user, 1, Ok(0)), Err(PoolError::BadOrigin));
    assert_eq!(pool.rebalance_stake(user, &vec![], 0, Ok(())), Err(PoolError::BadOrigin));
}

#[test]
fn starting_lottery_without_gas_should_not_work() {
    let mut pool = Pool::new(config());
    assert_eq!(pool.start_lottery(Origin::Root, 0, 0), Err(PoolError::PotBalanceBelowGasReserve));
}

#[test]
fn starting_funded_lottery_should_work() {
    let mut pool = Pool::new(config());
    assert_eq!(pool.start_lottery(Origin::Root, 0, HIGH_BALANCE), Ok(()));
    assert_eq!(pool.start_lottery(Origin::Root, 0, HIGH_BALANCE), Err(PoolError::LotteryIsRunning));
}

#[test]
fn restarting_funded_lottery_should_work() {
    let mut pool = Pool::new(config());
    assert_eq!(pool.start_lottery(Origin::Root, 0, HIGH_BALANCE), Ok(()));
    assert_eq!(pool.stop_lottery(Origin::Root), Ok(()));
    assert_eq!(pool.stop_lottery(Origin::Root), Err(PoolError::LotteryNotStarted));
    assert_eq!(pool.start_lottery(Origin::Root, 0, HIGH_BALANCE), Ok(()));
}

#[test]
fn depositing_and_withdrawing_in_freezeout_should_not_work() {
    let balance = 300_000_000 * UNIT;
    let mut pool = Pool::new(config());
    assert!(HIGH_BALANCE > balance);
    deposit(&mut pool, ALICE, balance, &vec![cand(BOB, false)]).unwrap();
    assert_eq!(pool.sum_of_deposits(), balance);
    assert_eq!(pool.total_pot(), balance);
    assert_eq!(pool.start_lottery(Origin::Root, 0, HIGH_BALANCE), Ok(()));
    assert!(pool.not_in_drawing_freezeout(0));
    let now = pool.next_drawing_at().unwrap() - pool.config().drawing_freezeout;
    assert!(!pool.not_in_drawing_freezeout(now));
    assert_eq!(
        pool.deposit(Origin::Signed(ALICE), balance, now, &vec![cand(BOB, true)], 0, Ok(())),
        Err(PoolError::TooCloseToDrawing)
    );
    assert_eq!(
        pool.request_withdraw(Origin::Signed(ALICE), balance, now, 1, balance, Ok(balance)),
        Err(PoolError::TooCloseToDrawing)
    );
    assert_eq!(pool.sum_of_deposits(), balance);
    assert_eq!(pool.total_pot(), balance);
}

#[test]
fn depositing_and_withdrawing_should_work() {
    let balance = 500_000_000 * UNIT;
    let mut pool = Pool::new(config());
    assert_eq!(
        deposit(&mut pool, ALICE, balance, &vec![cand(BOB, false)]),
        Ok(Delegation { collator: BOB, amount: balance, bond_more: false })
    );
    assert_eq!(pool.active_balance_per_user(ALICE), balance);
    assert_eq!(pool.sum_of_deposits(), balance);
    assert_eq!(pool.total_pot(), balance);

    assert_eq!(withdraw(&mut pool, ALICE, balance, 1), Ok(()));
    // The withdrawn amount leaves the active pot as soon as it is requested.
    assert_eq!(pool.sum_of_deposits(), 0);
    assert_eq!(pool.active_balance_per_user(ALICE), 0);
    assert_eq!(pool.total_pot(), 0);
    assert_eq!(pool.withdrawal_request_queue().len(), 1);
    assert_eq!(pool.surplus_unstaking_balance(), 0);
}

#[test]
fn depositing_and_withdrawing_partial_in_one_block_should_work() {
    let balance = 500_000_000 * UNIT;
    let half_balance = 250_000_000 * UNIT;
    let mut pool = Pool::new(config());
    deposit(&mut pool, ALICE, balance, &vec![cand(BOB, false)]).unwrap();
    assert_eq!(pool.active_balance_per_user(ALICE), balance);
    assert_eq!(pool.sum_of_deposits(), balance);
    assert_eq!(pool.total_pot(), balance);
    assert_eq!(pool.staked_collators(BOB), balance);
    assert_eq!(pool.unstaking_collators().len(), 0);

    withdraw(&mut pool, ALICE, half_balance, 1).unwrap();
    assert_eq!(pool.sum_of_deposits(), half_balance);
    assert_eq!(pool.active_balance_per_user(ALICE), half_balance);
    assert_eq!(pool.total_pot(), half_balance);
    assert_eq!(pool.withdrawal_request_queue().len(), 1);
    assert_eq!(pool.surplus_unstaking_balance(), half_balance);
    assert_eq!(pool.unstaking_collators().len(), 1);
    assert_eq!(pool.staked_collators(BOB), balance);

    withdraw(&mut pool, ALICE, half_balance, 1).unwrap();
    assert_eq!(pool.sum_of_deposits(), 0);
    assert_eq!(pool.active_balance_per_user(ALICE), 0);
    assert_eq!(pool.total_pot(), 0);
    assert_eq!(pool.withdrawal_request_queue().len(), 2);
    assert_eq!(pool.surplus_unstaking_balance(), 0);
    assert_eq!(pool.staked_collators(BOB), balance);
    assert_eq!(pool.unstaking_collators().len(), 1);

    assert_eq!(withdraw(&mut pool, ALICE, half_balance, 1), Err(PoolError::NoDepositForAccount));
    let c = cands(&pool, &[BOB]);
    assert_eq!(deposit(&mut pool, ALICE, half_balance, &c), Err(PoolError::NoCollatorForDeposit));
    assert_eq!(deposit(&mut pool, BOB, half_balance, &c), Err(PoolError::NoCollatorForDeposit));
}

#[test]
fn processing_withdrawing_leaves_correct_balance_with_user() {
    let balance = 500_000_000 * UNIT;
    let mut pool = Pool::new(config());
    deposit(&mut pool, ALICE, balance, &vec![cand(BOB, false)]).unwrap();
    assert_eq!(pool.sum_of_deposits(), balance);
    withdraw(&mut pool, ALICE, balance, 1).unwrap();
    assert_eq!(pool.total_pot(), 0);
    assert_eq!(pool.withdrawal_request_queue().len(), 1);

    let due = pool.collators_due(3);
    let paid = pool.process_matured_withdrawals(Origin::Root, 3, &due).unwrap();
    assert_eq!(paid.iter().map(|r| r.amount).sum::<u128>(), balance);
    assert_eq!(paid[0].account, ALICE);
    assert_eq!(pool.sum_of_deposits(), 0);
    assert_eq!(pool.withdrawal_request_queue().len(), 0);
    assert_eq!(pool.unlocked_unstaking_funds(), 0);
}

#[test]
fn multiple_request_withdraw_processing_withdrawing_leaves_correct_balance_with_user() {
    let balance = 500_000_000 * UNIT;
    let one = 100_000_000 * UNIT;
    let mut pool = Pool::new(config());
    deposit(&mut pool, ALICE, balance, &vec![cand(BOB, false)]).unwrap();
    assert_eq!(pool.total_pot(), balance);
    for i in 1..6 {
        withdraw(&mut pool, ALICE, one, 1).unwrap();
        assert_eq!(pool.total_pot(), balance - i * one);
    }
    assert_eq!(pool.total_pot(), 0);
    assert_eq!(pool.withdrawal_request_queue().len(), 5);

    let due = pool.collators_due(3);
    let paid = pool.process_matured_withdrawals(Origin::Root, 3, &due).unwrap();
    assert_eq!(paid.iter().map(|r| r.amount).sum::<u128>(), balance);
    assert_eq!(pool.sum_of_deposits(), 0);
    assert_eq!(pool.withdrawal_request_queue().len(), 0);
    assert_eq!(pool.unlocked_unstaking_funds(), 0);
}

#[test]
fn double_processing_withdrawals_does_not_double_pay() {
    let balance = 500_000_000 * UNIT;
    let mut pool = Pool::new(config());
    deposit(&mut pool, ALICE, balance, &vec![cand(BOB, false)]).unwrap();
    withdraw(&mut pool, ALICE, balance, 1).unwrap();
    let due = pool.collators_due(3);
    let paid = pool.process_matured_withdrawals(Origin::Root, 3, &due).unwrap();
    assert_eq!(paid.iter().map(|r| r.amount).sum::<u128>(), balance);
    let paid = pool.process_matured_withdrawals(Origin::Root, 3, &due).unwrap();
    assert_eq!(paid.iter().map(|r| r.amount).sum::<u128>(), 0);
}

#[test]
fn deposit_staking_to_one_underallocated_collator_works() {
    let balance4 = 40_000_000 * UNIT;
    let balance5 = 50_000_000 * UNIT;
    let balance6 = 60_000_000 * UNIT;
    let mut pool = Pool::new(config());
    let all = [ALICE, BOB, CHARLIE];
    // No stake anywhere: the tie is broken by the seed.
    let c = cands(&pool, &all);
    assert_eq!(deposit(&mut pool, ALICE, balance6, &c).unwrap().collator, ALICE);
    // BOB and CHARLIE carry nothing of the pool's stake.
    let c = cands(&pool, &all);
    assert_eq!(deposit(&mut pool, ALICE, balance5, &c).unwrap().collator, BOB);
    // CHARLIE is the only underallocated collator.
    let c = cands(&pool, &all);
    assert_eq!(deposit(&mut pool, ALICE, balance4, &c).unwrap().collator, CHARLIE);
    // CHARLIE still carries the least.
    let c = cands(&pool, &all);
    assert_eq!(deposit(&mut pool, ALICE, balance6, &c).unwrap().collator, CHARLIE);
    assert_eq!(pool.staked_collators(ALICE), balance6);
    assert_eq!(pool.staked_collators(BOB), balance5);
    assert_eq!(pool.staked_collators(CHARLIE), balance4 + balance6);
}

#[test]
fn unstaking_works_with_zero_collators_left() {
    let balance = 50_000_000 * UNIT;
    let mut pool = Pool::new(config());
    let all = [ALICE, BOB];
    assert_eq!(pool.staked_collator_count(), 0);
    let c = cands(&pool, &all);
    deposit(&mut pool, ALICE, balance, &c).unwrap();
    let c = cands(&pool, &all);
    deposit(&mut pool, ALICE, balance, &c).unwrap();
    assert_eq!(pool.staked_collator_count(), 2);
    assert_eq!(pool.staked_collators(ALICE), balance);
    assert_eq!(pool.staked_collators(BOB), balance);

    withdraw(&mut pool, ALICE, balance * 2, 1).unwrap();
    assert_eq!(pool.staked_collator_count(), 2);
    assert_eq!(pool.unstaking_collators().len(), 2);
    assert_eq!(pool.withdrawal_request_queue().len(), 1);

    pool.start_lottery(Origin::Root, 0, HIGH_BALANCE).unwrap();
    let paid = draw(&mut pool, 3, &all);
    assert_eq!(paid.iter().map(|r| r.amount).sum::<u128>(), balance * 2);
    assert_eq!(pool.staked_collator_count(), 0);
    assert_eq!(pool.unstaking_collators().len(), 0);
    assert_eq!(pool.withdrawal_request_queue().len(), 0);
    assert_eq!(pool.surplus_unstaking_balance(), 0);
    assert_eq!(pool.unlocked_unstaking_funds(), 0);
}

#[test]
fn depsiting_to_one_collator_multiple_times_in_one_block_should_work() {
    let balance = 50_000_000 * UNIT;
    let mut pool = Pool::new(config());
    assert_eq!(pool.staked_collators(BOB), 0);
    for i in 1..4 {
        let c = cands(&pool, &[BOB]);
        deposit(&mut pool, ALICE, balance, &c).unwrap();
        assert_eq!(pool.staked_collators(BOB), i * balance);
    }
    assert_eq!(pool.sum_of_deposits(), 3 * balance);
}

#[test]
fn depsiting_to_two_collator_multiple_times_in_one_block_should_work() {
    let balance1 = 20_000_000 * UNIT;
    let mut pool = Pool::new(config());
    let all = [ALICE, BOB];
    let c = cands(&pool, &all);
    deposit(&mut pool, ALICE, balance1, &c).unwrap();
    assert_eq!(pool.staked_collators(ALICE), balance1);
    let c = cands(&pool, &all);
    deposit(&mut pool, ALICE, balance1, &c).unwrap();
    assert_eq!(pool.staked_collators(BOB), balance1);
    let c = cands(&pool, &all);
    deposit(&mut pool, ALICE, balance1, &c).unwrap();
    assert_eq!(pool.staked_collators(ALICE), 2 * balance1);
    assert_eq!(pool.sum_of_deposits(), 3 * balance1);
}

#[test]
fn deposit_withdraw_deposit_to_new_joined_collator_works() {
    let balance = 50_000_000 * UNIT;
    let mut pool = Pool::new(config());
    deposit(&mut pool, ALICE, balance, &vec![cand(BOB, false)]).unwrap();
    assert_eq!(pool.staked_collators(BOB), balance);
    withdraw(&mut pool, ALICE, balance, 1).unwrap();
    assert_eq!(pool.staked_collators(BOB), balance);
    assert_eq!(pool.withdrawal_request_queue().len(), 1);
    // BOB is unstaking, so it cannot take the deposit.
    let c = cands(&pool, &[BOB]);
    assert_eq!(deposit(&mut pool, ALICE, balance, &c), Err(PoolError::NoCollatorForDeposit));
    // A new collator joins.
    let c = cands(&pool, &[BOB, NEW_COLLATOR]);
    deposit(&mut pool, ALICE, balance, &c).unwrap();
    assert_eq!(pool.staked_collators(NEW_COLLATOR), balance);
}

#[test]
fn deposit_withdraw_partial_draw_lottery_works() {
    let balance = 500_000_000 * UNIT;
    let half_balance = 250_000_000 * UNIT;
    let quarter_balance = 125_000_000 * UNIT;
    let mut pool = Pool::new(config());
    assert_eq!(pool.staked_collators(BOB), 0);
    deposit(&mut pool, ALICE, balance, &vec![cand(BOB, false)]).unwrap();
    assert_eq!(pool.staked_collators(BOB), balance);
    assert_eq!(pool.total_pot(), balance);
    assert_eq!(pool.sum_of_deposits(), balance);

    withdraw(&mut pool, ALICE, half_balance, 1).unwrap();
    // surplus = balance - half_balance = half_balance
    assert_eq!(pool.surplus_unstaking_balance(), half_balance);
    withdraw(&mut pool, ALICE, quarter_balance, 1).unwrap();
    assert_eq!(pool.staked_collators(BOB), balance);
    // surplus = half_balance - quarter_balance = quarter_balance
    assert_eq!(pool.surplus_unstaking_balance(), quarter_balance);

    let paid = draw(&mut pool, 3, &[BOB]);
    assert_eq!(paid.iter().map(|r| r.amount).sum::<u128>(), half_balance + quarter_balance);
    assert_eq!(pool.surplus_unstaking_balance(), 0);
    assert_eq!(pool.unlocked_unstaking_funds(), 0);
    assert!(pool.withdrawal_request_queue().is_empty());
    assert!(pool.unstaking_collators().is_empty());
    // The drawing re-staked the surplus.
    assert_eq!(pool.staked_collator_count(), 1);
    assert_eq!(pool.staked_collators(BOB), quarter_balance);
    assert_eq!(pool.total_pot(), quarter_balance);
    assert_eq!(pool.sum_of_deposits(), quarter_balance);
}

#[test]
fn multiround_withdraw_partial_deposit_works() {
    let balance = 500_000_000 * UNIT;
    let half_balance = 250_000_000 * UNIT;
    let quarter_balance = 125_000_000 * UNIT;
    let mut pool = Pool::new(config());
    deposit(&mut pool, ALICE, balance, &vec![cand(BOB, false)]).unwrap();
    assert_eq!(pool.staked_collators(BOB), balance);
    withdraw(&mut pool, ALICE, half_balance, 1).unwrap();
    assert_eq!(pool.staked_collators(BOB), balance);
    assert_eq!(pool.withdrawal_request_queue().len(), 1);
    assert_eq!(pool.surplus_unstaking_balance(), half_balance);

    withdraw(&mut pool, ALICE, quarter_balance, 2).unwrap();
    assert_eq!(pool.staked_collators(BOB), balance);
    assert_eq!(pool.withdrawal_request_queue().len(), 2);
    assert_eq!(pool.surplus_unstaking_balance(), half_balance - quarter_balance);
    draw(&mut pool, 2, &[BOB]);
    assert_eq!(pool.staked_collators(BOB), balance);
    assert_eq!(pool.surplus_unstaking_balance(), half_balance - quarter_balance);
    assert_eq!(pool.unlocked_unstaking_funds(), 0);
    assert_eq!(pool.withdrawal_request_queue().len(), 2);

    // The collator is released: keep a quarter for the second withdrawal, re-stake the other.
    let paid = draw(&mut pool, 3, &[BOB]);
    assert_eq!(paid.iter().map(|r| r.amount).sum::<u128>(), half_balance);
    assert_eq!(pool.staked_collators(BOB), quarter_balance);
    assert_eq!(pool.unlocked_unstaking_funds(), quarter_balance);
    assert_eq!(pool.surplus_unstaking_balance(), 0);
    assert_eq!(pool.withdrawal_request_queue().len(), 1);
    assert!(pool.unstaking_collators().is_empty());

    // The second withdrawal is paid in the next round.
    let paid = draw(&mut pool, 4, &[BOB]);
    assert_eq!(paid.iter().map(|r| r.amount).sum::<u128>(), quarter_balance);
    assert_eq!(pool.staked_collators(BOB), quarter_balance);
    assert_eq!(pool.surplus_unstaking_balance(), 0);
    assert_eq!(pool.unlocked_unstaking_funds(), 0);
    assert!(pool.withdrawal_request_queue().is_empty());
}

#[test]
fn multiround_withdraw_partial_with_two_collators_works() {
    let balance = 500_000_000 * UNIT;
    let quarter_balance = 125_000_000 * UNIT;
    let mut pool = Pool::new(config());
    let all = [BOB, CHARLIE];
    let c = cands(&pool, &all);
    deposit(&mut pool, ALICE, balance, &c).unwrap();
    assert_eq!(pool.staked_collator_count(), 1);
    withdraw(&mut pool, ALICE, quarter_balance, 1).unwrap();

    draw(&mut pool, 2, &all);
    withdraw(&mut pool, ALICE, quarter_balance, 2).unwrap();
    withdraw(&mut pool, ALICE, quarter_balance, 2).unwrap();
    assert_eq!(pool.withdrawal_request_queue().len(), 3);
    assert_eq!(pool.staked_collator_count(), 1);
    assert_eq!(pool.unstaking_collators().len(), 1);

    draw(&mut pool, 3, &all);
    assert_eq!(pool.withdrawal_request_queue().len(), 2);
    assert_eq!(pool.unstaking_collators().len(), 0);

    draw(&mut pool, 4, &all);
    assert_eq!(pool.unlocked_unstaking_funds(), 0);
    assert_eq!(pool.surplus_unstaking_balance(), 0);
    assert!(pool.withdrawal_request_queue().is_empty());
    assert_eq!(pool.staked_collator_count(), 1);
    assert_eq!(pool.unstaking_collators().len(), 0);
}

#[test]
fn delegator_less_than_bottom_cannot_deposit() {
    let delegate_amt = 100_000_000 * UNIT;
    let delegate_amt_1 = 10_000_000 * UNIT;
    let mut pool = Pool::new(config());
    let c = vec![full(BOB, delegate_amt, false), full(CHARLIE, delegate_amt, false)];
    assert_eq!(deposit(&mut pool, ALICE, delegate_amt_1, &c), Err(PoolError::NoCollatorForDeposit));
    // Where the snapshot let it through, the protocol's refusal is passed on.
    let open = vec![cand(BOB, false)];
    assert_eq!(
        pool.deposit(
            Origin::Signed(ALICE),
            delegate_amt_1,
            0,
            &open,
            0,
            Err(StakingError::CannotDelegateLessThanOrEqualToLowestBottomWhenFull)
        ),
        Err(PoolError::Staking(StakingError::CannotDelegateLessThanOrEqualToLowestBottomWhenFull))
    );
    assert_eq!(pool.staked_collator_count(), 0);
}

#[test]
fn delegator_more_than_bottom_can_deposit_twocollator_secondfailed() {
    let quarter_balance = 125_000_000 * UNIT;
    let delegate_amt = 100_000_000 * UNIT;
    let mut pool = Pool::new(config());
    let c = vec![full(BOB, delegate_amt, false), full(CHARLIE, delegate_amt, false)];
    let first = deposit(&mut pool, ALICE, quarter_balance, &c).unwrap().collator;
    assert_eq!(pool.staked_collator_count(), 1);
    let other = if first == BOB { CHARLIE } else { BOB };
    let c = vec![full(first, delegate_amt, true), full(other, delegate_amt, false)];
    // The other collator would take no delegation of `delegate_amt`; the one the pool already
    // delegates to takes it on top of the pool's stake.
    assert_eq!(deposit(&mut pool, DELEGATOR8, delegate_amt, &c).unwrap().collator, first);
    assert_eq!(pool.staked_collator_count(), 1);
    assert_eq!(deposit(&mut pool, DELEGATOR8, delegate_amt + 1, &c).unwrap().collator, other);
    assert_eq!(pool.staked_collator_count(), 2);
}

#[test]
fn delegator_more_than_bottom_can_deposit_onecollator_secondok() {
    let quarter_balance = 125_000_000 * UNIT;
    let delegate_amt = 100_000_000 * UNIT;
    let delegation_min = 5_000 * UNIT;
    let mut pool = Pool::new(config());
    deposit(&mut pool, ALICE, quarter_balance, &vec![full(BOB, delegate_amt, false)]).unwrap();
    assert_eq!(pool.staked_collator_count(), 1);
    deposit(&mut pool, ALICE, delegate_amt, &vec![full(BOB, delegate_amt, true)]).unwrap();
    assert_eq!(pool.staked_collator_count(), 1);
    deposit(&mut pool, ALICE, delegation_min, &vec![full(BOB, delegate_amt, true)]).unwrap();
    assert_eq!(pool.staked_collator_count(), 1);
}

#[test]
fn delegator_kicked_not_in_state_cannot_deposit() {
    let mut pool = Pool::new(config());
    deposit(&mut pool, ALICE, 150_000_000 * UNIT, &vec![full(BOB, 100_000_000 * UNIT, false)]).unwrap();
    assert_eq!(pool.staked_collator_count(), 1);
    // The pool was pushed out of BOB's delegations; its record there is stale, so BOB stays
    // eligible and the deposit goes to the protocol as a fresh delegation.
    let kicked = vec![full(BOB, 160_000_000 * UNIT, false)];
    assert_eq!(
        pool.plan_deposit(Origin::Signed(ALICE), 150_000_000 * UNIT, 0, &kicked, 0),
        Ok(Delegation { collator: BOB, amount: 150_000_000 * UNIT, bond_more: false })
    );
    // The protocol refuses it, and the refusal is passed on with nothing changed.
    assert_eq!(
        pool.deposit(Origin::Signed(ALICE), 150_000_000 * UNIT, 0, &kicked, 0, Err(StakingError::DelegatorDNE)),
        Err(PoolError::Staking(StakingError::DelegatorDNE))
    );
    assert_eq!(pool.staked_collators(BOB), 150_000_000 * UNIT);
    assert_eq!(pool.sum_of_deposits(), 150_000_000 * UNIT);
}

#[test]
fn delegator_state_eq_lowest_top_choose_diff_collator() {
    let amount = 51_000_000 * UNIT;
    let mut pool = Pool::new(config());
    let all = [BOB, CHARLIE];
    let c = cands(&pool, &all);
    deposit(&mut pool, ALICE, amount, &c).unwrap();
    assert_eq!(pool.staked_collator_count(), 1);
    let c = cands(&pool, &all);
    deposit(&mut pool, ALICE, amount, &c).unwrap();
    assert_eq!(pool.staked_collator_count(), 2);
    let c = cands(&pool, &all);
    deposit(&mut pool, ALICE, amount, &c).unwrap();
    assert_eq!(pool.staked_collator_count(), 2);
}

#[test]
fn delegator_kicked_when_reactivate_bottom_should_ignored() {
    let amount = 51_000_000 * UNIT;
    let mut pool = Pool::new(config());
    deposit(&mut pool, ALICE, amount, &vec![cand(BOB, false), cand(CHARLIE, false)]).unwrap();
    assert_eq!(pool.staked_collator_count(), 1);
    deposit(&mut pool, ALICE, amount, &vec![cand(BOB, true), cand(CHARLIE, false)]).unwrap();
    assert_eq!(pool.staked_collator_count(), 2);
    // The pool is pushed out of BOB's delegations; its record there stays until settlement.
    assert_eq!(pool.staked_collators(BOB), amount);
    assert_eq!(pool.staked_collators(CHARLIE), amount);
    // Both carry the same recorded load, so the seed picks; BOB would get a fresh delegation.
    let c = vec![cand(BOB, false), cand(CHARLIE, true)];
    let more = 53_000_000 * UNIT;
    assert_eq!(
        pool.plan_deposit(Origin::Signed(ALICE), more, 0, &c, 0),
        Ok(Delegation { collator: BOB, amount: more, bond_more: false })
    );
    assert_eq!(
        pool.plan_deposit(Origin::Signed(ALICE), more, 0, &c, 1),
        Ok(Delegation { collator: CHARLIE, amount: more, bond_more: true })
    );
    pool.deposit(Origin::Signed(ALICE), more, 0, &c, 1, Ok(())).unwrap();
    assert_eq!(pool.staked_collators(BOB), amount);
    assert_eq!(pool.staked_collators(CHARLIE), 104_000_000 * UNIT);
}

#[test]
fn delegator_unstaking_then_kicked_should_ignored() {
    let amount = 51_000_000 * UNIT;
    let mut pool = Pool::new(config());
    deposit(&mut pool, ALICE, amount, &vec![cand(BOB, false), cand(CHARLIE, false)]).unwrap();
    assert_eq!(pool.staked_collator_count(), 1);
    deposit(&mut pool, ALICE, amount, &vec![cand(BOB, true), cand(CHARLIE, false)]).unwrap();
    assert_eq!(pool.staked_collator_count(), 2);

    // Unstaking from BOB.
    assert_eq!(pool.plan_withdraw(Origin::Signed(ALICE), amount, 0, 1, amount).unwrap(), vec![(BOB, amount)]);
    withdraw(&mut pool, ALICE, amount, 1).unwrap();
    assert_eq!(pool.staked_collator_count(), 2);
    assert_eq!(pool.unstaking_collators().len(), 1);

    // Then the pool is pushed out of CHARLIE's delegations: BOB is unstaking, and CHARLIE takes
    // a deposit only as a fresh delegation.
    let c = vec![cand(BOB, true), cand(CHARLIE, false)];
    assert_eq!(
        pool.plan_deposit(Origin::Signed(ALICE), 53_000_000 * UNIT, 0, &c, 0),
        Ok(Delegation { collator: CHARLIE, amount: 53_000_000 * UNIT, bond_more: false })
    );
    assert_eq!(pool.staked_collator_count(), 2);
    assert_eq!(pool.unstaking_collators().len(), 1);

    // Revoking the stale delegation unbonds nothing.
    assert_eq!(pool.plan_withdraw(Origin::Signed(ALICE), amount, 0, 1, amount).unwrap(), vec![(CHARLIE, amount)]);
    assert_eq!(
        pool.request_withdraw(Origin::Signed(ALICE), amount, 0, 1, amount, Ok(0)),
        Err(PoolError::UnstakedLessThanRequested)
    );

    // Settlement removes the unstaked collator; the stale record stays until it is reported.
    let due = pool.collators_due(3);
    assert_eq!(due, vec![BOB]);
    pool.process_matured_withdrawals(Origin::Root, 3, &due).unwrap();
    assert_eq!(pool.staked_collator_count(), 1);
    assert_eq!(pool.unstaking_collators().len(), 0);
    assert_eq!(pool.staked_collators(CHARLIE), amount);
    assert_eq!(
        pool.request_withdraw(Origin::Signed(ALICE), amount, 0, 3, amount, Ok(0)),
        Err(PoolError::UnstakedLessThanRequested)
    );
    assert_eq!(
        pool.request_withdraw(Origin::Signed(ALICE), amount, 0, 3, amount, Err(StakingError::DelegationDNE)),
        Err(PoolError::Staking(StakingError::DelegationDNE))
    );
}

#[test]
fn delegator_unstaking_kicked_same_collator_should_ignored() {
    let mut pool = Pool::new(config());
    deposit(&mut pool, ALICE, 51_000_000 * UNIT, &vec![cand(BOB, false), cand(CHARLIE, false)]).unwrap();
    deposit(&mut pool, ALICE, 52_000_000 * UNIT, &vec![cand(BOB, true), cand(CHARLIE, false)]).unwrap();
    assert_eq!(pool.staked_collator_count(), 2);
    // Unstaking from BOB, which then pushes the pool out: the unbond is void, the funds return.
    withdraw(&mut pool, ALICE, 51_000_000 * UNIT, 1).unwrap();
    let paid = pool.process_matured_withdrawals(Origin::Root, 1, &vec![BOB]).unwrap();
    assert!(paid.is_empty());
    assert_eq!(pool.unlocked_unstaking_funds(), 51_000_000 * UNIT);
    assert_eq!(pool.staked_collator_count(), 1);
    // BOB no longer carries any of the pool's stake: it takes the next deposit afresh.
    let d = deposit(&mut pool, ALICE, 53_000_000 * UNIT, &vec![cand(BOB, false), cand(CHARLIE, true)]).unwrap();
    assert_eq!(d, Delegation { collator: BOB, amount: 53_000_000 * UNIT, bond_more: false });
    assert_eq!(pool.staked_collators(BOB), 53_000_000 * UNIT);
    assert_eq!(pool.staked_collators(CHARLIE), 52_000_000 * UNIT);
    // The request is paid once it matures.
    let paid = pool.process_matured_withdrawals(Origin::Root, 3, &vec![]).unwrap();
    assert_eq!(paid.iter().map(|r| r.amount).sum::<u128>(), 51_000_000 * UNIT);
}

#[test]
fn winner_distribution_should_be_equality_with_equal_deposits() {
    const WINNING_AMT: u128 = 1;
    const NUMBER_OF_DRAWINGS: u64 = 10_000;
    const NUMBER_OF_USERS: u64 = 50;
    const USER_SEED: u64 = 696_969;
    let mut pool = Pool::new(config());
    let deposit_amount = 5_000 * UNIT * 10_000;
    for user in 0..NUMBER_OF_USERS {
        let c = cands(&pool, &[BOB]);
        deposit(&mut pool, USER_SEED - 1 - user, deposit_amount, &c).unwrap();
    }
    let mut state: u64 = USER_SEED;
    let mut next = || {
        state ^= state << 13;
        state ^= state >> 7;
        state ^= state << 17;
        state
    };
    for _ in 0..NUMBER_OF_DRAWINGS {
        let random = ((next() as u128) << 64) | next() as u128;
        pool.draw_lottery(Origin::Root, 0, 1, &vec![], random, WINNING_AMT, &vec![], 0, Ok(())).unwrap();
    }
    assert_eq!(pool.total_unclaimed_winnings(), NUMBER_OF_DRAWINGS as u128 * WINNING_AMT);
    let mut winners = 0;
    for user in 0..NUMBER_OF_USERS {
        let won = pool.unclaimed_winnings(USER_SEED - 1 - user);
        assert!(won >= (WINNING_AMT as f32 * NUMBER_OF_DRAWINGS as f32 / NUMBER_OF_USERS as f32 * 0.80) as u128);
        winners += 1;
    }
    assert_eq!(winners, NUMBER_OF_USERS);
}

#[test]
fn fails_withdrawing_more_than_vmanta() {
    let balance = 500_000_000 * UNIT;
    let half_balance = 250_000_000 * UNIT;
    let mut cfg = config();
    cfg.farming_enabled = true;
    let mut pool = Pool::new(cfg);
    deposit(&mut pool, CHARLIE, balance, &vec![cand(BOB, false)]).unwrap();
    deposit(&mut pool, ALICE, balance, &vec![cand(BOB, true)]).unwrap();
    // CHARLIE holds half of its claim tokens.
    assert_eq!(
        pool.request_withdraw(Origin::Signed(CHARLIE), balance, 0, 1, half_balance, Ok(2 * balance)),
        Err(PoolError::InsufficientClaimTokens)
    );
    assert_eq!(pool.active_balance_per_user(CHARLIE), balance);
    // With all of them back, the request goes through.
    let targets = pool.plan_withdraw(Origin::Signed(CHARLIE), balance, 0, 1, balance).unwrap();
    let unbonded: u128 = targets.iter().map(|t| t.1).sum();
    assert_eq!(pool.request_withdraw(Origin::Signed(CHARLIE), balance, 0, 1, balance, Ok(unbonded)), Ok(()));
    assert_eq!(pool.active_balance_per_user(CHARLIE), 0);
}
