//! The pool's stake per collator, and which of those delegations are being unbonded.
use vstd::prelude::*;

use crate::sums::{
    lemma_sum_cons, lemma_sum_ge_element, lemma_sum_nonneg, lemma_sum_push, lemma_sum_remove,
    lemma_sum_split, lemma_sum_update, sum_by,
};

verus! {

/// The pool's delegation to one collator. `unstaking_since` holds the round in which an unbond
/// of the whole delegation was scheduled; `None` while the delegation is bonded.
#[derive(Clone, Copy, Debug, PartialEq, Eq, Structural)]
pub struct StakeEntry {
    pub collator: u64,
    pub amount: u128,
    pub unstaking_since: Option<u32>,
}

/// Weight of an entry: its whole amount.
pub open spec fn stake_amount() -> spec_fn(StakeEntry) -> int {
    |e: StakeEntry| e.amount as int
}

/// Weight of an entry: its amount while bonded, else zero.
pub open spec fn bonded_amount() -> spec_fn(StakeEntry) -> int {
    |e: StakeEntry|
        if e.unstaking_since.is_none() {
            e.amount as int
        } else {
            0
        }
}

/// Weight of an entry: its amount while being unbonded, else zero.
pub open spec fn unbonding_amount() -> spec_fn(StakeEntry) -> int {
    |e: StakeEntry|
        if e.unstaking_since.is_some() {
            e.amount as int
        } else {
            0
        }
}

/// Weight of a (collator, amount) pair: the amount.
pub open spec fn pair_amount() -> spec_fn((u64, u128)) -> int {
    |e: (u64, u128)| e.1 as int
}

/// All stake, bonded or being unbonded.
pub open spec fn staked_total(s: Seq<StakeEntry>) -> int {
    sum_by(s, stake_amount())
}

/// Stake that is bonded.
pub open spec fn bonded_total(s: Seq<StakeEntry>) -> int {
    sum_by(s, bonded_amount())
}

/// Stake that is being unbonded.
pub open spec fn unbonding_total(s: Seq<StakeEntry>) -> int {
    sum_by(s, unbonding_amount())
}

/// No collator occurs twice.
pub open spec fn collators_unique(s: Seq<StakeEntry>) -> bool {
    forall|i: int, j: int|
        0 <= i < s.len() && 0 <= j < s.len() && i != j ==> #[trigger] s[i].collator
            != #[trigger] s[j].collator
}

/// The pool has an entry for collator `c`.
pub open spec fn has_collator(s: Seq<StakeEntry>, c: u64) -> bool {
    exists|i: int| 0 <= i < s.len() && #[trigger] s[i].collator == c
}

/// The position of the entry of collator `c`, where there is one.
pub open spec fn position(s: Seq<StakeEntry>, c: u64) -> int {
    choose|i: int| 0 <= i < s.len() && #[trigger] s[i].collator == c
}

/// The pool's stake with collator `c`; zero where it has none.
pub open spec fn stake_of(s: Seq<StakeEntry>, c: u64) -> u128 {
    if has_collator(s, c) {
        s[position(s, c)].amount
    } else {
        0
    }
}

/// The pool's delegation to `c` is being unbonded.
pub open spec fn is_unstaking(s: Seq<StakeEntry>, c: u64) -> bool {
    has_collator(s, c) && s[position(s, c)].unstaking_since.is_some()
}

/// `s` with `a` more bonded to `c`; a new entry goes at the end.
pub open spec fn add_stake(s: Seq<StakeEntry>, c: u64, a: u128) -> Seq<StakeEntry> {
    if has_collator(s, c) {
        s.update(position(s, c), StakeEntry { amount: (stake_of(s, c) + a) as u128, ..s[position(s, c)] })
    } else {
        s.push(StakeEntry { collator: c, amount: a, unstaking_since: None })
    }
}

/// `s` without the entry of `c`.
pub open spec fn remove_collator(s: Seq<StakeEntry>, c: u64) -> Seq<StakeEntry> {
    if has_collator(s, c) {
        s.remove(position(s, c))
    } else {
        s
    }
}

/// Whole bonded delegations, front to back, until their amounts cover `need`.
pub open spec fn unstake_targets(s: Seq<StakeEntry>, need: u128) -> Seq<(u64, u128)>
    decreases s.len(),
{
    if s.len() == 0 {
        Seq::empty()
    } else if need > 0 && s[0].unstaking_since.is_none() {
        let rest = if s[0].amount >= need {
            0u128
        } else {
            (need - s[0].amount) as u128
        };
        seq![(s[0].collator, s[0].amount)] + unstake_targets(s.subrange(1, s.len() as int), rest)
    } else {
        unstake_targets(s.subrange(1, s.len() as int), need)
    }
}

/// `s` with the delegations of `unstake_targets(s, need)` marked as unbonding since `round`.
pub open spec fn schedule_unstake(s: Seq<StakeEntry>, need: u128, round: u32) -> Seq<StakeEntry>
    decreases s.len(),
{
    if s.len() == 0 {
        s
    } else if need > 0 && s[0].unstaking_since.is_none() {
        let rest = if s[0].amount >= need {
            0u128
        } else {
            (need - s[0].amount) as u128
        };
        seq![StakeEntry { unstaking_since: Some(round), ..s[0] }] + schedule_unstake(
            s.subrange(1, s.len() as int),
            rest,
            round,
        )
    } else {
        seq![s[0]] + schedule_unstake(s.subrange(1, s.len() as int), need, round)
    }
}

/// `s` with every bonded delegation marked as unbonding since `round`.
pub open spec fn schedule_all(s: Seq<StakeEntry>, round: u32) -> Seq<StakeEntry> {
    s.map_values(
        |e: StakeEntry|
            if e.unstaking_since.is_none() {
                StakeEntry { unstaking_since: Some(round), ..e }
            } else {
                e
            },
    )
}

/// The bonded delegations of `s`, in order.
pub open spec fn bonded_pairs(s: Seq<StakeEntry>) -> Seq<(u64, u128)>
    decreases s.len(),
{
    if s.len() == 0 {
        Seq::empty()
    } else if s.last().unstaking_since.is_none() {
        bonded_pairs(s.drop_last()).push((s.last().collator, s.last().amount))
    } else {
        bonded_pairs(s.drop_last())
    }
}

/// The collators whose delegation is being unbonded, in order.
pub open spec fn unstaking_collators(s: Seq<StakeEntry>) -> Seq<u64>
    decreases s.len(),
{
    if s.len() == 0 {
        Seq::empty()
    } else if s.last().unstaking_since.is_some() {
        unstaking_collators(s.drop_last()).push(s.last().collator)
    } else {
        unstaking_collators(s.drop_last())
    }
}

/// The collators whose unbond, scheduled `delay` rounds before or earlier, is due by `round`.
pub open spec fn due_collators(s: Seq<StakeEntry>, round: u32, delay: u32) -> Seq<u64>
    decreases s.len(),
{
    if s.len() == 0 {
        Seq::empty()
    } else if s.last().unstaking_since.is_some() && s.last().unstaking_since.unwrap() + delay
        <= round {
        due_collators(s.drop_last(), round, delay).push(s.last().collator)
    } else {
        due_collators(s.drop_last(), round, delay)
    }
}

/// In a ledger with unique collators, the entry found for `c` is the one `position` names.
pub proof fn lemma_position(s: Seq<StakeEntry>, c: u64, i: int)
    requires
        collators_unique(s),
        0 <= i < s.len(),
        s[i].collator == c,
    ensures
        has_collator(s, c),
        position(s, c) == i,
        stake_of(s, c) == s[i].amount,
        is_unstaking(s, c) == s[i].unstaking_since.is_some(),
{
    assert(has_collator(s, c));
    let j = position(s, c);
    assert(s[j].collator == c);
}

/// The three sums: all stake is bonded or being unbonded, and none is negative.
pub proof fn lemma_stake_sums(s: Seq<StakeEntry>)
    ensures
        staked_total(s) == bonded_total(s) + unbonding_total(s),
        bonded_total(s) >= 0,
        unbonding_total(s) >= 0,
    decreases s.len(),
{
    lemma_sum_nonneg(s, bonded_amount());
    lemma_sum_nonneg(s, unbonding_amount());
    if s.len() > 0 {
        lemma_stake_sums(s.drop_last());
    }
}

/// No delegation exceeds the whole stake.
pub proof fn lemma_stake_le_total(s: Seq<StakeEntry>, c: u64)
    ensures
        stake_of(s, c) <= staked_total(s),
        0 <= staked_total(s),
{
    lemma_sum_nonneg(s, stake_amount());
    if has_collator(s, c) {
        lemma_sum_ge_element(s, position(s, c), stake_amount());
    }
}

/// Two ledgers with the same collators in the same places and the same amounts.
pub open spec fn same_shape(s: Seq<StakeEntry>, t: Seq<StakeEntry>) -> bool {
    s.len() == t.len() && forall|i: int|
        0 <= i < s.len() ==> (#[trigger] t[i]).collator == s[i].collator && t[i].amount
            == s[i].amount
}

/// Entries that keep their collators keep uniqueness, lookups and the whole sum.
pub proof fn lemma_same_shape(s: Seq<StakeEntry>, t: Seq<StakeEntry>)
    requires
        same_shape(s, t),
        collators_unique(s),
    ensures
        collators_unique(t),
        staked_total(t) == staked_total(s),
        forall|c: u64| #[trigger] has_collator(t, c) == has_collator(s, c),
        forall|c: u64| #[trigger] stake_of(t, c) == stake_of(s, c),
    decreases s.len(),
{
    assert(collators_unique(t));
    assert forall|c: u64| #[trigger] has_collator(t, c) == has_collator(s, c) && stake_of(t, c)
        == stake_of(s, c) by {
        if has_collator(s, c) {
            let i = position(s, c);
            lemma_position(s, c, i);
            lemma_position(t, c, i);
        }
        if has_collator(t, c) {
            let i = position(t, c);
            assert(s[i].collator == c);
        }
    }
    lemma_same_shape_total(s, t);
}

/// Entries with the same amounts have the same whole sum.
proof fn lemma_same_shape_total(s: Seq<StakeEntry>, t: Seq<StakeEntry>)
    requires
        same_shape(s, t),
    ensures
        staked_total(t) == staked_total(s),
    decreases s.len(),
{
    if s.len() > 0 {
        assert(same_shape(s.drop_last(), t.drop_last()));
        assert(t[t.len() - 1].amount == s[s.len() - 1].amount);
        lemma_same_shape_total(s.drop_last(), t.drop_last());
    }
}

/// What adding stake does to the ledger.
pub proof fn lemma_add_stake(s: Seq<StakeEntry>, c: u64, a: u128)
    requires
        collators_unique(s),
        !is_unstaking(s, c),
        stake_of(s, c) + a <= u128::MAX,
    ensures
        collators_unique(add_stake(s, c, a)),
        has_collator(add_stake(s, c, a), c),
        stake_of(add_stake(s, c, a), c) == stake_of(s, c) + a,
        !is_unstaking(add_stake(s, c, a), c),
        forall|d: u64| d != c ==> #[trigger] has_collator(add_stake(s, c, a), d) == has_collator(s, d),
        forall|d: u64| d != c ==> #[trigger] stake_of(add_stake(s, c, a), d) == stake_of(s, d),
        forall|d: u64| d != c ==> #[trigger] is_unstaking(add_stake(s, c, a), d) == is_unstaking(s, d),
        staked_total(add_stake(s, c, a)) == staked_total(s) + a,
        bonded_total(add_stake(s, c, a)) == bonded_total(s) + a,
        unbonding_total(add_stake(s, c, a)) == unbonding_total(s),
{
    let t = add_stake(s, c, a);
    let i = if has_collator(s, c) {
        position(s, c)
    } else {
        s.len() as int
    };
    if has_collator(s, c) {
        let x = StakeEntry { amount: (stake_of(s, c) + a) as u128, ..s[i] };
        lemma_sum_update(s, i, x, stake_amount());
        lemma_sum_update(s, i, x, bonded_amount());
        lemma_sum_update(s, i, x, unbonding_amount());
    } else {
        let x = StakeEntry { collator: c, amount: a, unstaking_since: None };
        lemma_sum_push(s, x, stake_amount());
        lemma_sum_push(s, x, bonded_amount());
        lemma_sum_push(s, x, unbonding_amount());
    }
    assert(collators_unique(t));
    lemma_position(t, c, i);
    assert forall|d: u64| d != c implies #[trigger] has_collator(t, d) == has_collator(s, d)
        && stake_of(t, d) == stake_of(s, d) && is_unstaking(t, d) == is_unstaking(s, d) by {
        if has_collator(s, d) {
            let m = position(s, d);
            lemma_position(s, d, m);
            lemma_position(t, d, m);
        }
        if has_collator(t, d) {
            let m = position(t, d);
            assert(s[m].collator == d);
        }
    }
}

/// What removing a collator's entry does to the ledger.
pub proof fn lemma_remove_collator(s: Seq<StakeEntry>, c: u64)
    requires
        collators_unique(s),
    ensures
        collators_unique(remove_collator(s, c)),
        !has_collator(remove_collator(s, c), c),
        forall|d: u64| d != c ==> #[trigger] has_collator(remove_collator(s, c), d) == has_collator(s, d),
        forall|d: u64| d != c ==> #[trigger] stake_of(remove_collator(s, c), d) == stake_of(s, d),
        forall|d: u64| d != c ==> #[trigger] is_unstaking(remove_collator(s, c), d) == is_unstaking(s, d),
        staked_total(remove_collator(s, c)) == staked_total(s) - stake_of(s, c),
        bonded_total(remove_collator(s, c)) == bonded_total(s) - (if is_unstaking(s, c) {
            0
        } else {
            stake_of(s, c) as int
        }),
        unbonding_total(remove_collator(s, c)) == unbonding_total(s) - (if is_unstaking(s, c) {
            stake_of(s, c) as int
        } else {
            0
        }),
{
    if has_collator(s, c) {
        let i = position(s, c);
        lemma_position(s, c, i);
        lemma_sum_remove(s, i, stake_amount());
        lemma_sum_remove(s, i, bonded_amount());
        lemma_sum_remove(s, i, unbonding_amount());
        lemma_remove_unique(s, i);
        lemma_remove_lookups(s, i);
    }
}

/// Removing the entry at `i` keeps collators unique and drops its collator.
proof fn lemma_remove_unique(s: Seq<StakeEntry>, i: int)
    requires
        collators_unique(s),
        0 <= i < s.len(),
    ensures
        collators_unique(s.remove(i)),
        !has_collator(s.remove(i), s[i].collator),
{
    let t = s.remove(i);
    assert forall|p: int, q: int|
        0 <= p < t.len() && 0 <= q < t.len() && p != q implies #[trigger] t[p].collator
        != #[trigger] t[q].collator by {
        let pp = if p < i {
            p
        } else {
            p + 1
        };
        let qq = if q < i {
            q
        } else {
            q + 1
        };
        assert(t[p] == s[pp]);
        assert(t[q] == s[qq]);
    }
    if has_collator(t, s[i].collator) {
        let m = position(t, s[i].collator);
        let mm = if m < i {
            m
        } else {
            m + 1
        };
        assert(t[m] == s[mm]);
    }
}

/// Removing the entry at `i` leaves every other collator's entry as it was.
proof fn lemma_remove_lookups(s: Seq<StakeEntry>, i: int)
    requires
        collators_unique(s),
        0 <= i < s.len(),
    ensures
        forall|d: u64| d != s[i].collator ==> #[trigger] has_collator(s.remove(i), d) == has_collator(s, d)
            && stake_of(s.remove(i), d) == stake_of(s, d) && is_unstaking(s.remove(i), d) == is_unstaking(s, d),
{
    let t = s.remove(i);
    lemma_remove_unique(s, i);
    assert forall|d: u64| d != s[i].collator implies #[trigger] has_collator(t, d) == has_collator(s, d)
        && stake_of(t, d) == stake_of(s, d) && is_unstaking(t, d) == is_unstaking(s, d) by {
        if has_collator(s, d) {
            let m = position(s, d);
            lemma_position(s, d, m);
            let mm = if m < i {
                m
            } else {
                m - 1
            };
            assert(t[mm] == s[m]);
            lemma_position(t, d, mm);
        }
        if has_collator(t, d) {
            let m = position(t, d);
            let mm = if m < i {
                m
            } else {
                m + 1
            };
            assert(t[m] == s[mm]);
        }
    }
}

/// What scheduling unbonds does: same collators and amounts, and the targets' amounts move
/// from bonded to unbonding. When the bonded stake covers `need`, so do the targets.
pub proof fn lemma_schedule_unstake(s: Seq<StakeEntry>, need: u128, round: u32)
    ensures
        same_shape(s, schedule_unstake(s, need, round)),
        bonded_total(schedule_unstake(s, need, round)) == bonded_total(s) - sum_by(
            unstake_targets(s, need),
            pair_amount(),
        ),
        unbonding_total(schedule_unstake(s, need, round)) == unbonding_total(s) + sum_by(
            unstake_targets(s, need),
            pair_amount(),
        ),
        bonded_total(s) >= need ==> sum_by(unstake_targets(s, need), pair_amount()) >= need,
        forall|i: int|
            0 <= i < s.len() ==> (#[trigger] schedule_unstake(s, need, round)[i]).unstaking_since
                == s[i].unstaking_since || (s[i].unstaking_since.is_none()
                && schedule_unstake(s, need, round)[i].unstaking_since == Some(round)),
    decreases s.len(),
{
    let t = schedule_unstake(s, need, round);
    if s.len() > 0 {
        let rest = s.subrange(1, s.len() as int);
        assert(s =~= seq![s[0]] + rest);
        lemma_sum_cons(s[0], rest, bonded_amount());
        lemma_sum_cons(s[0], rest, unbonding_amount());
        let marks = need > 0 && s[0].unstaking_since.is_none();
        let next = if !marks {
            need
        } else if s[0].amount >= need {
            0u128
        } else {
            (need - s[0].amount) as u128
        };
        let x = if marks {
            StakeEntry { unstaking_since: Some(round), ..s[0] }
        } else {
            s[0]
        };
        let sub = schedule_unstake(rest, next, round);
        lemma_schedule_unstake(rest, next, round);
        assert(t == seq![x] + sub);
        lemma_sum_cons(x, sub, bonded_amount());
        lemma_sum_cons(x, sub, unbonding_amount());
        lemma_sum_nonneg(unstake_targets(rest, next), pair_amount());
        if marks {
            assert(unstake_targets(s, need) == seq![(s[0].collator, s[0].amount)]
                + unstake_targets(rest, next));
            lemma_sum_cons((s[0].collator, s[0].amount), unstake_targets(rest, next), pair_amount());
        } else {
            assert(unstake_targets(s, need) == unstake_targets(rest, next));
        }
        assert forall|i: int| 0 <= i < s.len() implies #[trigger] t[i].collator == s[i].collator
            && t[i].amount == s[i].amount && (t[i].unstaking_since == s[i].unstaking_since || (
        s[i].unstaking_since.is_none() && t[i].unstaking_since == Some(round))) by {
            if i > 0 {
                assert(t[i] == sub[i - 1]);
                assert(s[i] == rest[i - 1]);
            }
        }
    }
}

/// Every target of an unbond is an entry that scheduling marks as unbonding since `round`, and
/// a positive need that the bonded stake covers has at least one target.
pub proof fn lemma_targets_marked(s: Seq<StakeEntry>, need: u128, round: u32)
    ensures
        forall|k: int|
            0 <= k < unstake_targets(s, need).len() ==> exists|i: int|
                0 <= i < s.len() && s[i].collator == (#[trigger] unstake_targets(s, need)[k]).0
                    && schedule_unstake(s, need, round)[i].unstaking_since == Some(round),
        need > 0 && bonded_total(s) >= need ==> unstake_targets(s, need).len() > 0,
    decreases s.len(),
{
    if s.len() > 0 {
        let rest = s.subrange(1, s.len() as int);
        assert(s =~= seq![s[0]] + rest);
        lemma_sum_cons(s[0], rest, bonded_amount());
        let marks = need > 0 && s[0].unstaking_since.is_none();
        let next = if !marks {
            need
        } else if s[0].amount >= need {
            0u128
        } else {
            (need - s[0].amount) as u128
        };
        lemma_targets_marked(rest, next, round);
        let t = unstake_targets(s, need);
        let tr = unstake_targets(rest, next);
        let sub = schedule_unstake(rest, next, round);
        lemma_schedule_unstake(rest, next, round);
        let x = if marks {
            StakeEntry { unstaking_since: Some(round), ..s[0] }
        } else {
            s[0]
        };
        assert(schedule_unstake(s, need, round) == seq![x] + sub);
        if marks {
            assert(t == seq![(s[0].collator, s[0].amount)] + tr);
        } else {
            assert(t == tr);
        }
        assert forall|k: int| 0 <= k < t.len() implies exists|i: int|
            0 <= i < s.len() && s[i].collator == (#[trigger] t[k]).0 && schedule_unstake(s, need, round)[i].unstaking_since
                == Some(round) by {
            if marks {
                if k == 0 {
                    assert(schedule_unstake(s, need, round)[0].unstaking_since == Some(round));
                } else {
                    assert(t[k] == tr[k - 1]);
                    let i = choose|i: int|
                        0 <= i < rest.len() && rest[i].collator == (#[trigger] tr[k - 1]).0
                            && sub[i].unstaking_since == Some(round);
                    assert(s[i + 1] == rest[i]);
                    assert(schedule_unstake(s, need, round)[i + 1] == sub[i]);
                }
            } else {
                assert(t[k] == tr[k]);
                let i = choose|i: int|
                    0 <= i < rest.len() && rest[i].collator == (#[trigger] tr[k]).0 && sub[i].unstaking_since
                        == Some(round);
                assert(s[i + 1] == rest[i]);
                assert(schedule_unstake(s, need, round)[i + 1] == sub[i]);
            }
        }
    }
}

/// What marking every bonded delegation does: same collators and amounts, nothing stays bonded.
pub proof fn lemma_schedule_all(s: Seq<StakeEntry>, round: u32)
    ensures
        same_shape(s, schedule_all(s, round)),
        bonded_total(schedule_all(s, round)) == 0,
        unbonding_total(schedule_all(s, round)) == staked_total(s),
    decreases s.len(),
{
    let t = schedule_all(s, round);
    lemma_stake_sums(s);
    if s.len() > 0 {
        lemma_schedule_all(s.drop_last(), round);
        assert(t.drop_last() =~= schedule_all(s.drop_last(), round));
        lemma_stake_sums(s.drop_last());
    }
}

/// The pool's delegations, one entry per collator, in the order they were first made.
pub struct StakeLedger {
    entries: Vec<StakeEntry>,
}

impl View for StakeLedger {
    type V = Seq<StakeEntry>;

    closed spec fn view(&self) -> Seq<StakeEntry> {
        self.entries@
    }
}

impl StakeLedger {
    /// Collators are unique.
    pub open spec fn wf(&self) -> bool {
        collators_unique(self@)
    }

    /// A ledger without delegations.
    pub fn new() -> (r: StakeLedger)
        ensures
            r@ == Seq::<StakeEntry>::empty(),
            r.wf(),
    {
        StakeLedger { entries: Vec::new() }
    }

    /// The number of entries.
    pub fn len(&self) -> (r: usize)
        ensures
            r == self@.len(),
    {
        self.entries.len()
    }

    /// The entry at position `i`.
    pub fn entry(&self, i: usize) -> (r: StakeEntry)
        requires
            i < self@.len(),
        ensures
            r == self@[i as int],
    {
        self.entries[i]
    }

    /// A copy of the ledger.
    pub fn copy(&self) -> (r: StakeLedger)
        ensures
            r@ == self@,
    {
        let mut entries: Vec<StakeEntry> = Vec::new();
        let mut i: usize = 0;
        while i < self.entries.len()
            invariant
                i <= self@.len(),
                entries@ == self@.take(i as int),
            decreases self@.len() - i,
        {
            entries.push(self.entries[i]);
            proof {
                assert(entries@ =~= self@.take(i + 1));
            }
            i = i + 1;
        }
        proof {
            assert(self@.take(self@.len() as int) =~= self@);
        }
        StakeLedger { entries }
    }

    /// The position of the entry of `c`, if any.
    fn find(&self, c: u64) -> (r: Option<usize>)
        requires
            self.wf(),
        ensures
            r.is_none() == !has_collator(self@, c),
            r.is_some() ==> r.unwrap() == position(self@, c) && (r.unwrap() as int) < self@.len(),
    {
        let mut i: usize = 0;
        while i < self.entries.len()
            invariant
                self.wf(),
                i <= self.entries.len(),
                forall|j: int| 0 <= j < i ==> #[trigger] self@[j].collator != c,
            decreases self.entries.len() - i,
        {
            if self.entries[i].collator == c {
                proof {
                    lemma_position(self@, c, i as int);
                }
                return Some(i);
            }
            i = i + 1;
        }
        None
    }

    /// The pool's stake with `c`, zero where it has none.
    pub fn stake_of(&self, c: u64) -> (r: u128)
        requires
            self.wf(),
        ensures
            r == stake_of(self@, c),
    {
        match self.find(c) {
            Some(i) => self.entries[i].amount,
            None => 0,
        }
    }

    /// Whether the pool has an entry for `c`.
    pub fn contains(&self, c: u64) -> (r: bool)
        requires
            self.wf(),
        ensures
            r == has_collator(self@, c),
    {
        self.find(c).is_some()
    }

    /// Whether the pool's delegation to `c` is being unbonded.
    pub fn is_unstaking(&self, c: u64) -> (r: bool)
        requires
            self.wf(),
        ensures
            r == is_unstaking(self@, c),
    {
        match self.find(c) {
            Some(i) => self.entries[i].unstaking_since.is_some(),
            None => false,
        }
    }

    /// Bonds `a` more to `c`.
    pub fn add_stake(&mut self, c: u64, a: u128)
        requires
            old(self).wf(),
            !is_unstaking(old(self)@, c),
            stake_of(old(self)@, c) + a <= u128::MAX,
        ensures
            final(self)@ == add_stake(old(self)@, c, a),
            final(self).wf(),
    {
        proof {
            lemma_add_stake(self@, c, a);
        }
        match self.find(c) {
            Some(i) => {
                let e = self.entries[i];
                self.entries.set(i, StakeEntry { amount: e.amount + a, ..e });
            },
            None => {
                self.entries.push(StakeEntry { collator: c, amount: a, unstaking_since: None });
            },
        }
    }

    /// Removes the entry of `c` and returns it.
    pub fn remove(&mut self, c: u64) -> (r: Option<StakeEntry>)
        requires
            old(self).wf(),
        ensures
            final(self)@ == remove_collator(old(self)@, c),
            final(self).wf(),
            r == if has_collator(old(self)@, c) {
                Some(old(self)@[position(old(self)@, c)])
            } else {
                None::<StakeEntry>
            },
    {
        proof {
            lemma_remove_collator(self@, c);
        }
        match self.find(c) {
            Some(i) => Some(self.entries.remove(i)),
            None => None,
        }
    }

    /// The bonded delegations that an unbond covering `need` would take, front to back.
    pub fn unstake_targets(&self, need: u128) -> (r: Vec<(u64, u128)>)
        ensures
            r@ == unstake_targets(self@, need),
    {
        let mut r: Vec<(u64, u128)> = Vec::new();
        let mut rem: u128 = need;
        let mut i: usize = 0;
        let n = self.entries.len();
        proof {
            assert(self@.subrange(0, n as int) =~= self@);
            assert(Seq::<(u64, u128)>::empty() + unstake_targets(self@, need) =~= unstake_targets(self@, need));
        }
        while i < n
            invariant
                n == self@.len(),
                i <= n,
                unstake_targets(self@, need) == r@ + unstake_targets(self@.subrange(i as int, n as int), rem),
            decreases n - i,
        {
            let e = self.entries[i];
            proof {
                let rest = self@.subrange(i as int, n as int);
                assert(rest[0] == e);
                assert(rest.subrange(1, rest.len() as int) =~= self@.subrange(i + 1, n as int));
            }
            if rem > 0 && e.unstaking_since.is_none() {
                r.push((e.collator, e.amount));
                rem = if e.amount >= rem {
                    0
                } else {
                    rem - e.amount
                };
                proof {
                    assert(r@ =~= r@.drop_last() + seq![(e.collator, e.amount)]);
                    assert(r@.drop_last() + (seq![(e.collator, e.amount)] + unstake_targets(self@.subrange(i + 1, n as int), rem))
                        =~= r@ + unstake_targets(self@.subrange(i + 1, n as int), rem));
                }
            }
            i = i + 1;
        }
        proof {
            assert(r@ + Seq::<(u64, u128)>::empty() =~= r@);
        }
        r
    }

    /// Marks the delegations of `unstake_targets(need)` as unbonding since `round`.
    pub fn schedule_unstake(&mut self, need: u128, round: u32)
        requires
            old(self).wf(),
        ensures
            final(self)@ == schedule_unstake(old(self)@, need, round),
            final(self).wf(),
    {
        proof {
            lemma_schedule_unstake(self@, need, round);
            lemma_same_shape(self@, schedule_unstake(self@, need, round));
        }
        let ghost s0 = self@;
        let mut rem: u128 = need;
        let mut i: usize = 0;
        let n = self.entries.len();
        proof {
            assert(s0.subrange(0, n as int) =~= s0);
            assert(self@.subrange(0, 0) + schedule_unstake(s0, need, round) =~= schedule_unstake(s0, need, round));
        }
        while i < n
            invariant
                n == s0.len(),
                n == self@.len(),
                i <= n,
                self@.subrange(i as int, n as int) == s0.subrange(i as int, n as int),
                schedule_unstake(s0, need, round) == self@.subrange(0, i as int) + schedule_unstake(
                    s0.subrange(i as int, n as int),
                    rem,
                    round,
                ),
                collators_unique(schedule_unstake(s0, need, round)),
            decreases n - i,
        {
            let e = self.entries[i];
            proof {
                let rest = s0.subrange(i as int, n as int);
                assert(rest[0] == self@.subrange(i as int, n as int)[0]);
                assert(rest[0] == e);
                assert(rest.subrange(1, rest.len() as int) =~= s0.subrange(i + 1, n as int));
            }
            let ghost before = self@;
            if rem > 0 && e.unstaking_since.is_none() {
                self.entries.set(i, StakeEntry { unstaking_since: Some(round), ..e });
                rem = if e.amount >= rem {
                    0
                } else {
                    rem - e.amount
                };
            } else {
                self.entries.set(i, e);
            }
            proof {
                assert(self@.subrange(0, i + 1) =~= before.subrange(0, i as int).push(self@[i as int]));
                assert(self@.subrange(i + 1, n as int) =~= before.subrange(i + 1, n as int));
                assert(before.subrange(i + 1, n as int) =~= s0.subrange(i + 1, n as int)) by {
                    assert(before.subrange(i as int, n as int).subrange(1, n - i) =~= before.subrange(i + 1, n as int));
                    assert(s0.subrange(i as int, n as int).subrange(1, n - i) =~= s0.subrange(i + 1, n as int));
                }
                assert(schedule_unstake(s0, need, round) =~= self@.subrange(0, i + 1) + schedule_unstake(
                    s0.subrange(i + 1, n as int),
                    rem,
                    round,
                ));
            }
            i = i + 1;
        }
        proof {
            assert(self@.subrange(0, n as int) =~= self@);
            assert(s0.subrange(n as int, n as int) =~= Seq::<StakeEntry>::empty());
            assert(schedule_unstake(s0, need, round) =~= self@);
        }
    }

    /// Marks every bonded delegation as unbonding since `round`.
    pub fn schedule_all(&mut self, round: u32)
        requires
            old(self).wf(),
        ensures
            final(self)@ == schedule_all(old(self)@, round),
            final(self).wf(),
    {
        proof {
            lemma_schedule_all(self@, round);
            lemma_same_shape(self@, schedule_all(self@, round));
        }
        let ghost s0 = self@;
        let mut i: usize = 0;
        let n = self.entries.len();
        while i < n
            invariant
                n == s0.len(),
                n == self@.len(),
                i <= n,
                forall|j: int| i <= j < n ==> #[trigger] self@[j] == s0[j],
                forall|j: int| 0 <= j < i ==> #[trigger] self@[j] == schedule_all(s0, round)[j],
            decreases n - i,
        {
            let e = self.entries[i];
            if e.unstaking_since.is_none() {
                self.entries.set(i, StakeEntry { unstaking_since: Some(round), ..e });
            }
            i = i + 1;
        }
        proof {
            assert(self@ =~= schedule_all(s0, round));
        }
    }

    /// The bonded stake.
    pub fn bonded_total(&self) -> (r: u128)
        requires
            self.wf(),
            bonded_total(self@) <= u128::MAX,
        ensures
            r == bonded_total(self@),
    {
        let mut t: u128 = 0;
        let mut i: usize = 0;
        let n = self.entries.len();
        proof {
            assert(self@.take(0) =~= Seq::<StakeEntry>::empty());
        }
        while i < n
            invariant
                n == self@.len(),
                i <= n,
                t == bonded_total(self@.take(i as int)),
                bonded_total(self@) <= u128::MAX,
            decreases n - i,
        {
            let e = self.entries[i];
            proof {
                assert(self@.take(i + 1).drop_last() =~= self@.take(i as int));
                lemma_sum_split(self@, i + 1, bonded_amount());
                lemma_sum_nonneg(self@.skip(i + 1), bonded_amount());
            }
            if e.unstaking_since.is_none() {
                t = t + e.amount;
            }
            i = i + 1;
        }
        proof {
            assert(self@.take(n as int) =~= self@);
        }
        t
    }

    /// The bonded delegations, in order.
    pub fn bonded_pairs(&self) -> (r: Vec<(u64, u128)>)
        ensures
            r@ == bonded_pairs(self@),
    {
        let mut r: Vec<(u64, u128)> = Vec::new();
        let mut i: usize = 0;
        let n = self.entries.len();
        proof {
            assert(self@.take(0) =~= Seq::<StakeEntry>::empty());
        }
        while i < n
            invariant
                n == self@.len(),
                i <= n,
                r@ == bonded_pairs(self@.take(i as int)),
            decreases n - i,
        {
            let e = self.entries[i];
            proof {
                assert(self@.take(i + 1).drop_last() =~= self@.take(i as int));
            }
            if e.unstaking_since.is_none() {
                r.push((e.collator, e.amount));
            }
            i = i + 1;
        }
        proof {
            assert(self@.take(n as int) =~= self@);
        }
        r
    }

    /// The collators whose delegation is being unbonded, in order.
    pub fn unstaking_collators(&self) -> (r: Vec<u64>)
        ensures
            r@ == unstaking_collators(self@),
    {
        let mut r: Vec<u64> = Vec::new();
        let mut i: usize = 0;
        let n = self.entries.len();
        proof {
            assert(self@.take(0) =~= Seq::<StakeEntry>::empty());
        }
        while i < n
            invariant
                n == self@.len(),
                i <= n,
                r@ == unstaking_collators(self@.take(i as int)),
            decreases n - i,
        {
            let e = self.entries[i];
            proof {
                assert(self@.take(i + 1).drop_last() =~= self@.take(i as int));
            }
            if e.unstaking_since.is_some() {
                r.push(e.collator);
            }
            i = i + 1;
        }
        proof {
            assert(self@.take(n as int) =~= self@);
        }
        r
    }

    /// The collators whose unbond is due by `round`, given the protocol's delay.
    pub fn due_collators(&self, round: u32, delay: u32) -> (r: Vec<u64>)
        ensures
            r@ == due_collators(self@, round, delay),
    {
        let mut r: Vec<u64> = Vec::new();
        let mut i: usize = 0;
        let n = self.entries.len();
        proof {
            assert(self@.take(0) =~= Seq::<StakeEntry>::empty());
        }
        while i < n
            invariant
                n == self@.len(),
                i <= n,
                r@ == due_collators(self@.take(i as int), round, delay),
            decreases n - i,
        {
            let e = self.entries[i];
            proof {
                assert(self@.take(i + 1).drop_last() =~= self@.take(i as int));
            }
            match e.unstaking_since {
                Some(since) => {
                    if since as u64 + delay as u64 <= round as u64 {
                        r.push(e.collator);
                    }
                },
                None => {},
            }
            i = i + 1;
        }
        proof {
            assert(self@.take(n as int) =~= self@);
        }
        r
    }
}

} // verus!
