//! Choosing the collator that receives new stake: the least-loaded eligible one, with ties
//! broken by a pseudo-random seed.
use vstd::prelude::*;

use crate::stake::{is_unstaking, stake_of, StakeEntry, StakeLedger};

verus! {

/// What the staking protocol reports of one candidate collator when stake is to be placed.
#[derive(Clone, Copy, Debug, PartialEq, Eq, Structural)]
pub struct CandidateSnapshot {
    pub collator: u64,
    /// All stake counted for the candidate.
    pub total_staked: u128,
    /// The smallest delegation among the candidate's top delegations.
    pub lowest_top_delegation: u128,
    /// The smallest delegation among the candidate's bottom delegations.
    pub lowest_bottom_delegation: u128,
    /// The candidate takes no further delegator unless it outbids the lowest bottom delegation.
    pub delegations_full: bool,
    /// The pool's account currently holds a delegation with this candidate. Where the pool's
    /// ledger records stake but the protocol no longer holds its delegation, new stake goes to
    /// the candidate as a fresh delegation rather than as more bond.
    pub pool_delegates: bool,
}

/// Candidate `c` may take `amount` more of the pool's stake: the pool is not unbonding from it,
/// and where its delegations are full the pool's resulting delegation outbids the lowest bottom
/// one. A candidate that pushed the pool out of its delegations stays eligible: the pool's record
/// there is stale until settlement, and the stake goes to it as a fresh delegation.
pub open spec fn eligible(s: Seq<StakeEntry>, c: CandidateSnapshot, amount: u128) -> bool {
    &&& !is_unstaking(s, c.collator)
    &&& (!c.delegations_full || stake_of(s, c.collator) + amount > c.lowest_bottom_delegation)
}

/// The smallest stake the pool holds with an eligible candidate of `cands`, if there is one.
pub open spec fn lowest_load(s: Seq<StakeEntry>, cands: Seq<CandidateSnapshot>, amount: u128) -> Option<u128>
    decreases cands.len(),
{
    if cands.len() == 0 {
        None
    } else {
        let prev = lowest_load(s, cands.drop_last(), amount);
        let c = cands.last();
        if eligible(s, c, amount) && (prev.is_none() || stake_of(s, c.collator) < prev.unwrap()) {
            Some(stake_of(s, c.collator))
        } else {
            prev
        }
    }
}

/// The eligible candidates of `cands` with load `load`, in order.
pub open spec fn tied(s: Seq<StakeEntry>, cands: Seq<CandidateSnapshot>, amount: u128, load: u128) -> Seq<
    CandidateSnapshot,
>
    decreases cands.len(),
{
    if cands.len() == 0 {
        Seq::empty()
    } else {
        let prev = tied(s, cands.drop_last(), amount, load);
        let c = cands.last();
        if eligible(s, c, amount) && stake_of(s, c.collator) == load {
            prev.push(c)
        } else {
            prev
        }
    }
}

/// The candidate chosen for `amount`: among the least-loaded eligible candidates, the one at
/// position `seed` modulo their number.
pub open spec fn chosen(s: Seq<StakeEntry>, cands: Seq<CandidateSnapshot>, amount: u128, seed: u64) -> Option<
    CandidateSnapshot,
> {
    match lowest_load(s, cands, amount) {
        None => None,
        Some(load) => {
            let t = tied(s, cands, amount, load);
            Some(t[(seed as int) % (t.len() as int)])
        },
    }
}

/// The collator of the chosen candidate.
pub open spec fn selected(s: Seq<StakeEntry>, cands: Seq<CandidateSnapshot>, amount: u128, seed: u64) -> Option<u64> {
    match chosen(s, cands, amount, seed) {
        None => None,
        Some(c) => Some(c.collator),
    }
}

/// The lowest load is that of some eligible candidate, and no eligible candidate has less.
pub proof fn lemma_lowest_load(s: Seq<StakeEntry>, cands: Seq<CandidateSnapshot>, amount: u128)
    ensures
        lowest_load(s, cands, amount).is_none() <==> forall|i: int|
            0 <= i < cands.len() ==> !eligible(s, #[trigger] cands[i], amount),
        lowest_load(s, cands, amount).is_some() ==> forall|i: int|
            0 <= i < cands.len() && eligible(s, #[trigger] cands[i], amount) ==> lowest_load(
                s,
                cands,
                amount,
            ).unwrap() <= stake_of(s, cands[i].collator),
        lowest_load(s, cands, amount).is_some() ==> tied(
            s,
            cands,
            amount,
            lowest_load(s, cands, amount).unwrap(),
        ).len() > 0,
    decreases cands.len(),
{
    if cands.len() > 0 {
        let d = cands.drop_last();
        lemma_lowest_load(s, d, amount);
        let prev = lowest_load(s, d, amount);
        let c = cands.last();
        let cur = lowest_load(s, cands, amount);
        assert(cands[cands.len() - 1] == c);
        assert forall|i: int| 0 <= i < d.len() implies #[trigger] cands[i] == d[i] by {}
        if cur.is_none() {
            assert forall|i: int| 0 <= i < cands.len() implies !eligible(s, #[trigger] cands[i], amount) by {
                if i < d.len() {
                    assert(cands[i] == d[i]);
                }
            }
        } else {
            assert forall|i: int|
                0 <= i < cands.len() && eligible(s, #[trigger] cands[i], amount) implies cur.unwrap()
                    <= stake_of(s, cands[i].collator) by {
                if i < d.len() {
                    assert(cands[i] == d[i]);
                }
            }
        }
        if eligible(s, c, amount) && (prev.is_none() || stake_of(s, c.collator) < prev.unwrap()) {
        } else if prev.is_some() {
            lemma_tied_grows(s, cands, amount, prev.unwrap());
        }
    }
}

/// `tied` only grows when a candidate is appended.
proof fn lemma_tied_grows(s: Seq<StakeEntry>, cands: Seq<CandidateSnapshot>, amount: u128, load: u128)
    requires
        cands.len() > 0,
    ensures
        tied(s, cands, amount, load).len() >= tied(s, cands.drop_last(), amount, load).len(),
{
}

/// Every tied collator belongs to an eligible candidate with that load.
pub proof fn lemma_tied_members(s: Seq<StakeEntry>, cands: Seq<CandidateSnapshot>, amount: u128, load: u128)
    ensures
        forall|k: int|
            0 <= k < tied(s, cands, amount, load).len() ==> exists|i: int|
                0 <= i < cands.len() && eligible(s, #[trigger] cands[i], amount) && cands[i]
                    == #[trigger] tied(s, cands, amount, load)[k] && stake_of(s, cands[i].collator)
                    == load,
    decreases cands.len(),
{
    if cands.len() > 0 {
        let d = cands.drop_last();
        lemma_tied_members(s, d, amount, load);
        let t = tied(s, cands, amount, load);
        let td = tied(s, d, amount, load);
        assert forall|k: int| 0 <= k < t.len() implies exists|i: int|
            0 <= i < cands.len() && eligible(s, #[trigger] cands[i], amount) && cands[i]
                == #[trigger] t[k] && stake_of(s, cands[i].collator) == load by {
            if k < td.len() {
                assert(t[k] == td[k]);
                let i = choose|i: int|
                    0 <= i < d.len() && eligible(s, #[trigger] d[i], amount) && d[i]
                        == #[trigger] td[k] && stake_of(s, d[i].collator) == load;
                assert(cands[i] == d[i]);
            } else {
                assert(cands[cands.len() - 1] == cands.last());
            }
        }
    }
}

/// The chosen collator belongs to an eligible candidate, and no eligible candidate carries less
/// of the pool's stake; nothing is chosen exactly when no candidate is eligible.
pub proof fn lemma_selected(s: Seq<StakeEntry>, cands: Seq<CandidateSnapshot>, amount: u128, seed: u64)
    ensures
        chosen(s, cands, amount, seed).is_some() ==> exists|i: int|
            0 <= i < cands.len() && eligible(s, #[trigger] cands[i], amount) && cands[i] == chosen(
                s,
                cands,
                amount,
                seed,
            ).unwrap(),
        selected(s, cands, amount, seed).is_none() <==> forall|i: int|
            0 <= i < cands.len() ==> !eligible(s, #[trigger] cands[i], amount),
        selected(s, cands, amount, seed).is_some() ==> exists|i: int|
            0 <= i < cands.len() && eligible(s, #[trigger] cands[i], amount) && cands[i].collator
                == selected(s, cands, amount, seed).unwrap(),
        selected(s, cands, amount, seed).is_some() ==> !is_unstaking(s, selected(s, cands, amount, seed).unwrap()),
        selected(s, cands, amount, seed).is_some() ==> forall|i: int|
            0 <= i < cands.len() && eligible(s, #[trigger] cands[i], amount) ==> stake_of(
                s,
                selected(s, cands, amount, seed).unwrap(),
            ) <= stake_of(s, cands[i].collator),
{
    lemma_lowest_load(s, cands, amount);
    if let Some(load) = lowest_load(s, cands, amount) {
        let t = tied(s, cands, amount, load);
        lemma_tied_members(s, cands, amount, load);
        let k = (seed as int) % (t.len() as int);
        let i = choose|i: int|
            0 <= i < cands.len() && eligible(s, #[trigger] cands[i], amount) && cands[i]
                == #[trigger] t[k] && stake_of(s, cands[i].collator) == load;
        assert(chosen(s, cands, amount, seed) == Some(t[k]));
        assert(selected(s, cands, amount, seed) == Some(t[k].collator));
    }
}

/// Whether `c` may take `amount` more of the pool's stake.
pub fn is_eligible(stake: &StakeLedger, c: &CandidateSnapshot, amount: u128) -> (r: bool)
    requires
        stake.wf(),
    ensures
        r == eligible(stake@, *c, amount),
{
    if stake.is_unstaking(c.collator) {
        return false;
    }
    if c.delegations_full {
        let v = stake.stake_of(c.collator);
        v > c.lowest_bottom_delegation || amount > c.lowest_bottom_delegation - v
    } else {
        true
    }
}

/// Picks the candidate that receives `amount`: the eligible candidate with the least stake from
/// the pool (none counts as zero), ties broken by `seed`. `None` when no candidate is eligible.
pub fn select_collator(stake: &StakeLedger, cands: &Vec<CandidateSnapshot>, amount: u128, seed: u64) -> (r: Option<
    CandidateSnapshot,
>)
    requires
        stake.wf(),
    ensures
        r == chosen(stake@, cands@, amount, seed),
        r.is_none() <==> forall|i: int| 0 <= i < cands@.len() ==> !eligible(stake@, #[trigger] cands@[i], amount),
        r.is_some() ==> exists|i: int|
            0 <= i < cands@.len() && eligible(stake@, #[trigger] cands@[i], amount) && cands@[i] == r.unwrap(),
        r.is_some() ==> forall|i: int|
            0 <= i < cands@.len() && eligible(stake@, #[trigger] cands@[i], amount) ==> stake_of(
                stake@,
                r.unwrap().collator,
            ) <= stake_of(stake@, cands@[i].collator),
{
    let n = cands.len();
    let mut lowest: Option<u128> = None;
    let mut i: usize = 0;
    proof {
        assert(cands@.take(0) =~= Seq::<CandidateSnapshot>::empty());
    }
    while i < n
        invariant
            stake.wf(),
            n == cands@.len(),
            i <= n,
            lowest == lowest_load(stake@, cands@.take(i as int), amount),
        decreases n - i,
    {
        let c = &cands[i];
        proof {
            assert(cands@.take(i + 1).drop_last() =~= cands@.take(i as int));
        }
        if is_eligible(stake, c, amount) {
            let v = stake.stake_of(c.collator);
            match lowest {
                None => {
                    lowest = Some(v);
                },
                Some(l) => {
                    if v < l {
                        lowest = Some(v);
                    }
                },
            }
        }
        i = i + 1;
    }
    proof {
        assert(cands@.take(n as int) =~= cands@);
        lemma_lowest_load(stake@, cands@, amount);
    }
    match lowest {
        None => None,
        Some(load) => {
            let mut t: Vec<CandidateSnapshot> = Vec::new();
            let mut j: usize = 0;
            while j < n
                invariant
                    stake.wf(),
                    n == cands@.len(),
                    j <= n,
                    t@ == tied(stake@, cands@.take(j as int), amount, load),
                decreases n - j,
            {
                let c = &cands[j];
                proof {
                    assert(cands@.take(j + 1).drop_last() =~= cands@.take(j as int));
                }
                if is_eligible(stake, c, amount) && stake.stake_of(c.collator) == load {
                    t.push(*c);
                }
                j = j + 1;
            }
            proof {
                assert(cands@.take(n as int) =~= cands@);
                lemma_tied_members(stake@, cands@, amount, load);
            }
            let k = (seed % (t.len() as u64)) as usize;
            proof {
                lemma_selected(stake@, cands@, amount, seed);
            }
            Some(t[k])
        },
    }
}

} // verus!
