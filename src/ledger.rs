//! A keyed balance store: each account holds one balance, kept in insertion order.
use vstd::prelude::*;

use crate::sums::{
    lemma_sum_cons, lemma_sum_ge_element, lemma_sum_nonneg, lemma_sum_push, lemma_sum_take_next,
    lemma_sum_update, sum_by,
};

verus! {

/// The weight of a balance entry: its amount.
pub open spec fn entry_amount() -> spec_fn((u64, u128)) -> int {
    |e: (u64, u128)| e.1 as int
}

/// No key occurs twice.
pub open spec fn keys_unique(s: Seq<(u64, u128)>) -> bool {
    forall|i: int, j: int|
        0 <= i < s.len() && 0 <= j < s.len() && i != j ==> #[trigger] s[i].0 != #[trigger] s[j].0
}

/// Some entry has key `k`.
pub open spec fn has_key(s: Seq<(u64, u128)>, k: u64) -> bool {
    exists|i: int| 0 <= i < s.len() && #[trigger] s[i].0 == k
}

/// The position of the entry with key `k`, where there is one.
pub open spec fn index_of(s: Seq<(u64, u128)>, k: u64) -> int {
    choose|i: int| 0 <= i < s.len() && #[trigger] s[i].0 == k
}

/// The balance held under `k`; zero where there is no entry.
pub open spec fn value_of(s: Seq<(u64, u128)>, k: u64) -> u128 {
    if has_key(s, k) {
        s[index_of(s, k)].1
    } else {
        0
    }
}

/// The sum of all balances.
pub open spec fn total(s: Seq<(u64, u128)>) -> int {
    sum_by(s, entry_amount())
}

/// `s` with `a` added to the balance of `k`; a new entry goes at the end.
pub open spec fn credit(s: Seq<(u64, u128)>, k: u64, a: u128) -> Seq<(u64, u128)> {
    if has_key(s, k) {
        s.update(index_of(s, k), (k, (value_of(s, k) + a) as u128))
    } else {
        s.push((k, a))
    }
}

/// `s` with `a` taken from the balance of `k`; the entry stays, also at zero.
pub open spec fn debit(s: Seq<(u64, u128)>, k: u64, a: u128) -> Seq<(u64, u128)> {
    if has_key(s, k) {
        s.update(index_of(s, k), (k, (value_of(s, k) - a) as u128))
    } else {
        s
    }
}

/// In a store with unique keys, the entry found with key `k` is the one `index_of` names.
pub proof fn lemma_index_of(s: Seq<(u64, u128)>, k: u64, i: int)
    requires
        keys_unique(s),
        0 <= i < s.len(),
        s[i].0 == k,
    ensures
        has_key(s, k),
        index_of(s, k) == i,
        value_of(s, k) == s[i].1,
{
    assert(has_key(s, k));
    let j = index_of(s, k);
    assert(s[j].0 == k);
}

/// No balance exceeds the total.
pub proof fn lemma_value_le_total(s: Seq<(u64, u128)>, k: u64)
    ensures
        value_of(s, k) <= total(s),
        0 <= total(s),
{
    lemma_sum_nonneg(s, entry_amount());
    if has_key(s, k) {
        let i = index_of(s, k);
        lemma_sum_ge_element(s, i, entry_amount());
    }
}

/// What crediting does to keys, balances and the total.
pub proof fn lemma_credit(s: Seq<(u64, u128)>, k: u64, a: u128)
    requires
        keys_unique(s),
        value_of(s, k) + a <= u128::MAX,
    ensures
        keys_unique(credit(s, k, a)),
        has_key(credit(s, k, a), k),
        value_of(credit(s, k, a), k) == value_of(s, k) + a,
        forall|j: u64| j != k ==> value_of(#[trigger] credit(s, k, a), j) == value_of(s, j),
        forall|j: u64| j != k ==> has_key(#[trigger] credit(s, k, a), j) == has_key(s, j),
        total(credit(s, k, a)) == total(s) + a,
{
    let t = credit(s, k, a);
    if has_key(s, k) {
        let i = index_of(s, k);
        lemma_sum_update(s, i, (k, (value_of(s, k) + a) as u128), entry_amount());
        assert(keys_unique(t));
        lemma_index_of(t, k, i);
        assert forall|j: u64| j != k implies value_of(t, j) == value_of(s, j) && has_key(t, j)
            == has_key(s, j) by {
            if has_key(s, j) {
                let m = index_of(s, j);
                lemma_index_of(t, j, m);
            }
            if has_key(t, j) {
                let m = index_of(t, j);
                assert(s[m].0 == j);
            }
        }
    } else {
        lemma_sum_push(s, (k, a), entry_amount());
        assert(keys_unique(t));
        lemma_index_of(t, k, s.len() as int);
        assert forall|j: u64| j != k implies value_of(t, j) == value_of(s, j) && has_key(t, j)
            == has_key(s, j) by {
            if has_key(s, j) {
                let m = index_of(s, j);
                lemma_index_of(t, j, m);
            }
            if has_key(t, j) {
                let m = index_of(t, j);
                assert(s[m].0 == j);
            }
        }
    }
}

/// What debiting does to keys, balances and the total.
pub proof fn lemma_debit(s: Seq<(u64, u128)>, k: u64, a: u128)
    requires
        keys_unique(s),
        a <= value_of(s, k),
    ensures
        keys_unique(debit(s, k, a)),
        value_of(debit(s, k, a), k) == value_of(s, k) - a,
        forall|j: u64| j != k ==> value_of(#[trigger] debit(s, k, a), j) == value_of(s, j),
        forall|j: u64| has_key(#[trigger] debit(s, k, a), j) == has_key(s, j),
        total(debit(s, k, a)) == total(s) - a,
{
    let t = debit(s, k, a);
    if has_key(s, k) {
        let i = index_of(s, k);
        lemma_sum_update(s, i, (k, (value_of(s, k) - a) as u128), entry_amount());
        assert(keys_unique(t));
        lemma_index_of(t, k, i);
        assert forall|j: u64| #![auto] has_key(t, j) == has_key(s, j) && (j != k ==> value_of(t, j)
            == value_of(s, j)) by {
            if has_key(s, j) {
                let m = index_of(s, j);
                lemma_index_of(s, j, m);
                assert(t[m].0 == j);
                lemma_index_of(t, j, m);
            }
            if has_key(t, j) {
                let m = index_of(t, j);
                assert(s[m].0 == j);
            }
        }
    }
}

/// The key whose stretch of the cumulative balances, laid end to end in order, covers
/// position `pos`.
pub open spec fn owner_at(s: Seq<(u64, u128)>, pos: int) -> Option<u64>
    decreases s.len(),
{
    if s.len() == 0 {
        None
    } else if pos < s[0].1 {
        Some(s[0].0)
    } else {
        owner_at(s.subrange(1, s.len() as int), pos - s[0].1)
    }
}

/// A position inside the total belongs to some key with a positive balance.
pub proof fn lemma_owner_at(s: Seq<(u64, u128)>, pos: int)
    requires
        0 <= pos < total(s),
    ensures
        owner_at(s, pos).is_some(),
        exists|i: int| 0 <= i < s.len() && #[trigger] s[i].0 == owner_at(s, pos).unwrap() && s[i].1 > 0,
    decreases s.len(),
{
    let rest = s.subrange(1, s.len() as int);
    if s.len() == 0 {
        assert(total(s) == 0);
    } else {
        assert(s =~= seq![s[0]] + rest);
        lemma_sum_cons(s[0], rest, entry_amount());
        if pos >= s[0].1 {
            lemma_owner_at(rest, pos - s[0].1);
            let i = choose|i: int| 0 <= i < rest.len() && #[trigger] rest[i].0 == owner_at(rest, pos - s[0].1).unwrap() && rest[i].1 > 0;
            assert(s[i + 1] == rest[i]);
        } else {
            assert(s[0].1 > 0);
        }
    }
}

/// A keyed balance store with unique keys, in insertion order.
pub struct BalanceMap {
    entries: Vec<(u64, u128)>,
}

impl View for BalanceMap {
    type V = Seq<(u64, u128)>;

    closed spec fn view(&self) -> Seq<(u64, u128)> {
        self.entries@
    }
}

impl BalanceMap {
    /// Keys are unique.
    pub open spec fn wf(&self) -> bool {
        keys_unique(self@)
    }

    /// An empty store.
    pub fn new() -> (r: BalanceMap)
        ensures
            r@ == Seq::<(u64, u128)>::empty(),
            r.wf(),
    {
        BalanceMap { entries: Vec::new() }
    }

    /// The position of the entry with key `k`, if any.
    fn find(&self, k: u64) -> (r: Option<usize>)
        requires
            self.wf(),
        ensures
            r.is_none() == !has_key(self@, k),
            r.is_some() ==> r.unwrap() == index_of(self@, k) && (r.unwrap() as int) < self@.len(),
    {
        let mut i: usize = 0;
        while i < self.entries.len()
            invariant
                self.wf(),
                i <= self.entries.len(),
                forall|j: int| 0 <= j < i ==> #[trigger] self@[j].0 != k,
            decreases self.entries.len() - i,
        {
            if self.entries[i].0 == k {
                proof {
                    lemma_index_of(self@, k, i as int);
                }
                return Some(i);
            }
            i = i + 1;
        }
        None
    }

    /// A copy of the store.
    pub fn copy(&self) -> (r: BalanceMap)
        ensures
            r@ == self@,
    {
        let mut entries: Vec<(u64, u128)> = Vec::new();
        let mut i: usize = 0;
        while i < self.entries.len()
            invariant
                i <= self@.len(),
                entries@ == self@.take(i as int),
            decreases self@.len() - i,
        {
            entries.push(self.entries[i]);
            proof {
                assert(entries@ =~= self@.take(i + 1));
            }
            i = i + 1;
        }
        proof {
            assert(self@.take(self@.len() as int) =~= self@);
        }
        BalanceMap { entries }
    }

    /// The balance held under `k`, zero where there is none.
    pub fn get(&self, k: u64) -> (r: u128)
        requires
            self.wf(),
        ensures
            r == value_of(self@, k),
    {
        match self.find(k) {
            Some(i) => self.entries[i].1,
            None => 0,
        }
    }

    /// Whether an entry with key `k` exists.
    pub fn contains(&self, k: u64) -> (r: bool)
        requires
            self.wf(),
        ensures
            r == has_key(self@, k),
    {
        self.find(k).is_some()
    }

    /// The number of entries.
    pub fn len(&self) -> (r: usize)
        ensures
            r == self@.len(),
    {
        self.entries.len()
    }

    /// The entry at position `i`.
    pub fn entry(&self, i: usize) -> (r: (u64, u128))
        requires
            i < self@.len(),
        ensures
            r == self@[i as int],
    {
        self.entries[i]
    }

    /// The key whose stretch of the cumulative balances covers position `pos`.
    pub fn owner_at(&self, pos: u128) -> (r: Option<u64>)
        requires
            total(self@) <= u128::MAX,
        ensures
            r == owner_at(self@, pos as int),
    {
        let n = self.entries.len();
        let mut i: usize = 0;
        let mut acc: u128 = 0;
        proof {
            assert(self@.subrange(0, n as int) =~= self@);
            assert(self@.take(0) =~= Seq::<(u64, u128)>::empty());
        }
        while i < n
            invariant
                n == self@.len(),
                i <= n,
                acc <= pos,
                acc == total(self@.take(i as int)),
                total(self@) <= u128::MAX,
                owner_at(self@, pos as int) == owner_at(self@.subrange(i as int, n as int), pos - acc),
            decreases n - i,
        {
            let e = self.entries[i];
            proof {
                let rest = self@.subrange(i as int, n as int);
                assert(rest[0] == e);
                assert(rest.subrange(1, rest.len() as int) =~= self@.subrange(i + 1, n as int));
                lemma_sum_take_next(self@, i as int, entry_amount());
                crate::sums::lemma_sum_split(self@, i + 1, entry_amount());
                lemma_sum_nonneg(self@.skip(i + 1), entry_amount());
            }
            if pos - acc < e.1 {
                return Some(e.0);
            }
            acc = acc + e.1;
            i = i + 1;
        }
        None
    }

    /// Adds `a` to the balance of `k`.
    pub fn credit(&mut self, k: u64, a: u128)
        requires
            old(self).wf(),
            value_of(old(self)@, k) + a <= u128::MAX,
        ensures
            final(self)@ == credit(old(self)@, k, a),
            final(self).wf(),
    {
        proof {
            lemma_credit(self@, k, a);
        }
        match self.find(k) {
            Some(i) => {
                let v = self.entries[i].1;
                self.entries.set(i, (k, v + a));
            },
            None => {
                self.entries.push((k, a));
            },
        }
    }

    /// Takes `a` from the balance of `k`.
    pub fn debit(&mut self, k: u64, a: u128)
        requires
            old(self).wf(),
            a <= value_of(old(self)@, k),
        ensures
            final(self)@ == debit(old(self)@, k, a),
            final(self).wf(),
    {
        proof {
            lemma_debit(self@, k, a);
        }
        match self.find(k) {
            Some(i) => {
                let v = self.entries[i].1;
                self.entries.set(i, (k, v - a));
            },
            None => {},
        }
    }
}

} // verus!
