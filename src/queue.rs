//! The withdrawal request queue: first in, first paid.
use vstd::prelude::*;

use crate::sums::{lemma_sum_nonneg, lemma_sum_take_next, sum_by};

verus! {

/// A request to pay `amount` back to `account` once round `matures_at_round` has begun.
#[derive(Clone, Copy, Debug, PartialEq, Eq, Structural)]
pub struct WithdrawalRequest {
    pub account: u64,
    pub amount: u128,
    pub matures_at_round: u32,
}

/// Weight of a request: its amount.
pub open spec fn request_amount() -> spec_fn(WithdrawalRequest) -> int {
    |r: WithdrawalRequest| r.amount as int
}

/// The amount that the requests of `q` are owed.
pub open spec fn queued_sum(q: Seq<WithdrawalRequest>) -> int {
    sum_by(q, request_amount())
}

/// How many requests at the front of `q` can be paid in round `round` out of `funds`: the front
/// request is paid when it has matured and the funds cover it, and the first one that cannot be
/// paid holds back every request behind it.
pub open spec fn payable_len(q: Seq<WithdrawalRequest>, round: u32, funds: int) -> nat
    decreases q.len(),
{
    if q.len() > 0 && q[0].matures_at_round <= round && q[0].amount <= funds {
        1 + payable_len(q.subrange(1, q.len() as int), round, funds - q[0].amount)
    } else {
        0
    }
}

/// The requests of `account` in `q` that have not matured by `round`.
pub open spec fn pending_count(q: Seq<WithdrawalRequest>, account: u64, round: u32) -> nat
    decreases q.len(),
{
    if q.len() == 0 {
        0
    } else {
        pending_count(q.drop_last(), account, round) + if q.last().account == account
            && q.last().matures_at_round > round {
            1nat
        } else {
            0nat
        }
    }
}

/// The payable prefix fits in `q`, has matured, and its total is covered by `funds`.
pub proof fn lemma_payable_len(q: Seq<WithdrawalRequest>, round: u32, funds: int)
    requires
        funds >= 0,
    ensures
        payable_len(q, round, funds) <= q.len(),
        queued_sum(q.take(payable_len(q, round, funds) as int)) <= funds,
        forall|i: int|
            0 <= i < payable_len(q, round, funds) ==> (#[trigger] q[i]).matures_at_round <= round,
        payable_len(q, round, funds) < q.len() ==> q[payable_len(q, round, funds) as int].matures_at_round
            > round || queued_sum(q.take(payable_len(q, round, funds) as int + 1)) > funds,
    decreases q.len(),
{
    lemma_sum_nonneg(q.take(0), request_amount());
    assert(q.take(0) =~= Seq::<WithdrawalRequest>::empty());
    if q.len() > 0 && q[0].matures_at_round <= round && q[0].amount <= funds {
        let rest = q.subrange(1, q.len() as int);
        let f2 = funds - q[0].amount;
        lemma_payable_len(rest, round, f2);
        let k = payable_len(q, round, funds) as int;
        lemma_prefix_sum_shift(q, k);
        if k < q.len() {
            lemma_prefix_sum_shift(q, k + 1);
        }
        assert forall|i: int| 0 <= i < k implies (#[trigger] q[i]).matures_at_round <= round by {
            if i > 0 {
                assert(q[i] == rest[i - 1]);
            }
        }
        if k < q.len() {
            assert(q[k] == rest[k - 1]);
        }
    } else if q.len() > 0 {
        lemma_prefix_sum_shift(q, 1);
        assert(q.subrange(1, q.len() as int).take(0) =~= Seq::<WithdrawalRequest>::empty());
    }
}

/// A prefix sum of `q` is its first amount plus a prefix sum of the rest.
proof fn lemma_prefix_sum_shift(q: Seq<WithdrawalRequest>, k: int)
    requires
        1 <= k <= q.len(),
    ensures
        queued_sum(q.take(k)) == q[0].amount + queued_sum(q.subrange(1, q.len() as int).take(k - 1)),
    decreases k,
{
    let rest = q.subrange(1, q.len() as int);
    if k == 1 {
        assert(q.take(1).drop_last() =~= Seq::<WithdrawalRequest>::empty());
        assert(rest.take(0) =~= Seq::<WithdrawalRequest>::empty());
    } else {
        lemma_prefix_sum_shift(q, k - 1);
        lemma_sum_take_next(q, k - 1, request_amount());
        lemma_sum_take_next(rest, k - 2, request_amount());
        assert(q[k - 1] == rest[k - 2]);
    }
}

/// The number of requests at the front of `q` payable in `round` out of `funds`, and their total.
pub fn payable_prefix(q: &Vec<WithdrawalRequest>, round: u32, funds: u128) -> (r: (usize, u128))
    ensures
        r.0 == payable_len(q@, round, funds as int),
        r.1 == queued_sum(q@.take(r.0 as int)),
{
    let n = q.len();
    let mut i: usize = 0;
    let mut paid: u128 = 0;
    proof {
        assert(q@.take(0) =~= Seq::<WithdrawalRequest>::empty());
        assert(q@.subrange(0, n as int) =~= q@);
    }
    while i < n && q[i].matures_at_round <= round && q[i].amount <= funds - paid
        invariant
            n == q@.len(),
            i <= n,
            paid <= funds,
            paid == queued_sum(q@.take(i as int)),
            payable_len(q@, round, funds as int) == i + payable_len(
                q@.subrange(i as int, n as int),
                round,
                funds - paid,
            ),
        decreases n - i,
    {
        proof {
            let rest = q@.subrange(i as int, n as int);
            assert(rest[0] == q@[i as int]);
            assert(rest.subrange(1, rest.len() as int) =~= q@.subrange(i + 1, n as int));
            lemma_sum_take_next(q@, i as int, request_amount());
        }
        paid = paid + q[i].amount;
        i = i + 1;
    }
    proof {
        let rest = q@.subrange(i as int, n as int);
        if i < n {
            assert(rest[0] == q@[i as int]);
        }
    }
    (i, paid)
}

/// The number of requests of `account` in `q` that have not matured by `round`.
pub fn count_pending(q: &Vec<WithdrawalRequest>, account: u64, round: u32) -> (r: u64)
    ensures
        r == pending_count(q@, account, round),
{
    let n = q.len();
    let mut i: usize = 0;
    let mut count: u64 = 0;
    proof {
        assert(q@.take(0) =~= Seq::<WithdrawalRequest>::empty());
    }
    while i < n
        invariant
            n == q@.len(),
            i <= n,
            count <= i,
            count == pending_count(q@.take(i as int), account, round),
        decreases n - i,
    {
        proof {
            assert(q@.take(i + 1).drop_last() =~= q@.take(i as int));
        }
        if q[i].account == account && q[i].matures_at_round > round {
            count = count + 1;
        }
        i = i + 1;
    }
    proof {
        assert(q@.take(n as int) =~= q@);
    }
    count
}

} // verus!
