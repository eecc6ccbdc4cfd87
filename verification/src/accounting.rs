//! Where the payloads go: a call neither makes payloads up nor hands one
//! out more often than it came in.

use crate::guarantees::{lemma_slot, lemma_subrange_well_formed, of_sender, well_formed};
use crate::ordering::{
    lemma_run_len, order, order_from, pooled, run_len, slot, splice, step, CacheView, Lookup,
};
use crate::payload::PayloadView;
use vstd::prelude::*;
use vstd::seq_lib::{
    lemma_multiset_commutative, to_multiset_contains, to_multiset_insert, to_multiset_remove,
};

verus! {

/// How often a payload stands in a sequence.
pub open spec fn times(s: Seq<PayloadView>, v: PayloadView) -> nat {
    s.to_multiset().count(v)
}

/// How often a payload is at hand: in the buffer and in the pool of its
/// sender, taken together.
pub open spec fn held(cache: CacheView, buffer: Seq<PayloadView>, v: PayloadView) -> nat {
    times(buffer, v) + times(cache.pending(v.roster_idx), v)
}

/// Two sequences joined hold a payload as often as both together.
pub proof fn lemma_times_add(a: Seq<PayloadView>, b: Seq<PayloadView>, v: PayloadView)
    ensures
        times(a + b, v) == times(a, v) + times(b, v),
{
    broadcast use vstd::multiset::group_multiset_axioms;

    lemma_multiset_commutative(a, b);
}

/// A sequence holds a payload as often as its two parts together.
pub proof fn lemma_times_split(s: Seq<PayloadView>, k: int, v: PayloadView)
    requires
        0 <= k <= s.len(),
    ensures
        times(s, v) == times(s.subrange(0, k), v) + times(s.subrange(k, s.len() as int), v),
{
    assert(s =~= s.subrange(0, k) + s.subrange(k, s.len() as int));
    lemma_times_add(s.subrange(0, k), s.subrange(k, s.len() as int), v);
}

/// A buffer with a chunk put in holds a payload as often as both together.
pub proof fn lemma_times_splice(
    buffer: Seq<PayloadView>,
    chunk: Seq<PayloadView>,
    index: int,
    v: PayloadView,
)
    requires
        0 <= index,
    ensures
        times(splice(buffer, chunk, index), v) == times(buffer, v) + times(chunk, v),
{
    let at = if index <= buffer.len() {
        index
    } else {
        buffer.len() as int
    };
    let head = buffer.subrange(0, at);
    let tail = buffer.subrange(at, buffer.len() as int);
    lemma_times_split(buffer, at, v);
    lemma_times_add(head + chunk, tail, v);
    lemma_times_add(head, chunk, v);
}

/// Taking the first payload equal to `x` out of a sequence takes one `x`
/// away, if there is one, and nothing else.
pub proof fn lemma_times_remove_value(s: Seq<PayloadView>, x: PayloadView, v: PayloadView)
    ensures
        times(s.remove_value(x), v) == if s.contains(x) && x == v {
            (times(s, v) - 1) as nat
        } else {
            times(s, v)
        },
        s.contains(x) ==> times(s, x) > 0,
{
    broadcast use vstd::multiset::group_multiset_axioms;

    s.index_of_first_ensures(x);
    to_multiset_contains(s, x);
    if let Some(i) = s.index_of_first(x) {
        to_multiset_remove(s, i);
    }
}

/// A pool that a payload entered holds one more of it, and nothing else
/// more or less.
pub proof fn lemma_times_pooled(s: Seq<PayloadView>, x: PayloadView, v: PayloadView)
    ensures
        times(pooled(s, x), v) == if x == v {
            times(s, v) + 1
        } else {
            times(s, v)
        },
{
    broadcast use vstd::multiset::group_multiset_axioms;

    lemma_slot(s, x, 0);
    to_multiset_insert(s, slot(s, x, 0), x);
}

/// A sequence of one payload holds that payload once and no other.
pub proof fn lemma_times_one(x: PayloadView, v: PayloadView)
    ensures
        times(seq![x], v) == if x == v {
            1nat
        } else {
            0nat
        },
{
    broadcast use vstd::multiset::group_multiset_axioms;

    let none = Seq::<PayloadView>::empty();
    to_multiset_contains(none, v);
    to_multiset_insert(none, 0, x);
    assert(none.insert(0, x) =~= seq![x]);
}

/// A pool of one sender holds no payload of another.
pub proof fn lemma_times_other_sender(s: Seq<PayloadView>, r: u32, v: PayloadView)
    requires
        of_sender(s, r),
        v.roster_idx != r,
    ensures
        times(s, v) == 0,
{
    to_multiset_contains(s, v);
    if s.contains(v) {
        let i = choose|i: int| 0 <= i < s.len() && s[i] == v;
        assert(s[i].roster_idx == r);
    }
}

/// One observed payload, which is still in the buffer, leaves every payload
/// at hand at most as often as before, and takes nothing out of the buffer
/// but, at most once, itself.
pub proof fn lemma_step_accounts(
    cache: CacheView,
    buffer: Seq<PayloadView>,
    curr: PayloadView,
    index: int,
    max: u32,
    v: PayloadView,
)
    requires
        well_formed(cache),
        buffer.contains(curr),
        0 <= index,
    ensures
        held(
            step(cache, buffer, curr, index, max).cache,
            step(cache, buffer, curr, index, max).buffer,
            v,
        ) <= held(cache, buffer, v),
        times(step(cache, buffer, curr, index, max).buffer, v) + (if curr == v {
            1nat
        } else {
            0nat
        }) >= times(buffer, v),
{
    let r = curr.roster_idx;
    let q = v.roster_idx;
    let seen = cache.observe(r);
    let next = step(cache, buffer, curr, index, max);
    assert(seen.pending(q) == cache.pending(q));
    if seen.is_next_msg(curr) {
        assert(next.cache.pending(q) == cache.pending(q));
    } else {
        let kind = seen.lookup(r, max);
        let asked = seen.after_lookup(r, max);
        let run = seen.found(r, max);
        let pool = cache.pending(r);
        // what the pool gave up and what it kept are what it held
        if kind != Lookup::Missing {
            assert(cache.pool.contains_key(r));
            lemma_run_len(pool);
            lemma_times_split(pool, run_len(pool), v);
            lemma_subrange_well_formed(pool, r, 0, run_len(pool));
            assert(run == pool.subrange(0, run_len(pool)));
            assert(asked.pending(r) == pool.subrange(run_len(pool), pool.len() as int));
            if q != r {
                lemma_times_other_sender(run, r, v);
                assert(asked.pending(q) == cache.pending(q));
            }
        } else {
            assert(asked.pending(q) == cache.pending(q));
            assert(run.len() == 0);
            assert(run.to_multiset().count(v) == 0) by {
                to_multiset_contains(run, v);
            }
        }
        let stashed = asked.stash(curr);
        lemma_times_pooled(asked.pending(r), curr, v);
        assert(times(stashed.pending(q), v) <= times(asked.pending(q), v) + (if curr == v {
            1nat
        } else {
            0nat
        }));
        lemma_times_remove_value(buffer, curr, v);
        let without = buffer.remove_value(curr);
        lemma_times_splice(buffer, run, index, v);
        lemma_times_splice(without, run, index, v);
        assert(stashed.record(curr).pending(q) == stashed.pending(q));
        assert(asked.record(curr).pending(q) == asked.pending(q));
    }
}

/// The rest of a call leaves every payload at hand at most as often as
/// before, as long as what is still to be looked at stands in the buffer.
pub proof fn lemma_order_accounts(
    cache: CacheView,
    buffer: Seq<PayloadView>,
    batch: Seq<PayloadView>,
    index: int,
    max: u32,
    v: PayloadView,
)
    requires
        well_formed(cache),
        0 <= index <= batch.len(),
        forall|w: PayloadView|
            times(batch.subrange(index, batch.len() as int), w) <= #[trigger] times(buffer, w),
    ensures
        held(
            order_from(cache, buffer, batch, index, max).0,
            order_from(cache, buffer, batch, index, max).1,
            v,
        ) <= held(cache, buffer, v),
    decreases batch.len() - index,
{
    if index < batch.len() {
        let curr = batch[index];
        let rest = batch.subrange(index, batch.len() as int);
        let later = batch.subrange(index + 1, batch.len() as int);
        let next = step(cache, buffer, curr, index, max);
        assert(rest =~= seq![curr] + later);
        assert(buffer.contains(curr)) by {
            lemma_times_add(seq![curr], later, curr);
            lemma_times_one(curr, curr);
            assert(times(rest, curr) <= times(buffer, curr));
            to_multiset_contains(buffer, curr);
        }
        lemma_step_accounts(cache, buffer, curr, index, max, v);
        if !next.stop {
            crate::guarantees::lemma_step_well_formed(cache, buffer, curr, index, max);
            assert forall|w: PayloadView| times(later, w) <= #[trigger] times(next.buffer, w) by {
                lemma_step_accounts(cache, buffer, curr, index, max, w);
                lemma_times_add(seq![curr], later, w);
                assert(times(rest, w) <= times(buffer, w));
                lemma_times_one(curr, w);
            }
            lemma_order_accounts(next.cache, next.buffer, batch, index + 1, max, v);
        }
    }
}

/// A call makes no payload up and hands none out twice: what it releases
/// and what the pool of the sender holds afterwards, taken together, hold a
/// payload at most as often as the batch and that pool held it before.
pub proof fn lemma_nothing_released_twice(
    cache: CacheView,
    batch: Seq<PayloadView>,
    max: u32,
    v: PayloadView,
)
    requires
        well_formed(cache),
    ensures
        held(order(cache, batch, max).0, order(cache, batch, max).1, v) <= held(cache, batch, v),
{
    assert(batch.subrange(0, batch.len() as int) =~= batch);
    lemma_order_accounts(cache, batch, batch, 0, max, v);
}

} // verus!
