//! What holds of the cache whatever is fed to it.

use crate::ordering::{
    admits, bump, lemma_run_end, lemma_run_len, order, order_from, pooled, run_len, slot, step,
    CacheView, Lookup,
};
use crate::payload::{
    follows, key_le, key_lt, PayloadView, FRESH_GENERATION, HANDSHAKE_GENERATION,
};
use vstd::prelude::*;

verus! {

/// A pool in the order of its `(epoch, generation)` pairs.
pub open spec fn sorted(s: Seq<PayloadView>) -> bool {
    forall|i: int, j: int|
        0 <= i <= j < s.len() ==> key_le(#[trigger] s[i].key(), #[trigger] s[j].key())
}

/// A pool that holds payloads of sender `r` only.
pub open spec fn of_sender(s: Seq<PayloadView>, r: u32) -> bool {
    forall|i: int| 0 <= i < s.len() ==> (#[trigger] s[i]).roster_idx == r
}

/// Each pool is sorted and holds the payloads of its own sender.
pub open spec fn well_formed(cache: CacheView) -> bool {
    forall|r: u32| #[trigger]
        cache.pool.contains_key(r) ==> sorted(cache.pool[r]) && of_sender(cache.pool[r], r)
}

/// Where a payload enters a pool: within it, after entries that are not above
/// it and before one that is.
pub proof fn lemma_slot(s: Seq<PayloadView>, p: PayloadView, i: int)
    requires
        0 <= i <= s.len(),
    ensures
        i <= slot(s, p, i) <= s.len(),
        forall|j: int| i <= j < slot(s, p, i) ==> key_le(#[trigger] s[j].key(), p.key()),
        slot(s, p, i) < s.len() ==> key_lt(p.key(), s[slot(s, p, i)].key()),
    decreases s.len() - i,
{
    if i < s.len() && key_le(s[i].key(), p.key()) {
        lemma_slot(s, p, i + 1);
    }
}

/// A sorted pool stays sorted when a payload enters it.
pub proof fn lemma_pooled_sorted(s: Seq<PayloadView>, p: PayloadView)
    requires
        sorted(s),
    ensures
        sorted(pooled(s, p)),
        pooled(s, p).len() == s.len() + 1,
        pooled(s, p).to_multiset() == s.to_multiset().insert(p),
{
    lemma_slot(s, p, 0);
    let k = slot(s, p, 0);
    let t = pooled(s, p);
    assert forall|i: int, j: int| 0 <= i <= j < t.len() implies key_le(
        #[trigger] t[i].key(),
        #[trigger] t[j].key(),
    ) by {
        if j < k {
            assert(t[i] == s[i] && t[j] == s[j]);
        } else if j == k {
            if i < k {
                assert(t[i] == s[i]);
                assert(key_le(s[i].key(), p.key()));
            }
        } else {
            assert(t[j] == s[j - 1]);
            assert(key_le(s[k].key(), s[j - 1].key()));
            if i < k {
                assert(t[i] == s[i]);
                assert(key_le(s[i].key(), s[j - 1].key()));
            } else if i == k {
            } else {
                assert(t[i] == s[i - 1]);
                assert(key_le(s[i - 1].key(), s[j - 1].key()));
            }
        }
    }
    vstd::seq_lib::to_multiset_insert(s, k, p);
}

/// The first payload of a sorted pool is its smallest.
pub proof fn lemma_sorted_first_is_smallest(s: Seq<PayloadView>, i: int)
    requires
        sorted(s),
        0 <= i < s.len(),
    ensures
        key_le(s[0].key(), s[i].key()),
{
}

/// The leading run of a pool is contiguous: one sender, one epoch, and
/// generations that go up by one from the first. It is the longest such
/// prefix: the payload after it, if there is one, does not follow its last.
pub proof fn lemma_leading_run_is_contiguous(s: Seq<PayloadView>)
    requires
        s.len() > 0,
    ensures
        0 < run_len(s) <= s.len(),
        forall|i: int|
            0 <= i < run_len(s) ==> {
                &&& (#[trigger] s[i]).roster_idx == s[0].roster_idx
                &&& s[i].epoch == s[0].epoch
                &&& s[i].generation == s[0].generation + i
            },
        run_len(s) < s.len() ==> !follows(s[run_len(s) - 1], s[run_len(s)]),
{
    lemma_run_end(s, 0);
    let n = run_len(s);
    assert forall|i: int| 0 <= i < n implies {
        &&& (#[trigger] s[i]).roster_idx == s[0].roster_idx
        &&& s[i].epoch == s[0].epoch
        &&& s[i].generation == s[0].generation + i
    } by {
        lemma_chain(s, n, i);
    }
}

/// In a sequence whose first `n` payloads each follow the one before, the
/// `i`-th has the sender and epoch of the first and a generation `i` higher.
proof fn lemma_chain(s: Seq<PayloadView>, n: int, i: int)
    requires
        0 <= i < n <= s.len(),
        forall|j: int| 0 <= j < n - 1 ==> follows(#[trigger] s[j], s[j + 1]),
    ensures
        s[i].roster_idx == s[0].roster_idx,
        s[i].epoch == s[0].epoch,
        s[i].generation == s[0].generation + i,
    decreases i,
{
    if i > 0 {
        lemma_chain(s, n, i - 1);
        assert(follows(s[i - 1], s[i]));
    }
}

/// Part of a sorted pool of one sender is a sorted pool of that sender.
pub proof fn lemma_subrange_well_formed(s: Seq<PayloadView>, r: u32, from: int, to: int)
    requires
        sorted(s),
        of_sender(s, r),
        0 <= from <= to <= s.len(),
    ensures
        sorted(s.subrange(from, to)),
        of_sender(s.subrange(from, to), r),
{
    let t = s.subrange(from, to);
    assert forall|i: int, j: int| 0 <= i <= j < t.len() implies key_le(
        #[trigger] t[i].key(),
        #[trigger] t[j].key(),
    ) by {
        assert(t[i] == s[from + i] && t[j] == s[from + j]);
    }
    assert forall|i: int| 0 <= i < t.len() implies (#[trigger] t[i]).roster_idx == r by {
        assert(t[i] == s[from + i]);
    }
}

/// An empty cache is well formed.
pub proof fn lemma_empty_well_formed()
    ensures
        well_formed(CacheView::empty()),
{
}

/// Admitting a payload to its pool keeps the cache well formed, and nothing
/// at or below the last released pair of its sender enters: the pool either
/// stays as it was or gains exactly this payload, whose pair is above.
pub proof fn lemma_stash(cache: CacheView, p: PayloadView)
    requires
        well_formed(cache),
    ensures
        well_formed(cache.stash(p)),
        key_le(p.key(), cache.counter(p.roster_idx)) ==> cache.stash(p) == cache,
        !key_le(p.key(), cache.counter(p.roster_idx)) ==> {
            &&& cache.stash(p).pending(p.roster_idx).to_multiset() == cache.pending(
                p.roster_idx,
            ).to_multiset().insert(p)
            &&& key_lt(cache.counter(p.roster_idx), p.key())
        },
        forall|r: u32| r != p.roster_idx ==> cache.stash(p).pending(r) == cache.pending(r),
{
    let r = p.roster_idx;
    if !key_le(p.key(), cache.counter(r)) {
        let s = cache.pending(r);
        assert(sorted(s) && of_sender(s, r)) by {
            if cache.pool.contains_key(r) {
            }
        }
        lemma_pooled_sorted(s, p);
        lemma_slot(s, p, 0);
        let t = pooled(s, p);
        let k = slot(s, p, 0);
        assert forall|i: int| 0 <= i < t.len() implies (#[trigger] t[i]).roster_idx == r by {
            if i < k {
                assert(t[i] == s[i]);
            } else if i > k {
                assert(t[i] == s[i - 1]);
            }
        }
        let after = cache.stash(p);
        assert forall|q: u32| #[trigger] after.pool.contains_key(q) implies sorted(after.pool[q])
            && of_sender(after.pool[q], q) by {
            if q != r {
                assert(cache.pool.contains_key(q));
            }
        }
    }
}

/// One observed payload leaves a well-formed cache well formed.
pub proof fn lemma_step_well_formed(
    cache: CacheView,
    buffer: Seq<PayloadView>,
    curr: PayloadView,
    index: int,
    max: u32,
)
    requires
        well_formed(cache),
    ensures
        well_formed(step(cache, buffer, curr, index, max).cache),
{
    let r = curr.roster_idx;
    let seen = cache.observe(r);
    assert(well_formed(seen)) by {
        assert forall|q: u32| #[trigger] seen.pool.contains_key(q) implies sorted(seen.pool[q])
            && of_sender(seen.pool[q], q) by {
            assert(cache.pool.contains_key(q));
        }
    }
    let asked = seen.after_lookup(r, max);
    assert(well_formed(asked)) by {
        if seen.lookup(r, max) != Lookup::Missing {
            let s = seen.pending(r);
            assert(seen.pool.contains_key(r));
            lemma_run_len(s);
            lemma_subrange_well_formed(s, r, run_len(s), s.len() as int);
            assert forall|q: u32| #[trigger] asked.pool.contains_key(q) implies sorted(
                asked.pool[q],
            ) && of_sender(asked.pool[q], q) by {
                if q != r {
                    assert(seen.pool.contains_key(q));
                }
            }
        }
    }
    lemma_stash(asked, curr);
    let stashed = asked.stash(curr);
    assert(well_formed(stashed.record(curr))) by {
        assert forall|q: u32| #[trigger] stashed.record(curr).pool.contains_key(q) implies sorted(
            stashed.record(curr).pool[q],
        ) && of_sender(stashed.record(curr).pool[q], q) by {
            assert(stashed.pool.contains_key(q));
        }
    }
    assert(well_formed(asked.record(curr))) by {
        assert forall|q: u32| #[trigger] asked.record(curr).pool.contains_key(q) implies sorted(
            asked.record(curr).pool[q],
        ) && of_sender(asked.record(curr).pool[q], q) by {
            assert(asked.pool.contains_key(q));
        }
    }
    assert(well_formed(seen.record(curr))) by {
        assert forall|q: u32| #[trigger] seen.record(curr).pool.contains_key(q) implies sorted(
            seen.record(curr).pool[q],
        ) && of_sender(seen.record(curr).pool[q], q) by {
            assert(seen.pool.contains_key(q));
        }
    }
}

/// A call leaves a well-formed cache well formed: every pool stays sorted by
/// `(epoch, generation)` and keeps to its own sender.
pub proof fn lemma_order_well_formed(
    cache: CacheView,
    buffer: Seq<PayloadView>,
    batch: Seq<PayloadView>,
    index: int,
    max: u32,
)
    requires
        well_formed(cache),
    ensures
        well_formed(order_from(cache, buffer, batch, index, max).0),
    decreases batch.len() - index,
{
    if 0 <= index < batch.len() {
        let next = step(cache, buffer, batch[index], index, max);
        lemma_step_well_formed(cache, buffer, batch[index], index, max);
        if !next.stop {
            lemma_order_well_formed(next.cache, next.buffer, batch, index + 1, max);
        }
    }
}

/// A block number that was stored is the one that is read back, and storing
/// the same number again changes nothing.
pub proof fn lemma_block_num_store(cache: CacheView, addr: Seq<u8>, block: u64)
    ensures
        cache.store_block_num(addr, block).latest_block_num(addr) == Some(block),
        cache.store_block_num(addr, block).store_block_num(addr, block) == cache.store_block_num(
            addr,
            block,
        ),
        forall|other: Seq<u8>|
            other != addr ==> cache.store_block_num(addr, block).latest_block_num(other)
                == cache.latest_block_num(other),
{
    assert(cache.store_block_num(addr, block).store_block_num(addr, block)
        =~= cache.store_block_num(addr, block));
}

/// The stored block numbers play no part in the ordering: a call releases the
/// same payloads and leaves the same counters and pools whatever they are,
/// and leaves them as they were.
pub proof fn lemma_order_ignores_block_nums(
    cache: CacheView,
    block_nums: Map<Seq<u8>, u64>,
    buffer: Seq<PayloadView>,
    batch: Seq<PayloadView>,
    index: int,
    max: u32,
)
    ensures
        order_from(CacheView { block_nums, ..cache }, buffer, batch, index, max).1 == order_from(
            cache,
            buffer,
            batch,
            index,
            max,
        ).1,
        order_from(CacheView { block_nums, ..cache }, buffer, batch, index, max).0 == (CacheView {
            block_nums,
            ..order_from(cache, buffer, batch, index, max).0
        }),
        order_from(cache, buffer, batch, index, max).0.block_nums == cache.block_nums,
    decreases batch.len() - index,
{
    if 0 <= index < batch.len() {
        let other = CacheView { block_nums, ..cache };
        let next = step(cache, buffer, batch[index], index, max);
        let other_next = step(other, buffer, batch[index], index, max);
        assert(other_next.cache =~= CacheView { block_nums, ..next.cache });
        assert(other_next.buffer == next.buffer);
        assert(other_next.stop == next.stop);
        assert(next.cache.block_nums == cache.block_nums);
        if !next.stop {
            lemma_order_ignores_block_nums(
                next.cache,
                block_nums,
                next.buffer,
                batch,
                index + 1,
                max,
            );
        }
    }
}

/// A payload of another sender changes nothing that the cache holds for
/// sender `r`: neither its last released pair, nor its trial count, nor its
/// pool.
pub proof fn lemma_senders_are_independent(
    cache: CacheView,
    buffer: Seq<PayloadView>,
    curr: PayloadView,
    index: int,
    max: u32,
    r: u32,
)
    requires
        curr.roster_idx != r,
    ensures
        step(cache, buffer, curr, index, max).cache.counter(r) == cache.counter(r),
        step(cache, buffer, curr, index, max).cache.trials_of(r) == cache.trials_of(r),
        step(cache, buffer, curr, index, max).cache.pool.contains_key(r) == cache.pool.contains_key(
            r,
        ),
        step(cache, buffer, curr, index, max).cache.pending(r) == cache.pending(r),
{
}

/// The payload arrives too early and the pool cannot help: it is neither the
/// next of its sender, nor does the pool give anything up.
pub open spec fn waits(cache: CacheView, p: PayloadView, max: u32) -> bool {
    !cache.is_next_msg(p) && cache.observe(p.roster_idx).lookup(p.roster_idx, max)
        == Lookup::Missing
}

/// The payload arrives out of order and the pool gives up its leading run,
/// because it holds what was missing or because the sender has waited long
/// enough.
pub open spec fn resolves(cache: CacheView, p: PayloadView, max: u32) -> bool {
    !cache.is_next_msg(p) && cache.observe(p.roster_idx).lookup(p.roster_idx, max)
        != Lookup::Missing
}

/// The cache after the first `n` payloads of `ps` were handed in, each in a
/// call of its own.
pub open spec fn observed(cache: CacheView, ps: Seq<PayloadView>, n: int, max: u32) -> CacheView
    decreases n,
{
    if n <= 0 {
        cache
    } else {
        order(observed(cache, ps, n - 1, max), seq![ps[n - 1]], max).0
    }
}

/// A call with one payload is one step.
pub proof fn lemma_order_one(cache: CacheView, p: PayloadView, max: u32)
    ensures
        order(cache, seq![p], max) == (
            step(cache, seq![p], p, 0, max).cache,
            step(cache, seq![p], p, 0, max).buffer,
        ),
{
    let batch = seq![p];
    let next = step(cache, batch, p, 0, max);
    assert(batch[0] == p);
    assert(order_from(cache, batch, batch, 0, max) == if next.stop {
        (next.cache, next.buffer)
    } else {
        order_from(next.cache, next.buffer, batch, 1, max)
    });
    assert(order_from(next.cache, next.buffer, batch, 1, max) == (next.cache, next.buffer));
}

/// A payload that waits is released by no call with it alone, counts as one
/// more trial of its sender, and leaves the sender with a pool if it had one.
/// A sender with a pool only waits while its trials are within the limit.
pub proof fn lemma_waiting(cache: CacheView, p: PayloadView, max: u32)
    requires
        waits(cache, p, max),
    ensures
        order(cache, seq![p], max).1 == Seq::<PayloadView>::empty(),
        order(cache, seq![p], max).0.trials_of(p.roster_idx) == bump(
            cache.trials_of(p.roster_idx),
        ),
        order(cache, seq![p], max).0.counter(p.roster_idx) == cache.counter(p.roster_idx),
        cache.pool.contains_key(p.roster_idx) ==> {
            &&& order(cache, seq![p], max).0.pool.contains_key(p.roster_idx)
            &&& bump(cache.trials_of(p.roster_idx)) <= max
        },
{
    lemma_order_one(cache, p, max);
    let batch = seq![p];
    batch.index_of_first_ensures(p);
    assert(batch[0] == p);
    assert(batch.remove_value(p) =~= Seq::<PayloadView>::empty());
}

/// A payload that resolves a gap sets the trial count of its sender back to
/// zero, and the call with it alone releases the leading run of the pool:
/// followed by the payload itself after a skip or where it comes directly
/// after the run, and without it otherwise.
pub proof fn lemma_resolving(cache: CacheView, p: PayloadView, max: u32)
    requires
        resolves(cache, p, max),
    ensures
        order(cache, seq![p], max).0.trials_of(p.roster_idx) == 0,
        order(cache, seq![p], max).0.counter(p.roster_idx) == p.key(),
        order(cache, seq![p], max).1 == (if cache.observe(p.roster_idx).lookup(p.roster_idx, max)
            == Lookup::Skipped || follows(cache.leading_run(p.roster_idx).last(), p) {
            cache.leading_run(p.roster_idx).push(p)
        } else {
            cache.leading_run(p.roster_idx)
        }),
        cache.observe(p.roster_idx).lookup(p.roster_idx, max) == Lookup::Filled ==> admits(
            cache.counter(p.roster_idx),
            cache.leading_run(p.roster_idx)[0],
        ) || cache.leading_run(p.roster_idx)[0].roster_idx != p.roster_idx,
{
    lemma_order_one(cache, p, max);
    let r = p.roster_idx;
    let batch = seq![p];
    let run = cache.leading_run(r);
    let seen = cache.observe(r);
    assert(seen.leading_run(r) == run);
    batch.index_of_first_ensures(p);
    assert(batch[0] == p);
    assert(batch.remove_value(p) =~= Seq::<PayloadView>::empty());
    let next = step(cache, batch, p, 0, max);
    if seen.lookup(r, max) == Lookup::Skipped || follows(run.last(), p) {
        assert(next.buffer =~= run.push(p));
    } else {
        assert(next.buffer =~= run);
    }
    if seen.lookup(r, max) == Lookup::Filled {
        lemma_run_len(seen.pending(r));
    }
}

/// Number of payloads of sender `r` among the first `n`.
pub open spec fn count_of(ps: Seq<PayloadView>, r: u32, n: int) -> int
    decreases n,
{
    if n <= 0 {
        0
    } else if ps[n - 1].roster_idx == r {
        count_of(ps, r, n - 1) + 1
    } else {
        count_of(ps, r, n - 1)
    }
}

/// While every payload of a sender waits, each counts: the trial count of the
/// sender goes up by the number of its payloads, whatever other senders send
/// in between, and the sender keeps its pool.
pub proof fn lemma_waiting_counts(
    cache: CacheView,
    ps: Seq<PayloadView>,
    r: u32,
    max: u32,
    n: int,
)
    requires
        max < u32::MAX,
        cache.pool.contains_key(r),
        0 <= n <= ps.len(),
        forall|i: int|
            0 <= i < n && (#[trigger] ps[i]).roster_idx == r ==> waits(
                observed(cache, ps, i, max),
                ps[i],
                max,
            ),
    ensures
        observed(cache, ps, n, max).pool.contains_key(r),
        observed(cache, ps, n, max).trials_of(r) == cache.trials_of(r) + count_of(ps, r, n),
        observed(cache, ps, n, max).trials_of(r) <= max || count_of(ps, r, n) == 0,
        0 <= count_of(ps, r, n),
    decreases n,
{
    if n > 0 {
        lemma_waiting_counts(cache, ps, r, max, n - 1);
        let before = observed(cache, ps, n - 1, max);
        let p = ps[n - 1];
        if p.roster_idx == r {
            assert(waits(before, p, max));
            lemma_waiting(before, p, max);
        } else {
            lemma_order_one(before, p, max);
            lemma_senders_are_independent(before, seq![p], p, 0, max, r);
        }
    }
}

/// A sender with a pool does not wait for ever. Let payloads be handed in
/// one after the other, of this sender and of others. Once more than `max` of
/// them were of this sender, one of these was taken as the next one or made
/// the pool give up its leading run.
pub proof fn lemma_bounded_wait(cache: CacheView, ps: Seq<PayloadView>, r: u32, max: u32)
    requires
        max < u32::MAX,
        cache.pool.contains_key(r),
        count_of(ps, r, ps.len() as int) > max,
    ensures
        exists|i: int|
            0 <= i < ps.len() && (#[trigger] ps[i]).roster_idx == r && !waits(
                observed(cache, ps, i, max),
                ps[i],
                max,
            ),
{
    if forall|i: int|
        0 <= i < ps.len() && (#[trigger] ps[i]).roster_idx == r ==> waits(
            observed(cache, ps, i, max),
            ps[i],
            max,
        ) {
        lemma_waiting_counts(cache, ps, r, max, ps.len() as int);
        assert(false);
    }
}

/// Every payload of the batch from `index` on is the next one of its sender
/// when its turn comes.
pub open spec fn all_in_order(cache: CacheView, batch: Seq<PayloadView>, index: int) -> bool
    decreases batch.len() - index,
{
    if 0 <= index < batch.len() {
        cache.is_next_msg(batch[index]) && all_in_order(
            cache.observe(batch[index].roster_idx).record(batch[index]),
            batch,
            index + 1,
        )
    } else {
        true
    }
}

/// The cache after the first `n` payloads of a batch were taken in order.
pub open spec fn passed(cache: CacheView, batch: Seq<PayloadView>, n: int) -> CacheView
    decreases n,
{
    if n <= 0 {
        cache
    } else {
        passed(cache, batch, n - 1).observe(batch[n - 1].roster_idx).record(batch[n - 1])
    }
}

/// A batch that arrives in order is released as it is: nothing leaves it,
/// nothing enters it, no pool changes, and the call looks at all of it.
pub proof fn lemma_in_order_passes(
    cache: CacheView,
    buffer: Seq<PayloadView>,
    batch: Seq<PayloadView>,
    index: int,
    max: u32,
)
    requires
        0 <= index <= batch.len(),
        all_in_order(cache, batch, index),
    ensures
        order_from(cache, buffer, batch, index, max).1 == buffer,
        order_from(cache, buffer, batch, index, max).0.pool == cache.pool,
    decreases batch.len() - index,
{
    if index < batch.len() {
        let next = step(cache, buffer, batch[index], index, max);
        assert(next.cache == cache.observe(batch[index].roster_idx).record(batch[index]));
        lemma_in_order_passes(next.cache, buffer, batch, index + 1, max);
    }
}

/// In a batch that arrives in order, each payload is the next one of its
/// sender in the cache that the payloads before it have left.
pub proof fn lemma_in_order_at(cache: CacheView, batch: Seq<PayloadView>, n: int)
    requires
        0 <= n <= batch.len(),
        all_in_order(cache, batch, 0),
    ensures
        all_in_order(passed(cache, batch, n), batch, n),
        n < batch.len() ==> passed(cache, batch, n).is_next_msg(batch[n]),
    decreases n,
{
    if n > 0 {
        lemma_in_order_at(cache, batch, n - 1);
    }
}

/// After payloads taken in order, the last released pair of a sender is that
/// of its latest payload.
pub proof fn lemma_counter_after(cache: CacheView, batch: Seq<PayloadView>, i: int, n: int)
    requires
        0 <= i < n <= batch.len(),
        forall|k: int| i < k < n ==> (#[trigger] batch[k]).roster_idx != batch[i].roster_idx,
    ensures
        passed(cache, batch, n).counter(batch[i].roster_idx) == batch[i].key(),
    decreases n,
{
    if n > i + 1 {
        lemma_counter_after(cache, batch, i, n - 1);
        assert(batch[n - 1].roster_idx != batch[i].roster_idx);
    }
}

/// Of two payloads of one sender and one epoch that are released one after
/// the other from a batch in order, the second has the generation after that
/// of the first, or is a fresh message, or is a handshake. So between fresh
/// messages and handshakes the generations of a sender go up by one each.
pub proof fn lemma_adjacent_releases(
    cache: CacheView,
    batch: Seq<PayloadView>,
    max: u32,
    i: int,
    j: int,
)
    requires
        all_in_order(cache, batch, 0),
        0 <= i < j < batch.len(),
        batch[i].roster_idx == batch[j].roster_idx,
        batch[i].epoch == batch[j].epoch,
        forall|k: int| i < k < j ==> (#[trigger] batch[k]).roster_idx != batch[i].roster_idx,
    ensures
        order(cache, batch, max).1 == batch,
        batch[j].generation == batch[i].generation + 1 || batch[j].generation == FRESH_GENERATION
            || batch[j].generation == HANDSHAKE_GENERATION,
        batch[j].generation != FRESH_GENERATION && batch[j].generation != HANDSHAKE_GENERATION
            ==> key_lt(batch[i].key(), batch[j].key()),
{
    lemma_in_order_passes(cache, batch, batch, 0, max);
    lemma_in_order_at(cache, batch, j);
    lemma_counter_after(cache, batch, i, j);
}

/// A batch in order leaves the cache as its payloads, taken one by one,
/// leave it.
pub proof fn lemma_in_order_cache(
    cache: CacheView,
    buffer: Seq<PayloadView>,
    batch: Seq<PayloadView>,
    index: int,
    max: u32,
)
    requires
        0 <= index <= batch.len(),
        all_in_order(cache, batch, 0),
    ensures
        order_from(passed(cache, batch, index), buffer, batch, index, max).0 == passed(
            cache,
            batch,
            batch.len() as int,
        ),
    decreases batch.len() - index,
{
    lemma_in_order_at(cache, batch, index);
    if index < batch.len() {
        let here = passed(cache, batch, index);
        let next = step(here, buffer, batch[index], index, max);
        assert(next.cache == passed(cache, batch, index + 1));
        lemma_in_order_cache(cache, buffer, batch, index + 1, max);
    }
}

/// Payloads of other senders that are taken in order leave the last released
/// pair of a sender as it was.
pub proof fn lemma_counter_kept(cache: CacheView, batch: Seq<PayloadView>, r: u32, n: int)
    requires
        0 <= n <= batch.len(),
        forall|k: int| 0 <= k < n ==> (#[trigger] batch[k]).roster_idx != r,
    ensures
        passed(cache, batch, n).counter(r) == cache.counter(r),
    decreases n,
{
    if n > 0 {
        lemma_counter_kept(cache, batch, r, n - 1);
        assert(batch[n - 1].roster_idx != r);
    }
}

/// The same from one call to the next: of two payloads of one sender and one
/// epoch, the last of the sender in one batch in order and the first of the
/// sender in the next batch in order, the second has the generation after
/// that of the first, or is a fresh message, or is a handshake.
pub proof fn lemma_adjacent_releases_across_calls(
    cache: CacheView,
    first: Seq<PayloadView>,
    second: Seq<PayloadView>,
    max: u32,
    i: int,
    j: int,
)
    requires
        all_in_order(cache, first, 0),
        all_in_order(order(cache, first, max).0, second, 0),
        0 <= i < first.len(),
        0 <= j < second.len(),
        first[i].roster_idx == second[j].roster_idx,
        first[i].epoch == second[j].epoch,
        forall|k: int|
            i < k < first.len() ==> (#[trigger] first[k]).roster_idx != first[i].roster_idx,
        forall|k: int| 0 <= k < j ==> (#[trigger] second[k]).roster_idx != first[i].roster_idx,
    ensures
        order(cache, first, max).1 == first,
        order(order(cache, first, max).0, second, max).1 == second,
        second[j].generation == first[i].generation + 1 || second[j].generation
            == FRESH_GENERATION || second[j].generation == HANDSHAKE_GENERATION,
        second[j].generation != FRESH_GENERATION && second[j].generation != HANDSHAKE_GENERATION
            ==> key_lt(first[i].key(), second[j].key()),
{
    let between = order(cache, first, max).0;
    lemma_in_order_passes(cache, first, first, 0, max);
    lemma_in_order_passes(between, second, second, 0, max);
    lemma_in_order_cache(cache, first, first, 0, max);
    lemma_counter_after(cache, first, i, first.len() as int);
    lemma_in_order_at(between, second, j);
    lemma_counter_kept(between, second, first[i].roster_idx, j);
}

/// A payload that is taken as the next one in the epoch of the last released
/// pair, and is neither a fresh message nor a handshake, is above that pair:
/// nothing stale is released that way.
pub proof fn lemma_next_is_above(counter: (u32, u32), p: PayloadView)
    requires
        admits(counter, p),
        p.epoch == counter.0,
        p.generation != FRESH_GENERATION,
        p.generation != HANDSHAKE_GENERATION,
    ensures
        key_lt(counter, p.key()),
        p.generation == counter.1 + 1,
{
}

/// In the leading run of a pool each payload is above the one before it.
pub proof fn lemma_run_goes_up(s: Seq<PayloadView>, i: int, j: int)
    requires
        0 <= i < j < run_len(s),
    ensures
        key_lt(s[i].key(), s[j].key()),
{
    if s.len() > 0 {
        lemma_leading_run_is_contiguous(s);
    }
}

/// What the cache releases when it is fed the first `n` of the given batches,
/// one call for each: the cache after the last call, and the outputs of the
/// calls one after the other.
pub open spec fn release(
    cache: CacheView,
    batches: Seq<Seq<PayloadView>>,
    n: int,
    max: u32,
) -> (CacheView, Seq<PayloadView>)
    decreases n,
{
    if n <= 0 {
        (cache, Seq::empty())
    } else {
        let before = release(cache, batches, n - 1, max);
        let last = order(before.0, batches[n - 1], max);
        (last.0, before.1 + last.1)
    }
}

/// What is released follows from the batches and the limit alone: two caches
/// with the same counters and pools release the same payloads for the same
/// batches, whatever block numbers they hold, and agree on counters and pools
/// afterwards.
pub proof fn lemma_release_is_determined(
    a: CacheView,
    b: CacheView,
    batches: Seq<Seq<PayloadView>>,
    n: int,
    max: u32,
)
    requires
        a.treekem == b.treekem,
        a.trials == b.trials,
        a.pool == b.pool,
    ensures
        release(a, batches, n, max).1 == release(b, batches, n, max).1,
        release(a, batches, n, max).0.treekem == release(b, batches, n, max).0.treekem,
        release(a, batches, n, max).0.trials == release(b, batches, n, max).0.trials,
        release(a, batches, n, max).0.pool == release(b, batches, n, max).0.pool,
        release(a, batches, n, max).0.block_nums == a.block_nums,
    decreases n,
{
    if n > 0 {
        lemma_release_is_determined(a, b, batches, n - 1, max);
        let before_a = release(a, batches, n - 1, max).0;
        let before_b = release(b, batches, n - 1, max).0;
        let batch = batches[n - 1];
        assert(before_a =~= CacheView { block_nums: before_a.block_nums, ..before_b });
        lemma_order_ignores_block_nums(before_b, before_a.block_nums, batch, batch, 0, max);
        lemma_order_ignores_block_nums(before_a, before_a.block_nums, batch, batch, 0, max);
    }
}

/// Whatever is fed to a cache that starts empty, its pools stay sorted and
/// keep to their senders.
pub proof fn lemma_release_well_formed(
    cache: CacheView,
    batches: Seq<Seq<PayloadView>>,
    n: int,
    max: u32,
)
    requires
        well_formed(cache),
    ensures
        well_formed(release(cache, batches, n, max).0),
    decreases n,
{
    if n > 0 {
        lemma_release_well_formed(cache, batches, n - 1, max);
        let before = release(cache, batches, n - 1, max).0;
        lemma_order_well_formed(before, batches[n - 1], batches[n - 1], 0, max);
    }
}

} // verus!
