//! The ordering procedure as a mathematical model: the cache as four maps,
//! and what one observed payload does to them and to the batch being
//! released.

use crate::payload::{follows, key_le, PayloadView, FRESH_GENERATION, HANDSHAKE_GENERATION};
use vstd::prelude::*;

verus! {

/// Number of observations after which a missing predecessor is given up,
/// shared by every replica of a cluster.
pub const MAX_TRIALS_NUM: u32 = 50;

/// What the pool had to offer when a payload arrived out of order.
#[derive(Clone, Copy, PartialEq, Eq, Debug, Structural)]
pub enum Lookup {
    /// The sender had waited longer than allowed: the pool's leading run
    /// leaves it and the missing generations are given up.
    Skipped,
    /// The smallest pooled payload is the one expected next: the pool's
    /// leading run leaves it.
    Filled,
    /// The pool cannot help.
    Missing,
}

/// A trial count one higher, held at the largest value.
pub open spec fn bump(t: u32) -> u32 {
    if t < u32::MAX {
        (t + 1) as u32
    } else {
        t
    }
}

/// Whether a payload is the next one after the last released pair `counter`
/// of its sender. In another epoch every payload is.
pub open spec fn admits(counter: (u32, u32), p: PayloadView) -> bool {
    p.epoch == counter.0 ==> {
        ||| p.generation == counter.1 + 1
        ||| p.generation == FRESH_GENERATION
        ||| p.generation == HANDSHAKE_GENERATION
    }
}

/// Index at which the run that starts at `i` ends: the first index after `i`
/// whose payload does not follow its predecessor, or the length.
pub open spec fn run_end(s: Seq<PayloadView>, i: int) -> int
    decreases s.len() - i,
{
    if 0 <= i && i + 1 < s.len() && follows(s[i], s[i + 1]) {
        run_end(s, i + 1)
    } else {
        i + 1
    }
}

/// Length of the longest prefix in which each payload follows the one before.
pub open spec fn run_len(s: Seq<PayloadView>) -> int {
    if s.len() == 0 {
        0
    } else {
        run_end(s, 0)
    }
}

/// Where a run ends: after its start and within the sequence; each payload
/// before the end follows the one before it, and the payload at the end, if
/// there is one, does not.
pub proof fn lemma_run_end(s: Seq<PayloadView>, i: int)
    requires
        0 <= i < s.len(),
    ensures
        i < run_end(s, i) <= s.len(),
        forall|j: int| i <= j < run_end(s, i) - 1 ==> follows(#[trigger] s[j], s[j + 1]),
        run_end(s, i) < s.len() ==> !follows(s[run_end(s, i) - 1], s[run_end(s, i)]),
    decreases s.len() - i,
{
    if i + 1 < s.len() && follows(s[i], s[i + 1]) {
        lemma_run_end(s, i + 1);
    }
}

/// The leading run of a pool that holds something is not empty, and is no
/// longer than the pool.
pub proof fn lemma_run_len(s: Seq<PayloadView>)
    ensures
        0 <= run_len(s) <= s.len(),
        s.len() > 0 ==> run_len(s) > 0,
{
    if s.len() > 0 {
        lemma_run_end(s, 0);
    }
}

/// Index before which a payload enters a pool: after every leading entry whose
/// `(epoch, generation)` is not above its own.
pub open spec fn slot(s: Seq<PayloadView>, p: PayloadView, i: int) -> int
    decreases s.len() - i,
{
    if 0 <= i < s.len() && key_le(s[i].key(), p.key()) {
        slot(s, p, i + 1)
    } else {
        i
    }
}

/// The pool with one more payload, in its place.
pub open spec fn pooled(s: Seq<PayloadView>, p: PayloadView) -> Seq<PayloadView> {
    s.insert(slot(s, p, 0), p)
}

/// `chunk` put into `buffer` before position `index`, or at the end where the
/// buffer is shorter than that.
pub open spec fn splice(buffer: Seq<PayloadView>, chunk: Seq<PayloadView>, index: int) -> Seq<
    PayloadView,
> {
    let at = if index <= buffer.len() {
        index
    } else {
        buffer.len() as int
    };
    buffer.subrange(0, at) + chunk + buffer.subrange(at, buffer.len() as int)
}

/// Whether some payload of the batch is from sender `r`.
pub open spec fn mentions(batch: Seq<PayloadView>, r: u32) -> bool {
    exists|i: int| 0 <= i < batch.len() && (#[trigger] batch[i]).roster_idx == r
}

/// A batch with one more payload mentions the senders it mentioned before,
/// and the sender of that payload.
pub proof fn lemma_mentions_push(batch: Seq<PayloadView>, p: PayloadView, r: u32)
    ensures
        mentions(batch.push(p), r) == (mentions(batch, r) || p.roster_idx == r),
{
    let longer = batch.push(p);
    if mentions(longer, r) {
        let i = choose|i: int| 0 <= i < longer.len() && (#[trigger] longer[i]).roster_idx == r;
        if i < batch.len() {
            assert(batch[i].roster_idx == r);
        }
    }
    if mentions(batch, r) {
        let i = choose|i: int| 0 <= i < batch.len() && (#[trigger] batch[i]).roster_idx == r;
        assert(longer[i].roster_idx == r);
    }
    if p.roster_idx == r {
        assert(longer[batch.len() as int].roster_idx == r);
    }
}

/// The cache as four maps.
#[verifier::ext_equal]
pub struct CacheView {
    /// Next block to poll from, by contract address.
    pub block_nums: Map<Seq<u8>, u64>,
    /// Last released `(epoch, generation)`, by sender.
    pub treekem: Map<u32, (u32, u32)>,
    /// Observations since the last reset, by sender.
    pub trials: Map<u32, u32>,
    /// Payloads that wait for a predecessor, by sender.
    pub pool: Map<u32, Seq<PayloadView>>,
}

/// State of the procedure after one payload of the batch.
pub struct Step {
    pub cache: CacheView,
    pub buffer: Seq<PayloadView>,
    /// The call ends here and leaves the rest of the batch unexamined.
    pub stop: bool,
}

impl CacheView {
    pub open spec fn empty() -> CacheView {
        CacheView {
            block_nums: Map::empty(),
            treekem: Map::empty(),
            trials: Map::empty(),
            pool: Map::empty(),
        }
    }

    /// Last released pair of sender `r`; `(0, 0)` before the first.
    pub open spec fn counter(self, r: u32) -> (u32, u32) {
        if self.treekem.contains_key(r) {
            self.treekem[r]
        } else {
            (0, 0)
        }
    }

    /// Trial count of sender `r`; `0` before the first observation.
    pub open spec fn trials_of(self, r: u32) -> u32 {
        if self.trials.contains_key(r) {
            self.trials[r]
        } else {
            0
        }
    }

    /// Pooled payloads of sender `r`; empty where it has no entry.
    pub open spec fn pending(self, r: u32) -> Seq<PayloadView> {
        if self.pool.contains_key(r) {
            self.pool[r]
        } else {
            Seq::empty()
        }
    }

    /// Whether `p` is the next payload of its sender.
    pub open spec fn is_next_msg(self, p: PayloadView) -> bool {
        admits(self.counter(p.roster_idx), p)
    }

    pub open spec fn store_block_num(self, addr: Seq<u8>, block: u64) -> CacheView {
        CacheView { block_nums: self.block_nums.insert(addr, block), ..self }
    }

    pub open spec fn latest_block_num(self, addr: Seq<u8>) -> Option<u64> {
        if self.block_nums.contains_key(addr) {
            Some(self.block_nums[addr])
        } else {
            None
        }
    }

    /// One more observation of sender `r`.
    pub open spec fn observe(self, r: u32) -> CacheView {
        CacheView { trials: self.trials.insert(r, bump(self.trials_of(r))), ..self }
    }

    /// The trial count of sender `r` back at zero.
    pub open spec fn reset(self, r: u32) -> CacheView {
        CacheView { trials: self.trials.insert(r, 0), ..self }
    }

    /// `p` recorded as the last released payload of its sender.
    pub open spec fn record(self, p: PayloadView) -> CacheView {
        CacheView { treekem: self.treekem.insert(p.roster_idx, p.key()), ..self }
    }

    /// `p` admitted to the pool of its sender, unless its pair is at or below
    /// the last released one: such a payload is dropped.
    pub open spec fn stash(self, p: PayloadView) -> CacheView {
        if key_le(p.key(), self.counter(p.roster_idx)) {
            self
        } else {
            CacheView {
                pool: self.pool.insert(p.roster_idx, pooled(self.pending(p.roster_idx), p)),
                ..self
            }
        }
    }

    /// What the pool of sender `r` offers at a limit of `max` trials.
    pub open spec fn lookup(self, r: u32, max: u32) -> Lookup {
        if !self.pool.contains_key(r) {
            Lookup::Missing
        } else if self.trials_of(r) > max {
            Lookup::Skipped
        } else if self.pool[r].len() > 0 && self.is_next_msg(self.pool[r][0]) {
            Lookup::Filled
        } else {
            Lookup::Missing
        }
    }

    /// The leading run of the pool of sender `r`.
    pub open spec fn leading_run(self, r: u32) -> Seq<PayloadView> {
        self.pending(r).subrange(0, run_len(self.pending(r)))
    }

    /// The pool of sender `r` without its leading run, and its trial count
    /// back at zero.
    pub open spec fn drain(self, r: u32) -> CacheView {
        let s = self.pending(r);
        CacheView {
            pool: self.pool.insert(r, s.subrange(run_len(s), s.len() as int)),
            trials: self.trials.insert(r, 0),
            ..self
        }
    }

    /// The cache after the pool was asked for successors on behalf of sender
    /// `r`: drained where the pool had something to offer.
    pub open spec fn after_lookup(self, r: u32, max: u32) -> CacheView {
        match self.lookup(r, max) {
            Lookup::Missing => self,
            _ => self.drain(r),
        }
    }

    /// The payloads that leave the pool when it is asked on behalf of sender `r`.
    pub open spec fn found(self, r: u32, max: u32) -> Seq<PayloadView> {
        match self.lookup(r, max) {
            Lookup::Missing => Seq::empty(),
            _ => self.leading_run(r),
        }
    }

    /// One more observation for each sender that the batch mentions.
    pub open spec fn observe_all(self, batch: Seq<PayloadView>) -> CacheView {
        CacheView {
            trials: Map::new(
                |r: u32| self.trials.contains_key(r) || mentions(batch, r),
                |r: u32|
                    if mentions(batch, r) {
                        bump(self.trials_of(r))
                    } else {
                        self.trials[r]
                    },
            ),
            ..self
        }
    }
}

/// What observing `curr`, the payload at `index` of the batch, does to the
/// cache and to the buffer that is being released.
pub open spec fn step(
    cache: CacheView,
    buffer: Seq<PayloadView>,
    curr: PayloadView,
    index: int,
    max: u32,
) -> Step {
    let r = curr.roster_idx;
    let seen = cache.observe(r);
    if seen.is_next_msg(curr) {
        Step { cache: seen.record(curr), buffer, stop: false }
    } else {
        let run = seen.found(r, max);
        let asked = seen.after_lookup(r, max);
        match seen.lookup(r, max) {
            Lookup::Skipped => Step {
                cache: asked.record(curr),
                buffer: splice(buffer, run, index),
                stop: true,
            },
            Lookup::Missing => Step {
                cache: asked.stash(curr),
                buffer: buffer.remove_value(curr),
                stop: false,
            },
            Lookup::Filled => if follows(run.last(), curr) {
                Step { cache: asked.record(curr), buffer: splice(buffer, run, index), stop: false }
            } else {
                Step {
                    cache: asked.stash(curr).record(curr),
                    buffer: splice(buffer.remove_value(curr), run, index),
                    stop: false,
                }
            },
        }
    }
}

/// The procedure from position `index` of the batch on: the cache and the
/// released buffer when the call returns.
pub open spec fn order_from(
    cache: CacheView,
    buffer: Seq<PayloadView>,
    batch: Seq<PayloadView>,
    index: int,
    max: u32,
) -> (CacheView, Seq<PayloadView>)
    decreases batch.len() - index,
{
    if 0 <= index < batch.len() {
        let next = step(cache, buffer, batch[index], index, max);
        if next.stop {
            (next.cache, next.buffer)
        } else {
            order_from(next.cache, next.buffer, batch, index + 1, max)
        }
    } else {
        (cache, buffer)
    }
}

/// One call of the procedure on a batch as it was observed.
pub open spec fn order(cache: CacheView, batch: Seq<PayloadView>, max: u32) -> (
    CacheView,
    Seq<PayloadView>,
) {
    order_from(cache, batch, batch, 0, max)
}

} // verus!
