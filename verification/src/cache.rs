//! The event cache: counters and pool behind the ordering procedure.

use crate::contract::{BlockNumCounter, ContractAddr};
use crate::guarantees::{lemma_order_well_formed, well_formed};
use crate::ordering::{
    lemma_mentions_push, lemma_run_len, mentions, order_from, step, CacheView, Lookup,
};
use crate::payload::{views, PayloadType, PayloadView};
use crate::pool::{insert_chunks_at_index, insert_sorted, remove_first, set_continuous_payloads};
use std::collections::{HashMap, HashSet};
use vstd::prelude::*;

verus! {

broadcast use vstd::std_specs::hash::group_hash_axioms;

/// The pools as a map from sender to the values of its payloads.
pub open spec fn pool_view(pool: Map<u32, Vec<PayloadType>>) -> Map<u32, Seq<PayloadView>> {
    Map::new(|r: u32| pool.contains_key(r), |r: u32| views(pool[r]@))
}

/// Caches data from events for arrival and order guarantees. Payloads that
/// arrive before their predecessor wait in it.
///
/// Not `Clone`: a copy would release payloads a second time.
#[derive(Debug)]
pub struct InnerEventCache {
    block_num_counter: BlockNumCounter,
    treekem_counter: HashMap<u32, (u32, u32)>,
    trials_counter: HashMap<u32, u32>,
    payloads_pool: HashMap<u32, Vec<PayloadType>>,
}

impl View for InnerEventCache {
    type V = CacheView;

    closed spec fn view(&self) -> CacheView {
        CacheView {
            block_nums: self.block_num_counter@,
            treekem: self.treekem_counter@,
            trials: self.trials_counter@,
            pool: pool_view(self.payloads_pool@),
        }
    }
}

impl Default for InnerEventCache {
    fn default() -> (cache: Self)
        ensures
            cache@ == CacheView::empty(),
    {
        InnerEventCache::new()
    }
}

impl InnerEventCache {
    /// An empty cache.
    pub fn new() -> (cache: Self)
        ensures
            cache@ == CacheView::empty(),
    {
        let cache = InnerEventCache {
            block_num_counter: BlockNumCounter::new(),
            treekem_counter: HashMap::new(),
            trials_counter: HashMap::new(),
            payloads_pool: HashMap::new(),
        };
        assert(cache@ =~= CacheView::empty());
        cache
    }

    /// Stores the next block to poll from for a contract and returns the one
    /// stored before.
    pub fn insert_next_block_num(&mut self, contract_addr: ContractAddr, block_num: u64) -> (prior:
        Option<u64>)
        ensures
            final(self)@ == old(self)@.store_block_num(contract_addr@, block_num),
            prior == old(self)@.latest_block_num(contract_addr@),
    {
        self.block_num_counter.insert(contract_addr, block_num)
    }

    /// The next block to poll from for a contract; `None` if none was stored.
    pub fn get_latest_block_num(&self, contract_addr: ContractAddr) -> (block_num: Option<u64>)
        ensures
            block_num == self@.latest_block_num(contract_addr@),
    {
        self.block_num_counter.get(&contract_addr)
    }

    /// Last released `(epoch, generation)` of a sender.
    pub fn treekem_counter_of(&self, roster_idx: u32) -> (counter: (u32, u32))
        ensures
            counter == self@.counter(roster_idx),
    {
        match self.treekem_counter.get(&roster_idx) {
            Some(counter) => *counter,
            None => (0, 0),
        }
    }

    /// Observations of a sender since its count was last reset.
    pub fn trials_of(&self, roster_idx: u32) -> (trials: u32)
        ensures
            trials == self@.trials_of(roster_idx),
    {
        match self.trials_counter.get(&roster_idx) {
            Some(trials) => *trials,
            None => 0,
        }
    }

    /// Number of payloads of a sender that wait in the pool.
    pub fn pool_len(&self, roster_idx: u32) -> (len: usize)
        ensures
            len == self@.pending(roster_idx).len(),
    {
        match self.payloads_pool.get(&roster_idx) {
            Some(pool) => pool.len(),
            None => 0,
        }
    }

    /// Counts one more observation for each sender that the batch mentions,
    /// once however many payloads of the sender it holds. For a batch that was
    /// observed but not released.
    pub fn increment_multi_trials_counter(&mut self, payloads: &[PayloadType])
        ensures
            final(self)@ == old(self)@.observe_all(views(payloads@)),
    {
        let ghost before = self@;
        let ghost batch = views(payloads@);
        let mut counted: HashSet<u32> = HashSet::new();
        let mut i: usize = 0;
        assert(self@ =~= before.observe_all(batch.subrange(0, 0)));
        while i < payloads.len()
            invariant
                0 <= i <= payloads@.len(),
                batch == views(payloads@),
                forall|r: u32| counted@.contains(r) <==> mentions(batch.subrange(0, i as int), r),
                self@ == before.observe_all(batch.subrange(0, i as int)),
            decreases payloads@.len() - i,
        {
            let ghost prefix = batch.subrange(0, i as int);
            let payload = &payloads[i];
            assert(batch.subrange(0, i + 1) =~= prefix.push(payload@));
            assert forall|r: u32|
                mentions(prefix.push(payload@), r) == (mentions(prefix, r) || payload@.roster_idx
                    == r) by {
                lemma_mentions_push(prefix, payload@, r);
            }
            if counted.insert(payload.roster_idx()) {
                self.increment_trials_counter(payload);
            }
            assert(self@ =~= before.observe_all(prefix.push(payload@)));
            i += 1;
        }
        assert(batch.subrange(0, i as int) =~= batch);
    }

    /// Counts one more observation of the payload's sender.
    pub fn increment_trials_counter(&mut self, payload: &PayloadType)
        ensures
            final(self)@ == old(self)@.observe(payload@.roster_idx),
    {
        let roster_idx = payload.roster_idx();
        let trials = self.trials_of(roster_idx);
        let next = if trials < u32::MAX {
            trials + 1
        } else {
            trials
        };
        self.trials_counter.insert(roster_idx, next);
        assert(self@ =~= old(self)@.observe(roster_idx));
    }

    /// Sets the trial count of a sender back to zero.
    pub fn reset_trials_counter(&mut self, roster_idx: u32)
        ensures
            final(self)@ == old(self)@.reset(roster_idx),
    {
        self.trials_counter.insert(roster_idx, 0);
        assert(self@ =~= old(self)@.reset(roster_idx));
    }

    /// Records a payload as the last released one of its sender.
    pub fn update_treekem_counter(&mut self, msg: &PayloadType)
        ensures
            final(self)@ == old(self)@.record(msg@),
    {
        self.treekem_counter.insert(msg.roster_idx(), (msg.epoch(), msg.generation()));
        assert(self@ =~= old(self)@.record(msg@));
    }

    /// Whether a payload is the next one of its sender: in the epoch of the
    /// last released pair, its generation is one higher, or zero, or the
    /// handshake marker; in another epoch, always.
    pub fn is_next_msg(&self, msg: &PayloadType) -> (next: bool)
        ensures
            next == self@.is_next_msg(msg@),
    {
        let counter = self.treekem_counter_of(msg.roster_idx());
        if msg.epoch() == counter.0 {
            (counter.1 < u32::MAX && msg.generation() == counter.1 + 1) || msg.generation() == 0
                || msg.generation() == u32::MAX
        } else {
            true
        }
    }

    /// Asks the pool for the successors of the last released payload of the
    /// sender of `prior_payload`. Where the sender has waited for more than
    /// `max_trials_num` observations, or the smallest pooled payload is the
    /// next one, the leading run leaves the pool and the trial count goes back
    /// to zero. A sender without a pool is never skipped.
    pub fn find_next_payloads(&mut self, prior_payload: &PayloadType, max_trials_num: u32) -> (out:
        (Vec<PayloadType>, Lookup))
        ensures
            out.1 == old(self)@.lookup(prior_payload@.roster_idx, max_trials_num),
            views(out.0@) == old(self)@.found(prior_payload@.roster_idx, max_trials_num),
            final(self)@ == old(self)@.after_lookup(prior_payload@.roster_idx, max_trials_num),
    {
        let roster_idx = prior_payload.roster_idx();
        let trials = self.trials_of(roster_idx);
        let ghost before = self@;
        match self.payloads_pool.remove(&roster_idx) {
            None => {
                assert(self@ =~= before);
                assert(views(Seq::<PayloadType>::empty()) =~= Seq::<PayloadView>::empty());
                (Vec::new(), Lookup::Missing)
            },
            Some(mut pool) => {
                assert(views(pool@) == before.pending(roster_idx));
                let kind = if trials > max_trials_num {
                    Lookup::Skipped
                } else if pool.len() > 0 && self.is_next_msg(&pool[0]) {
                    Lookup::Filled
                } else {
                    Lookup::Missing
                };
                assert(kind == before.lookup(roster_idx, max_trials_num));
                match kind {
                    Lookup::Missing => {
                        self.payloads_pool.insert(roster_idx, pool);
                        assert(self@ =~= before);
                        assert(views(Seq::<PayloadType>::empty()) =~= Seq::<PayloadView>::empty());
                        (Vec::new(), kind)
                    },
                    _ => {
                        let acc = set_continuous_payloads(Vec::new(), &mut pool);
                        self.payloads_pool.insert(roster_idx, pool);
                        self.trials_counter.insert(roster_idx, 0);
                        assert(self@ =~= before.drain(roster_idx));
                        assert(views(acc@) =~= before.leading_run(roster_idx));
                        (acc, kind)
                    },
                }
            },
        }
    }

    /// Takes a payload that arrived too early out of the batch and keeps it in
    /// the pool of its sender, sorted by `(epoch, generation)`. A payload at or
    /// below the last released pair is dropped instead of kept.
    pub fn insert_payloads_pool(&mut self, payload: PayloadType, payloads: &mut Vec<PayloadType>)
        ensures
            final(self)@ == old(self)@.stash(payload@),
            views(final(payloads)@) == views(old(payloads)@).remove_value(payload@),
    {
        let ghost before = self@;
        let _ = remove_first(payloads, &payload);
        let roster_idx = payload.roster_idx();
        let counter = self.treekem_counter_of(roster_idx);
        if payload.is_at_or_below(counter) {
            return ;
        }
        let mut pool = match self.payloads_pool.remove(&roster_idx) {
            Some(pool) => pool,
            None => Vec::new(),
        };
        assert(views(pool@) =~= before.pending(roster_idx));
        insert_sorted(&mut pool, payload);
        self.payloads_pool.insert(roster_idx, pool);
        assert(self@ =~= before.stash(payload@));
    }

    /// Orders a batch of payloads as they were observed.
    ///
    /// Each payload of `immutable_payloads` is looked at in turn. One that is
    /// the next of its sender stays in the batch. One that is not waits in the
    /// pool, unless the pool holds what was missing or the sender has waited
    /// long enough: then the pool's leading run goes into the batch at the
    /// payload's position. After a skip the call returns at once.
    ///
    /// `payloads` is the batch that is rewritten and returned;
    /// `immutable_payloads` is the same batch, which is only read.
    pub fn ensure_order_guarantee(
        &mut self,
        payloads: Vec<PayloadType>,
        immutable_payloads: Vec<PayloadType>,
        max_trials_num: u32,
    ) -> (released: Vec<PayloadType>)
        ensures
            (final(self)@, views(released@)) == order_from(
                old(self)@,
                views(payloads@),
                views(immutable_payloads@),
                0,
                max_trials_num,
            ),
            well_formed(old(self)@) ==> well_formed(final(self)@),
    {
        proof {
            if well_formed(old(self)@) {
                lemma_order_well_formed(
                    old(self)@,
                    views(payloads@),
                    views(immutable_payloads@),
                    0,
                    max_trials_num,
                );
            }
        }
        let ghost batch = views(immutable_payloads@);
        let ghost goal = order_from(old(self)@, views(payloads@), batch, 0, max_trials_num);
        let mut buffer = payloads;
        let mut index: usize = 0;
        while index < immutable_payloads.len()
            invariant
                0 <= index <= immutable_payloads@.len(),
                batch == views(immutable_payloads@),
                goal == order_from(
                    old(self)@,
                    views(payloads@),
                    views(immutable_payloads@),
                    0,
                    max_trials_num,
                ),
                goal == order_from(self@, views(buffer@), batch, index as int, max_trials_num),
                well_formed(old(self)@) ==> well_formed(goal.0),
            decreases immutable_payloads@.len() - index,
        {
            let curr_payload = &immutable_payloads[index];
            let ghost next = step(
                self@,
                views(buffer@),
                curr_payload@,
                index as int,
                max_trials_num,
            );
            assert(batch[index as int] == curr_payload@);
            self.increment_trials_counter(curr_payload);
            let ghost seen = self@;
            if self.is_next_msg(curr_payload) {
                self.update_treekem_counter(curr_payload);
            } else {
                let (payloads_from_pool, kind) = self.find_next_payloads(
                    curr_payload,
                    max_trials_num,
                );
                match kind {
                    Lookup::Skipped => {
                        self.update_treekem_counter(curr_payload);
                        buffer = insert_chunks_at_index(
                            buffer,
                            payloads_from_pool.as_slice(),
                            index,
                        );
                        assert(next.stop);
                        assert(self@ == next.cache);
                        assert(views(buffer@) == next.buffer);
                        return buffer;
                    },
                    Lookup::Missing => {
                        self.insert_payloads_pool(curr_payload.clone(), &mut buffer);
                    },
                    Lookup::Filled => {
                        proof {
                            lemma_run_len(seen.pending(curr_payload@.roster_idx));
                        }
                        assert(payloads_from_pool@.len() > 0);
                        let last = &payloads_from_pool[payloads_from_pool.len() - 1];
                        assert(last@ == views(payloads_from_pool@).last());
                        if !last.is_next(curr_payload) {
                            self.insert_payloads_pool(curr_payload.clone(), &mut buffer);
                        }
                        self.update_treekem_counter(curr_payload);
                        buffer = insert_chunks_at_index(
                            buffer,
                            payloads_from_pool.as_slice(),
                            index,
                        );
                    },
                }
            }
            assert(!next.stop);
            assert(self@ == next.cache);
            assert(views(buffer@) == next.buffer);
            index += 1;
        }
        buffer
    }
}

} // verus!
