//! Work on the vectors of payloads that the cache keeps and hands out.

use crate::ordering::{pooled, run_end, run_len, slot, splice};
use crate::payload::{views, PayloadType};
use vstd::prelude::*;

verus! {

/// The values of a sequence with one more payload pushed.
pub proof fn lemma_views_push(s: Seq<PayloadType>, p: PayloadType)
    ensures
        views(s.push(p)) == views(s).push(p@),
{
    assert(views(s.push(p)) =~= views(s).push(p@));
}

/// The values of two sequences joined.
pub proof fn lemma_views_add(a: Seq<PayloadType>, b: Seq<PayloadType>)
    ensures
        views(a + b) == views(a) + views(b),
{
    assert(views(a + b) =~= views(a) + views(b));
}

/// The values of a part of a sequence.
pub proof fn lemma_views_subrange(s: Seq<PayloadType>, from: int, to: int)
    requires
        0 <= from <= to <= s.len(),
    ensures
        views(s.subrange(from, to)) == views(s).subrange(from, to),
{
    assert(views(s.subrange(from, to)) =~= views(s).subrange(from, to));
}

/// The values of a sequence with one payload put in.
pub proof fn lemma_views_insert(s: Seq<PayloadType>, i: int, p: PayloadType)
    requires
        0 <= i <= s.len(),
    ensures
        views(s.insert(i, p)) == views(s).insert(i, p@),
{
    assert(views(s.insert(i, p)) =~= views(s).insert(i, p@));
}

/// The values of a sequence with one payload taken out.
pub proof fn lemma_views_remove(s: Seq<PayloadType>, i: int)
    requires
        0 <= i < s.len(),
    ensures
        views(s.remove(i)) == views(s).remove(i),
{
    assert(views(s.remove(i)) =~= views(s).remove(i));
}

/// Moves the leading run of a pool to the end of `acc`: the longest prefix in
/// which each payload comes directly after the one before it.
pub fn set_continuous_payloads(
    mut acc: Vec<PayloadType>,
    payloads_from_pool: &mut Vec<PayloadType>,
) -> (out: Vec<PayloadType>)
    ensures
        views(out@) == views(acc@) + views(old(payloads_from_pool)@).subrange(
            0,
            run_len(views(old(payloads_from_pool)@)),
        ),
        views(final(payloads_from_pool)@) == views(old(payloads_from_pool)@).subrange(
            run_len(views(old(payloads_from_pool)@)),
            old(payloads_from_pool)@.len() as int,
        ),
        0 <= run_len(views(old(payloads_from_pool)@)) <= old(payloads_from_pool)@.len(),
{
    let ghost before = payloads_from_pool@;
    let ghost head = acc@;
    let n = payloads_from_pool.len();
    if n == 0 {
        proof {
            assert(views(acc@) =~= views(acc@) + views(before).subrange(0, 0));
            assert(views(before) =~= views(before).subrange(0, 0));
        }
        return acc;
    }
    let mut k: usize = 1;
    while k < n && payloads_from_pool[k - 1].is_next(&payloads_from_pool[k])
        invariant
            1 <= k <= n,
            n == before.len(),
            payloads_from_pool@ == before,
            run_end(views(before), 0) == run_end(views(before), k - 1),
        decreases n - k,
    {
        k += 1;
    }
    assert(run_len(views(before)) == k);
    let mut rest = payloads_from_pool.split_off(k);
    acc.append(payloads_from_pool);
    payloads_from_pool.append(&mut rest);
    proof {
        lemma_views_add(head, before.subrange(0, k as int));
        lemma_views_subrange(before, 0, k as int);
        lemma_views_subrange(before, k as int, n as int);
        assert(payloads_from_pool@ =~= before.subrange(k as int, n as int));
    }
    acc
}

/// Puts `payloads_from_pool` into `payloads` before position `index`, or at
/// the end where `payloads` is shorter than that.
pub fn insert_chunks_at_index(
    mut payloads: Vec<PayloadType>,
    payloads_from_pool: &[PayloadType],
    index: usize,
) -> (out: Vec<PayloadType>)
    ensures
        views(out@) == splice(views(payloads@), views(payloads_from_pool@), index as int),
{
    let ghost before = payloads@;
    let at = if index <= payloads.len() {
        index
    } else {
        payloads.len()
    };
    let mut tail = payloads.split_off(at);
    let ghost head = payloads@;
    let mut i: usize = 0;
    while i < payloads_from_pool.len()
        invariant
            0 <= i <= payloads_from_pool@.len(),
            views(payloads@) == views(head) + views(payloads_from_pool@).subrange(0, i as int),
        decreases payloads_from_pool@.len() - i,
    {
        let ghost so_far = payloads@;
        let next = payloads_from_pool[i].clone();
        payloads.push(next);
        proof {
            lemma_views_push(so_far, next);
            assert(views(payloads@) =~= views(head) + views(payloads_from_pool@).subrange(
                0,
                i + 1,
            ));
        }
        i += 1;
    }
    let ghost middle = payloads@;
    payloads.append(&mut tail);
    proof {
        lemma_views_add(middle, before.subrange(at as int, before.len() as int));
        lemma_views_subrange(before, 0, at as int);
        lemma_views_subrange(before, at as int, before.len() as int);
        assert(views(payloads_from_pool@).subrange(0, payloads_from_pool@.len() as int) =~= views(
            payloads_from_pool@,
        ));
    }
    payloads
}

/// Puts a payload into a pool, after every leading entry whose
/// `(epoch, generation)` is not above its own.
pub fn insert_sorted(pool: &mut Vec<PayloadType>, payload: PayloadType)
    ensures
        views(final(pool)@) == pooled(views(old(pool)@), payload@),
{
    let ghost before = pool@;
    let n = pool.len();
    let mut i: usize = 0;
    while i < n && pool[i].is_at_or_below((payload.epoch(), payload.generation()))
        invariant
            0 <= i <= n,
            n == before.len(),
            pool@ == before,
            slot(views(before), payload@, 0) == slot(views(before), payload@, i as int),
        decreases n - i,
    {
        i += 1;
    }
    assert(slot(views(before), payload@, 0) == i);
    pool.insert(i, payload);
    proof {
        lemma_views_insert(before, i as int, payload);
    }
}

/// Takes the first payload equal to `payload` out of `payloads`, if there is
/// one. Reports whether there was.
pub fn remove_first(payloads: &mut Vec<PayloadType>, payload: &PayloadType) -> (found: bool)
    ensures
        views(final(payloads)@) == views(old(payloads)@).remove_value(payload@),
        found == views(old(payloads)@).contains(payload@),
{
    let ghost before = payloads@;
    let n = payloads.len();
    let mut i: usize = 0;
    while i < n && !(payloads[i] == *payload)
        invariant
            0 <= i <= n,
            n == before.len(),
            payloads@ == before,
            forall|j: int| 0 <= j < i ==> views(before)[j] != payload@,
        decreases n - i,
    {
        i += 1;
    }
    proof {
        views(before).index_of_first_ensures(payload@);
    }
    if i < n {
        assert(views(before)[i as int] == payload@);
        payloads.remove(i);
        proof {
            lemma_views_remove(before, i as int);
        }
        true
    } else {
        false
    }
}

} // verus!
