use anonify::cache::InnerEventCache;
use anonify::contract::ContractAddr;
use anonify::key_schedule::{actions_for, Action};
use anonify::ordering::{Lookup, MAX_TRIALS_NUM};
use anonify::payload::PayloadType;
use anonify::pool::{
    insert_chunks_at_index, insert_sorted, remove_first, set_continuous_payloads,
};

fn p(roster_idx: u32, epoch: u32, generation: u32) -> PayloadType {
    PayloadType::new(roster_idx, epoch, generation, Default::default())
}

#[test]
fn test_correct_order_diff_roster_idx() {
    let dummy_payloads1 = vec![
        PayloadType::new(0, 0, 1, Default::default()),
        PayloadType::new(0, 0, 2, Default::default()),
        PayloadType::new(1, 0, 1, Default::default()),
        PayloadType::new(1, 0, 2, Default::default()),
        PayloadType::new(1, 0, 3, Default::default()),
    ];

    let dummy_payloads2 = vec![
        PayloadType::new(1, 0, 4, Default::default()),
        PayloadType::new(2, 0, 1, Default::default()),
    ];

    let mut cache = InnerEventCache::default();
    let res1 =
        cache.ensure_order_guarantee(dummy_payloads1.clone(), dummy_payloads1, MAX_TRIALS_NUM);
    assert_eq!(
        res1,
        vec![
            PayloadType::new(0, 0, 1, Default::default()),
            PayloadType::new(0, 0, 2, Default::default()),
            PayloadType::new(1, 0, 1, Default::default()),
            PayloadType::new(1, 0, 2, Default::default()),
            PayloadType::new(1, 0, 3, Default::default()),
        ]
    );

    let res2 =
        cache.ensure_order_guarantee(dummy_payloads2.clone(), dummy_payloads2, MAX_TRIALS_NUM);
    assert_eq!(
        res2,
        vec![
            PayloadType::new(1, 0, 4, Default::default()),
            PayloadType::new(2, 0, 1, Default::default()),
        ]
    );
}

#[test]
fn test_fix_reorder_using_cache() {
    let dummy_payloads1 = vec![
        PayloadType::new(0, 0, 1, Default::default()),
        PayloadType::new(0, 0, 2, Default::default()),
        PayloadType::new(0, 0, 4, Default::default()),
        PayloadType::new(0, 0, 5, Default::default()),
    ];

    let dummy_payloads2 = vec![
        PayloadType::new(0, 0, 3, Default::default()),
        PayloadType::new(0, 0, 6, Default::default()),
        PayloadType::new(0, 0, 7, Default::default()),
    ];

    let mut cache = InnerEventCache::default();
    let res1 =
        cache.ensure_order_guarantee(dummy_payloads1.clone(), dummy_payloads1, MAX_TRIALS_NUM);
    assert_eq!(
        res1,
        vec![
            PayloadType::new(0, 0, 1, Default::default()),
            PayloadType::new(0, 0, 2, Default::default()),
        ]
    );

    let res2 =
        cache.ensure_order_guarantee(dummy_payloads2.clone(), dummy_payloads2, MAX_TRIALS_NUM);
    assert_eq!(
        res2,
        vec![
            PayloadType::new(0, 0, 3, Default::default()),
            PayloadType::new(0, 0, 4, Default::default()),
            PayloadType::new(0, 0, 5, Default::default()),
            PayloadType::new(0, 0, 6, Default::default()),
            PayloadType::new(0, 0, 7, Default::default()),
        ]
    );
}

#[test]
fn test_fix_order_handshake() {
    let dummy_payloads1 = vec![
        PayloadType::new(0, 0, 1, Default::default()),
        PayloadType::new(0, 0, 2, Default::default()),
        PayloadType::new(0, 1, 1, Default::default()),
        PayloadType::new(0, 0, u32::MAX, Default::default()),
    ];

    let dummy_payloads2 = vec![
        PayloadType::new(0, 1, 2, Default::default()),
        PayloadType::new(0, 1, 3, Default::default()),
        PayloadType::new(0, 1, 4, Default::default()),
    ];

    let mut cache = InnerEventCache::default();
    let res1 =
        cache.ensure_order_guarantee(dummy_payloads1.clone(), dummy_payloads1, MAX_TRIALS_NUM);
    assert_eq!(
        res1,
        vec![
            PayloadType::new(0, 0, 1, Default::default()),
            PayloadType::new(0, 0, 2, Default::default()),
            PayloadType::new(0, 1, 1, Default::default()),
            PayloadType::new(0, 0, u32::MAX, Default::default()),
        ]
    );

    let res2 =
        cache.ensure_order_guarantee(dummy_payloads2.clone(), dummy_payloads2, MAX_TRIALS_NUM);
    assert_eq!(
        res2,
        vec![
            PayloadType::new(0, 1, 2, Default::default()),
            PayloadType::new(0, 1, 3, Default::default()),
            PayloadType::new(0, 1, 4, Default::default()),
        ]
    );
}

#[test]
fn test_over_max_trials_num() {
    let dummy_payloads1 = vec![
        PayloadType::new(0, 0, 1, Default::default()),
        PayloadType::new(0, 0, 2, Default::default()),
        PayloadType::new(0, 0, 4, Default::default()),
        PayloadType::new(0, 0, 5, Default::default()),
    ];

    let dummy_payloads2 = vec![
        PayloadType::new(0, 0, 3, Default::default()),
        PayloadType::new(0, 0, 6, Default::default()),
        PayloadType::new(0, 0, 7, Default::default()),
    ];

    let mut cache = InnerEventCache::default();
    let res1 = cache.ensure_order_guarantee(dummy_payloads1.clone(), dummy_payloads1, 0);
    assert_eq!(
        res1,
        vec![
            PayloadType::new(0, 0, 1, Default::default()),
            PayloadType::new(0, 0, 2, Default::default()),
            PayloadType::new(0, 0, 5, Default::default()),
            PayloadType::new(0, 0, 4, Default::default()),
        ]
    );

    let res2 = cache.ensure_order_guarantee(dummy_payloads2.clone(), dummy_payloads2, 0);
    assert_eq!(
        res2,
        vec![
            PayloadType::new(0, 0, 3, Default::default()),
            PayloadType::new(0, 0, 6, Default::default()),
            PayloadType::new(0, 0, 7, Default::default()),
        ]
    );
}

#[test]
fn duplicate_batch_releases_nothing() {
    let mut cache = InnerEventCache::new();
    let batch = vec![p(0, 0, 1), p(0, 0, 2)];
    let first = cache.ensure_order_guarantee(batch.clone(), batch.clone(), MAX_TRIALS_NUM);
    assert_eq!(first, vec![p(0, 0, 1), p(0, 0, 2)]);
    let second = cache.ensure_order_guarantee(batch.clone(), batch, MAX_TRIALS_NUM);
    assert_eq!(second, Vec::<PayloadType>::new());
    assert_eq!(cache.pool_len(0), 0);
    assert_eq!(cache.treekem_counter_of(0), (0, 2));
}

#[test]
fn empty_batch_returns_empty() {
    let mut cache = InnerEventCache::new();
    let out = cache.ensure_order_guarantee(Vec::new(), Vec::new(), MAX_TRIALS_NUM);
    assert!(out.is_empty());
}

#[test]
fn reorder_leaves_pool_and_counters_as_expected() {
    let mut cache = InnerEventCache::new();
    let a = vec![p(0, 0, 1), p(0, 0, 2), p(0, 0, 4), p(0, 0, 5)];
    let out = cache.ensure_order_guarantee(a.clone(), a, MAX_TRIALS_NUM);
    assert_eq!(out, vec![p(0, 0, 1), p(0, 0, 2)]);
    assert_eq!(cache.pool_len(0), 2);
    assert_eq!(cache.trials_of(0), 4);
    assert_eq!(cache.treekem_counter_of(0), (0, 2));

    let b = vec![p(0, 0, 3), p(0, 0, 6), p(0, 0, 7)];
    let out = cache.ensure_order_guarantee(b.clone(), b, MAX_TRIALS_NUM);
    assert_eq!(out, vec![p(0, 0, 3), p(0, 0, 4), p(0, 0, 5), p(0, 0, 6), p(0, 0, 7)]);
    assert_eq!(cache.pool_len(0), 0);
    assert_eq!(cache.treekem_counter_of(0), (0, 7));
    assert_eq!(cache.trials_of(0), 1);
}

#[test]
fn sender_without_pool_is_never_skipped() {
    let mut cache = InnerEventCache::new();
    let first = vec![p(0, 0, 5)];
    let out = cache.ensure_order_guarantee(first.clone(), first, 0);
    assert_eq!(out, Vec::<PayloadType>::new());
    assert_eq!(cache.pool_len(0), 1);
    assert_eq!(cache.trials_of(0), 1);

    let second = vec![p(0, 0, 7)];
    let out = cache.ensure_order_guarantee(second.clone(), second, 0);
    assert_eq!(out, vec![p(0, 0, 5), p(0, 0, 7)]);
    assert_eq!(cache.pool_len(0), 0);
    assert_eq!(cache.trials_of(0), 0);
    assert_eq!(cache.treekem_counter_of(0), (0, 7));
}

#[test]
fn skip_returns_before_the_rest_of_the_batch() {
    let mut cache = InnerEventCache::new();
    let first = vec![p(0, 0, 5)];
    cache.ensure_order_guarantee(first.clone(), first, 0);

    let second = vec![p(0, 0, 7), p(0, 0, 9)];
    let out = cache.ensure_order_guarantee(second.clone(), second, 0);
    assert_eq!(out, vec![p(0, 0, 5), p(0, 0, 7), p(0, 0, 9)]);
    assert_eq!(cache.treekem_counter_of(0), (0, 7));
    assert_eq!(cache.trials_of(0), 0);
}

#[test]
fn filled_gap_keeps_a_payload_that_does_not_follow() {
    let mut cache = InnerEventCache::new();
    let a = vec![p(0, 0, 1), p(0, 0, 2)];
    cache.ensure_order_guarantee(a.clone(), a, MAX_TRIALS_NUM);
    let b = vec![p(0, 0, 4)];
    assert!(cache.ensure_order_guarantee(b.clone(), b, MAX_TRIALS_NUM).is_empty());
    let c = vec![p(0, 0, 3)];
    assert_eq!(cache.ensure_order_guarantee(c.clone(), c, MAX_TRIALS_NUM), vec![p(0, 0, 3)]);

    let d = vec![p(0, 0, 9)];
    let out = cache.ensure_order_guarantee(d.clone(), d, MAX_TRIALS_NUM);
    assert_eq!(out, vec![p(0, 0, 4)]);
    assert_eq!(cache.pool_len(0), 1);
    assert_eq!(cache.treekem_counter_of(0), (0, 9));
    assert_eq!(cache.trials_of(0), 0);
}

#[test]
fn splice_beyond_the_end_appends() {
    let mut cache = InnerEventCache::new();
    let a = vec![p(0, 0, 1), p(0, 0, 2)];
    cache.ensure_order_guarantee(a.clone(), a, MAX_TRIALS_NUM);
    let b = vec![p(0, 0, 4)];
    cache.ensure_order_guarantee(b.clone(), b, MAX_TRIALS_NUM);
    let c = vec![p(0, 0, 3)];
    cache.ensure_order_guarantee(c.clone(), c, MAX_TRIALS_NUM);

    let d = vec![p(1, 0, 5), p(1, 0, 7), p(0, 0, 6)];
    let out = cache.ensure_order_guarantee(d.clone(), d, MAX_TRIALS_NUM);
    assert_eq!(out, vec![p(0, 0, 4)]);
    assert_eq!(cache.pool_len(1), 2);
    assert_eq!(cache.pool_len(0), 1);
    assert_eq!(cache.treekem_counter_of(0), (0, 6));
}

#[test]
fn stale_payload_is_dropped_not_pooled() {
    let mut cache = InnerEventCache::new();
    let a = vec![p(3, 2, 7)];
    cache.ensure_order_guarantee(a.clone(), a, MAX_TRIALS_NUM);
    assert_eq!(cache.treekem_counter_of(3), (2, 7));
    let mut batch = vec![p(3, 2, 5), p(3, 2, 9)];
    cache.insert_payloads_pool(p(3, 2, 5), &mut batch);
    assert_eq!(batch, vec![p(3, 2, 9)]);
    assert_eq!(cache.pool_len(3), 0);
    cache.insert_payloads_pool(p(3, 2, 7), &mut batch);
    assert_eq!(cache.pool_len(3), 0);
    cache.insert_payloads_pool(p(3, 2, 9), &mut batch);
    assert!(batch.is_empty());
    assert_eq!(cache.pool_len(3), 1);
}

#[test]
fn next_message_rule() {
    let mut cache = InnerEventCache::new();
    assert!(cache.is_next_msg(&p(0, 0, 1)));
    assert!(cache.is_next_msg(&p(0, 0, 0)));
    assert!(cache.is_next_msg(&p(0, 0, u32::MAX)));
    assert!(!cache.is_next_msg(&p(0, 0, 2)));
    assert!(cache.is_next_msg(&p(0, 1, 2)));

    cache.update_treekem_counter(&p(0, 4, u32::MAX));
    assert_eq!(cache.treekem_counter_of(0), (4, u32::MAX));
    assert!(!cache.is_next_msg(&p(0, 4, 1)));
    assert!(cache.is_next_msg(&p(0, 4, 0)));
    assert!(cache.is_next_msg(&p(0, 4, u32::MAX)));
    assert!(cache.is_next_msg(&p(0, 3, 17)));
    assert!(cache.is_next_msg(&p(1, 0, 1)));
}

#[test]
fn payload_is_next_of_payload() {
    assert!(p(0, 0, 1).is_next(&p(0, 0, 2)));
    assert!(!p(0, 0, 1).is_next(&p(0, 0, 3)));
    assert!(!p(0, 0, 1).is_next(&p(1, 0, 2)));
    assert!(!p(0, 0, 1).is_next(&p(0, 1, 2)));
    assert!(!p(0, 0, u32::MAX).is_next(&p(0, 0, 0)));
    assert!(p(0, 2, 5).is_at_or_below((2, 5)));
    assert!(p(0, 1, 9).is_at_or_below((2, 5)));
    assert!(!p(0, 2, 6).is_at_or_below((2, 5)));
    assert!(!p(0, 3, 0).is_at_or_below((2, 5)));
}

#[test]
fn payload_getters_and_equality() {
    let a = PayloadType::new(7, 8, 9, vec![1, 2, 3]);
    assert_eq!(a.roster_idx(), 7);
    assert_eq!(a.epoch(), 8);
    assert_eq!(a.generation(), 9);
    assert_eq!(a.body(), &vec![1u8, 2, 3]);
    assert_eq!(a.clone(), a);
    assert_ne!(a, PayloadType::new(7, 8, 9, vec![1, 2, 4]));
    assert_ne!(a, PayloadType::new(7, 8, 10, vec![1, 2, 3]));
}

#[test]
fn trials_count_each_observation() {
    let mut cache = InnerEventCache::new();
    assert_eq!(cache.trials_of(5), 0);
    cache.increment_trials_counter(&p(5, 0, 1));
    cache.increment_trials_counter(&p(5, 0, 1));
    assert_eq!(cache.trials_of(5), 2);
    assert_eq!(cache.trials_of(6), 0);
    cache.reset_trials_counter(5);
    assert_eq!(cache.trials_of(5), 0);
}

#[test]
fn multi_trials_counts_each_sender_once() {
    let mut cache = InnerEventCache::new();
    let batch = vec![p(0, 0, 1), p(1, 0, 1), p(0, 0, 2), p(0, 0, 3)];
    cache.increment_multi_trials_counter(&batch);
    assert_eq!(cache.trials_of(0), 1);
    assert_eq!(cache.trials_of(1), 1);
    assert_eq!(cache.trials_of(2), 0);
    cache.increment_multi_trials_counter(&batch);
    assert_eq!(cache.trials_of(0), 2);
    cache.increment_multi_trials_counter(&[]);
    assert_eq!(cache.trials_of(0), 2);
}

#[test]
fn find_next_payloads_reports_what_the_pool_offered() {
    let mut cache = InnerEventCache::new();
    let (run, kind) = cache.find_next_payloads(&p(0, 0, 9), 0);
    assert!(run.is_empty());
    assert_eq!(kind, Lookup::Missing);

    let mut batch = vec![p(0, 0, 4), p(0, 0, 5), p(0, 0, 7)];
    cache.insert_payloads_pool(p(0, 0, 5), &mut batch);
    cache.insert_payloads_pool(p(0, 0, 7), &mut batch);
    cache.insert_payloads_pool(p(0, 0, 4), &mut batch);
    assert!(batch.is_empty());
    assert_eq!(cache.pool_len(0), 3);

    let (run, kind) = cache.find_next_payloads(&p(0, 0, 9), 50);
    assert!(run.is_empty());
    assert_eq!(kind, Lookup::Missing);

    cache.update_treekem_counter(&p(0, 0, 3));
    cache.increment_trials_counter(&p(0, 0, 9));
    let (run, kind) = cache.find_next_payloads(&p(0, 0, 9), 50);
    assert_eq!(run, vec![p(0, 0, 4), p(0, 0, 5)]);
    assert_eq!(kind, Lookup::Filled);
    assert_eq!(cache.pool_len(0), 1);
    assert_eq!(cache.trials_of(0), 0);

    cache.increment_trials_counter(&p(0, 0, 9));
    let (run, kind) = cache.find_next_payloads(&p(0, 0, 9), 0);
    assert_eq!(run, vec![p(0, 0, 7)]);
    assert_eq!(kind, Lookup::Skipped);
    assert_eq!(cache.pool_len(0), 0);

    cache.increment_trials_counter(&p(0, 0, 9));
    let (run, kind) = cache.find_next_payloads(&p(0, 0, 9), 0);
    assert!(run.is_empty());
    assert_eq!(kind, Lookup::Skipped);
}

#[test]
fn a_gap_is_given_up_after_the_limit() {
    let mut cache = InnerEventCache::new();
    let max = 2;
    let mut released = Vec::new();
    let mut resolved_at = None;
    let arrivals = vec![p(0, 0, 5), p(0, 0, 7), p(0, 0, 9), p(0, 0, 11)];
    for (i, payload) in arrivals.iter().enumerate() {
        let batch = vec![payload.clone()];
        let out = cache.ensure_order_guarantee(batch.clone(), batch, max);
        if !out.is_empty() && resolved_at.is_none() {
            resolved_at = Some(i);
        }
        released.extend(out);
    }
    assert_eq!(resolved_at, Some(2));
    assert_eq!(released, vec![p(0, 0, 5), p(0, 0, 9)]);
    assert_eq!(cache.pool_len(0), 2);
}

#[test]
fn same_batches_same_release() {
    let batches = vec![
        vec![p(0, 0, 1), p(1, 0, 3), p(0, 0, 4)],
        vec![p(1, 0, 1), p(0, 0, 2), p(1, 0, 2)],
        vec![p(0, 0, 3), p(0, 1, 1), p(1, 0, 9)],
        vec![p(0, 0, 7), p(1, 0, 4)],
    ];
    let mut first = InnerEventCache::new();
    let mut second = InnerEventCache::new();
    second.insert_next_block_num(ContractAddr::new([9u8; 20]), 77);
    for batch in batches {
        let a = first.ensure_order_guarantee(batch.clone(), batch.clone(), 1);
        let b = second.ensure_order_guarantee(batch.clone(), batch, 1);
        assert_eq!(a, b);
    }
    assert_eq!(first.treekem_counter_of(0), second.treekem_counter_of(0));
    assert_eq!(first.pool_len(1), second.pool_len(1));
}

#[test]
fn block_number_store() {
    let mut cache = InnerEventCache::new();
    let a = ContractAddr::new([1u8; 20]);
    let mut other = [1u8; 20];
    other[19] = 2;
    let b = ContractAddr::new(other);
    assert_eq!(cache.get_latest_block_num(a), None);
    assert_eq!(cache.insert_next_block_num(a, 10), None);
    assert_eq!(cache.get_latest_block_num(a), Some(10));
    assert_eq!(cache.get_latest_block_num(b), None);
    assert_eq!(cache.insert_next_block_num(a, 12), Some(10));
    assert_eq!(cache.insert_next_block_num(a, 12), Some(12));
    assert_eq!(cache.get_latest_block_num(a), Some(12));
    assert_eq!(cache.insert_next_block_num(b, 3), None);
    assert_eq!(cache.get_latest_block_num(a), Some(12));
    assert_eq!(cache.get_latest_block_num(b), Some(3));
    assert!(a.same(&ContractAddr::new([1u8; 20])));
    assert!(!a.same(&b));
    assert_eq!(b.as_bytes(), &other);
}

#[test]
fn pool_helpers() {
    let mut pool = vec![p(0, 0, 4), p(0, 0, 5), p(0, 0, 7)];
    let run = set_continuous_payloads(vec![p(0, 0, 1)], &mut pool);
    assert_eq!(run, vec![p(0, 0, 1), p(0, 0, 4), p(0, 0, 5)]);
    assert_eq!(pool, vec![p(0, 0, 7)]);
    let mut empty: Vec<PayloadType> = Vec::new();
    assert!(set_continuous_payloads(Vec::new(), &mut empty).is_empty());

    let merged = insert_chunks_at_index(vec![p(0, 0, 1), p(0, 0, 9)], &[p(0, 0, 2), p(0, 0, 3)], 1);
    assert_eq!(merged, vec![p(0, 0, 1), p(0, 0, 2), p(0, 0, 3), p(0, 0, 9)]);
    let merged = insert_chunks_at_index(vec![p(0, 0, 1)], &[p(0, 0, 2)], 5);
    assert_eq!(merged, vec![p(0, 0, 1), p(0, 0, 2)]);
    let merged = insert_chunks_at_index(vec![p(0, 0, 1)], &[p(0, 0, 2)], 0);
    assert_eq!(merged, vec![p(0, 0, 2), p(0, 0, 1)]);

    let mut sorted = Vec::new();
    insert_sorted(&mut sorted, p(0, 1, 2));
    insert_sorted(&mut sorted, p(0, 0, 9));
    insert_sorted(&mut sorted, p(0, 1, 1));
    insert_sorted(&mut sorted, PayloadType::new(0, 1, 1, vec![1]));
    insert_sorted(&mut sorted, p(0, 2, 0));
    assert_eq!(
        sorted,
        vec![
            p(0, 0, 9),
            p(0, 1, 1),
            PayloadType::new(0, 1, 1, vec![1]),
            p(0, 1, 2),
            p(0, 2, 0)
        ]
    );

    let mut batch = vec![p(0, 0, 1), p(0, 0, 2), p(0, 0, 1)];
    assert!(remove_first(&mut batch, &p(0, 0, 1)));
    assert_eq!(batch, vec![p(0, 0, 2), p(0, 0, 1)]);
    assert!(!remove_first(&mut batch, &p(0, 0, 3)));
    assert_eq!(batch, vec![p(0, 0, 2), p(0, 0, 1)]);
}

#[test]
fn actions_owed_for_released_payloads() {
    assert_eq!(actions_for(&p(4, 0, u32::MAX)), vec![Action::ProcessHandshake]);
    assert_eq!(
        actions_for(&p(4, 0, 3)),
        vec![
            Action::SyncRatchet { roster_idx: 4 },
            Action::ReceiverRatchet { roster_idx: 4 },
            Action::StateTransition
        ]
    );
}
