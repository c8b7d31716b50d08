use std::collections::BTreeMap;
use worker::{
    assign, is_owned_by, owner_of, Ingest, Mailbox, MemberlistProvider, Membership,
    PartitionSet, Phase, ProviderAction, RecordOutcome, RoundRobinScheduler, WorkItem,
};

fn ids(v: &[u64]) -> Membership {
    Membership::new(&v.to_vec())
}

fn emit(outcome: RecordOutcome) -> WorkItem {
    match outcome {
        RecordOutcome::Emit(item) => item,
        other => panic!("expected a work item, got {:?}", other),
    }
}

#[test]
fn ids_are_sorted_and_deduplicated() {
    let m = ids(&[30, 10, 20, 10, 30]);
    assert_eq!(m.as_vec(), &vec![10, 20, 30]);
    assert_eq!(m.len(), 3);
    assert!(!m.is_empty());
    assert!(Membership::empty().is_empty());
}

#[test]
fn assignment_is_deterministic_across_input_orders() {
    let a = assign(&ids(&[3, 1, 2]), &ids(&[5, 0, 4, 1, 3, 2]));
    let b = assign(&ids(&[2, 3, 1, 1]), &ids(&[0, 1, 2, 3, 4, 5, 5]));
    assert_eq!(a, b);
    assert_eq!(a, vec![(0, 1), (1, 2), (2, 3), (3, 1), (4, 2), (5, 3)]);
}

#[test]
fn assignment_covers_every_partition_once() {
    let members = ids(&[10, 20, 30]);
    let parts = ids(&[7, 1, 9, 4, 2]);
    let a = assign(&members, &parts);
    assert_eq!(a.len(), 5);
    for p in [1u64, 2, 4, 7, 9] {
        let hits: Vec<&(u64, u64)> = a.iter().filter(|e| e.0 == p).collect();
        assert_eq!(hits.len(), 1);
        assert!([10u64, 20, 30].contains(&hits[0].1));
    }
    assert_eq!(owner_of(&members, 7), 20);
    assert_eq!(owner_of(&members, 9), 10);
}

#[test]
fn empty_membership_assigns_nothing() {
    let a = assign(&Membership::empty(), &ids(&[0, 1, 2]));
    assert!(a.is_empty());
    assert!(!is_owned_by(&Membership::empty(), 0, 1));
}

#[test]
fn removed_member_gets_no_partitions() {
    let before = ids(&[1, 2, 3]);
    let after = before.without(2);
    assert_eq!(after.as_vec(), &vec![1, 3]);
    let parts = ids(&[0, 1, 2, 3, 4, 5]);
    assert!(assign(&before, &parts).iter().any(|e| e.1 == 2));
    let a = assign(&after, &parts);
    assert_eq!(a.len(), 6);
    for (_, owner) in a {
        assert!(owner == 1 || owner == 3);
    }
}

#[test]
fn mailbox_delivers_in_send_order() {
    let mut mb: Mailbox<&str> = Mailbox::unbounded();
    assert_eq!(mb.try_send("a"), Ok(()));
    assert_eq!(mb.try_send("b"), Ok(()));
    assert_eq!(mb.recv(), Some("a"));
    assert_eq!(mb.recv(), Some("b"));
    assert_eq!(mb.recv(), None);
}

#[test]
fn full_mailbox_holds_back_the_second_send() {
    let mut mb: Mailbox<u32> = Mailbox::bounded(1);
    assert_eq!(mb.capacity(), Some(1));
    assert_eq!(mb.try_send(1), Ok(()));
    assert!(mb.is_full());
    // The sender of the second message is refused and keeps its message.
    assert_eq!(mb.try_send(2), Err(2));
    assert_eq!(mb.len(), 1);
    assert_eq!(mb.recv(), Some(1));
    assert!(mb.is_empty());
    assert_eq!(mb.try_send(2), Ok(()));
    assert_eq!(mb.recv(), Some(2));
}

#[test]
fn round_robin_gives_each_handler_its_share_in_order() {
    let n = 3usize;
    let k = 4u32;
    let mut s = RoundRobinScheduler::new(n).unwrap();
    let items: Vec<u32> = (0..k * n as u32).collect();
    let buckets = s.distribute(items);
    assert_eq!(buckets.len(), n);
    assert_eq!(buckets[0], vec![0, 3, 6, 9]);
    assert_eq!(buckets[1], vec![1, 4, 7, 10]);
    assert_eq!(buckets[2], vec![2, 5, 8, 11]);
    assert_eq!(s.peek_next(), 0);
}

#[test]
fn round_robin_continues_across_batches() {
    let mut s = RoundRobinScheduler::new(3).unwrap();
    assert_eq!(s.route(), 0);
    assert_eq!(s.route(), 1);
    let buckets = s.distribute(vec!['x', 'y', 'z', 'w']);
    assert_eq!(buckets[2], vec!['x', 'w']);
    assert_eq!(buckets[0], vec!['y']);
    assert_eq!(buckets[1], vec!['z']);
    assert_eq!(s.peek_next(), 0);
    assert_eq!(s.pool_size(), 3);
}

#[test]
fn empty_pool_has_no_scheduler() {
    assert!(RoundRobinScheduler::new(0).is_none());
}

#[test]
fn ingest_consumes_owned_partitions_only() {
    let parts = ids(&[0, 1, 2, 3]);
    let mut ingest = Ingest::new(20, parts);
    assert!(ingest.slots().iter().all(|s| s.phase == Phase::Unowned));
    ingest.on_membership(&ids(&[10, 20]));
    assert_eq!(ingest.phase_of(0), Some(Phase::Unowned));
    assert_eq!(ingest.phase_of(1), Some(Phase::Consuming));
    assert_eq!(ingest.phase_of(3), Some(Phase::Consuming));
    assert_eq!(ingest.phase_of(9), None);
    assert_eq!(ingest.on_record(0, Some(vec![1])), RecordOutcome::Ignored);
    assert_eq!(ingest.on_record(9, Some(vec![1])), RecordOutcome::Ignored);
    let item = emit(ingest.on_record(1, Some(vec![7, 8])));
    assert_eq!(item, WorkItem { partition: 1, offset: 0, payload: vec![7, 8] });
    assert_eq!(ingest.on_handed_off(1, 0), Some(1));
    assert_eq!(ingest.on_handed_off(1, 0), None);
}

#[test]
fn malformed_record_is_skipped_and_reported() {
    let mut ingest = Ingest::new(1, ids(&[5]));
    ingest.on_membership(&ids(&[1]));
    assert_eq!(
        ingest.on_record(5, None),
        RecordOutcome::Skipped { partition: 5, offset: 0 }
    );
    let item = emit(ingest.on_record(5, Some(vec![3])));
    assert_eq!(item.offset, 1);
    assert_eq!(ingest.slots()[0].committed, 1);
    assert_eq!(ingest.phase_of(5), Some(Phase::Consuming));
}

#[test]
fn cursor_at_the_last_offset_is_exhausted() {
    let mut ingest = Ingest::new(1, ids(&[5]));
    assert!(ingest.restore_checkpoint(5, u64::MAX));
    ingest.on_membership(&ids(&[1]));
    assert_eq!(ingest.on_record(5, Some(vec![0])), RecordOutcome::Exhausted);
    assert!(!ingest.restore_checkpoint(5, 0));
    assert!(!ingest.restore_checkpoint(6, 0));
}

#[test]
fn reassignment_drains_before_release() {
    let mut ingest = Ingest::new(2, ids(&[0, 1]));
    ingest.on_membership(&ids(&[2]));
    let a = emit(ingest.on_record(0, Some(vec![1])));
    let b = emit(ingest.on_record(0, Some(vec![2])));
    let c = emit(ingest.on_record(1, Some(vec![3])));
    // Node 2 leaves the snapshot mid-consumption.
    ingest.on_membership(&ids(&[1]));
    assert_eq!(ingest.phase_of(0), Some(Phase::Draining));
    assert_eq!(ingest.phase_of(1), Some(Phase::Draining));
    assert_eq!(ingest.slots()[0].in_flight, 2);
    // No new reads while draining.
    assert_eq!(ingest.on_record(0, Some(vec![9])), RecordOutcome::Ignored);
    assert_eq!(ingest.on_handed_off(0, a.offset), Some(1));
    assert_eq!(ingest.phase_of(0), Some(Phase::Draining));
    assert_eq!(ingest.on_handed_off(0, b.offset), Some(2));
    assert_eq!(ingest.phase_of(0), Some(Phase::Unowned));
    assert_eq!(ingest.on_handed_off(1, c.offset), Some(1));
    assert_eq!(ingest.phase_of(1), Some(Phase::Unowned));
}

#[test]
fn partition_that_comes_back_while_draining_resumes() {
    let mut ingest = Ingest::new(2, ids(&[0]));
    ingest.on_membership(&ids(&[2]));
    emit(ingest.on_record(0, Some(vec![1])));
    ingest.on_membership(&ids(&[1]));
    assert_eq!(ingest.phase_of(0), Some(Phase::Draining));
    ingest.on_membership(&ids(&[2]));
    assert_eq!(ingest.phase_of(0), Some(Phase::Consuming));
    assert_eq!(emit(ingest.on_record(0, Some(vec![2]))).offset, 1);
}

#[test]
fn crash_before_commit_redelivers_the_record() {
    let snapshot = ids(&[4]);
    let mut ingest = Ingest::new(4, ids(&[3]));
    ingest.on_membership(&snapshot);
    let first = emit(ingest.on_record(3, Some(vec![10])));
    let committed = ingest.on_handed_off(3, first.offset).unwrap();
    let lost = emit(ingest.on_record(3, Some(vec![11])));
    assert_eq!(lost.offset, 1);
    // Crash here: the record at offset 1 was decoded, never committed.
    drop(ingest);

    let mut restarted = Ingest::new(4, ids(&[3]));
    assert!(restarted.restore_checkpoint(3, committed));
    restarted.on_membership(&snapshot);
    let again = emit(restarted.on_record(3, Some(vec![11])));
    assert_eq!(again, lost);

    // A duplicate-tolerant handler keys what it stores by (partition, offset).
    let mut store: BTreeMap<(u64, u64), Vec<u8>> = BTreeMap::new();
    for item in [first, lost, again] {
        store.insert((item.partition, item.offset), item.payload);
    }
    assert_eq!(store.len(), 2);
    assert_eq!(store[&(3, 1)], vec![11]);
}

#[test]
fn provider_publishes_only_changes() {
    let mut p = MemberlistProvider::new();
    assert!(p.current().is_none());
    assert_eq!(p.on_registry(Some(vec![2, 1])), ProviderAction::Publish);
    assert_eq!(p.current().unwrap().as_vec(), &vec![1, 2]);
    assert_eq!(p.on_registry(Some(vec![1, 2, 2])), ProviderAction::Unchanged);
    assert_eq!(p.on_registry(Some(vec![1, 3])), ProviderAction::Publish);
    assert!(p.healthy());
}

#[test]
fn unreachable_registry_keeps_last_snapshot() {
    let mut p = MemberlistProvider::new();
    assert_eq!(p.on_registry(None), ProviderAction::Degraded);
    assert!(p.current().is_none());
    p.on_registry(Some(vec![5, 6]));
    assert_eq!(p.on_registry(None), ProviderAction::Degraded);
    assert!(!p.healthy());
    assert_eq!(p.current().unwrap().as_vec(), &vec![5, 6]);
    // A reachable registry with no members is a real, empty snapshot.
    assert_eq!(p.on_registry(Some(vec![])), ProviderAction::Publish);
    assert!(p.current().unwrap().is_empty());
    assert!(p.healthy());
}

#[test]
fn partition_set_lookup() {
    let parts: PartitionSet = ids(&[4, 2]);
    assert_eq!(parts.get(0), 2);
    assert_eq!(parts.get(1), 4);
}
