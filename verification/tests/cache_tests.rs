use remp_core::cache::{CacheError, MessageCache, RempDuplicateStatus};
use remp_core::ids::{BlockIdExt, ShardIdent, Uint256};
use remp_core::message::RmqMessage;
use remp_core::status::{RempMessageLevel, RempMessageStatus};

fn uid(x: u64) -> Uint256 {
    Uint256 { w0: 0, w1: 0, w2: 0, w3: x }
}

fn shard(wc: i32) -> ShardIdent {
    ShardIdent { workchain: wc, prefix: 0x8000_0000_0000_0000 }
}

fn blk(tag: u64) -> BlockIdExt {
    BlockIdExt { shard: shard(0), seqno: tag as u32, root_hash: uid(tag), file_hash: uid(tag) }
}

fn accepted(level: RempMessageLevel, b: BlockIdExt) -> RempMessageStatus {
    RempMessageStatus::Accepted { level, block_id: b, master_id: blk(0) }
}

fn record(id: u64, cc: u32) -> RmqMessage {
    RmqMessage::new(vec![1, 2, 3], uid(id), uid(900 + id), 0, cc)
}

#[test]
fn insert_reject_cycle() {
    let mut cache = MessageCache::with_metrics();
    let r1 = record(0x11, 10);
    let id = r1.message_id;
    assert_eq!(cache.new_message_with_shard(r1, shard(0)), (true, 1));

    let rejected = RempMessageStatus::Rejected {
        level: RempMessageLevel::Collator,
        block_id: blk(1),
        error: b"bad".to_vec(),
    };
    let stored = cache.update_message_status(&id, rejected.clone());
    assert_eq!(stored, Ok(Some(rejected.clone())));

    // Rejected is terminal: a later acceptance is an illegal transition.
    let res = cache.update_message_status(&id, accepted(RempMessageLevel::Collator, blk(2)));
    assert_eq!(res, Err(CacheError::IllegalStatusChange));
    assert_eq!(cache.get_message_status(&id), Some(rejected));

    let old = cache.get_old_messages(12);
    assert_eq!(old.len(), 1);
    assert_eq!(old[0].0.message_id, id);
    assert_eq!(old[0].1, None);
}

#[test]
fn duplicate_detection() {
    let mut cache = MessageCache::with_metrics();
    let r2 = record(0x22, 5);
    let id = r2.message_id;
    assert_eq!(cache.new_message_with_shard(r2, shard(0)), (true, 1));

    let first = accepted(RempMessageLevel::Collator, blk(0xAA));
    assert_eq!(cache.update_message_status(&id, first.clone()), Ok(Some(first)));

    // A shard-level acceptance for a different block marks the message as
    // a duplicate of that block.
    let second = accepted(RempMessageLevel::Shardchain, blk(0xBB));
    let dup = RempMessageStatus::Duplicate { block_id: blk(0xBB) };
    assert_eq!(cache.update_message_status(&id, second), Ok(Some(dup.clone())));
    assert_eq!(cache.get_message_status(&id), Some(dup.clone()));

    // Further acceptances are silently dropped and the status stays.
    let third = accepted(RempMessageLevel::Masterchain, blk(0xCC));
    assert_eq!(cache.update_message_status(&id, third), Ok(None));
    assert_eq!(cache.get_message_status(&id), Some(dup));
}

#[test]
fn timeout_sweep() {
    let mut cache = MessageCache::with_metrics();
    let r3 = record(0x33, 7);
    let id = r3.message_id;
    cache.new_message_with_shard(r3, shard(0));

    let old = cache.get_old_messages(9);
    assert_eq!(old.len(), 1);
    assert_eq!(old[0].1, Some(RempMessageStatus::Timeout));

    let applied = cache.update_message_status(&id, RempMessageStatus::Timeout);
    assert_eq!(applied, Ok(Some(RempMessageStatus::Timeout)));
    cache.remove_message(&id);
    assert_eq!(cache.all_messages_count(), 0);
}

#[test]
fn downgrade_sweep() {
    let mut cache = MessageCache::with_metrics();
    let s = shard(0);
    let other = shard(-1);
    let r4 = record(0x44, 1);
    let r5 = record(0x55, 1);
    let r6 = record(0x66, 1);
    let (id4, id5, id6) = (r4.message_id, r5.message_id, r6.message_id);
    cache.new_message_with_shard(r4, s);
    cache.new_message_with_shard(r5, s);
    cache.new_message_with_shard(r6, other);

    let acc = accepted(RempMessageLevel::Collator, blk(7));
    cache.update_message_status(&id4, acc.clone()).unwrap();
    cache.update_message_status(&id5, acc.clone()).unwrap();
    cache.update_message_status(&id6, acc.clone()).unwrap();

    let batch = cache.downgrade_accepted_by_collator(&s);
    assert_eq!(batch.len(), 2);
    let ignored = RempMessageStatus::Ignored {
        level: RempMessageLevel::Collator,
        block_id: blk(7),
    };
    assert_eq!(batch[0].1, ignored);
    assert_eq!(batch[1].1, ignored);
    assert_eq!(cache.get_message_status(&id4), Some(ignored.clone()));
    assert_eq!(cache.get_message_status(&id5), Some(ignored.clone()));
    // Only the named shard is touched.
    assert_eq!(cache.get_message_status(&id6), Some(acc));

    let again = cache.downgrade_accepted_by_collator(&s);
    assert!(again.is_empty());
}

#[test]
fn insert_is_idempotent() {
    let mut cache = MessageCache::with_metrics();
    let r = record(0x77, 3);
    let id = r.message_id;
    assert_eq!(cache.new_message_with_shard(r, shard(0)), (true, 1));
    // Same id again: refused, size unchanged, record and status untouched.
    let clash = RmqMessage::new(vec![9, 9], uid(0x77), uid(1), 5, 8);
    assert_eq!(cache.new_message_with_shard(clash, shard(-1)), (false, 1));
    let got = cache.get_message(&id).unwrap();
    assert_eq!(got.message, vec![1, 2, 3]);
    assert_eq!(cache.get_message_status(&id), Some(RempMessageStatus::New));
}

#[test]
fn remove_is_idempotent() {
    let mut cache = MessageCache::with_metrics();
    let r = record(0x88, 3);
    let id = r.message_id;
    cache.new_message_with_shard(r, shard(0));
    cache.remove_message(&id);
    assert_eq!(cache.all_messages_count(), 0);
    cache.remove_message(&id);
    assert_eq!(cache.all_messages_count(), 0);
    assert!(cache.get_message(&id).is_none());
}

#[test]
fn expiry_boundary() {
    let mut cache = MessageCache::with_metrics();
    let at_boundary = record(0x91, 10);
    let fresh = record(0x92, 11);
    cache.new_message_with_shard(at_boundary, shard(0));
    cache.new_message_with_shard(fresh, shard(0));
    // master_cc_seqno = cc - 2 is expired; cc - 1 is not.
    let old = cache.get_old_messages(12);
    assert_eq!(old.len(), 1);
    assert_eq!(old[0].0.message_id, uid(0x91));
}

#[test]
fn update_missing_message_fails() {
    let mut cache = MessageCache::with_metrics();
    let res = cache.update_message_status(&uid(1), RempMessageStatus::Timeout);
    assert_eq!(res, Err(CacheError::MessageNotFound));
}

#[test]
fn check_duplicates_classification() {
    let mut cache = MessageCache::with_metrics();
    assert_eq!(cache.check_message_duplicates(&uid(5)), RempDuplicateStatus::Absent);
    let r = record(5, 1);
    let id = r.message_id;
    cache.new_message_with_shard(r, shard(0));
    assert_eq!(cache.check_message_duplicates(&id), RempDuplicateStatus::Fresh);
    cache.update_message_status(&id, accepted(RempMessageLevel::Collator, blk(3))).unwrap();
    assert_eq!(cache.check_message_duplicates(&id), RempDuplicateStatus::Fresh);
    cache.update_message_status(&id, accepted(RempMessageLevel::Shardchain, blk(3))).unwrap();
    assert_eq!(cache.check_message_duplicates(&id), RempDuplicateStatus::Duplicate(blk(3)));
}

#[test]
fn get_with_status_pairs() {
    let mut cache = MessageCache::with_metrics();
    assert!(cache.get_message_with_status(&uid(2)).is_none());
    let r = record(2, 1);
    let id = r.message_id;
    cache.new_message_with_shard(r, shard(0));
    let (m, s) = cache.get_message_with_status(&id).unwrap();
    assert_eq!(m.message_id, id);
    assert_eq!(s, RempMessageStatus::New);
}

#[test]
fn shard_listing() {
    let mut cache = MessageCache::with_metrics();
    let s = shard(0);
    let r1 = record(1, 1);
    let r2 = record(2, 1);
    let r3 = record(3, 1);
    cache.new_message_with_shard(r1, s);
    cache.new_message_with_shard(r2, shard(-1));
    cache.new_message_with_shard(r3, s);
    assert_eq!(cache.received_messages_count(&s), 2);
    let v = cache.received_messages_to_vector(&s);
    assert_eq!(v.len(), 2);
    assert_eq!(v[0].0.message_id, uid(1));
    assert_eq!(v[1].0.message_id, uid(3));
    assert_eq!(cache.list_all_messages().len(), 3);
}

#[test]
fn record_constructors() {
    let r = record(9, 4);
    assert!(!r.is_expired(5));
    assert!(r.is_expired(6));
    let r2 = r.new_with_updated_source_idx(17);
    assert_eq!(r2.source_idx, 17);
    assert_eq!(r2.message_id, r.message_id);
    assert_eq!(r2.message, r.message);
    assert_eq!(r2.timestamp, r.timestamp);
}

#[test]
fn ignored_messages_can_be_accepted_again() {
    let mut cache = MessageCache::with_metrics();
    let s = shard(0);
    let r = record(0x99, 1);
    let id = r.message_id;
    cache.new_message_with_shard(r, s);
    cache.update_message_status(&id, accepted(RempMessageLevel::Collator, blk(1))).unwrap();
    cache.downgrade_accepted_by_collator(&s);
    // An ignored message may be accepted again, for any level and block.
    let revived = accepted(RempMessageLevel::Shardchain, blk(2));
    assert_eq!(cache.update_message_status(&id, revived.clone()), Ok(Some(revived)));
}
