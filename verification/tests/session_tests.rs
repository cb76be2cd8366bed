use remp_core::ids::{ShardIdent, Uint256};
use remp_core::message::RmqMessage;
use remp_core::remp_catchain::{
    CatchainHandle, RempCatchainInfo, RempCatchainStore, SessionError, StoreError, ValidatorDescr,
};
use remp_core::status::RempMessageStatus;
use sha2::Digest;

fn uid(x: u64) -> Uint256 {
    Uint256 { w0: 0, w1: 0, w2: 0, w3: x }
}

fn shard() -> ShardIdent {
    ShardIdent { workchain: 0, prefix: 0x8000_0000_0000_0000 }
}

fn vd(key: u64, adnl: u64, node: u64) -> ValidatorDescr {
    ValidatorDescr { public_key_id: uid(key), adnl_id: uid(adnl), node_id_short: uid(node) }
}

fn make_info() -> RempCatchainInfo {
    let curr = vec![vd(1, 11, 21), vd(2, 12, 22)];
    let next = vec![vd(3, 13, 23), vd(2, 12, 22)];
    RempCatchainInfo::create(5, 9, &curr, &next, uid(1), shard(), uid(0xe1)).unwrap()
}

#[test]
fn node_list_dedup_and_local_idx() {
    let curr = vec![vd(1, 11, 21), vd(2, 12, 22)];
    let next = vec![vd(3, 13, 23), vd(2, 12, 22)];
    let info = RempCatchainInfo::create(5, 9, &curr, &next, uid(2), shard(), uid(99)).unwrap();
    // next's second member shares a transport id with curr and is dropped.
    assert_eq!(info.nodes.len(), 3);
    assert_eq!(info.nodes[2].public_key_id, uid(3));
    assert_eq!(info.local_idx, 1);
    assert_eq!(info.master_cc_seqno, 9);
    assert!(info.catchain_ptr.is_none());
}

#[test]
fn create_fails_without_local_key() {
    let curr = vec![vd(1, 11, 21)];
    let next = vec![];
    let res = RempCatchainInfo::create(5, 9, &curr, &next, uid(42), shard(), uid(99));
    assert_eq!(res.err(), Some(SessionError::LocalKeyNotFound));
}

#[test]
fn queue_id_matches_sha256_of_preimage() {
    let curr = vec![vd(1, 11, 21), vd(2, 12, 22)];
    let next = vec![vd(3, 13, 23)];
    let id = RempCatchainInfo::compute_id(5, &curr, &next);

    let mut preimage: Vec<u8> = Vec::new();
    preimage.extend_from_slice(&5u32.to_be_bytes());
    for d in curr.iter().chain(next.iter()) {
        preimage.extend_from_slice(&d.node_id_short.w0.to_be_bytes());
        preimage.extend_from_slice(&d.node_id_short.w1.to_be_bytes());
        preimage.extend_from_slice(&d.node_id_short.w2.to_be_bytes());
        preimage.extend_from_slice(&d.node_id_short.w3.to_be_bytes());
    }
    let digest = sha2::Sha256::digest(&preimage);
    let expected = Uint256 {
        w0: u64::from_be_bytes(digest[0..8].try_into().unwrap()),
        w1: u64::from_be_bytes(digest[8..16].try_into().unwrap()),
        w2: u64::from_be_bytes(digest[16..24].try_into().unwrap()),
        w3: u64::from_be_bytes(digest[24..32].try_into().unwrap()),
    };
    assert_eq!(id, expected);
    // Recomputing from the same inputs is bit-identical.
    assert_eq!(RempCatchainInfo::compute_id(5, &curr, &next), id);
    // The seqno is part of the identity.
    assert_ne!(RempCatchainInfo::compute_id(6, &curr, &next), id);
}

#[test]
fn payload_round_trip() {
    let info = make_info();
    let m1 = RmqMessage::new(vec![1, 2, 3], uid(0xa1), uid(0xb1), 0, 9);
    let m2 = RmqMessage::new(vec![4, 5], uid(0xa2), uid(0xb2), 1, 9);
    let payload = info.pack_round_payload(&vec![m1, m2]);
    let received = info.unpack_payload(&payload);
    assert_eq!(received.len(), 2);
    assert_eq!(received[0].0.message_id, uid(0xa1));
    assert_eq!(received[0].0.message, vec![1, 2, 3]);
    assert_eq!(received[0].0.master_cc_seqno, 9);
    assert_eq!(received[0].1, RempMessageStatus::New);
    assert_eq!(received[1].0.message_id, uid(0xa2));
    assert_eq!(received[1].1, RempMessageStatus::New);
}

#[test]
fn broken_payload_yields_nothing() {
    let info = make_info();
    assert!(info.unpack_payload(&vec![1, 2, 3]).is_empty());
    assert!(info.unpack_payload(&vec![0u8; 15]).is_empty());
    let mut bogus = vec![0u8; 12];
    bogus.extend_from_slice(&3u32.to_be_bytes());
    bogus.extend_from_slice(&[0xff; 8]);
    assert!(info.unpack_payload(&bogus).is_empty());
}

#[test]
fn is_same_catchain_compares_identity() {
    let a = make_info();
    let b = a.duplicate();
    assert!(a.is_same_catchain(&b));
    let mut c = a.duplicate();
    c.master_cc_seqno += 1;
    assert!(!a.is_same_catchain(&c));
}

#[test]
fn store_lifecycle() {
    let mut store = RempCatchainStore::new();
    let info = make_info();
    let qid = info.queue_id;

    // Two users of the same identity share one entry.
    assert_eq!(store.create_catchain(info.duplicate()), Ok(()));
    assert_eq!(store.create_catchain(info.duplicate()), Ok(()));

    // A different identity on the same queue id is refused.
    let mut other = info.duplicate();
    other.master_cc_seqno += 1;
    assert_eq!(store.create_catchain(other), Err(StoreError::CatchainMismatch));

    // Start: Created -> Starting -> Active.
    let to_start = store.start_catchain_prepare(&qid).unwrap();
    assert!(to_start.is_some());
    // A second start while Starting is refused.
    assert_eq!(store.start_catchain_prepare(&qid), Err(StoreError::WrongState));
    assert_eq!(store.start_catchain_finish(&qid, CatchainHandle { id: 7 }), Ok(()));
    assert_eq!(store.get_catchain_session(&qid), Some(CatchainHandle { id: 7 }));
    // Starting an Active session is an idempotent no-op.
    assert_eq!(store.start_catchain_prepare(&qid), Ok(None));

    // First stop only drops the refcount: still Active.
    assert_eq!(store.stop_catchain_prepare(&qid), Ok(None));
    assert_eq!(store.get_catchain_session(&qid), Some(CatchainHandle { id: 7 }));

    // Last stop flips to Stopping and hands out the captured handle.
    let stopping = store.stop_catchain_prepare(&qid).unwrap().unwrap();
    assert_eq!(stopping.1, Some(CatchainHandle { id: 7 }));
    store.stop_catchain_finish(&qid);
    assert_eq!(store.get_catchain_session(&qid), None);

    // The entry is gone: a further stop is an error.
    assert_eq!(store.stop_catchain_prepare(&qid), Err(StoreError::SessionNotFound));
}

#[test]
fn stop_requires_active() {
    let mut store = RempCatchainStore::new();
    let info = make_info();
    let qid = info.queue_id;
    store.create_catchain(info).unwrap();
    // Created, not Active: stopping is refused.
    assert_eq!(store.stop_catchain_prepare(&qid), Err(StoreError::WrongState));
    assert_eq!(store.start_catchain_prepare(&uid(0xdead)), Err(StoreError::SessionNotFound));
}
