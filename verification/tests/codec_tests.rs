use remp_core::codec::CodecError;
use remp_core::ids::{BlockIdExt, ShardIdent, Uint256};
use remp_core::message::RmqMessage;
use remp_core::status::{RempMessageLevel, RempMessageStatus};
use sha2::Digest;

fn uid(x: u64) -> Uint256 {
    Uint256 { w0: 0, w1: 0, w2: 0, w3: x }
}

fn blk(tag: u64) -> BlockIdExt {
    BlockIdExt {
        shard: ShardIdent { workchain: -1, prefix: 0x8000_0000_0000_0000 },
        seqno: tag as u32,
        root_hash: uid(tag),
        file_hash: uid(tag + 1),
    }
}

#[test]
fn codec_round_trip_rejected() {
    let body: Vec<u8> = vec![0xde, 0xad, 0xbe, 0xef, 0x01, 0x02];
    let r6 = RmqMessage::new(body.clone(), uid(0x66), uid(0x77), 3, 5);
    let status = RempMessageStatus::Rejected {
        level: RempMessageLevel::Collator,
        block_id: blk(9),
        error: b"e".to_vec(),
    };
    let bytes = r6.serialize(&status);
    let (m, s) = RmqMessage::deserialize(&bytes, 42).unwrap();
    assert_eq!(m.message, body);
    assert_eq!(m.message_id, r6.message_id);
    assert_eq!(m.source_key, r6.source_key);
    assert_eq!(m.source_idx, r6.source_idx);
    assert_eq!(m.master_cc_seqno, 42);
    assert_eq!(s, status);
}

#[test]
fn codec_round_trip_new_and_accepted() {
    let r = RmqMessage::new(vec![7; 10], uid(1), uid(2), 0, 1);
    let bytes = r.serialize(&RempMessageStatus::New);
    let (m, s) = RmqMessage::deserialize(&bytes, 8).unwrap();
    assert_eq!(m.message, vec![7; 10]);
    assert_eq!(s, RempMessageStatus::New);

    let acc = RempMessageStatus::Accepted {
        level: RempMessageLevel::Collator,
        block_id: blk(4),
        master_id: BlockIdExt {
            shard: ShardIdent { workchain: 0, prefix: 0 },
            seqno: 0,
            root_hash: uid(0),
            file_hash: uid(0),
        },
    };
    let bytes = r.serialize(&acc);
    let (_, s) = RmqMessage::deserialize(&bytes, 8).unwrap();
    // The level collapses to Collator and the master id to the default.
    assert_eq!(s, acc);
}

#[test]
fn local_statuses_are_normalized_to_new() {
    // Duplicate, Ignored and Timeout never cross the wire: they encode as New.
    let r = RmqMessage::new(vec![1], uid(3), uid(4), 0, 1);
    for status in [
        RempMessageStatus::Timeout,
        RempMessageStatus::Duplicate { block_id: blk(1) },
        RempMessageStatus::Ignored { level: RempMessageLevel::Collator, block_id: blk(1) },
        RempMessageStatus::Accepted {
            level: RempMessageLevel::Masterchain,
            block_id: blk(1),
            master_id: blk(1),
        },
    ] {
        let bytes = r.serialize(&status);
        let (_, s) = RmqMessage::deserialize(&bytes, 1).unwrap();
        assert_eq!(s, RempMessageStatus::New);
    }
}

#[test]
fn serialize_exact_bytes_for_new() {
    let r = RmqMessage::new(vec![0xab, 0xcd], uid(0x0102), uid(0x0304), 7, 1);
    let bytes = r.serialize(&RempMessageStatus::New);
    let mut expected: Vec<u8> = Vec::new();
    expected.extend_from_slice(&[0u8; 24]);
    expected.extend_from_slice(&0x0102u64.to_be_bytes());
    expected.extend_from_slice(&[0u8; 24]);
    expected.extend_from_slice(&0x0304u64.to_be_bytes());
    expected.extend_from_slice(&7u32.to_be_bytes());
    expected.extend_from_slice(&2u32.to_be_bytes());
    expected.extend_from_slice(&[0xab, 0xcd]);
    expected.push(0);
    assert_eq!(bytes, expected);
}

#[test]
fn deserialize_rejects_malformed_bytes() {
    assert_eq!(RmqMessage::deserialize(&vec![], 1), Err(CodecError::MalformedRecord));
    assert_eq!(RmqMessage::deserialize(&vec![0u8; 72], 1), Err(CodecError::MalformedRecord));
    // A valid record with a trailing byte is refused.
    let r = RmqMessage::new(vec![5], uid(1), uid(2), 0, 1);
    let mut bytes = r.serialize(&RempMessageStatus::New);
    bytes.push(0xff);
    assert_eq!(RmqMessage::deserialize(&bytes, 1), Err(CodecError::MalformedRecord));
    // An unknown status tag is refused.
    let mut bytes = r.serialize(&RempMessageStatus::New);
    let last = bytes.len() - 1;
    bytes[last] = 9;
    assert_eq!(RmqMessage::deserialize(&bytes, 1), Err(CodecError::MalformedRecord));
}

#[test]
fn test_message_id_is_content_hash() {
    let m = RmqMessage::make_test_message();
    assert!(!m.message.is_empty());
    let digest = sha2::Sha256::digest(&m.message);
    let expected = Uint256 {
        w0: u64::from_be_bytes(digest[0..8].try_into().unwrap()),
        w1: u64::from_be_bytes(digest[8..16].try_into().unwrap()),
        w2: u64::from_be_bytes(digest[16..24].try_into().unwrap()),
        w3: u64::from_be_bytes(digest[24..32].try_into().unwrap()),
    };
    assert_eq!(m.message_id, expected);
    assert_eq!(m.source_idx, 0);
    assert_eq!(m.master_cc_seqno, 0);
}
