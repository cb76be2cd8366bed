use remp_core::ids::{BlockIdExt, ShardIdent, Uint256};
use remp_core::status::{
    is_terminal_status, validate_status_change, RempMessageLevel, RempMessageStatus,
};

fn uid(x: u64) -> Uint256 {
    Uint256 { w0: 0, w1: 0, w2: 0, w3: x }
}

fn blk(tag: u64) -> BlockIdExt {
    BlockIdExt {
        shard: ShardIdent { workchain: 0, prefix: 0x8000_0000_0000_0000 },
        seqno: tag as u32,
        root_hash: uid(tag),
        file_hash: uid(tag),
    }
}

fn accepted(level: RempMessageLevel, b: BlockIdExt) -> RempMessageStatus {
    RempMessageStatus::Accepted { level, block_id: b, master_id: blk(0) }
}

fn rejected(b: BlockIdExt) -> RempMessageStatus {
    RempMessageStatus::Rejected {
        level: RempMessageLevel::Collator,
        block_id: b,
        error: b"err".to_vec(),
    }
}

#[test]
fn edges_from_new() {
    let new = RempMessageStatus::New;
    assert!(validate_status_change(&new, &accepted(RempMessageLevel::Collator, blk(1))));
    assert!(!validate_status_change(&new, &accepted(RempMessageLevel::Shardchain, blk(1))));
    assert!(!validate_status_change(&new, &accepted(RempMessageLevel::Masterchain, blk(1))));
    assert!(validate_status_change(&new, &rejected(blk(1))));
    assert!(validate_status_change(
        &new,
        &RempMessageStatus::Ignored { level: RempMessageLevel::Collator, block_id: blk(1) },
    ));
    assert!(validate_status_change(&new, &RempMessageStatus::Timeout));
    assert!(!validate_status_change(&new, &RempMessageStatus::Duplicate { block_id: blk(1) }));
    assert!(!validate_status_change(&new, &RempMessageStatus::New));
}

#[test]
fn accepted_levels_climb_with_equal_block() {
    let coll = accepted(RempMessageLevel::Collator, blk(1));
    let shardl = accepted(RempMessageLevel::Shardchain, blk(1));
    let master = accepted(RempMessageLevel::Masterchain, blk(1));
    assert!(validate_status_change(&coll, &shardl));
    assert!(validate_status_change(&coll, &master));
    assert!(validate_status_change(&shardl, &master));
    // A different block is not a table edge (the duplicate rule handles it).
    assert!(!validate_status_change(&coll, &accepted(RempMessageLevel::Shardchain, blk(2))));
    assert!(!validate_status_change(&shardl, &accepted(RempMessageLevel::Masterchain, blk(2))));
    // No climbing back down.
    assert!(!validate_status_change(&shardl, &coll));
    assert!(!validate_status_change(&master, &master));
}

#[test]
fn ignored_can_recover() {
    let ign = RempMessageStatus::Ignored { level: RempMessageLevel::Collator, block_id: blk(1) };
    assert!(validate_status_change(&ign, &accepted(RempMessageLevel::Masterchain, blk(2))));
    assert!(validate_status_change(&ign, &rejected(blk(2))));
    assert!(validate_status_change(&ign, &RempMessageStatus::Duplicate { block_id: blk(2) }));
    assert!(validate_status_change(&ign, &RempMessageStatus::Timeout));
    assert!(!validate_status_change(&ign, &RempMessageStatus::New));
}

#[test]
fn terminal_statuses_admit_nothing() {
    let terminals = [
        accepted(RempMessageLevel::Masterchain, blk(1)),
        rejected(blk(1)),
        RempMessageStatus::Duplicate { block_id: blk(1) },
        RempMessageStatus::Timeout,
    ];
    let moves = [
        RempMessageStatus::New,
        accepted(RempMessageLevel::Collator, blk(2)),
        rejected(blk(2)),
        RempMessageStatus::Ignored { level: RempMessageLevel::Collator, block_id: blk(2) },
        RempMessageStatus::Duplicate { block_id: blk(2) },
        RempMessageStatus::Timeout,
    ];
    for t in terminals.iter() {
        assert!(is_terminal_status(t));
        for m in moves.iter() {
            assert!(!validate_status_change(t, m));
        }
    }
    assert!(!is_terminal_status(&RempMessageStatus::New));
    assert!(!is_terminal_status(&accepted(RempMessageLevel::Collator, blk(1))));
    assert!(!is_terminal_status(&RempMessageStatus::Ignored {
        level: RempMessageLevel::Collator,
        block_id: blk(1),
    }));
}
