//! Message statuses and the transition table that says which status moves
//! are legal.

use vstd::prelude::*;
use crate::ids::BlockIdExt;
use crate::ids::copy_bytes;

verus! {

/// Stage of acceptance: tentative (collator), committed to a shard block,
/// or committed to the master chain.
#[derive(Clone, Copy, Debug, PartialEq, Eq, Structural)]
pub enum RempMessageLevel {
    Collator,
    Shardchain,
    Masterchain,
}

/// Status of a message in the cache. `Duplicate`, `Ignored` and `Timeout`
/// are local-only and never cross the wire.
#[derive(Debug, PartialEq, Eq)]
pub enum RempMessageStatus {
    New,
    Accepted { level: RempMessageLevel, block_id: BlockIdExt, master_id: BlockIdExt },
    Rejected { level: RempMessageLevel, block_id: BlockIdExt, error: Vec<u8> },
    Ignored { level: RempMessageLevel, block_id: BlockIdExt },
    Duplicate { block_id: BlockIdExt },
    Timeout,
}

/// Equality of two statuses down to the bytes of a rejection error.
pub open spec fn status_matches(a: RempMessageStatus, b: RempMessageStatus) -> bool {
    match (a, b) {
        (RempMessageStatus::New, RempMessageStatus::New) => true,
        (
            RempMessageStatus::Accepted { level: l1, block_id: b1, master_id: m1 },
            RempMessageStatus::Accepted { level: l2, block_id: b2, master_id: m2 },
        ) => l1 == l2 && b1 == b2 && m1 == m2,
        (
            RempMessageStatus::Rejected { level: l1, block_id: b1, error: e1 },
            RempMessageStatus::Rejected { level: l2, block_id: b2, error: e2 },
        ) => l1 == l2 && b1 == b2 && e1@ == e2@,
        (
            RempMessageStatus::Ignored { level: l1, block_id: b1 },
            RempMessageStatus::Ignored { level: l2, block_id: b2 },
        ) => l1 == l2 && b1 == b2,
        (
            RempMessageStatus::Duplicate { block_id: b1 },
            RempMessageStatus::Duplicate { block_id: b2 },
        ) => b1 == b2,
        (RempMessageStatus::Timeout, RempMessageStatus::Timeout) => true,
        _ => false,
    }
}

impl Clone for RempMessageStatus {
    fn clone(&self) -> (r: Self)
        ensures
            status_matches(r, *self),
    {
        match self {
            RempMessageStatus::New => RempMessageStatus::New,
            RempMessageStatus::Accepted { level, block_id, master_id } =>
                RempMessageStatus::Accepted {
                    level: *level,
                    block_id: *block_id,
                    master_id: *master_id,
                },
            RempMessageStatus::Rejected { level, block_id, error } =>
                RempMessageStatus::Rejected {
                    level: *level,
                    block_id: *block_id,
                    error: copy_bytes(error),
                },
            RempMessageStatus::Ignored { level, block_id } =>
                RempMessageStatus::Ignored { level: *level, block_id: *block_id },
            RempMessageStatus::Duplicate { block_id } =>
                RempMessageStatus::Duplicate { block_id: *block_id },
            RempMessageStatus::Timeout => RempMessageStatus::Timeout,
        }
    }
}

/// A status from which no further transition is legal.
pub open spec fn spec_is_terminal_status(s: RempMessageStatus) -> bool {
    match s {
        RempMessageStatus::Accepted { level, .. } => level is Masterchain,
        RempMessageStatus::Rejected { .. } => true,
        RempMessageStatus::Duplicate { .. } => true,
        RempMessageStatus::Timeout => true,
        _ => false,
    }
}

/// The transition table: is a move from `old_status` to `new_status` legal?
/// The duplicate-detection shortcut is deliberately not part of this table;
/// it is applied by the cache before the table is consulted.
pub open spec fn spec_validate_status_change(
    old_status: RempMessageStatus,
    new_status: RempMessageStatus,
) -> bool {
    match old_status {
        RempMessageStatus::New => match new_status {
            RempMessageStatus::Accepted { level, .. } => level is Collator,
            RempMessageStatus::Rejected { .. } => true,
            RempMessageStatus::Ignored { .. } => true,
            RempMessageStatus::Timeout => true,
            _ => false,
        },
        RempMessageStatus::Accepted { level: old_level, block_id: old_block, .. } =>
            match old_level {
                RempMessageLevel::Collator => match new_status {
                    RempMessageStatus::Accepted { level, block_id, .. } =>
                        (level is Shardchain || level is Masterchain) && block_id == old_block,
                    RempMessageStatus::Ignored { .. } => true,
                    RempMessageStatus::Timeout => true,
                    _ => false,
                },
                RempMessageLevel::Shardchain => match new_status {
                    RempMessageStatus::Accepted { level, block_id, .. } =>
                        level is Masterchain && block_id == old_block,
                    RempMessageStatus::Timeout => true,
                    _ => false,
                },
                RempMessageLevel::Masterchain => false,
            },
        RempMessageStatus::Rejected { .. } => false,
        RempMessageStatus::Duplicate { .. } => false,
        RempMessageStatus::Ignored { .. } => match new_status {
            RempMessageStatus::Accepted { .. } => true,
            RempMessageStatus::Rejected { .. } => true,
            RempMessageStatus::Duplicate { .. } => true,
            RempMessageStatus::Timeout => true,
            _ => false,
        },
        RempMessageStatus::Timeout => false,
    }
}

pub fn is_terminal_status(s: &RempMessageStatus) -> (r: bool)
    ensures
        r == spec_is_terminal_status(*s),
{
    match s {
        RempMessageStatus::Accepted { level, .. } => *level == RempMessageLevel::Masterchain,
        RempMessageStatus::Rejected { .. } => true,
        RempMessageStatus::Duplicate { .. } => true,
        RempMessageStatus::Timeout => true,
        _ => false,
    }
}

/// Pure predicate deciding whether a status move is legal (§ the transition
/// table above). Anything not on the table is rejected.
pub fn validate_status_change(
    old_status: &RempMessageStatus,
    new_status: &RempMessageStatus,
) -> (r: bool)
    ensures
        r == spec_validate_status_change(*old_status, *new_status),
{
    match old_status {
        RempMessageStatus::New => match new_status {
            RempMessageStatus::Accepted { level, .. } => *level == RempMessageLevel::Collator,
            RempMessageStatus::Rejected { .. } => true,
            RempMessageStatus::Ignored { .. } => true,
            RempMessageStatus::Timeout => true,
            _ => false,
        },
        RempMessageStatus::Accepted { level: old_level, block_id: old_block, .. } =>
            match old_level {
                RempMessageLevel::Collator => match new_status {
                    RempMessageStatus::Accepted { level, block_id, .. } =>
                        (*level == RempMessageLevel::Shardchain
                            || *level == RempMessageLevel::Masterchain)
                            && *block_id == *old_block,
                    RempMessageStatus::Ignored { .. } => true,
                    RempMessageStatus::Timeout => true,
                    _ => false,
                },
                RempMessageLevel::Shardchain => match new_status {
                    RempMessageStatus::Accepted { level, block_id, .. } =>
                        *level == RempMessageLevel::Masterchain && *block_id == *old_block,
                    RempMessageStatus::Timeout => true,
                    _ => false,
                },
                RempMessageLevel::Masterchain => false,
            },
        RempMessageStatus::Rejected { .. } => false,
        RempMessageStatus::Duplicate { .. } => false,
        RempMessageStatus::Ignored { .. } => match new_status {
            RempMessageStatus::Accepted { .. } => true,
            RempMessageStatus::Rejected { .. } => true,
            RempMessageStatus::Duplicate { .. } => true,
            RempMessageStatus::Timeout => true,
            _ => false,
        },
        RempMessageStatus::Timeout => false,
    }
}

/// No transition leaves a terminal status: the table refuses every move out
/// of `Accepted{Masterchain}`, `Rejected`, `Duplicate` and `Timeout`.
pub proof fn lemma_terminal_statuses_are_final(
    old_status: RempMessageStatus,
    new_status: RempMessageStatus,
)
    requires
        spec_is_terminal_status(old_status),
    ensures
        !spec_validate_status_change(old_status, new_status),
{
}

} // verus!
