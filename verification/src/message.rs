//! The immutable message record held by the cache and carried by the wire
//! codec.

use vstd::prelude::*;
use crate::ids::Uint256;

verus! {

/// One external message as the pool tracks it. The body is never mutated
/// after construction; a record with an updated `source_idx` is a fresh
/// value.
#[derive(Debug, PartialEq, Eq)]
pub struct RmqMessage {
    /// Serialized message body (owned, opaque).
    pub message: Vec<u8>,
    /// 256-bit content hash of the serialized message.
    pub message_id: Uint256,
    /// 256-bit key identifier of the submitter or relayer.
    pub source_key: Uint256,
    /// Index of the source within the current validator node list.
    pub source_idx: u32,
    /// Seconds since the epoch, set at construction; informational only.
    pub timestamp: u32,
    /// Master-chain validator-cycle number at which the record entered the
    /// local cache; drives expiry.
    pub master_cc_seqno: u32,
}

/// Two records that agree on everything except the (informational)
/// timestamp.
pub open spec fn eq_except_timestamp(a: RmqMessage, b: RmqMessage) -> bool {
    &&& a.message@ == b.message@
    &&& a.message_id == b.message_id
    &&& a.source_key == b.source_key
    &&& a.source_idx == b.source_idx
    &&& a.master_cc_seqno == b.master_cc_seqno
}

/// Equality of two records down to the bytes of the body.
pub open spec fn record_matches(a: RmqMessage, b: RmqMessage) -> bool {
    eq_except_timestamp(a, b) && a.timestamp == b.timestamp
}

impl Clone for RmqMessage {
    fn clone(&self) -> (r: Self)
        ensures
            record_matches(r, *self),
    {
        RmqMessage {
            message: crate::ids::copy_bytes(&self.message),
            message_id: self.message_id,
            source_key: self.source_key,
            source_idx: self.source_idx,
            timestamp: self.timestamp,
            master_cc_seqno: self.master_cc_seqno,
        }
    }
}

/// A record is expired once two validator cycles have passed over it.
pub open spec fn spec_is_expired(master_cc_seqno: u32, current_cc_seqno: u32) -> bool {
    master_cc_seqno + 2 <= current_cc_seqno
}

/// Relies on std's `SystemTime::now` and `duration_since(UNIX_EPOCH)`:
/// seconds since the epoch, truncated to 32 bits; 0 if the clock stands
/// before the epoch. Nothing is stated: the value depends on the clock.
#[verifier::external_body]
pub(crate) fn timestamp_now() -> u32 {
    match std::time::SystemTime::now().duration_since(std::time::SystemTime::UNIX_EPOCH) {
        Ok(d) => d.as_secs() as u32,
        Err(_) => 0,
    }
}

impl RmqMessage {
    /// Builds a record; the timestamp is read from the local clock.
    pub fn new(
        message: Vec<u8>,
        message_id: Uint256,
        source_key: Uint256,
        source_idx: u32,
        master_cc_seqno: u32,
    ) -> (r: RmqMessage)
        ensures
            r.message@ == message@,
            r.message_id == message_id,
            r.source_key == source_key,
            r.source_idx == source_idx,
            r.master_cc_seqno == master_cc_seqno,
    {
        let timestamp = timestamp_now();
        RmqMessage { message, message_id, source_key, source_idx, timestamp, master_cc_seqno }
    }

    /// A fresh record equal to `self` except for the source index; the
    /// original is left untouched.
    pub fn new_with_updated_source_idx(&self, source_idx: u32) -> (r: RmqMessage)
        ensures
            r.message@ == self.message@,
            r.message_id == self.message_id,
            r.source_key == self.source_key,
            r.source_idx == source_idx,
            r.timestamp == self.timestamp,
            r.master_cc_seqno == self.master_cc_seqno,
    {
        RmqMessage {
            message: crate::ids::copy_bytes(&self.message),
            message_id: self.message_id,
            source_key: self.source_key,
            source_idx,
            timestamp: self.timestamp,
            master_cc_seqno: self.master_cc_seqno,
        }
    }

    pub fn is_expired(&self, current_cc_seqno: u32) -> (r: bool)
        ensures
            r == spec_is_expired(self.master_cc_seqno, current_cc_seqno),
    {
        self.master_cc_seqno as u64 + 2 <= current_cc_seqno as u64
    }
}

} // verus!
