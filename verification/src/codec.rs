//! The wire codec: big-endian integer primitives, the encoding of one
//! `(record, status)` pair, and the round payload that carries a batch of
//! records.

use vstd::prelude::*;
use crate::ids::{Uint256, ShardIdent, BlockIdExt};
use crate::message::RmqMessage;
use crate::status::RempMessageStatus;
use sha2::Digest;

verus! {

/// What SHA-256 returns; a function of the input bytes alone.
pub uninterp spec fn sha256_of(input: Seq<u8>) -> Seq<u8>;

/// Relies on sha2's `Sha256::digest`: the SHA-256 digest of the input,
/// always 32 bytes.
#[verifier::external_body]
pub(crate) fn sha256(input: &Vec<u8>) -> (r: Vec<u8>)
    ensures
        r@ == sha256_of(input@),
        r@.len() == 32,
{
    sha2::Sha256::digest(input.as_slice()).to_vec()
}

#[verifier::opaque]
pub open spec fn u32_be_bytes(x: u32) -> Seq<u8> {
    seq![
        ((x >> 24) & 0xff) as u8,
        ((x >> 16) & 0xff) as u8,
        ((x >> 8) & 0xff) as u8,
        (x & 0xff) as u8,
    ]
}

#[verifier::opaque]
pub open spec fn u32_from_be(s: Seq<u8>) -> u32
    recommends
        s.len() == 4,
{
    (((s[0] as u32) << 24) | ((s[1] as u32) << 16) | ((s[2] as u32) << 8) | (s[3] as u32)) as u32
}

#[verifier::opaque]
pub open spec fn u64_be_bytes(x: u64) -> Seq<u8> {
    seq![
        ((x >> 56) & 0xff) as u8,
        ((x >> 48) & 0xff) as u8,
        ((x >> 40) & 0xff) as u8,
        ((x >> 32) & 0xff) as u8,
        ((x >> 24) & 0xff) as u8,
        ((x >> 16) & 0xff) as u8,
        ((x >> 8) & 0xff) as u8,
        (x & 0xff) as u8,
    ]
}

#[verifier::opaque]
pub open spec fn u64_from_be(s: Seq<u8>) -> u64
    recommends
        s.len() == 8,
{
    (((s[0] as u64) << 56) | ((s[1] as u64) << 48) | ((s[2] as u64) << 40) | ((s[3] as u64) << 32)
        | ((s[4] as u64) << 24) | ((s[5] as u64) << 16) | ((s[6] as u64) << 8) | (
    s[7] as u64)) as u64
}

#[verifier::opaque]
pub open spec fn uint256_bytes(u: Uint256) -> Seq<u8> {
    u64_be_bytes(u.w0) + u64_be_bytes(u.w1) + u64_be_bytes(u.w2) + u64_be_bytes(u.w3)
}

#[verifier::opaque]
pub open spec fn uint256_from(s: Seq<u8>) -> Uint256
    recommends
        s.len() == 32,
{
    Uint256 {
        w0: u64_from_be(s.subrange(0, 8)),
        w1: u64_from_be(s.subrange(8, 16)),
        w2: u64_from_be(s.subrange(16, 24)),
        w3: u64_from_be(s.subrange(24, 32)),
    }
}

pub broadcast proof fn lemma_u32_be_bytes_len(x: u32)
    ensures
        (#[trigger] u32_be_bytes(x)).len() == 4,
{
    reveal(u32_be_bytes);
}

pub broadcast proof fn lemma_u64_be_bytes_len(x: u64)
    ensures
        (#[trigger] u64_be_bytes(x)).len() == 8,
{
    reveal(u64_be_bytes);
}

pub broadcast proof fn lemma_uint256_bytes_len(u: Uint256)
    ensures
        (#[trigger] uint256_bytes(u)).len() == 32,
{
    reveal(uint256_bytes);
    broadcast use lemma_u64_be_bytes_len;

}

pub proof fn lemma_u32_round_trip(x: u32)
    ensures
        u32_from_be(u32_be_bytes(x)) == x,
{
    reveal(u32_be_bytes);
    reveal(u32_from_be);
    assert((((((x >> 24) & 0xff) as u8 as u32) << 24) | ((((x >> 16) & 0xff) as u8 as u32) << 16)
        | ((((x >> 8) & 0xff) as u8 as u32) << 8) | (((x & 0xff) as u8) as u32)) == x)
        by (bit_vector);
}

pub proof fn lemma_u64_round_trip(x: u64)
    ensures
        u64_from_be(u64_be_bytes(x)) == x,
{
    reveal(u64_be_bytes);
    reveal(u64_from_be);
    assert((((((x >> 56) & 0xff) as u8 as u64) << 56) | ((((x >> 48) & 0xff) as u8 as u64) << 48)
        | ((((x >> 40) & 0xff) as u8 as u64) << 40) | ((((x >> 32) & 0xff) as u8 as u64) << 32) | (
    (((x >> 24) & 0xff) as u8 as u64) << 24) | ((((x >> 16) & 0xff) as u8 as u64) << 16) | ((((x
        >> 8) & 0xff) as u8 as u64) << 8) | (((x & 0xff) as u8) as u64)) == x) by (bit_vector);
}

pub proof fn lemma_uint256_round_trip(u: Uint256)
    ensures
        uint256_from(uint256_bytes(u)) == u,
{
    reveal(uint256_bytes);
    reveal(uint256_from);
    broadcast use lemma_u64_be_bytes_len;

    let b = uint256_bytes(u);
    assert(b.subrange(0, 8) =~= u64_be_bytes(u.w0));
    assert(b.subrange(8, 16) =~= u64_be_bytes(u.w1));
    assert(b.subrange(16, 24) =~= u64_be_bytes(u.w2));
    assert(b.subrange(24, 32) =~= u64_be_bytes(u.w3));
    lemma_u64_round_trip(u.w0);
    lemma_u64_round_trip(u.w1);
    lemma_u64_round_trip(u.w2);
    lemma_u64_round_trip(u.w3);
}

/// Casting a workchain id through its unsigned wire form is lossless.
pub proof fn lemma_i32_cast_round_trip(x: i32)
    ensures
        ((x as u32) as i32) == x,
{
    assert(((x as u32) as i32) == x) by (bit_vector);
}

pub fn push_u32_be(out: &mut Vec<u8>, x: u32)
    ensures
        final(out)@ == old(out)@ + u32_be_bytes(x),
{
    out.push(((x >> 24) & 0xff) as u8);
    out.push(((x >> 16) & 0xff) as u8);
    out.push(((x >> 8) & 0xff) as u8);
    out.push((x & 0xff) as u8);
    proof {
        reveal(u32_be_bytes);
        assert(out@ =~= old(out)@ + u32_be_bytes(x));
    }
}

pub fn push_u64_be(out: &mut Vec<u8>, x: u64)
    ensures
        final(out)@ == old(out)@ + u64_be_bytes(x),
{
    out.push(((x >> 56) & 0xff) as u8);
    out.push(((x >> 48) & 0xff) as u8);
    out.push(((x >> 40) & 0xff) as u8);
    out.push(((x >> 32) & 0xff) as u8);
    out.push(((x >> 24) & 0xff) as u8);
    out.push(((x >> 16) & 0xff) as u8);
    out.push(((x >> 8) & 0xff) as u8);
    out.push((x & 0xff) as u8);
    proof {
        reveal(u64_be_bytes);
        assert(out@ =~= old(out)@ + u64_be_bytes(x));
    }
}

pub fn push_uint256(out: &mut Vec<u8>, u: &Uint256)
    ensures
        final(out)@ == old(out)@ + uint256_bytes(*u),
{
    push_u64_be(out, u.w0);
    push_u64_be(out, u.w1);
    push_u64_be(out, u.w2);
    push_u64_be(out, u.w3);
    proof {
        reveal(uint256_bytes);
        broadcast use lemma_u64_be_bytes_len;

        assert(out@ =~= old(out)@ + uint256_bytes(*u));
    }
}

pub fn push_bytes(out: &mut Vec<u8>, bytes: &Vec<u8>)
    ensures
        final(out)@ == old(out)@ + bytes@,
{
    let mut i: usize = 0;
    while i < bytes.len()
        invariant
            i <= bytes@.len(),
            out@ == old(out)@ + bytes@.take(i as int),
        decreases bytes@.len() - i,
    {
        out.push(bytes[i]);
        proof {
            assert(old(out)@ + bytes@.take(i + 1) =~= (old(out)@ + bytes@.take(i as int)).push(
                bytes@[i as int],
            ));
        }
        i += 1;
    }
    proof {
        assert(bytes@.take(bytes@.len() as int) =~= bytes@);
    }
}

pub fn read_u32_be(v: &Vec<u8>, pos: usize) -> (r: u32)
    requires
        pos + 4 <= v.len(),
    ensures
        r == u32_from_be(v@.subrange(pos as int, pos + 4)),
{
    let r = ((v[pos] as u32) << 24) | ((v[pos + 1] as u32) << 16) | ((v[pos + 2] as u32) << 8) | (
    v[pos + 3] as u32);
    proof {
        reveal(u32_from_be);
        let s = v@.subrange(pos as int, pos + 4);
        assert(s[0] == v@[pos as int] && s[1] == v@[pos + 1] && s[2] == v@[pos + 2] && s[3] == v@[
            pos + 3
        ]);
    }
    r
}

pub fn read_u64_be(v: &Vec<u8>, pos: usize) -> (r: u64)
    requires
        pos + 8 <= v.len(),
    ensures
        r == u64_from_be(v@.subrange(pos as int, pos + 8)),
{
    let r = ((v[pos] as u64) << 56) | ((v[pos + 1] as u64) << 48) | ((v[pos + 2] as u64) << 40) | (
    (v[pos + 3] as u64) << 32) | ((v[pos + 4] as u64) << 24) | ((v[pos + 5] as u64) << 16) | ((v[pos
        + 6] as u64) << 8) | (v[pos + 7] as u64);
    proof {
        reveal(u64_from_be);
        let s = v@.subrange(pos as int, pos + 8);
        assert(s[0] == v@[pos as int] && s[1] == v@[pos + 1] && s[2] == v@[pos + 2] && s[3] == v@[
            pos + 3
        ] && s[4] == v@[pos + 4] && s[5] == v@[pos + 5] && s[6] == v@[pos + 6] && s[7] == v@[pos
            + 7]);
    }
    r
}

pub fn read_uint256(v: &Vec<u8>, pos: usize) -> (r: Uint256)
    requires
        pos + 32 <= v.len(),
    ensures
        r == uint256_from(v@.subrange(pos as int, pos + 32)),
{
    let w0 = read_u64_be(v, pos);
    let w1 = read_u64_be(v, pos + 8);
    let w2 = read_u64_be(v, pos + 16);
    let w3 = read_u64_be(v, pos + 24);
    proof {
        reveal(uint256_from);
        let s = v@.subrange(pos as int, pos + 32);
        assert(s.subrange(0, 8) =~= v@.subrange(pos as int, pos + 8));
        assert(s.subrange(8, 16) =~= v@.subrange(pos + 8, pos + 16));
        assert(s.subrange(16, 24) =~= v@.subrange(pos + 16, pos + 24));
        assert(s.subrange(24, 32) =~= v@.subrange(pos + 24, pos + 32));
    }
    Uint256 { w0, w1, w2, w3 }
}

pub fn read_bytes(v: &Vec<u8>, pos: usize, n: usize) -> (r: Vec<u8>)
    requires
        pos + n <= v.len(),
    ensures
        r@ == v@.subrange(pos as int, pos + n),
{
    let mut r: Vec<u8> = Vec::new();
    let mut i: usize = 0;
    while i < n
        invariant
            i <= n,
            pos + n <= v.len(),
            r@ == v@.subrange(pos as int, pos + i),
        decreases n - i,
    {
        r.push(v[pos + i]);
        proof {
            assert(v@.subrange(pos as int, pos + i + 1) =~= v@.subrange(pos as int, pos
                + i).push(v@[pos + i]));
        }
        i += 1;
    }
    r
}


/// The zero block id the decoder supplies for the unsent `master_id` field.
pub open spec fn default_block() -> BlockIdExt {
    BlockIdExt {
        shard: ShardIdent { workchain: 0, prefix: 0 },
        seqno: 0,
        root_hash: Uint256 { w0: 0, w1: 0, w2: 0, w3: 0 },
        file_hash: Uint256 { w0: 0, w1: 0, w2: 0, w3: 0 },
    }
}

pub fn empty_block_id() -> (r: BlockIdExt)
    ensures
        r == default_block(),
{
    BlockIdExt {
        shard: ShardIdent { workchain: 0, prefix: 0 },
        seqno: 0,
        root_hash: Uint256::zero(),
        file_hash: Uint256::zero(),
    }
}

/// A block id on the wire: workchain, shard prefix, seqno, the two hashes;
/// 80 bytes.
pub open spec fn enc_block(b: BlockIdExt) -> Seq<u8> {
    u32_be_bytes(b.shard.workchain as u32) + u64_be_bytes(b.shard.prefix) + u32_be_bytes(b.seqno)
        + uint256_bytes(b.root_hash) + uint256_bytes(b.file_hash)
}

pub open spec fn dec_block(s: Seq<u8>) -> BlockIdExt
    recommends
        s.len() == 80,
{
    BlockIdExt {
        shard: ShardIdent {
            workchain: u32_from_be(s.subrange(0, 4)) as i32,
            prefix: u64_from_be(s.subrange(4, 12)),
        },
        seqno: u32_from_be(s.subrange(12, 16)),
        root_hash: uint256_from(s.subrange(16, 48)),
        file_hash: uint256_from(s.subrange(48, 80)),
    }
}

pub proof fn lemma_block_round_trip(b: BlockIdExt)
    ensures
        enc_block(b).len() == 80,
        dec_block(enc_block(b)) == b,
{
    broadcast use lemma_u32_be_bytes_len, lemma_u64_be_bytes_len, lemma_uint256_bytes_len;

    let e = enc_block(b);
    assert(e.subrange(0, 4) =~= u32_be_bytes(b.shard.workchain as u32));
    assert(e.subrange(4, 12) =~= u64_be_bytes(b.shard.prefix));
    assert(e.subrange(12, 16) =~= u32_be_bytes(b.seqno));
    assert(e.subrange(16, 48) =~= uint256_bytes(b.root_hash));
    assert(e.subrange(48, 80) =~= uint256_bytes(b.file_hash));
    lemma_u32_round_trip(b.shard.workchain as u32);
    lemma_i32_cast_round_trip(b.shard.workchain);
    lemma_u64_round_trip(b.shard.prefix);
    lemma_u32_round_trip(b.seqno);
    lemma_uint256_round_trip(b.root_hash);
    lemma_uint256_round_trip(b.file_hash);
}

pub fn push_block(out: &mut Vec<u8>, b: &BlockIdExt)
    ensures
        final(out)@ == old(out)@ + enc_block(*b),
{
    push_u32_be(out, #[verifier::truncate] (b.shard.workchain as u32));
    push_u64_be(out, b.shard.prefix);
    push_u32_be(out, b.seqno);
    push_uint256(out, &b.root_hash);
    push_uint256(out, &b.file_hash);
    proof {
        broadcast use lemma_u32_be_bytes_len, lemma_u64_be_bytes_len, lemma_uint256_bytes_len;

        assert(out@ =~= old(out)@ + enc_block(*b));
    }
}

pub fn read_block(v: &Vec<u8>, pos: usize) -> (r: BlockIdExt)
    requires
        pos + 80 <= v.len(),
    ensures
        r == dec_block(v@.subrange(pos as int, pos + 80)),
{
    let workchain = #[verifier::truncate] (read_u32_be(v, pos) as i32);
    let prefix = read_u64_be(v, pos + 4);
    let seqno = read_u32_be(v, pos + 12);
    let root_hash = read_uint256(v, pos + 16);
    let file_hash = read_uint256(v, pos + 48);
    proof {
        let s = v@.subrange(pos as int, pos + 80);
        assert(s.subrange(0, 4) =~= v@.subrange(pos as int, pos + 4));
        assert(s.subrange(4, 12) =~= v@.subrange(pos + 4, pos + 12));
        assert(s.subrange(12, 16) =~= v@.subrange(pos + 12, pos + 16));
        assert(s.subrange(16, 48) =~= v@.subrange(pos + 16, pos + 48));
        assert(s.subrange(48, 80) =~= v@.subrange(pos + 48, pos + 80));
    }
    BlockIdExt { shard: ShardIdent { workchain, prefix }, seqno, root_hash, file_hash }
}

/// A status as it crosses the wire: only fresh submissions and
/// collator-level verdicts are carried.
#[verifier::ext_equal]
pub enum WireStatus {
    New,
    Accepted(BlockIdExt),
    Rejected(BlockIdExt, Seq<u8>),
}

/// How a stored status is reduced before encoding: collator-level verdicts
/// keep their block; everything local-only is normalized to `New`.
pub open spec fn reduce_status(s: RempMessageStatus) -> WireStatus {
    match s {
        RempMessageStatus::Accepted { level, block_id, .. } => if level is Collator {
            WireStatus::Accepted(block_id)
        } else {
            WireStatus::New
        },
        RempMessageStatus::Rejected { level, block_id, error } => if level is Collator {
            WireStatus::Rejected(block_id, error@)
        } else {
            WireStatus::New
        },
        _ => WireStatus::New,
    }
}

/// How the decoder lifts a wire status back: the level is set to
/// `Collator`, an acceptance gets the default master id, a rejection keeps
/// its error bytes.
pub open spec fn status_corresponds(s: RempMessageStatus, w: WireStatus) -> bool {
    match (s, w) {
        (RempMessageStatus::New, WireStatus::New) => true,
        (
            RempMessageStatus::Accepted { level, block_id, master_id },
            WireStatus::Accepted(b),
        ) => level is Collator && block_id == b && master_id == default_block(),
        (
            RempMessageStatus::Rejected { level, block_id, error },
            WireStatus::Rejected(b, e),
        ) => level is Collator && block_id == b && error@ == e,
        _ => false,
    }
}

pub open spec fn enc_status(w: WireStatus) -> Seq<u8> {
    match w {
        WireStatus::New => seq![0u8],
        WireStatus::Accepted(b) => seq![1u8] + enc_block(b),
        WireStatus::Rejected(b, e) => seq![2u8] + enc_block(b) + u32_be_bytes(e.len() as u32) + e,
    }
}

pub open spec fn dec_status(s: Seq<u8>) -> Option<WireStatus> {
    if s.len() < 1 {
        None
    } else if s[0] == 0 {
        if s.len() == 1 {
            Some(WireStatus::New)
        } else {
            None
        }
    } else if s[0] == 1 {
        if s.len() == 81 {
            Some(WireStatus::Accepted(dec_block(s.subrange(1, 81))))
        } else {
            None
        }
    } else if s[0] == 2 {
        if s.len() < 85 {
            None
        } else {
            let el = u32_from_be(s.subrange(81, 85)) as int;
            if s.len() == 85 + el {
                Some(WireStatus::Rejected(dec_block(s.subrange(1, 81)), s.subrange(85, 85 + el)))
            } else {
                None
            }
        }
    } else {
        None
    }
}

pub open spec fn wire_status_encodable(w: WireStatus) -> bool {
    match w {
        WireStatus::Rejected(_, e) => e.len() <= u32::MAX,
        _ => true,
    }
}

#[verifier::rlimit(100)]
pub proof fn lemma_status_round_trip(w: WireStatus)
    requires
        wire_status_encodable(w),
    ensures
        enc_status(w).len() >= 1,
        dec_status(enc_status(w)) == Some(w),
{
    broadcast use lemma_u32_be_bytes_len, lemma_u64_be_bytes_len, lemma_uint256_bytes_len;

    let e = enc_status(w);
    match w {
        WireStatus::New => {},
        WireStatus::Accepted(b) => {
            lemma_block_round_trip(b);
            assert(e[0] == 1);
            assert(e.subrange(1, 81) =~= enc_block(b));
        },
        WireStatus::Rejected(b, err) => {
            lemma_block_round_trip(b);
            assert(e[0] == 2);
            assert(e.subrange(1, 81) =~= enc_block(b));
            assert(e.subrange(81, 85) =~= u32_be_bytes(err.len() as u32));
            lemma_u32_round_trip(err.len() as u32);
            assert(e.subrange(85, e.len() as int) =~= err);
            assert(dec_status(e) matches Some(d) && d =~~= w);
        },
    }
}

/// What one record decodes to; the caller supplies `master_cc_seqno` and
/// the clock supplies the timestamp, so neither is on the wire.
#[verifier::ext_equal]
pub struct DecodedRecord {
    pub message_id: Uint256,
    pub source_key: Uint256,
    pub source_idx: u32,
    pub body: Seq<u8>,
    pub status: WireStatus,
}

/// One record with its reduced status on the wire: the two 256-bit ids, the
/// source index, the length-prefixed body, and the status.
pub open spec fn enc_record(m: RmqMessage, s: RempMessageStatus) -> Seq<u8> {
    uint256_bytes(m.message_id) + uint256_bytes(m.source_key) + u32_be_bytes(m.source_idx)
        + u32_be_bytes(m.message@.len() as u32) + m.message@ + enc_status(reduce_status(s))
}

pub open spec fn dec_record(b: Seq<u8>) -> Option<DecodedRecord> {
    if b.len() < 73 {
        None
    } else {
        let bl = u32_from_be(b.subrange(68, 72)) as int;
        if b.len() < 73 + bl {
            None
        } else {
            match dec_status(b.subrange(72 + bl, b.len() as int)) {
                None => None,
                Some(w) => Some(
                    DecodedRecord {
                        message_id: uint256_from(b.subrange(0, 32)),
                        source_key: uint256_from(b.subrange(32, 64)),
                        source_idx: u32_from_be(b.subrange(64, 68)),
                        body: b.subrange(72, 72 + bl),
                        status: w,
                    },
                ),
            }
        }
    }
}

/// The machine limits under which a record fits the wire form.
pub open spec fn record_encodable(m: RmqMessage, s: RempMessageStatus) -> bool {
    m.message@.len() <= u32::MAX && wire_status_encodable(reduce_status(s))
}

/// Decoding an encoded record restores every field that is on the wire,
/// and the status up to the reduction.
#[verifier::rlimit(100)]
pub proof fn lemma_record_round_trip(m: RmqMessage, s: RempMessageStatus)
    requires
        record_encodable(m, s),
    ensures
        dec_record(enc_record(m, s)) == Some(
            DecodedRecord {
                message_id: m.message_id,
                source_key: m.source_key,
                source_idx: m.source_idx,
                body: m.message@,
                status: reduce_status(s),
            },
        ),
{
    broadcast use lemma_u32_be_bytes_len, lemma_u64_be_bytes_len, lemma_uint256_bytes_len;

    let e = enc_record(m, s);
    let bl = m.message@.len() as int;
    let st = enc_status(reduce_status(s));
    lemma_status_round_trip(reduce_status(s));
    assert(e.len() == 72 + bl + st.len());
    assert(e.subrange(0, 32) =~= uint256_bytes(m.message_id));
    assert(e.subrange(32, 64) =~= uint256_bytes(m.source_key));
    assert(e.subrange(64, 68) =~= u32_be_bytes(m.source_idx));
    assert(e.subrange(68, 72) =~= u32_be_bytes(m.message@.len() as u32));
    assert(e.subrange(72, 72 + bl) =~= m.message@);
    assert(e.subrange(72 + bl, e.len() as int) =~= st);
    lemma_u32_round_trip(m.message@.len() as u32);
    lemma_u32_round_trip(m.source_idx);
    lemma_uint256_round_trip(m.message_id);
    lemma_uint256_round_trip(m.source_key);
    assert(dec_record(e) matches Some(d) && d =~~= (DecodedRecord {
        message_id: m.message_id,
        source_key: m.source_key,
        source_idx: m.source_idx,
        body: m.message@,
        status: reduce_status(s),
    }));
}


/// Failure of the record decoder: the bytes do not hold a well-formed
/// record.
#[derive(Clone, Copy, Debug, PartialEq, Eq, Structural)]
pub enum CodecError {
    MalformedRecord,
}

impl RmqMessage {
    /// Encodes the record with the given status reduced to its wire form;
    /// statuses that never cross the wire are normalized to `New`.
    pub fn serialize(&self, status: &RempMessageStatus) -> (r: Vec<u8>)
        requires
            record_encodable(*self, *status),
        ensures
            r@ == enc_record(*self, *status),
    {
        let mut out: Vec<u8> = Vec::new();
        push_uint256(&mut out, &self.message_id);
        push_uint256(&mut out, &self.source_key);
        push_u32_be(&mut out, self.source_idx);
        push_u32_be(&mut out, self.message.len() as u32);
        push_bytes(&mut out, &self.message);
        match status {
            RempMessageStatus::Accepted { level, block_id, .. } => {
                if *level == crate::status::RempMessageLevel::Collator {
                    out.push(1u8);
                    push_block(&mut out, block_id);
                } else {
                    out.push(0u8);
                }
            },
            RempMessageStatus::Rejected { level, block_id, error } => {
                if *level == crate::status::RempMessageLevel::Collator {
                    out.push(2u8);
                    push_block(&mut out, block_id);
                    push_u32_be(&mut out, error.len() as u32);
                    push_bytes(&mut out, error);
                } else {
                    out.push(0u8);
                }
            },
            _ => {
                out.push(0u8);
            },
        }
        proof {
            broadcast use lemma_u32_be_bytes_len, lemma_u64_be_bytes_len, lemma_uint256_bytes_len;

            assert(out@ =~= enc_record(*self, *status));
        }
        out
    }

    /// A throwaway record for exercising the pool: a fixed body whose
    /// message id is, as the data model asks, the content hash of the
    /// body.
    pub fn make_test_message() -> (r: RmqMessage)
        ensures
            r.message_id == uint256_from(sha256_of(r.message@)),
            r.source_key == (Uint256 { w0: 0, w1: 0, w2: 0, w3: 0 }),
            r.source_idx == 0,
            r.master_cc_seqno == 0,
            r.message@.len() > 0,
    {
        let body: Vec<u8> = vec![0x74, 0x65, 0x73, 0x74, 0x2d, 0x6d, 0x73, 0x67];
        let digest = sha256(&body);
        let message_id = read_uint256(&digest, 0);
        proof {
            assert(digest@.subrange(0, 32) =~= digest@);
        }
        RmqMessage::new(body, message_id, Uint256::zero(), 0, 0)
    }

    /// Decodes one wire record; the record's `master_cc_seqno` is supplied
    /// by the caller and its timestamp is read from the local clock.
    #[verifier::rlimit(100)]
    pub fn deserialize(raw: &Vec<u8>, master_cc_seqno: u32) -> (r: Result<
        (RmqMessage, RempMessageStatus),
        CodecError,
    >)
        ensures
            match dec_record(raw@) {
                Some(d) => r matches Ok(p) && p.0.message_id == d.message_id && p.0.source_key
                    == d.source_key && p.0.source_idx == d.source_idx && p.0.message@ == d.body
                    && p.0.master_cc_seqno == master_cc_seqno && status_corresponds(p.1, d.status),
                None => r is Err,
            },
    {
        let n = raw.len();
        if n < 73 {
            return Err(CodecError::MalformedRecord);
        }
        let message_id = read_uint256(raw, 0);
        let source_key = read_uint256(raw, 32);
        let source_idx = read_u32_be(raw, 64);
        let bl32 = read_u32_be(raw, 68);
        let bl = bl32 as usize;
        if (n as u64) < 73u64 + (bl as u64) {
            return Err(CodecError::MalformedRecord);
        }
        let body = read_bytes(raw, 72, bl);
        let s0 = 72 + bl;
        let st_len = n - s0;
        let ghost rest = raw@.subrange(s0 as int, n as int);
        proof {
            assert(rest[0] == raw@[s0 as int]);
            assert(rest.len() == st_len);
        }
        let tag = raw[s0];
        let message = RmqMessage {
            message: body,
            message_id,
            source_key,
            source_idx,
            timestamp: crate::message::timestamp_now(),
            master_cc_seqno,
        };
        if tag == 0 {
            if st_len == 1 {
                Ok((message, RempMessageStatus::New))
            } else {
                Err(CodecError::MalformedRecord)
            }
        } else if tag == 1 {
            if st_len == 81 {
                let block_id = read_block(raw, s0 + 1);
                proof {
                    assert(rest.subrange(1, 81) =~= raw@.subrange(s0 + 1, s0 + 81));
                }
                Ok(
                    (
                        message,
                        RempMessageStatus::Accepted {
                            level: crate::status::RempMessageLevel::Collator,
                            block_id,
                            master_id: empty_block_id(),
                        },
                    ),
                )
            } else {
                Err(CodecError::MalformedRecord)
            }
        } else if tag == 2 {
            if st_len < 85 {
                return Err(CodecError::MalformedRecord);
            }
            let el32 = read_u32_be(raw, s0 + 81);
            let el = el32 as usize;
            proof {
                assert(rest.subrange(81, 85) =~= raw@.subrange(s0 + 81, s0 + 85));
            }
            if (st_len as u64) == 85u64 + (el as u64) {
                let block_id = read_block(raw, s0 + 1);
                let error = read_bytes(raw, s0 + 85, el);
                proof {
                    assert(rest.subrange(1, 81) =~= raw@.subrange(s0 + 1, s0 + 81));
                    assert(rest.subrange(85, 85 + el) =~= raw@.subrange(s0 + 85, s0 + 85 + el));
                }
                Ok(
                    (
                        message,
                        RempMessageStatus::Rejected {
                            level: crate::status::RempMessageLevel::Collator,
                            block_id,
                            error,
                        },
                    ),
                )
            } else {
                Err(CodecError::MalformedRecord)
            }
        } else {
            Err(CodecError::MalformedRecord)
        }
    }
}


/// One length-prefixed item inside a round payload.
pub open spec fn enc_item(rb: Seq<u8>) -> Seq<u8> {
    u32_be_bytes(rb.len() as u32) + rb
}

/// The items of a round payload, in order: each pending record encoded
/// with status `New` and length-prefixed.
pub open spec fn enc_payload_items(msgs: Seq<RmqMessage>) -> Seq<u8>
    decreases msgs.len(),
{
    if msgs.len() == 0 {
        Seq::empty()
    } else {
        enc_item(enc_record(msgs[0], RempMessageStatus::New)) + enc_payload_items(msgs.skip(1))
    }
}

/// A whole round payload: timestamp and state words (both carried as
/// zero), the item count, then the items.
pub open spec fn enc_payload(msgs: Seq<RmqMessage>) -> Seq<u8> {
    u64_be_bytes(0) + u32_be_bytes(0) + u32_be_bytes(msgs.len() as u32) + enc_payload_items(msgs)
}

/// Splits `b` into exactly `n` length-prefixed items, or nothing if the
/// framing is broken or bytes are left over.
pub open spec fn dec_items(b: Seq<u8>, n: nat) -> Option<Seq<Seq<u8>>>
    decreases n,
{
    if n == 0 {
        if b.len() == 0 {
            Some(Seq::empty())
        } else {
            None
        }
    } else if b.len() < 4 {
        None
    } else {
        let l = u32_from_be(b.subrange(0, 4)) as int;
        if b.len() < 4 + l {
            None
        } else {
            match dec_items(b.subrange(4 + l, b.len() as int), (n - 1) as nat) {
                None => None,
                Some(rest) => Some(seq![b.subrange(4, 4 + l)] + rest),
            }
        }
    }
}

pub open spec fn dec_payload(b: Seq<u8>) -> Option<Seq<Seq<u8>>> {
    if b.len() < 16 {
        None
    } else {
        dec_items(b.subrange(16, b.len() as int), u32_from_be(b.subrange(12, 16)) as nat)
    }
}

/// Room for the fixed framing around a record body.
pub open spec fn record_fits(m: RmqMessage) -> bool {
    m.message@.len() + 100 <= u32::MAX
}

/// Appending one message extends the item bytes by one encoded item.
pub proof fn lemma_enc_items_snoc(msgs: Seq<RmqMessage>, i: int)
    requires
        0 <= i < msgs.len(),
    ensures
        enc_payload_items(msgs.take(i + 1)) == enc_payload_items(msgs.take(i)) + enc_item(
            enc_record(msgs[i], RempMessageStatus::New),
        ),
    decreases i,
{
    broadcast use lemma_u32_be_bytes_len, lemma_u64_be_bytes_len, lemma_uint256_bytes_len;

    if i == 0 {
        assert(msgs.take(1).skip(1) =~= Seq::<RmqMessage>::empty());
        assert(enc_payload_items(Seq::<RmqMessage>::empty()) == Seq::<u8>::empty());
        assert(enc_payload_items(msgs.take(1).skip(1)) == Seq::<u8>::empty());
        assert(enc_payload_items(msgs.take(0)) =~= Seq::<u8>::empty());
        assert(msgs.take(1).len() == 1);
        assert(msgs.take(1)[0] == msgs[0]);
        assert(enc_payload_items(msgs.take(1)) == enc_item(
            enc_record(msgs.take(1)[0], RempMessageStatus::New),
        ) + enc_payload_items(msgs.take(1).skip(1)));
        assert(enc_payload_items(msgs.take(1)) =~= enc_item(
            enc_record(msgs[0], RempMessageStatus::New),
        ));
    } else {
        lemma_enc_items_snoc(msgs.skip(1), i - 1);
        assert(msgs.take(i + 1).skip(1) =~= msgs.skip(1).take(i));
        assert(msgs.take(i).skip(1) =~= msgs.skip(1).take(i - 1));
        assert(msgs.take(i + 1)[0] == msgs[0]);
        assert(msgs.take(i)[0] == msgs[0]);
        assert(msgs.skip(1)[i - 1] == msgs[i]);
        assert(enc_payload_items(msgs.take(i + 1)) =~= enc_payload_items(msgs.take(i)) + enc_item(
            enc_record(msgs[i], RempMessageStatus::New),
        ));
    }
}

/// Encodes a drained batch of pending records, each with status `New`, as
/// one round payload.
pub fn pack_payload(msgs: &Vec<RmqMessage>) -> (r: Vec<u8>)
    requires
        msgs@.len() <= u32::MAX,
        forall|i: int| 0 <= i < msgs@.len() ==> record_fits(#[trigger] msgs@[i]),
    ensures
        r@ == enc_payload(msgs@),
{
    let mut out: Vec<u8> = Vec::new();
    push_u64_be(&mut out, 0);
    push_u32_be(&mut out, 0);
    push_u32_be(&mut out, msgs.len() as u32);
    let ghost header = u64_be_bytes(0) + u32_be_bytes(0) + u32_be_bytes(msgs@.len() as u32);
    proof {
        assert(enc_payload_items(msgs@.take(0)) =~= Seq::<u8>::empty());
        assert(out@ =~= header + enc_payload_items(msgs@.take(0)));
    }
    let mut i: usize = 0;
    while i < msgs.len()
        invariant
            msgs@.len() <= u32::MAX,
            forall|j: int| 0 <= j < msgs@.len() ==> record_fits(#[trigger] msgs@[j]),
            i <= msgs@.len(),
            header == u64_be_bytes(0) + u32_be_bytes(0) + u32_be_bytes(msgs@.len() as u32),
            out@ == header + enc_payload_items(msgs@.take(i as int)),
        decreases msgs@.len() - i,
    {
        let status = RempMessageStatus::New;
        let rb = msgs[i].serialize(&status);
        proof {
            broadcast use lemma_u32_be_bytes_len, lemma_u64_be_bytes_len, lemma_uint256_bytes_len;

            assert(rb@.len() == 73 + msgs@[i as int].message@.len());
        }
        push_u32_be(&mut out, rb.len() as u32);
        push_bytes(&mut out, &rb);
        proof {
            lemma_enc_items_snoc(msgs@, i as int);
            assert(out@ =~= header + enc_payload_items(msgs@.take(i + 1)));
        }
        i += 1;
    }
    proof {
        assert(msgs@.take(msgs@.len() as int) =~= msgs@);
        assert(out@ =~= enc_payload(msgs@));
    }
    out
}

/// Splits the byte region from `start` into `count` length-prefixed items;
/// `None` exactly where the framing is broken.
pub fn frame_items(v: &Vec<u8>, start: usize, count: u32) -> (r: Option<Vec<Vec<u8>>>)
    requires
        start <= v.len(),
    ensures
        match r {
            Some(items) => dec_items(v@.subrange(start as int, v@.len() as int), count as nat)
                == Some(items@.map_values(|x: Vec<u8>| x@)),
            None => dec_items(v@.subrange(start as int, v@.len() as int), count as nat) is None,
        },
{
    let ghost full = v@.subrange(start as int, v@.len() as int);
    let mut framed: Vec<Vec<u8>> = Vec::new();
    let mut pos: usize = start;
    let mut i: u32 = 0;
    proof {
        assert(framed@.map_values(|x: Vec<u8>| x@) =~= Seq::<Seq<u8>>::empty());
    }
    while i < count
        invariant
            start <= pos <= v@.len(),
            i <= count,
            full == v@.subrange(start as int, v@.len() as int),
            (match dec_items(v@.subrange(pos as int, v@.len() as int), (count - i) as nat) {
                None => dec_items(full, count as nat) is None,
                Some(rest) => dec_items(full, count as nat) == Some(
                    framed@.map_values(|x: Vec<u8>| x@) + rest,
                ),
            }),
        decreases count - i,
    {
        let ghost cur = v@.subrange(pos as int, v@.len() as int);
        let ghost k = (count - i) as nat;
        let rem = v.len() - pos;
        if rem < 4 {
            proof {
                assert(dec_items(cur, k) is None);
            }
            return None;
        }
        let l32 = read_u32_be(v, pos);
        let l = l32 as usize;
        proof {
            assert(cur.subrange(0, 4) =~= v@.subrange(pos as int, pos + 4));
            assert(u32_from_be(cur.subrange(0, 4)) == l32);
        }
        if ((rem as u64) - 4) < (l as u64) {
            proof {
                assert(cur.len() < 4 + l);
                assert(dec_items(cur, k) is None);
            }
            return None;
        }
        let item = read_bytes(v, pos + 4, l);
        proof {
            assert(cur.subrange(4, 4 + l) =~= v@.subrange(pos + 4, pos + 4 + l));
            assert(cur.subrange(4 + l, cur.len() as int) =~= v@.subrange(
                pos + 4 + l,
                v@.len() as int,
            ));
        }
        let ghost old_framed = framed@;
        framed.push(item);
        proof {
            assert(framed@.map_values(|x: Vec<u8>| x@) =~= old_framed.map_values(
                |x: Vec<u8>| x@,
            ).push(item@));
            let nxt = v@.subrange(pos + 4 + l, v@.len() as int);
            match dec_items(nxt, (k - 1) as nat) {
                None => {
                    assert(dec_items(cur, k) is None);
                },
                Some(rest) => {
                    assert(dec_items(cur, k) == Some(seq![item@] + rest));
                    assert(old_framed.map_values(|x: Vec<u8>| x@) + (seq![item@] + rest)
                        =~= framed@.map_values(|x: Vec<u8>| x@) + rest);
                },
            }
        }
        pos = pos + 4 + l;
        i += 1;
    }
    if pos == v.len() {
        proof {
            let cur = v@.subrange(pos as int, v@.len() as int);
            assert(cur.len() == 0);
            assert(dec_items(cur, 0) == Some(Seq::<Seq<u8>>::empty()));
            assert(framed@.map_values(|x: Vec<u8>| x@) + Seq::<Seq<u8>>::empty()
                =~= framed@.map_values(|x: Vec<u8>| x@));
        }
        Some(framed)
    } else {
        proof {
            let cur = v@.subrange(pos as int, v@.len() as int);
            assert(cur.len() > 0);
            assert(dec_items(cur, 0) is None);
        }
        None
    }
}


/// The records a payload delivers: each item that decodes, in order, kept
/// only if its wire status is exactly `New`.
pub open spec fn new_records(items: Seq<Seq<u8>>) -> Seq<DecodedRecord>
    decreases items.len(),
{
    if items.len() == 0 {
        Seq::empty()
    } else {
        let pre = new_records(items.drop_last());
        match dec_record(items.last()) {
            Some(d) => if d.status is New {
                pre.push(d)
            } else {
                pre
            },
            None => pre,
        }
    }
}

/// An unpacked pair against the decoded record it came from.
pub open spec fn unpacked_matches(
    p: (RmqMessage, RempMessageStatus),
    d: DecodedRecord,
    master_cc_seqno: u32,
) -> bool {
    &&& p.0.message_id == d.message_id
    &&& p.0.source_key == d.source_key
    &&& p.0.source_idx == d.source_idx
    &&& p.0.message@ == d.body
    &&& p.0.master_cc_seqno == master_cc_seqno
    &&& p.1 is New
}

/// Decodes a round payload and hands back the carried records whose status
/// is exactly `New`; statuses other than `New` are not trusted from peers
/// and are dropped, as are items that do not decode. A payload whose
/// framing is broken yields nothing.
pub fn unpack_payload(payload: &Vec<u8>, master_cc_seqno: u32) -> (r: Vec<
    (RmqMessage, RempMessageStatus),
>)
    ensures
        match dec_payload(payload@) {
            None => r@.len() == 0,
            Some(items) => r@.len() == new_records(items).len() && forall|i: int|
                0 <= i < r@.len() ==> unpacked_matches(
                    #[trigger] r@[i],
                    new_records(items)[i],
                    master_cc_seqno,
                ),
        },
{
    let mut r: Vec<(RmqMessage, RempMessageStatus)> = Vec::new();
    if payload.len() < 16 {
        return r;
    }
    let count = read_u32_be(payload, 12);
    match frame_items(payload, 16, count) {
        None => r,
        Some(items) => {
            let ghost itemviews = items@.map_values(|x: Vec<u8>| x@);
            proof {
                assert(new_records(itemviews.take(0)) =~= Seq::<DecodedRecord>::empty());
            }
            let mut j: usize = 0;
            while j < items.len()
                invariant
                    j <= items@.len(),
                    itemviews == items@.map_values(|x: Vec<u8>| x@),
                    dec_payload(payload@) == Some(itemviews),
                    r@.len() == new_records(itemviews.take(j as int)).len(),
                    forall|i: int|
                        0 <= i < r@.len() ==> unpacked_matches(
                            #[trigger] r@[i],
                            new_records(itemviews.take(j as int))[i],
                            master_cc_seqno,
                        ),
                decreases items@.len() - j,
            {
                proof {
                    assert(itemviews.take(j + 1).drop_last() =~= itemviews.take(j as int));
                    assert(itemviews.take(j + 1).last() == items@[j as int]@);
                }
                match RmqMessage::deserialize(&items[j], master_cc_seqno) {
                    Ok(p) => {
                        let keep = match &p.1 {
                            RempMessageStatus::New => true,
                            _ => false,
                        };
                        if keep {
                            r.push(p);
                        }
                    },
                    Err(_) => {},
                }
                j += 1;
            }
            proof {
                assert(itemviews.take(itemviews.len() as int) =~= itemviews);
            }
            r
        },
    }
}


/// The items of an encoded payload parse back, in order, to exactly the
/// encoded records.
proof fn lemma_payload_items_round_trip(msgs: Seq<RmqMessage>)
    requires
        forall|i: int| 0 <= i < msgs.len() ==> record_fits(#[trigger] msgs[i]),
    ensures
        dec_items(enc_payload_items(msgs), msgs.len() as nat) == Some(
            msgs.map_values(|m: RmqMessage| enc_record(m, RempMessageStatus::New)),
        ),
    decreases msgs.len(),
{
    broadcast use lemma_u32_be_bytes_len, lemma_u64_be_bytes_len, lemma_uint256_bytes_len;

    let f = |m: RmqMessage| enc_record(m, RempMessageStatus::New);
    if msgs.len() == 0 {
        assert(enc_payload_items(msgs).len() == 0);
        assert(msgs.map_values(f) =~= Seq::<Seq<u8>>::empty());
    } else {
        let r0 = enc_record(msgs[0], RempMessageStatus::New);
        let rest = enc_payload_items(msgs.skip(1));
        let e = enc_payload_items(msgs);
        assert(e == enc_item(r0) + rest);
        assert(r0.len() == 73 + msgs[0].message@.len());
        let l = r0.len() as int;
        lemma_u32_round_trip(r0.len() as u32);
        assert(e.subrange(0, 4) =~= u32_be_bytes(r0.len() as u32));
        assert(u32_from_be(e.subrange(0, 4)) as int == l);
        assert(e.subrange(4, 4 + l) =~= r0);
        assert(e.subrange(4 + l, e.len() as int) =~= rest);
        assert(forall|i: int| 0 <= i < msgs.skip(1).len() ==> record_fits(#[trigger] msgs.skip(1)[i]));
        lemma_payload_items_round_trip(msgs.skip(1));
        assert(dec_items(e, msgs.len() as nat) == Some(
            seq![r0] + msgs.skip(1).map_values(f),
        ));
        assert(seq![r0] + msgs.skip(1).map_values(f) =~= msgs.map_values(f));
    }
}

/// Unpacking a packed batch hands back exactly the packed records, in
/// order, every one carried with status `New` and restored field by field.
pub proof fn lemma_payload_round_trip(msgs: Seq<RmqMessage>)
    requires
        msgs.len() <= u32::MAX,
        forall|i: int| 0 <= i < msgs.len() ==> record_fits(#[trigger] msgs[i]),
    ensures
        dec_payload(enc_payload(msgs)) == Some(
            msgs.map_values(|m: RmqMessage| enc_record(m, RempMessageStatus::New)),
        ),
        new_records(msgs.map_values(|m: RmqMessage| enc_record(m, RempMessageStatus::New))).len()
            == msgs.len(),
        forall|i: int|
            0 <= i < msgs.len() ==> {
                let d = new_records(
                    msgs.map_values(|m: RmqMessage| enc_record(m, RempMessageStatus::New)),
                )[i];
                &&& d.message_id == (#[trigger] msgs[i]).message_id
                &&& d.source_key == msgs[i].source_key
                &&& d.source_idx == msgs[i].source_idx
                &&& d.body == msgs[i].message@
                &&& d.status is New
            },
{
    broadcast use lemma_u32_be_bytes_len, lemma_u64_be_bytes_len, lemma_uint256_bytes_len;

    let f = |m: RmqMessage| enc_record(m, RempMessageStatus::New);
    let e = enc_payload(msgs);
    let items = enc_payload_items(msgs);
    assert(e.len() == 16 + items.len());
    lemma_u32_round_trip(msgs.len() as u32);
    assert(e.subrange(12, 16) =~= u32_be_bytes(msgs.len() as u32));
    assert(e.subrange(16, e.len() as int) =~= items);
    lemma_payload_items_round_trip(msgs);
    lemma_new_records_of_encoded(msgs);
}

/// Every encoded record in a packed batch decodes and is kept by the
/// `New`-filter, so none is dropped.
proof fn lemma_new_records_of_encoded(msgs: Seq<RmqMessage>)
    requires
        forall|i: int| 0 <= i < msgs.len() ==> record_fits(#[trigger] msgs[i]),
    ensures
        new_records(msgs.map_values(|m: RmqMessage| enc_record(m, RempMessageStatus::New))).len()
            == msgs.len(),
        forall|i: int|
            0 <= i < msgs.len() ==> {
                let d = new_records(
                    msgs.map_values(|m: RmqMessage| enc_record(m, RempMessageStatus::New)),
                )[i];
                &&& d.message_id == (#[trigger] msgs[i]).message_id
                &&& d.source_key == msgs[i].source_key
                &&& d.source_idx == msgs[i].source_idx
                &&& d.body == msgs[i].message@
                &&& d.status is New
            },
    decreases msgs.len(),
{
    let f = |m: RmqMessage| enc_record(m, RempMessageStatus::New);
    let items = msgs.map_values(f);
    if msgs.len() > 0 {
        let pre_msgs = msgs.drop_last();
        assert(forall|i: int|
            0 <= i < pre_msgs.len() ==> record_fits(#[trigger] pre_msgs[i]));
        lemma_new_records_of_encoded(pre_msgs);
        assert(items.drop_last() =~= pre_msgs.map_values(f));
        assert(items.last() == enc_record(msgs.last(), RempMessageStatus::New));
        lemma_record_round_trip(msgs.last(), RempMessageStatus::New);
        let last_rec = DecodedRecord {
            message_id: msgs.last().message_id,
            source_key: msgs.last().source_key,
            source_idx: msgs.last().source_idx,
            body: msgs.last().message@,
            status: reduce_status(RempMessageStatus::New),
        };
        assert(new_records(items) == new_records(items.drop_last()).push(last_rec));
        assert forall|i: int|
            0 <= i < msgs.len() implies {
            let d = new_records(msgs.map_values(f))[i];
            &&& d.message_id == (#[trigger] msgs[i]).message_id
            &&& d.source_key == msgs[i].source_key
            &&& d.source_idx == msgs[i].source_idx
            &&& d.body == msgs[i].message@
            &&& d.status is New
        } by {
            if i < msgs.len() - 1 {
                assert(new_records(items)[i] == new_records(pre_msgs.map_values(f))[i]);
                assert(pre_msgs[i] == msgs[i]);
            } else {
                assert(new_records(items)[i] == last_rec);
                assert(msgs.last() == msgs[i]);
            }
        }
    }
}

} // verus!
