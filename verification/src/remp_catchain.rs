//! The per-validator-set catchain session: its reproducible identity
//! (queue id, node list, local index), the payload it exchanges each
//! round, and the ref-counted lifecycle store that multiplexes users onto
//! sessions.

use vstd::prelude::*;
use crate::ids::{Uint256, ShardIdent};
use crate::codec::{
    uint256_bytes, uint256_from, u32_be_bytes, push_u32_be, push_uint256, read_uint256,
    dec_payload, new_records, unpacked_matches, enc_payload, record_fits, sha256, sha256_of,
};
use crate::message::RmqMessage;
use crate::status::RempMessageStatus;

verus! {

/// A validator as the session needs it: the short id of its public key,
/// its transport (overlay) id, and the node id the queue id is derived
/// from. The wider node computes these three hashes from the validator
/// descriptor; the session only carries them.
#[derive(Clone, Copy, Debug, PartialEq, Eq, Structural)]
pub struct ValidatorDescr {
    pub public_key_id: Uint256,
    pub adnl_id: Uint256,
    pub node_id_short: Uint256,
}

/// Token naming the engine-side catchain instance a started session holds;
/// the embedding maps it to the real handle.
#[derive(Clone, Copy, Debug, PartialEq, Eq, Structural)]
pub struct CatchainHandle {
    pub id: u64,
}

/// Failure of session construction: the local key is not in the node list.
#[derive(Clone, Copy, Debug, PartialEq, Eq, Structural)]
pub enum SessionError {
    LocalKeyNotFound,
}

/// The node id hashes of a validator list, concatenated in order.
pub open spec fn node_ids_bytes(s: Seq<ValidatorDescr>) -> Seq<u8>
    decreases s.len(),
{
    if s.len() == 0 {
        Seq::empty()
    } else {
        uint256_bytes(s[0].node_id_short) + node_ids_bytes(s.skip(1))
    }
}

/// The bytes hashed into a queue id: the big-endian catchain seqno, then
/// the node ids of the current set, then those of the next set.
pub open spec fn queue_id_preimage(
    catchain_seqno: u32,
    curr: Seq<ValidatorDescr>,
    next: Seq<ValidatorDescr>,
) -> Seq<u8> {
    u32_be_bytes(catchain_seqno) + node_ids_bytes(curr) + node_ids_bytes(next)
}

/// The queue id: a pure function of the seqno and the two validator sets,
/// so two honest nodes compute identical ids.
pub open spec fn spec_queue_id(
    catchain_seqno: u32,
    curr: Seq<ValidatorDescr>,
    next: Seq<ValidatorDescr>,
) -> Uint256 {
    uint256_from(sha256_of(queue_id_preimage(catchain_seqno, curr, next)))
}

/// Some node of the list uses this transport id.
pub open spec fn has_adnl(s: Seq<ValidatorDescr>, adnl_id: Uint256) -> bool {
    exists|i: int| 0 <= i < s.len() && (#[trigger] s[i]).adnl_id == adnl_id
}

/// The node list: the accumulated list extended by each next-set member
/// whose transport id is not already present, in first-seen order.
pub open spec fn add_next_nodes(
    acc: Seq<ValidatorDescr>,
    next: Seq<ValidatorDescr>,
) -> Seq<ValidatorDescr>
    decreases next.len(),
{
    if next.len() == 0 {
        acc
    } else {
        add_next_nodes(
            if has_adnl(acc, next[0].adnl_id) {
                acc
            } else {
                acc.push(next[0])
            },
            next.skip(1),
        )
    }
}

pub open spec fn spec_node_list(
    curr: Seq<ValidatorDescr>,
    next: Seq<ValidatorDescr>,
) -> Seq<ValidatorDescr> {
    add_next_nodes(curr, next)
}

/// Appending one encoded node id at a time matches the spec concatenation.
proof fn lemma_node_ids_snoc(s: Seq<ValidatorDescr>, i: int)
    requires
        0 <= i < s.len(),
    ensures
        node_ids_bytes(s.take(i + 1)) == node_ids_bytes(s.take(i)) + uint256_bytes(
            s[i].node_id_short,
        ),
    decreases i,
{
    broadcast use crate::codec::lemma_uint256_bytes_len;

    if i == 0 {
        assert(s.take(1).skip(1) =~= Seq::<ValidatorDescr>::empty());
        assert(node_ids_bytes(Seq::<ValidatorDescr>::empty()) == Seq::<u8>::empty());
        assert(node_ids_bytes(s.take(0)) =~= Seq::<u8>::empty());
        assert(s.take(1)[0] == s[0]);
        assert(node_ids_bytes(s.take(1)) == uint256_bytes(s.take(1)[0].node_id_short)
            + node_ids_bytes(s.take(1).skip(1)));
        assert(node_ids_bytes(s.take(1)) =~= node_ids_bytes(s.take(0)) + uint256_bytes(
            s[0].node_id_short,
        ));
    } else {
        lemma_node_ids_snoc(s.skip(1), i - 1);
        assert(s.take(i + 1).skip(1) =~= s.skip(1).take(i));
        assert(s.take(i).skip(1) =~= s.skip(1).take(i - 1));
        assert(s.take(i + 1)[0] == s[0]);
        assert(s.take(i)[0] == s[0]);
        assert(s.skip(1)[i - 1] == s[i]);
        assert(node_ids_bytes(s.take(i + 1)) =~= node_ids_bytes(s.take(i)) + uint256_bytes(
            s[i].node_id_short,
        ));
    }
}

/// Appends the node id hashes of `nodes` to `out`.
fn push_node_ids(out: &mut Vec<u8>, nodes: &Vec<ValidatorDescr>)
    ensures
        final(out)@ == old(out)@ + node_ids_bytes(nodes@),
{
    let mut i: usize = 0;
    proof {
        assert(node_ids_bytes(nodes@.take(0)) =~= Seq::<u8>::empty());
        assert(out@ =~= old(out)@ + node_ids_bytes(nodes@.take(0)));
    }
    while i < nodes.len()
        invariant
            i <= nodes@.len(),
            out@ == old(out)@ + node_ids_bytes(nodes@.take(i as int)),
        decreases nodes@.len() - i,
    {
        push_uint256(out, &nodes[i].node_id_short);
        proof {
            lemma_node_ids_snoc(nodes@, i as int);
            assert(out@ =~= old(out)@ + node_ids_bytes(nodes@.take(i + 1)));
        }
        i += 1;
    }
    proof {
        assert(nodes@.take(nodes@.len() as int) =~= nodes@);
    }
}

/// An owned copy of a validator list.
fn copy_nodes(nodes: &Vec<ValidatorDescr>) -> (r: Vec<ValidatorDescr>)
    ensures
        r@ == nodes@,
{
    let mut r: Vec<ValidatorDescr> = Vec::new();
    let mut i: usize = 0;
    while i < nodes.len()
        invariant
            i <= nodes@.len(),
            r@ == nodes@.take(i as int),
        decreases nodes@.len() - i,
    {
        r.push(nodes[i]);
        proof {
            assert(nodes@.take(i + 1) =~= nodes@.take(i as int).push(nodes@[i as int]));
        }
        i += 1;
    }
    proof {
        assert(nodes@.take(nodes@.len() as int) =~= nodes@);
    }
    r
}

/// Identity of one REMP catchain session. The underlying engine instance,
/// the overlay and the two channels live in the embedding; the identity
/// and the payload codec are what the session decides.
#[derive(Debug, PartialEq, Eq)]
pub struct RempCatchainInfo {
    pub nodes: Vec<ValidatorDescr>,
    pub node_list_id: Uint256,
    pub queue_id: Uint256,
    pub local_idx: u32,
    pub local_key_id: Uint256,
    pub master_cc_seqno: u32,
    pub shard: ShardIdent,
    /// Set once the session has started, cleared while it is down.
    pub catchain_ptr: Option<CatchainHandle>,
}

/// Equality of two session identities, field for field.
pub open spec fn info_matches(a: RempCatchainInfo, b: RempCatchainInfo) -> bool {
    &&& a.nodes@ == b.nodes@
    &&& a.node_list_id == b.node_list_id
    &&& a.queue_id == b.queue_id
    &&& a.local_idx == b.local_idx
    &&& a.local_key_id == b.local_key_id
    &&& a.master_cc_seqno == b.master_cc_seqno
    &&& a.shard == b.shard
    &&& a.catchain_ptr == b.catchain_ptr
}

/// The identity fields `is_same_catchain` compares.
pub open spec fn same_catchain(a: RempCatchainInfo, b: RempCatchainInfo) -> bool {
    &&& a.queue_id == b.queue_id
    &&& a.nodes@.len() == b.nodes@.len()
    &&& a.local_idx == b.local_idx
    &&& a.local_key_id == b.local_key_id
    &&& a.node_list_id == b.node_list_id
    &&& a.master_cc_seqno == b.master_cc_seqno
    &&& a.shard == b.shard
}

impl RempCatchainInfo {
    /// The queue id hashed from the seqno and the two validator sets;
    /// recomputing it from the same inputs is bit-identical.
    pub fn compute_id(
        catchain_seqno: u32,
        current: &Vec<ValidatorDescr>,
        next: &Vec<ValidatorDescr>,
    ) -> (r: Uint256)
        ensures
            r == spec_queue_id(catchain_seqno, current@, next@),
    {
        let mut input: Vec<u8> = Vec::new();
        push_u32_be(&mut input, catchain_seqno);
        push_node_ids(&mut input, current);
        push_node_ids(&mut input, next);
        proof {
            assert(input@ =~= queue_id_preimage(catchain_seqno, current@, next@));
        }
        let digest = sha256(&input);
        let r = read_uint256(&digest, 0);
        proof {
            assert(digest@.subrange(0, 32) =~= digest@);
        }
        r
    }

    /// Builds a session identity: the node list is the current set followed
    /// by the next-set members with fresh transport ids; the local index is
    /// the position of the local key in that list, and not finding it is a
    /// construction error. The node-list id is computed by the engine's
    /// validator-list identifier and passed in.
    pub fn create(
        catchain_seqno: u32,
        master_cc_seqno: u32,
        curr: &Vec<ValidatorDescr>,
        next: &Vec<ValidatorDescr>,
        local_key_id: Uint256,
        shard: ShardIdent,
        node_list_id: Uint256,
    ) -> (r: Result<RempCatchainInfo, SessionError>)
        requires
            curr@.len() + next@.len() <= u32::MAX,
        ensures
            match r {
                Ok(info) => {
                    &&& info.nodes@ == spec_node_list(curr@, next@)
                    &&& info.queue_id == spec_queue_id(catchain_seqno, curr@, next@)
                    &&& info.node_list_id == node_list_id
                    &&& info.local_key_id == local_key_id
                    &&& info.master_cc_seqno == master_cc_seqno
                    &&& info.shard == shard
                    &&& info.catchain_ptr is None
                    &&& info.local_idx < info.nodes@.len()
                    &&& info.nodes@[info.local_idx as int].public_key_id == local_key_id
                },
                Err(SessionError::LocalKeyNotFound) => !(exists|i: int|
                    0 <= i < spec_node_list(curr@, next@).len() && (#[trigger] spec_node_list(
                        curr@,
                        next@,
                    )[i]).public_key_id == local_key_id),
            },
    {
        let mut nodes = copy_nodes(curr);
        let mut i: usize = 0;
        proof {
            assert(next@.skip(0) =~= next@);
        }
        while i < next.len()
            invariant
                i <= next@.len(),
                curr@.len() + next@.len() <= u32::MAX,
                nodes@.len() <= curr@.len() + i,
                spec_node_list(curr@, next@) == add_next_nodes(nodes@, next@.skip(i as int)),
            decreases next@.len() - i,
        {
            let cand = next[i];
            let mut present = false;
            let mut j: usize = 0;
            while j < nodes.len()
                invariant
                    j <= nodes@.len(),
                    present == (exists|k: int|
                        0 <= k < j && (#[trigger] nodes@[k]).adnl_id == cand.adnl_id),
                decreases nodes@.len() - j,
            {
                if nodes[j].adnl_id == cand.adnl_id {
                    present = true;
                }
                j += 1;
            }
            proof {
                assert(present == has_adnl(nodes@, cand.adnl_id));
                assert(next@.skip(i as int)[0] == next@[i as int]);
                assert(next@.skip(i as int).skip(1) =~= next@.skip(i + 1));
            }
            if !present {
                nodes.push(cand);
            }
            i += 1;
        }
        proof {
            assert(next@.skip(next@.len() as int) =~= Seq::<ValidatorDescr>::empty());
            assert(spec_node_list(curr@, next@) == nodes@);
        }
        let mut local_idx_opt: Option<usize> = None;
        let mut j: usize = 0;
        while j < nodes.len()
            invariant
                j <= nodes@.len(),
                nodes@.len() <= u32::MAX,
                match local_idx_opt {
                    Some(ix) => ix < nodes@.len() && nodes@[ix as int].public_key_id
                        == local_key_id,
                    None => !(exists|k: int|
                        0 <= k < j && (#[trigger] nodes@[k]).public_key_id == local_key_id),
                },
            decreases nodes@.len() - j,
        {
            if local_idx_opt.is_none() && nodes[j].public_key_id == local_key_id {
                local_idx_opt = Some(j);
            }
            j += 1;
        }
        match local_idx_opt {
            None => Err(SessionError::LocalKeyNotFound),
            Some(ix) => {
                let queue_id = Self::compute_id(catchain_seqno, curr, next);
                Ok(
                    RempCatchainInfo {
                        nodes,
                        node_list_id,
                        queue_id,
                        local_idx: ix as u32,
                        local_key_id,
                        master_cc_seqno,
                        shard,
                        catchain_ptr: None,
                    },
                )
            },
        }
    }

    /// Two session identities drive the same catchain exactly when they
    /// agree on queue id, node count, local index and key, node-list id,
    /// master cycle and shard.
    pub fn is_same_catchain(&self, other: &RempCatchainInfo) -> (r: bool)
        ensures
            r == same_catchain(*self, *other),
    {
        self.queue_id == other.queue_id && self.nodes.len() == other.nodes.len()
            && self.local_idx == other.local_idx && self.local_key_id == other.local_key_id
            && self.node_list_id == other.node_list_id && self.master_cc_seqno
            == other.master_cc_seqno && self.shard == other.shard
    }

    /// Records the engine-side instance of a started session.
    pub fn set_session(&mut self, catchain: CatchainHandle)
        ensures
            *final(self) == (RempCatchainInfo { catchain_ptr: Some(catchain), ..*old(self) }),
    {
        self.catchain_ptr = Some(catchain);
    }

    pub fn get_session(&self) -> (r: Option<CatchainHandle>)
        ensures
            r == self.catchain_ptr,
    {
        self.catchain_ptr
    }

    /// An owned copy of the identity.
    pub fn duplicate(&self) -> (r: RempCatchainInfo)
        ensures
            info_matches(r, *self),
    {
        RempCatchainInfo {
            nodes: copy_nodes(&self.nodes),
            node_list_id: self.node_list_id,
            queue_id: self.queue_id,
            local_idx: self.local_idx,
            local_key_id: self.local_key_id,
            master_cc_seqno: self.master_cc_seqno,
            shard: self.shard,
            catchain_ptr: self.catchain_ptr,
        }
    }

    /// Decodes one round payload received from a peer: only records carried
    /// with status `New` are handed on; other statuses, and items that do
    /// not decode, are dropped.
    pub fn unpack_payload(&self, payload: &Vec<u8>) -> (r: Vec<(RmqMessage, RempMessageStatus)>)
        ensures
            match dec_payload(payload@) {
                None => r@.len() == 0,
                Some(items) => r@.len() == new_records(items).len() && forall|i: int|
                    0 <= i < r@.len() ==> unpacked_matches(
                        #[trigger] r@[i],
                        new_records(items)[i],
                        self.master_cc_seqno,
                    ),
            },
    {
        crate::codec::unpack_payload(payload, self.master_cc_seqno)
    }

    /// Encodes a drained batch of pending records, each with status `New`,
    /// as this round's payload.
    pub fn pack_round_payload(&self, msgs: &Vec<RmqMessage>) -> (r: Vec<u8>)
        requires
            msgs@.len() <= u32::MAX,
            forall|i: int| 0 <= i < msgs@.len() ==> record_fits(#[trigger] msgs@[i]),
        ensures
            r@ == enc_payload(msgs@),
    {
        crate::codec::pack_payload(msgs)
    }
}

/// Recomputing the queue id from the same inputs gives the same bits.
pub proof fn lemma_queue_id_deterministic(
    catchain_seqno: u32,
    curr: Seq<ValidatorDescr>,
    next: Seq<ValidatorDescr>,
    r1: Uint256,
    r2: Uint256,
)
    requires
        r1 == spec_queue_id(catchain_seqno, curr, next),
        r2 == spec_queue_id(catchain_seqno, curr, next),
    ensures
        r1 == r2,
{
}


/// Lifecycle of a store entry.
#[derive(Clone, Copy, Debug, PartialEq, Eq, Structural)]
pub enum RempCatchainStatus {
    Created,
    Starting,
    Active,
    Stopping,
}

/// Failures of the lifecycle store: the queue id is unknown, a different
/// session collides on the same id, or the entry is not in the state the
/// operation needs.
#[derive(Clone, Copy, Debug, PartialEq, Eq, Structural)]
pub enum StoreError {
    SessionNotFound,
    CatchainMismatch,
    WrongState,
}

/// One registry entry: the session identity, its lifecycle state, and how
/// many logical users hold it.
pub struct RempCatchainWrapper {
    pub info: RempCatchainInfo,
    pub status: RempCatchainStatus,
    pub count: u32,
}

impl RempCatchainWrapper {
    pub fn create(info: RempCatchainInfo) -> (r: RempCatchainWrapper)
        ensures
            r.info == info,
            r.status == RempCatchainStatus::Created,
            r.count == 1,
    {
        RempCatchainWrapper { info, status: RempCatchainStatus::Created, count: 1 }
    }

    pub fn attach(&mut self)
        requires
            old(self).count < u32::MAX,
        ensures
            final(self).info == old(self).info,
            final(self).status == old(self).status,
            final(self).count == old(self).count + 1,
    {
        self.count = self.count + 1;
    }

    /// Drops one user; true when the last user is gone.
    pub fn detach(&mut self) -> (r: bool)
        requires
            old(self).count >= 1,
        ensures
            final(self).info == old(self).info,
            final(self).status == old(self).status,
            final(self).count == old(self).count - 1,
            r == (final(self).count == 0),
    {
        self.count = self.count - 1;
        self.count == 0
    }

    pub fn set_status(&mut self, status: RempCatchainStatus)
        ensures
            final(self).info == old(self).info,
            final(self).count == old(self).count,
            final(self).status == status,
    {
        self.status = status;
    }

    /// Flips `Starting` to `Active`; any other state is refused untouched.
    pub fn set_active(&mut self) -> (r: Result<(), StoreError>)
        ensures
            final(self).info == old(self).info,
            final(self).count == old(self).count,
            match r {
                Ok(()) => old(self).status == RempCatchainStatus::Starting && final(self).status
                    == RempCatchainStatus::Active,
                Err(e) => e == StoreError::WrongState && old(self).status
                    != RempCatchainStatus::Starting && final(self).status == old(self).status,
            },
    {
        if self.status == RempCatchainStatus::Starting {
            self.status = RempCatchainStatus::Active;
            Ok(())
        } else {
            Err(StoreError::WrongState)
        }
    }
}

/// The ref-counted registry of sessions keyed by queue id, driving the
/// `Created - Starting - Active - Stopping` machine. The actual engine
/// start and stop happen between the `prepare` and `finish` calls, outside
/// the registry; the intermediate states reject conflicting concurrent
/// requests in that window.
pub struct RempCatchainStore {
    pub catchains: Vec<(Uint256, RempCatchainWrapper)>,
}

impl RempCatchainStore {
    pub open spec fn smap(self) -> Map<Uint256, RempCatchainWrapper> {
        crate::kvlist::kv_map(self.catchains@)
    }

    pub open spec fn wf(self) -> bool {
        crate::kvlist::kv_unique(self.catchains@)
    }

    pub open spec fn has(self, id: Uint256) -> bool {
        crate::kvlist::kv_has_key(self.catchains@, id)
    }

    pub fn new() -> (r: RempCatchainStore)
        ensures
            r.wf(),
            r.smap() == Map::<Uint256, RempCatchainWrapper>::empty(),
            r.catchains@.len() == 0,
    {
        RempCatchainStore { catchains: Vec::new() }
    }

    /// The entry holding `id`, with its row index.
    fn find_entry(&self, id: &Uint256) -> (r: Option<usize>)
        requires
            self.wf(),
        ensures
            match r {
                Some(i) => i < self.catchains@.len() && self.catchains@[i as int].0 == *id
                    && self.smap().dom().contains(*id) && self.smap()[*id]
                    == self.catchains@[i as int].1 && self.has(*id),
                None => !self.has(*id) && !self.smap().dom().contains(*id),
            },
    {
        proof {
            crate::kvlist::lemma_kv_map_dom(self.catchains@);
        }
        let r = crate::kvlist::kv_find(&self.catchains, *id);
        proof {
            if r is Some {
                crate::kvlist::lemma_kv_map_index(self.catchains@, r->0 as int);
                assert(crate::kvlist::kv_has_key(self.catchains@, *id));
            }
        }
        r
    }

    /// Registers a user of the session: a fresh queue id gets a `Created`
    /// entry with one user; the same identity again raises the refcount; a
    /// different identity on the same id is refused.
    pub fn create_catchain(&mut self, remp_catchain_info: RempCatchainInfo) -> (r: Result<
        (),
        StoreError,
    >)
        requires
            old(self).wf(),
            old(self).smap().dom().contains(remp_catchain_info.queue_id) ==> old(self).smap()[
                remp_catchain_info.queue_id
            ].count < u32::MAX,
        ensures
            final(self).wf(),
            ({
                let qid = remp_catchain_info.queue_id;
                if !old(self).smap().dom().contains(qid) {
                    r == Ok::<(), StoreError>(()) && final(self).smap() == old(self).smap().insert(
                        qid,
                        RempCatchainWrapper {
                            info: remp_catchain_info,
                            status: RempCatchainStatus::Created,
                            count: 1,
                        },
                    )
                } else if same_catchain(old(self).smap()[qid].info, remp_catchain_info) {
                    r == Ok::<(), StoreError>(()) && final(self).smap() == old(self).smap().insert(
                        qid,
                        RempCatchainWrapper {
                            info: old(self).smap()[qid].info,
                            status: old(self).smap()[qid].status,
                            count: (old(self).smap()[qid].count + 1) as u32,
                        },
                    )
                } else {
                    r == Err::<(), StoreError>(StoreError::CatchainMismatch) && *final(self)
                        == *old(self)
                }
            }),
    {
        let qid = remp_catchain_info.queue_id;
        match self.find_entry(&qid) {
            None => {
                proof {
                    crate::kvlist::lemma_kv_map_push(
                        self.catchains@,
                        qid,
                        RempCatchainWrapper {
                            info: remp_catchain_info,
                            status: RempCatchainStatus::Created,
                            count: 1,
                        },
                    );
                }
                let ghost orig = self.catchains@;
                self.catchains.push((qid, RempCatchainWrapper::create(remp_catchain_info)));
                proof {
                    assert forall|x: int, y: int|
                        0 <= x < y < self.catchains@.len() implies (
                    #[trigger] self.catchains@[x]).0 != (#[trigger] self.catchains@[y]).0 by {
                        if y == self.catchains@.len() - 1 {
                            assert(self.catchains@[x] == orig[x]);
                            assert(!crate::kvlist::kv_has_key(orig, qid));
                        } else {
                            assert(self.catchains@[x] == orig[x]);
                            assert(self.catchains@[y] == orig[y]);
                        }
                    }
                }
                Ok(())
            },
            Some(i) => {
                let same = self.catchains[i].1.info.is_same_catchain(&remp_catchain_info);
                if same {
                    proof {
                        crate::kvlist::lemma_kv_map_index(self.catchains@, i as int);
                    }
                    let entry = &mut self.catchains[i];
                    entry.1.attach();
                    proof {
                        crate::kvlist::lemma_kv_map_update(
                            old(self).catchains@,
                            i as int,
                            self.catchains@[i as int].1,
                        );
                        assert(self.catchains@ =~= old(self).catchains@.update(
                            i as int,
                            (old(self).catchains@[i as int].0, self.catchains@[i as int].1),
                        ));
                    }
                    Ok(())
                } else {
                    Err(StoreError::CatchainMismatch)
                }
            },
        }
    }

    /// Claims the start of a session: a `Created` entry flips to
    /// `Starting` and its identity is handed back so the caller can
    /// perform the actual engine start; an `Active` entry is already done;
    /// an entry mid-start or mid-stop is refused.
    pub fn start_catchain_prepare(&mut self, session_id: &Uint256) -> (r: Result<
        Option<RempCatchainInfo>,
        StoreError,
    >)
        requires
            old(self).wf(),
        ensures
            final(self).wf(),
            if !old(self).smap().dom().contains(*session_id) {
                r == Err::<Option<RempCatchainInfo>, StoreError>(StoreError::SessionNotFound)
                    && *final(self) == *old(self)
            } else {
                match old(self).smap()[*session_id].status {
                    RempCatchainStatus::Created => r matches Ok(Some(info)) && info_matches(
                        info,
                        old(self).smap()[*session_id].info,
                    ) && final(self).smap() == old(self).smap().insert(
                        *session_id,
                        RempCatchainWrapper {
                            info: old(self).smap()[*session_id].info,
                            status: RempCatchainStatus::Starting,
                            count: old(self).smap()[*session_id].count,
                        },
                    ),
                    RempCatchainStatus::Active => r == Ok::<Option<RempCatchainInfo>, StoreError>(
                        None,
                    ) && *final(self) == *old(self),
                    _ => r == Err::<Option<RempCatchainInfo>, StoreError>(StoreError::WrongState)
                        && *final(self) == *old(self),
                }
            },
    {
        match self.find_entry(session_id) {
            None => Err(StoreError::SessionNotFound),
            Some(i) => {
                let status = self.catchains[i].1.status;
                match status {
                    RempCatchainStatus::Created => {
                        proof {
                            crate::kvlist::lemma_kv_map_index(self.catchains@, i as int);
                        }
                        let entry = &mut self.catchains[i];
                        entry.1.set_status(RempCatchainStatus::Starting);
                        let info = self.catchains[i].1.info.duplicate();
                        proof {
                            crate::kvlist::lemma_kv_map_update(
                                old(self).catchains@,
                                i as int,
                                self.catchains@[i as int].1,
                            );
                            assert(self.catchains@ =~= old(self).catchains@.update(
                                i as int,
                                (old(self).catchains@[i as int].0, self.catchains@[i as int].1),
                            ));
                        }
                        Ok(Some(info))
                    },
                    RempCatchainStatus::Active => Ok(None),
                    _ => Err(StoreError::WrongState),
                }
            },
        }
    }

    /// Completes a start: the handle of the started engine instance is
    /// recorded and the entry becomes `Active`. An entry that vanished
    /// while the start ran is tolerated; one in any state but `Starting`
    /// is refused.
    pub fn start_catchain_finish(&mut self, session_id: &Uint256, catchain: CatchainHandle) -> (r:
        Result<(), StoreError>)
        requires
            old(self).wf(),
        ensures
            final(self).wf(),
            if !old(self).smap().dom().contains(*session_id) {
                r == Ok::<(), StoreError>(()) && *final(self) == *old(self)
            } else if old(self).smap()[*session_id].status == RempCatchainStatus::Starting {
                r == Ok::<(), StoreError>(()) && final(self).smap() == old(self).smap().insert(
                    *session_id,
                    RempCatchainWrapper {
                        info: RempCatchainInfo {
                            catchain_ptr: Some(catchain),
                            ..old(self).smap()[*session_id].info
                        },
                        status: RempCatchainStatus::Active,
                        count: old(self).smap()[*session_id].count,
                    },
                )
            } else {
                r == Err::<(), StoreError>(StoreError::WrongState) && *final(self) == *old(self)
            },
    {
        match self.find_entry(session_id) {
            None => Ok(()),
            Some(i) => {
                let status = self.catchains[i].1.status;
                if status == RempCatchainStatus::Starting {
                    proof {
                        crate::kvlist::lemma_kv_map_index(self.catchains@, i as int);
                    }
                    let entry = &mut self.catchains[i];
                    entry.1.info.set_session(catchain);
                    entry.1.status = RempCatchainStatus::Active;
                    proof {
                        crate::kvlist::lemma_kv_map_update(
                            old(self).catchains@,
                            i as int,
                            self.catchains@[i as int].1,
                        );
                        assert(self.catchains@ =~= old(self).catchains@.update(
                            i as int,
                            (old(self).catchains@[i as int].0, self.catchains@[i as int].1),
                        ));
                    }
                    Ok(())
                } else {
                    Err(StoreError::WrongState)
                }
            },
        }
    }

    /// Releases one user of an `Active` session. While users remain the
    /// entry stays `Active`; when the last user leaves, the entry flips to
    /// `Stopping` and the identity and captured handle are handed back so
    /// the caller can perform the actual engine stop.
    pub fn stop_catchain_prepare(&mut self, session_id: &Uint256) -> (r: Result<
        Option<(RempCatchainInfo, Option<CatchainHandle>)>,
        StoreError,
    >)
        requires
            old(self).wf(),
        ensures
            final(self).wf(),
            if !old(self).smap().dom().contains(*session_id) {
                r == Err::<Option<(RempCatchainInfo, Option<CatchainHandle>)>, StoreError>(
                    StoreError::SessionNotFound,
                ) && *final(self) == *old(self)
            } else if old(self).smap()[*session_id].status != RempCatchainStatus::Active {
                r == Err::<Option<(RempCatchainInfo, Option<CatchainHandle>)>, StoreError>(
                    StoreError::WrongState,
                ) && *final(self) == *old(self)
            } else if old(self).smap()[*session_id].count > 1 {
                r == Ok::<Option<(RempCatchainInfo, Option<CatchainHandle>)>, StoreError>(None)
                    && final(self).smap() == old(self).smap().insert(
                    *session_id,
                    RempCatchainWrapper {
                        info: old(self).smap()[*session_id].info,
                        status: RempCatchainStatus::Active,
                        count: (old(self).smap()[*session_id].count - 1) as u32,
                    },
                )
            } else {
                r matches Ok(Some(p)) && info_matches(p.0, old(self).smap()[*session_id].info)
                    && p.1 == old(self).smap()[*session_id].info.catchain_ptr && final(self).smap()
                    == old(self).smap().insert(
                    *session_id,
                    RempCatchainWrapper {
                        info: old(self).smap()[*session_id].info,
                        status: RempCatchainStatus::Stopping,
                        count: 0,
                    },
                )
            },
    {
        match self.find_entry(session_id) {
            None => Err(StoreError::SessionNotFound),
            Some(i) => {
                let status = self.catchains[i].1.status;
                if status != RempCatchainStatus::Active {
                    return Err(StoreError::WrongState);
                }
                proof {
                    crate::kvlist::lemma_kv_map_index(self.catchains@, i as int);
                }
                let count = self.catchains[i].1.count;
                if count > 1 {
                    let entry = &mut self.catchains[i];
                    entry.1.count = entry.1.count - 1;
                    proof {
                        crate::kvlist::lemma_kv_map_update(
                            old(self).catchains@,
                            i as int,
                            self.catchains@[i as int].1,
                        );
                        assert(self.catchains@ =~= old(self).catchains@.update(
                            i as int,
                            (old(self).catchains@[i as int].0, self.catchains@[i as int].1),
                        ));
                    }
                    Ok(None)
                } else {
                    let entry = &mut self.catchains[i];
                    entry.1.count = 0;
                    entry.1.status = RempCatchainStatus::Stopping;
                    let info = self.catchains[i].1.info.duplicate();
                    let session = self.catchains[i].1.info.get_session();
                    proof {
                        crate::kvlist::lemma_kv_map_update(
                            old(self).catchains@,
                            i as int,
                            self.catchains@[i as int].1,
                        );
                        assert(self.catchains@ =~= old(self).catchains@.update(
                            i as int,
                            (old(self).catchains@[i as int].0, self.catchains@[i as int].1),
                        ));
                    }
                    Ok(Some((info, session)))
                }
            },
        }
    }

    /// Completes a stop: the entry is deleted. Deleting an id that is
    /// already gone changes nothing.
    pub fn stop_catchain_finish(&mut self, session_id: &Uint256)
        requires
            old(self).wf(),
        ensures
            final(self).wf(),
            final(self).smap() == old(self).smap().remove(*session_id),
            !old(self).has(*session_id) ==> *final(self) == *old(self),
    {
        match self.find_entry(session_id) {
            None => {
                proof {
                    crate::kvlist::lemma_kv_map_dom(self.catchains@);
                    assert(self.smap().remove(*session_id) =~= self.smap());
                }
            },
            Some(i) => {
                proof {
                    crate::kvlist::lemma_kv_map_remove(self.catchains@, i as int);
                }
                self.catchains.remove(i);
            },
        }
    }

    /// The engine handle of a started session, if the entry exists and has
    /// one.
    pub fn get_catchain_session(&self, session_id: &Uint256) -> (r: Option<CatchainHandle>)
        requires
            self.wf(),
        ensures
            r == (if self.smap().dom().contains(*session_id) {
                self.smap()[*session_id].info.catchain_ptr
            } else {
                Option::<CatchainHandle>::None
            }),
    {
        match self.find_entry(session_id) {
            None => None,
            Some(i) => self.catchains[i].1.info.get_session(),
        }
    }
}

} // verus!
