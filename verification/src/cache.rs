//! The message cache: three mappings keyed by message id (bodies, shards,
//! statuses), the status update rules including duplicate detection, the
//! downgrade sweep and the expiry sweep.

use vstd::prelude::*;
use crate::ids::{Uint256, ShardIdent};
use crate::kvlist::{
    kv_map, kv_unique, kv_has_key, kv_find, lemma_kv_map_dom, lemma_kv_map_index,
    lemma_kv_map_push, lemma_kv_map_remove, lemma_kv_map_update, lemma_kv_map_len,
};
use crate::message::{RmqMessage, record_matches, spec_is_expired};
use crate::status::{
    RempMessageLevel, RempMessageStatus, status_matches, spec_validate_status_change,
    validate_status_change,
};

verus! {

/// Failures a cache operation can surface: the id is unknown, or the
/// requested move is not on the transition table.
#[derive(Clone, Copy, Debug, PartialEq, Eq, Structural)]
pub enum CacheError {
    MessageNotFound,
    IllegalStatusChange,
}

/// The cache as three mathematical maps; the contracts speak of this view.
#[verifier::ext_equal]
pub struct CacheView {
    pub bodies: Map<Uint256, RmqMessage>,
    pub shards: Map<Uint256, ShardIdent>,
    pub statuses: Map<Uint256, RempMessageStatus>,
}

/// What a status update decides: the id was absent; a value was stored and
/// returned; the update was silently dropped; or the move was refused.
pub enum UpdateOutcome {
    NotFound,
    Stored(RempMessageStatus),
    Dropped,
    Illegal,
}

/// The duplicate-detection shortcut: a collator-level acceptance followed by
/// a shard- or master-level acceptance for a different block.
pub open spec fn dup_rule_applies(cur: RempMessageStatus, new: RempMessageStatus) -> bool {
    match (cur, new) {
        (
            RempMessageStatus::Accepted { level: cl, block_id: ob, .. },
            RempMessageStatus::Accepted { level: nl, block_id: nb, .. },
        ) => cl is Collator && (nl is Shardchain || nl is Masterchain) && nb != ob,
        _ => false,
    }
}

/// The block named by an acceptance (meaningful only under
/// `dup_rule_applies`).
pub open spec fn accepted_block(s: RempMessageStatus) -> crate::ids::BlockIdExt {
    match s {
        RempMessageStatus::Accepted { block_id, .. } => block_id,
        _ => vstd::pervasive::arbitrary(),
    }
}

pub open spec fn with_status(v: CacheView, id: Uint256, s: RempMessageStatus) -> CacheView {
    CacheView { statuses: v.statuses.insert(id, s), ..v }
}

/// One status update, as the cache decides it: absent ids are refused; the
/// duplicate shortcut stores `Duplicate{new block}`; an acceptance over an
/// already-duplicate entry is dropped; everything else is held to the
/// transition table.
pub open spec fn spec_update_status(
    v: CacheView,
    id: Uint256,
    new_status: RempMessageStatus,
) -> (CacheView, UpdateOutcome) {
    if !v.statuses.dom().contains(id) {
        (v, UpdateOutcome::NotFound)
    } else {
        let cur = v.statuses[id];
        if dup_rule_applies(cur, new_status) {
            let d = RempMessageStatus::Duplicate { block_id: accepted_block(new_status) };
            (with_status(v, id, d), UpdateOutcome::Stored(d))
        } else if new_status matches RempMessageStatus::Accepted { .. }
            && cur matches RempMessageStatus::Duplicate { .. } {
            (v, UpdateOutcome::Dropped)
        } else if spec_validate_status_change(cur, new_status) {
            (with_status(v, id, new_status), UpdateOutcome::Stored(new_status))
        } else {
            (v, UpdateOutcome::Illegal)
        }
    }
}

/// Inserting a record: an id already present leaves the cache untouched;
/// otherwise all three maps gain an entry and the status starts at `New`.
pub open spec fn spec_insert(v: CacheView, m: RmqMessage, shard: ShardIdent) -> (CacheView, bool) {
    if v.bodies.dom().contains(m.message_id) {
        (v, false)
    } else {
        (
            CacheView {
                bodies: v.bodies.insert(m.message_id, m),
                shards: v.shards.insert(m.message_id, shard),
                statuses: v.statuses.insert(m.message_id, RempMessageStatus::New),
            },
            true,
        )
    }
}

/// Removing an id deletes it from all three maps; an absent id changes
/// nothing.
pub open spec fn spec_remove(v: CacheView, id: Uint256) -> CacheView {
    CacheView {
        bodies: v.bodies.remove(id),
        shards: v.shards.remove(id),
        statuses: v.statuses.remove(id),
    }
}

/// The inner cache: three association vectors, kept index-aligned so that a
/// message id occurs in all three or in none.
pub struct MessageCacheImpl {
    pub messages: Vec<(Uint256, RmqMessage)>,
    pub message_shards: Vec<(Uint256, ShardIdent)>,
    pub message_statuses: Vec<(Uint256, RempMessageStatus)>,
}

impl View for MessageCacheImpl {
    type V = CacheView;

    open spec fn view(&self) -> CacheView {
        CacheView {
            bodies: kv_map(self.messages@),
            shards: kv_map(self.message_shards@),
            statuses: kv_map(self.message_statuses@),
        }
    }
}

impl MessageCacheImpl {
    /// Well-formedness: the three vectors are index-aligned on keys and the
    /// keys are unique. Everything the cache promises assumes and preserves
    /// this.
    pub open spec fn wf(self) -> bool {
        &&& self.message_shards@.len() == self.messages@.len()
        &&& self.message_statuses@.len() == self.messages@.len()
        &&& forall|i: int|
            0 <= i < self.messages@.len() ==> (#[trigger] self.message_shards@[i]).0
                == self.messages@[i].0
        &&& forall|i: int|
            0 <= i < self.messages@.len() ==> (#[trigger] self.message_statuses@[i]).0
                == self.messages@[i].0
        &&& kv_unique(self.messages@)
    }

    pub open spec fn has(self, id: Uint256) -> bool {
        kv_has_key(self.messages@, id)
    }

    /// All three vectors have unique keys and agree on which keys occur.
    pub proof fn lemma_wf_aligned(self)
        requires
            self.wf(),
        ensures
            kv_unique(self.message_shards@),
            kv_unique(self.message_statuses@),
            forall|k: Uint256| kv_has_key(self.messages@, k) <==> kv_has_key(
                self.message_shards@,
                k,
            ),
            forall|k: Uint256| kv_has_key(self.messages@, k) <==> kv_has_key(
                self.message_statuses@,
                k,
            ),
    {
        assert forall|i: int, j: int| 0 <= i < j < self.message_shards@.len() implies (
        #[trigger] self.message_shards@[i]).0 != (#[trigger] self.message_shards@[j]).0 by {
            assert(self.messages@[i].0 != self.messages@[j].0);
        }
        assert forall|i: int, j: int| 0 <= i < j < self.message_statuses@.len() implies (
        #[trigger] self.message_statuses@[i]).0 != (#[trigger] self.message_statuses@[j]).0 by {
            assert(self.messages@[i].0 != self.messages@[j].0);
        }
        assert forall|k: Uint256|
            kv_has_key(self.messages@, k) == kv_has_key(self.message_shards@, k) && kv_has_key(
                self.messages@,
                k,
            ) == kv_has_key(self.message_statuses@, k) by {
            if kv_has_key(self.messages@, k) {
                let i = choose|i: int|
                    0 <= i < self.messages@.len() && (#[trigger] self.messages@[i]).0 == k;
                assert(self.message_shards@[i].0 == k);
                assert(self.message_statuses@[i].0 == k);
            }
            if kv_has_key(self.message_shards@, k) {
                let i = choose|i: int|
                    0 <= i < self.message_shards@.len() && (#[trigger] self.message_shards@[i]).0
                        == k;
                assert(self.messages@[i].0 == k);
            }
            if kv_has_key(self.message_statuses@, k) {
                let i = choose|i: int|
                    0 <= i < self.message_statuses@.len() && (
                    #[trigger] self.message_statuses@[i]).0 == k;
                assert(self.messages@[i].0 == k);
            }
        }
    }

    /// The three mappings carry the same key set.
    pub proof fn lemma_key_sets_agree(self)
        requires
            self.wf(),
        ensures
            self@.shards.dom() == self@.bodies.dom(),
            self@.statuses.dom() == self@.bodies.dom(),
            forall|k: Uint256| #[trigger] self@.bodies.dom().contains(k) <==> self.has(k),
    {
        self.lemma_wf_aligned();
        lemma_kv_map_dom(self.messages@);
        lemma_kv_map_dom(self.message_shards@);
        lemma_kv_map_dom(self.message_statuses@);
        assert(self@.shards.dom() =~= self@.bodies.dom());
        assert(self@.statuses.dom() =~= self@.bodies.dom());
    }

    pub fn new() -> (r: MessageCacheImpl)
        ensures
            r.wf(),
            r@.bodies == Map::<Uint256, RmqMessage>::empty(),
            r@.shards == Map::<Uint256, ShardIdent>::empty(),
            r@.statuses == Map::<Uint256, RempMessageStatus>::empty(),
            r.messages@.len() == 0,
    {
        MessageCacheImpl {
            messages: Vec::new(),
            message_shards: Vec::new(),
            message_statuses: Vec::new(),
        }
    }

    pub fn all_messages_count(&self) -> (r: usize)
        requires
            self.wf(),
        ensures
            r == self@.bodies.dom().len(),
            r == self.messages@.len(),
    {
        proof {
            lemma_kv_map_len(self.messages@);
        }
        self.messages.len()
    }

    /// Deletes the id from all three maps; absent ids change nothing.
    pub fn remove_message(&mut self, message_id: &Uint256)
        requires
            old(self).wf(),
        ensures
            final(self).wf(),
            final(self)@ == spec_remove(old(self)@, *message_id),
            !old(self).has(*message_id) ==> *final(self) == *old(self),
    {
        proof {
            self.lemma_wf_aligned();
            self.lemma_key_sets_agree();
        }
        match kv_find(&self.messages, *message_id) {
            None => {
                proof {
                    lemma_kv_map_dom(self.messages@);
                    lemma_kv_map_dom(self.message_shards@);
                    lemma_kv_map_dom(self.message_statuses@);
                    assert(self@.bodies.remove(*message_id) =~= self@.bodies);
                    assert(self@.shards.remove(*message_id) =~= self@.shards);
                    assert(self@.statuses.remove(*message_id) =~= self@.statuses);
                }
            },
            Some(i) => {
                proof {
                    lemma_kv_map_remove(self.messages@, i as int);
                    lemma_kv_map_remove(self.message_shards@, i as int);
                    lemma_kv_map_remove(self.message_statuses@, i as int);
                    assert(self.message_shards@[i as int].0 == *message_id);
                    assert(self.message_statuses@[i as int].0 == *message_id);
                }
                self.messages.remove(i);
                self.message_shards.remove(i);
                self.message_statuses.remove(i);
                proof {
                    assert forall|j: int|
                        0 <= j < self.messages@.len() implies (
                    #[trigger] self.message_shards@[j]).0 == self.messages@[j].0 by {
                        if j >= i as int {
                            assert(self.messages@[j] == old(self).messages@[j + 1]);
                            assert(self.message_shards@[j] == old(self).message_shards@[j + 1]);
                        }
                    }
                    assert forall|j: int|
                        0 <= j < self.messages@.len() implies (
                    #[trigger] self.message_statuses@[j]).0 == self.messages@[j].0 by {
                        if j >= i as int {
                            assert(self.messages@[j] == old(self).messages@[j + 1]);
                            assert(self.message_statuses@[j] == old(self).message_statuses@[j + 1]);
                        }
                    }
                }
            },
        }
    }

    /// Replaces the status stored at row `i` (key untouched).
    fn put_status_at(&mut self, i: usize, status: RempMessageStatus)
        requires
            old(self).wf(),
            i < old(self).message_statuses@.len(),
        ensures
            final(self).wf(),
            final(self)@ == with_status(
                old(self)@,
                old(self).message_statuses@[i as int].0,
                status,
            ),
            final(self).message_statuses@ == old(self).message_statuses@.update(
                i as int,
                (old(self).message_statuses@[i as int].0, status),
            ),
            final(self).messages@ == old(self).messages@,
            final(self).message_shards@ == old(self).message_shards@,
    {
        proof {
            self.lemma_wf_aligned();
            lemma_kv_map_update(self.message_statuses@, i as int, status);
        }
        let key = self.message_statuses[i].0;
        self.message_statuses[i] = (key, status);
        proof {
            assert(self.message_statuses@ =~= old(self).message_statuses@.update(
                i as int,
                (old(self).message_statuses@[i as int].0, status),
            ));
        }
    }

    /// The status stored for `id`, with its row index.
    fn find_status(&self, id: &Uint256) -> (r: Option<usize>)
        requires
            self.wf(),
        ensures
            match r {
                Some(i) => i < self.message_statuses@.len() && self.message_statuses@[i as int].0
                    == *id && self@.statuses.dom().contains(*id) && self@.statuses[*id]
                    == self.message_statuses@[i as int].1 && self.has(*id),
                None => !self.has(*id) && !self@.statuses.dom().contains(*id),
            },
    {
        proof {
            self.lemma_wf_aligned();
            self.lemma_key_sets_agree();
            lemma_kv_map_dom(self.message_statuses@);
        }
        let r = kv_find(&self.message_statuses, *id);
        proof {
            if r is Some {
                let i = r->0;
                self.lemma_wf_aligned();
                lemma_kv_map_index(self.message_statuses@, i as int);
                assert(kv_has_key(self.message_statuses@, *id));
            }
        }
        r
    }

    /// Validates the move against the transition table and stores it;
    /// absent ids and refused moves leave the cache untouched. The
    /// duplicate shortcut is not applied here (the outer cache does that).
    pub fn update_message_status(
        &mut self,
        message_id: &Uint256,
        new_status: RempMessageStatus,
    ) -> (r: Result<(), CacheError>)
        requires
            old(self).wf(),
        ensures
            final(self).wf(),
            match r {
                Ok(()) => old(self)@.statuses.dom().contains(*message_id)
                    && spec_validate_status_change(
                    old(self)@.statuses[*message_id],
                    new_status,
                ) && final(self)@ == with_status(old(self)@, *message_id, new_status),
                Err(CacheError::MessageNotFound) => !old(self)@.statuses.dom().contains(*message_id)
                    && *final(self) == *old(self),
                Err(CacheError::IllegalStatusChange) => old(self)@.statuses.dom().contains(
                    *message_id,
                ) && !spec_validate_status_change(old(self)@.statuses[*message_id], new_status)
                    && *final(self) == *old(self),
            },
    {
        match self.find_status(message_id) {
            None => Err(CacheError::MessageNotFound),
            Some(i) => {
                let legal = validate_status_change(&self.message_statuses[i].1, &new_status);
                if legal {
                    self.put_status_at(i, new_status);
                    Ok(())
                } else {
                    Err(CacheError::IllegalStatusChange)
                }
            },
        }
    }
}

/// `Some(Timeout)` for entries that still need a terminal status, `None`
/// for those already terminal enough to be dropped outright.
pub open spec fn timeout_proposal(s: RempMessageStatus) -> Option<RempMessageStatus> {
    match s {
        RempMessageStatus::Accepted { level, .. } => if level is Masterchain {
            None
        } else {
            Some(RempMessageStatus::Timeout)
        },
        RempMessageStatus::Rejected { .. } => None,
        RempMessageStatus::Duplicate { .. } => None,
        _ => Some(RempMessageStatus::Timeout),
    }
}

pub open spec fn opt_status_matches(
    a: Option<RempMessageStatus>,
    b: Option<RempMessageStatus>,
) -> bool {
    match (a, b) {
        (None, None) => true,
        (Some(x), Some(y)) => status_matches(x, y),
        _ => false,
    }
}

/// A tentative collator acceptance, the only status the downgrade sweep
/// touches.
pub open spec fn is_collator_accept(s: RempMessageStatus) -> bool {
    s matches RempMessageStatus::Accepted { level: RempMessageLevel::Collator, .. }
}

/// What the downgrade sweep turns a collator acceptance into.
pub open spec fn downgrade_of(s: RempMessageStatus) -> RempMessageStatus {
    match s {
        RempMessageStatus::Accepted { level, block_id, .. } => RempMessageStatus::Ignored {
            level,
            block_id,
        },
        _ => s,
    }
}

impl MessageCacheImpl {
    /// The records of the first `n` rows that lie in `shard`, with their
    /// statuses, in storage order.
    pub open spec fn shard_rows(self, shard: ShardIdent, n: int) -> Seq<
        (RmqMessage, RempMessageStatus),
    >
        decreases n,
    {
        if n <= 0 {
            Seq::empty()
        } else {
            let pre = self.shard_rows(shard, n - 1);
            if self.message_shards@[n - 1].1 == shard {
                pre.push((self.messages@[n - 1].1, self.message_statuses@[n - 1].1))
            } else {
                pre
            }
        }
    }

    pub open spec fn shard_batch(self, shard: ShardIdent) -> Seq<(RmqMessage, RempMessageStatus)> {
        self.shard_rows(shard, self.messages@.len() as int)
    }

    /// The rows of the first `n` that the downgrade sweep returns: collator
    /// acceptances in `shard`, paired with their replacement status.
    pub open spec fn downgrade_rows(self, shard: ShardIdent, n: int) -> Seq<
        (RmqMessage, RempMessageStatus),
    >
        decreases n,
    {
        if n <= 0 {
            Seq::empty()
        } else {
            let pre = self.downgrade_rows(shard, n - 1);
            if self.message_shards@[n - 1].1 == shard && is_collator_accept(
                self.message_statuses@[n - 1].1,
            ) {
                pre.push(
                    (self.messages@[n - 1].1, downgrade_of(self.message_statuses@[n - 1].1)),
                )
            } else {
                pre
            }
        }
    }

    pub open spec fn downgrade_batch(self, shard: ShardIdent) -> Seq<
        (RmqMessage, RempMessageStatus),
    > {
        self.downgrade_rows(shard, self.messages@.len() as int)
    }

    /// The expired rows among the first `n`, each with its proposed terminal
    /// status.
    pub open spec fn expired_rows(self, current_cc: u32, n: int) -> Seq<
        (RmqMessage, Option<RempMessageStatus>),
    >
        decreases n,
    {
        if n <= 0 {
            Seq::empty()
        } else {
            let pre = self.expired_rows(current_cc, n - 1);
            if spec_is_expired(self.messages@[n - 1].1.master_cc_seqno, current_cc) {
                pre.push(
                    (self.messages@[n - 1].1, timeout_proposal(self.message_statuses@[n - 1].1)),
                )
            } else {
                pre
            }
        }
    }

    pub open spec fn expired_batch(self, current_cc: u32) -> Seq<
        (RmqMessage, Option<RempMessageStatus>),
    > {
        self.expired_rows(current_cc, self.messages@.len() as int)
    }

    /// All records in `shard`, with their statuses, in storage order.
    pub fn received_messages_to_vector(&self, shard: &ShardIdent) -> (r: Vec<
        (RmqMessage, RempMessageStatus),
    >)
        requires
            self.wf(),
        ensures
            r@.len() == self.shard_batch(*shard).len(),
            forall|i: int|
                0 <= i < r@.len() ==> record_matches(
                    (#[trigger] r@[i]).0,
                    self.shard_batch(*shard)[i].0,
                ) && status_matches(r@[i].1, self.shard_batch(*shard)[i].1),
    {
        let mut r: Vec<(RmqMessage, RempMessageStatus)> = Vec::new();
        let mut i: usize = 0;
        while i < self.messages.len()
            invariant
                self.wf(),
                i <= self.messages@.len(),
                r@.len() == self.shard_rows(*shard, i as int).len(),
                forall|j: int|
                    0 <= j < r@.len() ==> record_matches(
                        (#[trigger] r@[j]).0,
                        self.shard_rows(*shard, i as int)[j].0,
                    ) && status_matches(r@[j].1, self.shard_rows(*shard, i as int)[j].1),
            decreases self.messages@.len() - i,
        {
            if self.message_shards[i].1 == *shard {
                let m = self.messages[i].1.clone();
                let s = self.message_statuses[i].1.clone();
                r.push((m, s));
            }
            i += 1;
        }
        r
    }

    /// How many records lie in `shard`.
    pub fn received_messages_count(&self, shard: &ShardIdent) -> (r: u32)
        requires
            self.wf(),
            self.messages@.len() <= u32::MAX,
        ensures
            r == self.shard_batch(*shard).len(),
    {
        let mut count: u32 = 0;
        let mut i: usize = 0;
        while i < self.messages.len()
            invariant
                self.wf(),
                i <= self.messages@.len(),
                self.messages@.len() <= u32::MAX,
                count == self.shard_rows(*shard, i as int).len(),
                count <= i,
            decreases self.messages@.len() - i,
        {
            if self.message_shards[i].1 == *shard {
                count += 1;
            }
            i += 1;
        }
        count
    }

    /// Every complete row, in storage order.
    pub fn list_all_messages(&self) -> (r: Vec<(ShardIdent, RmqMessage, RempMessageStatus)>)
        requires
            self.wf(),
        ensures
            r@.len() == self.messages@.len(),
            forall|i: int|
                0 <= i < r@.len() ==> (#[trigger] r@[i]).0 == self.message_shards@[i].1
                    && record_matches(r@[i].1, self.messages@[i].1) && status_matches(
                    r@[i].2,
                    self.message_statuses@[i].1,
                ),
    {
        let mut r: Vec<(ShardIdent, RmqMessage, RempMessageStatus)> = Vec::new();
        let mut i: usize = 0;
        while i < self.messages.len()
            invariant
                self.wf(),
                i <= self.messages@.len(),
                r@.len() == i,
                forall|j: int|
                    0 <= j < r@.len() ==> (#[trigger] r@[j]).0 == self.message_shards@[j].1
                        && record_matches(r@[j].1, self.messages@[j].1) && status_matches(
                        r@[j].2,
                        self.message_statuses@[j].1,
                    ),
            decreases self.messages@.len() - i,
        {
            let sh = self.message_shards[i].1;
            let m = self.messages[i].1.clone();
            let s = self.message_statuses[i].1.clone();
            r.push((sh, m, s));
            i += 1;
        }
        r
    }

    /// Turns every collator acceptance in `shard` into the matching
    /// `Ignored` status and returns the batch downgraded; no other row, and
    /// no other map, is touched.
    pub fn downgrade_accepted_by_collator(&mut self, shard: &ShardIdent) -> (r: Vec<
        (RmqMessage, RempMessageStatus),
    >)
        requires
            old(self).wf(),
        ensures
            final(self).wf(),
            final(self).messages@ == old(self).messages@,
            final(self).message_shards@ == old(self).message_shards@,
            final(self)@.bodies == old(self)@.bodies,
            final(self)@.shards == old(self)@.shards,
            final(self)@.statuses.dom() == old(self)@.statuses.dom(),
            forall|k: Uint256|
                #[trigger] old(self)@.statuses.dom().contains(k) ==> final(self)@.statuses[k] == (
                if old(self)@.shards[k] == *shard && is_collator_accept(old(self)@.statuses[k]) {
                    downgrade_of(old(self)@.statuses[k])
                } else {
                    old(self)@.statuses[k]
                }),
            r@.len() == old(self).downgrade_batch(*shard).len(),
            forall|i: int|
                0 <= i < r@.len() ==> record_matches(
                    (#[trigger] r@[i]).0,
                    old(self).downgrade_batch(*shard)[i].0,
                ) && status_matches(r@[i].1, old(self).downgrade_batch(*shard)[i].1),
    {
        let ghost orig = *self;
        let mut r: Vec<(RmqMessage, RempMessageStatus)> = Vec::new();
        let mut i: usize = 0;
        while i < self.messages.len()
            invariant
                orig.wf(),
                self.messages@ == orig.messages@,
                self.message_shards@ == orig.message_shards@,
                self.message_statuses@.len() == orig.message_statuses@.len(),
                i <= self.messages@.len(),
                forall|j: int|
                    i <= j < self.message_statuses@.len() ==> (#[trigger] self.message_statuses@[j])
                        == orig.message_statuses@[j],
                forall|j: int|
                    0 <= j < i ==> (#[trigger] self.message_statuses@[j]) == (
                    if orig.message_shards@[j].1 == *shard && is_collator_accept(
                        orig.message_statuses@[j].1,
                    ) {
                        (orig.message_statuses@[j].0, downgrade_of(orig.message_statuses@[j].1))
                    } else {
                        orig.message_statuses@[j]
                    }),
                r@.len() == orig.downgrade_rows(*shard, i as int).len(),
                forall|j: int|
                    0 <= j < r@.len() ==> record_matches(
                        (#[trigger] r@[j]).0,
                        orig.downgrade_rows(*shard, i as int)[j].0,
                    ) && status_matches(r@[j].1, orig.downgrade_rows(*shard, i as int)[j].1),
            decreases self.messages@.len() - i,
        {
            let in_shard = self.message_shards[i].1 == *shard;
            if in_shard {
                match &self.message_statuses[i].1 {
                    RempMessageStatus::Accepted { level, block_id, .. } => {
                        if *level == RempMessageLevel::Collator {
                            let ign = RempMessageStatus::Ignored {
                                level: *level,
                                block_id: *block_id,
                            };
                            let m = self.messages[i].1.clone();
                            let key = self.message_statuses[i].0;
                            let ign2 = ign.clone();
                            self.message_statuses[i] = (key, ign);
                            r.push((m, ign2));
                        }
                    },
                    _ => {},
                }
            }
            i += 1;
        }
        proof {
            let n = orig.messages@.len() as int;
            assert forall|j: int|
                0 <= j < n implies (#[trigger] self.message_statuses@[j]).0
                == orig.message_statuses@[j].0 by {}
            assert(self.wf());
            self.lemma_wf_aligned();
            orig.lemma_wf_aligned();
            lemma_kv_map_dom(self.message_statuses@);
            lemma_kv_map_dom(orig.message_statuses@);
            assert forall|k: Uint256|
                kv_has_key(self.message_statuses@, k) == kv_has_key(
                    orig.message_statuses@,
                    k,
                ) by {
                if kv_has_key(self.message_statuses@, k) {
                    let j = choose|j: int|
                        0 <= j < self.message_statuses@.len() && (
                        #[trigger] self.message_statuses@[j]).0 == k;
                    assert(orig.message_statuses@[j].0 == k);
                }
                if kv_has_key(orig.message_statuses@, k) {
                    let j = choose|j: int|
                        0 <= j < orig.message_statuses@.len() && (
                        #[trigger] orig.message_statuses@[j]).0 == k;
                    assert(self.message_statuses@[j].0 == k);
                }
            }
            assert(self@.statuses.dom() =~= orig@.statuses.dom());
            assert forall|k: Uint256|
                #[trigger] orig@.statuses.dom().contains(k) implies self@.statuses[k] == (
            if orig@.shards[k] == *shard && is_collator_accept(orig@.statuses[k]) {
                downgrade_of(orig@.statuses[k])
            } else {
                orig@.statuses[k]
            }) by {
                let j = choose|j: int|
                    0 <= j < orig.message_statuses@.len() && (
                    #[trigger] orig.message_statuses@[j]).0 == k;
                lemma_kv_map_index(orig.message_statuses@, j);
                lemma_kv_map_index(self.message_statuses@, j);
                lemma_kv_map_index(orig.message_shards@, j);
                assert(orig.message_shards@[j].0 == k);
            }
        }
        r
    }

    /// The expired records, each with the terminal status the sweep
    /// proposes. Every returned record satisfies the expiry rule.
    pub fn get_old_messages(&self, current_cc: u32) -> (r: Vec<
        (RmqMessage, Option<RempMessageStatus>),
    >)
        requires
            self.wf(),
        ensures
            r@.len() == self.expired_batch(current_cc).len(),
            forall|i: int|
                0 <= i < r@.len() ==> record_matches(
                    (#[trigger] r@[i]).0,
                    self.expired_batch(current_cc)[i].0,
                ) && opt_status_matches(r@[i].1, self.expired_batch(current_cc)[i].1),
            forall|i: int|
                0 <= i < r@.len() ==> spec_is_expired(
                    (#[trigger] r@[i]).0.master_cc_seqno,
                    current_cc,
                ),
    {
        let mut r: Vec<(RmqMessage, Option<RempMessageStatus>)> = Vec::new();
        let mut i: usize = 0;
        while i < self.messages.len()
            invariant
                self.wf(),
                i <= self.messages@.len(),
                r@.len() == self.expired_rows(current_cc, i as int).len(),
                forall|j: int|
                    0 <= j < r@.len() ==> record_matches(
                        (#[trigger] r@[j]).0,
                        self.expired_rows(current_cc, i as int)[j].0,
                    ) && opt_status_matches(r@[j].1, self.expired_rows(current_cc, i as int)[j].1),
                forall|j: int|
                    0 <= j < r@.len() ==> spec_is_expired(
                        (#[trigger] r@[j]).0.master_cc_seqno,
                        current_cc,
                    ),
            decreases self.messages@.len() - i,
        {
            if self.messages[i].1.is_expired(current_cc) {
                let m = self.messages[i].1.clone();
                let proposal = match &self.message_statuses[i].1 {
                    RempMessageStatus::Accepted { level, .. } => {
                        if *level == RempMessageLevel::Masterchain {
                            None
                        } else {
                            Some(RempMessageStatus::Timeout)
                        }
                    },
                    RempMessageStatus::Rejected { .. } => None,
                    RempMessageStatus::Duplicate { .. } => None,
                    _ => Some(RempMessageStatus::Timeout),
                };
                r.push((m, proposal));
            }
            i += 1;
        }
        r
    }
}


/// The higher-level duplicate check: a block id if the message is already
/// committed at shard or master level.
pub open spec fn committed_block(s: RempMessageStatus) -> Option<crate::ids::BlockIdExt> {
    match s {
        RempMessageStatus::Accepted { level, block_id, .. } => if level is Shardchain
            || level is Masterchain {
            Some(block_id)
        } else {
            None
        },
        _ => None,
    }
}

/// Answer of the duplicate check: the id is unknown, known but not yet
/// committed, or committed in a named block.
#[derive(Clone, Copy, Debug, PartialEq, Eq, Structural)]
pub enum RempDuplicateStatus {
    Absent,
    Fresh,
    Duplicate(crate::ids::BlockIdExt),
}

/// The cache as its callers see it: the inner store plus the duplicate
/// detection rule applied on status updates.
pub struct MessageCache {
    pub cache: MessageCacheImpl,
}

impl View for MessageCache {
    type V = CacheView;

    open spec fn view(&self) -> CacheView {
        self.cache@
    }
}

impl MessageCache {
    pub open spec fn wf(self) -> bool {
        self.cache.wf()
    }

    pub open spec fn has(self, id: Uint256) -> bool {
        self.cache.has(id)
    }

    /// An empty cache. (The telemetry sinks of the wider node are not part
    /// of the verified core; this constructor takes none.)
    pub fn with_metrics() -> (r: MessageCache)
        ensures
            r.wf(),
            r@.bodies == Map::<Uint256, RmqMessage>::empty(),
            r@.shards == Map::<Uint256, ShardIdent>::empty(),
            r@.statuses == Map::<Uint256, RempMessageStatus>::empty(),
            r.cache.messages@.len() == 0,
    {
        MessageCache { cache: MessageCacheImpl::new() }
    }

    /// Inserts a record with status `New`; an id already present leaves the
    /// cache untouched. Returns whether the record was new, and the cache
    /// size after the call.
    pub fn new_message_with_shard(&mut self, message: RmqMessage, shard: ShardIdent) -> (r: (
        bool,
        usize,
    ))
        requires
            old(self).wf(),
        ensures
            final(self).wf(),
            final(self)@ == spec_insert(old(self)@, message, shard).0,
            r.0 == spec_insert(old(self)@, message, shard).1,
            r.1 == final(self).cache.messages@.len(),
            r.1 == final(self)@.bodies.dom().len(),
    {
        proof {
            self.cache.lemma_key_sets_agree();
            lemma_kv_map_len(self.cache.messages@);
        }
        let id = message.message_id;
        match kv_find(&self.cache.messages, id) {
            Some(_) => (false, self.cache.messages.len()),
            None => {
                let ghost orig = self.cache;
                self.cache.messages.push((id, message));
                self.cache.message_statuses.push((id, RempMessageStatus::New));
                self.cache.message_shards.push((id, shard));
                proof {
                    let m = self.cache.messages@.last().1;
                    lemma_kv_map_push(orig.messages@, id, m);
                    lemma_kv_map_push(orig.message_statuses@, id, RempMessageStatus::New);
                    lemma_kv_map_push(orig.message_shards@, id, shard);
                    assert forall|i: int, j: int|
                        0 <= i < j < self.cache.messages@.len() implies (
                    #[trigger] self.cache.messages@[i]).0 != (
                    #[trigger] self.cache.messages@[j]).0 by {
                        if j == self.cache.messages@.len() - 1 {
                            assert(self.cache.messages@[i] == orig.messages@[i]);
                            assert(!kv_has_key(orig.messages@, id));
                        } else {
                            assert(self.cache.messages@[i] == orig.messages@[i]);
                            assert(self.cache.messages@[j] == orig.messages@[j]);
                        }
                    }
                    assert(self.cache.wf());
                    self.cache.lemma_wf_aligned();
                    lemma_kv_map_len(self.cache.messages@);
                }
                (true, self.cache.messages.len())
            },
        }
    }

    /// The record stored under `message_id`, if any.
    pub fn get_message(&self, message_id: &Uint256) -> (r: Option<RmqMessage>)
        requires
            self.wf(),
        ensures
            match r {
                Some(m) => self@.bodies.dom().contains(*message_id) && record_matches(
                    m,
                    self@.bodies[*message_id],
                ),
                None => !self@.bodies.dom().contains(*message_id),
            },
    {
        proof {
            lemma_kv_map_dom(self.cache.messages@);
        }
        match kv_find(&self.cache.messages, *message_id) {
            None => None,
            Some(i) => {
                proof {
                    lemma_kv_map_index(self.cache.messages@, i as int);
                }
                Some(self.cache.messages[i].1.clone())
            },
        }
    }

    /// The status stored under `message_id`, if any.
    pub fn get_message_status(&self, message_id: &Uint256) -> (r: Option<RempMessageStatus>)
        requires
            self.wf(),
        ensures
            match r {
                Some(s) => self@.statuses.dom().contains(*message_id) && status_matches(
                    s,
                    self@.statuses[*message_id],
                ),
                None => !self@.statuses.dom().contains(*message_id),
            },
    {
        match self.cache.find_status(message_id) {
            None => None,
            Some(i) => Some(self.cache.message_statuses[i].1.clone()),
        }
    }

    /// Record and status together. The two stores cannot disagree while the
    /// key-set invariant holds, so this is `Some` exactly when the id is
    /// present; a partial row would be surfaced as `None`, never patched.
    pub fn get_message_with_status(&self, message_id: &Uint256) -> (r: Option<
        (RmqMessage, RempMessageStatus),
    >)
        requires
            self.wf(),
        ensures
            match r {
                Some(p) => self@.bodies.dom().contains(*message_id) && record_matches(
                    p.0,
                    self@.bodies[*message_id],
                ) && status_matches(p.1, self@.statuses[*message_id]),
                None => !self@.bodies.dom().contains(*message_id),
            },
    {
        proof {
            self.cache.lemma_key_sets_agree();
        }
        let msg = self.get_message(message_id);
        let status = self.get_message_status(message_id);
        match (msg, status) {
            (None, None) => None,
            (Some(m), Some(s)) => Some((m, s)),
            (Some(_), None) => {
                proof {
                    assert(false);
                }
                None
            },
            (None, Some(_)) => {
                proof {
                    assert(false);
                }
                None
            },
        }
    }

    /// Applies a status update under the duplicate-detection rule, then the
    /// transition table; returns the status actually stored, `None` for a
    /// silently dropped update, or the error.
    pub fn update_message_status(
        &mut self,
        message_id: &Uint256,
        new_status: RempMessageStatus,
    ) -> (r: Result<Option<RempMessageStatus>, CacheError>)
        requires
            old(self).wf(),
        ensures
            final(self).wf(),
            final(self)@ == spec_update_status(old(self)@, *message_id, new_status).0,
            match spec_update_status(old(self)@, *message_id, new_status).1 {
                UpdateOutcome::NotFound => r == Err::<Option<RempMessageStatus>, CacheError>(
                    CacheError::MessageNotFound,
                ),
                UpdateOutcome::Dropped => r == Ok::<Option<RempMessageStatus>, CacheError>(None),
                UpdateOutcome::Illegal => r == Err::<Option<RempMessageStatus>, CacheError>(
                    CacheError::IllegalStatusChange,
                ),
                UpdateOutcome::Stored(s) => r matches Ok(Some(rs)) && status_matches(rs, s),
            },
    {
        match self.cache.find_status(message_id) {
            None => Err(CacheError::MessageNotFound),
            Some(i) => {
                let mut dup_block: Option<crate::ids::BlockIdExt> = None;
                let mut cur_is_duplicate = false;
                match (&self.cache.message_statuses[i].1, &new_status) {
                    (
                        RempMessageStatus::Accepted { level: cl, block_id: ob, .. },
                        RempMessageStatus::Accepted { level: nl, block_id: nb, .. },
                    ) => {
                        if *cl == RempMessageLevel::Collator && (*nl
                            == RempMessageLevel::Shardchain || *nl
                            == RempMessageLevel::Masterchain) && *nb != *ob {
                            dup_block = Some(*nb);
                        }
                    },
                    (RempMessageStatus::Duplicate { .. }, RempMessageStatus::Accepted { .. }) => {
                        cur_is_duplicate = true;
                    },
                    _ => {},
                }
                if let Some(nb) = dup_block {
                    let d = RempMessageStatus::Duplicate { block_id: nb };
                    self.cache.put_status_at(i, d);
                    Ok(Some(RempMessageStatus::Duplicate { block_id: nb }))
                } else if cur_is_duplicate {
                    Ok(None)
                } else {
                    let legal = validate_status_change(
                        &self.cache.message_statuses[i].1,
                        &new_status,
                    );
                    if legal {
                        let ret = new_status.clone();
                        self.cache.put_status_at(i, new_status);
                        Ok(Some(ret))
                    } else {
                        Err(CacheError::IllegalStatusChange)
                    }
                }
            },
        }
    }

    /// Deletes the id from all three maps; absent ids change nothing, so a
    /// second removal of the same id is a no-op.
    pub fn remove_message(&mut self, message_id: &Uint256)
        requires
            old(self).wf(),
        ensures
            final(self).wf(),
            final(self)@ == spec_remove(old(self)@, *message_id),
            !old(self).has(*message_id) ==> *final(self) == *old(self),
    {
        self.cache.remove_message(message_id)
    }

    /// Is the message already committed in some block?
    pub fn check_message_duplicates(&self, message_id: &Uint256) -> (r: RempDuplicateStatus)
        requires
            self.wf(),
        ensures
            r == (if !self@.statuses.dom().contains(*message_id) {
                RempDuplicateStatus::Absent
            } else {
                match committed_block(self@.statuses[*message_id]) {
                    Some(b) => RempDuplicateStatus::Duplicate(b),
                    None => RempDuplicateStatus::Fresh,
                }
            }),
    {
        match self.cache.find_status(message_id) {
            None => RempDuplicateStatus::Absent,
            Some(i) => match &self.cache.message_statuses[i].1 {
                RempMessageStatus::Accepted { level, block_id, .. } => {
                    if *level == RempMessageLevel::Shardchain || *level
                        == RempMessageLevel::Masterchain {
                        RempDuplicateStatus::Duplicate(*block_id)
                    } else {
                        RempDuplicateStatus::Fresh
                    }
                },
                _ => RempDuplicateStatus::Fresh,
            },
        }
    }

    pub fn received_messages_to_vector(&self, shard: &ShardIdent) -> (r: Vec<
        (RmqMessage, RempMessageStatus),
    >)
        requires
            self.wf(),
        ensures
            r@.len() == self.cache.shard_batch(*shard).len(),
            forall|i: int|
                0 <= i < r@.len() ==> record_matches(
                    (#[trigger] r@[i]).0,
                    self.cache.shard_batch(*shard)[i].0,
                ) && status_matches(r@[i].1, self.cache.shard_batch(*shard)[i].1),
    {
        self.cache.received_messages_to_vector(shard)
    }

    pub fn received_messages_count(&self, shard: &ShardIdent) -> (r: u32)
        requires
            self.wf(),
            self.cache.messages@.len() <= u32::MAX,
        ensures
            r == self.cache.shard_batch(*shard).len(),
    {
        self.cache.received_messages_count(shard)
    }

    pub fn all_messages_count(&self) -> (r: usize)
        requires
            self.wf(),
        ensures
            r == self@.bodies.dom().len(),
    {
        self.cache.all_messages_count()
    }

    pub fn list_all_messages(&self) -> (r: Vec<(ShardIdent, RmqMessage, RempMessageStatus)>)
        requires
            self.wf(),
        ensures
            r@.len() == self.cache.messages@.len(),
            forall|i: int|
                0 <= i < r@.len() ==> (#[trigger] r@[i]).0 == self.cache.message_shards@[i].1
                    && record_matches(r@[i].1, self.cache.messages@[i].1) && status_matches(
                    r@[i].2,
                    self.cache.message_statuses@[i].1,
                ),
    {
        self.cache.list_all_messages()
    }

    pub fn downgrade_accepted_by_collator(&mut self, shard: &ShardIdent) -> (r: Vec<
        (RmqMessage, RempMessageStatus),
    >)
        requires
            old(self).wf(),
        ensures
            final(self).wf(),
            final(self)@.bodies == old(self)@.bodies,
            final(self)@.shards == old(self)@.shards,
            final(self)@.statuses.dom() == old(self)@.statuses.dom(),
            forall|k: Uint256|
                #[trigger] old(self)@.statuses.dom().contains(k) ==> final(self)@.statuses[k] == (
                if old(self)@.shards[k] == *shard && is_collator_accept(old(self)@.statuses[k]) {
                    downgrade_of(old(self)@.statuses[k])
                } else {
                    old(self)@.statuses[k]
                }),
            r@.len() == old(self).cache.downgrade_batch(*shard).len(),
            forall|i: int|
                0 <= i < r@.len() ==> record_matches(
                    (#[trigger] r@[i]).0,
                    old(self).cache.downgrade_batch(*shard)[i].0,
                ) && status_matches(r@[i].1, old(self).cache.downgrade_batch(*shard)[i].1),
    {
        self.cache.downgrade_accepted_by_collator(shard)
    }

    /// The expired records with their proposed terminal statuses; only
    /// records at least two cycles old are returned.
    pub fn get_old_messages(&self, current_cc: u32) -> (r: Vec<
        (RmqMessage, Option<RempMessageStatus>),
    >)
        requires
            self.wf(),
        ensures
            r@.len() == self.cache.expired_batch(current_cc).len(),
            forall|i: int|
                0 <= i < r@.len() ==> record_matches(
                    (#[trigger] r@[i]).0,
                    self.cache.expired_batch(current_cc)[i].0,
                ) && opt_status_matches(r@[i].1, self.cache.expired_batch(current_cc)[i].1),
            forall|i: int|
                0 <= i < r@.len() ==> spec_is_expired(
                    (#[trigger] r@[i]).0.master_cc_seqno,
                    current_cc,
                ),
    {
        self.cache.get_old_messages(current_cc)
    }
}

/// A second insert under an id already present returns `false` and leaves
/// every map exactly as the first insert left it.
pub proof fn lemma_insert_idempotent(
    v: CacheView,
    m1: RmqMessage,
    sh1: ShardIdent,
    m2: RmqMessage,
    sh2: ShardIdent,
)
    requires
        m2.message_id == m1.message_id,
    ensures
        spec_insert(spec_insert(v, m1, sh1).0, m2, sh2).0 == spec_insert(v, m1, sh1).0,
        spec_insert(spec_insert(v, m1, sh1).0, m2, sh2).1 == false,
{
    let v1 = spec_insert(v, m1, sh1).0;
    assert(v1.bodies.dom().contains(m2.message_id));
}

/// Removing an id twice is the same as removing it once.
pub proof fn lemma_remove_idempotent(v: CacheView, id: Uint256)
    ensures
        spec_remove(spec_remove(v, id), id) == spec_remove(v, id),
{
    assert(spec_remove(spec_remove(v, id), id) =~= spec_remove(v, id));
}

/// Every status a cache update actually stores is reached along a legal
/// edge: either the transition table allows it, or it is the
/// duplicate-detection shortcut; any other outcome leaves the cache
/// untouched. Together with inserts starting at `New`, the statuses
/// observed for a message form a path in the table extended by the
/// shortcut.
pub proof fn lemma_update_steps_are_edges(v: CacheView, id: Uint256, new_status: RempMessageStatus)
    ensures
        match spec_update_status(v, id, new_status).1 {
            UpdateOutcome::Stored(s) => spec_validate_status_change(v.statuses[id], s) || (
            dup_rule_applies(v.statuses[id], new_status) && s == (RempMessageStatus::Duplicate {
                block_id: accepted_block(new_status),
            })),
            _ => spec_update_status(v, id, new_status).0 == v,
        },
        spec_update_status(v, id, new_status).0.bodies == v.bodies,
        spec_update_status(v, id, new_status).0.shards == v.shards,
{
}

/// Once a message is marked `Duplicate`, any further acceptance is silently
/// dropped and the stored status stays as it is.
pub proof fn lemma_duplicate_is_sticky(v: CacheView, id: Uint256, new_status: RempMessageStatus)
    requires
        v.statuses.dom().contains(id),
        v.statuses[id] matches RempMessageStatus::Duplicate { .. },
        new_status matches RempMessageStatus::Accepted { .. },
    ensures
        spec_update_status(v, id, new_status).0 == v,
        spec_update_status(v, id, new_status).1 is Dropped,
{
}

/// A second acceptance for a different block after a collator acceptance
/// stores `Duplicate` with the new block and surfaces that value.
pub proof fn lemma_duplicate_detection(v: CacheView, id: Uint256, new_status: RempMessageStatus)
    requires
        v.statuses.dom().contains(id),
        dup_rule_applies(v.statuses[id], new_status),
    ensures
        spec_update_status(v, id, new_status).1 == UpdateOutcome::Stored(
            RempMessageStatus::Duplicate { block_id: accepted_block(new_status) },
        ),
        spec_update_status(v, id, new_status).0.statuses == v.statuses.insert(
            id,
            RempMessageStatus::Duplicate { block_id: accepted_block(new_status) },
        ),
{
}

/// The expiry boundary: a record stamped exactly two cycles back is
/// expired; one stamped one cycle back is not.
pub proof fn lemma_expiry_boundary(current_cc: u32)
    requires
        current_cc >= 2,
    ensures
        spec_is_expired((current_cc - 2) as u32, current_cc),
        !spec_is_expired((current_cc - 1) as u32, current_cc),
{
}

} // verus!
