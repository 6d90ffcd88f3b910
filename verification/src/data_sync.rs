//! The data-synchronization protocol: what replicas gossip and how they
//! catch up. Notifications push the sender's frontier, requests carry a
//! sparse digest of the receiver's knowledge, and responses carry the
//! records the requester is missing, epoch by epoch.

use vstd::prelude::*;
use crate::base_types::{EpochId, NodeTime};
use crate::keyed::{spec_has_key, spec_lookup};
use crate::record::{Block, QuorumCertificate, Record, Timeout, Vote};
use crate::record_store::RecordStoreState;
use crate::node::NodeState;
use crate::smr_context::SmrContext;

verus! {

/// What a replica pushes to its peers: its current frontier.
#[derive(PartialEq, Eq, Clone, Debug)]
pub struct DataSyncNotification {
    /// Current epoch identifier.
    pub current_epoch: EpochId,
    /// Tail certificate of the highest commit rule.
    pub highest_commit_certificate: Option<QuorumCertificate>,
    /// Highest quorum certificate.
    pub highest_quorum_certificate: Option<QuorumCertificate>,
    /// Timeouts in the highest timeout certificate, then at the current
    /// round, if any.
    pub timeouts: Vec<Timeout>,
    /// Sender's vote at the current round, if any, meant for the proposer.
    pub current_vote: Option<Vote>,
    /// Proposed block at the current round, if the sender authored it.
    pub proposed_block: Option<Block>,
}

/// What a replica asks for: the rounds it already has certificates for.
#[derive(PartialEq, Eq, Clone, Debug, Hash)]
pub struct DataSyncRequest {
    /// Current epoch identifier.
    pub current_epoch: EpochId,
    /// Selection of rounds for which the receiver already knows a
    /// certificate.
    pub known_quorum_certificates: Vec<u64>,
}

/// Records for the receiver to insert, for each epoch, in the given order.
#[derive(PartialEq, Eq, Clone, Debug)]
pub struct DataSyncResponse {
    /// Current epoch identifier.
    pub current_epoch: EpochId,
    /// Record batches, one per epoch. Epochs older than the receiver's are
    /// skipped, as are chains ending in certificates the receiver knows.
    pub records: Vec<(EpochId, Vec<Record>)>,
}

impl NodeState {
    /// The request this node would send: its epoch and its sparse digest of
    /// known certificate rounds.
    pub fn create_request(&self) -> (r: DataSyncRequest)
        requires
            self.wf(),
        ensures
            r.current_epoch == self.spec_epoch_id(),
            r.known_quorum_certificates@ == crate::util::spec_merge(
                RecordStoreState::spec_sparse_desc(
                    self.spec_record_store().spec_chain(
                        self.spec_record_store().spec_highest_quorum_certificate_hash().0,
                    ),
                    0,
                ).reverse(),
                RecordStoreState::spec_sparse_desc(
                    self.spec_record_store().spec_chain(
                        (match self.spec_record_store().spec_highest_commit_certificate_hash() {
                            Some(h) => h,
                            None => self.spec_record_store().spec_initial_hash(),
                        }).0,
                    ),
                    0,
                ).reverse(),
            ),
    {
        DataSyncRequest {
            current_epoch: self.epoch_id(),
            known_quorum_certificates: self.record_store().known_quorum_certificate_rounds(),
        }
    }

    /// The notification this node would push: its commit and certificate
    /// frontier, its shareable timeouts, its current vote, and its own
    /// proposal. A proposal by another leader is not reshared.
    pub fn create_notification<C: SmrContext>(&self, context: &C) -> (r: DataSyncNotification)
        requires
            self.wf(),
        ensures
            r.current_epoch == self.spec_epoch_id(),
            r.timeouts@ == (match self.spec_record_store().spec_highest_timeout_certificate() {
                Some(l) => l,
                None => Seq::<Timeout>::empty(),
            }) + crate::record_store::spec_timeout_values(
                self.spec_record_store().spec_current_timeouts(),
            ),
            // The highest certificate is carried exactly when one is stored.
            r.highest_quorum_certificate is Some <==> self.spec_record_store().qc_at(
                self.spec_record_store().spec_highest_quorum_certificate_hash().0,
            ) is Some,
            r.highest_quorum_certificate is Some ==> RecordStoreState::spec_qc_eq(
                r.highest_quorum_certificate.unwrap(),
                self.spec_record_store().qc_at(
                    self.spec_record_store().spec_highest_quorum_certificate_hash().0,
                ).unwrap(),
            ),
            // The commit certificate of the current epoch is carried when
            // one is recorded.
            match self.spec_record_store().spec_highest_commit_certificate_hash() {
                Some(h) => r.highest_commit_certificate is Some
                    && RecordStoreState::spec_qc_eq(
                    r.highest_commit_certificate.unwrap(),
                    self.spec_record_store().qc_at(h.0).unwrap(),
                ),
                None => true,
            },
            // With no commit of this epoch yet, the previous epoch's commit
            // certificate travels instead, when one is recorded.
            self.spec_record_store().spec_highest_commit_certificate_hash() is None ==> ({
                if self.spec_epoch_id().0 == 0 {
                    r.highest_commit_certificate is None
                } else {
                    match self.spec_store_at(EpochId((self.spec_epoch_id().0 - 1) as usize)) {
                        Some(ps) => match ps.spec_highest_commit_certificate_hash() {
                            Some(h) => r.highest_commit_certificate is Some
                                && RecordStoreState::spec_qc_eq(
                                r.highest_commit_certificate.unwrap(),
                                ps.qc_at(h.0).unwrap(),
                            ),
                            None => r.highest_commit_certificate is None,
                        },
                        None => r.highest_commit_certificate is None,
                    }
                }
            }),
            // This node's vote at the current round travels as stored.
            r.current_vote == crate::keyed::spec_lookup(
                self.spec_record_store().spec_current_votes(),
                context.author_spec().0 as u64,
            ),
            // The proposal travels exactly when this node authored the block
            // retained for the pacemaker's active round.
            ({
                let rs = self.spec_record_store();
                let pm = self.spec_pacemaker();
                r.proposed_block is Some <==> (rs.spec_current_proposed_block() is Some
                    && pm.spec_active_epoch() == rs.spec_epoch_id() && pm.spec_active_round()
                    == rs.spec_current_round() && pm.spec_active_leader() is Some && rs.block_at(
                    rs.spec_current_proposed_block().unwrap().0,
                ) is Some && rs.block_at(
                    rs.spec_current_proposed_block().unwrap().0,
                ).unwrap().value.author == context.author_spec())
            }),
            r.proposed_block is Some ==> r.proposed_block == self.spec_record_store().block_at(
                self.spec_record_store().spec_current_proposed_block().unwrap().0,
            ),
    {
        // Pass the latest commit certificate across epochs when the current
        // epoch has none yet.
        let highest_commit_certificate: Option<QuorumCertificate> = match self.record_store()
            .highest_commit_certificate() {
            Some(qc) => Some(RecordStoreState::copy_qc(qc)),
            None => {
                match self.epoch_id().previous() {
                    Some(previous_epoch) => {
                        match self.record_store_at(previous_epoch) {
                            Some(store) => {
                                proof {
                                    self.lemma_record_store_at_wf(previous_epoch);
                                }
                                match store.highest_commit_certificate() {
                                    Some(qc) => Some(RecordStoreState::copy_qc(qc)),
                                    None => None,
                                }
                            },
                            None => None,
                        }
                    },
                    None => None,
                }
            },
        };
        let highest_quorum_certificate: Option<QuorumCertificate> = match self.record_store()
            .highest_quorum_certificate() {
            Some(qc) => {
                proof {
                    crate::record_store::lemma_lookup_index(
                        self.spec_record_store().spec_qcs(),
                        self.spec_record_store().spec_highest_quorum_certificate_hash().0,
                    );
                }
                let c = RecordStoreState::copy_qc(qc);
                proof {
                    let w = choose|w: int|
                        0 <= w < self.spec_record_store().spec_qcs().len() && (
                        #[trigger] self.spec_record_store().spec_qcs()[w]).0
                            == self.spec_record_store().spec_highest_quorum_certificate_hash().0
                            && self.spec_record_store().spec_qcs()[w].1
                            == self.spec_record_store().qc_at(
                            self.spec_record_store().spec_highest_quorum_certificate_hash().0,
                        ).unwrap();
                    assert(RecordStoreState::spec_qc_eq(
                        self.spec_record_store().spec_qcs()[w].1,
                        c,
                    ));
                }
                Some(c)
            },
            None => None,
        };
        let author = context.author();
        let proposed_block: Option<Block> = match self.record_store().proposed_block(
            self.pacemaker(),
        ) {
            Some((hash, _, block_author)) => {
                // Do not reshare other leaders' proposals.
                if block_author.0 == author.0 {
                    proof {
                        assert(self.spec_record_store().spec_current_proposed_block() == Some(
                            hash,
                        ));
                    }
                    match self.record_store().block(hash) {
                        Some(block) => {
                            proof {
                                assert(block_author == crate::base_types::Author(block_author.0));
                                assert(author == crate::base_types::Author(author.0));
                            }
                            if block.value.author.0 == author.0 {
                                proof {
                                    assert(block.value.author == crate::base_types::Author(
                                        block.value.author.0,
                                    ));
                                }
                                Some(*block)
                            } else {
                                None
                            }
                        },
                        None => None,
                    }
                } else {
                    None
                }
            },
            None => None,
        };
        let current_vote: Option<Vote> = match self.record_store().current_vote(author) {
            Some(v) => Some(*v),
            None => None,
        };
        DataSyncNotification {
            current_epoch: self.epoch_id(),
            highest_commit_certificate,
            highest_quorum_certificate,
            timeouts: self.record_store().timeouts(),
            current_vote,
            proposed_block,
        }
    }

    /// A frozen record store is well formed.
    proof fn lemma_record_store_at_wf(self, epoch_id: EpochId)
        requires
            self.wf(),
            spec_lookup(self.spec_past_record_stores(), epoch_id.0 as u64) is Some,
        ensures
            spec_lookup(self.spec_past_record_stores(), epoch_id.0 as u64).unwrap().wf(),
    {
        crate::record_store::lemma_lookup_index(self.spec_past_record_stores(), epoch_id.0 as u64);
        let i = choose|i: int|
            0 <= i < self.spec_past_record_stores().len() && (
            #[trigger] self.spec_past_record_stores()[i]).0 == epoch_id.0 as u64
                && self.spec_past_record_stores()[i].1 == spec_lookup(
                self.spec_past_record_stores(),
                epoch_id.0 as u64,
            ).unwrap();
        assert(self.spec_past_record_stores()[i].1.wf());
    }

    /// Handle a peer's notification: feed each carried record into the
    /// store, and answer with a request when the peer appears to be ahead.
    pub fn handle_notification<C: SmrContext>(
        &mut self,
        context: &mut C,
        notification: DataSyncNotification,
    ) -> (r: Option<DataSyncRequest>)
        requires
            old(self).wf(),
        ensures
            final(self).wf(),
            final(self).spec_epoch_id() == old(self).spec_epoch_id(),
            // A peer on a newer epoch always triggers a request; a request
            // is only triggered by a newer epoch or a carried certificate.
            notification.current_epoch.0 > old(self).spec_epoch_id().0 ==> r is Some,
            r is Some ==> notification.current_epoch.0 > old(self).spec_epoch_id().0
                || notification.highest_commit_certificate is Some
                || notification.highest_quorum_certificate is Some,
            r is None ==> notification.current_epoch.0 <= old(self).spec_epoch_id().0,
            match r {
                Some(req) => req.current_epoch == final(self).spec_epoch_id(),
                None => true,
            },
            // A proposed block of this epoch that passes verification
            // against the incoming store is retained under its digest: the
            // certificates inserted before it cannot invalidate it.
            (match notification.proposed_block {
                Some(b) => notification.current_epoch == old(self).spec_epoch_id() && old(
                    self,
                ).spec_record_store().spec_block_verifies::<C>(b) ==> spec_has_key(
                    final(self).spec_record_store().spec_blocks(),
                    C::hash_spec(crate::record::spec_block_bytes(b.value)),
                ),
                None => true,
            }),
    {
        let ghost bcond = notification.proposed_block is Some && notification.current_epoch == old(
            self,
        ).spec_epoch_id() && old(self).spec_record_store().spec_block_verifies::<C>(
            notification.proposed_block.unwrap(),
        );
        // A peer in a newer epoch, or with a commit or certificate frontier
        // beyond ours, makes us ask for data.
        let mut should_sync: bool = notification.current_epoch.0 > self.epoch_id().0;
        match &notification.highest_commit_certificate {
            Some(highest_commit_certificate) => {
                let copy = RecordStoreState::copy_qc(highest_commit_certificate);
                let record_epoch = copy.value.epoch_id;
                let record_round = copy.value.round;
                let ghost sp = self.spec_record_store();
                self.insert_network_record(
                    record_epoch,
                    Record::QuorumCertificate(copy),
                    context,
                );
                proof {
                    if bcond {
                        RecordStoreState::lemma_block_verifies_after_qc::<C>(
                            sp,
                            self.spec_record_store(),
                            copy,
                            notification.proposed_block.unwrap(),
                        );
                    }
                }
                let local = self.record_store().highest_committed_round();
                let beyond = if local.0 <= usize::MAX - 2 {
                    record_round.0 > local.0 + 2
                } else {
                    false
                };
                should_sync = should_sync || record_epoch.0 > self.epoch_id().0 || (record_epoch.0
                    == self.epoch_id().0 && beyond);
            },
            None => (),
        }
        match &notification.highest_quorum_certificate {
            Some(highest_quorum_certificate) => {
                let copy = RecordStoreState::copy_qc(highest_quorum_certificate);
                let record_epoch = copy.value.epoch_id;
                let record_round = copy.value.round;
                let ghost sp = self.spec_record_store();
                self.insert_network_record(
                    record_epoch,
                    Record::QuorumCertificate(copy),
                    context,
                );
                proof {
                    if bcond {
                        RecordStoreState::lemma_block_verifies_after_qc::<C>(
                            sp,
                            self.spec_record_store(),
                            copy,
                            notification.proposed_block.unwrap(),
                        );
                    }
                }
                should_sync = should_sync || record_epoch.0 > self.epoch_id().0 || (record_epoch.0
                    == self.epoch_id().0 && record_round.0 > self.record_store()
                    .highest_quorum_certificate_round().0);
            },
            None => (),
        }
        proof {
            if bcond {
                assert(self.spec_record_store().spec_block_verifies::<C>(
                    notification.proposed_block.unwrap(),
                ));
            }
        }
        // Try to insert the proposed block, the timeouts and the vote right
        // away.
        match notification.proposed_block {
            Some(block) => {
                let ghost sp = self.spec_record_store();
                self.insert_network_record(
                    notification.current_epoch,
                    Record::Block(block),
                    context,
                );
                proof {
                    if bcond {
                        let h = C::hash_spec(crate::record::spec_block_bytes(block.value));
                        assert(self.spec_record_store().spec_blocks() == sp.spec_blocks().push(
                            (h, block),
                        ));
                        assert(self.spec_record_store().spec_blocks()[sp.spec_blocks().len() as int]
                            == (h, block));
                        assert(spec_has_key(self.spec_record_store().spec_blocks(), h));
                    }
                }
            },
            None => (),
        }
        let n = notification.timeouts.len();
        let mut i: usize = 0;
        while i < n
            invariant
                i <= n,
                n == notification.timeouts@.len(),
                self.wf(),
                self.spec_epoch_id() == old(self).spec_epoch_id(),
                bcond == (notification.proposed_block is Some && notification.current_epoch == old(
                    self,
                ).spec_epoch_id() && old(self).spec_record_store().spec_block_verifies::<C>(
                    notification.proposed_block.unwrap(),
                )),
                bcond ==> spec_has_key(
                    self.spec_record_store().spec_blocks(),
                    C::hash_spec(
                        crate::record::spec_block_bytes(notification.proposed_block.unwrap().value),
                    ),
                ),
            decreases n - i,
        {
            self.insert_network_record(
                notification.current_epoch,
                Record::Timeout(notification.timeouts[i]),
                context,
            );
            i = i + 1;
        }
        match notification.current_vote {
            Some(vote) => {
                self.insert_network_record(notification.current_epoch, Record::Vote(vote), context);
            },
            None => (),
        }
        // Create a follow-up request if needed.
        if should_sync {
            Some(self.create_request())
        } else {
            None
        }
    }

    /// The records one batch of a response must hold: the identities of
    /// what the store of `epoch_id` would emit for the known rounds the
    /// requester sent for its own epoch, or for no known rounds otherwise.
    pub open spec fn spec_batch_ok(
        self,
        request: DataSyncRequest,
        epoch_id: EpochId,
        batch: Seq<Record>,
    ) -> bool {
        &&& self.spec_store_at(epoch_id) is Some
        &&& batch.map_values(|x: Record| RecordStoreState::spec_record_ident(x))
            == self.spec_store_at(epoch_id).unwrap().spec_unknown_record_idents(
            if epoch_id == request.current_epoch {
                request.known_quorum_certificates@
            } else {
                Seq::<u64>::empty()
            },
        )
    }

    /// Answer a peer's request: the records it is missing in its epoch, and
    /// everything of each later epoch up to ours.
    #[verifier::rlimit(60)]
    pub fn handle_request(&self, request: &DataSyncRequest) -> (r: DataSyncResponse)
        requires
            self.wf(),
        ensures
            r.current_epoch == self.spec_epoch_id(),
            // One batch per known epoch from the requester's to ours, in
            // increasing epoch order, each holding what that epoch's store
            // emits for the peer's known rounds.
            forall|i: int|
                0 <= i < r.records@.len() ==> {
                    let e = (#[trigger] r.records@[i]).0;
                    &&& request.current_epoch.0 <= e.0 <= self.spec_epoch_id().0
                    &&& self.spec_batch_ok(*request, e, r.records@[i].1@)
                },
            forall|i: int, j: int|
                0 <= i < j < r.records@.len() ==> (#[trigger] r.records@[i]).0.0 < (
                #[trigger] r.records@[j]).0.0,
            // Every epoch in range whose store this node holds appears.
            forall|e: EpochId|
                request.current_epoch.0 <= e.0 <= self.spec_epoch_id().0
                    && (#[trigger] self.spec_store_at(e)) is Some ==> exists|i: int|
                    0 <= i < r.records@.len() && (#[trigger] r.records@[i]).0 == e,
    {
        let mut records: Vec<(EpochId, Vec<Record>)> = Vec::new();
        match self.record_store_at(request.current_epoch) {
            Some(store) => {
                proof {
                    if spec_lookup(
                        self.spec_past_record_stores(),
                        request.current_epoch.0 as u64,
                    ) is Some {
                        self.lemma_record_store_at_wf(request.current_epoch);
                    }
                    assert(store.wf());
                }
                proof {
                    // A store is held only for the current or an earlier
                    // epoch.
                    if request.current_epoch != self.spec_epoch_id() {
                        crate::record_store::lemma_lookup_index(
                            self.spec_past_record_stores(),
                            request.current_epoch.0 as u64,
                        );
                        let k = choose|k: int|
                            0 <= k < self.spec_past_record_stores().len() && (
                            #[trigger] self.spec_past_record_stores()[k]).0
                                == request.current_epoch.0 as u64;
                        assert(self.spec_past_record_stores()[k].0
                            < self.spec_epoch_id().0 as u64);
                    }
                    assert(request.current_epoch.0 <= self.spec_epoch_id().0);
                }
                let batch = store.unknown_records(&request.known_quorum_certificates);
                proof {
                    assert(self.spec_batch_ok(*request, request.current_epoch, batch@));
                }
                records.push((request.current_epoch, batch));
            },
            None => (),
        }
        proof {
            assert forall|e: EpochId|
                request.current_epoch.0 <= e.0 <= request.current_epoch.0 && (
                #[trigger] self.spec_store_at(e)) is Some implies exists|k: int|
                0 <= k < records@.len() && (#[trigger] records@[k]).0 == e by {
                assert(e == EpochId(e.0));
                assert(e == request.current_epoch);
                assert(records@[0].0 == e);
            }
        }
        let empty: Vec<u64> = Vec::new();
        let mut i: usize = request.current_epoch.0;
        let my_epoch = self.epoch_id();
        while i < my_epoch.0
            invariant
                self.wf(),
                my_epoch == self.spec_epoch_id(),
                i >= request.current_epoch.0,
                empty@ == Seq::<u64>::empty(),
                forall|k: int|
                    0 <= k < records@.len() ==> {
                        let e = (#[trigger] records@[k]).0;
                        &&& request.current_epoch.0 <= e.0 <= i
                        &&& e.0 <= self.spec_epoch_id().0
                        &&& self.spec_batch_ok(*request, e, records@[k].1@)
                    },
                forall|k: int, l: int|
                    0 <= k < l < records@.len() ==> (#[trigger] records@[k]).0.0 < (
                    #[trigger] records@[l]).0.0,
                forall|e: EpochId|
                    request.current_epoch.0 <= e.0 <= i && (#[trigger] self.spec_store_at(e))
                        is Some ==> exists|k: int|
                        0 <= k < records@.len() && (#[trigger] records@[k]).0 == e,
            decreases my_epoch.0 - i,
        {
            i = i + 1;
            let epoch_id = EpochId(i);
            let ghost pre = records@;
            match self.record_store_at(epoch_id) {
                Some(store) => {
                    proof {
                        if spec_lookup(self.spec_past_record_stores(), epoch_id.0 as u64) is Some {
                            self.lemma_record_store_at_wf(epoch_id);
                        }
                        assert(store.wf());
                    }
                    records.push((epoch_id, store.unknown_records(&empty)));
                    proof {
                        assert(records@[records@.len() - 1] == (
                        epoch_id,
                        records@[records@.len() - 1].1,
                        ));
                        assert(epoch_id != request.current_epoch);
                        assert forall|e: EpochId|
                            request.current_epoch.0 <= e.0 <= i && (
                            #[trigger] self.spec_store_at(e)) is Some implies exists|k: int|
                            0 <= k < records@.len() && (#[trigger] records@[k]).0 == e by {
                            if e.0 < i {
                                let k = choose|k: int|
                                    0 <= k < pre.len() && (#[trigger] pre[k]).0 == e;
                                assert(records@[k].0 == e);
                            } else {
                                assert(e == EpochId(e.0));
                                assert(records@[records@.len() - 1].0 == e);
                            }
                        }
                    }
                },
                None => {
                    proof {
                        assert forall|e: EpochId|
                            request.current_epoch.0 <= e.0 <= i && (
                            #[trigger] self.spec_store_at(e)) is Some implies exists|k: int|
                            0 <= k < records@.len() && (#[trigger] records@[k]).0 == e by {
                            if e.0 < i {
                                let k = choose|k: int|
                                    0 <= k < pre.len() && (#[trigger] pre[k]).0 == e;
                                assert(records@[k].0 == e);
                            } else {
                                assert(e == EpochId(e.0));
                                assert(self.spec_store_at(e) is None);
                            }
                        }
                    }
                },
            }
        }
        DataSyncResponse { current_epoch: my_epoch, records }
    }

    /// Absorb a peer's response: insert the records of each batch for our
    /// epoch in order, processing commits between batches so that new
    /// epochs are entered along the way. A response whose single batch for
    /// the current epoch carries only records that do not verify leaves the
    /// store unchanged.
    pub fn handle_response<C: SmrContext>(
        &mut self,
        context: &mut C,
        response: DataSyncResponse,
        clock: NodeTime,
    )
        requires
            old(self).wf(),
        ensures
            final(self).wf(),
            final(self).spec_epoch_id().0 >= old(self).spec_epoch_id().0,
            ({
                // A response of one batch of already-known records for this
                // epoch changes nothing in the store.
                response.records@.len() == 1 && response.records@[0].0 == old(self).spec_epoch_id()
                    && (forall|j: int|
                    0 <= j < response.records@[0].1@.len() ==> !old(
                        self,
                    ).spec_record_store().spec_verifies::<C>(#[trigger] response.records@[0].1@[j]))
                    ==> final(self).spec_record_store() == old(self).spec_record_store()
            }),
            // Batches of epochs this node already left are skipped outright.
            (forall|b: int|
                0 <= b < response.records@.len() ==> (#[trigger] response.records@[b]).0.0 < old(
                    self,
                ).spec_epoch_id().0) ==> *final(self) == *old(self) && *final(context) == *old(
                context,
            ),
            // A first batch from a future epoch aborts the handling: honest
            // peers do not send batches beyond their announced epoch.
            response.records@.len() > 0 && response.records@[0].0.0 > old(self).spec_epoch_id().0
                ==> *final(self) == *old(self) && *final(context) == *old(context),
            // The commits processed between batches only append to the
            // delivery log: everything already handed to the application
            // stays in place.
            final(context).delivered_spec().len() >= old(context).delivered_spec().len(),
            forall|k: int|
                0 <= k < old(context).delivered_spec().len() ==> final(context).delivered_spec()[k]
                    == old(context).delivered_spec()[k],
    {
        let num_batches = response.records.len();
        let mut i: usize = 0;
        let ghost single_noop = response.records@.len() == 1 && response.records@[0].0 == old(
            self,
        ).spec_epoch_id() && (forall|j: int|
            0 <= j < response.records@[0].1@.len() ==> !old(
                self,
            ).spec_record_store().spec_verifies::<C>(#[trigger] response.records@[0].1@[j]));
        let ghost all_older = forall|b: int|
            0 <= b < response.records@.len() ==> (#[trigger] response.records@[b]).0.0 < old(
                self,
            ).spec_epoch_id().0;
        let ghost first_newer = response.records@.len() > 0 && response.records@[0].0.0 > old(
            self,
        ).spec_epoch_id().0;
        while i < num_batches
            invariant
                i <= num_batches,
                num_batches == response.records@.len(),
                self.wf(),
                self.spec_epoch_id().0 >= old(self).spec_epoch_id().0,
                all_older == (forall|b: int|
                    0 <= b < response.records@.len() ==> (#[trigger] response.records@[b]).0.0
                        < old(self).spec_epoch_id().0),
                first_newer == (response.records@.len() > 0 && response.records@[0].0.0 > old(
                    self,
                ).spec_epoch_id().0),
                all_older ==> *self == *old(self) && *context == *old(context),
                first_newer ==> i == 0 && *self == *old(self) && *context == *old(context),
                context.delivered_spec().len() >= old(context).delivered_spec().len(),
                forall|k: int|
                    0 <= k < old(context).delivered_spec().len()
                        ==> context.delivered_spec()[k] == old(context).delivered_spec()[k],
                single_noop ==> *self == *old(self),
                single_noop == (response.records@.len() == 1 && response.records@[0].0 == old(
                    self,
                ).spec_epoch_id() && (forall|j: int|
                    0 <= j < response.records@[0].1@.len() ==> !old(
                        self,
                    ).spec_record_store().spec_verifies::<C>(
                        #[trigger] response.records@[0].1@[j],
                    ))),
            decreases num_batches - i,
        {
            let (epoch_id, batch) = &response.records[i];
            if epoch_id.0 < self.epoch_id().0 {
                // This epoch was stopped in the meantime.
                i = i + 1;
                continue ;
            }
            if epoch_id.0 > self.epoch_id().0 {
                // Honest peers do not send batches from the future.
                return ;
            }
            let m = batch.len();
            let mut j: usize = 0;
            while j < m
                invariant
                    j <= m,
                    m == batch@.len(),
                    i < num_batches,
                    num_batches == response.records@.len(),
                    batch@ == response.records@[i as int].1@,
                    self.wf(),
                    self.spec_epoch_id().0 >= old(self).spec_epoch_id().0,
                    !all_older,
                    !first_newer,
                    context.delivered_spec().len() >= old(context).delivered_spec().len(),
                    forall|k: int|
                        0 <= k < old(context).delivered_spec().len()
                            ==> context.delivered_spec()[k] == old(context).delivered_spec()[k],
                    single_noop ==> *self == *old(self),
                    single_noop == (response.records@.len() == 1 && response.records@[0].0 == old(
                        self,
                    ).spec_epoch_id() && (forall|j2: int|
                        0 <= j2 < response.records@[0].1@.len() ==> !old(
                            self,
                        ).spec_record_store().spec_verifies::<C>(
                            #[trigger] response.records@[0].1@[j2],
                        ))),
                decreases m - j,
            {
                let record = Self::copy_record(&batch[j]);
                proof {
                    Self::lemma_record_copy_verifies::<C>(
                        self.spec_record_store(),
                        batch@[j as int],
                        record,
                    );
                    if single_noop {
                        assert(i == 0);
                        assert(batch@[j as int] == response.records@[0].1@[j as int]);
                        assert(!old(self).spec_record_store().spec_verifies::<C>(
                            batch@[j as int],
                        ));
                        assert(!self.spec_record_store().spec_verifies::<C>(record));
                    }
                }
                let record_epoch = self.epoch_id();
                self.insert_network_record(record_epoch, record, context);
                j = j + 1;
            }
            if i + 1 == num_batches {
                // Leave the latest epoch for the main handler to process.
                return ;
            }
            // Deliver commits and start the next epochs.
            let ghost pre_node = *self;
            let ghost pre_d = context.delivered_spec();
            self.process_commits(context);
            proof {
                let ds = NodeState::spec_deliveries(
                    pre_node.spec_record_store(),
                    pre_node.spec_tracker().spec_highest_committed_round().0 as nat,
                );
                if self.spec_epoch_id().0 > pre_node.spec_epoch_id().0 {
                    let k = choose|k: int|
                        #![trigger ds.take(k)]
                        {
                            &&& 1 <= k <= ds.len()
                            &&& context.delivered_spec() == pre_d + ds.take(k)
                            &&& self.spec_record_store().spec_initial_state() == ds[k - 1].0
                        };
                    assert(context.delivered_spec() == pre_d + ds.take(k));
                } else {
                    assert(context.delivered_spec() == pre_d + ds);
                }
            }
            self.update_tracker(clock);
            i = i + 1;
        }
    }

    /// Copy a record field by field.
    fn copy_record(r: &Record) -> (c: Record)
        ensures
            match (*r, c) {
                (Record::Block(a), Record::Block(b)) => a == b,
                (Record::Vote(a), Record::Vote(b)) => a == b,
                (Record::Timeout(a), Record::Timeout(b)) => a == b,
                (
                    Record::QuorumCertificate(a),
                    Record::QuorumCertificate(b),
                ) => RecordStoreState::spec_qc_eq(a, b),
                _ => false,
            },
    {
        match r {
            Record::Block(b) => Record::Block(*b),
            Record::Vote(v) => Record::Vote(*v),
            Record::Timeout(t) => Record::Timeout(*t),
            Record::QuorumCertificate(q) => Record::QuorumCertificate(
                RecordStoreState::copy_qc(q),
            ),
        }
    }

    /// A record and its copy verify against the same stores: verification
    /// reads only the fields, and copies carry the same fields.
    proof fn lemma_record_copy_verifies<C: SmrContext>(
        rs: RecordStoreState,
        a: Record,
        b: Record,
    )
        requires
            match (a, b) {
                (Record::Block(x), Record::Block(y)) => x == y,
                (Record::Vote(x), Record::Vote(y)) => x == y,
                (Record::Timeout(x), Record::Timeout(y)) => x == y,
                (
                    Record::QuorumCertificate(x),
                    Record::QuorumCertificate(y),
                ) => RecordStoreState::spec_qc_eq(x, y),
                _ => false,
            },
        ensures
            rs.spec_verifies::<C>(a) == rs.spec_verifies::<C>(b),
    {
        match (a, b) {
            (Record::QuorumCertificate(x), Record::QuorumCertificate(y)) => {
                crate::record::lemma_qc_bytes_congruent(x.value, y.value);
                assert(x.value.votes@.map_values(|e: (crate::base_types::Author, crate::base_types::Signature)| e.0)
                    =~= y.value.votes@.map_values(|e: (crate::base_types::Author, crate::base_types::Signature)| e.0));
                assert forall|i: int|
                    0 <= i < x.value.votes@.len() implies (RecordStoreState::spec_qc_vote_ok::<C>(
                    rs.spec_epoch_id(),
                    x.value,
                    #[trigger] x.value.votes@[i],
                ) == RecordStoreState::spec_qc_vote_ok::<C>(
                    rs.spec_epoch_id(),
                    y.value,
                    y.value.votes@[i],
                )) by {
                    assert(x.value.votes@[i] == y.value.votes@[i]);
                }
            },
            _ => {},
        }
    }
}

impl DataSyncRequest {
    /// Serialize the request to bytes.
    pub fn encode(&self) -> Vec<u8> {
        let mut out: Vec<u8> = Vec::new();
        crate::codec::encode_usize(&mut out, self.current_epoch.0);
        crate::codec::encode_usize(&mut out, self.known_quorum_certificates.len());
        let n = self.known_quorum_certificates.len();
        let mut i: usize = 0;
        while i < n
            invariant
                i <= n,
                n == self.known_quorum_certificates@.len(),
            decreases n - i,
        {
            crate::codec::encode_u64(&mut out, self.known_quorum_certificates[i]);
            i = i + 1;
        }
        out
    }

    /// Read a request back from bytes.
    pub fn decode(bytes: &Vec<u8>) -> Option<DataSyncRequest> {
        let (epoch, p) = match crate::codec::decode_usize(bytes, 0) {
            Some(x) => x,
            None => {
                return None;
            },
        };
        let (n, mut p2) = match crate::codec::decode_usize(bytes, p) {
            Some(x) => x,
            None => {
                return None;
            },
        };
        let mut known: Vec<u64> = Vec::new();
        let mut i: usize = 0;
        let mut failed = false;
        while i < n
            invariant
                i <= n,
            decreases n - i,
        {
            match crate::codec::decode_u64(bytes, p2) {
                Some((x, q)) => {
                    known.push(x);
                    p2 = q;
                },
                None => {
                    failed = true;
                    i = n;
                    continue ;
                },
            }
            i = i + 1;
        }
        if failed {
            return None;
        }
        Some(DataSyncRequest { current_epoch: EpochId(epoch), known_quorum_certificates: known })
    }
}

/// Append an optional wire-encoded record.
fn encode_opt_record(out: &mut Vec<u8>, r: &Option<Record>) {
    match r {
        None => crate::codec::encode_u64(out, 0),
        Some(rec) => {
            crate::codec::encode_u64(out, 1);
            crate::record::encode_record(out, rec);
        },
    }
}

/// Read back an optional wire-encoded record.
fn decode_opt_record(bytes: &Vec<u8>, pos: usize) -> Option<(Option<Record>, usize)> {
    let (tag, p) = match crate::codec::decode_u64(bytes, pos) {
        Some(x) => x,
        None => {
            return None;
        },
    };
    if tag == 0 {
        Some((None, p))
    } else if tag == 1 {
        match crate::record::decode_record(bytes, p) {
            Some((r, p2)) => Some((Some(r), p2)),
            None => None,
        }
    } else {
        None
    }
}

impl DataSyncNotification {
    /// Serialize the notification to bytes.
    pub fn encode(&self) -> Vec<u8> {
        let mut out: Vec<u8> = Vec::new();
        crate::codec::encode_usize(&mut out, self.current_epoch.0);
        let hcc = match &self.highest_commit_certificate {
            Some(q) => Some(Record::QuorumCertificate(RecordStoreState::copy_qc(q))),
            None => None,
        };
        encode_opt_record(&mut out, &hcc);
        let hqc = match &self.highest_quorum_certificate {
            Some(q) => Some(Record::QuorumCertificate(RecordStoreState::copy_qc(q))),
            None => None,
        };
        encode_opt_record(&mut out, &hqc);
        crate::codec::encode_usize(&mut out, self.timeouts.len());
        let n = self.timeouts.len();
        let mut i: usize = 0;
        while i < n
            invariant
                i <= n,
                n == self.timeouts@.len(),
            decreases n - i,
        {
            crate::record::encode_record(&mut out, &Record::Timeout(self.timeouts[i]));
            i = i + 1;
        }
        let cv = match self.current_vote {
            Some(v) => Some(Record::Vote(v)),
            None => None,
        };
        encode_opt_record(&mut out, &cv);
        let pb = match self.proposed_block {
            Some(b) => Some(Record::Block(b)),
            None => None,
        };
        encode_opt_record(&mut out, &pb);
        out
    }

    /// Read a notification back from bytes.
    pub fn decode(bytes: &Vec<u8>) -> Option<DataSyncNotification> {
        let (epoch, p) = match crate::codec::decode_usize(bytes, 0) {
            Some(x) => x,
            None => {
                return None;
            },
        };
        let (hcc_rec, p) = match decode_opt_record(bytes, p) {
            Some(x) => x,
            None => {
                return None;
            },
        };
        let highest_commit_certificate = match hcc_rec {
            None => None,
            Some(Record::QuorumCertificate(q)) => Some(q),
            Some(_) => {
                return None;
            },
        };
        let (hqc_rec, p) = match decode_opt_record(bytes, p) {
            Some(x) => x,
            None => {
                return None;
            },
        };
        let highest_quorum_certificate = match hqc_rec {
            None => None,
            Some(Record::QuorumCertificate(q)) => Some(q),
            Some(_) => {
                return None;
            },
        };
        let (n, mut p2) = match crate::codec::decode_usize(bytes, p) {
            Some(x) => x,
            None => {
                return None;
            },
        };
        let mut timeouts: Vec<Timeout> = Vec::new();
        let mut i: usize = 0;
        let mut failed = false;
        while i < n
            invariant
                i <= n,
            decreases n - i,
        {
            match crate::record::decode_record(bytes, p2) {
                Some((Record::Timeout(t), q)) => {
                    timeouts.push(t);
                    p2 = q;
                },
                _ => {
                    failed = true;
                    i = n;
                    continue ;
                },
            }
            i = i + 1;
        }
        if failed {
            return None;
        }
        let (cv_rec, p3) = match decode_opt_record(bytes, p2) {
            Some(x) => x,
            None => {
                return None;
            },
        };
        let current_vote = match cv_rec {
            None => None,
            Some(Record::Vote(v)) => Some(v),
            Some(_) => {
                return None;
            },
        };
        let (pb_rec, _) = match decode_opt_record(bytes, p3) {
            Some(x) => x,
            None => {
                return None;
            },
        };
        let proposed_block = match pb_rec {
            None => None,
            Some(Record::Block(b)) => Some(b),
            Some(_) => {
                return None;
            },
        };
        Some(
            DataSyncNotification {
                current_epoch: EpochId(epoch),
                highest_commit_certificate,
                highest_quorum_certificate,
                timeouts,
                current_vote,
                proposed_block,
            },
        )
    }
}

impl DataSyncResponse {
    /// Serialize the response to bytes.
    pub fn encode(&self) -> Vec<u8> {
        let mut out: Vec<u8> = Vec::new();
        crate::codec::encode_usize(&mut out, self.current_epoch.0);
        crate::codec::encode_usize(&mut out, self.records.len());
        let n = self.records.len();
        let mut i: usize = 0;
        while i < n
            invariant
                i <= n,
                n == self.records@.len(),
            decreases n - i,
        {
            let (epoch_id, batch) = &self.records[i];
            crate::codec::encode_usize(&mut out, epoch_id.0);
            crate::codec::encode_usize(&mut out, batch.len());
            let m = batch.len();
            let mut j: usize = 0;
            while j < m
                invariant
                    j <= m,
                    m == batch@.len(),
                decreases m - j,
            {
                crate::record::encode_record(&mut out, &batch[j]);
                j = j + 1;
            }
            i = i + 1;
        }
        out
    }

    /// Read a response back from bytes.
    pub fn decode(bytes: &Vec<u8>) -> Option<DataSyncResponse> {
        let (epoch, p) = match crate::codec::decode_usize(bytes, 0) {
            Some(x) => x,
            None => {
                return None;
            },
        };
        let (n, mut p2) = match crate::codec::decode_usize(bytes, p) {
            Some(x) => x,
            None => {
                return None;
            },
        };
        let mut records: Vec<(EpochId, Vec<Record>)> = Vec::new();
        let mut i: usize = 0;
        let mut failed = false;
        while i < n
            invariant
                i <= n,
            decreases n - i,
        {
            let (e, q1) = match crate::codec::decode_usize(bytes, p2) {
                Some(x) => x,
                None => {
                    failed = true;
                    i = n;
                    continue ;
                },
            };
            let (m, q2) = match crate::codec::decode_usize(bytes, q1) {
                Some(x) => x,
                None => {
                    failed = true;
                    i = n;
                    continue ;
                },
            };
            let mut batch: Vec<Record> = Vec::new();
            let mut j: usize = 0;
            let mut q3 = q2;
            let mut inner_failed = false;
            while j < m
                invariant
                    j <= m,
                decreases m - j,
            {
                match crate::record::decode_record(bytes, q3) {
                    Some((r, q4)) => {
                        batch.push(r);
                        q3 = q4;
                    },
                    None => {
                        inner_failed = true;
                        j = m;
                        continue ;
                    },
                }
                j = j + 1;
            }
            if inner_failed {
                failed = true;
                i = n;
                continue ;
            }
            records.push((EpochId(e), batch));
            p2 = q3;
            i = i + 1;
        }
        if failed {
            return None;
        }
        Some(DataSyncResponse { current_epoch: EpochId(epoch), records })
    }
}

} // verus!
