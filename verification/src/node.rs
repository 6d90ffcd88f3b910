//! The per-replica state machine: it owns one record store per known epoch,
//! drives the pacemaker, enforces the voting constraints, delivers commits
//! to the application and manages epoch change.

use vstd::prelude::*;
use crate::base_types::{
    ActiveRound, Author, Duration, EpochId, NodeTime, QuorumCertificateHash, Round, State,
};
use crate::keyed::{spec_has_key, spec_lookup, KeyedVec};
use crate::pacemaker::{PacemakerState, PacemakerUpdateActions};
use crate::record::{Record, Signable};
use crate::record_store::RecordStoreState;
use crate::smr_context::SmrContext;

verus! {

/// Actions requested from the runtime by one node update.
pub struct NodeUpdateActions {
    /// Time at which to call the update handler again, at the latest.
    pub next_scheduled_update: NodeTime,
    /// Whether to send a notification to a subset of nodes.
    pub should_send: Vec<Author>,
    /// Whether to send a notification to all other nodes.
    pub should_broadcast: bool,
    /// Whether to request data from all other nodes.
    pub should_query_all: bool,
}

impl NodeUpdateActions {
    /// No actions, and no scheduled update.
    pub fn new() -> (r: NodeUpdateActions)
        ensures
            r.next_scheduled_update.0 == i64::MAX,
            r.should_send@ == Seq::<Author>::empty(),
            !r.should_broadcast,
            !r.should_query_all,
    {
        NodeUpdateActions {
            next_scheduled_update: NodeTime::never(),
            should_send: Vec::new(),
            should_broadcast: false,
            should_query_all: false,
        }
    }
}

impl Default for NodeUpdateActions {
    /// Same as `new`.
    fn default() -> (r: NodeUpdateActions)
        ensures
            r.next_scheduled_update.0 == i64::MAX,
            r.should_send@ == Seq::<Author>::empty(),
            !r.should_broadcast,
            !r.should_query_all,
    {
        NodeUpdateActions::new()
    }
}

/// Tracks the data the main handler has already reacted to, and enforces the
/// query-all cadence when no commit happens.
pub struct CommitTracker {
    /// Latest epoch identifier that was processed.
    epoch_id: EpochId,
    /// Round of the latest commit that was processed.
    highest_committed_round: Round,
    /// Time of the latest commit that was processed.
    latest_commit_time: NodeTime,
    /// Minimal interval between query-all actions when no commit happens.
    target_commit_interval: Duration,
}

/// Actions decided by one tracker update.
struct CommitTrackerUpdateActions {
    /// Time at which to call the update handler again, at the latest.
    next_scheduled_update: NodeTime,
    /// Whether to query all other nodes.
    should_query_all: bool,
}

impl CommitTrackerUpdateActions {
    fn new() -> (r: CommitTrackerUpdateActions)
        ensures
            r.next_scheduled_update.0 == i64::MAX,
            !r.should_query_all,
    {
        CommitTrackerUpdateActions { should_query_all: false, next_scheduled_update: NodeTime::never() }
    }
}

impl CommitTracker {
    /// The epoch the tracker last processed.
    pub closed spec fn spec_epoch_id(self) -> EpochId {
        self.epoch_id
    }

    /// The commit round the tracker last processed.
    pub closed spec fn spec_highest_committed_round(self) -> Round {
        self.highest_committed_round
    }

    /// When the tracker last saw a commit.
    pub closed spec fn spec_latest_commit_time(self) -> NodeTime {
        self.latest_commit_time
    }

    /// The configured query-all interval.
    pub closed spec fn spec_target_commit_interval(self) -> Duration {
        self.target_commit_interval
    }

    /// A fresh tracker for `epoch_id`.
    pub fn new(epoch_id: EpochId, node_time: NodeTime, target_commit_interval: Duration) -> (r:
        CommitTracker)
        ensures
            r.spec_epoch_id() == epoch_id,
            r.spec_highest_committed_round() == Round(0),
            r.spec_latest_commit_time() == node_time,
            r.spec_target_commit_interval() == target_commit_interval,
    {
        CommitTracker {
            epoch_id,
            highest_committed_round: Round(0),
            latest_commit_time: node_time,
            target_commit_interval,
        }
    }

    /// When the tracker last saw a commit.
    pub fn latest_commit_time(&self) -> (r: NodeTime)
        ensures
            r == self.spec_latest_commit_time(),
    {
        self.latest_commit_time
    }

    /// Observe the record store: note new commits or a new epoch, and force
    /// a query-all once too much time passed since the latest commit or
    /// query-all.
    fn update_tracker(
        &mut self,
        latest_query_all_time: NodeTime,
        clock: NodeTime,
        current_epoch_id: EpochId,
        current_record_store: &RecordStoreState,
    ) -> (actions: CommitTrackerUpdateActions)
        ensures
            final(self).spec_target_commit_interval() == old(self).spec_target_commit_interval(),
            final(self).spec_epoch_id().0 >= old(self).spec_epoch_id().0,
            // Within one epoch the processed commit round never decreases.
            current_epoch_id == old(self).spec_epoch_id() ==> final(self).spec_highest_committed_round().0 >= old(self).spec_highest_committed_round().0,
            current_epoch_id.0 > old(self).spec_epoch_id().0 ==> final(self).spec_epoch_id()
                == current_epoch_id && final(self).spec_highest_committed_round()
                == current_record_store.spec_highest_committed_round() && final(self).spec_latest_commit_time() == clock,
            current_epoch_id.0 <= old(self).spec_epoch_id().0 ==> {
                &&& final(self).spec_epoch_id() == old(self).spec_epoch_id()
                &&& (current_record_store.spec_highest_committed_round().0 > old(self).spec_highest_committed_round().0 ==> final(self).spec_highest_committed_round()
                    == current_record_store.spec_highest_committed_round() && final(self).spec_latest_commit_time() == clock)
                &&& (current_record_store.spec_highest_committed_round().0 <= old(self).spec_highest_committed_round().0 ==> final(self).spec_highest_committed_round()
                    == old(self).spec_highest_committed_round() && final(self).spec_latest_commit_time() == old(self).spec_latest_commit_time())
            },
            // A query-all fires exactly when the deadline from the latest
            // commit or query-all has passed; the next update is scheduled
            // one interval after that reference point.
            ({
                let d0 = crate::base_types::spec_sat_add(
                    crate::base_types::spec_int_max(
                        final(self).spec_latest_commit_time().0 as int,
                        latest_query_all_time.0 as int,
                    ),
                    old(self).spec_target_commit_interval().0 as int,
                );
                &&& actions.should_query_all == (clock.0 >= d0)
                &&& actions.next_scheduled_update.0 == (if clock.0 >= d0 {
                    crate::base_types::spec_sat_add(
                        clock.0 as int,
                        old(self).spec_target_commit_interval().0 as int,
                    )
                } else {
                    d0
                })
            }),
    {
        let mut actions = CommitTrackerUpdateActions::new();
        // Update the tracked epoch, commit round and commit time.
        if current_epoch_id.0 > self.epoch_id.0 {
            self.epoch_id = current_epoch_id;
            self.highest_committed_round = current_record_store.highest_committed_round();
            self.latest_commit_time = clock;
        } else {
            let highest_committed_round = current_record_store.highest_committed_round();
            if highest_committed_round.0 > self.highest_committed_round.0 {
                self.highest_committed_round = highest_committed_round;
                self.latest_commit_time = clock;
            }
        }
        // Decide if too much time passed since the latest commit or the
        // latest query-all action.
        let mut deadline = self.latest_commit_time.max(latest_query_all_time).saturating_add(
            self.target_commit_interval,
        );
        if clock.0 >= deadline.0 {
            actions.should_query_all = true;
            deadline = clock.saturating_add(self.target_commit_interval);
        }
        actions.next_scheduled_update = deadline;
        actions
    }
}

/// Initial configuration of a node: the query-all interval and the
/// round-duration tuning. The duration exponent is a small integer and the
/// query-all coefficient a fraction.
#[derive(Eq, PartialEq, Copy, Clone, Debug, Structural)]
pub struct NodeConfig {
    pub target_commit_interval: Duration,
    pub delta: Duration,
    pub gamma: u32,
    pub lambda_num: u64,
    pub lambda_den: u64,
}

impl NodeConfig {
    /// The tuning values are usable.
    pub open spec fn wf(self) -> bool {
        self.delta.0 >= 0 && self.lambda_den >= 1
    }
}

impl Default for NodeConfig {
    /// The default tuning: a 500 ms commit interval, 5000 ms base round
    /// duration, quadratic growth, and a query-all coefficient of one half.
    fn default() -> (r: NodeConfig)
        ensures
            r.wf(),
            r.target_commit_interval == Duration(500),
            r.delta == Duration(5000),
            r.gamma == 2,
            r.lambda_num == 1,
            r.lambda_den == 2,
    {
        NodeConfig {
            target_commit_interval: Duration(500),
            delta: Duration(5000),
            gamma: 2,
            lambda_num: 1,
            lambda_den: 2,
        }
    }
}

/// The state of one replica.
pub struct NodeState {
    /// Storage of the records of the current epoch.
    record_store: RecordStoreState,
    /// Leader election and round scheduling.
    pacemaker: PacemakerState,
    /// Current epoch.
    epoch_id: EpochId,
    /// Highest round voted so far.
    latest_voted_round: Round,
    /// Current locked round.
    locked_round: Round,
    /// Time of the latest query-all operation.
    latest_query_all_time: NodeTime,
    /// Track data to which the main handler has already reacted.
    tracker: CommitTracker,
    /// Frozen record stores of past epochs, keyed by epoch identifier.
    past_record_stores: KeyedVec<RecordStoreState>,
}

impl NodeState {
    /// The record store of the current epoch.
    pub closed spec fn spec_record_store(self) -> RecordStoreState {
        self.record_store
    }

    /// The pacemaker.
    pub closed spec fn spec_pacemaker(self) -> PacemakerState {
        self.pacemaker
    }

    /// The current epoch.
    pub closed spec fn spec_epoch_id(self) -> EpochId {
        self.epoch_id
    }

    /// The highest round voted so far.
    pub closed spec fn spec_latest_voted_round(self) -> Round {
        self.latest_voted_round
    }

    /// The current locked round.
    pub closed spec fn spec_locked_round(self) -> Round {
        self.locked_round
    }

    /// The time of the latest query-all operation.
    pub closed spec fn spec_latest_query_all_time(self) -> NodeTime {
        self.latest_query_all_time
    }

    /// The commit tracker.
    pub closed spec fn spec_tracker(self) -> CommitTracker {
        self.tracker
    }

    /// The frozen record stores of past epochs.
    pub closed spec fn spec_past_record_stores(self) -> Seq<(u64, RecordStoreState)> {
        self.past_record_stores.entries_seq()
    }

    /// Every frozen store is well formed, belongs to an earlier epoch, and
    /// no epoch is frozen twice.
    pub open spec fn spec_past_ok(past: Seq<(u64, RecordStoreState)>, epoch: EpochId) -> bool {
        &&& forall|i: int|
            0 <= i < past.len() ==> (#[trigger] past[i]).1.wf() && past[i].0 < epoch.0 as u64
        &&& forall|a: int, b: int|
            0 <= a < b < past.len() ==> (#[trigger] past[a]).0 != (#[trigger] past[b]).0
    }

    /// A node is well formed when its stores and pacemaker are, they agree
    /// on the current epoch, and every frozen store belongs to an earlier
    /// epoch.
    pub open spec fn wf(self) -> bool {
        &&& self.spec_record_store().wf()
        &&& self.spec_pacemaker().wf()
        &&& self.spec_record_store().spec_epoch_id() == self.spec_epoch_id()
        &&& self.spec_pacemaker().spec_active_epoch().0 <= self.spec_epoch_id().0
        &&& Self::spec_past_ok(self.spec_past_record_stores(), self.spec_epoch_id())
    }

    /// The genesis quorum-certificate hash of an epoch: the hash of the
    /// epoch identifier.
    fn initial_hash<C: SmrContext>(context: &C, id: EpochId) -> (r: QuorumCertificateHash)
        ensures
            r == QuorumCertificateHash(
                C::hash_spec(crate::record::spec_epoch_id_bytes(id)),
            ),
    {
        let bytes = id.to_bytes();
        QuorumCertificateHash(context.hash(&bytes))
    }

    /// The state of a node at startup: one fresh record store for the epoch
    /// of the last committed state, a fresh pacemaker and tracker, and no
    /// vote or lock.
    pub fn make_initial_state<C: SmrContext>(
        context: &C,
        config: NodeConfig,
        node_time: NodeTime,
    ) -> (r: NodeState)
        requires
            config.wf(),
        ensures
            r.wf(),
            r.spec_latest_voted_round() == Round(0),
            r.spec_locked_round() == Round(0),
            r.spec_latest_query_all_time() == node_time,
            r.spec_past_record_stores().len() == 0,
            r.spec_record_store().spec_current_round() == Round(1),
            r.spec_record_store().spec_initial_hash() == QuorumCertificateHash(
                C::hash_spec(crate::record::spec_epoch_id_bytes(r.spec_epoch_id())),
            ),
            // The node is seeded from the application: the epoch of the last
            // committed state, that state, and its voting rights.
            r.spec_epoch_id() == context.read_epoch_id_spec(context.last_committed_state_spec()),
            r.spec_record_store().spec_epoch_id() == r.spec_epoch_id(),
            r.spec_record_store().spec_initial_state() == context.last_committed_state_spec(),
            r.spec_record_store().spec_configuration().spec_authors() == context.configuration_spec(
                context.last_committed_state_spec(),
            ),
            r.spec_record_store().spec_blocks().len() == 0,
            r.spec_record_store().spec_qcs().len() == 0,
            r.spec_tracker().spec_epoch_id() == r.spec_epoch_id(),
            r.spec_tracker().spec_highest_committed_round() == Round(0),
            r.spec_tracker().spec_latest_commit_time() == node_time,
            r.spec_tracker().spec_target_commit_interval() == config.target_commit_interval,
            r.spec_pacemaker().spec_active_epoch() == r.spec_epoch_id(),
            r.spec_pacemaker().spec_active_round() == Round(0),
            r.spec_pacemaker().spec_active_round_start_time() == node_time,
            r.spec_pacemaker().spec_delta() == config.delta,
            r.spec_pacemaker().spec_gamma() == config.gamma as nat,
            r.spec_pacemaker().spec_lambda() == (config.lambda_num as nat, config.lambda_den as nat),
    {
        let initial_state = context.last_committed_state();
        let epoch_id = context.read_epoch_id(&initial_state);
        let tracker = CommitTracker::new(epoch_id, node_time, config.target_commit_interval);
        let record_store = RecordStoreState::new(
            Self::initial_hash(context, epoch_id),
            initial_state,
            epoch_id,
            context.configuration(&initial_state),
        );
        let pacemaker = PacemakerState::new(
            epoch_id,
            node_time,
            config.delta,
            config.gamma,
            config.lambda_num,
            config.lambda_den,
        );
        NodeState {
            record_store,
            pacemaker,
            epoch_id,
            latest_voted_round: Round(0),
            locked_round: Round(0),
            latest_query_all_time: node_time,
            tracker,
            past_record_stores: KeyedVec::new(),
        }
    }

    /// The current epoch.
    pub fn epoch_id(&self) -> (r: EpochId)
        ensures
            r == self.spec_epoch_id(),
    {
        self.epoch_id
    }

    /// The record store of the current epoch.
    pub fn record_store(&self) -> (r: &RecordStoreState)
        ensures
            *r == self.spec_record_store(),
    {
        &self.record_store
    }

    /// The record store this node holds for an epoch: the current one, or
    /// a frozen one.
    pub open spec fn spec_store_at(self, epoch_id: EpochId) -> Option<RecordStoreState> {
        if epoch_id == self.spec_epoch_id() {
            Some(self.spec_record_store())
        } else {
            spec_lookup(self.spec_past_record_stores(), epoch_id.0 as u64)
        }
    }

    /// The record store of `epoch_id`: the current one, or a frozen one.
    pub fn record_store_at(&self, epoch_id: EpochId) -> (r: Option<&RecordStoreState>)
        ensures
            match r {
                Some(s) => self.spec_store_at(epoch_id) == Some(*s),
                None => self.spec_store_at(epoch_id) is None,
            },
    {
        if epoch_id.0 == self.epoch_id.0 {
            proof {
                assert(epoch_id == EpochId(epoch_id.0));
                assert(self.spec_epoch_id() == EpochId(self.epoch_id.0));
            }
            return Some(&self.record_store);
        }
        self.past_record_stores.get(epoch_id.0 as u64)
    }

    /// The pacemaker.
    pub fn pacemaker(&self) -> (r: &PacemakerState)
        ensures
            *r == self.spec_pacemaker(),
    {
        &self.pacemaker
    }

    /// The highest round voted so far.
    pub fn latest_voted_round(&self) -> (r: Round)
        ensures
            r == self.spec_latest_voted_round(),
    {
        self.latest_voted_round
    }

    /// The current locked round.
    pub fn locked_round(&self) -> (r: Round)
        ensures
            r == self.spec_locked_round(),
    {
        self.locked_round
    }

    /// Let the tracker observe the current store, ignoring its actions.
    pub fn update_tracker(&mut self, clock: NodeTime)
        requires
            old(self).wf(),
        ensures
            final(self).wf(),
            final(self).spec_record_store() == old(self).spec_record_store(),
            final(self).spec_epoch_id() == old(self).spec_epoch_id(),
            final(self).spec_latest_voted_round() == old(self).spec_latest_voted_round(),
            final(self).spec_locked_round() == old(self).spec_locked_round(),
            final(self).spec_past_record_stores() == old(self).spec_past_record_stores(),
            old(self).spec_epoch_id() == old(self).spec_tracker().spec_epoch_id() ==> final(self).spec_tracker().spec_highest_committed_round().0 >= old(self).spec_tracker().spec_highest_committed_round().0,
    {
        let _ = self.tracker.update_tracker(
            self.latest_query_all_time,
            clock,
            self.epoch_id,
            &self.record_store,
        );
    }

    /// Feed one record of `epoch_id` into the current store; records from
    /// other epochs are skipped.
    pub fn insert_network_record<C: SmrContext>(
        &mut self,
        epoch_id: EpochId,
        record: Record,
        context: &mut C,
    )
        requires
            old(self).wf(),
        ensures
            final(self).wf(),
            final(self).spec_epoch_id() == old(self).spec_epoch_id(),
            final(self).spec_latest_voted_round() == old(self).spec_latest_voted_round(),
            final(self).spec_locked_round() == old(self).spec_locked_round(),
            final(self).spec_past_record_stores() == old(self).spec_past_record_stores(),
            final(self).spec_tracker() == old(self).spec_tracker(),
            final(context).author_spec() == old(context).author_spec(),
            final(context).delivered_spec() == old(context).delivered_spec(),
            epoch_id != old(self).spec_epoch_id() ==> *final(self) == *old(self),
            epoch_id == old(self).spec_epoch_id() && !old(self).spec_record_store().spec_verifies::<
                C,
            >(record) ==> *final(self) == *old(self),
            epoch_id == old(self).spec_epoch_id() ==> {
                &&& final(self).spec_pacemaker() == old(self).spec_pacemaker()
                &&& final(self).spec_latest_query_all_time() == old(self).spec_latest_query_all_time()
                &&& RecordStoreState::spec_same_base(
                    old(self).spec_record_store(),
                    final(self).spec_record_store(),
                )
                &&& RecordStoreState::spec_rounds_monotone(
                    old(self).spec_record_store(),
                    final(self).spec_record_store(),
                )
                &&& (!old(self).spec_record_store().spec_verifies::<C>(record) ==> final(self).spec_record_store() == old(self).spec_record_store())
            },
            epoch_id == old(self).spec_epoch_id() && old(self).spec_record_store().spec_verifies::<
                C,
            >(record) ==> match record {
                Record::Block(b) => RecordStoreState::spec_insert_block_effect::<C>(
                    old(self).spec_record_store(),
                    final(self).spec_record_store(),
                    b,
                ),
                Record::Vote(v) => RecordStoreState::spec_insert_vote_effect(
                    old(self).spec_record_store(),
                    final(self).spec_record_store(),
                    v,
                ),
                Record::QuorumCertificate(q) => final(self).spec_record_store() == old(
                    self,
                ).spec_record_store() || RecordStoreState::spec_insert_qc_effect::<C>(
                    old(self).spec_record_store(),
                    final(self).spec_record_store(),
                    q,
                ),
                Record::Timeout(t) => RecordStoreState::spec_insert_timeout_effect(
                    old(self).spec_record_store(),
                    final(self).spec_record_store(),
                    t,
                ),
            },
    {
        if epoch_id.0 == self.epoch_id.0 {
            proof {
                assert(epoch_id == EpochId(epoch_id.0));
                assert(old(self).spec_epoch_id() == EpochId(old(self).epoch_id.0));
            }
            self.record_store.insert_network_record(record, context);
        } else {
            proof {
                assert(epoch_id != old(self).spec_epoch_id());
            }
        }
    }

    /// Turn the pacemaker's decisions into node actions: create the
    /// requested timeout (clamping the latest voted round upward so this
    /// node never votes at a round it abandoned), and propose the requested
    /// block.
    fn process_pacemaker_actions<C: SmrContext>(
        &mut self,
        pacemaker_actions: PacemakerUpdateActions,
        clock: NodeTime,
        context: &mut C,
    ) -> (actions: NodeUpdateActions)
        requires
            old(self).wf(),
        ensures
            final(self).wf(),
            final(self).spec_epoch_id() == old(self).spec_epoch_id(),
            final(self).spec_latest_voted_round().0 >= old(self).spec_latest_voted_round().0,
            final(self).spec_locked_round() == old(self).spec_locked_round(),
            final(self).spec_tracker() == old(self).spec_tracker(),
            final(self).spec_latest_query_all_time() == old(self).spec_latest_query_all_time(),
            final(self).spec_pacemaker() == old(self).spec_pacemaker(),
            final(self).spec_past_record_stores() == old(self).spec_past_record_stores(),
            RecordStoreState::spec_same_base(
                old(self).spec_record_store(),
                final(self).spec_record_store(),
            ),
            RecordStoreState::spec_rounds_monotone(
                old(self).spec_record_store(),
                final(self).spec_record_store(),
            ),
            // Votes retained at the current round survive, unless a round
            // advance cleared them.
            final(self).spec_record_store().spec_current_votes() == old(self).spec_record_store().spec_current_votes() || final(self).spec_record_store().spec_current_votes().len() == 0,
            // Only a demanded timeout can advance the round here, and no
            // step of this phase closes the election.
            final(self).spec_record_store().spec_current_round().0 > old(self).spec_record_store().spec_current_round().0
                ==> pacemaker_actions.should_create_timeout is Some,
            final(self).spec_record_store().spec_election_is_closed() ==> old(self).spec_record_store().spec_election_is_closed(),
            actions.next_scheduled_update == pacemaker_actions.next_scheduled_update,
            actions.should_broadcast == pacemaker_actions.should_broadcast,
            actions.should_query_all == pacemaker_actions.should_query_all,
            actions.should_send@ == pacemaker_actions.should_send@,
    {
        let mut actions = NodeUpdateActions::new();
        actions.next_scheduled_update = pacemaker_actions.next_scheduled_update;
        actions.should_broadcast = pacemaker_actions.should_broadcast;
        actions.should_query_all = pacemaker_actions.should_query_all;
        actions.should_send = pacemaker_actions.should_send;
        if let Some(round) = pacemaker_actions.should_create_timeout {
            let author = context.author();
            self.record_store.create_timeout(author, round, context);
            // Prevent voting at a round this node has abandoned.
            self.latest_voted_round.max_update(round);
        }
        proof {
            self.spec_record_store().lemma_election_exclusive();
            assert(self.spec_record_store().spec_election_is_closed() ==> old(
                self,
            ).spec_record_store().spec_election_is_closed());
        }
        if let Some(previous_qc_hash) = pacemaker_actions.should_propose_block {
            self.record_store.propose_block(context, previous_qc_hash, clock);
        }
        proof {
            self.spec_record_store().lemma_election_exclusive();
        }
        actions
    }

    /// The vote this node casts for the proposal retained in `old`'s store:
    /// over the proposed block at the current round, carrying the
    /// commit-rule state, signed by this node — and fed through the
    /// insertion path, so it is retained under this author unless the
    /// author had already voted this round.
    pub open spec fn spec_cast_vote<C: SmrContext>(old: Self, new: Self, author: Author, v: crate::record::Vote) -> bool {
        let rs = old.spec_record_store();
        let bh = rs.spec_current_proposed_block().unwrap();
        &&& v.value.epoch_id == old.spec_epoch_id()
        &&& v.value.round == rs.spec_current_round()
        &&& v.value.certified_block_hash == bh
        &&& v.value.committed_state == rs.spec_vote_committed_state(bh)
        &&& v.value.author == author
        &&& v.signature == C::sign_spec(
            author,
            C::hash_spec(crate::record::spec_vote_bytes(v.value)),
        )
        &&& (spec_lookup(new.spec_record_store().spec_current_votes(), author.0 as u64) == Some(v)
            || spec_has_key(rs.spec_current_votes(), author.0 as u64))
    }

    /// Whether the voting constraints reject the proposal: there is none,
    /// the pacemaker is on another epoch or round, the block's round does
    /// not exceed the latest voted round, or its 1-back round is below the
    /// locked round.
    pub open spec fn spec_no_vote(self) -> bool {
        let rs = self.spec_record_store();
        ||| rs.spec_current_proposed_block() is None
        ||| self.spec_pacemaker().spec_active_epoch() != rs.spec_epoch_id()
        ||| self.spec_pacemaker().spec_active_round() != rs.spec_current_round()
        ||| self.spec_pacemaker().spec_active_leader() is None
        ||| rs.spec_current_round().0 <= self.spec_latest_voted_round().0
        ||| rs.spec_previous_round(rs.spec_current_proposed_block().unwrap())
            < self.spec_locked_round().0 as nat
    }

    /// Vote on the proposal designated by the pacemaker, under the voting
    /// constraints: the block's round must exceed the latest voted round
    /// and its 1-back round must reach the locked round. Voting raises the
    /// latest voted round to the block's round and the locked round to the
    /// block's 2-back round; the proposer is returned for notification when
    /// the executor accepted the block.
    pub fn vote_on_proposal<C: SmrContext>(&mut self, context: &mut C) -> (r: Option<Author>)
        requires
            old(self).wf(),
        ensures
            final(self).wf(),
            final(self).spec_epoch_id() == old(self).spec_epoch_id(),
            final(self).spec_pacemaker() == old(self).spec_pacemaker(),
            final(self).spec_tracker() == old(self).spec_tracker(),
            final(self).spec_latest_query_all_time() == old(self).spec_latest_query_all_time(),
            final(self).spec_past_record_stores() == old(self).spec_past_record_stores(),
            RecordStoreState::spec_same_base(
                old(self).spec_record_store(),
                final(self).spec_record_store(),
            ),
            RecordStoreState::spec_rounds_monotone(
                old(self).spec_record_store(),
                final(self).spec_record_store(),
            ),
            final(self).spec_latest_voted_round().0 >= old(self).spec_latest_voted_round().0,
            final(self).spec_locked_round().0 >= old(self).spec_locked_round().0,
            // Voting never advances the round and never closes the
            // election.
            final(self).spec_record_store().spec_current_round() == old(self).spec_record_store().spec_current_round(),
            final(self).spec_record_store().spec_election_is_closed() ==> old(self).spec_record_store().spec_election_is_closed(),
            // A rejected proposal changes nothing.
            old(self).spec_no_vote() ==> *final(self) == *old(self) && r is None,
            // An accepted proposal raises the voting constraints, whether or
            // not the executor then produced a state.
            !old(self).spec_no_vote() ==> {
                let rs = old(self).spec_record_store();
                let bh = rs.spec_current_proposed_block().unwrap();
                &&& final(self).spec_latest_voted_round() == rs.spec_current_round()
                &&& final(self).spec_locked_round().0 == crate::base_types::spec_int_max(
                    old(self).spec_locked_round().0 as int,
                    rs.spec_second_previous_round(bh) as int,
                )
                &&& (r is None ==> final(self).spec_record_store() == rs)
                &&& (r is Some ==> r == Some(
                    crate::pacemaker::spec_leader(
                        rs.spec_configuration(),
                        rs.spec_current_round(),
                    ),
                ))
            },
            // A returned proposer means a vote was signed and fed through
            // the insertion path.
            r is Some ==> exists|v: crate::record::Vote|
                Self::spec_cast_vote::<C>(*old(self), *final(self), old(context).author_spec(), v),
    {
        match self.record_store.proposed_block(&self.pacemaker) {
            Some((block_hash, block_round, proposer)) => {
                proof {
                    assert(self.spec_record_store().block_at(block_hash.0) is Some);
                }
                if block_round.0 > self.latest_voted_round.0 && self.record_store.previous_round(
                    block_hash,
                ).0 >= self.locked_round.0 {
                    proof {
                        assert(!old(self).spec_no_vote());
                    }
                    // Update the latest voted round and raise the locked
                    // round.
                    self.latest_voted_round = block_round;
                    let second = self.record_store.second_previous_round(block_hash);
                    if second.0 > self.locked_round.0 {
                        self.locked_round = second;
                    }
                    // Execute the command and vote on the resulting state.
                    let ghost pre_vote = *self;
                    if self.record_store.create_vote(context, block_hash) {
                        proof {
                            let rs = old(self).spec_record_store();
                            let author = old(context).author_spec();
                            let key = author.0 as u64;
                            assert(pre_vote.spec_record_store() == rs);
                            let v = choose|v: crate::record::Vote|
                                RecordStoreState::spec_cast_vote_effect::<C>(
                                    rs,
                                    self.spec_record_store(),
                                    author,
                                    block_hash,
                                    v,
                                );
                            // Every verification condition but the
                            // duplicate-author one holds of this vote, so
                            // it is retained unless this author had voted.
                            assert(rs.spec_current_proposed_block() == Some(block_hash));
                            assert(rs.block_at(block_hash.0).unwrap().value.round
                                == rs.spec_current_round());
                            C::lemma_sign_verifies(
                                author,
                                C::hash_spec(crate::record::spec_vote_bytes(v.value)),
                            );
                            if !spec_has_key(rs.spec_current_votes(), key) {
                                assert(rs.spec_vote_verifies::<C>(v));
                                assert(RecordStoreState::spec_insert_vote_effect(
                                    rs,
                                    self.spec_record_store(),
                                    v,
                                ));
                                crate::keyed::lemma_lookup_push(
                                    rs.spec_current_votes(),
                                    key,
                                    v,
                                    key,
                                );
                                assert(spec_lookup(
                                    self.spec_record_store().spec_current_votes(),
                                    key,
                                ) == Some(v));
                            }
                            self.spec_record_store().lemma_election_exclusive();
                            assert(Self::spec_cast_vote::<C>(*old(self), *self, author, v));
                        }
                        Some(proposer)
                    } else {
                        None
                    }
                } else {
                    proof {
                        assert(old(self).spec_no_vote());
                    }
                    None
                }
            },
            None => {
                proof {
                    assert(old(self).spec_no_vote());
                }
                None
            },
        }
    }

    /// Execute one step of the main event loop: update the pacemaker and
    /// act on it, vote on a valid proposal under the voting constraints,
    /// form a certificate when this node's proposal won, deliver commits,
    /// and merge the tracker's actions. The latest voted round and the
    /// locked round never decrease within an epoch, and reset only on an
    /// epoch change.
    pub fn update_node<C: SmrContext>(&mut self, context: &mut C, clock: NodeTime) -> (actions:
        NodeUpdateActions)
        requires
            old(self).wf(),
        ensures
            final(self).wf(),
            final(self).spec_epoch_id().0 >= old(self).spec_epoch_id().0,
            final(self).spec_epoch_id() == old(self).spec_epoch_id() ==> {
                &&& final(self).spec_latest_voted_round().0 >= old(self).spec_latest_voted_round().0
                &&& final(self).spec_locked_round().0 >= old(self).spec_locked_round().0
                &&& RecordStoreState::spec_rounds_monotone(
                    old(self).spec_record_store(),
                    final(self).spec_record_store(),
                )
            },
            final(self).spec_epoch_id().0 > old(self).spec_epoch_id().0 ==> final(self).spec_latest_voted_round() == Round(0) && final(self).spec_locked_round() == Round(0),
            old(self).spec_epoch_id() == old(self).spec_tracker().spec_epoch_id() && final(self).spec_tracker().spec_epoch_id() == old(self).spec_tracker().spec_epoch_id() ==> final(self).spec_tracker().spec_highest_committed_round().0 >= old(self).spec_tracker().spec_highest_committed_round().0,
            // The time of the latest query-all action is recorded exactly
            // when one was requested.
            actions.should_query_all ==> final(self).spec_latest_query_all_time() == clock,
            !actions.should_query_all ==> final(self).spec_latest_query_all_time() == old(self).spec_latest_query_all_time(),
            // Forming a certificate broadcasts it and forces an immediate
            // re-entry: the election closes, or the round advances, only
            // when one was created or a timeout was demanded — and both
            // broadcast.
            final(self).spec_epoch_id() == old(self).spec_epoch_id() && final(self).spec_record_store().spec_election_is_closed() && !old(self).spec_record_store().spec_election_is_closed()
                ==> actions.should_broadcast && actions.next_scheduled_update.0 <= clock.0,
            final(self).spec_epoch_id() == old(self).spec_epoch_id() && final(self).spec_record_store().spec_current_round().0 > old(self).spec_record_store().spec_current_round().0
                ==> actions.should_broadcast,
            // A notification goes to at most one peer per update: the round
            // leader, either to synchronize with it or because this node
            // voted for its proposal.
            actions.should_send@.len() <= 1,
            forall|k: int|
                0 <= k < actions.should_send@.len() ==> #[trigger] actions.should_send@[k]
                    == crate::pacemaker::spec_leader(
                    old(self).spec_record_store().spec_configuration(),
                    final(self).spec_pacemaker().spec_active_round(),
                ),
            // The next update is scheduled no later than the tracker's
            // deadline.
            ({
                let interval = final(self).spec_tracker().spec_target_commit_interval().0 as int;
                let d0 = crate::base_types::spec_sat_add(
                    crate::base_types::spec_int_max(
                        final(self).spec_tracker().spec_latest_commit_time().0 as int,
                        old(self).spec_latest_query_all_time().0 as int,
                    ),
                    interval,
                );
                actions.next_scheduled_update.0 <= d0 || actions.next_scheduled_update.0
                    <= crate::base_types::spec_sat_add(clock.0 as int, interval)
            }),
    {
        // Update the pacemaker and process its actions: possibly creating a
        // timeout or proposing a block.
        let author = context.author();
        let pacemaker_actions = self.pacemaker.update_pacemaker(
            author,
            self.epoch_id,
            &self.record_store,
            self.latest_query_all_time,
            clock,
        );
        let mut actions = self.process_pacemaker_actions(pacemaker_actions, clock, context);
        let ghost mid = *self;
        // Vote on a valid proposal designated by the pacemaker, if any,
        // under the voting constraints, and notify the proposer.
        match self.vote_on_proposal(context) {
            Some(proposer) => {
                proof {
                    assert(proposer == crate::pacemaker::spec_leader(
                        mid.spec_record_store().spec_configuration(),
                        mid.spec_pacemaker().spec_active_round(),
                    ));
                    assert(mid.spec_record_store().spec_configuration() == old(self).spec_record_store().spec_configuration());
                }
                let mut send: Vec<Author> = Vec::new();
                send.push(proposer);
                proof {
                    assert(send@ =~= seq![proposer]);
                }
                actions.should_send = send;
            },
            None => (),
        }
        // Check if our proposal reached a quorum of votes, and form the
        // certificate.
        let ghost mid2 = *self;
        let formed = self.record_store.check_for_new_quorum_certificate(context);
        if formed {
            actions.should_broadcast = true;
            actions.next_scheduled_update = clock;
        }
        proof {
            mid2.spec_record_store().lemma_election_exclusive();
            self.spec_record_store().lemma_election_exclusive();
            assert(!formed ==> self.spec_record_store() == mid2.spec_record_store());
            assert(self.spec_record_store().spec_election_is_closed() && !mid2.spec_record_store().spec_election_is_closed() ==> formed);
            assert(self.spec_record_store().spec_current_round().0 > mid2.spec_record_store().spec_current_round().0 ==> formed);
        }
        // Deliver new commits, possibly entering a new epoch.
        self.process_commits(context);
        // Merge in the tracker's actions.
        let tracker_actions = self.tracker.update_tracker(
            self.latest_query_all_time,
            clock,
            self.epoch_id,
            &self.record_store,
        );
        actions.should_query_all = actions.should_query_all || tracker_actions.should_query_all;
        actions.next_scheduled_update = actions.next_scheduled_update.min(
            tracker_actions.next_scheduled_update,
        );
        // Note the time of the latest query-all action.
        if actions.should_query_all {
            self.latest_query_all_time = clock;
        }
        actions
    }

    /// What one pass over a store's unprocessed commits delivers: the
    /// committed states above `after` in increasing round order, the
    /// topmost flagged with the commit certificate when one is recorded.
    pub open spec fn spec_deliveries(rs: RecordStoreState, after: nat) -> Seq<(State, bool)> {
        RecordStoreState::spec_commits_above(rs.spec_commit_queue(), after).reverse().map_values(
            |p: (Round, State)|
                (
                    p.1,
                    p.0 == rs.spec_highest_committed_round()
                        && rs.spec_highest_commit_certificate_hash() is Some,
                ),
        )
    }

    /// Deliver the unprocessed commits to the application; when a committed
    /// state opens a new epoch, freeze the current store, start the new
    /// epoch's store and reset the voting constraints.
    pub fn process_commits<C: SmrContext>(&mut self, context: &mut C)
        requires
            old(self).wf(),
        ensures
            final(self).wf(),
            final(self).spec_epoch_id().0 >= old(self).spec_epoch_id().0,
            final(self).spec_tracker() == old(self).spec_tracker(),
            final(self).spec_latest_query_all_time() == old(self).spec_latest_query_all_time(),
            final(self).spec_pacemaker() == old(self).spec_pacemaker(),
            // Every unprocessed commit is handed to the application exactly
            // once, in increasing round order, the topmost with the commit
            // certificate; an epoch change stops the pass after the
            // triggering state.
            final(self).spec_epoch_id() == old(self).spec_epoch_id() ==> final(context).delivered_spec() == old(context).delivered_spec() + Self::spec_deliveries(
                old(self).spec_record_store(),
                old(self).spec_tracker().spec_highest_committed_round().0 as nat,
            ),
            final(self).spec_epoch_id().0 > old(self).spec_epoch_id().0 ==> exists|k: int|
                #![trigger Self::spec_deliveries(
                    old(self).spec_record_store(),
                    old(self).spec_tracker().spec_highest_committed_round().0 as nat,
                ).take(k)]
                {
                    &&& 1 <= k <= Self::spec_deliveries(
                        old(self).spec_record_store(),
                        old(self).spec_tracker().spec_highest_committed_round().0 as nat,
                    ).len()
                    &&& final(context).delivered_spec() == old(context).delivered_spec()
                        + Self::spec_deliveries(
                        old(self).spec_record_store(),
                        old(self).spec_tracker().spec_highest_committed_round().0 as nat,
                    ).take(k)
                    &&& final(self).spec_record_store().spec_initial_state()
                        == Self::spec_deliveries(
                        old(self).spec_record_store(),
                        old(self).spec_tracker().spec_highest_committed_round().0 as nat,
                    )[k - 1].0
                },
            // The voting constraints only move forward, or reset on an epoch
            // change.
            final(self).spec_epoch_id() == old(self).spec_epoch_id() ==> *final(self) == *old(self),
            final(self).spec_epoch_id().0 > old(self).spec_epoch_id().0 ==> {
                &&& final(self).spec_latest_voted_round() == Round(0)
                &&& final(self).spec_locked_round() == Round(0)
                // The old store is frozen unchanged under the old epoch, and
                // the new store is fresh, seeded from a committed state and
                // its configuration read from the application.
                &&& final(self).spec_past_record_stores() == old(self).spec_past_record_stores().push(
                    ((old(self).spec_epoch_id().0 as u64), old(self).spec_record_store()),
                )
                &&& final(self).spec_record_store().spec_epoch_id() == final(self).spec_epoch_id()
                &&& final(self).spec_record_store().spec_initial_hash() == QuorumCertificateHash(
                    C::hash_spec(crate::record::spec_epoch_id_bytes(final(self).spec_epoch_id())),
                )
                &&& final(self).spec_record_store().spec_current_round() == Round(1)
                &&& final(self).spec_record_store().spec_blocks().len() == 0
                &&& final(self).spec_record_store().spec_qcs().len() == 0
                // The new epoch identifier and the new voting rights are the
                // application oracle's answers for the committed state the
                // new store is seeded from.
                &&& final(self).spec_epoch_id() == final(context).read_epoch_id_spec(
                    final(self).spec_record_store().spec_initial_state(),
                )
                &&& final(self).spec_record_store().spec_configuration().spec_authors()
                    == final(context).configuration_spec(
                    final(self).spec_record_store().spec_initial_state(),
                )
                &&& exists|i: int|
                    {
                        &&& 0 <= i < RecordStoreState::spec_commits_above(
                            old(self).spec_record_store().spec_commit_queue(),
                            old(self).spec_tracker().spec_highest_committed_round().0 as nat,
                        ).len()
                        &&& final(self).spec_record_store().spec_initial_state() == (
                        #[trigger] RecordStoreState::spec_commits_above(
                            old(self).spec_record_store().spec_commit_queue(),
                            old(self).spec_tracker().spec_highest_committed_round().0 as nat,
                        )[i]).1
                    }
            },
    {
        let commits = self.record_store.committed_states_after(
            self.tracker.highest_committed_round,
        );
        proof {
            assert(commits@ == RecordStoreState::spec_commits_above(
                old(self).spec_record_store().spec_commit_queue(),
                old(self).spec_tracker().spec_highest_committed_round().0 as nat,
            ).reverse());
        }
        let ghost deliveries = Self::spec_deliveries(
            old(self).spec_record_store(),
            old(self).spec_tracker().spec_highest_committed_round().0 as nat,
        );
        let n = commits.len();
        let mut i: usize = 0;
        proof {
            assert(deliveries.len() == commits@.len());
            assert(deliveries.take(0) =~= Seq::<(State, bool)>::empty());
            assert(context.delivered_spec() =~= old(context).delivered_spec() + deliveries.take(
                0,
            ));
        }
        while i < n
            invariant
                i <= n,
                n == commits@.len(),
                self.wf(),
                self.spec_epoch_id() == old(self).spec_epoch_id(),
                self.spec_tracker() == old(self).spec_tracker(),
                self.spec_latest_query_all_time() == old(self).spec_latest_query_all_time(),
                *self == *old(self),
                commits@ == RecordStoreState::spec_commits_above(
                    old(self).spec_record_store().spec_commit_queue(),
                    old(self).spec_tracker().spec_highest_committed_round().0 as nat,
                ).reverse(),
                deliveries == Self::spec_deliveries(
                    old(self).spec_record_store(),
                    old(self).spec_tracker().spec_highest_committed_round().0 as nat,
                ),
                deliveries.len() == commits@.len(),
                context.delivered_spec() == old(context).delivered_spec() + deliveries.take(
                    i as int,
                ),
            decreases n - i,
        {
            let (round, state) = commits[i];
            proof {
                assert(deliveries[i as int] == (
                commits@[i as int].1,
                commits@[i as int].0 == old(self).spec_record_store().spec_highest_committed_round()
                    && old(self).spec_record_store().spec_highest_commit_certificate_hash()
                    is Some,
                ));
                assert(round == Round(round.0));
                assert(old(self).spec_record_store().spec_highest_committed_round() == Round(
                    old(self).spec_record_store().spec_highest_committed_round().0,
                ));
            }
            // Deliver the committed state, with the commit certificate on
            // the top of the chain.
            if round.0 == self.record_store.highest_committed_round().0 {
                match self.record_store.highest_commit_certificate() {
                    None => context.commit(&state, None),
                    Some(x) => {
                        let copy = RecordStoreState::copy_qc(x);
                        context.commit(&state, Some(&copy));
                    },
                };
            } else {
                context.commit(&state, None);
            }
            proof {
                assert(deliveries.take(i + 1) =~= deliveries.take(i as int).push(
                    deliveries[i as int],
                ));
                assert(context.delivered_spec() =~= old(context).delivered_spec()
                    + deliveries.take(i + 1));
            }
            // Check if the current epoch just ended.
            let new_epoch_id = context.read_epoch_id(&state);
            if new_epoch_id.0 > self.epoch_id.0 {
                let mut new_record_store = RecordStoreState::new(
                    Self::initial_hash(context, new_epoch_id),
                    state,
                    new_epoch_id,
                    context.configuration(&state),
                );
                core::mem::swap(&mut self.record_store, &mut new_record_store);
                let old_record_store = new_record_store;
                let ghost old_epoch = self.epoch_id;
                let ghost old_past = self.spec_past_record_stores();
                proof {
                    assert(Self::spec_past_ok(old_past, old_epoch));
                    assert(self.past_record_stores.wf());
                    assert(!spec_has_key(old_past, old_epoch.0 as u64)) by {
                        if spec_has_key(old_past, old_epoch.0 as u64) {
                            let k = choose|k: int|
                                0 <= k < old_past.len() && (#[trigger] old_past[k]).0
                                    == old_epoch.0 as u64;
                        }
                    }
                }
                self.past_record_stores.insert_new(self.epoch_id.0 as u64, old_record_store);
                self.epoch_id = new_epoch_id;
                self.latest_voted_round = Round(0);
                self.locked_round = Round(0);
                proof {
                    assert(Self::spec_past_ok(
                        self.spec_past_record_stores(),
                        self.spec_epoch_id(),
                    )) by {
                        assert forall|j: int|
                            0 <= j < self.spec_past_record_stores().len() implies (
                        #[trigger] self.spec_past_record_stores()[j]).1.wf()
                            && self.spec_past_record_stores()[j].0 < self.spec_epoch_id().0
                            as u64 by {
                            if j < old_past.len() {
                                assert(self.spec_past_record_stores()[j] == old_past[j]);
                            } else {
                                assert(self.spec_past_record_stores()[j] == (
                                old_epoch.0 as u64,
                                old_record_store,
                                ));
                            }
                        }
                    }
                }
                proof {
                    let cs = RecordStoreState::spec_commits_above(
                        old(self).spec_record_store().spec_commit_queue(),
                        old(self).spec_tracker().spec_highest_committed_round().0 as nat,
                    );
                    assert(commits@ == cs.reverse());
                    assert(commits@[i as int] == cs[cs.len() - 1 - i]);
                    assert(self.spec_record_store().spec_initial_state() == (#[trigger] cs[cs.len()
                        - 1 - i]).1);
                    // The pass stopped right after delivering the
                    // triggering state.
                    assert(1 <= i + 1 <= deliveries.len());
                    assert(deliveries[i + 1 - 1].0 == state);
                    assert(context.delivered_spec() == old(context).delivered_spec()
                        + deliveries.take(i + 1));
                }
                // Stop delivering commits after an epoch change.
                return ;
            }
            i = i + 1;
        }
    }
}

impl ActiveRound for NodeState {
    /// The round the pacemaker is currently on.
    fn active_round(&self) -> Round {
        self.pacemaker.active_round()
    }
}

/// Why a saved node state could not be restored.
#[derive(Eq, PartialEq, Copy, Clone, Debug, Structural)]
pub enum NodeLoadError {
    /// The bytes do not hold a node state.
    Malformed,
    /// The caller's clock is behind the recorded monotonic times.
    ClockRegression,
}

impl NodeState {
    /// Serialize the entire node state to one byte string.
    pub fn save_node(&self) -> Vec<u8> {
        let mut out: Vec<u8> = Vec::new();
        self.record_store.encode(&mut out);
        self.pacemaker.encode(&mut out);
        crate::codec::encode_usize(&mut out, self.epoch_id.0);
        crate::codec::encode_usize(&mut out, self.latest_voted_round.0);
        crate::codec::encode_usize(&mut out, self.locked_round.0);
        crate::codec::encode_i64(&mut out, self.latest_query_all_time.0);
        crate::codec::encode_usize(&mut out, self.tracker.epoch_id.0);
        crate::codec::encode_usize(&mut out, self.tracker.highest_committed_round.0);
        crate::codec::encode_i64(&mut out, self.tracker.latest_commit_time.0);
        crate::codec::encode_i64(&mut out, self.tracker.target_commit_interval.0);
        let n = self.past_record_stores.len();
        crate::codec::encode_usize(&mut out, n);
        let mut i: usize = 0;
        while i < n
            invariant
                i <= n,
                n == self.spec_past_record_stores().len(),
            decreases n - i,
        {
            let e = self.past_record_stores.entry_at(i);
            crate::codec::encode_u64(&mut out, e.0);
            e.1.encode(&mut out);
            i = i + 1;
        }
        out
    }

    /// Restore a node state saved by `save_node`. Loading refuses to resume
    /// when the caller's clock is strictly behind any of the recorded
    /// monotonic times, so a replica cannot vote twice after a clock
    /// rollback.
    pub fn load_node(bytes: &Vec<u8>, node_time: NodeTime) -> (r: Result<NodeState, NodeLoadError>)
        ensures
            match r {
                Ok(n) => {
                    &&& node_time.0 >= n.spec_latest_query_all_time().0
                    &&& node_time.0 >= n.spec_tracker().spec_latest_commit_time().0
                    &&& node_time.0 >= n.spec_pacemaker().spec_active_round_start_time().0
                },
                Err(_) => true,
            },
    {
        let (record_store, p) = match RecordStoreState::decode(bytes, 0) {
            Some(x) => x,
            None => {
                return Err(NodeLoadError::Malformed);
            },
        };
        let (pacemaker, p) = match PacemakerState::decode(bytes, p) {
            Some(x) => x,
            None => {
                return Err(NodeLoadError::Malformed);
            },
        };
        let (epoch, p) = match crate::codec::decode_usize(bytes, p) {
            Some(x) => x,
            None => {
                return Err(NodeLoadError::Malformed);
            },
        };
        let (lvr, p) = match crate::codec::decode_usize(bytes, p) {
            Some(x) => x,
            None => {
                return Err(NodeLoadError::Malformed);
            },
        };
        let (lr, p) = match crate::codec::decode_usize(bytes, p) {
            Some(x) => x,
            None => {
                return Err(NodeLoadError::Malformed);
            },
        };
        let (lqat, p) = match crate::codec::decode_i64(bytes, p) {
            Some(x) => x,
            None => {
                return Err(NodeLoadError::Malformed);
            },
        };
        let (te, p) = match crate::codec::decode_usize(bytes, p) {
            Some(x) => x,
            None => {
                return Err(NodeLoadError::Malformed);
            },
        };
        let (thr, p) = match crate::codec::decode_usize(bytes, p) {
            Some(x) => x,
            None => {
                return Err(NodeLoadError::Malformed);
            },
        };
        let (tlct, p) = match crate::codec::decode_i64(bytes, p) {
            Some(x) => x,
            None => {
                return Err(NodeLoadError::Malformed);
            },
        };
        let (tint, p) = match crate::codec::decode_i64(bytes, p) {
            Some(x) => x,
            None => {
                return Err(NodeLoadError::Malformed);
            },
        };
        let (n, mut p2) = match crate::codec::decode_usize(bytes, p) {
            Some(x) => x,
            None => {
                return Err(NodeLoadError::Malformed);
            },
        };
        let mut past_record_stores: KeyedVec<RecordStoreState> = KeyedVec::new();
        let mut i: usize = 0;
        let mut failed = false;
        while i < n
            invariant
                i <= n,
            decreases n - i,
        {
            let (k, q1) = match crate::codec::decode_u64(bytes, p2) {
                Some(x) => x,
                None => {
                    failed = true;
                    i = n;
                    continue ;
                },
            };
            match RecordStoreState::decode(bytes, q1) {
                Some((store, q2)) => {
                    past_record_stores.push_entry(k, store);
                    p2 = q2;
                },
                None => {
                    failed = true;
                    i = n;
                    continue ;
                },
            }
            i = i + 1;
        }
        if failed {
            return Err(NodeLoadError::Malformed);
        }
        let node = NodeState {
            record_store,
            pacemaker,
            epoch_id: EpochId(epoch),
            latest_voted_round: Round(lvr),
            locked_round: Round(lr),
            latest_query_all_time: NodeTime(lqat),
            tracker: CommitTracker {
                epoch_id: EpochId(te),
                highest_committed_round: Round(thr),
                latest_commit_time: NodeTime(tlct),
                target_commit_interval: Duration(tint),
            },
            past_record_stores,
        };
        // Refuse to restore a state from the future.
        let mut previous_time = node.latest_query_all_time;
        previous_time = previous_time.max(node.tracker.latest_commit_time);
        previous_time = previous_time.max(node.pacemaker.active_round_start_time());
        if node_time.0 < previous_time.0 {
            return Err(NodeLoadError::ClockRegression);
        }
        Ok(node)
    }
}

} // verus!
