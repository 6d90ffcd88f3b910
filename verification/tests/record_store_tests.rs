use librabft_v2::base_types::{
    Author, BlockHash, Command, EpochId, NodeTime, QuorumCertificateHash, Round, Signature, State,
};
use librabft_v2::pacemaker::PacemakerState;
use librabft_v2::record::{Block_, QuorumCertificate_, Record, Signable, SignedValue, Vote_};
use librabft_v2::record_store::RecordStoreState;
use librabft_v2::simulated_context::SimulatedContext;
use librabft_v2::smr_context::SmrContext;

struct SharedRecordStore {
    store: RecordStoreState,
    contexts: Vec<SimulatedContext>,
}

impl SharedRecordStore {
    fn new(num_nodes: usize, epoch_ttl: usize) -> Self {
        let epoch_id = EpochId(0);
        let initial_hash = QuorumCertificateHash(0);
        let mut contexts = Vec::new();
        for i in 0..num_nodes {
            contexts.push(SimulatedContext::new(Author(i), num_nodes, epoch_ttl));
        }
        let state = contexts[0].last_committed_state();
        let configuration = contexts[0].configuration(&state);
        SharedRecordStore {
            store: RecordStoreState::new(initial_hash, state, epoch_id, configuration),
            contexts,
        }
    }

    fn create_timeout(&mut self, author_id: usize, round: Round) {
        self.store.create_timeout(Author(author_id), round, &mut self.contexts[author_id])
    }

    fn propose_block(
        &mut self,
        author_id: usize,
        previous_qc_hash: QuorumCertificateHash,
        clock: NodeTime,
    ) {
        self.store.propose_block(&mut self.contexts[author_id], previous_qc_hash, clock);
    }

    fn create_vote(&mut self, author_id: usize, block_hash: BlockHash) -> bool {
        self.store.create_vote(&mut self.contexts[author_id], block_hash)
    }

    fn check_for_new_quorum_certificate(&mut self) -> bool {
        let author = self.leader(self.store.current_round());
        self.store.check_for_new_quorum_certificate(&mut self.contexts[author.0])
    }

    fn leader(&self, round: Round) -> Author {
        PacemakerState::leader(&self.store, round)
    }

    fn make_round(&mut self, clock: NodeTime) {
        let author = self.leader(self.store.current_round());
        let previous_qc_hash = self.store.highest_quorum_certificate_hash();
        self.store.propose_block(&mut self.contexts[author.0], previous_qc_hash, clock);
        let proposed_hash = self.store.current_proposed_block().unwrap();
        let state = self.store.initial_state();
        let threshold = self.contexts[0].configuration(&state).quorum_threshold();
        for i in 0..threshold {
            assert!(self.create_vote(i, proposed_hash));
        }
        assert!(self.check_for_new_quorum_certificate());
    }

    fn make_tc(&mut self) {
        let state = self.store.initial_state();
        let threshold = self.contexts[0].configuration(&state).quorum_threshold();
        let round = self.store.current_round();
        for i in 0..threshold {
            self.create_timeout(i, round);
        }
    }
}

#[test]
fn test_initial_store() {
    let shared_store = SharedRecordStore::new(2, 20);
    let store = &shared_store.store;
    assert_eq!(store.num_blocks(), 0);
    assert_eq!(store.num_quorum_certificates(), 0);
    assert_eq!(store.highest_quorum_certificate_hash(), QuorumCertificateHash(0));
    assert_eq!(store.highest_quorum_certificate_round(), Round(0));
    assert_eq!(store.highest_timeout_certificate_round(), Round(0));
    assert_eq!(store.highest_committed_round(), Round(0));
    assert_eq!(store.current_round(), Round(1));
    assert_eq!(store.num_current_timeouts(), 0);
}

#[test]
fn test_propose_and_vote_no_qc() {
    let mut shared_store = SharedRecordStore::new(2, 20);
    shared_store.propose_block(0, QuorumCertificateHash(0), NodeTime(1));
    shared_store.propose_block(1, QuorumCertificateHash(0), NodeTime(2));
    let block_hashes = shared_store.store.block_hashes();
    assert!(shared_store.create_vote(0, block_hashes[0]));
    assert!(shared_store.create_vote(0, block_hashes[0]));
    assert!(shared_store.create_vote(1, block_hashes[1]));
    assert!(!shared_store.check_for_new_quorum_certificate());
    // Only one vote per author is counted, hence no certificate.
    let store = &shared_store.store;
    assert_eq!(store.num_blocks(), 2);
    assert_eq!(store.num_quorum_certificates(), 0);
    assert_eq!(store.highest_quorum_certificate_hash(), QuorumCertificateHash(0));
    assert_eq!(store.highest_quorum_certificate_round(), Round(0));
    assert_eq!(store.highest_timeout_certificate_round(), Round(0));
    assert_eq!(store.highest_committed_round(), Round(0));
    assert_eq!(store.current_round(), Round(1));
    assert_eq!(store.num_current_timeouts(), 0);
}

#[test]
fn test_vote_with_quorum() {
    let mut shared_store = SharedRecordStore::new(2, 20);
    shared_store.propose_block(0, QuorumCertificateHash(0), NodeTime(1));
    shared_store.propose_block(1, QuorumCertificateHash(0), NodeTime(2));
    let proposed_hash = shared_store.store.current_proposed_block().unwrap();
    assert!(shared_store.create_vote(0, proposed_hash));
    assert!(shared_store.create_vote(1, proposed_hash));
    assert!(shared_store.check_for_new_quorum_certificate());
    let store = &shared_store.store;
    assert_eq!(store.num_blocks(), 2);
    assert_eq!(store.num_quorum_certificates(), 1);
    assert_eq!(store.highest_quorum_certificate_round(), Round(1));
    assert_eq!(store.highest_timeout_certificate_round(), Round(0));
    assert_eq!(store.highest_committed_round(), Round(0));
    assert_eq!(store.current_round(), Round(2));
    assert_eq!(store.num_current_timeouts(), 0);
}

#[test]
fn test_timeouts_no_tc() {
    let mut shared_store = SharedRecordStore::new(2, 20);
    shared_store.propose_block(1, QuorumCertificateHash(0), NodeTime(2));
    shared_store.create_timeout(0, Round(1));
    shared_store.create_timeout(0, Round(1));
    shared_store.create_timeout(1, Round(0));
    // Only one timeout per author at the current round is counted, hence no
    // timeout certificate.
    let store = &shared_store.store;
    assert_eq!(store.num_blocks(), 1);
    assert_eq!(store.num_quorum_certificates(), 0);
    assert_eq!(store.highest_quorum_certificate_hash(), QuorumCertificateHash(0));
    assert_eq!(store.highest_quorum_certificate_round(), Round(0));
    assert_eq!(store.highest_timeout_certificate_round(), Round(0));
    assert_eq!(store.highest_committed_round(), Round(0));
    assert_eq!(store.current_round(), Round(1));
    assert_eq!(store.num_current_timeouts(), 1);
}

#[test]
fn test_timeouts_with_tc() {
    let mut shared_store = SharedRecordStore::new(2, 20);
    shared_store.propose_block(1, QuorumCertificateHash(0), NodeTime(2));
    shared_store.create_timeout(1, Round(0)); // should be ignored
    shared_store.create_timeout(0, Round(1));
    shared_store.create_timeout(1, Round(1)); // complete TC
    shared_store.create_timeout(1, Round(2)); // single timeout
    {
        let store = &shared_store.store;
        assert_eq!(store.num_blocks(), 1);
        assert_eq!(store.num_quorum_certificates(), 0);
        assert_eq!(store.highest_quorum_certificate_hash(), QuorumCertificateHash(0));
        assert_eq!(store.highest_quorum_certificate_round(), Round(0));
        assert_eq!(store.highest_timeout_certificate_round(), Round(1));
        assert_eq!(store.highest_committed_round(), Round(0));
        assert_eq!(store.current_round(), Round(2));
        assert_eq!(store.num_current_timeouts(), 1);
    }
    shared_store.create_timeout(0, Round(2)); // complete TC
    let store = &shared_store.store;
    assert_eq!(store.num_blocks(), 1);
    assert_eq!(store.highest_timeout_certificate_round(), Round(2));
    assert_eq!(store.current_round(), Round(3));
    assert_eq!(store.num_current_timeouts(), 0);
}

#[test]
fn test_non_contiguous_qcs() {
    let mut shared_store = SharedRecordStore::new(2, 20);
    shared_store.make_round(NodeTime(10));
    shared_store.make_round(NodeTime(20));
    shared_store.make_tc();
    shared_store.make_round(NodeTime(40));
    let store = &shared_store.store;
    assert_eq!(store.num_blocks(), 3);
    assert_eq!(store.num_quorum_certificates(), 3);
    assert_eq!(store.highest_quorum_certificate_round(), Round(4));
    assert_eq!(store.highest_timeout_certificate_round(), Round(3));
    assert_eq!(store.highest_committed_round(), Round(0));
    assert_eq!(store.current_round(), Round(5));
    assert_eq!(store.num_current_timeouts(), 0);
}

#[test]
fn test_commit() {
    let mut shared_store = SharedRecordStore::new(2, 20);
    shared_store.make_round(NodeTime(10));
    shared_store.make_tc();
    shared_store.make_round(NodeTime(30));
    shared_store.make_round(NodeTime(40));
    shared_store.make_round(NodeTime(50));
    shared_store.make_tc();
    let store = &shared_store.store;
    assert_eq!(store.num_blocks(), 4);
    assert_eq!(store.num_quorum_certificates(), 4);
    assert_eq!(store.highest_quorum_certificate_round(), Round(5));
    assert_eq!(store.highest_timeout_certificate_round(), Round(6));
    assert_eq!(store.highest_committed_round(), Round(3));
    assert_eq!(store.current_round(), Round(7));
    assert_eq!(store.num_current_timeouts(), 0);

    assert_eq!(store.highest_commit_certificate().unwrap().value.round, Round(5));
    assert_eq!(
        store.previous_round(store.highest_commit_certificate().unwrap().value.certified_block_hash),
        Round(4)
    );
    assert_eq!(
        store.second_previous_round(
            store.highest_commit_certificate().unwrap().value.certified_block_hash
        ),
        Round(3)
    );

    let commits = store.committed_states_after(Round(0));
    assert_eq!(commits.len(), 2);
    assert_eq!(commits[0].0, Round(1));
    assert_eq!(commits[1].0, Round(3));
    assert_eq!(
        Some(&commits[1].1),
        store.highest_commit_certificate().unwrap().value.committed_state.as_ref()
    );
}

#[test]
fn test_insert_same_block_twice_is_noop() {
    let mut shared_store = SharedRecordStore::new(2, 20);
    let block = SignedValue::make(
        &mut shared_store.contexts[0],
        Block_ {
            command: Command { proposer: Author(0), index: 0 },
            time: NodeTime(1),
            previous_quorum_certificate_hash: QuorumCertificateHash(0),
            round: Round(1),
            author: Author(0),
        },
    );
    let mut ctx = SimulatedContext::new(Author(0), 2, 20);
    shared_store.store.insert_network_record(Record::Block(block), &mut ctx);
    assert_eq!(shared_store.store.num_blocks(), 1);
    // Inserting the identical record again hits the duplicate check.
    shared_store.store.insert_network_record(Record::Block(block), &mut ctx);
    assert_eq!(shared_store.store.num_blocks(), 1);
}

#[test]
fn test_unreproducible_certificate_is_dropped() {
    let mut shared_store = SharedRecordStore::new(2, 20);
    shared_store.propose_block(0, QuorumCertificateHash(0), NodeTime(1));
    let block_hash = shared_store.store.block_hashes()[0];
    // A certificate over a state nobody computed, with formally valid
    // signatures, reaches the execution check and is dropped there.
    let bogus_state = State(999);
    let mut votes = Vec::new();
    for author_id in 0..2 {
        let vote = Vote_ {
            epoch_id: EpochId(0),
            round: Round(1),
            certified_block_hash: block_hash,
            state: bogus_state,
            committed_state: None,
            author: Author(author_id),
        };
        let digest = shared_store.contexts[0].hash(&vote.to_bytes());
        votes.push((Author(author_id), Signature(author_id, digest)));
    }
    let value = QuorumCertificate_ {
        epoch_id: EpochId(0),
        round: Round(1),
        certified_block_hash: block_hash,
        state: bogus_state,
        committed_state: None,
        votes,
        author: Author(0),
    };
    let digest = shared_store.contexts[0].hash(&value.to_bytes());
    let qc = SignedValue { value, signature: Signature(0, digest) };
    let mut ctx = SimulatedContext::new(Author(0), 2, 20);
    shared_store.store.insert_network_record(Record::QuorumCertificate(qc), &mut ctx);
    assert_eq!(shared_store.store.num_quorum_certificates(), 0);
    assert_eq!(shared_store.store.current_round(), Round(1));
}

#[test]
fn test_unknown_parent_block_is_dropped() {
    let mut shared_store = SharedRecordStore::new(2, 20);
    shared_store.propose_block(0, QuorumCertificateHash(123456), NodeTime(1));
    assert_eq!(shared_store.store.num_blocks(), 0);
}

#[test]
fn test_round_duration_formula() {
    let shared_store = SharedRecordStore::new(2, 20);
    let pacemaker = PacemakerState::new(
        EpochId(0),
        NodeTime(0),
        librabft_v2::base_types::Duration(5000),
        2,
        1,
        2,
    );
    // No commit yet: duration(2) = 5000 * 2^2.
    assert_eq!(
        pacemaker.duration(&shared_store.store, Round(2)),
        librabft_v2::base_types::Duration(20000)
    );
    assert_eq!(
        pacemaker.duration(&shared_store.store, Round(3)),
        librabft_v2::base_types::Duration(45000)
    );
}

#[test]
fn test_pacemaker_encode_decode_roundtrip() {
    let pacemaker = PacemakerState::new(
        EpochId(3),
        NodeTime(17),
        librabft_v2::base_types::Duration(5000),
        2,
        1,
        2,
    );
    let mut bytes: Vec<u8> = Vec::new();
    pacemaker.encode(&mut bytes);
    assert_eq!(bytes.len(), 72);
    let (restored, next) = PacemakerState::decode(&bytes, 0).expect("decodes");
    assert_eq!(next, 72);
    assert_eq!(restored.active_epoch(), EpochId(3));
    assert_eq!(restored.active_round(), Round(0));
    assert!(restored.active_leader().is_none());
    assert_eq!(restored.active_round_start_time(), NodeTime(17));
}
