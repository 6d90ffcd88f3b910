use librabft_v2::base_types::{
    Author, BlockHash, Command, EpochId, NodeTime, QuorumCertificateHash, Round,
};
use librabft_v2::node::{NodeConfig, NodeLoadError, NodeState};
use librabft_v2::record::{Block_, QuorumCertificate_, Record, Signable, SignedValue, Vote_};
use librabft_v2::simulated_context::SimulatedContext;
use librabft_v2::smr_context::SmrContext;

#[test]
fn test_node() {
    let mut context = SimulatedContext::new(
        Author(0),
        /* num_nodes */ 1,
        /* max commands per epoch */ 2,
    );
    let node0 = NodeState::make_initial_state(&context, NodeConfig::default(), NodeTime(0));
    let saved = node0.save_node();

    let mut node1 = NodeState::load_node(&saved, NodeTime(0)).unwrap();
    assert_eq!(node0.save_node(), node1.save_node());
    assert_eq!(node0.epoch_id(), node1.epoch_id());
    assert_eq!(node0.latest_voted_round(), node1.latest_voted_round());
    assert_eq!(node0.locked_round(), node1.locked_round());

    let epoch_id = EpochId(0);
    let initial_hash = QuorumCertificateHash(context.hash(&epoch_id.to_bytes()));
    let initial_state = context.last_committed_state();

    // Make a block and a certificate on top of the genesis hash.
    let cmd = context.fetch().unwrap();
    let b0 = SignedValue::make(
        &mut context,
        Block_ {
            command: cmd,
            time: NodeTime(1),
            previous_quorum_certificate_hash: initial_hash,
            round: Round(1),
            author: Author(0),
        },
    );

    let block_hash = BlockHash(context.hash(&b0.value.to_bytes()));

    let state = context.compute(&initial_state, cmd, NodeTime(1), None, Vec::new()).unwrap();

    let v0 = SignedValue::make(
        &mut context,
        Vote_ {
            epoch_id,
            round: Round(1),
            certified_block_hash: block_hash,
            state,
            author: Author(0),
            committed_state: None,
        },
    );
    let qc0 = SignedValue::make(
        &mut context,
        QuorumCertificate_ {
            epoch_id,
            round: Round(1),
            certified_block_hash: block_hash,
            state,
            votes: vec![(Author(0), v0.signature)],
            committed_state: None,
            author: Author(0),
        },
    );
    let qc_hash = QuorumCertificateHash(context.hash(&qc0.value.to_bytes()));

    node1.insert_network_record(epoch_id, Record::Block(b0), &mut context);
    node1.insert_network_record(epoch_id, Record::QuorumCertificate(qc0), &mut context);
    assert_eq!(node1.record_store().highest_quorum_certificate_hash(), qc_hash);
}

#[test]
fn test_load_refuses_clock_regression() {
    let context = SimulatedContext::new(Author(0), 1, 2);
    let node = NodeState::make_initial_state(&context, NodeConfig::default(), NodeTime(10));
    let saved = node.save_node();
    assert_eq!(NodeState::load_node(&saved, NodeTime(9)).err(), Some(NodeLoadError::ClockRegression));
    assert!(NodeState::load_node(&saved, NodeTime(10)).is_ok());
    assert!(NodeState::load_node(&saved, NodeTime(11)).is_ok());
    assert_eq!(
        NodeState::load_node(&vec![1, 2, 3], NodeTime(11)).err(),
        Some(NodeLoadError::Malformed)
    );
}

#[test]
fn test_single_replica_commits() {
    // One replica with all the voting weight proposes, votes, certifies and
    // commits through the 3-chain on its own.
    let mut context = SimulatedContext::new(Author(0), 1, 1000);
    let mut node = NodeState::make_initial_state(&context, NodeConfig::default(), NodeTime(0));
    for step in 0..20 {
        let _ = node.update_node(&mut context, NodeTime(step));
    }
    assert!(node.record_store().highest_committed_round().0 >= 1);
    assert!(!context.committed_history().is_empty());
    // The committed commands are this replica's own, in fetch order.
    for (i, (command, _)) in context.committed_history().iter().enumerate() {
        assert_eq!(*command, Command { proposer: Author(0), index: i });
    }
}

#[test]
fn test_voting_rounds_monotone() {
    let mut context = SimulatedContext::new(Author(0), 1, 1000);
    let mut node = NodeState::make_initial_state(&context, NodeConfig::default(), NodeTime(0));
    let mut last_voted = node.latest_voted_round();
    let mut locked = node.locked_round();
    let mut committed = node.record_store().highest_committed_round();
    let mut current = node.record_store().current_round();
    for step in 0..20 {
        let _ = node.update_node(&mut context, NodeTime(step));
        assert!(node.latest_voted_round().0 >= last_voted.0);
        assert!(node.locked_round().0 >= locked.0);
        assert!(node.record_store().highest_committed_round().0 >= committed.0);
        assert!(node.record_store().current_round().0 >= current.0);
        last_voted = node.latest_voted_round();
        locked = node.locked_round();
        committed = node.record_store().highest_committed_round();
        current = node.record_store().current_round();
    }
}
