use librabft_v2::base_types::{Author, EpochId, NodeTime, QuorumCertificateHash, Round};
use librabft_v2::data_sync::{DataSyncNotification, DataSyncRequest, DataSyncResponse};
use librabft_v2::node::{NodeConfig, NodeState};
use librabft_v2::record::{Block_, Signable, SignedValue};
use librabft_v2::simulated_context::SimulatedContext;
use librabft_v2::smr_context::SmrContext;

#[test]
fn test_serde_notification() {
    let data = DataSyncNotification {
        current_epoch: EpochId(0),
        highest_commit_certificate: None,
        highest_quorum_certificate: None,
        timeouts: Vec::new(),
        current_vote: None,
        proposed_block: None,
    };
    let message = data.encode();
    let data2 = DataSyncNotification::decode(&message).unwrap();
    assert_eq!(data2, data);
}

#[test]
fn test_serde_request() {
    let data = DataSyncRequest {
        current_epoch: EpochId(0),
        known_quorum_certificates: Vec::new(),
    };
    let message = data.encode();
    let data2 = DataSyncRequest::decode(&message).unwrap();
    assert_eq!(data2, data);
}

#[test]
fn test_serde_response() {
    let data = DataSyncResponse { current_epoch: EpochId(0), records: Vec::new() };
    let message = data.encode();
    let data2 = DataSyncResponse::decode(&message).unwrap();
    assert_eq!(data2, data);
}

#[test]
fn test_notification_round_trip_with_content() {
    // Drive one replica to produce a block and a vote, then check that its
    // notification survives the wire.
    let mut context = SimulatedContext::new(Author(0), 1, 100);
    let mut node = NodeState::make_initial_state(&context, NodeConfig::default(), NodeTime(0));
    let _ = node.update_node(&mut context, NodeTime(0));
    let notification = node.create_notification(&context);
    let message = notification.encode();
    let notification2 = DataSyncNotification::decode(&message).unwrap();
    assert_eq!(notification2, notification);
}

#[test]
fn test_response_with_known_records_changes_nothing() {
    // A single replica makes progress, then receives a response holding a
    // record it already stores: the store stays bit-identical.
    let mut context = SimulatedContext::new(Author(0), 1, 100);
    let mut node = NodeState::make_initial_state(&context, NodeConfig::default(), NodeTime(0));
    let _ = node.update_node(&mut context, NodeTime(0));
    let request = DataSyncRequest {
        current_epoch: EpochId(0),
        known_quorum_certificates: Vec::new(),
    };
    let response = node.handle_request(&request);
    let before = node.save_node();
    node.handle_response(&mut context, response, NodeTime(1));
    let after = node.save_node();
    assert_eq!(before, after);
}

#[test]
fn test_catch_up_from_response() {
    // A replica that made progress answers the request of a fresh one; the
    // fresh replica absorbs the response and reaches the same round.
    let mut context0 = SimulatedContext::new(Author(0), 1, 1000);
    let mut leader = NodeState::make_initial_state(&context0, NodeConfig::default(), NodeTime(0));
    for step in 0..12 {
        let _ = leader.update_node(&mut context0, NodeTime(step));
    }
    assert!(leader.record_store().highest_quorum_certificate_round().0 > 1);

    let mut context1 = SimulatedContext::new(Author(0), 1, 1000);
    let mut lagging = NodeState::make_initial_state(&context1, NodeConfig::default(), NodeTime(0));
    let request = lagging.create_request();
    assert_eq!(request.current_epoch, EpochId(0));
    let response = leader.handle_request(&request);
    lagging.handle_response(&mut context1, response, NodeTime(1));
    assert_eq!(
        lagging.record_store().highest_quorum_certificate_round(),
        leader.record_store().highest_quorum_certificate_round()
    );
    assert_eq!(
        lagging.record_store().current_round(),
        leader.record_store().current_round()
    );
    assert_eq!(
        lagging.record_store().highest_quorum_certificate_hash(),
        leader.record_store().highest_quorum_certificate_hash()
    );
}

#[test]
fn test_genesis_values() {
    let context = SimulatedContext::new(Author(0), 4, 100);
    let node = NodeState::make_initial_state(&context, NodeConfig::default(), NodeTime(0));
    assert_eq!(node.record_store().current_round(), Round(1));
    let genesis = QuorumCertificateHash(context.hash(&EpochId(0).to_bytes()));
    assert_eq!(node.record_store().initial_hash(), genesis);
    assert_eq!(node.record_store().highest_quorum_certificate_hash(), genesis);
}

#[test]
fn test_notification_delivers_proposed_block() {
    // A notification carrying a block that verifies against the receiving
    // store gets that block inserted.
    let mut context = SimulatedContext::new(Author(0), 1, 1000);
    let mut fresh = NodeState::make_initial_state(&context, NodeConfig::default(), NodeTime(0));
    let genesis = QuorumCertificateHash(context.hash(&EpochId(0).to_bytes()));
    let cmd = context.fetch().unwrap();
    let block = SignedValue::make(
        &mut context,
        Block_ {
            command: cmd,
            time: NodeTime(1),
            previous_quorum_certificate_hash: genesis,
            round: Round(1),
            author: Author(0),
        },
    );
    let notification = DataSyncNotification {
        current_epoch: EpochId(0),
        highest_commit_certificate: None,
        highest_quorum_certificate: None,
        timeouts: Vec::new(),
        current_vote: None,
        proposed_block: Some(block),
    };
    assert_eq!(fresh.record_store().num_blocks(), 0);
    let _ = fresh.handle_notification(&mut context, notification);
    assert_eq!(fresh.record_store().num_blocks(), 1);
}
