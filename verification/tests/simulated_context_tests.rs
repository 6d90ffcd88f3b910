use librabft_v2::base_types::{Author, Command, EpochId, NodeTime, Round};
use librabft_v2::hashing::SimulatedHasher;
use librabft_v2::record::{Signable, Timeout_};
use librabft_v2::simulated_context::{SimulatedContext, SimulatedLedgerState};
use librabft_v2::smr_context::SmrContext;

#[test]
fn test_hashing_and_signing() {
    let mut context = SimulatedContext::new(
        Author(0),
        /* num_nodes */ 2,
        /* max commands per epoch */ 2,
    );
    let bytes1 = EpochId(35).to_bytes();
    let other = Timeout_ {
        epoch_id: EpochId(35),
        round: Round(0),
        highest_certified_block_round: Round(0),
        author: Author(0),
    };
    let bytes2 = other.to_bytes();
    let h1 = context.hash(&bytes1);
    let h2 = context.hash(&bytes2);
    assert_ne!(h1, h2);

    let sig1 = context.sign(h1);
    assert!(context.verify(Author(0), h1, sig1).is_ok());
    assert!(context.verify(Author(1), h1, sig1).is_err());
    assert!(context.verify(Author(0), h2, sig1).is_err());

    let mut hasher = SimulatedHasher::default();
    hasher.write(&bytes1);
    let h = hasher.finish();
    assert_eq!(h1, h);
}

#[test]
fn test_happened_before() {
    let mut s1 = SimulatedLedgerState::new();
    let mut s2 = SimulatedLedgerState::new();
    assert!(!s1.happened_just_before(&s2));
    s1.execute(Command { proposer: Author(0), index: 0 }, NodeTime(1));
    assert!(!s1.happened_just_before(&s2));
    assert!(s2.happened_just_before(&s1));
    s1.execute(Command { proposer: Author(1), index: 0 }, NodeTime(1));
    s2.execute(Command { proposer: Author(1), index: 0 }, NodeTime(1));
    assert!(!s2.happened_just_before(&s1));
}

#[test]
fn test_simulated_context() {
    let mut context = SimulatedContext::new(
        Author(0),
        /* num_nodes */ 2,
        /* max commands per epoch */ 2,
    );
    let s0 = context.last_committed_state();
    let c1 = context.fetch().unwrap();
    let c2 = context.fetch().unwrap();
    let c3 = context.fetch().unwrap();

    let s1 = context.compute(&s0, c1, NodeTime(1), None, Vec::new()).unwrap();
    assert_eq!(context.read_epoch_id(&s1), EpochId(0));

    let s2 = context.compute(&s1, c2, NodeTime(4), None, Vec::new()).unwrap();
    assert_eq!(context.read_epoch_id(&s2), EpochId(1));

    let s3 = context.compute(&s0, c3, NodeTime(3), None, Vec::new()).unwrap();
    assert_eq!(context.read_epoch_id(&s3), EpochId(0));

    context.commit(&s1, None);
    context.commit(&s2, None);
    context.discard(&s3);

    assert_eq!(
        *context.committed_history(),
        vec![
            (Command { proposer: Author(0), index: 0 }, NodeTime(1)),
            (Command { proposer: Author(0), index: 1 }, NodeTime(4)),
        ]
    )
}
