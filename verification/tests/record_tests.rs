use librabft_v2::base_types::{
    Author, BlockHash, Command, EpochId, NodeTime, QuorumCertificateHash, Round, Signature, State,
};
use librabft_v2::record::{
    decode_record, encode_record, Block_, QuorumCertificate_, Record, Signable, SignedValue,
    Timeout_, Vote_,
};
use librabft_v2::simulated_context::SimulatedContext;
use librabft_v2::smr_context::SmrContext;

#[test]
fn test_block_signing() {
    let mut context = SimulatedContext::new(Author(2), /* not used */ 0, /* not used */ 0);
    let b = SignedValue::make(
        &mut context,
        Block_ {
            command: Command { proposer: Author(1), index: 2 },
            time: NodeTime(2),
            previous_quorum_certificate_hash: QuorumCertificateHash(47),
            round: Round(3),
            author: Author(2),
        },
    );
    assert!(b.verify(&context).is_ok());
    assert!(context.verify(Author(1), context.hash(&b.value.to_bytes()), b.signature).is_err());

    let b2 = SignedValue::make(
        &mut context,
        Block_ {
            command: Command { proposer: Author(3), index: 2 },
            time: NodeTime(2),
            previous_quorum_certificate_hash: QuorumCertificateHash(47),
            round: Round(3),
            author: Author(2),
        },
    );
    assert!(b2.verify(&context).is_ok());
    assert!(context.verify(Author(2), context.hash(&b.value.to_bytes()), b2.signature).is_err());
}

#[test]
fn record_tests_test_block_signing() {
    let mut context = SimulatedContext::new(Author(2), 0, 0);
    let b = SignedValue::make(
        &mut context,
        Block_ {
            command: Command { proposer: Author(1), index: 2 },
            time: NodeTime(2),
            previous_quorum_certificate_hash: QuorumCertificateHash(47),
            round: Round(3),
            author: Author(2),
        },
    );
    assert!(b.verify(&context).is_ok());
    let digest = context.hash(&b.value.to_bytes());
    assert!(context.verify(Author(2), digest, b.signature).is_ok());
    assert!(context.verify(Author(1), digest, b.signature).is_err());
}

#[test]
fn test_record_codec_roundtrip() {
    let block = Record::Block(SignedValue {
        value: Block_ {
            command: Command { proposer: Author(1), index: 2 },
            time: NodeTime(-7),
            previous_quorum_certificate_hash: QuorumCertificateHash(47),
            round: Round(3),
            author: Author(2),
        },
        signature: Signature(2, 99),
    });
    let vote = Record::Vote(SignedValue {
        value: Vote_ {
            epoch_id: EpochId(1),
            round: Round(4),
            certified_block_hash: BlockHash(12),
            state: State(34),
            committed_state: Some(State(56)),
            author: Author(0),
        },
        signature: Signature(0, 1),
    });
    let qc = Record::QuorumCertificate(SignedValue {
        value: QuorumCertificate_ {
            epoch_id: EpochId(1),
            round: Round(4),
            certified_block_hash: BlockHash(12),
            state: State(34),
            committed_state: None,
            votes: vec![(Author(0), Signature(0, 1)), (Author(1), Signature(1, 1))],
            author: Author(0),
        },
        signature: Signature(0, 77),
    });
    let timeout = Record::Timeout(SignedValue {
        value: Timeout_ {
            epoch_id: EpochId(0),
            round: Round(9),
            highest_certified_block_round: Round(8),
            author: Author(3),
        },
        signature: Signature(3, 5),
    });
    for record in [block, vote, qc, timeout] {
        let mut bytes: Vec<u8> = Vec::new();
        encode_record(&mut bytes, &record);
        let (decoded, next) = decode_record(&bytes, 0).unwrap();
        assert_eq!(decoded, record);
        assert_eq!(next, bytes.len());
    }
}

#[test]
fn test_record_codec_preserves_digest() {
    let context = SimulatedContext::new(Author(0), 1, 2);
    let value = Vote_ {
        epoch_id: EpochId(1),
        round: Round(4),
        certified_block_hash: BlockHash(12),
        state: State(34),
        committed_state: None,
        author: Author(0),
    };
    let record = Record::Vote(SignedValue { value, signature: Signature(0, 1) });
    let mut bytes: Vec<u8> = Vec::new();
    encode_record(&mut bytes, &record);
    let (decoded, _) = decode_record(&bytes, 0).unwrap();
    match (&record, &decoded) {
        (Record::Vote(a), Record::Vote(b)) => {
            assert_eq!(
                context.hash(&a.value.to_bytes()),
                context.hash(&b.value.to_bytes())
            );
        }
        _ => panic!("decoded record changed kind"),
    }
}
