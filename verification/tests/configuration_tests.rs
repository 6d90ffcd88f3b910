use librabft_v2::base_types::Author;
use librabft_v2::configuration::EpochConfiguration;

#[test]
fn test_count() {
    let rights = vec![(Author(0), 1), (Author(1), 2), (Author(2), 3)];
    let config = EpochConfiguration::new(rights);
    assert_eq!(config.total_votes(), 6);

    assert_eq!(config.count_votes(&vec![Author(1)]), 2);
    assert_eq!(config.count_votes(&vec![Author(4)]), 0);
}

#[test]
fn test_pick_author() {
    let rights = vec![(Author(0), 1), (Author(1), 2), (Author(2), 5)];
    let config = EpochConfiguration::new(rights);

    let mut hits = [0usize; 3];
    for seed in 20..(20 + config.total_votes()) {
        let author = config.pick_author(seed as u64);
        hits[author.0] += 1;
    }
    let mut results: Vec<usize> = hits.to_vec();
    results.sort_unstable();
    assert_eq!(vec![1, 2, 5], results);
}

fn equal_configuration(num_nodes: usize) -> EpochConfiguration {
    let mut voting_rights = Vec::new();
    for index in 0..num_nodes {
        voting_rights.push((Author(index), 1));
    }
    EpochConfiguration::new(voting_rights)
}

#[test]
fn test_quorum() {
    assert_eq!(equal_configuration(1).quorum_threshold(), 1);
    assert_eq!(equal_configuration(2).quorum_threshold(), 2);
    assert_eq!(equal_configuration(3).quorum_threshold(), 3);
    assert_eq!(equal_configuration(4).quorum_threshold(), 3);
    assert_eq!(equal_configuration(5).quorum_threshold(), 4);
    assert_eq!(equal_configuration(6).quorum_threshold(), 5);
}

#[test]
fn test_validity() {
    assert_eq!(equal_configuration(1).validity_threshold(), 1);
    assert_eq!(equal_configuration(3).validity_threshold(), 1);
    assert_eq!(equal_configuration(4).validity_threshold(), 2);
    assert_eq!(equal_configuration(7).validity_threshold(), 3);
}

#[test]
fn test_pick_author_deterministic() {
    let config = equal_configuration(4);
    for seed in 0..32u64 {
        let a = config.pick_author(seed);
        let b = config.pick_author(seed);
        assert_eq!(a, b);
        assert!(a.0 < 4);
    }
}
