use librabft_v2::base_types::{Author, EpochId, GlobalTime, NodeTime, Round, Signature};
use librabft_v2::codec::{decode_u64, encode_u64};
use librabft_v2::util::{is_power2_minus1, merge_sort};

#[test]
fn test_round_plus_usize() {
    assert_eq!(Round(3).plus(4), Round(7));
}

#[test]
fn test_signature() {
    let sig = Signature::sign(35, Author(2));
    assert!(sig.check(35, Author(2)).is_ok());
    assert!(sig.check(32, Author(2)).is_err());
    assert!(sig.check(35, Author(1)).is_err());
}

#[test]
fn test_time_conversion() {
    let x = GlobalTime(15);
    let start = GlobalTime(3);
    assert_eq!(x.to_node_time(start), NodeTime(12));
    assert_eq!(GlobalTime::from_node_time(NodeTime(12), start), x);
}

#[test]
fn test_is_power2_minus1() {
    assert!(is_power2_minus1(1));
    assert!(is_power2_minus1(3));
    assert!(is_power2_minus1(7));
    assert!(!is_power2_minus1(8));
    assert!(!is_power2_minus1(2));
}

#[test]
fn test_merge_sort() {
    assert_eq!(vec![0, 2, 5, 6, 9], merge_sort(vec![0, 2, 6, 9], vec![2, 5, 6]));
}

#[test]
fn test_min_with_never_is_identity() {
    let x = NodeTime(42);
    assert_eq!(x.min(NodeTime::never()), x);
    assert_eq!(NodeTime(-5).min(NodeTime::never()), NodeTime(-5));
}

#[test]
fn test_epoch_previous() {
    assert_eq!(EpochId(0).previous(), None);
    assert_eq!(EpochId(3).previous(), Some(EpochId(2)));
}

#[test]
fn test_u64_codec_roundtrip() {
    let mut out: Vec<u8> = Vec::new();
    encode_u64(&mut out, 0x0123456789abcdef);
    encode_u64(&mut out, u64::MAX);
    let (a, p) = decode_u64(&out, 0).unwrap();
    let (b, q) = decode_u64(&out, p).unwrap();
    assert_eq!(a, 0x0123456789abcdef);
    assert_eq!(b, u64::MAX);
    assert_eq!(q, 16);
    assert!(decode_u64(&out, q).is_none());
}
