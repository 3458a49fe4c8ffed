use squab::record::{Flags, PairPosition, Record};
use squab::record_pairs::{key, mate_key, PairError, RecordKey, RecordPairs};

fn build_record(
    read_1: bool,
    read_2: bool,
    reference_sequence_id: Option<u32>,
    position: Option<u32>,
    mate_reference_sequence_id: Option<u32>,
    mate_position: Option<u32>,
    template_length: i32,
) -> Record {
    Record {
        name: b"r0".to_vec(),
        flags: Flags {
            paired: true,
            read_1,
            read_2,
            secondary: false,
            supplementary: false,
            reverse_complemented: false,
        },
        reference_sequence_id,
        position,
        mate_reference_sequence_id,
        mate_position,
        template_length,
        mapping_quality: 255,
        alignment_span: 4,
        nonunique: false,
    }
}

fn build_record_pair() -> (Record, Record) {
    let r1 = build_record(true, false, Some(0), Some(8), Some(1), Some(13), 144);
    let r2 = build_record(false, true, Some(1), Some(13), Some(0), Some(8), -144);
    (r1, r2)
}

#[test]
fn test_key() {
    let (r1, _) = build_record_pair();

    let actual = key(&r1).unwrap();
    let expected = RecordKey {
        name: b"r0".to_vec(),
        pair_position: PairPosition::First,
        reference_sequence_id: Some(0),
        position: Some(8),
        mate_reference_sequence_id: Some(1),
        mate_position: Some(13),
        template_length: 144,
    };

    assert_eq!(actual, expected);
}

#[test]
fn test_mate_key() {
    let (r1, _) = build_record_pair();

    let actual = mate_key(&r1).unwrap();
    let expected = RecordKey {
        name: b"r0".to_vec(),
        pair_position: PairPosition::Second,
        reference_sequence_id: Some(1),
        position: Some(13),
        mate_reference_sequence_id: Some(0),
        mate_position: Some(8),
        template_length: -144,
    };

    assert_eq!(actual, expected);
}

#[test]
fn test_pairing_in_arrival_order() {
    let (r1, r2) = build_record_pair();
    let mut pairs = RecordPairs::new(true);

    assert!(pairs.add(r1).unwrap().is_none());
    let (a, b) = pairs.add(r2).unwrap().expect("expected a pair");

    assert!(a.flags.read_1);
    assert!(b.flags.read_2);
    assert_eq!(a.position, Some(8));
    assert_eq!(b.position, Some(13));

    let mut singletons = pairs.singletons();
    assert!(singletons.next().is_none());
}

#[test]
fn test_pairing_in_reverse_arrival_order() {
    let (r1, r2) = build_record_pair();
    let mut pairs = RecordPairs::new(true);

    assert!(pairs.add(r2).unwrap().is_none());
    let (a, b) = pairs.add(r1).unwrap().expect("expected a pair");

    assert!(a.flags.read_1);
    assert!(b.flags.read_2);
    assert_eq!(a.position, Some(8));
    assert_eq!(b.position, Some(13));

    let mut singletons = pairs.singletons();
    assert!(singletons.next().is_none());
}

#[test]
fn test_unmatched_record_is_a_singleton() {
    let (r1, _) = build_record_pair();
    let mut pairs = RecordPairs::new(true);

    assert!(pairs.add(r1).unwrap().is_none());

    let mut singletons = pairs.singletons();
    let s = singletons.next().expect("expected a singleton");
    assert_eq!(s.name, b"r0".to_vec());
    assert!(singletons.next().is_none());
}

#[test]
fn test_duplicate_key_is_rejected() {
    let (r1, _) = build_record_pair();
    let (r1_again, _) = build_record_pair();
    let mut pairs = RecordPairs::new(true);

    assert!(pairs.add(r1).unwrap().is_none());
    assert_eq!(pairs.add(r1_again), Err(PairError::DuplicateKey));
}

#[test]
fn test_record_without_pair_position_is_rejected() {
    let r = build_record(false, false, Some(0), Some(8), Some(1), Some(13), 144);
    let mut pairs = RecordPairs::new(true);

    assert_eq!(pairs.add(r), Err(PairError::MissingPairPosition));
}

#[test]
fn test_primary_only_skips_secondary_records() {
    let (mut r1, _) = build_record_pair();
    r1.flags.secondary = true;
    let mut pairs = RecordPairs::new(true);

    assert!(pairs.add(r1).unwrap().is_none());
    assert_eq!(pairs.len(), 0);
}

#[test]
fn test_key_error_without_pair_position() {
    let r = build_record(false, false, Some(0), Some(8), Some(1), Some(13), 144);
    assert_eq!(key(&r), Err(PairError::MissingPairPosition));
    assert_eq!(mate_key(&r), Err(PairError::MissingPairPosition));
}
