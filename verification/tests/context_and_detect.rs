use std::str::FromStr;

use squab::context::Context;
use squab::detect::{
    detect_specification, resolve_strand_specification, LibraryLayout, StrandSpecification,
    StrandSpecificationOption,
};
use squab::features::{Feature, FeatureIndex};
use squab::record::{Flags, Record, Strand};
use squab::writer::QuantificationMethod;

fn context(counts: Vec<u64>, no_feature: u64, ambiguous: u64, total: u64) -> Context {
    Context {
        counts,
        no_feature,
        ambiguous,
        low_quality: 0,
        secondary: 0,
        supplementary: 0,
        nonunique: 0,
        total,
    }
}

fn fields(ctx: &Context) -> (Vec<u64>, u64, u64, u64, u64, u64, u64, u64) {
    (
        ctx.counts.clone(),
        ctx.no_feature,
        ctx.ambiguous,
        ctx.low_quality,
        ctx.secondary,
        ctx.supplementary,
        ctx.nonunique,
        ctx.total,
    )
}

#[test]
fn test_merge_sums_field_wise() {
    let mut a = context(vec![1, 2], 3, 1, 7);
    let b = context(vec![4, 0], 1, 0, 5);

    a.add(&b);

    assert_eq!(a.counts, vec![5, 2]);
    assert_eq!(a.no_feature, 4);
    assert_eq!(a.ambiguous, 1);
    assert_eq!(a.total, 12);
}

#[test]
fn test_merge_is_commutative_and_associative() {
    let make = || {
        (
            context(vec![1, 2], 3, 1, 7),
            context(vec![4, 0], 1, 0, 5),
            context(vec![0, 9], 0, 2, 11),
        )
    };

    // merge(merge(a, b), c)
    let (mut a, b, c) = make();
    a.add(&b);
    a.add(&c);
    let left = fields(&a);

    // merge(a, merge(b, c))
    let (a2, mut b2, c2) = make();
    b2.add(&c2);
    b2.add(&a2);
    let right = fields(&b2);

    // merge(b, merge(a, c))
    let (a3, b3, mut c3) = make();
    c3.add(&a3);
    c3.add(&b3);
    let other = fields(&c3);

    assert_eq!(left, right);
    assert_eq!(left, other);
}

fn evidence_read(name: &[u8], reverse_complemented: bool) -> Record {
    Record {
        name: name.to_vec(),
        flags: Flags {
            paired: false,
            read_1: false,
            read_2: false,
            secondary: false,
            supplementary: false,
            reverse_complemented,
        },
        reference_sequence_id: Some(0),
        position: Some(100),
        mate_reference_sequence_id: None,
        mate_position: None,
        template_length: 0,
        mapping_quality: 255,
        alignment_span: 10,
        nonunique: false,
    }
}

fn forward_feature_index() -> FeatureIndex {
    FeatureIndex::build(vec![Feature {
        name: b"F1".to_vec(),
        reference_sequence_name: b"chr1".to_vec(),
        start: 1,
        end: 1000,
        strand: Strand::Forward,
    }])
    .unwrap()
}

#[test]
fn test_nine_of_ten_forward_reads_detect_forward_with_confidence_nine_tenths() {
    let index = forward_feature_index();
    let names = vec![b"chr1".to_vec()];

    let mut sample = Vec::new();
    for i in 0..9u8 {
        sample.push(evidence_read(&[b'r', b'0' + i], false));
    }
    sample.push(evidence_read(b"r9", true));

    let (layout, specification, confidence) = detect_specification(&sample, &index, &names);

    assert_eq!(layout, LibraryLayout::SingleEnd);
    assert_eq!(specification, StrandSpecification::Forward);
    assert_eq!(confidence.numerator, 9);
    assert_eq!(confidence.denominator, 10);
}

#[test]
fn test_paired_flag_detects_paired_end_layout() {
    let index = forward_feature_index();
    let names = vec![b"chr1".to_vec()];

    let mut paired = evidence_read(b"r0", false);
    paired.flags.paired = true;
    let sample = vec![paired];

    let (layout, _specification, _confidence) = detect_specification(&sample, &index, &names);
    assert_eq!(layout, LibraryLayout::PairedEnd);
}

#[test]
fn test_no_evidence_detects_unstranded_with_zero_confidence() {
    let index = forward_feature_index();
    let names = vec![b"chr1".to_vec()];
    let sample: Vec<Record> = Vec::new();

    let (layout, specification, confidence) = detect_specification(&sample, &index, &names);

    assert_eq!(layout, LibraryLayout::SingleEnd);
    assert_eq!(specification, StrandSpecification::Unstranded);
    assert_eq!(confidence.numerator, 0);
    assert_eq!(confidence.denominator, 0);
}

#[test]
fn test_tied_evidence_detects_unstranded() {
    let index = forward_feature_index();
    let names = vec![b"chr1".to_vec()];

    let sample = vec![evidence_read(b"r0", false), evidence_read(b"r1", true)];

    let (_layout, specification, confidence) = detect_specification(&sample, &index, &names);

    assert_eq!(specification, StrandSpecification::Unstranded);
    assert_eq!(confidence.numerator, 1);
    assert_eq!(confidence.denominator, 2);
}

#[test]
fn test_explicit_specification_wins_and_mismatch_is_flagged() {
    let (chosen, mismatch) = resolve_strand_specification(
        StrandSpecificationOption::Forward,
        StrandSpecification::Reverse,
    );
    assert_eq!(chosen, StrandSpecification::Forward);
    assert!(mismatch);

    let (chosen, mismatch) = resolve_strand_specification(
        StrandSpecificationOption::Auto,
        StrandSpecification::Reverse,
    );
    assert_eq!(chosen, StrandSpecification::Reverse);
    assert!(!mismatch);

    let (chosen, mismatch) = resolve_strand_specification(
        StrandSpecificationOption::Unstranded,
        StrandSpecification::Unstranded,
    );
    assert_eq!(chosen, StrandSpecification::Unstranded);
    assert!(!mismatch);
}

#[test]
fn test_quantification_method_from_str() {
    assert!(matches!(
        QuantificationMethod::from_str("count"),
        Ok(QuantificationMethod::Count)
    ));
    assert!(QuantificationMethod::from_str("fpkm").is_err());
    assert!(QuantificationMethod::from_str("").is_err());
}
