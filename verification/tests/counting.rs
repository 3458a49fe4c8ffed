use squab::count::{
    count_pair, count_paired_end_records, count_single_end_record, count_single_end_records,
    CountError, Filter, FilterDecision,
};
use squab::context::Context;
use squab::detect::StrandSpecification;
use squab::features::{BuildError, Feature, FeatureIndex};
use squab::record::{Flags, Record, Strand};

fn feature(name: &[u8], reference: &[u8], start: u64, end: u64, strand: Strand) -> Feature {
    Feature {
        name: name.to_vec(),
        reference_sequence_name: reference.to_vec(),
        start,
        end,
        strand,
    }
}

fn two_features() -> FeatureIndex {
    let features = vec![
        feature(b"F1", b"chr1", 1, 100, Strand::Forward),
        feature(b"F2", b"chr1", 150, 200, Strand::Reverse),
    ];
    FeatureIndex::build(features).unwrap()
}

fn reference_names() -> Vec<Vec<u8>> {
    vec![b"chr1".to_vec()]
}

fn read(
    name: &[u8],
    reference_sequence_id: Option<u32>,
    position: Option<u32>,
    alignment_span: u32,
    reverse_complemented: bool,
) -> Record {
    Record {
        name: name.to_vec(),
        flags: Flags {
            paired: false,
            read_1: false,
            read_2: false,
            secondary: false,
            supplementary: false,
            reverse_complemented,
        },
        reference_sequence_id,
        position,
        mate_reference_sequence_id: None,
        mate_position: None,
        template_length: 0,
        mapping_quality: 255,
        alignment_span,
        nonunique: false,
    }
}

fn permissive_filter() -> Filter {
    Filter::new(0, true, true, false)
}

#[test]
fn test_forward_read_counts_its_feature_under_forward_specification() {
    let index = two_features();
    let names = reference_names();
    // chr1:10-50, forward strand.
    let records = vec![read(b"r1", Some(0), Some(10), 41, false)];

    let ctx = count_single_end_records(
        &records,
        &index,
        &names,
        &permissive_filter(),
        StrandSpecification::Forward,
    )
    .unwrap();

    assert_eq!(ctx.counts, vec![1, 0]);
    assert_eq!(ctx.no_feature, 0);
    assert_eq!(ctx.ambiguous, 0);
    assert_eq!(ctx.total, 1);
}

#[test]
fn test_same_read_is_no_feature_under_reverse_specification() {
    let index = two_features();
    let names = reference_names();
    let records = vec![read(b"r1", Some(0), Some(10), 41, false)];

    let ctx = count_single_end_records(
        &records,
        &index,
        &names,
        &permissive_filter(),
        StrandSpecification::Reverse,
    )
    .unwrap();

    assert_eq!(ctx.counts, vec![0, 0]);
    assert_eq!(ctx.no_feature, 1);
    assert_eq!(ctx.total, 1);
}

#[test]
fn test_read_outside_every_feature_is_no_feature() {
    let index = two_features();
    let names = reference_names();
    // chr1:300-310 lies strictly outside both features.
    let records = vec![read(b"r1", Some(0), Some(300), 11, false)];

    let ctx = count_single_end_records(
        &records,
        &index,
        &names,
        &permissive_filter(),
        StrandSpecification::Unstranded,
    )
    .unwrap();

    assert_eq!(ctx.counts, vec![0, 0]);
    assert_eq!(ctx.no_feature, 1);
    assert_eq!(ctx.total, 1);
}

#[test]
fn test_counters_partition_the_run() {
    let index = two_features();
    let names = reference_names();
    let filter = Filter::new(10, false, true, false);

    let mut secondary = read(b"r1", Some(0), Some(10), 5, false);
    secondary.flags.secondary = true;
    let low_quality = {
        let mut r = read(b"r2", Some(0), Some(10), 5, false);
        r.mapping_quality = 1;
        r
    };
    let unique = read(b"r3", Some(0), Some(10), 5, false);
    // chr1:90-160 overlaps both F1 and F2.
    let ambiguous = read(b"r4", Some(0), Some(90), 71, false);
    let no_feature = read(b"r5", Some(0), Some(300), 5, false);

    let records = vec![secondary, low_quality, unique, ambiguous, no_feature];
    let ctx = count_single_end_records(
        &records,
        &index,
        &names,
        &filter,
        StrandSpecification::Unstranded,
    )
    .unwrap();

    assert_eq!(ctx.total, 5);
    assert_eq!(ctx.secondary, 1);
    assert_eq!(ctx.low_quality, 1);
    assert_eq!(ctx.counts, vec![1, 0]);
    assert_eq!(ctx.ambiguous, 1);
    assert_eq!(ctx.no_feature, 1);
    let buckets = ctx.counts.iter().sum::<u64>()
        + ctx.no_feature
        + ctx.ambiguous
        + ctx.low_quality
        + ctx.secondary
        + ctx.supplementary
        + ctx.nonunique;
    assert_eq!(buckets, ctx.total);
}

#[test]
fn test_nonunique_policy_counts_every_matched_feature() {
    let index = two_features();
    let names = reference_names();
    let filter = Filter::new(0, true, true, true);
    let records = vec![read(b"r1", Some(0), Some(90), 71, false)];

    let ctx = count_single_end_records(
        &records,
        &index,
        &names,
        &filter,
        StrandSpecification::Unstranded,
    )
    .unwrap();

    assert_eq!(ctx.counts, vec![1, 1]);
    assert_eq!(ctx.ambiguous, 0);
    assert_eq!(ctx.total, 1);
}

#[test]
fn test_unmapped_record_is_a_missing_field_error() {
    let index = two_features();
    let names = reference_names();
    let records = vec![read(b"r1", None, None, 5, false)];

    let result = count_single_end_records(
        &records,
        &index,
        &names,
        &permissive_filter(),
        StrandSpecification::Unstranded,
    );

    assert!(matches!(result, Err(CountError::MissingField)));
}

#[test]
fn test_unknown_reference_is_an_error() {
    let index = two_features();
    let names = reference_names();
    let records = vec![read(b"r1", Some(7), Some(10), 5, false)];

    let result = count_single_end_records(
        &records,
        &index,
        &names,
        &permissive_filter(),
        StrandSpecification::Unstranded,
    );

    assert!(matches!(result, Err(CountError::UnknownReferenceSequence)));
}

#[test]
fn test_pair_covering_one_feature_counts_it_once() {
    let index = two_features();
    let names = reference_names();
    let mut r1 = read(b"p0", Some(0), Some(10), 21, false);
    r1.flags.paired = true;
    r1.flags.read_1 = true;
    let mut r2 = read(b"p0", Some(0), Some(40), 21, true);
    r2.flags.paired = true;
    r2.flags.read_2 = true;

    let mut ctx = Context::new(2);
    count_pair(
        &mut ctx,
        &r1,
        &r2,
        &index,
        &names,
        &permissive_filter(),
        StrandSpecification::Unstranded,
    )
    .unwrap();

    assert_eq!(ctx.counts, vec![1, 0]);
    assert_eq!(ctx.total, 1);
}

#[test]
fn test_paired_end_stream_counts_pairs_and_keeps_singletons() {
    let index = two_features();
    let names = reference_names();

    let mut r1 = read(b"p0", Some(0), Some(10), 21, false);
    r1.flags.paired = true;
    r1.flags.read_1 = true;
    r1.mate_reference_sequence_id = Some(0);
    r1.mate_position = Some(40);
    r1.template_length = 51;
    let mut r2 = read(b"p0", Some(0), Some(40), 21, true);
    r2.flags.paired = true;
    r2.flags.read_2 = true;
    r2.mate_reference_sequence_id = Some(0);
    r2.mate_position = Some(10);
    r2.template_length = -51;
    let mut lone = read(b"p1", Some(0), Some(160), 11, false);
    lone.flags.paired = true;
    lone.flags.read_1 = true;

    let (ctx, mut pairs) = count_paired_end_records(
        vec![r1, r2, lone],
        &index,
        &names,
        &permissive_filter(),
        StrandSpecification::Unstranded,
        true,
    )
    .unwrap();

    assert_eq!(ctx.counts, vec![1, 0]);
    assert_eq!(ctx.total, 1);
    assert_eq!(pairs.len(), 1);
    let mut singletons = pairs.singletons();
    let s = singletons.next().expect("expected a singleton");
    assert_eq!(s.name, b"p1".to_vec());
}

#[test]
fn test_paired_end_stream_rejects_records_without_a_pair_position() {
    let index = two_features();
    let names = reference_names();
    let mut r = read(b"p0", Some(0), Some(10), 21, false);
    r.flags.paired = true;

    let result = count_paired_end_records(
        vec![r],
        &index,
        &names,
        &permissive_filter(),
        StrandSpecification::Unstranded,
        true,
    );

    assert!(matches!(result, Err(CountError::MissingPairPosition)));
}

#[test]
fn test_filter_decisions() {
    let filter = Filter::new(10, false, false, false);

    let keep = read(b"r1", Some(0), Some(10), 5, false);
    assert_eq!(filter.decide(&keep), FilterDecision::Keep);

    let mut secondary = read(b"r2", Some(0), Some(10), 5, false);
    secondary.flags.secondary = true;
    assert_eq!(filter.decide(&secondary), FilterDecision::Secondary);

    let mut supplementary = read(b"r3", Some(0), Some(10), 5, false);
    supplementary.flags.supplementary = true;
    assert_eq!(filter.decide(&supplementary), FilterDecision::Supplementary);

    let mut low = read(b"r4", Some(0), Some(10), 5, false);
    low.mapping_quality = 9;
    assert_eq!(filter.decide(&low), FilterDecision::LowQuality);

    let mut nonunique = read(b"r5", Some(0), Some(10), 5, false);
    nonunique.nonunique = true;
    assert_eq!(filter.decide(&nonunique), FilterDecision::Nonunique);
}

#[test]
fn test_filtered_record_skips_feature_classification() {
    let index = two_features();
    let names = reference_names();
    let filter = Filter::new(10, false, true, false);
    let mut ctx = Context::new(2);

    // Secondary and unmapped: the filter rejects it before the missing
    // fields are ever inspected.
    let mut r = read(b"r1", None, None, 0, false);
    r.flags.secondary = true;

    count_single_end_record(
        &mut ctx,
        &r,
        &index,
        &names,
        &filter,
        StrandSpecification::Unstranded,
    )
    .unwrap();

    assert_eq!(ctx.secondary, 1);
    assert_eq!(ctx.total, 1);
}

#[test]
fn test_build_rejects_invalid_intervals() {
    let features = vec![feature(b"F1", b"chr1", 10, 5, Strand::Forward)];
    assert!(matches!(
        FeatureIndex::build(features),
        Err(BuildError::InvalidInterval)
    ));

    let features = vec![feature(b"F1", b"chr1", 0, 5, Strand::Forward)];
    assert!(matches!(
        FeatureIndex::build(features),
        Err(BuildError::InvalidInterval)
    ));
}

#[test]
fn test_build_rejects_duplicate_names() {
    let features = vec![
        feature(b"F1", b"chr1", 1, 100, Strand::Forward),
        feature(b"F1", b"chr2", 1, 100, Strand::Forward),
    ];
    assert!(matches!(
        FeatureIndex::build(features),
        Err(BuildError::DuplicateName)
    ));
}

#[test]
fn test_query_returns_exactly_the_intersecting_features() {
    let index = two_features();

    assert_eq!(index.query(b"chr1", 90, 160), vec![0, 1]);
    assert_eq!(index.query(b"chr1", 101, 149), Vec::<usize>::new());
    assert_eq!(index.query(b"chr1", 100, 100), vec![0]);
    assert_eq!(index.query(b"chr2", 1, 1000), Vec::<usize>::new());
}

#[test]
fn test_paired_end_stream_rejects_duplicate_records() {
    let index = two_features();
    let names = reference_names();
    let mut r = read(b"p0", Some(0), Some(10), 21, false);
    r.flags.paired = true;
    r.flags.read_1 = true;
    let mut r_again = read(b"p0", Some(0), Some(10), 21, false);
    r_again.flags.paired = true;
    r_again.flags.read_1 = true;

    let result = count_paired_end_records(
        vec![r, r_again],
        &index,
        &names,
        &permissive_filter(),
        StrandSpecification::Unstranded,
        true,
    );

    assert!(matches!(result, Err(CountError::DuplicateRecord)));
}
