//! The counting engine: classifies each single record or mate pair against
//! the feature index, the filter, and the strand specification into exactly
//! one of {a feature's count, ambiguous, no-feature, a filtered counter},
//! accumulated in a [`Context`].

use vstd::prelude::*;

use crate::context::{spec_new_context, Context, ContextView};
use crate::detect::StrandSpecification;
use crate::features::{
    hit, lemma_matches_upto, pair_query_pred, query_pred, spec_pair_query, spec_query, Feature,
    FeatureIndex,
};
use crate::record::{record_window, spec_record_window, Record, Strand};
use crate::record_pairs::{spec_add, AddOutcome, KeyView, PairError, RecordPairs};

verus! {

/// The pure keep-or-reject predicate over a record's quality and flag
/// attributes. Immutable once constructed.
#[derive(Clone, Copy, Debug, PartialEq, Eq, Structural)]
pub struct Filter {
    pub min_mapping_quality: u8,
    pub with_secondary_records: bool,
    pub with_supplementary_records: bool,
    pub with_nonunique_records: bool,
}

/// What the filter decides for one record: kept, or rejected for exactly one
/// reason.
#[derive(Clone, Copy, Debug, PartialEq, Eq, Structural)]
pub enum FilterDecision {
    Keep,
    Secondary,
    Supplementary,
    LowQuality,
    Nonunique,
}

/// The filter's decision: secondary and supplementary status are tested
/// first, then mapping quality, then multi-mapping status.
pub open spec fn spec_filter_decision(f: Filter, r: Record) -> FilterDecision {
    if r.flags.secondary && !f.with_secondary_records {
        FilterDecision::Secondary
    } else if r.flags.supplementary && !f.with_supplementary_records {
        FilterDecision::Supplementary
    } else if r.mapping_quality < f.min_mapping_quality {
        FilterDecision::LowQuality
    } else if r.nonunique && !f.with_nonunique_records {
        FilterDecision::Nonunique
    } else {
        FilterDecision::Keep
    }
}

/// A pair is rejected as soon as either mate is, for the first mate's reason.
pub open spec fn spec_filter_decision_pair(f: Filter, r1: Record, r2: Record) -> FilterDecision {
    if spec_filter_decision(f, r1) != FilterDecision::Keep {
        spec_filter_decision(f, r1)
    } else {
        spec_filter_decision(f, r2)
    }
}

impl Filter {
    pub fn new(
        min_mapping_quality: u8,
        with_secondary_records: bool,
        with_supplementary_records: bool,
        with_nonunique_records: bool,
    ) -> (result: Filter)
        ensures
            result == (Filter {
                min_mapping_quality,
                with_secondary_records,
                with_supplementary_records,
                with_nonunique_records,
            }),
    {
        Filter {
            min_mapping_quality,
            with_secondary_records,
            with_supplementary_records,
            with_nonunique_records,
        }
    }

    /// Decides one record.
    pub fn decide(&self, record: &Record) -> (result: FilterDecision)
        ensures
            result == spec_filter_decision(*self, *record),
    {
        if record.flags.secondary && !self.with_secondary_records {
            FilterDecision::Secondary
        } else if record.flags.supplementary && !self.with_supplementary_records {
            FilterDecision::Supplementary
        } else if record.mapping_quality < self.min_mapping_quality {
            FilterDecision::LowQuality
        } else if record.nonunique && !self.with_nonunique_records {
            FilterDecision::Nonunique
        } else {
            FilterDecision::Keep
        }
    }

    /// Decides a mate pair: rejected as soon as either mate is.
    pub fn decide_pair(&self, r1: &Record, r2: &Record) -> (result: FilterDecision)
        ensures
            result == spec_filter_decision_pair(*self, *r1, *r2),
    {
        let d1 = self.decide(r1);
        if !matches!(d1, FilterDecision::Keep) {
            d1
        } else {
            self.decide(r2)
        }
    }
}

/// Whether a feature's strand qualifies under the strand specification,
/// given the read's alignment strand. A forward-stranded protocol expects the
/// read on the feature's strand, a reverse-stranded one on the opposite
/// strand; a feature without an annotated strand never qualifies under a
/// stranded protocol.
pub open spec fn strand_ok(
    feature_strand: Strand,
    read_strand: Strand,
    ss: StrandSpecification,
) -> bool {
    match ss {
        StrandSpecification::Unstranded => true,
        StrandSpecification::Forward => (feature_strand is Forward && read_strand is Forward) || (
        feature_strand is Reverse && read_strand is Reverse),
        StrandSpecification::Reverse => (feature_strand is Forward && read_strand is Reverse) || (
        feature_strand is Reverse && read_strand is Forward),
    }
}

fn strand_matches(feature_strand: Strand, read_strand: Strand, ss: StrandSpecification) -> (result:
    bool)
    ensures
        result == strand_ok(feature_strand, read_strand, ss),
{
    match ss {
        StrandSpecification::Unstranded => true,
        StrandSpecification::Forward => (matches!(feature_strand, Strand::Forward) && matches!(
            read_strand,
            Strand::Forward,
        )) || (matches!(feature_strand, Strand::Reverse) && matches!(read_strand, Strand::Reverse)),
        StrandSpecification::Reverse => (matches!(feature_strand, Strand::Forward) && matches!(
            read_strand,
            Strand::Reverse,
        )) || (matches!(feature_strand, Strand::Reverse) && matches!(read_strand, Strand::Forward)),
    }
}

/// The hits that survive the strand rule, in their original order.
pub open spec fn spec_strand_filter(
    features: Seq<Feature>,
    hits: Seq<int>,
    read_strand: Strand,
    ss: StrandSpecification,
) -> Seq<int>
    decreases hits.len(),
{
    if hits.len() == 0 {
        Seq::empty()
    } else {
        let rest = spec_strand_filter(features, hits.drop_last(), read_strand, ss);
        if strand_ok(features[hits.last()].strand, read_strand, ss) {
            rest.push(hits.last())
        } else {
            rest
        }
    }
}

/// Strand filtering keeps exactly the qualifying hits, preserving bounds and
/// the increasing order.
pub proof fn lemma_strand_filter(
    features: Seq<Feature>,
    hits: Seq<int>,
    read_strand: Strand,
    ss: StrandSpecification,
    n: int,
)
    requires
        forall|k: int| 0 <= k < hits.len() ==> 0 <= #[trigger] hits[k] < n,
        forall|k1: int, k2: int| 0 <= k1 < k2 < hits.len() ==> hits[k1] < hits[k2],
    ensures
        forall|k: int|
            0 <= k < spec_strand_filter(features, hits, read_strand, ss).len() ==> 0
                <= #[trigger] spec_strand_filter(features, hits, read_strand, ss)[k] < n,
        forall|k1: int, k2: int|
            0 <= k1 < k2 < spec_strand_filter(features, hits, read_strand, ss).len()
                ==> spec_strand_filter(features, hits, read_strand, ss)[k1] < spec_strand_filter(
                features,
                hits,
                read_strand,
                ss,
            )[k2],
        forall|j: int|
            #[trigger] spec_strand_filter(features, hits, read_strand, ss).contains(j) <==> (
            hits.contains(j) && strand_ok(features[j].strand, read_strand, ss)),
    decreases hits.len(),
{
    if hits.len() > 0 {
        let prefix = hits.drop_last();
        lemma_strand_filter(features, prefix, read_strand, ss, n);
        let rest = spec_strand_filter(features, prefix, read_strand, ss);
        let cur = spec_strand_filter(features, hits, read_strand, ss);
        let last = hits.last();
        assert forall|j: int| #[trigger] prefix.contains(j) implies (hits.contains(j) && j
            < last) by {
            let k = choose|k: int| 0 <= k < prefix.len() && prefix[k] == j;
            assert(hits[k] == j);
            assert(hits[k] < hits[hits.len() - 1]);
        }
        assert forall|j: int| hits.contains(j) && j != last implies prefix.contains(j) by {
            let k = choose|k: int| 0 <= k < hits.len() && hits[k] == j;
            assert(k < hits.len() - 1);
            assert(prefix[k] == j);
        }
        assert(hits.contains(last)) by {
            assert(hits[hits.len() - 1] == last);
        }
        assert forall|k: int| 0 <= k < rest.len() implies rest[k] < last by {
            assert(rest.contains(rest[k]));
        }
        if strand_ok(features[last].strand, read_strand, ss) {
            assert(cur == rest.push(last));
            assert(cur.contains(last)) by {
                assert(cur[cur.len() - 1] == last);
            }
            assert forall|j: int| #[trigger] cur.contains(j) implies (hits.contains(j) && strand_ok(
                features[j].strand,
                read_strand,
                ss,
            )) by {
                let k = choose|k: int| 0 <= k < cur.len() && cur[k] == j;
                if k < rest.len() {
                    assert(rest[k] == j);
                    assert(rest.contains(j));
                }
            }
            assert forall|j: int|
                hits.contains(j) && strand_ok(features[j].strand, read_strand, ss) implies (
            #[trigger] cur.contains(j)) by {
                if j != last {
                    assert(rest.contains(j));
                    let k = choose|k: int| 0 <= k < rest.len() && rest[k] == j;
                    assert(cur[k] == j);
                }
            }
        } else {
            assert(cur == rest);
            assert forall|j: int| #[trigger] cur.contains(j) implies (hits.contains(j) && strand_ok(
                features[j].strand,
                read_strand,
                ss,
            )) by {}
            assert forall|j: int|
                hits.contains(j) && strand_ok(features[j].strand, read_strand, ss) implies (
            #[trigger] cur.contains(j)) by {}
        }
    }
}

/// Keeps the hits whose feature qualifies under the strand rule.
#[verifier::loop_isolation(false)]
fn strand_filter(
    index: &FeatureIndex,
    hits: &Vec<usize>,
    read_strand: Strand,
    ss: StrandSpecification,
) -> (result: Vec<usize>)
    requires
        forall|k: int| 0 <= k < hits@.len() ==> (#[trigger] hits@[k]) < index.features@.len(),
    ensures
        result@.map_values(|u: usize| u as int) == spec_strand_filter(
            index.features@,
            hits@.map_values(|u: usize| u as int),
            read_strand,
            ss,
        ),
{
    let ghost mapped = hits@.map_values(|u: usize| u as int);
    let mut out: Vec<usize> = Vec::new();
    let n = hits.len();
    let mut i: usize = 0;
    while i < n
        invariant
            0 <= i <= n,
            out@.map_values(|u: usize| u as int) == spec_strand_filter(
                index.features@,
                mapped.take(i as int),
                read_strand,
                ss,
            ),
        decreases n - i,
    {
        proof {
            assert(mapped.take(i + 1).drop_last() =~= mapped.take(i as int));
            assert(mapped.take(i + 1).last() == hits@[i as int] as int);
        }
        let fi = hits[i];
        let ghost before = out@;
        if strand_matches(index.features[fi].strand, read_strand, ss) {
            out.push(fi);
            proof {
                assert(out@.map_values(|u: usize| u as int) =~= before.map_values(
                    |u: usize| u as int,
                ).push(fi as int));
            }
        }
        i = i + 1;
    }
    proof {
        assert(mapped.take(n as int) =~= mapped);
    }
    out
}

/// Why a record or pair could not be classified: its required alignment
/// fields are missing or malformed, or it names a reference sequence the
/// header does not know. Classification outcomes are never errors.
#[derive(Clone, Copy, Debug, PartialEq, Eq, Structural)]
pub enum CountError {
    /// A required alignment field is missing or malformed.
    MissingField,
    /// The record names a reference sequence that does not exist.
    UnknownReferenceSequence,
    /// A paired record claims to be neither the first nor the last segment.
    MissingPairPosition,
    /// Two buffered records share a key.
    DuplicateRecord,
}

/// The context after a rejected record or pair: the matching filtered
/// counter and the total rise by one.
pub open spec fn spec_apply_filtered(ctx: ContextView, d: FilterDecision) -> ContextView {
    match d {
        FilterDecision::Keep => ctx,
        FilterDecision::Secondary => ContextView {
            secondary: ctx.secondary + 1,
            total: ctx.total + 1,
            ..ctx
        },
        FilterDecision::Supplementary => ContextView {
            supplementary: ctx.supplementary + 1,
            total: ctx.total + 1,
            ..ctx
        },
        FilterDecision::LowQuality => ContextView {
            low_quality: ctx.low_quality + 1,
            total: ctx.total + 1,
            ..ctx
        },
        FilterDecision::Nonunique => ContextView {
            nonunique: ctx.nonunique + 1,
            total: ctx.total + 1,
            ..ctx
        },
    }
}

/// Each listed count raised by one, in order.
pub open spec fn spec_bump_counts(counts: Seq<int>, hits: Seq<int>) -> Seq<int>
    decreases hits.len(),
{
    if hits.len() == 0 {
        counts
    } else {
        spec_bump_counts(
            counts.update(hits[0], counts[hits[0]] + 1),
            hits.subrange(1, hits.len() as int),
        )
    }
}

/// The context after a kept record or pair whose qualifying features are
/// `kept`: no feature raises the no-feature counter, exactly one raises that
/// feature's count, and several raise the ambiguous counter — unless
/// multi-mapped records are allowed, in which case each matched feature's
/// count rises by one. The total always rises by one.
pub open spec fn spec_apply_hits(
    ctx: ContextView,
    kept: Seq<int>,
    allow_nonunique: bool,
) -> ContextView {
    if kept.len() == 0 {
        ContextView { no_feature: ctx.no_feature + 1, total: ctx.total + 1, ..ctx }
    } else if kept.len() == 1 {
        ContextView {
            counts: ctx.counts.update(kept[0], ctx.counts[kept[0]] + 1),
            total: ctx.total + 1,
            ..ctx
        }
    } else if allow_nonunique {
        ContextView { counts: spec_bump_counts(ctx.counts, kept), total: ctx.total + 1, ..ctx }
    } else {
        ContextView { ambiguous: ctx.ambiguous + 1, total: ctx.total + 1, ..ctx }
    }
}

/// Raises `counts[i]` by one.
fn bump_count(counts: &mut Vec<u64>, i: usize)
    requires
        i < old(counts)@.len(),
        old(counts)@[i as int] < u64::MAX,
    ensures
        final(counts)@ == old(counts)@.update(
            i as int,
            (old(counts)@[i as int] + 1) as u64,
        ),
{
    let v = counts[i];
    let _removed = counts.remove(i);
    counts.insert(i, v + 1);
    proof {
        assert(counts@ =~= old(counts)@.update(i as int, (old(counts)@[i as int] + 1) as u64));
    }
}

/// Classifies a kept record or pair by its qualifying features and updates
/// the context.
#[verifier::loop_isolation(false)]
fn apply_hits(ctx: &mut Context, kept: &Vec<usize>, allow_nonunique: bool)
    requires
        old(ctx)@.wf(),
        old(ctx)@.total < u64::MAX,
        forall|k: int| 0 <= k < kept@.len() ==> (#[trigger] kept@[k] as int) < old(
            ctx,
        )@.counts.len(),
        forall|k1: int, k2: int| 0 <= k1 < k2 < kept@.len() ==> kept@[k1] < kept@[k2],
    ensures
        final(ctx)@ == spec_apply_hits(
            old(ctx)@,
            kept@.map_values(|u: usize| u as int),
            allow_nonunique,
        ),
        final(ctx)@.wf(),
        final(ctx)@.counts.len() == old(ctx)@.counts.len(),
        final(ctx)@.total == old(ctx)@.total + 1,
{
    let ghost mapped = kept@.map_values(|u: usize| u as int);
    if kept.len() == 0 {
        ctx.no_feature = ctx.no_feature + 1;
        ctx.total = ctx.total + 1;
        proof {
            assert(ctx@ =~= spec_apply_hits(old(ctx)@, mapped, allow_nonunique));
        }
    } else if kept.len() == 1 {
        let i = kept[0];
        proof {
            assert(old(ctx)@.counts[i as int] <= old(ctx)@.total);
            assert(ctx.counts@[i as int] < u64::MAX);
        }
        bump_count(&mut ctx.counts, i);
        ctx.total = ctx.total + 1;
        proof {
            assert(ctx@.counts =~= old(ctx)@.counts.update(
                i as int,
                old(ctx)@.counts[i as int] + 1,
            ));
            assert(ctx@ =~= spec_apply_hits(old(ctx)@, mapped, allow_nonunique));
        }
    } else if allow_nonunique {
        let ghost orig = ctx@.counts;
        proof {
            assert(mapped.subrange(0, mapped.len() as int) =~= mapped);
        }
        let n = kept.len();
        let mut j: usize = 0;
        while j < n
            invariant
                0 <= j <= n,
                ctx.counts@.len() == old(ctx).counts@.len(),
                ctx.no_feature == old(ctx).no_feature,
                ctx.ambiguous == old(ctx).ambiguous,
                ctx.low_quality == old(ctx).low_quality,
                ctx.secondary == old(ctx).secondary,
                ctx.supplementary == old(ctx).supplementary,
                ctx.nonunique == old(ctx).nonunique,
                ctx.total == old(ctx).total,
                spec_bump_counts(orig, mapped) == spec_bump_counts(
                    ctx@.counts,
                    mapped.subrange(j as int, mapped.len() as int),
                ),
                forall|l: int|
                    j <= l < mapped.len() ==> ctx@.counts[#[trigger] mapped[l]] == orig[mapped[l]],
                forall|i: int|
                    0 <= i < orig.len() ==> orig[i] <= #[trigger] ctx@.counts[i] <= orig[i] + 1,
            decreases n - j,
        {
            let i = kept[j];
            proof {
                assert(mapped[j as int] == i as int);
                assert(ctx@.counts[i as int] == orig[i as int]);
                assert(orig[i as int] <= old(ctx)@.total);
                assert(ctx.counts@[i as int] < u64::MAX);
            }
            let ghost before = ctx@.counts;
            bump_count(&mut ctx.counts, i);
            proof {
                assert(ctx@.counts =~= before.update(i as int, before[i as int] + 1));
                assert(mapped.subrange(j as int, mapped.len() as int)[0] == mapped[j as int]);
                assert(mapped.subrange(j as int, mapped.len() as int).subrange(
                    1,
                    mapped.len() - j,
                ) =~= mapped.subrange(j + 1, mapped.len() as int));
                assert forall|l: int| j + 1 <= l < mapped.len() implies ctx@.counts[#[trigger] mapped[l]]
                    == orig[mapped[l]] by {
                    assert(mapped[j as int] < mapped[l]);
                }
            }
            j = j + 1;
        }
        ctx.total = ctx.total + 1;
        proof {
            assert(mapped.subrange(n as int, mapped.len() as int) =~= Seq::<int>::empty());
            assert(spec_bump_counts(ctx@.counts, Seq::<int>::empty()) == ctx@.counts);
            assert(ctx@ =~= spec_apply_hits(old(ctx)@, mapped, allow_nonunique));
        }
    } else {
        ctx.ambiguous = ctx.ambiguous + 1;
        ctx.total = ctx.total + 1;
        proof {
            assert(ctx@ =~= spec_apply_hits(old(ctx)@, mapped, allow_nonunique));
        }
    }
}

/// One kept or rejected single-end record, applied to the context: the
/// filter decides first; a kept record must be mapped on a known reference;
/// its overlapping features are strand-filtered and classified.
pub open spec fn spec_count_single(
    ctx: ContextView,
    features: Seq<Feature>,
    names: Seq<Vec<u8>>,
    f: Filter,
    ss: StrandSpecification,
    r: Record,
) -> Result<ContextView, CountError> {
    let d = spec_filter_decision(f, r);
    if d != FilterDecision::Keep {
        Ok(spec_apply_filtered(ctx, d))
    } else {
        match spec_record_window(r) {
            None => Err(CountError::MissingField),
            Some(w) => {
                let id = r.reference_sequence_id->Some_0 as int;
                if id >= names.len() {
                    Err(CountError::UnknownReferenceSequence)
                } else {
                    let hits = spec_query(features, names[id]@, w.0, w.1);
                    let kept = spec_strand_filter(features, hits, r.spec_strand(), ss);
                    Ok(spec_apply_hits(ctx, kept, f.with_nonunique_records))
                }
            },
        }
    }
}

/// One mate pair, applied to the context: either mate failing the filter
/// rejects the pair; both mates must be mapped on known references; the
/// features overlapping either mate's interval are deduplicated, filtered by
/// the first mate's strand, and classified.
pub open spec fn spec_count_pair(
    ctx: ContextView,
    features: Seq<Feature>,
    names: Seq<Vec<u8>>,
    f: Filter,
    ss: StrandSpecification,
    r1: Record,
    r2: Record,
) -> Result<ContextView, CountError> {
    let d = spec_filter_decision_pair(f, r1, r2);
    if d != FilterDecision::Keep {
        Ok(spec_apply_filtered(ctx, d))
    } else {
        match (spec_record_window(r1), spec_record_window(r2)) {
            (Some(w1), Some(w2)) => {
                let id1 = r1.reference_sequence_id->Some_0 as int;
                let id2 = r2.reference_sequence_id->Some_0 as int;
                if id1 >= names.len() || id2 >= names.len() {
                    Err(CountError::UnknownReferenceSequence)
                } else {
                    let hits = spec_pair_query(
                        features,
                        names[id1]@,
                        w1.0,
                        w1.1,
                        names[id2]@,
                        w2.0,
                        w2.1,
                    );
                    let kept = spec_strand_filter(features, hits, r1.spec_strand(), ss);
                    Ok(spec_apply_hits(ctx, kept, f.with_nonunique_records))
                }
            },
            _ => Err(CountError::MissingField),
        }
    }
}

/// Classifies one single-end record and updates the context.
pub fn count_single_end_record(
    ctx: &mut Context,
    record: &Record,
    index: &FeatureIndex,
    reference_names: &Vec<Vec<u8>>,
    filter: &Filter,
    strand_specification: StrandSpecification,
) -> (result: Result<(), CountError>)
    requires
        old(ctx)@.wf(),
        old(ctx)@.counts.len() == index.features@.len(),
        old(ctx)@.total < u64::MAX,
    ensures
        final(ctx)@.wf(),
        final(ctx)@.counts.len() == old(ctx)@.counts.len(),
        match spec_count_single(
            old(ctx)@,
            index.features@,
            reference_names@,
            *filter,
            strand_specification,
            *record,
        ) {
            Ok(v) => result matches Ok(u) && final(ctx)@ == v && final(ctx)@.total == old(
                ctx,
            )@.total + 1,
            Err(e) => result matches Err(e2) && e2 == e && final(ctx)@ == old(ctx)@,
        },
{
    let decision = filter.decide(record);
    match decision {
        FilterDecision::Keep => {},
        FilterDecision::Secondary => {
            ctx.secondary = ctx.secondary + 1;
            ctx.total = ctx.total + 1;
            proof {
                assert(ctx@ =~= spec_apply_filtered(old(ctx)@, decision));
            }
            return Ok(());
        },
        FilterDecision::Supplementary => {
            ctx.supplementary = ctx.supplementary + 1;
            ctx.total = ctx.total + 1;
            proof {
                assert(ctx@ =~= spec_apply_filtered(old(ctx)@, decision));
            }
            return Ok(());
        },
        FilterDecision::LowQuality => {
            ctx.low_quality = ctx.low_quality + 1;
            ctx.total = ctx.total + 1;
            proof {
                assert(ctx@ =~= spec_apply_filtered(old(ctx)@, decision));
            }
            return Ok(());
        },
        FilterDecision::Nonunique => {
            ctx.nonunique = ctx.nonunique + 1;
            ctx.total = ctx.total + 1;
            proof {
                assert(ctx@ =~= spec_apply_filtered(old(ctx)@, decision));
            }
            return Ok(());
        },
    }
    let w = match record_window(record) {
        Some(w) => w,
        None => {
            return Err(CountError::MissingField);
        },
    };
    let id = match record.reference_sequence_id {
        Some(id) => id,
        None => {
            proof {
                assert(false);
            }
            return Err(CountError::MissingField);
        },
    };
    if id as usize >= reference_names.len() {
        return Err(CountError::UnknownReferenceSequence);
    }
    let hits = index.query(reference_names[id as usize].as_slice(), w.0, w.1);
    let ghost hits_spec = spec_query(
        index.features@,
        reference_names@[id as int]@,
        w.0 as int,
        w.1 as int,
    );
    proof {
        lemma_matches_upto(
            index.features@,
            query_pred(reference_names@[id as int]@, w.0 as int, w.1 as int),
            index.features@.len() as int,
        );
        assert forall|k: int| 0 <= k < hits@.len() implies (#[trigger] hits@[k])
            < index.features@.len() by {
            assert(hits@.map_values(|u: usize| u as int)[k] == hits@[k] as int);
        }
    }
    let kept = strand_filter(index, &hits, record.strand(), strand_specification);
    let ghost kept_spec = spec_strand_filter(
        index.features@,
        hits_spec,
        record.spec_strand(),
        strand_specification,
    );
    proof {
        lemma_strand_filter(
            index.features@,
            hits_spec,
            record.spec_strand(),
            strand_specification,
            index.features@.len() as int,
        );
        assert forall|k: int| 0 <= k < kept@.len() implies (#[trigger] kept@[k] as int) < old(
            ctx,
        )@.counts.len() by {
            assert(kept@.map_values(|u: usize| u as int)[k] == kept@[k] as int);
        }
        assert forall|k1: int, k2: int|
            0 <= k1 < k2 < kept@.len() implies kept@[k1] < kept@[k2] by {
            assert(kept@.map_values(|u: usize| u as int)[k1] == kept_spec[k1]);
            assert(kept@.map_values(|u: usize| u as int)[k2] == kept_spec[k2]);
        }
    }
    apply_hits(ctx, &kept, filter.with_nonunique_records);
    Ok(())
}

/// Classifies one mate pair and updates the context.
pub fn count_pair(
    ctx: &mut Context,
    r1: &Record,
    r2: &Record,
    index: &FeatureIndex,
    reference_names: &Vec<Vec<u8>>,
    filter: &Filter,
    strand_specification: StrandSpecification,
) -> (result: Result<(), CountError>)
    requires
        old(ctx)@.wf(),
        old(ctx)@.counts.len() == index.features@.len(),
        old(ctx)@.total < u64::MAX,
    ensures
        final(ctx)@.wf(),
        final(ctx)@.counts.len() == old(ctx)@.counts.len(),
        match spec_count_pair(
            old(ctx)@,
            index.features@,
            reference_names@,
            *filter,
            strand_specification,
            *r1,
            *r2,
        ) {
            Ok(v) => result matches Ok(u) && final(ctx)@ == v && final(ctx)@.total == old(
                ctx,
            )@.total + 1,
            Err(e) => result matches Err(e2) && e2 == e && final(ctx)@ == old(ctx)@,
        },
{
    let decision = filter.decide_pair(r1, r2);
    match decision {
        FilterDecision::Keep => {},
        FilterDecision::Secondary => {
            ctx.secondary = ctx.secondary + 1;
            ctx.total = ctx.total + 1;
            proof {
                assert(ctx@ =~= spec_apply_filtered(old(ctx)@, decision));
            }
            return Ok(());
        },
        FilterDecision::Supplementary => {
            ctx.supplementary = ctx.supplementary + 1;
            ctx.total = ctx.total + 1;
            proof {
                assert(ctx@ =~= spec_apply_filtered(old(ctx)@, decision));
            }
            return Ok(());
        },
        FilterDecision::LowQuality => {
            ctx.low_quality = ctx.low_quality + 1;
            ctx.total = ctx.total + 1;
            proof {
                assert(ctx@ =~= spec_apply_filtered(old(ctx)@, decision));
            }
            return Ok(());
        },
        FilterDecision::Nonunique => {
            ctx.nonunique = ctx.nonunique + 1;
            ctx.total = ctx.total + 1;
            proof {
                assert(ctx@ =~= spec_apply_filtered(old(ctx)@, decision));
            }
            return Ok(());
        },
    }
    let w1 = match record_window(r1) {
        Some(w) => w,
        None => {
            return Err(CountError::MissingField);
        },
    };
    let w2 = match record_window(r2) {
        Some(w) => w,
        None => {
            return Err(CountError::MissingField);
        },
    };
    let id1 = match r1.reference_sequence_id {
        Some(id) => id,
        None => {
            proof {
                assert(false);
            }
            return Err(CountError::MissingField);
        },
    };
    let id2 = match r2.reference_sequence_id {
        Some(id) => id,
        None => {
            proof {
                assert(false);
            }
            return Err(CountError::MissingField);
        },
    };
    if id1 as usize >= reference_names.len() || id2 as usize >= reference_names.len() {
        return Err(CountError::UnknownReferenceSequence);
    }
    let hits = index.pair_query(
        reference_names[id1 as usize].as_slice(),
        w1.0,
        w1.1,
        reference_names[id2 as usize].as_slice(),
        w2.0,
        w2.1,
    );
    let ghost hits_spec = spec_pair_query(
        index.features@,
        reference_names@[id1 as int]@,
        w1.0 as int,
        w1.1 as int,
        reference_names@[id2 as int]@,
        w2.0 as int,
        w2.1 as int,
    );
    proof {
        lemma_matches_upto(
            index.features@,
            pair_query_pred(
                reference_names@[id1 as int]@,
                w1.0 as int,
                w1.1 as int,
                reference_names@[id2 as int]@,
                w2.0 as int,
                w2.1 as int,
            ),
            index.features@.len() as int,
        );
        assert forall|k: int| 0 <= k < hits@.len() implies (#[trigger] hits@[k])
            < index.features@.len() by {
            assert(hits@.map_values(|u: usize| u as int)[k] == hits@[k] as int);
        }
    }
    let kept = strand_filter(index, &hits, r1.strand(), strand_specification);
    let ghost kept_spec = spec_strand_filter(
        index.features@,
        hits_spec,
        r1.spec_strand(),
        strand_specification,
    );
    proof {
        lemma_strand_filter(
            index.features@,
            hits_spec,
            r1.spec_strand(),
            strand_specification,
            index.features@.len() as int,
        );
        assert forall|k: int| 0 <= k < kept@.len() implies (#[trigger] kept@[k] as int) < old(
            ctx,
        )@.counts.len() by {
            assert(kept@.map_values(|u: usize| u as int)[k] == kept@[k] as int);
        }
        assert forall|k1: int, k2: int|
            0 <= k1 < k2 < kept@.len() implies kept@[k1] < kept@[k2] by {
            assert(kept@.map_values(|u: usize| u as int)[k1] == kept_spec[k1]);
            assert(kept@.map_values(|u: usize| u as int)[k2] == kept_spec[k2]);
        }
    }
    apply_hits(ctx, &kept, filter.with_nonunique_records);
    Ok(())
}

/// A stream of single-end records, applied to the context in order; the
/// first malformed record aborts the run.
pub open spec fn spec_count_singles(
    ctx: ContextView,
    features: Seq<Feature>,
    names: Seq<Vec<u8>>,
    f: Filter,
    ss: StrandSpecification,
    records: Seq<Record>,
) -> Result<ContextView, CountError>
    decreases records.len(),
{
    if records.len() == 0 {
        Ok(ctx)
    } else {
        match spec_count_single(ctx, features, names, f, ss, records[0]) {
            Ok(v) => spec_count_singles(
                v,
                features,
                names,
                f,
                ss,
                records.subrange(1, records.len() as int),
            ),
            Err(e) => Err(e),
        }
    }
}

/// Every processed record raises the total by exactly one, so a successful
/// run's total equals the number of input records.
pub proof fn lemma_count_singles_total(
    ctx: ContextView,
    features: Seq<Feature>,
    names: Seq<Vec<u8>>,
    f: Filter,
    ss: StrandSpecification,
    records: Seq<Record>,
)
    requires
        spec_count_singles(ctx, features, names, f, ss, records) is Ok,
    ensures
        spec_count_singles(ctx, features, names, f, ss, records)->Ok_0.total == ctx.total
            + records.len(),
    decreases records.len(),
{
    if records.len() > 0 {
        let v1 = spec_count_single(ctx, features, names, f, ss, records[0])->Ok_0;
        lemma_count_singles_total(
            v1,
            features,
            names,
            f,
            ss,
            records.subrange(1, records.len() as int),
        );
    }
}

/// Counts a stream of single-end records into a fresh context. Used once per
/// reference region by the parallel single-end path; partial contexts are
/// folded with [`Context::add`].
#[verifier::loop_isolation(false)]
pub fn count_single_end_records(
    records: &Vec<Record>,
    index: &FeatureIndex,
    reference_names: &Vec<Vec<u8>>,
    filter: &Filter,
    strand_specification: StrandSpecification,
) -> (result: Result<Context, CountError>)
    requires
        records@.len() < u64::MAX,
    ensures
        match spec_count_singles(
            spec_new_context(index.features@.len()),
            index.features@,
            reference_names@,
            *filter,
            strand_specification,
            records@,
        ) {
            Ok(v) => result matches Ok(c) && c@ == v && c@.wf() && c@.counts.len()
                == index.features@.len(),
            Err(e) => result matches Err(e2) && e2 == e,
        },
{
    let mut ctx = Context::new(index.features.len());
    let n = records.len();
    proof {
        assert(records@.subrange(0, n as int) =~= records@);
    }
    let mut i: usize = 0;
    while i < n
        invariant
            0 <= i <= n,
            ctx@.wf(),
            ctx@.counts.len() == index.features@.len(),
            ctx@.total <= i,
            spec_count_singles(
                spec_new_context(index.features@.len()),
                index.features@,
                reference_names@,
                *filter,
                strand_specification,
                records@,
            ) == spec_count_singles(
                ctx@,
                index.features@,
                reference_names@,
                *filter,
                strand_specification,
                records@.subrange(i as int, n as int),
            ),
        decreases n - i,
    {
        proof {
            assert(records@.subrange(i as int, n as int)[0] == records@[i as int]);
            assert(records@.subrange(i as int, n as int).subrange(1, n - i) =~= records@.subrange(
                i + 1,
                n as int,
            ));
        }
        match count_single_end_record(
            &mut ctx,
            &records[i],
            index,
            reference_names,
            filter,
            strand_specification,
        ) {
            Ok(_u) => {},
            Err(e) => {
                return Err(e);
            },
        }
        i = i + 1;
    }
    proof {
        assert(records@.subrange(n as int, n as int) =~= Seq::<Record>::empty());
    }
    Ok(ctx)
}

/// Counts the pairer's end-of-stream singletons as degraded single-end
/// inputs, through the single-record classification logic.
pub fn count_paired_end_record_singletons(
    records: &Vec<Record>,
    index: &FeatureIndex,
    reference_names: &Vec<Vec<u8>>,
    filter: &Filter,
    strand_specification: StrandSpecification,
) -> (result: Result<Context, CountError>)
    requires
        records@.len() < u64::MAX,
    ensures
        match spec_count_singles(
            spec_new_context(index.features@.len()),
            index.features@,
            reference_names@,
            *filter,
            strand_specification,
            records@,
        ) {
            Ok(v) => result matches Ok(c) && c@ == v && c@.wf() && c@.counts.len()
                == index.features@.len(),
            Err(e) => result matches Err(e2) && e2 == e,
        },
{
    count_single_end_records(records, index, reference_names, filter, strand_specification)
}

/// A stream of paired-end records: each record is fed to the pairer; every
/// emitted pair is classified; the buffer of still-unmatched records rides
/// along. Pairing faults and malformed records abort the run.
pub open spec fn spec_count_pairs_fold(
    ctx: ContextView,
    buf: Map<KeyView, Record>,
    primary_only: bool,
    features: Seq<Feature>,
    names: Seq<Vec<u8>>,
    f: Filter,
    ss: StrandSpecification,
    records: Seq<Record>,
) -> Result<(ContextView, Map<KeyView, Record>), CountError>
    decreases records.len(),
{
    if records.len() == 0 {
        Ok((ctx, buf))
    } else {
        let step = spec_add(buf, primary_only, records[0]);
        let rest = records.subrange(1, records.len() as int);
        match step.1 {
            AddOutcome::Skipped => spec_count_pairs_fold(
                ctx,
                step.0,
                primary_only,
                features,
                names,
                f,
                ss,
                rest,
            ),
            AddOutcome::Buffered => spec_count_pairs_fold(
                ctx,
                step.0,
                primary_only,
                features,
                names,
                f,
                ss,
                rest,
            ),
            AddOutcome::MissingPairPosition => Err(CountError::MissingPairPosition),
            AddOutcome::Duplicate => Err(CountError::DuplicateRecord),
            AddOutcome::Paired(a, b) => match spec_count_pair(ctx, features, names, f, ss, a, b) {
                Ok(v) => spec_count_pairs_fold(
                    v,
                    step.0,
                    primary_only,
                    features,
                    names,
                    f,
                    ss,
                    rest,
                ),
                Err(e) => Err(e),
            },
        }
    }
}

/// Counts a stream of paired-end records into a fresh context, reassembling
/// mate pairs on the fly. Returns the context and the pairer, whose buffer
/// holds the singletons — records whose mate was never observed.
#[verifier::loop_isolation(false)]
pub fn count_paired_end_records(
    records: Vec<Record>,
    index: &FeatureIndex,
    reference_names: &Vec<Vec<u8>>,
    filter: &Filter,
    strand_specification: StrandSpecification,
    primary_only: bool,
) -> (result: Result<(Context, RecordPairs), CountError>)
    requires
        records@.len() < u64::MAX,
    ensures
        match spec_count_pairs_fold(
            spec_new_context(index.features@.len()),
            Map::empty(),
            primary_only,
            index.features@,
            reference_names@,
            *filter,
            strand_specification,
            records@,
        ) {
            Ok(v) => result matches Ok(p) && p.0@ == v.0 && p.1@ == v.1 && p.0@.wf() && p.1.wf()
                && p.0@.counts.len() == index.features@.len() && p.1.is_primary_only()
                == primary_only,
            Err(e) => result matches Err(e2) && e2 == e,
        },
{
    let ghost orig = records@;
    let mut remaining = records;
    let mut ctx = Context::new(index.features.len());
    let mut pairs = RecordPairs::new(primary_only);
    while remaining.len() > 0
        invariant
            remaining@.len() <= orig.len(),
            ctx@.wf(),
            ctx@.counts.len() == index.features@.len(),
            ctx@.total <= orig.len() - remaining@.len(),
            pairs.wf(),
            pairs.is_primary_only() == primary_only,
            spec_count_pairs_fold(
                spec_new_context(index.features@.len()),
                Map::empty(),
                primary_only,
                index.features@,
                reference_names@,
                *filter,
                strand_specification,
                orig,
            ) == spec_count_pairs_fold(
                ctx@,
                pairs@,
                primary_only,
                index.features@,
                reference_names@,
                *filter,
                strand_specification,
                remaining@,
            ),
        decreases remaining@.len(),
    {
        let ghost rem_before = remaining@;
        let r = remaining.remove(0);
        proof {
            assert(remaining@ =~= rem_before.subrange(1, rem_before.len() as int));
        }
        match pairs.add(r) {
            Ok(None) => {},
            Ok(Some(pair)) => {
                match count_pair(
                    &mut ctx,
                    &pair.0,
                    &pair.1,
                    index,
                    reference_names,
                    filter,
                    strand_specification,
                ) {
                    Ok(_u) => {},
                    Err(e) => {
                        return Err(e);
                    },
                }
            },
            Err(PairError::MissingPairPosition) => {
                return Err(CountError::MissingPairPosition);
            },
            Err(PairError::DuplicateKey) => {
                return Err(CountError::DuplicateRecord);
            },
        }
    }
    proof {
        assert(remaining@ =~= Seq::<Record>::empty());
    }
    Ok((ctx, pairs))
}

/// The sum of a context's per-feature counts.
pub open spec fn sum_counts(s: Seq<int>) -> int
    decreases s.len(),
{
    if s.len() == 0 {
        0
    } else {
        sum_counts(s.drop_last()) + s.last()
    }
}

/// The sum of every classification bucket: all feature counts plus the named
/// counters, the total excluded.
pub open spec fn bucket_sum(v: ContextView) -> int {
    sum_counts(v.counts) + v.no_feature + v.ambiguous + v.low_quality + v.secondary
        + v.supplementary + v.nonunique
}

/// Raising one element of a sequence by one raises its sum by one.
pub proof fn lemma_sum_update(s: Seq<int>, i: int)
    requires
        0 <= i < s.len(),
    ensures
        sum_counts(s.update(i, s[i] + 1)) == sum_counts(s) + 1,
    decreases s.len(),
{
    let t = s.update(i, s[i] + 1);
    if i == s.len() - 1 {
        assert(t.drop_last() =~= s.drop_last());
    } else {
        assert(t.drop_last() =~= s.drop_last().update(i, s[i] + 1));
        lemma_sum_update(s.drop_last(), i);
    }
}

/// Law: classification partition. With multi-mapped records disallowed, a
/// processed single-end record contributes to exactly one bucket — one
/// feature's count, no-feature, ambiguous, or one filtered counter — so the
/// buckets' sum and the total each rise by exactly one.
pub proof fn lemma_classification_partition(
    ctx: ContextView,
    features: Seq<Feature>,
    names: Seq<Vec<u8>>,
    f: Filter,
    ss: StrandSpecification,
    r: Record,
)
    requires
        !f.with_nonunique_records,
        ctx.counts.len() == features.len(),
        spec_count_single(ctx, features, names, f, ss, r) is Ok,
    ensures
        ({
            let v = spec_count_single(ctx, features, names, f, ss, r)->Ok_0;
            &&& v.total == ctx.total + 1
            &&& v.counts.len() == ctx.counts.len()
            &&& bucket_sum(v) == bucket_sum(ctx) + 1
            &&& {
                ||| ((exists|i: int|
                    0 <= i < ctx.counts.len() && v.counts == ctx.counts.update(
                        i,
                        ctx.counts[i] + 1,
                    )) && v.no_feature == ctx.no_feature && v.ambiguous == ctx.ambiguous
                    && v.low_quality == ctx.low_quality && v.secondary == ctx.secondary
                    && v.supplementary == ctx.supplementary && v.nonunique == ctx.nonunique)
                ||| (v.counts == ctx.counts && v.no_feature == ctx.no_feature + 1 && v.ambiguous
                    == ctx.ambiguous && v.low_quality == ctx.low_quality && v.secondary
                    == ctx.secondary && v.supplementary == ctx.supplementary && v.nonunique
                    == ctx.nonunique)
                ||| (v.counts == ctx.counts && v.ambiguous == ctx.ambiguous + 1 && v.no_feature
                    == ctx.no_feature && v.low_quality == ctx.low_quality && v.secondary
                    == ctx.secondary && v.supplementary == ctx.supplementary && v.nonunique
                    == ctx.nonunique)
                ||| (v.counts == ctx.counts && v.low_quality == ctx.low_quality + 1 && v.no_feature
                    == ctx.no_feature && v.ambiguous == ctx.ambiguous && v.secondary
                    == ctx.secondary && v.supplementary == ctx.supplementary && v.nonunique
                    == ctx.nonunique)
                ||| (v.counts == ctx.counts && v.secondary == ctx.secondary + 1 && v.no_feature
                    == ctx.no_feature && v.ambiguous == ctx.ambiguous && v.low_quality
                    == ctx.low_quality && v.supplementary == ctx.supplementary && v.nonunique
                    == ctx.nonunique)
                ||| (v.counts == ctx.counts && v.supplementary == ctx.supplementary + 1
                    && v.no_feature == ctx.no_feature && v.ambiguous == ctx.ambiguous
                    && v.low_quality == ctx.low_quality && v.secondary == ctx.secondary
                    && v.nonunique == ctx.nonunique)
                ||| (v.counts == ctx.counts && v.nonunique == ctx.nonunique + 1 && v.no_feature
                    == ctx.no_feature && v.ambiguous == ctx.ambiguous && v.low_quality
                    == ctx.low_quality && v.secondary == ctx.secondary && v.supplementary
                    == ctx.supplementary)
            }
        }),
{
    let v = spec_count_single(ctx, features, names, f, ss, r)->Ok_0;
    let d = spec_filter_decision(f, r);
    if d != FilterDecision::Keep {
        assert(v.counts == ctx.counts);
    } else {
        let w = spec_record_window(r)->Some_0;
        let id = r.reference_sequence_id->Some_0 as int;
        let hits = spec_query(features, names[id]@, w.0, w.1);
        let kept = spec_strand_filter(features, hits, r.spec_strand(), ss);
        lemma_matches_upto(
            features,
            query_pred(names[id]@, w.0, w.1),
            features.len() as int,
        );
        lemma_strand_filter(features, hits, r.spec_strand(), ss, features.len() as int);
        if kept.len() == 0 {
            assert(v.counts == ctx.counts);
        } else if kept.len() == 1 {
            assert(0 <= kept[0] < ctx.counts.len());
            lemma_sum_update(ctx.counts, kept[0]);
            assert(v.counts == ctx.counts.update(kept[0], ctx.counts[kept[0]] + 1));
        } else {
            assert(v.counts == ctx.counts);
        }
    }
}

/// Law: no-feature boundary. A kept, mapped record whose alignment interval
/// lies strictly outside every feature interval on its reference raises the
/// no-feature counter and no feature count.
pub proof fn lemma_no_feature_boundary(
    ctx: ContextView,
    features: Seq<Feature>,
    names: Seq<Vec<u8>>,
    f: Filter,
    ss: StrandSpecification,
    r: Record,
)
    requires
        ctx.counts.len() == features.len(),
        spec_filter_decision(f, r) == FilterDecision::Keep,
        spec_record_window(r) is Some,
        0 <= r.reference_sequence_id->Some_0 as int,
        (r.reference_sequence_id->Some_0 as int) < names.len(),
        forall|j: int|
            0 <= j < features.len() && (#[trigger] features[j]).reference_sequence_name@ == names[
                r.reference_sequence_id->Some_0 as int
            ]@ ==> (spec_record_window(r)->Some_0.1 < features[j].start || features[j].end
                < spec_record_window(r)->Some_0.0),
    ensures
        ({
            let result = spec_count_single(ctx, features, names, f, ss, r);
            &&& result matches Ok(v)
            &&& result->Ok_0.counts == ctx.counts
            &&& result->Ok_0.no_feature == ctx.no_feature + 1
            &&& result->Ok_0.ambiguous == ctx.ambiguous
            &&& result->Ok_0.total == ctx.total + 1
        }),
{
    let w = spec_record_window(r)->Some_0;
    let id = r.reference_sequence_id->Some_0 as int;
    let hits = spec_query(features, names[id]@, w.0, w.1);
    lemma_matches_upto(features, query_pred(names[id]@, w.0, w.1), features.len() as int);
    if hits.len() > 0 {
        let j = hits[0];
        assert(hits.contains(j));
        assert(hit(features[j], names[id]@, w.0, w.1));
        assert(false);
    }
    assert(hits =~= Seq::<int>::empty());
    assert(spec_strand_filter(features, hits, r.spec_strand(), ss) =~= Seq::<int>::empty());
}

/// The sum of a sequence of zero counts is zero.
proof fn lemma_sum_zero_counts(n: nat)
    ensures
        sum_counts(Seq::new(n, |i: int| 0int)) == 0,
    decreases n,
{
    if n > 0 {
        assert(Seq::new(n, |i: int| 0int).drop_last() =~= Seq::new((n - 1) as nat, |i: int| 0int));
        lemma_sum_zero_counts((n - 1) as nat);
    }
}

/// Each processed record raises the buckets' sum and the total by exactly
/// one, so both grow by the length of the stream.
proof fn lemma_count_singles_partition(
    ctx: ContextView,
    features: Seq<Feature>,
    names: Seq<Vec<u8>>,
    f: Filter,
    ss: StrandSpecification,
    records: Seq<Record>,
)
    requires
        !f.with_nonunique_records,
        ctx.counts.len() == features.len(),
        spec_count_singles(ctx, features, names, f, ss, records) is Ok,
    ensures
        ({
            let v = spec_count_singles(ctx, features, names, f, ss, records)->Ok_0;
            &&& v.total == ctx.total + records.len()
            &&& bucket_sum(v) == bucket_sum(ctx) + records.len()
            &&& v.counts.len() == ctx.counts.len()
        }),
    decreases records.len(),
{
    if records.len() > 0 {
        lemma_classification_partition(ctx, features, names, f, ss, records[0]);
        let v1 = spec_count_single(ctx, features, names, f, ss, records[0])->Ok_0;
        lemma_count_singles_partition(
            v1,
            features,
            names,
            f,
            ss,
            records.subrange(1, records.len() as int),
        );
    }
}

/// Law: over a whole single-end run from a fresh context, with multi-mapped
/// records disallowed, the classification buckets are exhaustive: their sum
/// equals the total, and both equal the number of input records.
pub proof fn lemma_run_partition(
    features: Seq<Feature>,
    names: Seq<Vec<u8>>,
    f: Filter,
    ss: StrandSpecification,
    records: Seq<Record>,
)
    requires
        !f.with_nonunique_records,
        spec_count_singles(
            spec_new_context(features.len()),
            features,
            names,
            f,
            ss,
            records,
        ) is Ok,
    ensures
        ({
            let v = spec_count_singles(
                spec_new_context(features.len()),
                features,
                names,
                f,
                ss,
                records,
            )->Ok_0;
            &&& v.total == records.len()
            &&& bucket_sum(v) == records.len()
        }),
{
    lemma_count_singles_partition(
        spec_new_context(features.len()),
        features,
        names,
        f,
        ss,
        records,
    );
    lemma_sum_zero_counts(features.len());
}

} // verus!
