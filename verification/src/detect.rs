//! Library layout and strand specification inference from a bounded sample
//! of the alignment stream.

use vstd::prelude::*;

use crate::features::{lemma_matches_upto, query_pred, spec_query, Feature, FeatureIndex};
use crate::record::{record_window, spec_record_window, Record, Strand};

verus! {

/// Whether reads were sequenced singly or as mate pairs.
#[derive(Clone, Copy, Debug, PartialEq, Eq, Structural)]
pub enum LibraryLayout {
    SingleEnd,
    PairedEnd,
}

/// Whether the sequencing protocol preserves strand information and, if so,
/// its orientation convention.
#[derive(Clone, Copy, Debug, PartialEq, Eq, Structural)]
pub enum StrandSpecification {
    Unstranded,
    Forward,
    Reverse,
}

/// The caller's strand-specification choice: an explicit value, or automatic
/// detection.
#[derive(Clone, Copy, Debug, PartialEq, Eq, Structural)]
pub enum StrandSpecificationOption {
    Unstranded,
    Forward,
    Reverse,
    Auto,
}

/// Detection confidence as an exact evidence fraction: the winning evidence
/// count over the total evidence count. With no evidence both parts are zero.
#[derive(Clone, Copy, Debug, PartialEq, Eq, Structural)]
pub struct Confidence {
    pub numerator: usize,
    pub denominator: usize,
}

/// Paired layout as soon as any sampled record carries the paired flag,
/// single-end otherwise.
pub open spec fn spec_layout(sample: Seq<Record>) -> LibraryLayout {
    if exists|i: int| 0 <= i < sample.len() && sample[i].flags.paired {
        LibraryLayout::PairedEnd
    } else {
        LibraryLayout::SingleEnd
    }
}

/// What one sampled record contributes: `Some(true)` is evidence for a
/// forward-stranded library, `Some(false)` for a reverse-stranded one. Only
/// a mapped record overlapping exactly one feature with an annotated strand
/// contributes; it agrees when its alignment strand equals that strand.
pub open spec fn spec_evidence(features: Seq<Feature>, names: Seq<Vec<u8>>, r: Record) -> Option<
    bool,
> {
    match spec_record_window(r) {
        None => Option::None,
        Some(w) => {
            let id = r.reference_sequence_id->Some_0 as int;
            if id >= names.len() {
                Option::None
            } else {
                let hits = spec_query(features, names[id]@, w.0, w.1);
                if hits.len() == 1 {
                    match features[hits[0]].strand {
                        Strand::Unstranded => Option::None,
                        fs => Some(fs == r.spec_strand()),
                    }
                } else {
                    Option::None
                }
            }
        },
    }
}

/// The forward and reverse evidence accumulated over a sample.
pub open spec fn spec_evidence_counts(
    features: Seq<Feature>,
    names: Seq<Vec<u8>>,
    sample: Seq<Record>,
) -> (int, int)
    decreases sample.len(),
{
    if sample.len() == 0 {
        (0, 0)
    } else {
        let rest = spec_evidence_counts(features, names, sample.drop_last());
        match spec_evidence(features, names, sample.last()) {
            Some(true) => (rest.0 + 1, rest.1),
            Some(false) => (rest.0, rest.1 + 1),
            None => rest,
        }
    }
}

/// Each sampled record contributes at most one piece of evidence.
pub proof fn lemma_evidence_counts_bounds(
    features: Seq<Feature>,
    names: Seq<Vec<u8>>,
    sample: Seq<Record>,
)
    ensures
        0 <= spec_evidence_counts(features, names, sample).0,
        0 <= spec_evidence_counts(features, names, sample).1,
        spec_evidence_counts(features, names, sample).0 + spec_evidence_counts(
            features,
            names,
            sample,
        ).1 <= sample.len(),
    decreases sample.len(),
{
    if sample.len() > 0 {
        lemma_evidence_counts_bounds(features, names, sample.drop_last());
    }
}

/// The chosen specification: the side with more evidence, provided it holds
/// at least three quarters of the total; ties and low evidence fall back to
/// unstranded.
pub open spec fn spec_detected_specification(forward: int, reverse: int) -> StrandSpecification {
    let total = forward + reverse;
    let winning = if forward >= reverse {
        forward
    } else {
        reverse
    };
    if total > 0 && 4 * winning >= 3 * total && forward != reverse {
        if forward > reverse {
            StrandSpecification::Forward
        } else {
            StrandSpecification::Reverse
        }
    } else {
        StrandSpecification::Unstranded
    }
}

/// What one sampled record contributes as strand evidence.
fn record_evidence(
    record: &Record,
    index: &FeatureIndex,
    reference_names: &Vec<Vec<u8>>,
) -> (result: Option<bool>)
    ensures
        result == spec_evidence(index.features@, reference_names@, *record),
{
    let w = match record_window(record) {
        Some(w) => w,
        None => {
            return None;
        },
    };
    let id = match record.reference_sequence_id {
        Some(id) => id,
        None => {
            proof {
                assert(false);
            }
            return None;
        },
    };
    if id as usize >= reference_names.len() {
        return None;
    }
    let hits = index.query(reference_names[id as usize].as_slice(), w.0, w.1);
    proof {
        lemma_matches_upto(
            index.features@,
            query_pred(reference_names@[id as int]@, w.0 as int, w.1 as int),
            index.features@.len() as int,
        );
    }
    if hits.len() == 1 {
        let fi = hits[0];
        proof {
            assert(hits@.map_values(|u: usize| u as int)[0] == fi as int);
        }
        let f = &index.features[fi];
        match f.strand {
            Strand::Unstranded => None,
            Strand::Forward => Some(!record.flags.reverse_complemented),
            Strand::Reverse => Some(record.flags.reverse_complemented),
        }
    } else {
        None
    }
}

/// Samples the alignment stream against the feature index and infers
/// (layout, strand specification, confidence).
///
/// The layout scan stops at the first paired record. The confidence fraction
/// never exceeds one; with no evidence it is zero over zero and the
/// specification falls back to unstranded.
#[verifier::loop_isolation(false)]
pub fn detect_specification(
    sample: &Vec<Record>,
    index: &FeatureIndex,
    reference_names: &Vec<Vec<u8>>,
) -> (result: (LibraryLayout, StrandSpecification, Confidence))
    ensures
        result.0 == spec_layout(sample@),
        ({
            let counts = spec_evidence_counts(index.features@, reference_names@, sample@);
            &&& result.1 == spec_detected_specification(counts.0, counts.1)
            &&& result.2.denominator == counts.0 + counts.1
            &&& result.2.numerator == (if counts.0 >= counts.1 {
                counts.0
            } else {
                counts.1
            })
            &&& result.2.numerator <= result.2.denominator
        }),
{
    let n = sample.len();
    let mut paired = false;
    let mut i: usize = 0;
    while i < n && !paired
        invariant
            0 <= i <= n,
            paired ==> exists|j: int| 0 <= j < sample@.len() && sample@[j].flags.paired,
            !paired ==> forall|j: int| 0 <= j < i ==> !sample@[j].flags.paired,
        decreases n - i,
    {
        if sample[i].flags.paired {
            paired = true;
        }
        i = i + 1;
    }
    let layout = if paired {
        LibraryLayout::PairedEnd
    } else {
        LibraryLayout::SingleEnd
    };
    let mut forward: usize = 0;
    let mut reverse: usize = 0;
    let mut k: usize = 0;
    while k < n
        invariant
            0 <= k <= n,
            (forward as int, reverse as int) == spec_evidence_counts(
                index.features@,
                reference_names@,
                sample@.take(k as int),
            ),
        decreases n - k,
    {
        proof {
            lemma_evidence_counts_bounds(index.features@, reference_names@, sample@.take(k as int));
            assert(sample@.take(k + 1).drop_last() =~= sample@.take(k as int));
            assert(sample@.take(k + 1).last() == sample@[k as int]);
        }
        match record_evidence(&sample[k], index, reference_names) {
            Some(true) => {
                forward = forward + 1;
            },
            Some(false) => {
                reverse = reverse + 1;
            },
            None => {},
        }
        k = k + 1;
    }
    proof {
        assert(sample@.take(n as int) =~= sample@);
        lemma_evidence_counts_bounds(index.features@, reference_names@, sample@);
    }
    let total = forward + reverse;
    let winning = if forward >= reverse {
        forward
    } else {
        reverse
    };
    let specification = if total > 0 && (winning as u128) * 4 >= (total as u128) * 3 && forward
        != reverse {
        if forward > reverse {
            StrandSpecification::Forward
        } else {
            StrandSpecification::Reverse
        }
    } else {
        StrandSpecification::Unstranded
    };
    (layout, specification, Confidence { numerator: winning, denominator: total })
}

/// Resolves the caller's choice against the detected specification: automatic
/// mode adopts the detected value; an explicit value always wins, and a
/// difference from the detected one is a non-fatal mismatch to be surfaced as
/// a warning.
pub fn resolve_strand_specification(
    option: StrandSpecificationOption,
    detected: StrandSpecification,
) -> (result: (StrandSpecification, bool))
    ensures
        result.0 == (match option {
            StrandSpecificationOption::Unstranded => StrandSpecification::Unstranded,
            StrandSpecificationOption::Forward => StrandSpecification::Forward,
            StrandSpecificationOption::Reverse => StrandSpecification::Reverse,
            StrandSpecificationOption::Auto => detected,
        }),
        result.1 == (result.0 != detected),
{
    let chosen = match option {
        StrandSpecificationOption::Unstranded => StrandSpecification::Unstranded,
        StrandSpecificationOption::Forward => StrandSpecification::Forward,
        StrandSpecificationOption::Reverse => StrandSpecification::Reverse,
        StrandSpecificationOption::Auto => detected,
    };
    let mismatch = chosen != detected;
    (chosen, mismatch)
}

} // verus!
