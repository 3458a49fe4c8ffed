//! The per-run (or per-region) accumulator: one count per feature plus the
//! named classification statistics. Merging two contexts sums them field by
//! field; the merge is associative and commutative, so partial contexts can
//! be folded in any completion order.

use vstd::prelude::*;

verus! {

/// The mathematical value of a [`Context`].
#[verifier::ext_equal]
pub ghost struct ContextView {
    /// One count per feature, indexed as the feature list handed to the
    /// feature index.
    pub counts: Seq<int>,
    /// Records or pairs overlapping no qualifying feature.
    pub no_feature: int,
    /// Records or pairs overlapping more than one qualifying feature.
    pub ambiguous: int,
    /// Records filtered out for low mapping quality.
    pub low_quality: int,
    /// Records filtered out as secondary alignments.
    pub secondary: int,
    /// Records filtered out as supplementary alignments.
    pub supplementary: int,
    /// Records filtered out as multi-mapping reads.
    pub nonunique: int,
    /// Every record or pair processed.
    pub total: int,
}

impl ContextView {
    /// Every count and counter is bounded by the number of processed inputs:
    /// each input raises each field by at most one.
    pub open spec fn wf(self) -> bool {
        &&& forall|i: int| 0 <= i < self.counts.len() ==> 0 <= #[trigger] self.counts[i] <= self.total
        &&& 0 <= self.no_feature <= self.total
        &&& 0 <= self.ambiguous <= self.total
        &&& 0 <= self.low_quality <= self.total
        &&& 0 <= self.secondary <= self.total
        &&& 0 <= self.supplementary <= self.total
        &&& 0 <= self.nonunique <= self.total
    }
}

/// The value of a freshly created context: one zero count per feature and
/// zeroed statistics.
pub open spec fn spec_new_context(feature_count: nat) -> ContextView {
    ContextView {
        counts: Seq::new(feature_count, |i: int| 0int),
        no_feature: 0,
        ambiguous: 0,
        low_quality: 0,
        secondary: 0,
        supplementary: 0,
        nonunique: 0,
        total: 0,
    }
}

/// The field-wise sum of two context values.
pub open spec fn spec_merge(a: ContextView, b: ContextView) -> ContextView {
    ContextView {
        counts: Seq::new(a.counts.len(), |i: int| a.counts[i] + b.counts[i]),
        no_feature: a.no_feature + b.no_feature,
        ambiguous: a.ambiguous + b.ambiguous,
        low_quality: a.low_quality + b.low_quality,
        secondary: a.secondary + b.secondary,
        supplementary: a.supplementary + b.supplementary,
        nonunique: a.nonunique + b.nonunique,
        total: a.total + b.total,
    }
}

/// Law: merging is commutative, field by field.
pub proof fn lemma_merge_commutative(a: ContextView, b: ContextView)
    requires
        a.counts.len() == b.counts.len(),
    ensures
        spec_merge(a, b) == spec_merge(b, a),
{
    assert(spec_merge(a, b) =~= spec_merge(b, a));
}

/// Law: merging is associative, field by field.
pub proof fn lemma_merge_associative(a: ContextView, b: ContextView, c: ContextView)
    requires
        a.counts.len() == b.counts.len(),
        b.counts.len() == c.counts.len(),
    ensures
        spec_merge(spec_merge(a, b), c) == spec_merge(a, spec_merge(b, c)),
{
    assert(spec_merge(spec_merge(a, b), c) =~= spec_merge(a, spec_merge(b, c)));
}

/// The accumulator of one logical counting pass: per-feature counts and the
/// named statistics. Owned exclusively by that pass; merging via [`Context::add`]
/// is the only cross-context operation.
pub struct Context {
    pub counts: Vec<u64>,
    pub no_feature: u64,
    pub ambiguous: u64,
    pub low_quality: u64,
    pub secondary: u64,
    pub supplementary: u64,
    pub nonunique: u64,
    pub total: u64,
}

impl View for Context {
    type V = ContextView;

    open spec fn view(&self) -> ContextView {
        ContextView {
            counts: self.counts@.map_values(|c: u64| c as int),
            no_feature: self.no_feature as int,
            ambiguous: self.ambiguous as int,
            low_quality: self.low_quality as int,
            secondary: self.secondary as int,
            supplementary: self.supplementary as int,
            nonunique: self.nonunique as int,
            total: self.total as int,
        }
    }
}

impl Context {
    /// A fresh context with one zero count per feature and zeroed statistics.
    #[verifier::loop_isolation(false)]
    pub fn new(feature_count: usize) -> (result: Context)
        ensures
            result@ == spec_new_context(feature_count as nat),
            result@.wf(),
    {
        let mut counts: Vec<u64> = Vec::new();
        let mut i: usize = 0;
        while i < feature_count
            invariant
                0 <= i <= feature_count,
                counts@.len() == i,
                forall|j: int| 0 <= j < i ==> counts@[j] == 0,
            decreases feature_count - i,
        {
            counts.push(0);
            i = i + 1;
        }
        let result = Context {
            counts,
            no_feature: 0,
            ambiguous: 0,
            low_quality: 0,
            secondary: 0,
            supplementary: 0,
            nonunique: 0,
            total: 0,
        };
        proof {
            assert(result@ =~= spec_new_context(feature_count as nat));
        }
        result
    }

    /// Folds `other` into `self`, summing every field. The per-input bound of
    /// [`ContextView::wf`] keeps every field within the machine limit once
    /// the summed totals fit.
    #[verifier::loop_isolation(false)]
    pub fn add(&mut self, other: &Context)
        requires
            old(self)@.wf(),
            other@.wf(),
            old(self)@.counts.len() == other@.counts.len(),
            old(self)@.total + other@.total <= u64::MAX,
        ensures
            final(self)@ == spec_merge(old(self)@, other@),
            final(self)@.wf(),
    {
        let n = self.counts.len();
        let mut merged: Vec<u64> = Vec::new();
        let mut i: usize = 0;
        while i < n
            invariant
                0 <= i <= n,
                n == self.counts@.len(),
                *self == *old(self),
                merged@.len() == i,
                forall|j: int| 0 <= j < i ==> merged@[j] == self.counts@[j] + other.counts@[j],
            decreases n - i,
        {
            assert(self@.counts[i as int] <= self@.total);
            assert(other@.counts[i as int] <= other@.total);
            merged.push(self.counts[i] + other.counts[i]);
            i = i + 1;
        }
        self.counts = merged;
        self.no_feature = self.no_feature + other.no_feature;
        self.ambiguous = self.ambiguous + other.ambiguous;
        self.low_quality = self.low_quality + other.low_quality;
        self.secondary = self.secondary + other.secondary;
        self.supplementary = self.supplementary + other.supplementary;
        self.nonunique = self.nonunique + other.nonunique;
        self.total = self.total + other.total;
        proof {
            assert(self@.counts =~= spec_merge(old(self)@, other@).counts);
            assert(self@ =~= spec_merge(old(self)@, other@));
        }
    }
}

} // verus!
