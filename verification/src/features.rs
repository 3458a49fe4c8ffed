//! The feature index: a per-reference, interval-queryable collection of
//! annotated genomic features, built once per run and read-only afterwards.

use vstd::prelude::*;

use crate::record::{bytes_eq, Strand};

verus! {

/// An annotated genomic region: identifier, reference sequence, 1-based
/// inclusive interval, and strand. Immutable once loaded.
pub struct Feature {
    pub name: Vec<u8>,
    pub reference_sequence_name: Vec<u8>,
    /// 1-based inclusive leftmost coordinate.
    pub start: u64,
    /// 1-based inclusive rightmost coordinate.
    pub end: u64,
    pub strand: Strand,
}

/// The feature's interval is 1-based and non-empty.
pub open spec fn interval_ok(f: Feature) -> bool {
    1 <= f.start <= f.end
}

/// `f` lies on the reference called `name` and its interval intersects the
/// 1-based inclusive interval `[start, end]`.
pub open spec fn hit(f: Feature, name: Seq<u8>, start: int, end: int) -> bool {
    f.reference_sequence_name@ == name && f.start <= end && start <= f.end
}

/// No two features share an identifier.
pub open spec fn unique_names(s: Seq<Feature>) -> bool {
    forall|i: int, j: int| 0 <= i < j < s.len() ==> s[i].name@ != s[j].name@
}

/// Why a feature list was rejected at build time.
#[derive(Clone, Copy, Debug, PartialEq, Eq, Structural)]
pub enum BuildError {
    /// A feature's interval is empty or not 1-based.
    InvalidInterval,
    /// Two features share an identifier: ambiguous identifiers are a
    /// configuration error.
    DuplicateName,
}

/// The outcome of validating the feature list from index `i` on, in order:
/// at each feature, its interval is checked, then its name against all
/// earlier names.
pub open spec fn spec_build_from(s: Seq<Feature>, i: int) -> Result<(), BuildError>
    decreases s.len() - i,
{
    if i < 0 || i >= s.len() {
        Ok(())
    } else if !interval_ok(s[i]) {
        Err(BuildError::InvalidInterval)
    } else if exists|j: int| 0 <= j < i && s[j].name@ == s[i].name@ {
        Err(BuildError::DuplicateName)
    } else {
        spec_build_from(s, i + 1)
    }
}

/// Validation succeeds exactly when every interval is well formed and no two
/// features share a name.
pub proof fn lemma_build_ok(s: Seq<Feature>, i: int)
    requires
        0 <= i <= s.len(),
    ensures
        spec_build_from(s, i) is Ok <==> ((forall|j: int| i <= j < s.len() ==> interval_ok(s[j]))
            && (forall|a: int, b: int|
            0 <= a < b < s.len() && i <= b ==> s[a].name@ != s[b].name@)),
    decreases s.len() - i,
{
    if i < s.len() {
        lemma_build_ok(s, i + 1);
    }
}

/// The indexes, in increasing order, of the features satisfying `pred`,
/// among the first `n`.
pub open spec fn matches_upto(s: Seq<Feature>, pred: spec_fn(Feature) -> bool, n: int) -> Seq<int>
    decreases n,
{
    if n <= 0 {
        Seq::empty()
    } else {
        let rest = matches_upto(s, pred, n - 1);
        if pred(s[n - 1]) {
            rest.push(n - 1)
        } else {
            rest
        }
    }
}

/// The indexes of the matching features are exactly those whose feature
/// satisfies `pred`, each listed once, in increasing order.
pub proof fn lemma_matches_upto(s: Seq<Feature>, pred: spec_fn(Feature) -> bool, n: int)
    requires
        0 <= n <= s.len(),
    ensures
        forall|k: int|
            0 <= k < matches_upto(s, pred, n).len() ==> 0 <= #[trigger] matches_upto(
                s,
                pred,
                n,
            )[k] < n,
        forall|k1: int, k2: int|
            0 <= k1 < k2 < matches_upto(s, pred, n).len() ==> matches_upto(s, pred, n)[k1]
                < matches_upto(s, pred, n)[k2],
        forall|j: int| 0 <= j < n ==> (matches_upto(s, pred, n).contains(j) <==> pred(s[j])),
    decreases n,
{
    if n > 0 {
        lemma_matches_upto(s, pred, n - 1);
        let rest = matches_upto(s, pred, n - 1);
        let cur = matches_upto(s, pred, n);
        if pred(s[n - 1]) {
            assert(cur == rest.push(n - 1));
            assert(cur.contains(n - 1)) by {
                assert(cur[cur.len() - 1] == n - 1);
            }
            assert forall|j: int| 0 <= j < n implies (cur.contains(j) <==> pred(s[j])) by {
                if j < n - 1 {
                    if rest.contains(j) {
                        let k = choose|k: int| 0 <= k < rest.len() && rest[k] == j;
                        assert(cur[k] == j);
                    }
                    if cur.contains(j) {
                        let k = choose|k: int| 0 <= k < cur.len() && cur[k] == j;
                        assert(k < rest.len());
                        assert(rest[k] == j);
                    }
                }
            }
        } else {
            assert(cur == rest);
            assert forall|j: int| 0 <= j < n implies (cur.contains(j) <==> pred(s[j])) by {
                if j == n - 1 {
                    if cur.contains(j) {
                        let k = choose|k: int| 0 <= k < cur.len() && cur[k] == j;
                        assert(cur[k] < n - 1);
                    }
                }
            }
        }
    }
}

/// The predicate one overlap query tests: same reference, intersecting
/// intervals.
pub open spec fn query_pred(name: Seq<u8>, start: int, end: int) -> spec_fn(Feature) -> bool {
    |f: Feature| hit(f, name, start, end)
}

/// The indexes of the features a query for `[start, end]` on `name` returns.
pub open spec fn spec_query(s: Seq<Feature>, name: Seq<u8>, start: int, end: int) -> Seq<int> {
    matches_upto(s, query_pred(name, start, end), s.len() as int)
}

/// The predicate a mate-pair query tests: the feature intersects either
/// mate's aligned interval.
pub open spec fn pair_query_pred(
    name1: Seq<u8>,
    start1: int,
    end1: int,
    name2: Seq<u8>,
    start2: int,
    end2: int,
) -> spec_fn(Feature) -> bool {
    |f: Feature| hit(f, name1, start1, end1) || hit(f, name2, start2, end2)
}

/// The indexes of the features intersecting either of two aligned intervals.
pub open spec fn spec_pair_query(
    s: Seq<Feature>,
    name1: Seq<u8>,
    start1: int,
    end1: int,
    name2: Seq<u8>,
    start2: int,
    end2: int,
) -> Seq<int> {
    matches_upto(s, pair_query_pred(name1, start1, end1, name2, start2, end2), s.len() as int)
}

/// The queryable set of features: built once, read-only afterwards, and
/// therefore safe to share across concurrent readers.
pub struct FeatureIndex {
    pub features: Vec<Feature>,
}

impl FeatureIndex {
    /// Every interval is well formed and no two features share a name.
    pub open spec fn wf(&self) -> bool {
        (forall|j: int| 0 <= j < self.features@.len() ==> interval_ok(#[trigger] self.features@[j]))
            && unique_names(self.features@)
    }

    /// Builds the index, validating each feature in order: a malformed
    /// interval or a duplicate identifier is rejected.
    #[verifier::loop_isolation(false)]
    pub fn build(features: Vec<Feature>) -> (result: Result<FeatureIndex, BuildError>)
        ensures
            match result {
                Ok(ix) => spec_build_from(features@, 0) is Ok && ix.features == features
                    && ix.wf(),
                Err(e) => spec_build_from(features@, 0) == Err::<(), BuildError>(e),
            },
    {
        let n = features.len();
        let mut i: usize = 0;
        while i < n
            invariant
                0 <= i <= n,
                spec_build_from(features@, 0) == spec_build_from(features@, i as int),
            decreases n - i,
        {
            let f = &features[i];
            if !(1 <= f.start && f.start <= f.end) {
                return Err(BuildError::InvalidInterval);
            }
            let mut j: usize = 0;
            while j < i
                invariant
                    0 <= j <= i < n,
                    forall|l: int| 0 <= l < j ==> features@[l].name@ != features@[i as int].name@,
                decreases i - j,
            {
                if bytes_eq(features[j].name.as_slice(), features[i].name.as_slice()) {
                    return Err(BuildError::DuplicateName);
                }
                j = j + 1;
            }
            i = i + 1;
        }
        proof {
            lemma_build_ok(features@, 0);
        }
        Ok(FeatureIndex { features })
    }

    /// Every feature on the reference called `reference_name` whose interval
    /// intersects `[start, end]`, as indexes into the feature list, in
    /// increasing order. Read-only; an empty result is not an error.
    #[verifier::loop_isolation(false)]
    pub fn query(&self, reference_name: &[u8], start: u64, end: u64) -> (result: Vec<usize>)
        ensures
            result@.map_values(|u: usize| u as int) == spec_query(
                self.features@,
                reference_name@,
                start as int,
                end as int,
            ),
    {
        let ghost pred = query_pred(reference_name@, start as int, end as int);
        let mut out: Vec<usize> = Vec::new();
        let n = self.features.len();
        let mut i: usize = 0;
        while i < n
            invariant
                0 <= i <= n,
                out@.map_values(|u: usize| u as int) == matches_upto(
                    self.features@,
                    pred,
                    i as int,
                ),
            decreases n - i,
        {
            let f = &self.features[i];
            let ghost before = out@;
            if bytes_eq(f.reference_sequence_name.as_slice(), reference_name) && f.start <= end
                && start <= f.end {
                out.push(i);
                proof {
                    assert(out@.map_values(|u: usize| u as int) =~= before.map_values(
                        |u: usize| u as int,
                    ).push(i as int));
                }
            }
            i = i + 1;
        }
        out
    }

    /// Every feature intersecting either mate's aligned interval, as indexes
    /// into the feature list, in increasing order and each listed once — a
    /// pair whose mates both cover a feature yields it once.
    #[verifier::loop_isolation(false)]
    pub fn pair_query(
        &self,
        reference_name_1: &[u8],
        start_1: u64,
        end_1: u64,
        reference_name_2: &[u8],
        start_2: u64,
        end_2: u64,
    ) -> (result: Vec<usize>)
        ensures
            result@.map_values(|u: usize| u as int) == spec_pair_query(
                self.features@,
                reference_name_1@,
                start_1 as int,
                end_1 as int,
                reference_name_2@,
                start_2 as int,
                end_2 as int,
            ),
    {
        let ghost pred = pair_query_pred(
            reference_name_1@,
            start_1 as int,
            end_1 as int,
            reference_name_2@,
            start_2 as int,
            end_2 as int,
        );
        let mut out: Vec<usize> = Vec::new();
        let n = self.features.len();
        let mut i: usize = 0;
        while i < n
            invariant
                0 <= i <= n,
                out@.map_values(|u: usize| u as int) == matches_upto(
                    self.features@,
                    pred,
                    i as int,
                ),
            decreases n - i,
        {
            let f = &self.features[i];
            let ghost before = out@;
            let hit_1 = bytes_eq(f.reference_sequence_name.as_slice(), reference_name_1)
                && f.start <= end_1 && start_1 <= f.end;
            let hit_2 = bytes_eq(f.reference_sequence_name.as_slice(), reference_name_2)
                && f.start <= end_2 && start_2 <= f.end;
            if hit_1 || hit_2 {
                out.push(i);
                proof {
                    assert(out@.map_values(|u: usize| u as int) =~= before.map_values(
                        |u: usize| u as int,
                    ).push(i as int));
                }
            }
            i = i + 1;
        }
        out
    }
}

} // verus!
