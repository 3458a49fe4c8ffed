//! Streaming, order-independent reassembly of paired-end records into mate
//! pairs: an exact-match symmetric hash join keyed by [`RecordKey`].
//!
//! Memory grows with the number of concurrently unmatched reads: a stream
//! whose mates are never observed keeps them buffered until the end of the
//! stream, where they are drained as singletons.

use vstd::prelude::*;

use crate::record::{
    bytes_eq, clone_bytes, opt_u32_eq, pair_position, spec_pair_position, PairPosition, Record,
};

verus! {

/// The mathematical value of a [`RecordKey`].
#[verifier::ext_equal]
pub ghost struct KeyView {
    pub name: Seq<u8>,
    pub pair_position: PairPosition,
    pub reference_sequence_id: Option<u32>,
    pub position: Option<u32>,
    pub mate_reference_sequence_id: Option<u32>,
    pub mate_position: Option<u32>,
    pub template_length: int,
}

/// The composite key a record waiting for its mate is filed under: read name,
/// pair position, both placements, and template length.
#[derive(Debug, PartialEq, Eq)]
pub struct RecordKey {
    pub name: Vec<u8>,
    pub pair_position: PairPosition,
    pub reference_sequence_id: Option<u32>,
    pub position: Option<u32>,
    pub mate_reference_sequence_id: Option<u32>,
    pub mate_position: Option<u32>,
    pub template_length: i64,
}

impl View for RecordKey {
    type V = KeyView;

    open spec fn view(&self) -> KeyView {
        KeyView {
            name: self.name@,
            pair_position: self.pair_position,
            reference_sequence_id: self.reference_sequence_id,
            position: self.position,
            mate_reference_sequence_id: self.mate_reference_sequence_id,
            mate_position: self.mate_position,
            template_length: self.template_length as int,
        }
    }
}

/// Why a record could not be handled by the pairer.
#[derive(Clone, Copy, Debug, PartialEq, Eq, Structural)]
pub enum PairError {
    /// The record claims to be neither the first nor the last segment.
    MissingPairPosition,
    /// A record with the same key is already buffered.
    DuplicateKey,
}

/// The key a record files itself under.
pub open spec fn spec_key(r: Record, p: PairPosition) -> KeyView {
    KeyView {
        name: r.name@,
        pair_position: p,
        reference_sequence_id: r.reference_sequence_id,
        position: r.position,
        mate_reference_sequence_id: r.mate_reference_sequence_id,
        mate_position: r.mate_position,
        template_length: r.template_length as int,
    }
}

/// The key a record's mate would have filed itself under: placements swapped,
/// pair position flipped, template length negated.
pub open spec fn spec_mate_key(r: Record, p: PairPosition) -> KeyView {
    KeyView {
        name: r.name@,
        pair_position: p.spec_mate(),
        reference_sequence_id: r.mate_reference_sequence_id,
        position: r.mate_position,
        mate_reference_sequence_id: r.reference_sequence_id,
        mate_position: r.position,
        template_length: -(r.template_length as int),
    }
}

/// `m` carries the fields of `r`'s true mate: same read name, flipped pair
/// position, placements swapped, template length negated.
pub open spec fn mates(r: Record, m: Record) -> bool {
    &&& m.name@ == r.name@
    &&& spec_pair_position(r) matches Some(p) && spec_pair_position(m) == Some(p.spec_mate())
    &&& m.reference_sequence_id == r.mate_reference_sequence_id
    &&& m.position == r.mate_position
    &&& m.mate_reference_sequence_id == r.reference_sequence_id
    &&& m.mate_position == r.position
    &&& m.template_length as int == -(r.template_length as int)
}

/// Law: the mate key is the exact algebraic inverse of the key. For any
/// record `r` at pair position `p` whose true mate is `m`, `r`'s mate key
/// equals the key `m` files itself under.
pub proof fn lemma_mate_key_inverse(r: Record, m: Record, p: PairPosition)
    requires
        spec_pair_position(r) == Some(p),
        mates(r, m),
    ensures
        spec_mate_key(r, p) == spec_key(m, p.spec_mate()),
{
    assert(spec_mate_key(r, p) =~= spec_key(m, p.spec_mate()));
}

/// Builds the key `record` files itself under while waiting for its mate.
/// Fails exactly when the record has no pair position.
pub fn key(record: &Record) -> (result: Result<RecordKey, PairError>)
    ensures
        match spec_pair_position(*record) {
            Some(p) => result matches Ok(k) && k@ == spec_key(*record, p),
            None => result matches Err(e) && e == PairError::MissingPairPosition,
        },
{
    let p = match pair_position(record) {
        Some(p) => p,
        None => {
            return Err(PairError::MissingPairPosition);
        },
    };
    let k = RecordKey {
        name: clone_bytes(&record.name),
        pair_position: p,
        reference_sequence_id: record.reference_sequence_id,
        position: record.position,
        mate_reference_sequence_id: record.mate_reference_sequence_id,
        mate_position: record.mate_position,
        template_length: record.template_length as i64,
    };
    proof {
        assert(k@ =~= spec_key(*record, p));
    }
    Ok(k)
}

/// Builds the key `record`'s mate would have filed itself under.
/// Fails exactly when the record has no pair position.
pub fn mate_key(record: &Record) -> (result: Result<RecordKey, PairError>)
    ensures
        match spec_pair_position(*record) {
            Some(p) => result matches Ok(k) && k@ == spec_mate_key(*record, p),
            None => result matches Err(e) && e == PairError::MissingPairPosition,
        },
{
    let p = match pair_position(record) {
        Some(p) => p,
        None => {
            return Err(PairError::MissingPairPosition);
        },
    };
    let k = RecordKey {
        name: clone_bytes(&record.name),
        pair_position: p.mate(),
        reference_sequence_id: record.mate_reference_sequence_id,
        position: record.mate_position,
        mate_reference_sequence_id: record.reference_sequence_id,
        mate_position: record.position,
        template_length: -(record.template_length as i64),
    };
    proof {
        assert(k@ =~= spec_mate_key(*record, p));
    }
    Ok(k)
}

/// Equality of two keys, field by field.
pub fn record_key_eq(a: &RecordKey, b: &RecordKey) -> (result: bool)
    ensures
        result == (a@ == b@),
{
    let result = bytes_eq(a.name.as_slice(), b.name.as_slice()) && a.pair_position
        == b.pair_position && opt_u32_eq(a.reference_sequence_id, b.reference_sequence_id)
        && opt_u32_eq(a.position, b.position) && opt_u32_eq(
        a.mate_reference_sequence_id,
        b.mate_reference_sequence_id,
    ) && opt_u32_eq(a.mate_position, b.mate_position) && a.template_length == b.template_length;
    proof {
        if result {
            assert(a@ =~= b@);
        }
    }
    result
}

/// The record is a secondary or supplementary alignment.
pub open spec fn spec_not_primary(r: Record) -> bool {
    r.flags.secondary || r.flags.supplementary
}

fn is_not_primary(record: &Record) -> (result: bool)
    ensures
        result == spec_not_primary(*record),
{
    record.flags.secondary || record.flags.supplementary
}

/// No two buffered entries share a key.
pub open spec fn unique_keys(s: Seq<(RecordKey, Record)>) -> bool {
    forall|i: int, j: int| 0 <= i < j < s.len() ==> s[i].0@ != s[j].0@
}

/// The buffer as a mapping from key to buffered record.
pub open spec fn buf_map(s: Seq<(RecordKey, Record)>) -> Map<KeyView, Record>
    decreases s.len(),
{
    if s.len() == 0 {
        Map::empty()
    } else {
        buf_map(s.drop_last()).insert(s.last().0@, s.last().1)
    }
}

proof fn lemma_buf_map_contains(s: Seq<(RecordKey, Record)>, k: KeyView)
    ensures
        buf_map(s).dom().contains(k) <==> exists|i: int| 0 <= i < s.len() && s[i].0@ == k,
    decreases s.len(),
{
    if s.len() == 0 {
    } else {
        let dl = s.drop_last();
        lemma_buf_map_contains(dl, k);
        if s.last().0@ == k {
            assert(s[s.len() - 1].0@ == k);
        } else {
            if exists|i: int| 0 <= i < dl.len() && dl[i].0@ == k {
                let i = choose|i: int| 0 <= i < dl.len() && dl[i].0@ == k;
                assert(s[i].0@ == k);
            }
            if exists|i: int| 0 <= i < s.len() && s[i].0@ == k {
                let i = choose|i: int| 0 <= i < s.len() && s[i].0@ == k;
                assert(i < s.len() - 1);
                assert(dl[i].0@ == k);
            }
        }
    }
}

proof fn lemma_unique_drop_last(s: Seq<(RecordKey, Record)>)
    requires
        unique_keys(s),
        s.len() > 0,
    ensures
        unique_keys(s.drop_last()),
{
    assert forall|i: int, j: int|
        0 <= i < j < s.drop_last().len() implies s.drop_last()[i].0@ != s.drop_last()[j].0@ by {
        assert(s[i].0@ != s[j].0@);
    }
}

proof fn lemma_buf_map_get(s: Seq<(RecordKey, Record)>, i: int)
    requires
        unique_keys(s),
        0 <= i < s.len(),
    ensures
        buf_map(s).dom().contains(s[i].0@),
        buf_map(s)[s[i].0@] == s[i].1,
    decreases s.len(),
{
    if i == s.len() - 1 {
    } else {
        let dl = s.drop_last();
        lemma_unique_drop_last(s);
        lemma_buf_map_get(dl, i);
        assert(s.last().0@ != s[i].0@);
        assert(dl[i] == s[i]);
    }
}

proof fn lemma_buf_map_remove(s: Seq<(RecordKey, Record)>, i: int)
    requires
        unique_keys(s),
        0 <= i < s.len(),
    ensures
        buf_map(s.remove(i)) == buf_map(s).remove(s[i].0@),
    decreases s.len(),
{
    let k = s[i].0@;
    if i == s.len() - 1 {
        assert(s.remove(i) =~= s.drop_last());
        lemma_unique_drop_last(s);
        lemma_buf_map_contains(s.drop_last(), k);
        assert(forall|j: int|
            0 <= j < s.drop_last().len() ==> s.drop_last()[j].0@ != k);
        assert(!buf_map(s.drop_last()).dom().contains(k));
        assert(buf_map(s).remove(k) =~= buf_map(s.drop_last()));
    } else {
        let dl = s.drop_last();
        lemma_unique_drop_last(s);
        lemma_buf_map_remove(dl, i);
        assert(s.remove(i).drop_last() =~= dl.remove(i));
        assert(s.remove(i).len() > 0);
        assert(s.remove(i).last() == s.last());
        assert(buf_map(s.remove(i)) == buf_map(dl.remove(i)).insert(s.last().0@, s.last().1));
        assert(s.last().0@ != k);
        assert(buf_map(dl).remove(k).insert(s.last().0@, s.last().1) =~= buf_map(dl).insert(
            s.last().0@,
            s.last().1,
        ).remove(k));
    }
}

proof fn lemma_buf_map_push(s: Seq<(RecordKey, Record)>, e: (RecordKey, Record))
    ensures
        buf_map(s.push(e)) == buf_map(s).insert(e.0@, e.1),
{
    assert(s.push(e).drop_last() =~= s);
    assert(s.push(e).last() == e);
}

/// What one step of the pairer does to the buffer, and what it hands back.
pub ghost enum AddOutcome {
    /// The record was secondary or supplementary under the primary-only
    /// policy: discarded, neither buffered nor emitted.
    Skipped,
    /// The record has no pair position; nothing changes.
    MissingPairPosition,
    /// The record's mate was buffered: the pair is emitted, first mate first.
    Paired(Record, Record),
    /// A record with the same key is already buffered; nothing changes.
    Duplicate,
    /// No mate was buffered: the record is filed under its own key.
    Buffered,
}

/// One step of the streaming pairing algorithm over the buffer `m`: look the
/// incoming record's mate key up; emit the pair on a hit, file the record
/// under its own key otherwise.
pub open spec fn spec_add(m: Map<KeyView, Record>, primary_only: bool, r: Record) -> (
    Map<KeyView, Record>,
    AddOutcome,
) {
    if primary_only && spec_not_primary(r) {
        (m, AddOutcome::Skipped)
    } else {
        match spec_pair_position(r) {
            None => (m, AddOutcome::MissingPairPosition),
            Some(p) => {
                let mk = spec_mate_key(r, p);
                if m.dom().contains(mk) {
                    let mate = m[mk];
                    if mk.pair_position is First {
                        (m.remove(mk), AddOutcome::Paired(mate, r))
                    } else {
                        (m.remove(mk), AddOutcome::Paired(r, mate))
                    }
                } else if m.dom().contains(spec_key(r, p)) {
                    (m, AddOutcome::Duplicate)
                } else {
                    (m.insert(spec_key(r, p), r), AddOutcome::Buffered)
                }
            },
        }
    }
}

/// The streaming mate pairer: a buffer of records waiting for their mates,
/// keyed by [`RecordKey`].
pub struct RecordPairs {
    buf: Vec<(RecordKey, Record)>,
    /// Discard secondary and supplementary records instead of pairing them.
    pub primary_only: bool,
}

impl View for RecordPairs {
    type V = Map<KeyView, Record>;

    closed spec fn view(&self) -> Map<KeyView, Record> {
        buf_map(self.buf@)
    }
}

impl RecordPairs {
    /// No two buffered entries share a key.
    pub closed spec fn wf(&self) -> bool {
        unique_keys(self.buf@)
    }

    /// Whether secondary and supplementary records are discarded.
    pub closed spec fn is_primary_only(&self) -> bool {
        self.primary_only
    }

    /// The number of buffered records still waiting for a mate.
    pub closed spec fn spec_len(&self) -> nat {
        self.buf@.len()
    }

    pub fn new(primary_only: bool) -> (result: RecordPairs)
        ensures
            result.wf(),
            result@ == Map::<KeyView, Record>::empty(),
            result.is_primary_only() == primary_only,
            result.spec_len() == 0,
    {
        RecordPairs { buf: Vec::new(), primary_only }
    }

    /// The number of buffered records still waiting for a mate.
    pub fn len(&self) -> (result: usize)
        ensures
            result == self.spec_len(),
    {
        self.buf.len()
    }

    /// Feeds one record to the pairer; returns the reassembled pair, ordered
    /// first mate first, as soon as both mates have been seen.
    #[verifier::loop_isolation(false)]
    pub fn add(&mut self, record: Record) -> (result: Result<
        Option<(Record, Record)>,
        PairError,
    >)
        requires
            old(self).wf(),
        ensures
            final(self).wf(),
            final(self).is_primary_only() == old(self).is_primary_only(),
            ({
                let (m2, outcome) = spec_add(old(self)@, old(self).is_primary_only(), record);
                &&& final(self)@ == m2
                &&& match outcome {
                    AddOutcome::Skipped => result matches Ok(o) && o is None
                        && final(self).spec_len() == old(self).spec_len(),
                    AddOutcome::MissingPairPosition => result matches Err(e) && e
                        == PairError::MissingPairPosition
                        && final(self).spec_len() == old(self).spec_len(),
                    AddOutcome::Paired(a, b) => result matches Ok(o) && o matches Some(pr) && pr.0
                        == a && pr.1 == b && final(self).spec_len() == old(self).spec_len() - 1,
                    AddOutcome::Duplicate => result matches Err(e) && e == PairError::DuplicateKey
                        && final(self).spec_len() == old(self).spec_len(),
                    AddOutcome::Buffered => result matches Ok(o) && o is None
                        && final(self).spec_len() == old(self).spec_len() + 1,
                }
            }),
    {
        if self.primary_only && is_not_primary(&record) {
            return Ok(None);
        }
        let mk = match mate_key(&record) {
            Ok(k) => k,
            Err(e) => {
                return Err(e);
            },
        };
        let ghost p = spec_pair_position(record)->Some_0;
        let n = self.buf.len();
        let mut i: usize = 0;
        while i < n
            invariant
                *self == *old(self),
                n == self.buf@.len(),
                0 <= i <= n,
                forall|j: int| 0 <= j < i ==> self.buf@[j].0@ != mk@,
                mk@ == spec_mate_key(record, p),
                spec_pair_position(record) == Some(p),
            decreases n - i,
        {
            if record_key_eq(&self.buf[i].0, &mk) {
                proof {
                    lemma_buf_map_get(self.buf@, i as int);
                    lemma_buf_map_remove(self.buf@, i as int);
                    self.buf@.remove_ensures(i as int);
                    assert forall|a: int, b: int|
                        0 <= a < b < self.buf@.remove(i as int).len() implies self.buf@.remove(
                        i as int,
                    )[a].0@ != self.buf@.remove(i as int)[b].0@ by {
                        let s = self.buf@;
                        let aa: int = if a < i { a } else { a + 1 };
                        let bb: int = if b < i { b } else { b + 1 };
                        assert(s[aa].0@ != s[bb].0@);
                    }
                }
                let (_k, mate) = self.buf.remove(i);
                let pair = match mk.pair_position {
                    PairPosition::First => (mate, record),
                    PairPosition::Second => (record, mate),
                };
                return Ok(Some(pair));
            }
            i = i + 1;
        }
        proof {
            lemma_buf_map_contains(self.buf@, mk@);
            assert(!self@.dom().contains(spec_mate_key(record, p)));
        }
        let k = match key(&record) {
            Ok(k) => k,
            Err(e) => {
                proof {
                    assert(false);
                }
                return Err(e);
            },
        };
        let mut j: usize = 0;
        while j < n
            invariant
                *self == *old(self),
                n == self.buf@.len(),
                0 <= j <= n,
                forall|l: int| 0 <= l < j ==> self.buf@[l].0@ != k@,
                k@ == spec_key(record, p),
                spec_pair_position(record) == Some(p),
                !buf_map(self.buf@).dom().contains(spec_mate_key(record, p)),
            decreases n - j,
        {
            if record_key_eq(&self.buf[j].0, &k) {
                proof {
                    lemma_buf_map_contains(self.buf@, k@);
                }
                return Err(PairError::DuplicateKey);
            }
            j = j + 1;
        }
        proof {
            lemma_buf_map_contains(self.buf@, k@);
            lemma_buf_map_push(self.buf@, (k, record));
            assert(forall|l: int| 0 <= l < self.buf@.len() ==> self.buf@[l].0@ != k@);
        }
        let ghost before = self.buf@;
        self.buf.push((k, record));
        proof {
            assert forall|a: int, b: int|
                0 <= a < b < self.buf@.len() implies self.buf@[a].0@ != self.buf@[b].0@ by {
                if b < before.len() {
                    assert(before[a].0@ != before[b].0@);
                } else {
                    assert(before[a].0@ != k@);
                }
            }
        }
        Ok(None)
    }

    /// Drains the buffer: the records whose mates were never observed, in
    /// buffer order. Not an error — they are reported and then consumed as
    /// degraded single-end inputs.
    #[verifier::loop_isolation(false)]
    pub fn singletons(&mut self) -> (result: Singletons)
        requires
            old(self).wf(),
        ensures
            final(self).wf(),
            final(self)@ == Map::<KeyView, Record>::empty(),
            final(self).spec_len() == 0,
            final(self).is_primary_only() == old(self).is_primary_only(),
            result.records@.len() == old(self).spec_len(),
            forall|i: int|
                0 <= i < result.records@.len() ==> old(self)@.dom().contains(
                    #[trigger] result.records@[i].0@,
                ) && old(self)@[result.records@[i].0@] == result.records@[i].1,
    {
        let ghost orig = self.buf@;
        let mut drained: Vec<(RecordKey, Record)> = Vec::new();
        while self.buf.len() > 0
            invariant
                orig =~= drained@ + self.buf@,
                unique_keys(orig),
                self.primary_only == old(self).primary_only,
            decreases self.buf@.len(),
        {
            let e = self.buf.remove(0);
            drained.push(e);
            proof {
                assert(orig =~= drained@ + self.buf@);
            }
        }
        proof {
            assert(self.buf@ =~= Seq::<(RecordKey, Record)>::empty());
            assert(drained@ =~= orig);
            assert forall|i: int| 0 <= i < orig.len() implies buf_map(orig).dom().contains(
                #[trigger] orig[i].0@,
            ) && buf_map(orig)[orig[i].0@] == orig[i].1 by {
                lemma_buf_map_get(orig, i);
            }
        }
        Singletons { records: drained }
    }
}

/// The records drained from the pairer's buffer at end of stream, each still
/// carrying the key it was filed under.
pub struct Singletons {
    pub records: Vec<(RecordKey, Record)>,
}

impl Singletons {
    /// Hands the singletons out one at a time, in buffer order.
    pub fn next(&mut self) -> (result: Option<Record>)
        ensures
            match result {
                Some(r) => old(self).records@.len() > 0 && r == old(self).records@[0].1
                    && final(self).records@ == old(self).records@.subrange(
                    1,
                    old(self).records@.len() as int,
                ),
                None => old(self).records@.len() == 0 && final(self).records@ == old(
                    self,
                ).records@,
            },
    {
        if self.records.len() == 0 {
            return None;
        }
        let (_k, r) = self.records.remove(0);
        proof {
            assert(self.records@ =~= old(self).records@.subrange(
                1,
                old(self).records@.len() as int,
            ));
        }
        Some(r)
    }
}

/// Law: a stream holding exactly one First/Second mate pair, in either
/// arrival order, emits exactly that pair — ordered first mate first — on the
/// second step, and leaves the buffer empty.
pub proof fn lemma_pairing_completeness(r1: Record, r2: Record, p: PairPosition, primary_only: bool)
    requires
        spec_pair_position(r1) == Some(p),
        mates(r1, r2),
        primary_only ==> !spec_not_primary(r1) && !spec_not_primary(r2),
    ensures
        ({
            let (m1, o1) = spec_add(Map::empty(), primary_only, r1);
            let (m2, o2) = spec_add(m1, primary_only, r2);
            &&& o1 is Buffered
            &&& (p is First ==> o2 == AddOutcome::Paired(r1, r2))
            &&& (p is Second ==> o2 == AddOutcome::Paired(r2, r1))
            &&& m2 == Map::<KeyView, Record>::empty()
        }),
{
    let (m1, o1) = spec_add(Map::empty(), primary_only, r1);
    assert(!Map::<KeyView, Record>::empty().dom().contains(spec_mate_key(r1, p)));
    assert(m1 == Map::<KeyView, Record>::empty().insert(spec_key(r1, p), r1));
    lemma_mate_key_inverse(r1, r2, p);
    assert(mates(r2, r1)) by {
        assert(spec_pair_position(r2) == Some(p.spec_mate()));
    }
    lemma_mate_key_inverse(r2, r1, p.spec_mate());
    assert(spec_mate_key(r2, p.spec_mate()) == spec_key(r1, p));
    let (m2, o2) = spec_add(m1, primary_only, r2);
    assert(m1.dom().contains(spec_mate_key(r2, p.spec_mate())));
    assert(m1[spec_key(r1, p)] == r1);
    assert(spec_mate_key(r2, p.spec_mate()).pair_position == p);
    assert(m2 =~= Map::<KeyView, Record>::empty());
}

/// Law: a record whose mate never arrives is not emitted; it stays buffered
/// under its own key as the single singleton of the stream.
pub proof fn lemma_unmatched_record_is_singleton(r: Record, p: PairPosition, primary_only: bool)
    requires
        spec_pair_position(r) == Some(p),
        primary_only ==> !spec_not_primary(r),
    ensures
        ({
            let (m1, o1) = spec_add(Map::empty(), primary_only, r);
            &&& o1 is Buffered
            &&& m1.dom() == Set::<KeyView>::empty().insert(spec_key(r, p))
            &&& m1[spec_key(r, p)] == r
        }),
{
    let (m1, o1) = spec_add(Map::empty(), primary_only, r);
    assert(!Map::<KeyView, Record>::empty().dom().contains(spec_mate_key(r, p)));
    assert(!Map::<KeyView, Record>::empty().dom().contains(spec_key(r, p)));
    assert(m1.dom() =~= Set::<KeyView>::empty().insert(spec_key(r, p)));
}

} // verus!
