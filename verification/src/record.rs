//! The alignment record model: the attributes of one aligned read that the
//! counting, pairing, and detection logic reads.

use vstd::prelude::*;

verus! {

/// Which mate of a template a record represents.
#[derive(Clone, Copy, Debug, PartialEq, Eq, Hash, Structural)]
pub enum PairPosition {
    First,
    Second,
}

impl PairPosition {
    /// The position of this record's mate.
    pub open spec fn spec_mate(self) -> PairPosition {
        match self {
            PairPosition::First => PairPosition::Second,
            PairPosition::Second => PairPosition::First,
        }
    }

    /// The position of this record's mate.
    #[verifier::when_used_as_spec(spec_mate)]
    pub fn mate(self) -> (result: PairPosition)
        ensures
            result == self.spec_mate(),
    {
        match self {
            PairPosition::First => PairPosition::Second,
            PairPosition::Second => PairPosition::First,
        }
    }
}

/// The annotated strand of a feature, or the alignment strand of a read.
#[derive(Clone, Copy, Debug, PartialEq, Eq, Structural)]
pub enum Strand {
    Forward,
    Reverse,
    Unstranded,
}

/// The subset of a record's flag word that the engine reads.
#[derive(Clone, Copy, Debug, PartialEq, Eq, Structural)]
pub struct Flags {
    /// The template has multiple segments (the read was sequenced as a pair).
    pub paired: bool,
    /// The record is the first segment of its template.
    pub read_1: bool,
    /// The record is the last segment of its template.
    pub read_2: bool,
    /// The record is a secondary alignment.
    pub secondary: bool,
    /// The record is a supplementary alignment.
    pub supplementary: bool,
    /// The read aligned to the reverse strand.
    pub reverse_complemented: bool,
}

/// One aligned read, reduced to the plain values the engine classifies.
///
/// Positions are 1-based and inclusive; `alignment_span` is the number of
/// reference bases the alignment covers, so a mapped record covers
/// `[position, position + alignment_span - 1]`.
#[derive(Debug, PartialEq, Eq)]
pub struct Record {
    /// The read name.
    pub name: Vec<u8>,
    pub flags: Flags,
    /// The index of the reference sequence the record aligned to.
    pub reference_sequence_id: Option<u32>,
    /// The 1-based leftmost position of the alignment.
    pub position: Option<u32>,
    pub mate_reference_sequence_id: Option<u32>,
    pub mate_position: Option<u32>,
    pub template_length: i32,
    pub mapping_quality: u8,
    /// The number of reference bases covered by the alignment.
    pub alignment_span: u32,
    /// The read aligned equally well elsewhere (a multi-mapping read).
    pub nonunique: bool,
}

impl Record {
    /// The read's alignment strand.
    pub open spec fn spec_strand(&self) -> Strand {
        if self.flags.reverse_complemented {
            Strand::Reverse
        } else {
            Strand::Forward
        }
    }

    #[verifier::when_used_as_spec(spec_strand)]
    pub fn strand(&self) -> (result: Strand)
        ensures
            result == self.spec_strand(),
    {
        if self.flags.reverse_complemented {
            Strand::Reverse
        } else {
            Strand::Forward
        }
    }
}

/// The 1-based inclusive interval a mapped record covers on its reference:
/// `[position, position + alignment_span - 1]`. A record without a reference,
/// without a position, with a zero position, or with an empty alignment has
/// no interval — its required fields are missing or malformed.
pub open spec fn spec_record_window(r: Record) -> Option<(int, int)> {
    match (r.reference_sequence_id, r.position) {
        (Some(_id), Some(pos)) => if pos >= 1 && r.alignment_span >= 1 {
            Some((pos as int, pos + r.alignment_span - 1))
        } else {
            None
        },
        _ => None,
    }
}

/// The 1-based inclusive interval a mapped record covers on its reference.
pub fn record_window(r: &Record) -> (result: Option<(u64, u64)>)
    ensures
        match spec_record_window(*r) {
            Some(w) => result matches Some(v) && v.0 == w.0 && v.1 == w.1,
            None => result is None,
        },
{
    match (r.reference_sequence_id, r.position) {
        (Some(_id), Some(pos)) => {
            if pos >= 1 && r.alignment_span >= 1 {
                let start = pos as u64;
                let end = pos as u64 + r.alignment_span as u64 - 1;
                Some((start, end))
            } else {
                None
            }
        },
        _ => None,
    }
}

/// The mate a record represents, derived from its flags: the first segment
/// maps to `First`, the last to `Second`, and a record that claims neither
/// has no pair position.
pub open spec fn spec_pair_position(r: Record) -> Option<PairPosition> {
    if r.flags.read_1 {
        Some(PairPosition::First)
    } else if r.flags.read_2 {
        Some(PairPosition::Second)
    } else {
        None
    }
}

pub fn pair_position(r: &Record) -> (result: Option<PairPosition>)
    ensures
        result == spec_pair_position(*r),
{
    if r.flags.read_1 {
        Some(PairPosition::First)
    } else if r.flags.read_2 {
        Some(PairPosition::Second)
    } else {
        None
    }
}

/// Equality of two byte strings, element by element.
pub fn bytes_eq(a: &[u8], b: &[u8]) -> (result: bool)
    ensures
        result == (a@ == b@),
{
    if a.len() != b.len() {
        assert(a@ != b@) by {
            assert(a@.len() != b@.len());
        }
        return false;
    }
    let n = a.len();
    let mut i: usize = 0;
    while i < n
        invariant
            n == a@.len() == b@.len(),
            0 <= i <= n,
            forall|j: int| 0 <= j < i ==> a@[j] == b@[j],
        decreases n - i,
    {
        if a[i] != b[i] {
            return false;
        }
        i = i + 1;
    }
    proof {
        assert(a@ =~= b@);
    }
    true
}

/// An owned copy of a byte string.
pub fn clone_bytes(v: &Vec<u8>) -> (result: Vec<u8>)
    ensures
        result@ == v@,
{
    let mut out: Vec<u8> = Vec::new();
    let mut i: usize = 0;
    while i < v.len()
        invariant
            0 <= i <= v@.len(),
            out@.len() == i,
            forall|j: int| 0 <= j < i ==> out@[j] == v@[j],
        decreases v@.len() - i,
    {
        out.push(v[i]);
        i = i + 1;
    }
    proof {
        assert(out@ =~= v@);
    }
    out
}

/// Equality of two optional reference ids or positions.
pub fn opt_u32_eq(a: Option<u32>, b: Option<u32>) -> (result: bool)
    ensures
        result == (a == b),
{
    match (a, b) {
        (Option::None, Option::None) => true,
        (Option::Some(x), Option::Some(y)) => x == y,
        _ => false,
    }
}

} // verus!
