//! Selection of the quantification value written for each feature.

use vstd::prelude::*;

use crate::record::bytes_eq;

verus! {

/// How feature quantities are reported.
#[derive(Clone, Copy, Debug, PartialEq, Eq, Structural)]
pub enum QuantificationMethod {
    /// Raw per-feature counts.
    Count,
}

impl core::str::FromStr for QuantificationMethod {
    type Err = ();

    fn from_str(s: &str) -> Result<Self, Self::Err> {
        if bytes_eq(s.as_bytes(), "count".as_bytes()) {
            Ok(QuantificationMethod::Count)
        } else {
            Err(())
        }
    }
}

} // verus!
