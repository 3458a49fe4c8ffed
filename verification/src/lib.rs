//! Assignment of aligned sequencing reads to genomic features.
//!
//! The crate builds an interval-queryable feature index from a flat feature
//! list, reassembles paired-end records into mate pairs with a streaming
//! hash-join, infers library layout and strand specification from a sample
//! of the alignment stream, and classifies records or pairs into per-feature
//! counts and run statistics accumulated in a [`context::Context`].

pub mod context;
pub mod count;
pub mod detect;
pub mod features;
pub mod record;
pub mod record_pairs;
pub mod writer;
