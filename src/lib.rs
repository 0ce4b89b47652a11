//! Compressed-container formats: detection from magic bytes, a legacy LZ4
//! block encoder, and a writer that frames its output in a chosen format.
use vstd::prelude::*;

pub mod format;
pub mod lz4_legacy;
pub mod writer;

verus! {

} // verus!
