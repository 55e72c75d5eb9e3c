//! Kinds of patch files.

use vstd::prelude::*;

verus! {

#[derive(Debug, Clone, Copy, PartialEq, Eq, Structural)]
pub enum PatchType {
    XeBuidPatch,
    RawPatch,
    Unknown,
}

} // verus!
