//! Raw patches: replacement data for one bootloader.

use vstd::prelude::*;

verus! {

#[allow(non_camel_case_types)]
#[derive(Debug, Clone, Copy, PartialEq, Eq, Structural)]
pub enum RawPatchType {
    Cb,
    Cb_a,
    Cb_b,
    Cd,
    Ce,
    Khv,
}

pub struct RawPatch {
    pub header: RawPatchType,
    pub data: Vec<u8>,
}

} // verus!
