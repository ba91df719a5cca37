//! A snapshot of the registers the processor-identification instruction fills.
use vstd::prelude::*;

verus! {

/// The four result registers of the processor-identification instruction.
#[derive(Clone, Copy, Debug)]
pub struct CpuidRegs {
    pub eax: u32,
    pub ebx: u32,
    pub ecx: u32,
    pub edx: u32,
}

impl CpuidRegs {
    /// All registers zero.
    pub fn new() -> (r: CpuidRegs)
        ensures
            r.eax == 0 && r.ebx == 0 && r.ecx == 0 && r.edx == 0,
    {
        CpuidRegs { eax: 0, ebx: 0, ecx: 0, edx: 0 }
    }
}

} // verus!
