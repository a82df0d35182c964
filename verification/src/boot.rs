//! The first two words of a firmware's vector table and what booting takes
//! from them.
use vstd::prelude::*;

verus! {

/// Where a firmware starts: its initial main stack pointer and the address
/// execution jumps to.
#[derive(Clone, Copy, PartialEq, Eq, Debug, Structural)]
pub struct BootVector {
    pub sp: u32,
    pub reset: u32,
}

/// The boot vector for a jump into non-secure firmware whose vector table
/// begins with `msp` and `reset`: the stack pointer as stored, and the reset
/// handler's address with its Thumb bit (bit 0) cleared.
pub fn nonsecure_boot_vector(msp: u32, reset: u32) -> (v: BootVector)
    ensures
        v.sp == msp,
        v.reset == reset & !1u32,
        v.reset == reset - reset % 2,
{
    let v = BootVector { sp: msp, reset: reset & !1u32 };
    assert(reset & !1u32 == reset - reset % 2) by (bit_vector);
    v
}

} // verus!
