//! Process identifiers.
//!
//! A `Cid` names one coroutine. Identifiers come from a slot-keyed allocator
//! with generation tags (see the dispatcher's process table): the slot index
//! says where the process lives, the generation distinguishes successive
//! occupants of the same slot, so a stale identifier can never collide with a
//! live one. A `Cid` packs into a single 64-bit value, which is how it rides
//! through kernel event payloads.

use vstd::prelude::*;

verus! {

/// Unique identifier for one coroutine: slot index plus generation tag.
#[derive(Debug, Clone, Copy, PartialEq, Eq, Structural, Hash)]
pub struct Cid {
    pub idx: u32,
    pub gen: u32,
}

/// The packed 64-bit form of an identifier: generation in the high half,
/// slot index in the low half.
pub open spec fn spec_as_ffi(c: Cid) -> u64 {
    ((c.gen as u64) * 0x1_0000_0000 + (c.idx as u64)) as u64
}

/// The identifier a packed 64-bit value decodes to.
pub open spec fn spec_from_ffi(data: u64) -> Cid {
    Cid { idx: (data % 0x1_0000_0000) as u32, gen: (data / 0x1_0000_0000) as u32 }
}

impl Cid {
    /// Pack the identifier into one 64-bit value, for use as an opaque tag in
    /// kernel event payloads.
    pub fn as_ffi(self) -> (d: u64)
        ensures
            d == spec_as_ffi(self),
    {
        (self.gen as u64) * 0x1_0000_0000 + (self.idx as u64)
    }

    /// Recover an identifier from its packed 64-bit form. A stale or forged
    /// value decodes to an identifier that the process table safely reports
    /// as not live.
    pub fn from_ffi(data: u64) -> (c: Cid)
        ensures
            c == spec_from_ffi(data),
            c.idx == data % 0x1_0000_0000,
            c.gen == data / 0x1_0000_0000,
    {
        Cid { idx: (data % 0x1_0000_0000) as u32, gen: (data / 0x1_0000_0000) as u32 }
    }
}

/// Packing an identifier and unpacking it again yields the identifier back,
/// and the packed form is injective.
pub proof fn lemma_ffi_round_trip(c: Cid)
    ensures
        spec_as_ffi(c) % 0x1_0000_0000 == c.idx,
        spec_as_ffi(c) / 0x1_0000_0000 == c.gen,
{
    let g = c.gen as u64;
    let i = c.idx as u64;
    assert((g * 0x1_0000_0000 + i) % 0x1_0000_0000 == i && (g * 0x1_0000_0000 + i)
        / 0x1_0000_0000 == g) by (nonlinear_arith)
        requires
            g < 0x1_0000_0000,
            i < 0x1_0000_0000,
    ;
}

} // verus!
