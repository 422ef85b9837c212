//! Packing of a (slot index, generation) pair into one machine-word-sized
//! integer, so that a handle can cross a host boundary that cannot share
//! the native two-field representation.
//!
//! Low 32 bits hold the slot index, high 32 bits the generation. Every
//! 64-bit value decodes, so a malformed handle decodes to a pair that the
//! store simply fails to find; decoding never faults.
use vstd::prelude::*;

verus! {

/// A handle flattened to a single integer for crossing the boundary.
pub type FlatHandle = u64;

/// The number of distinct slot indices (and generations): 2^32.
pub const HANDLE_DOMAIN: u64 = 0x1_0000_0000;

/// The slot index encoded in a flat handle: its low 32 bits.
pub open spec fn spec_handle_index(h: FlatHandle) -> int {
    h as int % HANDLE_DOMAIN as int
}

/// The generation encoded in a flat handle: its high 32 bits.
pub open spec fn spec_handle_generation(h: FlatHandle) -> int {
    h as int / HANDLE_DOMAIN as int
}

/// The flat encoding of a (slot index, generation) pair.
pub open spec fn spec_flat_handle(index: int, generation: int) -> int {
    index + generation * HANDLE_DOMAIN as int
}

/// Packs a slot index and a generation into one flat handle.
pub fn flat_handle(index: u32, generation: u32) -> (r: FlatHandle)
    ensures
        r as int == spec_flat_handle(index as int, generation as int),
        spec_handle_index(r) == index as int,
        spec_handle_generation(r) == generation as int,
{
    let r = (index as u64) + (generation as u64) * HANDLE_DOMAIN;
    proof {
        assert(spec_handle_index(r) == index as int && spec_handle_generation(r)
            == generation as int) by (nonlinear_arith)
            requires
                r as int == index as int + generation as int * 0x1_0000_0000,
                0 <= index as int,
                (index as int) < 0x1_0000_0000,
                0 <= generation as int,
                (generation as int) < 0x1_0000_0000,
        {
        }
    }
    r
}

/// Recovers the slot index (low 32 bits) of a flat handle.
pub fn handle_index(h: FlatHandle) -> (r: u32)
    ensures
        r as int == spec_handle_index(h),
{
    (h % HANDLE_DOMAIN) as u32
}

/// Recovers the generation (high 32 bits) of a flat handle.
pub fn handle_generation(h: FlatHandle) -> (r: u32)
    ensures
        r as int == spec_handle_generation(h),
{
    (h / HANDLE_DOMAIN) as u32
}

/// Decoding then re-encoding a flat handle gives the handle back: the
/// encoding loses nothing, and two handles are equal exactly when both
/// their index and their generation agree.
pub proof fn lemma_handle_round_trip(h: FlatHandle)
    ensures
        spec_flat_handle(spec_handle_index(h), spec_handle_generation(h)) == h as int,
        0 <= spec_handle_index(h) < HANDLE_DOMAIN as int,
        0 <= spec_handle_generation(h) < HANDLE_DOMAIN as int,
{
    assert(h as int % 0x1_0000_0000 + (h as int / 0x1_0000_0000) * 0x1_0000_0000 == h as int
        && 0 <= h as int % 0x1_0000_0000 && h as int % 0x1_0000_0000 < 0x1_0000_0000 && 0 <= h
        as int / 0x1_0000_0000 && h as int / 0x1_0000_0000 < 0x1_0000_0000) by (nonlinear_arith)
        requires
            0 <= h as int,
            (h as int) < 0x1_0000_0000 * 0x1_0000_0000,
    {
    }
}

} // verus!
