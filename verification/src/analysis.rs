//! Reading a captured program counter.

use vstd::prelude::*;
use crate::bytes::{le_u32, u32_from_le};

verus! {

/// A captured program counter: the number of bytes that were captured, the
/// index of the function, and the offset within it.
#[derive(Clone, Copy, Debug, PartialEq, Eq, Structural)]
pub struct ProgramCounter {
    pub size: usize,
    pub fidx: u32,
    pub offset: u32,
}

/// Reads a captured program counter: the index of the function in the first
/// four bytes and the offset in the next four, both little-endian.
pub fn analysis_pc(buf: &[u8]) -> (pc: ProgramCounter)
    requires
        buf@.len() >= 8,
    ensures
        pc.size == buf@.len(),
        pc.fidx == le_u32(buf@.subrange(0, 4)),
        pc.offset == le_u32(buf@.subrange(4, 8)),
{
    ProgramCounter { size: buf.len(), fidx: u32_from_le(buf, 0), offset: u32_from_le(buf, 4) }
}

} // verus!
