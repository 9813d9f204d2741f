//! Where the two chained 8259 interrupt controllers deliver their lines.
use vstd::prelude::*;

verus! {

/// Vector of the first controller's line 0 (lines 0 to 7 follow it).
pub const PIC_1_OFFSET: u8 = 32;

/// Vector of the second controller's line 8 (lines 8 to 15 follow it).
pub const PIC_2_OFFSET: u8 = 40;

/// Interrupt mask of the first controller: only the timer (line 0), the
/// keyboard (line 1) and the first serial port (line 4) are let through.
pub const PIC_1_MASK: u8 = 0xEC;

/// Interrupt mask of the second controller: every line masked.
pub const PIC_2_MASK: u8 = 0xFF;

/// The hardware interrupts the kernel handles.
#[derive(Debug, Clone, Copy, PartialEq, Eq, Structural)]
pub enum InterruptIndex {
    /// Line 0.
    Timer,
    /// Line 1.
    Keyboard,
    /// Line 4.
    Serial1,
}

/// The interrupt vector an interrupt line is remapped to.
pub open spec fn vector_of(i: InterruptIndex) -> u8 {
    match i {
        InterruptIndex::Timer => 32,
        InterruptIndex::Keyboard => 33,
        InterruptIndex::Serial1 => 36,
    }
}

impl InterruptIndex {
    /// The interrupt vector the line is delivered at.
    pub fn as_u8(self) -> (r: u8)
        ensures
            r == vector_of(self),
    {
        match self {
            InterruptIndex::Timer => PIC_1_OFFSET,
            InterruptIndex::Keyboard => PIC_1_OFFSET + 1,
            InterruptIndex::Serial1 => PIC_1_OFFSET + 4,
        }
    }

    /// The interrupt vector, as an index.
    pub fn as_usize(self) -> (r: usize)
        ensures
            r == vector_of(self),
    {
        self.as_u8() as usize
    }
}

} // verus!
