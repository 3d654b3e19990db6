//! Interrupt vectors and the timer tick counter.

use vstd::prelude::*;

verus! {

/// Vector base of the primary PIC.
pub const PIC_1_OFFSET: u8 = 32;
/// Vector base of the secondary PIC.
pub const PIC_2_OFFSET: u8 = 40;

/// Hardware interrupt lines the kernel handles.
#[derive(Debug, Clone, Copy)]
pub enum InterruptIndex {
    Timer,
    Keyboard,
    Mouse,
}

impl InterruptIndex {
    /// The IDT vector of this line: timer 32, keyboard 33, mouse 44.
    pub fn as_u8(self) -> (v: u8)
        ensures
            v == match self {
                InterruptIndex::Timer => PIC_1_OFFSET,
                InterruptIndex::Keyboard => (PIC_1_OFFSET + 1) as u8,
                InterruptIndex::Mouse => (PIC_1_OFFSET + 12) as u8,
            },
    {
        match self {
            InterruptIndex::Timer => PIC_1_OFFSET,
            InterruptIndex::Keyboard => PIC_1_OFFSET + 1,
            InterruptIndex::Mouse => PIC_1_OFFSET + 12,
        }
    }
}

/// The monotonic timer tick counter (PIT default rate, ~18.2 Hz).
pub struct TickCounter {
    pub count: u64,
}

impl TickCounter {
    /// Zero ticks since boot.
    pub fn new() -> (t: TickCounter)
        ensures
            t.count == 0,
    {
        TickCounter { count: 0 }
    }

    /// One timer interrupt.
    pub fn tick(&mut self)
        ensures
            final(self).count == old(self).count.wrapping_add(1),
    {
        self.count = self.count.wrapping_add(1);
    }
}

/// Monotonic timer ticks since boot.
pub fn ticks(t: &TickCounter) -> (n: u64)
    ensures
        n == t.count,
{
    t.count
}

} // verus!
