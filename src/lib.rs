use vstd::prelude::*;

pub mod mem;
pub mod bitmap;
pub mod timers;
pub mod sched;
pub mod entry;
pub mod table;
pub mod multiboot;
pub mod idt;
pub mod ioapic;
pub mod gdt;
pub mod task;
pub mod direct;

verus! {

} // verus!
