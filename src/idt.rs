use vstd::prelude::*;

verus! {

/// Number of vectors the descriptor table holds.
pub const IDT_ENTRIES: usize = 48;

/// Gate kinds of a descriptor.
#[derive(Debug, Clone, Copy, PartialEq, Eq, Structural)]
pub enum GateType {
    Interrupt,
    Trap,
}

/// The option bits of a gate descriptor.
#[derive(Debug, Clone, Copy, PartialEq, Eq, Structural)]
pub struct Options {
    pub stack_table: u8,
    pub gate_type: GateType,
    pub dpl: u8,
    pub present: bool,
}

/// The 16-bit encoding of `o`: present (15), DPL (13..14), type (8..11), IST (0..2).
pub open spec fn options_bits(o: Options) -> int {
    (if o.present { 0x8000int } else { 0 }) + (o.dpl as int % 4) * 0x2000 + 0xe00
        + (if o.gate_type == GateType::Trap { 0x100int } else { 0 }) + o.stack_table as int % 8
}

impl Options {
    /// Not present, ring 0, interrupt gate, no stack switch.
    pub fn minimal() -> (r: Self)
        ensures
            r == (Options { stack_table: 0, gate_type: GateType::Interrupt, dpl: 0, present: false }),
    {
        Options { stack_table: 0, gate_type: GateType::Interrupt, dpl: 0, present: false }
    }

    pub fn bits(&self) -> (r: u16)
        ensures
            r == options_bits(*self),
    {
        let p: u16 = if self.present { 0x8000 } else { 0 };
        let t: u16 = match self.gate_type {
            GateType::Trap => 0x100,
            GateType::Interrupt => 0,
        };
        p + (self.dpl as u16 % 4) * 0x2000 + 0xe00 + t + self.stack_table as u16 % 8
    }
}

/// A 16-byte gate descriptor.
#[derive(Debug, Clone, Copy, PartialEq, Eq, Structural)]
pub struct InterruptDescriptor {
    pub offset_1: u16,
    pub selector: u16,
    pub options: u16,
    pub offset_2: u16,
    pub offset_3: u32,
    pub reserved: u32,
}

impl InterruptDescriptor {
    pub open spec fn handler(&self) -> int {
        self.offset_1 as int + self.offset_2 as int * 0x1_0000 + self.offset_3 as int * 0x1_0000_0000
    }

    /// A gate to `handler` through code segment `selector`.
    pub fn new(handler: u64, selector: u16, options: Options) -> (r: Self)
        ensures
            r.handler() == handler,
            r.selector == selector,
            r.options == options_bits(options),
            r.reserved == 0,
    {
        let o1 = (handler % 0x1_0000) as u16;
        let o2 = ((handler / 0x1_0000) % 0x1_0000) as u16;
        let o3 = (handler / 0x1_0000_0000) as u32;
        InterruptDescriptor {
            offset_1: o1,
            selector,
            options: options.bits(),
            offset_2: o2,
            offset_3: o3,
            reserved: 0,
        }
    }

    /// An absent gate.
    pub fn missing(selector: u16) -> (r: Self)
        ensures
            r.handler() == 0,
            r.selector == selector,
            r.options == options_bits(Options { stack_table: 0, gate_type: GateType::Interrupt, dpl: 0, present: false }),
            r.reserved == 0,
    {
        InterruptDescriptor {
            offset_1: 0,
            selector,
            options: Options::minimal().bits(),
            offset_2: 0,
            offset_3: 0,
            reserved: 0,
        }
    }
}

/// The table of gates, indexed by vector.
pub struct InterruptDescriptorTable {
    pub entries: Vec<InterruptDescriptor>,
}

impl InterruptDescriptorTable {
    pub fn new(selector: u16) -> (r: Self)
        ensures
            r.entries@.len() == IDT_ENTRIES,
            forall|i: int| 0 <= i < IDT_ENTRIES ==> r.entries@[i] == (InterruptDescriptor {
                offset_1: 0, selector, options: 0xe00, offset_2: 0, offset_3: 0, reserved: 0 }),
    {
        let mut entries: Vec<InterruptDescriptor> = Vec::new();
        let mut i: usize = 0;
        while i < IDT_ENTRIES
            invariant
                i <= IDT_ENTRIES,
                entries@.len() == i,
                forall|k: int| 0 <= k < i ==> entries@[k] == (InterruptDescriptor {
                    offset_1: 0, selector, options: 0xe00, offset_2: 0, offset_3: 0, reserved: 0 }),
            decreases IDT_ENTRIES - i,
        {
            entries.push(InterruptDescriptor::missing(selector));
            i = i + 1;
        }
        InterruptDescriptorTable { entries }
    }

    /// Installs a present gate to `handler` at vector `index`, callable from ring `dpl`.
    pub fn add_handler(&mut self, index: usize, handler: u64, selector: u16, dpl: u8)
        requires
            index < old(self).entries@.len(),
            dpl < 4,
        ensures
            final(self).entries@.len() == old(self).entries@.len(),
            forall|i: int| 0 <= i < final(self).entries@.len() && i != index ==> final(self).entries@[i] == old(self).entries@[i],
            final(self).entries@[index as int].handler() == handler,
            final(self).entries@[index as int].selector == selector,
            final(self).entries@[index as int].options == 0x8e00 + dpl as int * 0x2000,
    {
        let o = Options { stack_table: 0, gate_type: GateType::Interrupt, dpl, present: true };
        let d = InterruptDescriptor::new(handler, selector, o);
        self.entries.set(index, d);
    }
}

} // verus!
