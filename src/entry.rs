use vstd::prelude::*;
use crate::mem::{Frame, PhysicalAddress};

verus! {

/// Bits 12..51 of an entry: the physical address it points to.
pub const PHYSADDR_MASK: u64 = 0x000f_ffff_ffff_f000;

pub const PRESENT: u64 = 1;
pub const WRITABLE: u64 = 2;
pub const USER_ACCESSIBLE: u64 = 4;
pub const WRITE_THROUGH: u64 = 8;
pub const NO_CACHE: u64 = 16;
pub const ACCESSED: u64 = 32;
pub const DIRTY: u64 = 64;
pub const HUGE_PAGE: u64 = 128;
pub const GLOBAL: u64 = 256;
pub const NO_EXECUTE: u64 = 0x8000_0000_0000_0000;

/// Every flag bit that an entry may carry.
pub const ALL_FLAGS: u64 = 0x8000_0000_0000_01ff;

/// Section header flags of an ELF file.
pub const SHF_WRITE: u64 = 1;
pub const SHF_ALLOC: u64 = 2;
pub const SHF_EXECINSTR: u64 = 4;

/// A set of page-table entry flags, as the bits they occupy.
#[derive(Debug, Clone, Copy, PartialEq, Eq, Structural)]
pub struct EntryFlags(pub u64);

impl EntryFlags {
    pub fn empty() -> (r: Self)
        ensures
            r.0 == 0,
    {
        EntryFlags(0)
    }

    /// The flags among `bits`, unknown bits dropped.
    pub fn from_bits_truncate(bits: u64) -> (r: Self)
        ensures
            r.0 == bits & ALL_FLAGS,
    {
        EntryFlags(bits & ALL_FLAGS)
    }

    pub fn bits(&self) -> (r: u64)
        ensures
            r == self.0,
    {
        self.0
    }

    pub fn contains(&self, other: EntryFlags) -> (r: bool)
        ensures
            r == (self.0 & other.0 == other.0),
    {
        self.0 & other.0 == other.0
    }

    pub fn union(&self, other: EntryFlags) -> (r: Self)
        ensures
            r.0 == self.0 | other.0,
    {
        EntryFlags(self.0 | other.0)
    }

    /// Mapping flags for a kernel ELF section: present when allocated, writable when
    /// written, not executable unless it holds instructions.
    pub fn from_elf_section_flags(section_flags: u64) -> (r: Self)
        ensures
            r.0 == (if section_flags & SHF_ALLOC != 0 { PRESENT } else { 0 })
                | (if section_flags & SHF_WRITE != 0 { WRITABLE } else { 0 })
                | (if section_flags & SHF_EXECINSTR == 0 { NO_EXECUTE } else { 0 }),
    {
        let a: u64 = if section_flags & SHF_ALLOC != 0 { PRESENT } else { 0 };
        let w: u64 = if section_flags & SHF_WRITE != 0 { WRITABLE } else { 0 };
        let x: u64 = if section_flags & SHF_EXECINSTR == 0 { NO_EXECUTE } else { 0 };
        EntryFlags(a | w | x)
    }
}

/// One 64-bit page-table entry.
#[derive(Debug, Clone, Copy, PartialEq, Eq, Structural)]
pub struct Entry(pub u64);

impl Entry {
    pub open spec fn is_present(&self) -> bool {
        self.0 & PRESENT != 0
    }

    pub open spec fn addr(&self) -> u64 {
        self.0 & PHYSADDR_MASK
    }

    pub fn zero() -> (r: Self)
        ensures
            r.0 == 0,
    {
        Entry(0)
    }

    pub fn is_zero(&self) -> (r: bool)
        ensures
            r == (self.0 == 0),
    {
        self.0 == 0
    }

    pub fn set_zero(&mut self)
        ensures
            final(self).0 == 0,
    {
        self.0 = 0;
    }

    pub fn flags(&self) -> (r: EntryFlags)
        ensures
            r.0 == self.0 & ALL_FLAGS,
    {
        EntryFlags::from_bits_truncate(self.0)
    }

    pub fn present(&self) -> (r: bool)
        ensures
            r == self.is_present(),
    {
        self.0 & PRESENT != 0
    }

    pub fn phys_addr(&self) -> (r: PhysicalAddress)
        ensures
            r.0 == self.addr(),
    {
        PhysicalAddress(self.0 & PHYSADDR_MASK)
    }

    /// The frame this entry points to, when present.
    pub fn pointed_frame(&self) -> (r: Option<Frame>)
        ensures
            self.is_present() ==> r == Some(Frame { number: self.addr() / 4096 }),
            !self.is_present() ==> r is None,
    {
        if self.present() {
            Some(Frame::containing_address(self.phys_addr()))
        } else {
            None
        }
    }

    /// Points the entry at `frame` with `flags`; the frame's address must fit in bits 12..51
    /// and the flags must stay out of them.
    pub fn set(&mut self, frame: Frame, flags: EntryFlags)
        requires
            frame.number < 0x100_0000_0000,
            flags.0 & PHYSADDR_MASK == 0,
        ensures
            final(self).0 == (frame.number * 4096) as u64 | flags.0,
            final(self).addr() == frame.number * 4096,
            final(self).0 & !PHYSADDR_MASK == flags.0,
    {
        let addr = frame.start_address();
        let a = addr.0;
        let f = flags.0;
        assert(a % 4096 == 0 && a < 0x10_0000_0000_0000) by (nonlinear_arith)
            requires a == frame.number * 4096, frame.number < 0x100_0000_0000;
        assert((a | f) & 0x000f_ffff_ffff_f000u64 == a && (a | f) & !0x000f_ffff_ffff_f000u64 == f) by (bit_vector)
            requires a % 4096 == 0, a < 0x10_0000_0000_0000u64, f & 0x000f_ffff_ffff_f000u64 == 0;
        self.0 = a | f;
    }

    pub fn set_flags(&mut self, flags: EntryFlags)
        ensures
            final(self).0 == old(self).0 | flags.0,
    {
        self.0 = self.0 | flags.0;
    }

    pub fn unset_flags(&mut self, flags: EntryFlags)
        ensures
            final(self).0 == old(self).0 & !flags.0,
    {
        self.0 = self.0 & !flags.0;
    }
}

} // verus!
