use vstd::prelude::*;
use crate::mem::{PhysicalAddress, VirtualAddress};

verus! {

/// Kind of a firmware memory region.
#[derive(Debug, Clone, Copy, PartialEq, Eq, Structural)]
pub enum MemMapEntryType {
    Ram,
    Acpi,
    Preserved,
    DefectiveRam,
    Other(u32),
}

impl MemMapEntryType {
    pub fn from_u32(value: u32) -> (r: Self)
        ensures
            value == 1 ==> r == MemMapEntryType::Ram,
            value == 3 ==> r == MemMapEntryType::Acpi,
            value == 4 ==> r == MemMapEntryType::Preserved,
            value == 5 ==> r == MemMapEntryType::DefectiveRam,
            value != 1 && value != 3 && value != 4 && value != 5 ==> r == MemMapEntryType::Other(value),
    {
        match value {
            1 => MemMapEntryType::Ram,
            3 => MemMapEntryType::Acpi,
            4 => MemMapEntryType::Preserved,
            5 => MemMapEntryType::DefectiveRam,
            _ => MemMapEntryType::Other(value),
        }
    }

    pub fn is_ram(&self) -> (r: bool)
        ensures
            r == (*self == MemMapEntryType::Ram),
    {
        match self {
            MemMapEntryType::Ram => true,
            _ => false,
        }
    }
}

/// One region of the firmware memory map.
#[derive(Debug, Clone, Copy, PartialEq, Eq, Structural)]
pub struct MemMapEntry {
    pub base_addr: u64,
    pub length: u64,
    pub entry_type: u32,
}

impl MemMapEntry {
    pub fn start(&self) -> (r: PhysicalAddress)
        ensures
            r.0 == self.base_addr,
    {
        PhysicalAddress::new(self.base_addr)
    }

    pub fn length(&self) -> (r: u64)
        ensures
            r == self.length,
    {
        self.length
    }

    /// The last address that belongs to the region.
    pub fn end(&self) -> (r: PhysicalAddress)
        requires
            self.length > 0,
            self.base_addr + self.length - 1 <= u64::MAX,
        ensures
            r.0 == self.base_addr + self.length - 1,
    {
        self.start().offset(self.length - 1)
    }

    pub fn entry_type(&self) -> (r: MemMapEntryType)
        ensures
            r == MemMapEntryType::from_u32_spec(self.entry_type),
    {
        MemMapEntryType::from_u32(self.entry_type)
    }
}

impl MemMapEntryType {
    pub open spec fn from_u32_spec(value: u32) -> Self {
        if value == 1 { MemMapEntryType::Ram }
        else if value == 3 { MemMapEntryType::Acpi }
        else if value == 4 { MemMapEntryType::Preserved }
        else if value == 5 { MemMapEntryType::DefectiveRam }
        else { MemMapEntryType::Other(value) }
    }
}

/// The highest end (exclusive) of the RAM regions among the first `n` of `map`; 0 if none.
pub open spec fn highest_ram(map: Seq<MemMapEntry>, n: int) -> int
    decreases n,
{
    if n <= 0 {
        0
    } else {
        let h = highest_ram(map, n - 1);
        let e = map[n - 1];
        if e.entry_type == 1 && e.base_addr + e.length > h { e.base_addr + e.length } else { h }
    }
}

/// Whether every region of `map` ends within the 52-bit physical address space.
pub open spec fn map_fits(map: Seq<MemMapEntry>) -> bool {
    forall|i: int| 0 <= i < map.len() ==> #[trigger] map[i].base_addr + map[i].length <= 0x10_0000_0000_0000
}

/// The end of the highest RAM region of `map`.
pub fn highest_ram_addr(map: &Vec<MemMapEntry>) -> (r: u64)
    requires
        map_fits(map@),
    ensures
        r == highest_ram(map@, map@.len() as int),
        r <= 0x10_0000_0000_0000,
{
    let mut h: u64 = 0;
    let mut i: usize = 0;
    while i < map.len()
        invariant
            i <= map@.len(),
            map_fits(map@),
            h == highest_ram(map@, i as int),
            h <= 0x10_0000_0000_0000,
        decreases map@.len() - i,
    {
        let e = map[i];
        assert(e.base_addr + e.length <= 0x10_0000_0000_0000);
        if e.entry_type == 1 && e.base_addr + e.length > h {
            h = e.base_addr + e.length;
        }
        i = i + 1;
    }
    h
}

/// The number of frames from address 0 up to the highest RAM address.
pub fn count_ram_frames(map: &Vec<MemMapEntry>) -> (r: u64)
    requires
        map_fits(map@),
    ensures
        r == (highest_ram(map@, map@.len() as int) + 4095) / 4096,
{
    let h = highest_ram_addr(map);
    (h + 4095) / 4096
}

/// Where the loader's boot information lies, and its total size.
#[derive(Debug, Clone, Copy, PartialEq, Eq, Structural)]
pub struct MultibootInfo {
    pub base: PhysicalAddress,
    pub size: u32,
}

impl MultibootInfo {
    pub fn new(addr: u64, size: u32) -> (r: Self)
        ensures
            r.base.0 == addr,
            r.size == size,
    {
        MultibootInfo { base: PhysicalAddress::new(addr), size }
    }

    pub fn start(&self) -> (r: PhysicalAddress)
        ensures
            r == self.base,
    {
        self.base
    }

    pub fn size(&self) -> (r: u64)
        ensures
            r == self.size,
    {
        self.size as u64
    }

    /// The last address that belongs to the information.
    pub fn end(&self) -> (r: PhysicalAddress)
        requires
            self.size > 0,
            self.base.0 + self.size - 1 <= u64::MAX,
        ensures
            r.0 == self.base.0 + self.size - 1,
    {
        self.base.offset(self.size() - 1)
    }
}

/// A section header of the kernel's own ELF image.
#[derive(Debug, Clone, Copy, PartialEq, Eq, Structural)]
pub struct Elf64SectionHeader {
    pub sh_type: u32,
    pub sh_flags: u64,
    pub sh_addr: u64,
    pub sh_size: u64,
}

impl Elf64SectionHeader {
    pub fn section_type(&self) -> (r: u32)
        ensures
            r == self.sh_type,
    {
        self.sh_type
    }

    pub fn start(&self) -> (r: VirtualAddress)
        ensures
            r.0 == self.sh_addr,
    {
        VirtualAddress::new(self.sh_addr)
    }

    pub fn size(&self) -> (r: u64)
        ensures
            r == self.sh_size,
    {
        self.sh_size
    }

    /// The last address of the section (its start when it is empty).
    pub fn end(&self) -> (r: VirtualAddress)
        requires
            self.sh_addr + self.sh_size <= u64::MAX + 1,
        ensures
            r.0 == if self.sh_size > 0 { self.sh_addr + self.sh_size - 1 } else { self.sh_addr as int },
    {
        if self.sh_size > 0 {
            self.start().offset(self.sh_size - 1)
        } else {
            self.start()
        }
    }

    pub fn flags(&self) -> (r: u64)
        ensures
            r == self.sh_flags & 7,
    {
        self.sh_flags & 7
    }

    pub fn contains(&self, addr: VirtualAddress) -> (r: bool)
        requires
            self.sh_addr + self.sh_size <= u64::MAX + 1,
        ensures
            r == (self.sh_addr <= addr.0 && addr.0 <= if self.sh_size > 0 { self.sh_addr + self.sh_size - 1 } else { self.sh_addr as int }),
    {
        let e = self.end();
        self.sh_addr <= addr.0 && addr.0 <= e.0
    }
}

} // verus!
