use vstd::prelude::*;

verus! {

/// Size of a small page and of a physical frame.
pub const PAGE_SIZE: u64 = 4096;

/// Start of the higher-half direct map: physical `p` is reachable at `p + HIGHER_HALF`.
pub const HIGHER_HALF: u64 = 0xFFFF_8000_0000_0000;

/// Physical addresses below this one have a higher-half alias.
pub const DIRECT_MAP_LIMIT: u64 = 0x0000_8000_0000_0000;

/// A physical address.
#[derive(Debug, Clone, Copy, PartialEq, Eq, Structural)]
pub struct PhysicalAddress(pub u64);

/// A virtual address.
#[derive(Debug, Clone, Copy, PartialEq, Eq, Structural)]
pub struct VirtualAddress(pub u64);

/// Whether `v` lies outside the non-canonical hole.
pub open spec fn is_canonical(v: u64) -> bool {
    v < 0x0000_8000_0000_0000 || v >= 0xffff_8000_0000_0000
}

impl PhysicalAddress {
    pub fn new(addr: u64) -> (r: Self)
        ensures
            r.0 == addr,
    {
        PhysicalAddress(addr)
    }

    pub fn to_inner(self) -> (r: u64)
        ensures
            r == self.0,
    {
        self.0
    }

    pub fn offset(&self, offset: u64) -> (r: Self)
        requires
            self.0 + offset <= u64::MAX,
        ensures
            r.0 == self.0 + offset,
    {
        PhysicalAddress(self.0 + offset)
    }

    /// The higher-half alias of this address, when it fits in the direct map.
    pub fn to_virt(&self) -> (r: Option<VirtualAddress>)
        ensures
            self.0 < DIRECT_MAP_LIMIT ==> r == Some(VirtualAddress((self.0 + HIGHER_HALF) as u64)),
            self.0 >= DIRECT_MAP_LIMIT ==> r.is_none(),
    {
        if self.0 < DIRECT_MAP_LIMIT {
            Some(VirtualAddress(self.0 + HIGHER_HALF))
        } else {
            None
        }
    }
}

impl VirtualAddress {
    pub fn new(addr: u64) -> (r: Self)
        ensures
            r.0 == addr,
    {
        VirtualAddress(addr)
    }

    pub fn to_inner(self) -> (r: u64)
        ensures
            r == self.0,
    {
        self.0
    }

    pub fn offset(&self, offset: u64) -> (r: Self)
        requires
            self.0 + offset <= u64::MAX,
        ensures
            r.0 == self.0 + offset,
    {
        VirtualAddress(self.0 + offset)
    }

    pub fn page_offset(&self) -> (r: u64)
        ensures
            r == self.0 % 4096,
    {
        self.0 % PAGE_SIZE
    }

    pub fn p4_index(&self) -> (r: usize)
        ensures
            r == (self.0 / 0x80_0000_0000) % 512,
    {
        ((self.0 / 0x80_0000_0000) % 512) as usize
    }

    pub fn p3_index(&self) -> (r: usize)
        ensures
            r == (self.0 / 0x4000_0000) % 512,
    {
        ((self.0 / 0x4000_0000) % 512) as usize
    }

    pub fn p2_index(&self) -> (r: usize)
        ensures
            r == (self.0 / 0x20_0000) % 512,
    {
        ((self.0 / 0x20_0000) % 512) as usize
    }

    pub fn p1_index(&self) -> (r: usize)
        ensures
            r == (self.0 / 0x1000) % 512,
    {
        ((self.0 / 0x1000) % 512) as usize
    }
}

/// `num` rounded up to a multiple of `align`.
pub fn align_up(num: u64, align: u64) -> (r: u64)
    requires
        align > 0,
        num + align <= u64::MAX,
    ensures
        r % align == 0,
        num <= r < num + align,
{
    let q = num / align;
    proof {
        vstd::arithmetic::div_mod::lemma_fundamental_div_mod(num as int, align as int);
        assert(q * align == align * q) by (nonlinear_arith);
    }
    let down = q * align;
    if down == num {
        proof {
            vstd::arithmetic::div_mod::lemma_mod_multiples_basic(q as int, align as int);
        }
        down
    } else {
        proof {
            vstd::arithmetic::div_mod::lemma_mod_multiples_basic((q + 1) as int, align as int);
            assert((q + 1) * align == q * align + align) by (nonlinear_arith);
        }
        down + align
    }
}

/// `num` rounded down to a multiple of `align`.
pub fn align_down(num: u64, align: u64) -> (r: u64)
    requires
        align > 0,
    ensures
        r % align == 0,
        r <= num,
        num - r < align,
{
    let q = num / align;
    proof {
        vstd::arithmetic::div_mod::lemma_fundamental_div_mod(num as int, align as int);
        vstd::arithmetic::div_mod::lemma_mod_multiples_basic(q as int, align as int);
        assert(q * align == align * q) by (nonlinear_arith);
    }
    q * align
}

/// A 4 KiB physical frame, named by its number.
#[derive(Debug, Clone, Copy, PartialEq, Eq, Structural)]
pub struct Frame {
    pub number: u64,
}

impl Frame {
    pub fn containing_address(address: PhysicalAddress) -> (r: Frame)
        ensures
            r.number == address.0 / 4096,
    {
        Frame { number: address.0 / PAGE_SIZE }
    }

    pub fn start_address(&self) -> (r: PhysicalAddress)
        requires
            self.number * 4096 <= u64::MAX,
        ensures
            r.0 == self.number * 4096,
    {
        PhysicalAddress(self.number * PAGE_SIZE)
    }

    /// The frame numbers from `start` to `end`, both included.
    pub fn range_inclusive(start: &Frame, end: &Frame) -> (r: Vec<Frame>)
        requires
            end.number < u64::MAX,
        ensures
            r@.len() == if start.number <= end.number { end.number - start.number + 1 } else { 0 },
            forall|i: int| 0 <= i < r@.len() ==> r@[i].number == start.number + i,
    {
        let mut v: Vec<Frame> = Vec::new();
        let mut n: u64 = start.number;
        while n <= end.number
            invariant
                end.number < u64::MAX,
                start.number <= n <= end.number + 1 || (n == start.number && start.number > end.number),
                v@.len() == if n >= start.number { n - start.number } else { 0 },
                forall|i: int| 0 <= i < v@.len() ==> v@[i].number == start.number + i,
            decreases end.number + 1 - n,
        {
            v.push(Frame { number: n });
            n = n + 1;
        }
        v
    }
}

/// A 4 KiB virtual page, named by its number.
#[derive(Debug, Clone, Copy, PartialEq, Eq, Structural)]
pub struct Page {
    pub number: u64,
}

impl Page {
    pub fn containing_address(address: VirtualAddress) -> (r: Page)
        requires
            is_canonical(address.0),
        ensures
            r.number == address.0 / 4096,
    {
        Page { number: address.0 / PAGE_SIZE }
    }

    pub fn start_address(&self) -> (r: VirtualAddress)
        requires
            self.number * 4096 <= u64::MAX,
        ensures
            r.0 == self.number * 4096,
    {
        VirtualAddress(self.number * PAGE_SIZE)
    }
}

} // verus!
