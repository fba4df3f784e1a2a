use vstd::prelude::*;

verus! {

/// Access byte of an available 64-bit TSS descriptor: present, type 9.
pub const TSS_ACCESS: u64 = 0x89;

/// Flags nibble of the TSS descriptor.
pub const TSS_FLAGS: u64 = 2;

/// The low word of the 16-byte TSS descriptor for a segment at `addr` of `size` bytes:
/// limit 0..15 in bits 0..15, base 0..23 in bits 16..39, the access byte in 40..47,
/// limit 16..19 in 48..51, the flags in 52..55, base 24..31 in 56..63.
pub open spec fn tss_low(addr: u64, size: u64) -> int {
    size as int % 0x1_0000 + (addr as int % 0x100_0000) * 0x1_0000 + TSS_ACCESS * 0x100_0000_0000
        + ((size as int / 0x1_0000) % 0x10) * 0x1_0000_0000_0000 + TSS_FLAGS * 0x10_0000_0000_0000
        + ((addr as int / 0x100_0000) % 0x100) * 0x100_0000_0000_0000
}

/// The two words of the TSS descriptor: the low word, then base bits 32..63.
pub fn tss_descriptor(addr: u64, size: u64) -> (r: (u64, u64))
    ensures
        r.0 == tss_low(addr, size),
        r.1 == addr / 0x1_0000_0000,
{
    let a: u64 = size % 0x1_0000;
    let b: u64 = (addr % 0x100_0000) * 0x1_0000;
    let c: u64 = TSS_ACCESS * 0x100_0000_0000;
    let d: u64 = ((size / 0x1_0000) % 0x10) * 0x1_0000_0000_0000;
    let e: u64 = TSS_FLAGS * 0x10_0000_0000_0000;
    let f: u64 = ((addr / 0x100_0000) % 0x100) * 0x100_0000_0000_0000;
    assert(b <= 0xff_ffff_0000) by (nonlinear_arith) requires b == (addr % 0x100_0000) * 0x1_0000, addr % 0x100_0000 < 0x100_0000;
    assert(d <= 0xf_0000_0000_0000) by (nonlinear_arith) requires d == ((size / 0x1_0000) % 0x10) * 0x1_0000_0000_0000, (size / 0x1_0000) % 0x10 < 0x10;
    assert(f <= 0xff00_0000_0000_0000) by (nonlinear_arith) requires f == ((addr / 0x100_0000) % 0x100) * 0x100_0000_0000_0000, (addr / 0x100_0000) % 0x100 < 0x100;
    (a + b + c + d + e + f, addr / 0x1_0000_0000)
}

/// Offsets of the descriptors in the table: null, kernel code, kernel data, the two words
/// of the TSS descriptor, user data, user code.
pub const KERNEL_CODE_OFFSET: u16 = 8;
pub const KERNEL_DATA_OFFSET: u16 = 16;
pub const TSS_OFFSET: u16 = 24;
pub const USER_DATA_OFFSET: u16 = 40;
pub const USER_CODE_OFFSET: u16 = 48;

/// A selector for the descriptor at byte `offset`, requesting privilege `rpl`.
pub fn selector(offset: u16, rpl: u16) -> (r: u16)
    requires
        offset % 8 == 0,
        rpl < 4,
    ensures
        r == offset + rpl,
{
    offset + rpl
}

pub fn get_kernel_code_segment_selector() -> (r: u16)
    ensures
        r == 8,
{
    selector(KERNEL_CODE_OFFSET, 0)
}

pub fn get_kernel_data_segment_selector() -> (r: u16)
    ensures
        r == 16,
{
    selector(KERNEL_DATA_OFFSET, 0)
}

pub fn get_user_data_segment_selector() -> (r: u16)
    ensures
        r == 43,
{
    selector(USER_DATA_OFFSET, 3)
}

pub fn get_user_code_segment_selector() -> (r: u16)
    ensures
        r == 51,
{
    selector(USER_CODE_OFFSET, 3)
}

} // verus!
