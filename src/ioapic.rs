use vstd::prelude::*;

verus! {

/// First vector used for external interrupts.
pub const IRQ_BASE_VECTOR: u64 = 0x20;

/// An interrupt source override from the MADT: ISA `irq_source` arrives on `gsi`.
#[derive(Debug, Clone, Copy, PartialEq, Eq, Structural)]
pub struct IntSourceOverride {
    pub irq_source: u8,
    pub gsi: u32,
    pub flags: u16,
}

/// The redirection-table value for `o`: vector `0x20 + irq`, active-low polarity (bit 13)
/// when flag bit 1 is set, level trigger (bit 15) when flag bit 3 is set, fixed delivery,
/// destination the bootstrap processor.
pub open spec fn redirection_value(o: IntSourceOverride) -> u64 {
    (IRQ_BASE_VECTOR + o.irq_source as int + (if (o.flags as int / 2) % 2 == 1 { 0x2000int } else { 0 }) + (if (o.flags
        as int / 8) % 2 == 1 { 0x8000int } else { 0 })) as u64
}

/// Whether `o` concerns an input of an IOAPIC whose inputs are `[base, base + n)`.
pub open spec fn in_range(o: IntSourceOverride, base: u32, n: u32) -> bool {
    base <= o.gsi && o.gsi < base + n
}

/// The redirection writes for `os`, in order: the input index and the value.
pub open spec fn redirection_writes(os: Seq<IntSourceOverride>, base: u32, n: u32) -> Seq<(u32, u64)> {
    os.filter(|o: IntSourceOverride| in_range(o, base, n)).map_values(
        |o: IntSourceOverride| ((o.gsi - base) as u32, redirection_value(o)),
    )
}

/// The identity entries programmed before the firmware's overrides: the keyboard line.
pub open spec fn default_overrides() -> Seq<IntSourceOverride> {
    seq![IntSourceOverride { irq_source: 1, gsi: 1, flags: 0 }]
}

pub fn redirection_entry(o: IntSourceOverride) -> (r: u64)
    ensures
        r == redirection_value(o),
{
    let mut v: u64 = IRQ_BASE_VECTOR + o.irq_source as u64;
    if (o.flags / 2) % 2 == 1 {
        v = v + 0x2000;
    }
    if (o.flags / 8) % 2 == 1 {
        v = v + 0x8000;
    }
    v
}

/// The writes that initialise an IOAPIC with inputs `[gsi_base, gsi_base + n)`: the
/// default identity entries first, then the firmware's overrides, so that on a common
/// input the override, written last, wins.
pub fn redirection_entries(gsi_base: u32, n: u32, overrides: &Vec<IntSourceOverride>) -> (r: Vec<(u32, u64)>)
    requires
        gsi_base + n <= u32::MAX,
    ensures
        r@ == redirection_writes(default_overrides() + overrides@, gsi_base, n),
{
    let mut all: Vec<IntSourceOverride> = Vec::new();
    all.push(IntSourceOverride { irq_source: 1, gsi: 1, flags: 0 });
    let mut i: usize = 0;
    while i < overrides.len()
        invariant
            i <= overrides@.len(),
            all@ == default_overrides() + overrides@.subrange(0, i as int),
        decreases overrides@.len() - i,
    {
        all.push(overrides[i]);
        i = i + 1;
        assert(all@ =~= default_overrides() + overrides@.subrange(0, i as int));
    }
    assert(overrides@.subrange(0, overrides@.len() as int) =~= overrides@);
    let ghost src = all@;
    let mut out: Vec<(u32, u64)> = Vec::new();
    let mut j: usize = 0;
    while j < all.len()
        invariant
            all@ == src,
            j <= src.len(),
            gsi_base + n <= u32::MAX,
            out@ == redirection_writes(src.subrange(0, j as int), gsi_base, n),
        decreases src.len() - j,
    {
        let o = all[j];
        proof {
            assert(src.subrange(0, j + 1).drop_last() =~= src.subrange(0, j as int));
            reveal(Seq::filter);
        }
        if gsi_base <= o.gsi && o.gsi < gsi_base + n {
            out.push((o.gsi - gsi_base, redirection_entry(o)));
        }
        j = j + 1;
        assert(out@ =~= redirection_writes(src.subrange(0, j as int), gsi_base, n));
    }
    assert(src.subrange(0, src.len() as int) =~= src);
    out
}

/// The two 32-bit halves of a redirection value, low first, as written to the window.
pub fn ioredtbl_halves(val: u64) -> (r: (u32, u32))
    ensures
        r.0 == val % 0x1_0000_0000,
        r.1 == val / 0x1_0000_0000,
{
    ((val % 0x1_0000_0000) as u32, (val / 0x1_0000_0000) as u32)
}

/// Register indices of the two halves of redirection entry `index`.
pub fn ioredtbl_registers(index: u32) -> (r: (u32, u32))
    requires
        index < 120,
    ensures
        r.0 == 0x10 + 2 * index,
        r.1 == 0x11 + 2 * index,
{
    (0x10 + 2 * index, 0x11 + 2 * index)
}

} // verus!
