use vstd::prelude::*;
use crate::entry::{HUGE_PAGE, PHYSADDR_MASK, PRESENT, WRITABLE, WRITE_THROUGH, NO_CACHE};
use crate::mem::{HIGHER_HALF, DIRECT_MAP_LIMIT};
use crate::multiboot::MemMapEntry;
use crate::table::{P4Table, MAX_ENTRIES};

verus! {

/// Page sizes a mapping can use.
#[derive(Debug, Clone, Copy, PartialEq, Eq, Structural)]
pub enum MapSize {
    Size1GiB,
    Size2MiB,
    Size4KiB,
}

pub open spec fn size_bytes(s: MapSize) -> u64 {
    match s {
        MapSize::Size1GiB => 0x4000_0000,
        MapSize::Size2MiB => 0x20_0000,
        MapSize::Size4KiB => 0x1000,
    }
}

/// The largest page that starts at `start` and fits in `size` bytes.
pub fn find_best_fit(start: u64, size: u64) -> (r: MapSize)
    requires
        start % 0x1000 == 0,
        size >= 0x1000,
    ensures
        r == if start % 0x4000_0000 == 0 && size >= 0x4000_0000 {
            MapSize::Size1GiB
        } else if start % 0x20_0000 == 0 && size >= 0x20_0000 {
            MapSize::Size2MiB
        } else {
            MapSize::Size4KiB
        },
{
    if start % 0x4000_0000 == 0 && size >= 0x4000_0000 {
        MapSize::Size1GiB
    } else if start % 0x20_0000 == 0 && size >= 0x20_0000 {
        MapSize::Size2MiB
    } else {
        MapSize::Size4KiB
    }
}

/// Whether every address of `[start, end)` is reached at its higher-half alias in `mem`.
pub open spec fn direct_mapped(mem: Seq<u64>, root: int, start: int, end: int) -> bool {
    forall|a: u64| start <= a < end ==> #[trigger] P4Table::walk(mem, root, (a + HIGHER_HALF) as u64) == Some(a)
}

proof fn lemma_alias_aligned(cur: u64, size: int)
    requires
        size == 0x1000 || size == 0x20_0000 || size == 0x4000_0000,
        cur as int % size == 0,
        cur < DIRECT_MAP_LIMIT,
    ensures
        (cur + HIGHER_HALF) as int % size == 0,
{
    let q = cur as int / size;
    vstd::arithmetic::div_mod::lemma_fundamental_div_mod(cur as int, size);
    let m: int = HIGHER_HALF as int / size;
    assert(HIGHER_HALF as int == size * m) by {
        vstd::arithmetic::div_mod::lemma_fundamental_div_mod(HIGHER_HALF as int, size);
    }
    assert(cur + HIGHER_HALF == (q + m) * size) by (nonlinear_arith)
        requires cur == size * q, HIGHER_HALF as int == size * m;
    vstd::arithmetic::div_mod::lemma_mod_multiples_basic(q + m, size);
}

/// Maps the pages covering `[start, start + len)` at their higher-half aliases with
/// `flags`, using the largest page that fits at each step. `false` when a page could not
/// be mapped, or the tables are full.
pub fn map_region(t: &mut P4Table, start: u64, len: u64, flags: u64) -> (r: bool)
    requires
        old(t).wf(),
        start + len <= DIRECT_MAP_LIMIT,
        flags & PHYSADDR_MASK == 0,
        flags & HUGE_PAGE == 0,
    ensures
        final(t).wf(),
        final(t).root == old(t).root,
        r ==> direct_mapped(final(t)@, final(t).root as int, start as int, start + len),
        forall|w: u64| #[trigger] P4Table::walk(old(t)@, old(t).root as int, w) is Some
            ==> P4Table::walk(final(t)@, final(t).root as int, w) == P4Table::walk(old(t)@, old(t).root as int, w),
{
    let ghost t0 = t@;
    let first = crate::mem::align_down(start, 0x1000);
    let stop = crate::mem::align_up(start + len, 0x1000);
    assert(stop <= DIRECT_MAP_LIMIT) by {
        vstd::arithmetic::div_mod::lemma_fundamental_div_mod(stop as int, 4096);
        vstd::arithmetic::div_mod::lemma_fundamental_div_mod(DIRECT_MAP_LIMIT as int, 4096);
        assert(stop / 4096 <= DIRECT_MAP_LIMIT / 4096) by (nonlinear_arith)
            requires stop < start + len + 4096, start + len <= DIRECT_MAP_LIMIT, stop % 4096 == 0,
                stop == 4096 * (stop / 4096), DIRECT_MAP_LIMIT as int == 4096 * (DIRECT_MAP_LIMIT / 4096);
    }
    let huge_flags = flags | HUGE_PAGE;
    assert(huge_flags & 0x000f_ffff_ffff_f000u64 == 0 && huge_flags & 128u64 != 0) by (bit_vector)
        requires huge_flags == flags | 128u64, flags & 0x000f_ffff_ffff_f000u64 == 0;
    let mut cur = first;
    while cur < stop
        invariant
            t.wf(),
            t.root == old(t).root,
            t0 == old(t)@,
            cur % 4096 == 0,
            stop % 4096 == 0,
            first <= start,
            first <= cur <= stop <= DIRECT_MAP_LIMIT,
            start + len <= stop,
            flags & PHYSADDR_MASK == 0,
            flags & HUGE_PAGE == 0,
            huge_flags & PHYSADDR_MASK == 0,
            huge_flags & HUGE_PAGE != 0,
            direct_mapped(t@, t.root as int, first as int, cur as int),
            forall|w: u64| #[trigger] P4Table::walk(t0, t.root as int, w) is Some
                ==> P4Table::walk(t@, t.root as int, w) == P4Table::walk(t0, t.root as int, w),
        decreases stop - cur,
    {
        if t.entries.len() + 3 * 512 > MAX_ENTRIES {
            return false;
        }
        let fit = find_best_fit(cur, stop - cur);
        let size: u64 = match fit {
            MapSize::Size1GiB => 0x4000_0000,
            MapSize::Size2MiB => 0x20_0000,
            MapSize::Size4KiB => 0x1000,
        };
        proof { lemma_alias_aligned(cur, size as int); }
        let v = cur + HIGHER_HALF;
        let ghost before = t@;
        let ok = match fit {
            MapSize::Size1GiB => t.map_huge_1GiB(v, cur, huge_flags),
            MapSize::Size2MiB => t.map_huge_2MiB(v, cur, huge_flags),
            MapSize::Size4KiB => t.map_4KiB(v, cur, flags),
        };
        if !ok {
            return false;
        }
        proof {
            assert forall|a: u64| first <= a < cur + size implies #[trigger] P4Table::walk(t@, t.root as int, (a + HIGHER_HALF) as u64)
                == Some(a) by {
                if a < cur {
                    assert(P4Table::walk(before, t.root as int, (a + HIGHER_HALF) as u64) == Some(a));
                } else {
                    let k = (a - cur) as u64;
                    assert((v + k) as u64 == (a + HIGHER_HALF) as u64);
                    assert(P4Table::walk(t@, t.root as int, (v + k) as u64) == Some((cur + k) as u64));
                }
            }
            assert forall|w: u64| #[trigger] P4Table::walk(t0, t.root as int, w) is Some
                implies P4Table::walk(t@, t.root as int, w) == P4Table::walk(t0, t.root as int, w) by {
                assert(P4Table::walk(before, t.root as int, w) == P4Table::walk(t0, t.root as int, w));
            }
        }
        cur = cur + size;
    }
    true
}

/// Whether every region of `map` lies below the end of the direct map.
pub open spec fn map_below_limit(map: Seq<MemMapEntry>) -> bool {
    forall|i: int| 0 <= i < map.len() ==> #[trigger] map[i].base_addr + map[i].length <= DIRECT_MAP_LIMIT
}

/// Maps every region of the firmware memory map at its higher-half alias: RAM present and
/// writable, other regions also write-through and uncached. `false` when a region could
/// not be mapped.
pub fn map_direct(t: &mut P4Table, map: &Vec<MemMapEntry>) -> (r: bool)
    requires
        old(t).wf(),
        map_below_limit(map@),
    ensures
        final(t).wf(),
        final(t).root == old(t).root,
        r ==> forall|i: int| 0 <= i < map@.len() ==> direct_mapped(final(t)@, final(t).root as int,
            #[trigger] map@[i].base_addr as int, map@[i].base_addr + map@[i].length),
{
    assert((1u64 | 2u64) & 0x000f_ffff_ffff_f000u64 == 0 && (1u64 | 2u64) & 128u64 == 0) by (bit_vector);
    assert((1u64 | 2u64 | 8u64 | 16u64) & 0x000f_ffff_ffff_f000u64 == 0 && (1u64 | 2u64 | 8u64 | 16u64) & 128u64 == 0)
        by (bit_vector);
    let mut i: usize = 0;
    while i < map.len()
        invariant
            t.wf(),
            t.root == old(t).root,
            i <= map@.len(),
            map_below_limit(map@),
            forall|j: int| 0 <= j < i ==> direct_mapped(t@, t.root as int, #[trigger] map@[j].base_addr as int,
                map@[j].base_addr + map@[j].length),
        decreases map@.len() - i,
    {
        let e = map[i];
        assert(e.base_addr + e.length <= DIRECT_MAP_LIMIT);
        assert(1u64 | 2u64 == 3u64 && 1u64 | 2u64 | 8u64 | 16u64 == 27u64) by (bit_vector);
        let flags: u64 = if e.entry_type == 1 { PRESENT | WRITABLE } else { PRESENT | WRITABLE | WRITE_THROUGH | NO_CACHE };
        assert(flags == 3 || flags == 27);
        assert(flags & 0x000f_ffff_ffff_f000u64 == 0 && flags & 128u64 == 0) by (bit_vector)
            requires flags == 3 || flags == 27;
        let ghost before = t@;
        if !map_region(t, e.base_addr, e.length, flags) {
            return false;
        }
        proof {
            assert forall|j: int| 0 <= j < i + 1 implies direct_mapped(t@, t.root as int, #[trigger] map@[j].base_addr as int,
                map@[j].base_addr + map@[j].length) by {
                if j < i {
                    assert forall|a: u64| map@[j].base_addr <= a < map@[j].base_addr + map@[j].length implies
                        #[trigger] P4Table::walk(t@, t.root as int, (a + HIGHER_HALF) as u64) == Some(a) by {
                        assert(P4Table::walk(before, t.root as int, (a + HIGHER_HALF) as u64) == Some(a));
                    }
                }
            }
        }
        i = i + 1;
    }
    true
}

} // verus!
