use vstd::prelude::*;
use crate::entry::{PRESENT, HUGE_PAGE, PHYSADDR_MASK};
use crate::mem::is_canonical;

verus! {

/// Entries in one page table.
pub const ENTRIES: usize = 512;

/// Most entries the tables may hold together.
pub const MAX_ENTRIES: usize = 0x1000_0000;

/// Page tables held as a run of table frames: table `t` lives at physical address
/// `t * 4096` and its entries at `entries[t * 512 .. t * 512 + 512]`.
pub struct P4Table {
    pub entries: Vec<u64>,
    /// Number of the root table.
    pub root: usize,
}

pub open spec fn present(e: u64) -> bool {
    e & PRESENT != 0
}

pub open spec fn huge(e: u64) -> bool {
    e & HUGE_PAGE != 0
}

pub open spec fn target(e: u64) -> u64 {
    e & PHYSADDR_MASK
}

/// Index into the table of the level whose entries each cover `div` bytes, for address `v`.
pub open spec fn index_at(v: u64, div: int) -> int {
    (v as int / div) % 512
}

/// Slot of entry `i` of the table that `e` points to.
pub open spec fn slot(e: u64, i: int) -> int {
    (target(e) as int / 4096) * 512 + i
}

/// Whether entry `e` of `mem` leads to a table of `mem`.
pub open spec fn table_ok(mem: Seq<u64>, e: u64) -> bool {
    !huge(e) && (target(e) as int / 4096) < mem.len() / 512
}

/// Whether `new` keeps every present entry of `old` present, with its target and its
/// huge bit; it may add entries at the end and fill empty ones.
pub open spec fn extends(old: Seq<u64>, new: Seq<u64>) -> bool {
    &&& old.len() <= new.len()
    &&& forall|i: int| 0 <= i < old.len() && present(old[i]) ==> {
        &&& present(#[trigger] new[i])
        &&& huge(new[i]) == huge(old[i])
        &&& target(new[i]) == target(old[i])
    }
}

/// Whether slot `s` of `mem` leads, for address `v`, to slot `next` of a table, the index
/// being that of the level whose entries cover `div` bytes.
pub open spec fn points(mem: Seq<u64>, s: int, next: int, v: u64, div: int) -> bool {
    &&& 0 <= s < mem.len()
    &&& present(mem[s])
    &&& !huge(mem[s])
    &&& next == slot(mem[s], index_at(v, div))
}

/// Whether mapping `v` with a leaf at level `leaf` (1: 4 KiB, 2: 2 MiB, 3: 1 GiB) can
/// succeed: the tables present on the way are ordinary tables of `mem`, and the leaf
/// slot, if it already exists, is empty.
pub open spec fn mappable(mem: Seq<u64>, root: int, v: u64, leaf: int) -> bool {
    let s4 = root * 512 + index_at(v, 0x80_0000_0000);
    let e4 = mem[s4];
    if !present(e4) {
        true
    } else if !table_ok(mem, e4) {
        false
    } else {
        let s3 = slot(e4, index_at(v, 0x4000_0000));
        let e3 = mem[s3];
        if leaf == 3 {
            !present(e3)
        } else if !present(e3) {
            true
        } else if !table_ok(mem, e3) {
            false
        } else {
            let s2 = slot(e3, index_at(v, 0x20_0000));
            let e2 = mem[s2];
            if leaf == 2 {
                !present(e2)
            } else if !present(e2) {
                true
            } else if !table_ok(mem, e2) {
                false
            } else {
                !present(mem[slot(e2, index_at(v, 0x1000))])
            }
        }
    }
}

proof fn lemma_or_perm(e: u64, perm: u64)
    requires
        perm & !6u64 == 0,
    ensures
        present(e | perm) == present(e),
        huge(e | perm) == huge(e),
        target(e | perm) == target(e),
{
    assert((e | perm) & 1u64 == e & 1u64) by (bit_vector) requires perm & !6u64 == 0;
    assert((e | perm) & 128u64 == e & 128u64) by (bit_vector) requires perm & !6u64 == 0;
    assert((e | perm) & 0x000f_ffff_ffff_f000u64 == e & 0x000f_ffff_ffff_f000u64) by (bit_vector)
        requires perm & !6u64 == 0;
}

proof fn lemma_new_table_entry(addr: u64, perm: u64)
    requires
        perm & !6u64 == 0,
        addr % 4096 == 0,
        addr < 0x10_0000_0000_0000,
    ensures
        present(addr | PRESENT | perm),
        !huge(addr | PRESENT | perm),
        target(addr | PRESENT | perm) == addr,
{
    assert((addr | 1u64 | perm) & 1u64 == 1u64) by (bit_vector);
    assert((addr | 1u64 | perm) & 128u64 == 0) by (bit_vector)
        requires perm & !6u64 == 0, addr % 4096 == 0;
    assert((addr | 1u64 | perm) & 0x000f_ffff_ffff_f000u64 == addr) by (bit_vector)
        requires perm & !6u64 == 0, addr % 4096 == 0, addr < 0x10_0000_0000_0000u64;
}

proof fn lemma_leaf_entry(p: u64, flags: u64)
    requires
        p % 4096 == 0,
        p < 0x10_0000_0000_0000,
        flags & PHYSADDR_MASK == 0,
    ensures
        present(p | flags | PRESENT),
        target(p | flags | PRESENT) == p,
        huge(p | flags | PRESENT) == (flags & HUGE_PAGE != 0),
{
    assert((p | flags | 1u64) & 1u64 == 1u64) by (bit_vector);
    assert((p | flags | 1u64) & 0x000f_ffff_ffff_f000u64 == p) by (bit_vector)
        requires p % 4096 == 0, p < 0x10_0000_0000_0000u64, flags & 0x000f_ffff_ffff_f000u64 == 0;
    assert(((p | flags | 1u64) & 128u64 != 0) == (flags & 128u64 != 0)) by (bit_vector)
        requires p % 4096 == 0;
}

proof fn lemma_zero_absent()
    ensures
        !present(0),
{
    assert(0u64 & 1u64 == 0) by (bit_vector);
}

proof fn lemma_perm(flags: u64)
    ensures
        (flags & 6u64) & !6u64 == 0,
{
    assert((flags & 6u64) & !6u64 == 0) by (bit_vector);
}

/// Within one aligned block of `size` bytes the table indices of coarser levels and the
/// offset are those of the block's start plus `k`.
proof fn lemma_same_block(v: u64, k: u64, size: int)
    requires
        size == 0x1000 || size == 0x20_0000 || size == 0x4000_0000,
        v as int % size == 0,
        k < size,
    ensures
        v + k <= u64::MAX,
        ((v + k) as u64) as int % size == k,
        size <= 0x1000 ==> index_at((v + k) as u64, 0x1000) == index_at(v, 0x1000),
        size <= 0x20_0000 ==> index_at((v + k) as u64, 0x20_0000) == index_at(v, 0x20_0000),
        index_at((v + k) as u64, 0x4000_0000) == index_at(v, 0x4000_0000),
        index_at((v + k) as u64, 0x80_0000_0000) == index_at(v, 0x80_0000_0000),
{
    let q = v as int / size;
    vstd::arithmetic::div_mod::lemma_fundamental_div_mod(v as int, size);
    assert(v <= u64::MAX - size + 1) by (nonlinear_arith)
        requires v == size * q, v <= u64::MAX, size == 0x1000 || size == 0x20_0000 || size == 0x4000_0000;
    let x = v as int + k as int;
    vstd::arithmetic::div_mod::lemma_fundamental_div_mod_converse(x, size, q, k as int);
    assert(x / size == v as int / size);
    let m: int = 0x80_0000_0000int / size;
    vstd::arithmetic::div_mod::lemma_div_denominator(x, size, m);
    vstd::arithmetic::div_mod::lemma_div_denominator(v as int, size, m);
    let m2: int = 0x4000_0000int / size;
    vstd::arithmetic::div_mod::lemma_div_denominator(x, size, m2);
    vstd::arithmetic::div_mod::lemma_div_denominator(v as int, size, m2);
    if size <= 0x20_0000 {
        let m3: int = 0x20_0000int / size;
        vstd::arithmetic::div_mod::lemma_div_denominator(x, size, m3);
        vstd::arithmetic::div_mod::lemma_div_denominator(v as int, size, m3);
    }
}

/// A page-aligned address stays 4 KiB aligned.
proof fn lemma_aligned_page(p: u64, size: int)
    requires
        size == 0x20_0000 || size == 0x4000_0000,
        p as int % size == 0,
    ensures
        p % 0x1000 == 0,
{
    let q = p as int / size;
    vstd::arithmetic::div_mod::lemma_fundamental_div_mod(p as int, size);
    let m: int = size / 0x1000int;
    assert(p == (q * m) * 0x1000) by (nonlinear_arith) requires p == size * q, m * 0x1000 == size;
    vstd::arithmetic::div_mod::lemma_mod_multiples_basic(q * m, 0x1000);
}

/// The addresses of the tables of `mem` that hang below entries `i..512` of table `t`,
/// `level` levels of tables deep; leaves and huge pages are not tables.
pub open spec fn subtables(mem: Seq<u64>, t: int, level: nat, i: int) -> Seq<u64>
    decreases level, 512 - i,
{
    if i >= 512 || level == 0 || i < 0 {
        Seq::empty()
    } else {
        let e = mem[t * 512 + i];
        let here = if present(e) && table_ok(mem, e) {
            tables_of(mem, target(e) as int / 4096, (level - 1) as nat)
        } else {
            Seq::empty()
        };
        here + subtables(mem, t, level, i + 1)
    }
}

/// Table `t` and, depth first, the tables below it down to `level` levels.
pub open spec fn tables_of(mem: Seq<u64>, t: int, level: nat) -> Seq<u64>
    decreases level, 513int,
{
    seq![(t * 4096) as u64] + subtables(mem, t, level, 0)
}

/// Every walk that reached a leaf in `old` reaches the same one in a table set that
/// extends it.
pub proof fn lemma_walk_kept(old: Seq<u64>, new: Seq<u64>, root: int, w: u64)
    requires
        extends(old, new),
    ensures
        P4Table::walk(old, root, w) is Some ==> P4Table::walk(new, root, w) == P4Table::walk(old, root, w),
{
    reveal(P4Table::walk);
}

impl P4Table {
    pub open spec fn view(&self) -> Seq<u64> {
        self.entries@
    }

    pub open spec fn wf(&self) -> bool {
        &&& self.entries@.len() % 512 == 0
        &&& (self.root as int) * 512 + 512 <= self.entries@.len()
        &&& self.entries@.len() <= MAX_ENTRIES
    }

    /// Where a walk for `v` ends, if it reaches a present leaf: the physical address.
    #[verifier::opaque]
    pub open spec fn walk(mem: Seq<u64>, root: int, v: u64) -> Option<u64> {
        let s4 = root * 512 + index_at(v, 0x80_0000_0000);
        if !(0 <= s4 < mem.len()) || !present(mem[s4]) {
            None
        } else {
            let s3 = slot(mem[s4], index_at(v, 0x4000_0000));
            if !(s3 < mem.len()) || !present(mem[s3]) {
                None
            } else if huge(mem[s3]) {
                Some((target(mem[s3]) + v as int % 0x4000_0000) as u64)
            } else {
                let s2 = slot(mem[s3], index_at(v, 0x20_0000));
                if !(s2 < mem.len()) || !present(mem[s2]) {
                    None
                } else if huge(mem[s2]) {
                    Some((target(mem[s2]) + v as int % 0x20_0000) as u64)
                } else {
                    let s1 = slot(mem[s2], index_at(v, 0x1000));
                    if !(s1 < mem.len()) || !present(mem[s1]) {
                        None
                    } else {
                        Some((target(mem[s1]) + v as int % 0x1000) as u64)
                    }
                }
            }
        }
    }

    /// Slot of the leaf entry that a walk for `v` ends on, when the walk reaches a present leaf.
    pub open spec fn leaf_slot(mem: Seq<u64>, root: int, v: u64) -> int {
        let s4 = root * 512 + index_at(v, 0x80_0000_0000);
        let s3 = slot(mem[s4], index_at(v, 0x4000_0000));
        if huge(mem[s3]) {
            s3
        } else {
            let s2 = slot(mem[s3], index_at(v, 0x20_0000));
            if huge(mem[s2]) { s2 } else { slot(mem[s2], index_at(v, 0x1000)) }
        }
    }

    /// A table set holding only an empty root table.
    pub fn new() -> (r: Self)
        ensures
            r.wf(),
            r.root == 0,
            r@.len() == 512,
            forall|i: int| 0 <= i < r@.len() ==> r@[i] == 0,
            forall|w: u64| Self::walk(r@, 0, w) is None,
    {
        let mut entries: Vec<u64> = Vec::new();
        let mut i: usize = 0;
        while i < ENTRIES
            invariant
                i <= 512,
                entries@.len() == i,
                forall|j: int| 0 <= j < i ==> entries@[j] == 0,
            decreases 512 - i,
        {
            entries.push(0);
            i = i + 1;
        }
        proof {
            reveal(P4Table::walk);
            assert forall|w: u64| Self::walk(entries@, 0, w) is None by {
                assert(0u64 & 1u64 == 0) by (bit_vector);
            }
        }
        P4Table { entries, root: 0 }
    }

    /// Follows entry `e` to slot `i` of the table it points to, if that table exists.
    fn next_slot(&self, e: u64, i: usize) -> (r: Option<usize>)
        requires
            self.wf(),
            i < 512,
        ensures
            slot(e, i as int) < self@.len() ==> r == Some(slot(e, i as int) as usize),
            slot(e, i as int) >= self@.len() ==> r is None,
    {
        let t = (e & PHYSADDR_MASK) / 4096;
        let len = self.entries.len() as u64;
        if t < len / 512 {
            proof {
                vstd::arithmetic::div_mod::lemma_fundamental_div_mod(len as int, 512);
            }
            assert(t * 512 + i < len) by (nonlinear_arith)
                requires t + 1 <= len / 512, i < 512, len == 512 * (len / 512) + len % 512, len % 512 >= 0;
            Some((t * 512) as usize + i)
        } else {
            proof {
                vstd::arithmetic::div_mod::lemma_fundamental_div_mod(len as int, 512);
            }
            assert(t * 512 + i >= len) by (nonlinear_arith)
                requires t >= len / 512, i >= 0, len == 512 * (len / 512) + len % 512, len % 512 < 512, len % 512 == 0;
            None
        }
    }

    /// An entry with `PRESENT` cleared is not present.
    proof fn lemma_cleared(e: u64)
        ensures
            !present(e & !PRESENT),
    {
        assert((e & !1u64) & 1u64 == 0) by (bit_vector);
    }

    /// Clears `PRESENT` on the leaf entry that maps `v`; `false` when `v` is not mapped.
    pub fn unmap(&mut self, v: u64) -> (r: bool)
        requires
            old(self).wf(),
        ensures
            r == Self::walk(old(self)@, old(self).root as int, v) is Some,
            final(self).wf(),
            final(self).root == old(self).root,
            !r ==> final(self)@ == old(self)@,
            Self::walk(final(self)@, final(self).root as int, v) is None,
            r ==> final(self)@ == old(self)@.update(
                Self::leaf_slot(old(self)@, old(self).root as int, v),
                old(self)@[Self::leaf_slot(old(self)@, old(self).root as int, v)] & !PRESENT,
            ),
    {
        proof { reveal(P4Table::walk); }
        let len = self.entries.len();
        let s4 = self.root * ENTRIES + ((v / 0x80_0000_0000) % 512) as usize;
        let e4 = self.entries[s4];
        if e4 & PRESENT == 0 {
            return false;
        }
        let s3 = match self.next_slot(e4, ((v / 0x4000_0000) % 512) as usize) {
            None => return false,
            Some(s) => s,
        };
        let e3 = self.entries[s3];
        if e3 & PRESENT == 0 {
            return false;
        }
        if e3 & HUGE_PAGE != 0 {
            proof { Self::lemma_cleared(e3); }
            self.entries.set(s3, e3 & !PRESENT);
            return true;
        }
        let s2 = match self.next_slot(e3, ((v / 0x20_0000) % 512) as usize) {
            None => return false,
            Some(s) => s,
        };
        let e2 = self.entries[s2];
        if e2 & PRESENT == 0 {
            return false;
        }
        if e2 & HUGE_PAGE != 0 {
            proof { Self::lemma_cleared(e2); }
            self.entries.set(s2, e2 & !PRESENT);
            return true;
        }
        let s1 = match self.next_slot(e2, ((v / 0x1000) % 512) as usize) {
            None => return false,
            Some(s) => s,
        };
        let e1 = self.entries[s1];
        if e1 & PRESENT == 0 {
            return false;
        }
        proof { Self::lemma_cleared(e1); }
        self.entries.set(s1, e1 & !PRESENT);
        true
    }

    /// Follows slot `s` one level down, creating the next table when the slot is empty,
    /// and ORs `perm` (the `WRITABLE` and `USER_ACCESSIBLE` bits of a new mapping) into the
    /// slot. Returns the slot of index `(v / div) % 512` in the next table; `None`, with
    /// nothing changed, when the slot holds a huge page or points outside the tables.
    fn descend(&mut self, s: usize, v: u64, div: u64, perm: u64) -> (r: Option<usize>)
        requires
            old(self).wf(),
            s < old(self)@.len(),
            div == 0x4000_0000 || div == 0x20_0000 || div == 0x1000,
            perm & !6u64 == 0,
            old(self)@.len() + 512 <= MAX_ENTRIES,
        ensures
            r is None <==> present(old(self)@[s as int]) && !table_ok(old(self)@, old(self)@[s as int]),
            r is None ==> final(self)@ == old(self)@,
            final(self).root == old(self).root,
            final(self).wf(),
            extends(old(self)@, final(self)@),
            forall|i: int| 0 <= i < old(self)@.len() && i != s ==> final(self)@[i] == old(self)@[i],
            r is Some ==> points(final(self)@, s as int, r.unwrap() as int, v, div as int)
                && r.unwrap() < final(self)@.len(),
            r is Some && present(old(self)@[s as int]) ==> final(self)@.len() == old(self)@.len(),
            r is Some && !present(old(self)@[s as int]) ==> final(self)@.len() == old(self)@.len() + 512
                && old(self)@.len() <= r.unwrap()
                && forall|i: int| old(self)@.len() <= i < final(self)@.len() ==> final(self)@[i] == 0,
    {
        let e = self.entries[s];
        let len = self.entries.len();
        let idx = ((v / div) % 512) as usize;
        if e & PRESENT != 0 {
            if e & HUGE_PAGE != 0 {
                return None;
            }
            let next = match self.next_slot(e, idx) {
                None => return None,
                Some(n) => n,
            };
            proof {
                lemma_or_perm(e, perm);
                vstd::arithmetic::div_mod::lemma_fundamental_div_mod(len as int, 512);
                assert((target(e) as int / 4096) < len / 512) by (nonlinear_arith)
                    requires (target(e) as int / 4096) * 512 + idx < len, len % 512 == 0, idx >= 0,
                    len == 512 * (len / 512) + len % 512;
            }
            self.entries.set(s, e | perm);
            Some(next)
        } else {
            let t = len / 512;
            proof {
                vstd::arithmetic::div_mod::lemma_fundamental_div_mod(len as int, 512);
            }
            let mut i: usize = 0;
            while i < ENTRIES
                invariant
                    i <= 512,
                    self.root == old(self).root,
                    self@.len() == len + i,
                    len == old(self)@.len(),
                    forall|j: int| 0 <= j < len ==> self@[j] == old(self)@[j],
                    forall|j: int| len <= j < self@.len() ==> self@[j] == 0,
                decreases 512 - i,
            {
                self.entries.push(0);
                i = i + 1;
            }
            assert(t * 512 == len);
            let addr: u64 = (t as u64) * 4096;
            proof {
                assert(addr % 4096 == 0 && addr < 0x10_0000_0000_0000 && addr / 4096 == t) by (nonlinear_arith)
                    requires addr == t * 4096, t * 512 == len, len + 512 <= MAX_ENTRIES;
                lemma_new_table_entry(addr, perm);
            }
            self.entries.set(s, addr | PRESENT | perm);
            proof {
                assert(self@.len() % 512 == 0) by (nonlinear_arith) requires self@.len() == t * 512 + 512;
                assert forall|j: int| len <= j < self@.len() implies self@[j] == 0 by {
                    if j == s {
                    }
                }
            }
            Some(t * 512 + idx)
        }
    }

    /// Whether a mapping of `v` with a leaf at level `leaf` can be installed.
    pub fn can_map(&self, v: u64, leaf: u64) -> (r: bool)
        requires
            self.wf(),
            1 <= leaf <= 3,
        ensures
            r == mappable(self@, self.root as int, v, leaf as int),
    {
        let len = self.entries.len();
        assert(((v / 0x80_0000_0000) % 512) < 512);
        let s4 = self.root * ENTRIES + ((v / 0x80_0000_0000) % 512) as usize;
        let e4 = self.entries[s4];
        if e4 & PRESENT == 0 {
            return true;
        }
        if e4 & HUGE_PAGE != 0 {
            return false;
        }
        let s3 = match self.next_slot(e4, ((v / 0x4000_0000) % 512) as usize) {
            None => {
                proof { self.lemma_slot_range(e4, index_at(v, 0x4000_0000)); }
                return false;
            },
            Some(n) => n,
        };
        proof { self.lemma_slot_range(e4, index_at(v, 0x4000_0000)); }
        let e3 = self.entries[s3];
        if leaf == 3 {
            return e3 & PRESENT == 0;
        }
        if e3 & PRESENT == 0 {
            return true;
        }
        if e3 & HUGE_PAGE != 0 {
            return false;
        }
        let s2 = match self.next_slot(e3, ((v / 0x20_0000) % 512) as usize) {
            None => {
                proof { self.lemma_slot_range(e3, index_at(v, 0x20_0000)); }
                return false;
            },
            Some(n) => n,
        };
        proof { self.lemma_slot_range(e3, index_at(v, 0x20_0000)); }
        let e2 = self.entries[s2];
        if leaf == 2 {
            return e2 & PRESENT == 0;
        }
        if e2 & PRESENT == 0 {
            return true;
        }
        if e2 & HUGE_PAGE != 0 {
            return false;
        }
        let s1 = match self.next_slot(e2, ((v / 0x1000) % 512) as usize) {
            None => {
                proof { self.lemma_slot_range(e2, index_at(v, 0x1000)); }
                return false;
            },
            Some(n) => n,
        };
        proof { self.lemma_slot_range(e2, index_at(v, 0x1000)); }
        self.entries[s1] & PRESENT == 0
    }

    /// A slot of a table lies inside the tables exactly when its table does.
    proof fn lemma_slot_range(&self, e: u64, i: int)
        requires
            self.wf(),
            0 <= i < 512,
        ensures
            (slot(e, i) < self@.len()) == ((target(e) as int / 4096) < self@.len() / 512),
    {
        let len = self@.len() as int;
        let t = target(e) as int / 4096;
        vstd::arithmetic::div_mod::lemma_fundamental_div_mod(len, 512);
        if t < len / 512 {
            assert(t * 512 + i < len) by (nonlinear_arith)
                requires t + 1 <= len / 512, i < 512, len == 512 * (len / 512) + len % 512, len % 512 == 0;
        } else {
            assert(t * 512 + i >= len) by (nonlinear_arith)
                requires t >= len / 512, i >= 0, len == 512 * (len / 512) + len % 512, len % 512 == 0;
        }
    }

    /// Walks down to the leaf slot of `v` at level `leaf`, creating missing tables.
    /// Returns the slots reached at the third, second and first levels (0 below the leaf).
    fn map_path(&mut self, v: u64, perm: u64, leaf: u64) -> (r: (usize, usize, usize))
        requires
            old(self).wf(),
            old(self)@.len() + 3 * 512 <= MAX_ENTRIES,
            perm & !6u64 == 0,
            1 <= leaf <= 3,
            mappable(old(self)@, old(self).root as int, v, leaf as int),
        ensures
            final(self).wf(),
            final(self).root == old(self).root,
            extends(old(self)@, final(self)@),
            final(self)@.len() <= old(self)@.len() + 3 * 512,
            points(final(self)@, old(self).root * 512 + index_at(v, 0x80_0000_0000), r.0 as int, v, 0x4000_0000),
            leaf <= 2 ==> points(final(self)@, r.0 as int, r.1 as int, v, 0x20_0000),
            leaf == 1 ==> points(final(self)@, r.1 as int, r.2 as int, v, 0x1000),
            ({
                let l = if leaf == 3 { r.0 } else if leaf == 2 { r.1 } else { r.2 };
                l < final(self)@.len() && !present(final(self)@[l as int])
            }),
    {
        let ghost m0 = self@;
        let len = self.entries.len();
        assert(((v / 0x80_0000_0000) % 512) < 512);
        let s4 = self.root * ENTRIES + ((v / 0x80_0000_0000) % 512) as usize;
        assert(s4 == self.root * 512 + index_at(v, 0x80_0000_0000));
        proof {
            lemma_zero_absent();
            if present(m0[s4 as int]) {
                self.lemma_slot_range(m0[s4 as int], index_at(v, 0x4000_0000));
            }
        }
        let s3 = match self.descend(s4, v, 0x4000_0000, perm) {
            None => { assert(false); 0 },
            Some(n) => n,
        };
        let ghost m1 = self@;
        proof {
            if present(m0[s4 as int]) {
                assert(s3 == slot(m0[s4 as int], index_at(v, 0x4000_0000)));
                if s3 != s4 {
                    assert(m1[s3 as int] == m0[s3 as int]);
                } else {
                    assert(present(m1[s3 as int]));
                }
            } else {
                assert(m1[s3 as int] == 0);
            }
        }
        if leaf == 3 {
            return (s3, 0, 0);
        }
        proof {
            if present(m1[s3 as int]) {
                assert(present(m0[s4 as int]));
                if s3 == s4 {
                    assert(table_ok(m1, m1[s3 as int]));
                } else {
                    assert(table_ok(m0, m0[s3 as int]));
                }
                self.lemma_slot_range(m1[s3 as int], index_at(v, 0x20_0000));
            }
        }
        let s2 = match self.descend(s3, v, 0x20_0000, perm) {
            None => { assert(false); 0 },
            Some(n) => n,
        };
        let ghost m2 = self@;
        proof {
            if present(m1[s3 as int]) {
                assert(present(m0[s4 as int]));
                assert(s2 == slot(m1[s3 as int], index_at(v, 0x20_0000)));
                assert(target(m1[s3 as int]) == target(m0[s3 as int]));
                assert(s2 == slot(m0[s3 as int], index_at(v, 0x20_0000)));
                if s2 != s3 && s2 != s4 {
                    assert(m2[s2 as int] == m1[s2 as int]);
                    assert(m1[s2 as int] == m0[s2 as int]);
                } else {
                    assert(present(m2[s2 as int]));
                }
            } else {
                assert(m2[s2 as int] == 0);
            }
        }
        if leaf == 2 {
            return (s3, s2, 0);
        }
        proof {
            if present(m2[s2 as int]) {
                assert(present(m1[s3 as int]));
                assert(present(m0[s4 as int]));
                if s2 != s3 && s2 != s4 {
                    assert(table_ok(m0, m0[s2 as int]));
                } else if s2 == s3 {
                    assert(table_ok(m1, m1[s3 as int]));
                } else {
                    assert(table_ok(m0, m0[s4 as int]));
                }
                self.lemma_slot_range(m2[s2 as int], index_at(v, 0x1000));
            }
        }
        let s1 = match self.descend(s2, v, 0x1000, perm) {
            None => { assert(false); 0 },
            Some(n) => n,
        };
        proof {
            if present(m2[s2 as int]) {
                assert(present(m1[s3 as int]));
                assert(present(m0[s4 as int]));
                assert(s1 == slot(m0[s2 as int], index_at(v, 0x1000)));
                assert(!present(m0[s1 as int]));
                assert(s1 != s2 && s1 != s3 && s1 != s4);
                assert(self@[s1 as int] == m0[s1 as int]);
            } else {
                assert(self@[s1 as int] == 0);
            }
        }
        (s3, s2, s1)
    }

    /// Installs a 4 KiB leaf mapping `v` to `p` with `flags` and `PRESENT`, creating the
    /// intermediate tables that are missing and widening the write and user permissions
    /// of those on the path. `false`, with nothing changed, when the path meets a huge
    /// page or a dangling entry, or when the leaf slot is already in use.
    pub fn map_4KiB(&mut self, v: u64, p: u64, flags: u64) -> (r: bool)
        requires
            old(self).wf(),
            old(self)@.len() + 3 * 512 <= MAX_ENTRIES,
            is_canonical(v),
            v % 0x1000 == 0,
            p % 0x1000 == 0,
            p < 0x10_0000_0000_0000,
            flags & PHYSADDR_MASK == 0,
            flags & HUGE_PAGE == 0,
        ensures
            final(self).wf(),
            final(self).root == old(self).root,
            final(self)@.len() <= old(self)@.len() + 3 * 512,
            r == mappable(old(self)@, old(self).root as int, v, 1),
            !r ==> final(self)@ == old(self)@,
            r ==> forall|k: u64| k < 0x1000 ==> #[trigger] Self::walk(final(self)@, final(self).root as int, (v + k) as u64)
                == Some((p + k) as u64),
            forall|w: u64| #[trigger] Self::walk(old(self)@, old(self).root as int, w) is Some
                ==> Self::walk(final(self)@, final(self).root as int, w) == Self::walk(old(self)@, old(self).root as int, w),
    {
        if !self.can_map(v, 1) {
            return false;
        }
        let ghost m0 = self@;
        proof { lemma_perm(flags); }
        let (s3, s2, s1) = self.map_path(v, flags & 6, 1);
        let ghost m1 = self@;
        proof { lemma_leaf_entry(p, flags); }
        self.entries.set(s1, p | flags | PRESENT);
        proof {
            assert(extends(m1, self@));
            assert forall|k: u64| k < 0x1000 implies #[trigger] Self::walk(self@, self.root as int, (v + k) as u64)
                == Some((p + k) as u64) by {
                lemma_same_block(v, k, 0x1000);
                reveal(P4Table::walk);
            }
            assert forall|w: u64| #[trigger] Self::walk(m0, self.root as int, w) is Some
                implies Self::walk(self@, self.root as int, w) == Self::walk(m0, self.root as int, w) by {
                lemma_walk_kept(m0, self@, self.root as int, w);
            }
        }
        true
    }

    /// Installs a 2 MiB leaf, as `map_4KiB` does; `flags` must hold `HUGE_PAGE`.
    pub fn map_huge_2MiB(&mut self, v: u64, p: u64, flags: u64) -> (r: bool)
        requires
            old(self).wf(),
            old(self)@.len() + 3 * 512 <= MAX_ENTRIES,
            is_canonical(v),
            v % 0x20_0000 == 0,
            p % 0x20_0000 == 0,
            p < 0x10_0000_0000_0000,
            flags & PHYSADDR_MASK == 0,
            flags & HUGE_PAGE != 0,
        ensures
            final(self).wf(),
            final(self).root == old(self).root,
            final(self)@.len() <= old(self)@.len() + 3 * 512,
            r == mappable(old(self)@, old(self).root as int, v, 2),
            !r ==> final(self)@ == old(self)@,
            r ==> forall|k: u64| k < 0x20_0000 ==> #[trigger] Self::walk(final(self)@, final(self).root as int, (v + k) as u64)
                == Some((p + k) as u64),
            forall|w: u64| #[trigger] Self::walk(old(self)@, old(self).root as int, w) is Some
                ==> Self::walk(final(self)@, final(self).root as int, w) == Self::walk(old(self)@, old(self).root as int, w),
    {
        if !self.can_map(v, 2) {
            return false;
        }
        let ghost m0 = self@;
        proof {
            lemma_perm(flags);
            lemma_aligned_page(p, 0x20_0000);
        }
        let (s3, s2, _s1) = self.map_path(v, flags & 6, 2);
        let ghost m1 = self@;
        proof { lemma_leaf_entry(p, flags); }
        self.entries.set(s2, p | flags | PRESENT);
        proof {
            assert(extends(m1, self@));
            assert forall|k: u64| k < 0x20_0000 implies #[trigger] Self::walk(self@, self.root as int, (v + k) as u64)
                == Some((p + k) as u64) by {
                lemma_same_block(v, k, 0x20_0000);
                reveal(P4Table::walk);
            }
            assert forall|w: u64| #[trigger] Self::walk(m0, self.root as int, w) is Some
                implies Self::walk(self@, self.root as int, w) == Self::walk(m0, self.root as int, w) by {
                lemma_walk_kept(m0, self@, self.root as int, w);
            }
        }
        true
    }

    /// Installs a 1 GiB leaf, as `map_4KiB` does; `flags` must hold `HUGE_PAGE`.
    pub fn map_huge_1GiB(&mut self, v: u64, p: u64, flags: u64) -> (r: bool)
        requires
            old(self).wf(),
            old(self)@.len() + 3 * 512 <= MAX_ENTRIES,
            is_canonical(v),
            v % 0x4000_0000 == 0,
            p % 0x4000_0000 == 0,
            p < 0x10_0000_0000_0000,
            flags & PHYSADDR_MASK == 0,
            flags & HUGE_PAGE != 0,
        ensures
            final(self).wf(),
            final(self).root == old(self).root,
            final(self)@.len() <= old(self)@.len() + 3 * 512,
            r == mappable(old(self)@, old(self).root as int, v, 3),
            !r ==> final(self)@ == old(self)@,
            r ==> forall|k: u64| k < 0x4000_0000 ==> #[trigger] Self::walk(final(self)@, final(self).root as int, (v + k) as u64)
                == Some((p + k) as u64),
            forall|w: u64| #[trigger] Self::walk(old(self)@, old(self).root as int, w) is Some
                ==> Self::walk(final(self)@, final(self).root as int, w) == Self::walk(old(self)@, old(self).root as int, w),
    {
        if !self.can_map(v, 3) {
            return false;
        }
        let ghost m0 = self@;
        proof {
            lemma_perm(flags);
            lemma_aligned_page(p, 0x4000_0000);
        }
        let (s3, _s2, _s1) = self.map_path(v, flags & 6, 3);
        let ghost m1 = self@;
        proof { lemma_leaf_entry(p, flags); }
        self.entries.set(s3, p | flags | PRESENT);
        proof {
            assert(extends(m1, self@));
            assert forall|k: u64| k < 0x4000_0000 implies #[trigger] Self::walk(self@, self.root as int, (v + k) as u64)
                == Some((p + k) as u64) by {
                lemma_same_block(v, k, 0x4000_0000);
                reveal(P4Table::walk);
            }
            assert forall|w: u64| #[trigger] Self::walk(m0, self.root as int, w) is Some
                implies Self::walk(self@, self.root as int, w) == Self::walk(m0, self.root as int, w) by {
                lemma_walk_kept(m0, self@, self.root as int, w);
            }
        }
        true
    }

    /// The frames of every table of this address space, the root first: what is freed with
    /// it. Leaf frames, huge pages included, are not among them.
    pub fn table_frames(&self) -> (r: Vec<u64>)
        requires
            self.wf(),
        ensures
            r@ == tables_of(self@, self.root as int, 3),
    {
        proof { vstd::arithmetic::div_mod::lemma_fundamental_div_mod(self@.len() as int, 512); }
        self.tables_below(self.root, 3)
    }

    fn tables_below(&self, t: usize, level: u64) -> (r: Vec<u64>)
        requires
            self.wf(),
            t < self@.len() / 512,
            level <= 3,
        ensures
            r@ == tables_of(self@, t as int, level as nat),
        decreases level, 513int,
    {
        proof {
            vstd::arithmetic::div_mod::lemma_fundamental_div_mod(self@.len() as int, 512);
            assert(t * 4096 < 0x10_0000_0000_0000) by (nonlinear_arith)
                requires t < self@.len() / 512, self@.len() <= MAX_ENTRIES;
        }
        let mut r: Vec<u64> = Vec::new();
        r.push((t as u64) * 4096);
        let mut rest = self.subtables_from(t, level, 0);
        r.append(&mut rest);
        r
    }

    fn subtables_from(&self, t: usize, level: u64, i: usize) -> (r: Vec<u64>)
        requires
            self.wf(),
            t < self@.len() / 512,
            level <= 3,
            i <= 512,
        ensures
            r@ == subtables(self@, t as int, level as nat, i as int),
        decreases level, 512 - i,
    {
        if i >= 512 || level == 0 {
            return Vec::new();
        }
        proof {
            vstd::arithmetic::div_mod::lemma_fundamental_div_mod(self@.len() as int, 512);
            assert(t * 512 + i < self@.len()) by (nonlinear_arith)
                requires t < self@.len() / 512, i < 512, self@.len() == 512 * (self@.len() / 512) + self@.len() % 512,
                    self@.len() % 512 == 0;
        }
        let e = self.entries[t * 512 + i];
        let mut here: Vec<u64> = if e & PRESENT != 0 && e & HUGE_PAGE == 0 && ((e & PHYSADDR_MASK) / 4096) < (self.entries.len() / 512) as u64 {
            self.tables_below(((e & PHYSADDR_MASK) / 4096) as usize, level - 1)
        } else {
            Vec::new()
        };
        let mut rest = self.subtables_from(t, level, i + 1);
        here.append(&mut rest);
        here
    }

    /// The physical address that `v` maps to, walking all four levels and honouring
    /// huge pages at the second and third.
    pub fn translate(&self, v: u64) -> (r: Option<u64>)
        requires
            self.wf(),
        ensures
            r == Self::walk(self@, self.root as int, v),
    {
        proof { reveal(P4Table::walk); }
        let len = self.entries.len();
        assert(((v / 0x80_0000_0000) % 512) < 512);
        let s4 = self.root * ENTRIES + ((v / 0x80_0000_0000) % 512) as usize;
        let e4 = self.entries[s4];
        if e4 & PRESENT == 0 {
            return None;
        }
        let s3 = match self.next_slot(e4, ((v / 0x4000_0000) % 512) as usize) {
            None => return None,
            Some(s) => s,
        };
        let e3 = self.entries[s3];
        if e3 & PRESENT == 0 {
            return None;
        }
        if e3 & HUGE_PAGE != 0 {
            return {
            assert((e3 & 0x000f_ffff_ffff_f000u64) <= 0x000f_ffff_ffff_f000u64) by (bit_vector);
            Some((e3 & PHYSADDR_MASK) + v % 0x4000_0000)
        };
        }
        let s2 = match self.next_slot(e3, ((v / 0x20_0000) % 512) as usize) {
            None => return None,
            Some(s) => s,
        };
        let e2 = self.entries[s2];
        if e2 & PRESENT == 0 {
            return None;
        }
        if e2 & HUGE_PAGE != 0 {
            return {
            assert((e2 & 0x000f_ffff_ffff_f000u64) <= 0x000f_ffff_ffff_f000u64) by (bit_vector);
            Some((e2 & PHYSADDR_MASK) + v % 0x20_0000)
        };
        }
        let s1 = match self.next_slot(e2, ((v / 0x1000) % 512) as usize) {
            None => return None,
            Some(s) => s,
        };
        let e1 = self.entries[s1];
        if e1 & PRESENT == 0 {
            return None;
        }
        {
            assert((e1 & 0x000f_ffff_ffff_f000u64) <= 0x000f_ffff_ffff_f000u64) by (bit_vector);
            Some((e1 & PHYSADDR_MASK) + v % 0x1000)
        }
    }
}

} // verus!
