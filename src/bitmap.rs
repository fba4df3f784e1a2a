use vstd::prelude::*;
use crate::mem::{PhysicalAddress, Frame, PAGE_SIZE};
use crate::multiboot::{MemMapEntry, map_fits, highest_ram, highest_ram_addr, count_ram_frames};

verus! {

/// Whether every flag of `s` in `[start, start + n)` equals `val`.
pub open spec fn run_is(s: Seq<bool>, start: int, n: int, val: bool) -> bool {
    0 <= start && start + n <= s.len() && forall|i: int| start <= i < start + n ==> s[i] == val
}

/// `s` with the flags in `[start, start + n)` set to `val`.
pub open spec fn with_run(s: Seq<bool>, start: int, n: int, val: bool) -> Seq<bool> {
    Seq::new(s.len(), |i: int| if start <= i < start + n { val } else { s[i] })
}

/// Whether frame `i` overlaps the bytes `[start, end)`, counting from the frame holding `start`.
pub open spec fn frame_in(start: u64, end: u64, i: int) -> bool {
    start / 4096 <= i && i * 4096 < end
}

/// The number of used flags of `s`.
pub open spec fn count_used(s: Seq<bool>) -> nat
    decreases s.len(),
{
    if s.len() == 0 {
        0
    } else {
        count_used(s.drop_last()) + if s.last() { 1nat } else { 0nat }
    }
}

/// One flag per physical frame, `true` when used, with the allocator's counters.
pub struct BitMap {
    pub bits: Vec<bool>,
    pub used_ram_frames: u64,
    pub reserved_ram_frames: u64,
    pub ram_frames: u64,
}

impl BitMap {
    pub open spec fn view(&self) -> Seq<bool> {
        self.bits@
    }

    /// The flags may be numbered by frame number, and the frames' addresses fit.
    pub open spec fn wf(&self) -> bool {
        self.bits@.len() * 4096 <= u64::MAX
    }

    /// A map of `total` frames, all free.
    pub fn new(total: u64) -> (r: Self)
        requires
            total * 4096 <= u64::MAX,
        ensures
            r.wf(),
            r@.len() == total,
            forall|i: int| 0 <= i < total ==> !r@[i],
            r.used_ram_frames == 0,
            r.reserved_ram_frames == 0,
            r.ram_frames == 0,
    {
        let mut bits: Vec<bool> = Vec::new();
        let mut i: u64 = 0;
        while i < total
            invariant
                i <= total,
                bits@.len() == i,
                forall|j: int| 0 <= j < i ==> !bits@[j],
            decreases total - i,
        {
            bits.push(false);
            i = i + 1;
        }
        BitMap { bits, used_ram_frames: 0, reserved_ram_frames: 0, ram_frames: 0 }
    }

    /// Whether frame `index` is used.
    pub fn present(&self, index: usize) -> (r: bool)
        requires
            index < self@.len(),
        ensures
            r == self@[index as int],
    {
        self.bits[index]
    }

    /// Marks frame `index` used.
    pub fn set(&mut self, index: usize)
        requires
            index < old(self)@.len(),
        ensures
            final(self)@ == old(self)@.update(index as int, true),
            final(self).used_ram_frames == old(self).used_ram_frames,
            final(self).reserved_ram_frames == old(self).reserved_ram_frames,
            final(self).ram_frames == old(self).ram_frames,
    {
        self.bits.set(index, true);
    }

    /// Marks frame `index` free.
    pub fn reset(&mut self, index: usize)
        requires
            index < old(self)@.len(),
        ensures
            final(self)@ == old(self)@.update(index as int, false),
            final(self).used_ram_frames == old(self).used_ram_frames,
            final(self).reserved_ram_frames == old(self).reserved_ram_frames,
            final(self).ram_frames == old(self).ram_frames,
    {
        self.bits.set(index, false);
    }

    /// The first frame that starts a run of `n` free frames, scanning from frame 0.
    pub fn get_free_frames(&self, n: usize) -> (r: Option<usize>)
        requires
            n > 0,
        ensures
            r.is_some() ==> run_is(self@, r.unwrap() as int, n as int, false),
            r.is_some() ==> forall|t: int| 0 <= t < r.unwrap() ==> !run_is(self@, t, n as int, false),
            r is None ==> forall|t: int| 0 <= t ==> !run_is(self@, t, n as int, false),
    {
        let len = self.bits.len();
        let mut start: usize = 0;
        let mut run: usize = 0;
        let mut i: usize = 0;
        while i < len
            invariant
                len == self@.len(),
                i <= len,
                run < n,
                start + run == i,
                run_is(self@, start as int, run as int, false),
                forall|t: int| 0 <= t < start ==> !run_is(self@, t, n as int, false),
            decreases len - i,
        {
            if self.bits[i] {
                proof {
                    assert forall|t: int| 0 <= t < i + 1 implies !run_is(self@, t, n as int, false) by {
                        if t >= start && run_is(self@, t, n as int, false) {
                            assert(t <= i < t + n);
                            assert(self@[i as int]);
                        }
                    }
                }
                i = i + 1;
                start = i;
                run = 0;
            } else {
                i = i + 1;
                run = run + 1;
                if run == n {
                    return Some(start);
                }
            }
        }
        proof {
            assert forall|t: int| 0 <= t implies !run_is(self@, t, n as int, false) by {
                if t >= start && run_is(self@, t, n as int, false) {
                    assert(t + n <= len);
                }
            }
        }
        None
    }

    /// Takes the first run of `n` free frames, marks it used and returns its address.
    pub fn alloc_frames(&mut self, n: usize) -> (r: Option<PhysicalAddress>)
        requires
            old(self).wf(),
            n > 0,
            old(self).used_ram_frames + n <= u64::MAX,
        ensures
            final(self).wf(),
            final(self).ram_frames == old(self).ram_frames,
            final(self).reserved_ram_frames == old(self).reserved_ram_frames,
            r matches Some(a) ==> {
                let s = a.0 / 4096;
                &&& a.0 % 4096 == 0
                &&& run_is(old(self)@, s as int, n as int, false)
                &&& forall|t: int| 0 <= t < s ==> !run_is(old(self)@, t, n as int, false)
                &&& final(self)@ == with_run(old(self)@, s as int, n as int, true)
                &&& final(self).used_ram_frames == old(self).used_ram_frames + n
            },
            r is None ==> forall|t: int| 0 <= t ==> !run_is(old(self)@, t, n as int, false),
            r is None ==> *final(self) == *old(self),
    {
        let len = self.bits.len();
        match self.get_free_frames(n) {
            None => None,
            Some(s) => {
                assert(s + n <= len);
                let ghost before = self@;
                let end = s + n;
                let mut i: usize = s;
                while i < end
                    invariant
                        end == s + n,
                        s + n <= self@.len(),
                        before.len() == self@.len(),
                        s <= i <= s + n,
                        forall|j: int| 0 <= j < self@.len() ==> self@[j] == if s <= j < i { true } else { before[j] },
                        self.used_ram_frames == old(self).used_ram_frames,
                        self.ram_frames == old(self).ram_frames,
                        self.reserved_ram_frames == old(self).reserved_ram_frames,
                    decreases end - i,
                {
                    self.set(i);
                    i = i + 1;
                }
                assert(self@ =~= with_run(before, s as int, n as int, true));
                self.used_ram_frames = self.used_ram_frames + n as u64;
                let addr = (s as u64) * PAGE_SIZE;
                assert(addr / 4096 == s && addr % 4096 == 0) by (nonlinear_arith)
                    requires addr == s * 4096;
                Some(PhysicalAddress(addr))
            }
        }
    }

    /// Marks the `n` frames from `addr` free again; each must be in use.
    pub fn free(&mut self, addr: PhysicalAddress, n: usize)
        requires
            addr.0 % 4096 == 0,
            run_is(old(self)@, (addr.0 / 4096) as int, n as int, true),
            old(self).used_ram_frames >= n,
        ensures
            final(self)@ == with_run(old(self)@, (addr.0 / 4096) as int, n as int, false),
            final(self).used_ram_frames == old(self).used_ram_frames - n,
            final(self).ram_frames == old(self).ram_frames,
            final(self).reserved_ram_frames == old(self).reserved_ram_frames,
    {
        let ghost before = self@;
        let len = self.bits.len();
        assert(addr.0 / 4096 + n <= len);
        let s = (addr.0 / PAGE_SIZE) as usize;
        let end = s + n;
        let mut i: usize = s;
        while i < end
            invariant
                end == s + n,
                s == addr.0 / 4096,
                s + n <= self@.len(),
                before.len() == self@.len(),
                s <= i <= s + n,
                forall|j: int| 0 <= j < self@.len() ==> self@[j] == if s <= j < i { false } else { before[j] },
                self.used_ram_frames == old(self).used_ram_frames,
                self.ram_frames == old(self).ram_frames,
                self.reserved_ram_frames == old(self).reserved_ram_frames,
            decreases end - i,
        {
            self.reset(i);
            i = i + 1;
        }
        assert(self@ =~= with_run(before, s as int, n as int, false));
        self.used_ram_frames = self.used_ram_frames - n as u64;
    }

    /// Marks every frame of `[start, end)` (byte addresses) used, as reserved memory.
    pub fn reserve_range(&mut self, start: u64, end: u64)
        requires
            old(self).wf(),
        ensures
            final(self).wf(),
            final(self)@.len() == old(self)@.len(),
            forall|i: int| 0 <= i < final(self)@.len() ==>
                #[trigger] final(self)@[i] == (old(self)@[i] || frame_in(start, end, i)),
            final(self).used_ram_frames == old(self).used_ram_frames,
            final(self).ram_frames == old(self).ram_frames,
    {
        let len = self.bits.len();
        let first = start / PAGE_SIZE;
        let ghost before = self@;
        let mut i: usize = 0;
        while i < len
            invariant
                len == self@.len(),
                before.len() == len,
                i <= len,
                len * 4096 <= u64::MAX,
                first == start / 4096,
                forall|j: int| 0 <= j < i ==> self@[j] == (before[j] || frame_in(start, end, j)),
                forall|j: int| i <= j < len ==> self@[j] == before[j],
                self.used_ram_frames == old(self).used_ram_frames,
                self.ram_frames == old(self).ram_frames,
            decreases len - i,
        {
            assert(i * 4096 <= len * 4096) by (nonlinear_arith) requires i <= len;
            assert(self@[i as int] == before[i as int]);
            let ghost prev = self@;
            assert(forall|j: int| 0 <= j < i ==> prev[j] == (before[j] || frame_in(start, end, j)));
            let addr: u64 = (i as u64) * PAGE_SIZE;
            let hit = first <= i as u64 && addr < end;
            assert(hit == frame_in(start, end, i as int));
            if hit {
                self.set(i);
            }
            assert(self@[i as int] == (prev[i as int] || hit));
            assert(self@[i as int] == (before[i as int] || frame_in(start, end, i as int)));
            assert(forall|j: int| 0 <= j < i ==> self@[j] == prev[j]);
            proof {
                assert forall|j: int| 0 <= j < i + 1 implies self@[j] == (before[j] || frame_in(start, end, j)) by {
                    if j < i {
                        assert(self@[j] == prev[j]);
                        assert(prev[j] == (before[j] || frame_in(start, end, j)));
                    }
                }
            }
            i = i + 1;
        }
        assert(before == old(self)@);
        assert(self.wf());
        assert forall|j: int| 0 <= j < self@.len() implies self@[j] == (old(self)@[j] || frame_in(
            start,
            end,
            j,
        )) by {
            assert(self@[j] == (before[j] || frame_in(start, end, j)));
        }
    }
}

/// Where the bitmap may go in region `e` (last address `base + length - 1`), above the
/// kernel image ending at `kernel_end`: the first page boundary of the region, or the
/// first one after the kernel when the region holds it; `None` when `bytes` bytes do not
/// fit before the region's end.
pub open spec fn candidate(e: MemMapEntry, kernel_end: u64, bytes: int) -> Option<int> {
    let last = e.base_addr + e.length - 1;
    if e.entry_type != 1 || e.length == 0 {
        None
    } else if e.base_addr > kernel_end {
        let s = (e.base_addr + 4095) / 4096 * 4096;
        if s + bytes <= last { Some(s) } else { None }
    } else if last > kernel_end {
        let s = (kernel_end + 1 + 4095) / 4096 * 4096;
        if s + bytes <= last { Some(s) } else { None }
    } else {
        None
    }
}

/// Bytes of bitmap needed for the RAM of `map`.
pub open spec fn bitmap_bytes(map: Seq<MemMapEntry>) -> int {
    ((highest_ram(map, map.len() as int) + 4095) / 4096 + 7) / 8
}

/// The lowest candidate start among the first `n` regions of `map`.
pub open spec fn bitmap_start(map: Seq<MemMapEntry>, n: int, kernel_end: u64) -> Option<int>
    decreases n,
{
    if n <= 0 {
        None
    } else {
        let prev = bitmap_start(map, n - 1, kernel_end);
        match candidate(map[n - 1], kernel_end, bitmap_bytes(map)) {
            None => prev,
            Some(c) => match prev {
                None => Some(c),
                Some(p) => if c < p { Some(c) } else { Some(p) },
            },
        }
    }
}

/// Whether frame `i` overlaps a non-RAM region among the first `n` of `map`.
pub open spec fn in_non_ram(map: Seq<MemMapEntry>, n: int, i: int) -> bool
    decreases n,
{
    if n <= 0 {
        false
    } else {
        in_non_ram(map, n - 1, i) || (map[n - 1].entry_type != 1 && frame_in(
            map[n - 1].base_addr,
            (map[n - 1].base_addr + map[n - 1].length) as u64,
            i,
        ))
    }
}

/// Whether `b` is the bitmap that `map` and the kernel's last address call for: one flag per
/// frame up to the highest RAM address, used exactly for the kernel's frames, the bitmap's
/// own storage and the frames of non-RAM regions.
pub open spec fn reserved_as_spec(b: BitMap, map: Seq<MemMapEntry>, kernel_end: u64) -> bool {
    let start = bitmap_start(map, map.len() as int, kernel_end).unwrap();
    &&& b@.len() == (highest_ram(map, map.len() as int) + 4095) / 4096
    &&& b.ram_frames == b@.len()
    &&& b.used_ram_frames == 0
    &&& forall|i: int| 0 <= i < b@.len() ==> b@[i] == (i <= kernel_end / 4096 || frame_in(
        start as u64,
        (start + bitmap_bytes(map)) as u64,
        i,
    ) || in_non_ram(map, map.len() as int, i))
}

/// The frame bitmap for memory map `map` and a kernel image whose last address is
/// `kernel_end`, with where its storage starts; `None` when no RAM region has room for it
/// above the kernel.
pub fn bitmap_for_map(map: &Vec<MemMapEntry>, kernel_end: u64) -> (r: Option<(BitMap, u64)>)
    requires
        map_fits(map@),
        kernel_end < 0x10_0000_0000_0000,
    ensures
        r is None <==> bitmap_start(map@, map@.len() as int, kernel_end) is None,
        r matches Some((b, start)) ==> b.wf() && start == bitmap_start(map@, map@.len() as int, kernel_end).unwrap()
            && start % 4096 == 0 && start > kernel_end && reserved_as_spec(b, map@, kernel_end),
{
    let h = highest_ram_addr(map);
    let total = count_ram_frames(map);
    let bytes = (total + 7) / 8;
    assert(bytes == bitmap_bytes(map@));
    let mut best: Option<u64> = None;
    let mut i: usize = 0;
    while i < map.len()
        invariant
            i <= map@.len(),
            map_fits(map@),
            kernel_end < 0x10_0000_0000_0000,
            bytes == bitmap_bytes(map@),
            bytes <= 0x2_0000_0000_0000,
            best == match bitmap_start(map@, i as int, kernel_end) { None => None::<u64>, Some(c) => Some(c as u64) },
            bitmap_start(map@, i as int, kernel_end) matches Some(c) ==> 0 <= c <= 0x10_0000_0000_0000 && c % 4096 == 0 && c > kernel_end,
        decreases map@.len() - i,
    {
        let e = map[i];
        assert(e.base_addr + e.length <= 0x10_0000_0000_0000);
        let mut cand: Option<u64> = None;
        if e.entry_type == 1 && e.length > 0 {
            let last = e.base_addr + e.length - 1;
            if e.base_addr > kernel_end {
                let s = (e.base_addr + 4095) / 4096 * 4096;
                if s + bytes <= last {
                    cand = Some(s);
                }
            } else if last > kernel_end {
                let s = (kernel_end + 1 + 4095) / 4096 * 4096;
                if s + bytes <= last {
                    cand = Some(s);
                }
            }
        }
        proof {
            let x = e.base_addr + 4095;
            assert((x / 4096 * 4096) % 4096 == 0 && x / 4096 * 4096 > x - 4096) by (nonlinear_arith)
                requires x >= 0;
            let y = kernel_end + 1 + 4095;
            assert((y / 4096 * 4096) % 4096 == 0 && y / 4096 * 4096 > y - 4096) by (nonlinear_arith)
                requires y >= 0;
        }
        assert(cand == match candidate(e, kernel_end, bytes as int) { None => None::<u64>, Some(c) => Some(c as u64) });
        match cand {
            None => {},
            Some(c) => {
                match best {
                    None => { best = Some(c); },
                    Some(p) => { if c < p { best = Some(c); } },
                }
            },
        }
        i = i + 1;
    }
    let start = match best {
        None => return None,
        Some(s) => s,
    };
    assert(total * 4096 <= u64::MAX) by (nonlinear_arith)
        requires total == (h + 4095) / 4096, h <= 0x10_0000_0000_0000;
    let mut b = BitMap::new(total);
    b.ram_frames = total;
    b.reserve_range(0, kernel_end + 1);
    proof {
        assert forall|i: int| 0 <= i < b@.len() implies b@[i] == (i <= kernel_end / 4096) by {
            assert(frame_in(0, (kernel_end + 1) as u64, i) == (i <= kernel_end / 4096)) by (nonlinear_arith)
                requires i >= 0, kernel_end >= 0, frame_in(0, (kernel_end + 1) as u64, i) == (0 <= i && i * 4096 < kernel_end + 1);
        }
    }
    let ghost b1 = b@;
    assert(start + bytes <= u64::MAX);
    let bend: u64 = start + bytes;
    b.reserve_range(start, bend);
    assert(b@.len() == b1.len());
    assert(forall|i: int| 0 <= i < b@.len() ==> #[trigger] b@[i] == (b1[i] || frame_in(start, bend, i)));
    proof {
        assert forall|i: int| 0 <= i < b@.len() implies b@[i] == (i <= kernel_end / 4096 || frame_in(start, (start + bytes) as u64, i)
            || in_non_ram(map@, 0, i)) by {
            assert(b1[i] == (i <= kernel_end / 4096));
            assert(b@[i] == (b1[i] || frame_in(start, (start + bytes) as u64, i)));
            assert(!in_non_ram(map@, 0, i));
        }
    }
    let mut j: usize = 0;
    while j < map.len()
        invariant
            j <= map@.len(),
            map_fits(map@),
            b.wf(),
            b@.len() == total,
            b.ram_frames == total,
            b.used_ram_frames == 0,
            forall|i: int| 0 <= i < b@.len() ==> b@[i] == (i <= kernel_end / 4096 || frame_in(start, (start + bytes) as u64, i)
                || in_non_ram(map@, j as int, i)),
        decreases map@.len() - j,
    {
        let e = map[j];
        assert(e.base_addr + e.length <= 0x10_0000_0000_0000);
        let ghost before = b@;
        if e.entry_type != 1 {
            b.reserve_range(e.base_addr, e.base_addr + e.length);
        }
        j = j + 1;
        assert forall|i: int| 0 <= i < b@.len() implies b@[i] == (i <= kernel_end / 4096 || frame_in(start, (start + bytes) as u64, i)
                || in_non_ram(map@, j as int, i)) by {
            assert(before[i] == (i <= kernel_end / 4096 || frame_in(start, (start + bytes) as u64, i)
                || in_non_ram(map@, j - 1, i)));
            assert(in_non_ram(map@, j as int, i) == (in_non_ram(map@, j - 1, i) || (e.entry_type != 1
                && frame_in(e.base_addr, (e.base_addr + e.length) as u64, i))));
            if e.entry_type != 1 {
                assert(b@[i] == (before[i] || frame_in(e.base_addr, (e.base_addr + e.length) as u64, i)));
            }
        }
    }
    Some((b, start))
}

/// In a bitmap built from a memory map, the kernel's frames, the bitmap's own storage and
/// every frame of a non-RAM region are used, so `allocate_frame`, which only hands out a
/// frame that was free, never returns one of them.
pub proof fn lemma_reserved_frames_used(b: BitMap, map: Seq<MemMapEntry>, kernel_end: u64, i: int)
    requires
        reserved_as_spec(b, map, kernel_end),
        0 <= i < b@.len(),
        i <= kernel_end / 4096 || frame_in(
            bitmap_start(map, map.len() as int, kernel_end).unwrap() as u64,
            (bitmap_start(map, map.len() as int, kernel_end).unwrap() + bitmap_bytes(map)) as u64,
            i,
        ) || in_non_ram(map, map.len() as int, i),
    ensures
        b@[i],
{
}

/// The kernel's frame allocator: empty until initialised once.
pub struct BitMapAllocator(pub Option<BitMap>);

impl BitMapAllocator {
    pub fn new() -> (r: Self)
        ensures
            r.0 is None,
    {
        BitMapAllocator(None)
    }

    /// Builds the bitmap from the firmware memory map and the kernel image's last address
    /// (see `bitmap_for_map`); `false`, with nothing changed, when a bitmap is already in
    /// place or no RAM region can hold it.
    pub fn init(&mut self, map: &Vec<MemMapEntry>, kernel_end: u64) -> (r: bool)
        requires
            map_fits(map@),
            kernel_end < 0x10_0000_0000_0000,
        ensures
            r == (old(self).0 is None && bitmap_start(map@, map@.len() as int, kernel_end) is Some),
            r ==> (final(self).0 matches Some(b) && b.wf() && reserved_as_spec(b, map@, kernel_end)),
            !r ==> final(self).0 == old(self).0,
    {
        if self.0.is_some() {
            return false;
        }
        match bitmap_for_map(map, kernel_end) {
            None => false,
            Some((b, _start)) => {
                self.0 = Some(b);
                true
            },
        }
    }

    /// One free frame, marked used; `None` when uninitialised or when memory is exhausted.
    pub fn allocate_frame(&mut self) -> (r: Option<Frame>)
        requires
            old(self).0 matches Some(b) ==> b.wf() && b.used_ram_frames < u64::MAX,
        ensures
            old(self).0 is None ==> r is None,
            old(self).0 matches Some(b) ==> (r is None <==> forall|t: int| 0 <= t < b@.len() ==> b@[t]),
            r is None ==> final(self).0 == old(self).0,
            r matches Some(f) ==> (old(self).0 matches Some(b) && final(self).0 matches Some(b2)
                && 0 <= f.number < b@.len() && !b@[f.number as int]
                && (forall|t: int| 0 <= t < f.number ==> b@[t])
                && b2@ == b@.update(f.number as int, true)
                && b2.used_ram_frames == b.used_ram_frames + 1),
    {
        match &mut self.0 {
            None => None,
            Some(b) => {
                let ghost b0 = *b;
                let r = b.alloc_frames(1);
                match r {
                    None => {
                        proof {
                            assert forall|t: int| 0 <= t < b0@.len() implies b0@[t] by {
                                assert(!run_is(b0@, t, 1, false));
                            }
                        }
                        None
                    },
                    Some(a) => {
                        let ghost s = (a.0 / 4096) as int;
                        assert(run_is(b0@, s, 1, false));
                        assert(s <= s < s + 1);
                        assert(!b0@[s]);
                        assert forall|t: int| 0 <= t < s implies b0@[t] by {
                            assert(!run_is(b0@, t, 1, false));
                        }
                        assert(b@ =~= b0@.update(s, true));
                        Some(Frame::containing_address(a))
                    },
                }
            },
        }
    }

    /// Gives a used frame back.
    pub fn deallocate_frame(&mut self, frame: Frame)
        requires
            old(self).0 matches Some(b) && 0 <= frame.number < b@.len() && b@[frame.number as int]
                && b.used_ram_frames >= 1 && b.wf(),
        ensures
            old(self).0 matches Some(b) && final(self).0 matches Some(b2)
                && b2@ == b@.update(frame.number as int, false)
                && b2.used_ram_frames == b.used_ram_frames - 1,
    {
        match &mut self.0 {
            None => {},
            Some(b) => {
                let ghost b0 = *b;
                proof {
                    assert(frame.number * 4096 <= b0@.len() * 4096) by (nonlinear_arith)
                        requires frame.number < b0@.len();
                }
                let a = frame.start_address();
                assert(a.0 / 4096 == frame.number && a.0 % 4096 == 0) by (nonlinear_arith)
                    requires a.0 == frame.number * 4096;
                b.free(a, 1);
                assert(b@ =~= b0@.update(frame.number as int, false));
            },
        }
    }
}

/// `s` after setting the flag of each frame of `fs`, in order, to `val`.
pub open spec fn apply_each(s: Seq<bool>, fs: Seq<int>, val: bool) -> Seq<bool>
    decreases fs.len(),
{
    if fs.len() == 0 {
        s
    } else {
        let t = apply_each(s, fs.drop_last(), val);
        if 0 <= fs.last() < t.len() { t.update(fs.last(), val) } else { t }
    }
}

proof fn lemma_apply_each(s: Seq<bool>, fs: Seq<int>, val: bool)
    ensures
        apply_each(s, fs, val).len() == s.len(),
        forall|i: int| 0 <= i < s.len() ==> apply_each(s, fs, val)[i] == if fs.contains(i) { val } else { s[i] },
    decreases fs.len(),
{
    if fs.len() > 0 {
        lemma_apply_each(s, fs.drop_last(), val);
        assert forall|i: int| 0 <= i < s.len() implies apply_each(s, fs, val)[i] == if fs.contains(i) { val } else { s[i] } by {
            if fs.contains(i) && i != fs.last() {
                let k = choose|k: int| 0 <= k < fs.len() && fs[k] == i;
                assert(fs.drop_last()[k] == i);
            }
            if fs.drop_last().contains(i) {
                let k = choose|k: int| 0 <= k < fs.drop_last().len() && fs.drop_last()[k] == i;
                assert(fs[k] == i);
            }
            if i == fs.last() {
                assert(fs[fs.len() - 1] == i);
            }
        }
    }
}

/// Allocating frames one by one, each free at the start, and then freeing the same frames
/// in any order leaves every flag as it was.
pub proof fn lemma_allocations_undone(s: Seq<bool>, allocated: Seq<int>, freed: Seq<int>)
    requires
        forall|k: int| 0 <= k < allocated.len() ==> 0 <= #[trigger] allocated[k] < s.len() && !s[allocated[k]],
        allocated.to_set() == freed.to_set(),
    ensures
        apply_each(apply_each(s, allocated, true), freed, false) == s,
{
    let t = apply_each(s, allocated, true);
    lemma_apply_each(s, allocated, true);
    lemma_apply_each(t, freed, false);
    assert forall|i: int| 0 <= i < s.len() implies apply_each(t, freed, false)[i] == s[i] by {
        if freed.contains(i) {
            assert(freed.to_set().contains(i));
            assert(allocated.to_set().contains(i));
            let k = choose|k: int| 0 <= k < allocated.len() && allocated[k] == i;
        } else {
            assert(!freed.to_set().contains(i));
            assert(!allocated.to_set().contains(i));
        }
    }
    assert(apply_each(t, freed, false) =~= s);
}

/// Freeing a run that was just allocated gives back the flags as they were.
pub proof fn lemma_alloc_free_round_trip(s: Seq<bool>, start: int, n: int)
    requires
        run_is(s, start, n, false),
    ensures
        with_run(with_run(s, start, n, true), start, n, false) == s,
        run_is(with_run(s, start, n, true), start, n, true),
{
    assert(with_run(with_run(s, start, n, true), start, n, false) =~= s);
}

} // verus!
