use vstd::prelude::*;
use crate::entry::{PRESENT, WRITABLE, USER_ACCESSIBLE, HUGE_PAGE, PHYSADDR_MASK};
use crate::mem::HIGHER_HALF;
use crate::table::{P4Table, MAX_ENTRIES, mappable};

verus! {

/// Where user task code is mapped.
pub const USER_CODE_BASE: u64 = 0x40_0000;

/// Where a user task's stack is mapped.
pub const USER_STACK_BASE: u64 = 0x80_0000;

/// RFLAGS of a new user task: interrupts enabled.
pub const USER_RFLAGS: u64 = 0x200;

/// The selectors that `iretq` loads for a user task.
pub const USER_CS: u64 = 51;
pub const USER_SS: u64 = 43;

/// The initial stack of a new task, lowest address first: the six callee-saved register
/// slots that the switch pops, the trampoline it returns to, the entry point, and for a
/// user task the rest of the `iretq` frame (code selector, RFLAGS, user stack pointer,
/// stack selector).
pub open spec fn stack_words(entry: u64, trampoline: u64, user_stack_top: Option<u64>) -> Seq<u64> {
    seq![0u64, 0u64, 0u64, 0u64, 0u64, 0u64, trampoline, entry] + match user_stack_top {
        None => Seq::<u64>::empty(),
        Some(t) => seq![USER_CS, USER_RFLAGS, (t as int / 16 * 16 - 16) as u64, USER_SS],
    }
}

/// The words to place at the top of a new task's stack; the user stack pointer is the
/// user stack's top rounded down to 16 bytes, less 16.
pub fn seed_stack(entry: u64, trampoline: u64, user_stack_top: Option<u64>) -> (r: Vec<u64>)
    requires
        user_stack_top matches Some(t) ==> t >= 16,
    ensures
        r@ == stack_words(entry, trampoline, user_stack_top),
{
    let mut v: Vec<u64> = Vec::new();
    let mut i: usize = 0;
    while i < 6
        invariant
            i <= 6,
            v@ == Seq::new(i as nat, |k: int| 0u64),
        decreases 6 - i,
    {
        v.push(0);
        i = i + 1;
        assert(v@ =~= Seq::new(i as nat, |k: int| 0u64));
    }
    v.push(trampoline);
    v.push(entry);
    match user_stack_top {
        None => {},
        Some(t) => {
            v.push(USER_CS);
            v.push(USER_RFLAGS);
            v.push(t / 16 * 16 - 16);
            v.push(USER_SS);
        },
    }
    assert(v@ =~= stack_words(entry, trampoline, user_stack_top));
    v
}

/// Whether the `n` pages from `v` translate to the `n` frames from `p` in `mem`.
pub open spec fn maps_range(mem: Seq<u64>, root: int, v: u64, p: u64, n: int) -> bool {
    forall|j: int, k: int| 0 <= j < n && 0 <= k < 4096 ==> #[trigger] P4Table::walk(mem, root, (v + j * 4096 + k) as u64)
        == Some((p + j * 4096 + k) as u64)
}

/// Maps the `n` pages from `v` to the `n` frames from `p`, in order, stopping at the first
/// page that cannot be mapped. Returns how many were mapped.
pub fn map_range(t: &mut P4Table, v: u64, p: u64, n: u64, flags: u64) -> (r: u64)
    requires
        old(t).wf(),
        old(t)@.len() + 3 * 512 * n <= MAX_ENTRIES,
        v % 4096 == 0,
        p % 4096 == 0,
        p + n * 4096 <= 0x10_0000_0000_0000,
        v + n * 4096 <= 0x0000_8000_0000_0000 || (v >= 0xffff_8000_0000_0000 && v + n * 4096 <= u64::MAX),
        flags & PHYSADDR_MASK == 0,
        flags & HUGE_PAGE == 0,
    ensures
        final(t).wf(),
        final(t).root == old(t).root,
        final(t)@.len() <= old(t)@.len() + 3 * 512 * r,
        r <= n,
        maps_range(final(t)@, final(t).root as int, v, p, r as int),
        r < n ==> !mappable(final(t)@, final(t).root as int, (v + r * 4096) as u64, 1),
        forall|w: u64| #[trigger] P4Table::walk(old(t)@, old(t).root as int, w) is Some
            ==> P4Table::walk(final(t)@, final(t).root as int, w) == P4Table::walk(old(t)@, old(t).root as int, w),
{
    let ghost t0 = t@;
    let mut i: u64 = 0;
    while i < n
        invariant
            t.wf(),
            t.root == old(t).root,
            i <= n,
            t@.len() + 3 * 512 * (n - i) <= MAX_ENTRIES,
            t@.len() <= t0.len() + 3 * 512 * i,
            t0 == old(t)@,
            flags & PHYSADDR_MASK == 0,
            flags & HUGE_PAGE == 0,
            v % 4096 == 0,
            p % 4096 == 0,
            p + n * 4096 <= 0x10_0000_0000_0000,
            v + n * 4096 <= 0x0000_8000_0000_0000 || (v >= 0xffff_8000_0000_0000 && v + n * 4096 <= u64::MAX),
            maps_range(t@, t.root as int, v, p, i as int),
            forall|w: u64| #[trigger] P4Table::walk(t0, t.root as int, w) is Some
                ==> P4Table::walk(t@, t.root as int, w) == P4Table::walk(t0, t.root as int, w),
        decreases n - i,
    {
        assert((i + 1) * 4096 <= n * 4096) by (nonlinear_arith) requires i < n;
        assert(3 * 512 * (n - i) == 3 * 512 + 3 * 512 * (n - i - 1)) by (nonlinear_arith);
        assert(3 * 512 * (n - i - 1) >= 0) by (nonlinear_arith) requires i < n;
        let vi = v + i * 4096;
        let pi = p + i * 4096;
        assert(vi % 4096 == 0 && pi % 4096 == 0) by (nonlinear_arith)
            requires vi == v + i * 4096, pi == p + i * 4096, v % 4096 == 0, p % 4096 == 0;
        let ghost before = t@;
        assert(vi + 4096 <= v + n * 4096);
        assert(pi + 4096 <= p + n * 4096);
        assert(crate::mem::is_canonical(vi));
        if !t.map_4KiB(vi, pi, flags) {
            return i;
        }
        proof {
            assert forall|w: u64| #[trigger] P4Table::walk(t0, t.root as int, w) is Some
                implies P4Table::walk(t@, t.root as int, w) == P4Table::walk(t0, t.root as int, w) by {
                assert(P4Table::walk(before, t.root as int, w) == P4Table::walk(t0, t.root as int, w));
            }
            assert(3 * 512 * (i + 1) == 3 * 512 * i + 3 * 512) by (nonlinear_arith);
        }
        proof {
            assert forall|j: int, k: int| 0 <= j < i + 1 && 0 <= k < 4096 implies #[trigger] P4Table::walk(t@, t.root as int, (v + j * 4096 + k) as u64)
                == Some((p + j * 4096 + k) as u64) by {
                if j < i {
                    assert(P4Table::walk(before, t.root as int, (v + j * 4096 + k) as u64) == Some((p + j * 4096 + k) as u64));
                } else {
                    assert((v + j * 4096 + k) as u64 == (vi + k as u64) as u64);
                    assert(P4Table::walk(t@, t.root as int, (vi + k as u64) as u64) == Some((pi + k as u64) as u64));
                }
            }
        }
        i = i + 1;
    }
    i
}

/// The address space of a new user task: its code at `USER_CODE_BASE` (present, user),
/// its kernel stack at the stack's higher-half alias (present, writable), its user stack
/// at `USER_STACK_BASE` (present, writable, user). `false` when a page could not be
/// mapped; the pages before it stay mapped.
pub fn map_user_task(
    t: &mut P4Table,
    code: u64,
    code_pages: u64,
    kernel_stack: u64,
    kernel_stack_pages: u64,
    user_stack: u64,
    user_stack_pages: u64,
) -> (r: bool)
    requires
        old(t).wf(),
        old(t)@.len() + 3 * 512 * (code_pages + kernel_stack_pages + user_stack_pages) <= MAX_ENTRIES,
        code % 4096 == 0,
        kernel_stack % 4096 == 0,
        user_stack % 4096 == 0,
        code_pages <= 0x400,
        user_stack_pages <= 0x400,
        code + code_pages * 4096 <= 0x10_0000_0000_0000,
        kernel_stack + kernel_stack_pages * 4096 < 0x0000_8000_0000_0000,
        user_stack + user_stack_pages * 4096 <= 0x10_0000_0000_0000,
    ensures
        final(t).wf(),
        final(t).root == old(t).root,
        r ==> maps_range(final(t)@, final(t).root as int, USER_CODE_BASE, code, code_pages as int),
        r ==> maps_range(final(t)@, final(t).root as int, (kernel_stack + HIGHER_HALF) as u64, kernel_stack,
            kernel_stack_pages as int),
        r ==> maps_range(final(t)@, final(t).root as int, USER_STACK_BASE, user_stack, user_stack_pages as int),
{
    assert(USER_CODE_BASE + code_pages * 4096 <= 0x0000_8000_0000_0000) by (nonlinear_arith)
        requires code_pages <= 0x400;
    assert(USER_STACK_BASE + user_stack_pages * 4096 <= 0x0000_8000_0000_0000) by (nonlinear_arith)
        requires user_stack_pages <= 0x400;
    assert(3 * 512 * (code_pages + kernel_stack_pages + user_stack_pages) == 3 * 512 * code_pages + 3 * 512
        * kernel_stack_pages + 3 * 512 * user_stack_pages) by (nonlinear_arith);
    assert((4u64 | 1u64) & 0x000f_ffff_ffff_f000u64 == 0 && (4u64 | 1u64) & 128u64 == 0) by (bit_vector);
    assert((1u64 | 2u64) & 0x000f_ffff_ffff_f000u64 == 0 && (1u64 | 2u64) & 128u64 == 0) by (bit_vector);
    assert((4u64 | 1u64 | 2u64) & 0x000f_ffff_ffff_f000u64 == 0 && (4u64 | 1u64 | 2u64) & 128u64 == 0) by (bit_vector);
    assert(kernel_stack_pages * 4096 >= 0 && code_pages * 4096 >= 0 && user_stack_pages * 4096 >= 0) by (nonlinear_arith);
    let a = map_range(t, USER_CODE_BASE, code, code_pages, USER_ACCESSIBLE | PRESENT);
    if a < code_pages {
        return false;
    }
    let ghost m1 = t@;
    let b = map_range(t, kernel_stack + HIGHER_HALF, kernel_stack, kernel_stack_pages, PRESENT | WRITABLE);
    if b < kernel_stack_pages {
        return false;
    }
    let ghost m2 = t@;
    let c = map_range(t, USER_STACK_BASE, user_stack, user_stack_pages, USER_ACCESSIBLE | PRESENT | WRITABLE);
    if c < user_stack_pages {
        return false;
    }
    proof {
        assert forall|j: int, k: int| 0 <= j < code_pages && 0 <= k < 4096 implies #[trigger] P4Table::walk(t@, t.root as int, (USER_CODE_BASE + j * 4096 + k) as u64)
            == Some((code + j * 4096 + k) as u64) by {
            assert(P4Table::walk(m1, t.root as int, (USER_CODE_BASE + j * 4096 + k) as u64) == Some((code + j * 4096 + k) as u64));
            assert(P4Table::walk(m2, t.root as int, (USER_CODE_BASE + j * 4096 + k) as u64) == Some((code + j * 4096 + k) as u64));
        }
        assert forall|j: int, k: int| 0 <= j < kernel_stack_pages && 0 <= k < 4096 implies #[trigger] P4Table::walk(t@, t.root as int, ((kernel_stack + HIGHER_HALF) as u64 + j * 4096 + k) as u64)
            == Some((kernel_stack + j * 4096 + k) as u64) by {
            assert(P4Table::walk(m2, t.root as int, ((kernel_stack + HIGHER_HALF) as u64 + j * 4096 + k) as u64) == Some((kernel_stack + j * 4096 + k) as u64));
        }
    }
    true
}

} // verus!
