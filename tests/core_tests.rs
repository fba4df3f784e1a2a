use kernel_core::bitmap::{BitMap, BitMapAllocator};
use kernel_core::entry::{Entry, EntryFlags, HUGE_PAGE, NO_CACHE, NO_EXECUTE, PRESENT, USER_ACCESSIBLE, WRITABLE, WRITE_THROUGH};
use kernel_core::idt::{InterruptDescriptor, InterruptDescriptorTable, Options};
use kernel_core::mem::{align_down, align_up, Frame, PhysicalAddress, VirtualAddress};
use kernel_core::multiboot::{count_ram_frames, highest_ram_addr, MemMapEntry, MemMapEntryType, MultibootInfo};
use kernel_core::bitmap::bitmap_for_map;
use kernel_core::direct::{find_best_fit, map_direct, map_region, MapSize};
use kernel_core::gdt::{get_kernel_code_segment_selector, get_user_code_segment_selector, get_user_data_segment_selector, tss_descriptor};
use kernel_core::ioapic::{ioredtbl_halves, redirection_entries, IntSourceOverride};
use kernel_core::task::{map_user_task, seed_stack};
use kernel_core::sched::{next_ready, next_timer_ns, Delays, PidCounter, Scheduler, SchedulerLock, TaskState};
use kernel_core::table::P4Table;
use kernel_core::timers::{Hpet, Lapic};

#[test]
fn align_values() {
    assert_eq!(align_up(4097, 4096), 8192);
    assert_eq!(align_up(4096, 4096), 4096);
    assert_eq!(align_down(8191, 4096), 4096);
    assert_eq!(align_down(0, 4096), 0);
}

#[test]
fn address_indices() {
    let v = VirtualAddress::new(0xFFFF_8800_0020_1123);
    assert_eq!(v.p4_index(), 0x110);
    assert_eq!(v.p3_index(), 0);
    assert_eq!(v.p2_index(), 1);
    assert_eq!(v.p1_index(), 1);
    assert_eq!(v.page_offset(), 0x123);
    assert_eq!(PhysicalAddress::new(0x1000).to_virt(), Some(VirtualAddress::new(0xFFFF_8000_0000_1000)));
    assert_eq!(PhysicalAddress::new(0x8000_0000_0000).to_virt(), None);
    assert_eq!(Frame::containing_address(PhysicalAddress::new(0x1fff)).number, 1);
    assert_eq!(Frame::range_inclusive(&Frame { number: 3 }, &Frame { number: 5 }).len(), 3);
}

#[test]
fn allocator_round_trip() {
    let mut b = BitMap::new(16);
    b.reserve_range(0, 0x2000);
    let before: Vec<bool> = b.bits.clone();
    let used = b.used_ram_frames;
    let a = b.alloc_frames(1).unwrap();
    let c = b.alloc_frames(1).unwrap();
    assert_ne!(a, c);
    b.free(c, 1);
    b.free(a, 1);
    assert_eq!(b.bits, before);
    assert_eq!(b.used_ram_frames, used);
}

#[test]
fn allocator_skips_reserved() {
    let mut b = BitMap::new(8);
    b.reserve_range(0, 0x3000);
    b.reserve_range(0x5000, 0x6000);
    let mut got = Vec::new();
    while let Some(a) = b.alloc_frames(1) {
        got.push(a.0 / 4096);
    }
    assert_eq!(got, vec![3, 4, 6, 7]);
}

#[test]
fn allocator_contiguous_run() {
    let mut b = BitMap::new(8);
    b.reserve_range(0x1000, 0x2000);
    assert_eq!(b.alloc_frames(3), Some(PhysicalAddress::new(0x2000)));
    assert_eq!(b.alloc_frames(4), None);
}

#[test]
fn entry_bits() {
    let mut e = Entry::zero();
    assert!(e.is_zero());
    e.set(Frame { number: 5 }, EntryFlags(PRESENT | WRITABLE));
    assert_eq!(e.phys_addr(), PhysicalAddress::new(0x5000));
    assert_eq!(e.pointed_frame(), Some(Frame { number: 5 }));
    e.unset_flags(EntryFlags(PRESENT));
    assert_eq!(e.pointed_frame(), None);
    assert_eq!(EntryFlags::from_elf_section_flags(3).0, PRESENT | WRITABLE | NO_EXECUTE);
    assert_eq!(EntryFlags::from_elf_section_flags(6).0, PRESENT);
}

#[test]
fn round_robin_choice() {
    assert_eq!(next_ready(&vec![TaskState::Running, TaskState::Ready, TaskState::Ready], 0), 1);
    assert_eq!(next_ready(&vec![TaskState::Ready, TaskState::Waiting, TaskState::Running], 2), 0);
    assert_eq!(next_ready(&vec![TaskState::Waiting, TaskState::Running, TaskState::Waiting], 1), 1);
}

#[test]
fn timer_programming_bounds() {
    assert_eq!(next_timer_ns(None), 100_000_000);
    assert_eq!(next_timer_ns(Some(500)), 1000);
    assert_eq!(next_timer_ns(Some(5_000_000)), 5_000_000);
    assert_eq!(next_timer_ns(Some(200_000_000)), 100_000_000);
}

#[test]
fn scheduler_lock_counts() {
    let mut l = SchedulerLock::new();
    l.lock();
    l.lock();
    l.unlock();
    assert!(!l.interrupts);
    l.unlock();
    assert!(l.interrupts);
    let mut p = PidCounter::new();
    assert_eq!(p.get_new_pid(), 0);
    assert_eq!(p.get_new_pid(), 1);
}

#[test]
fn hpet_arithmetic() {
    let mut h = Hpet::new(10_000_000, 3);
    assert_eq!(h.frequency(), 100_000_000);
    assert_eq!(h.ns_to_counter(1_000_000_000), 100_000_000);
    h.write_main_counter(1000);
    assert_eq!(h.time_since_boot_in_ns(), 10_000);
    assert_eq!(Hpet::timer_conf_reg_offset(2), 0x140);
    assert_eq!(Hpet::timer_comparator_val_reg_offset(1), 0x128);
    h.enable_timer_oneshot(0, 1000, 2);
    assert_eq!(h.timer_conf[0], (2 << 9) | 4);
    assert_eq!(h.timer_comparator[0], 1100);
    h.enable_legacy_routing();
    assert_eq!(h.general_config, 3);
}

#[test]
fn lapic_counts() {
    let mut l = Lapic {
        timer_lvt: 0,
        divider: 0,
        init_count: 0,
        current_count: 0,
        eoi_count: 0,
        timer_freq: 0,
        timer_divider: 1,
    };
    l.calibrate(1_000_000);
    assert_eq!(l.timer_freq, 128_000_000);
    assert!(l.set_timer_initial_count_in_ns(1_000_000));
    assert_eq!(l.init_count, 2000);
    assert_eq!(l.set_timer_divider(64), Some(5));
    assert_eq!(l.set_timer_divider(3), None);
    l.send_eoi();
    assert_eq!(l.eoi_count, 1);
}

#[test]
fn idt_gates() {
    let mut idt = InterruptDescriptorTable::new(8);
    idt.add_handler(0x2e, 0x1234_5678_9abc, 8, 3);
    let d: InterruptDescriptor = idt.entries[0x2e];
    assert_eq!(d.offset_1, 0x9abc);
    assert_eq!(d.offset_2, 0x5678);
    assert_eq!(d.offset_3, 0x1234);
    assert_eq!(d.options, 0xee00);
    assert_eq!(Options::minimal().bits(), 0x0e00);
}

#[test]
fn multiboot_info_bounds() {
    let m = MultibootInfo::new(0x10000, 0x200);
    assert_eq!(m.start(), PhysicalAddress::new(0x10000));
    assert_eq!(m.size(), 0x200);
    assert_eq!(m.end(), PhysicalAddress::new(0x101ff));
}


fn s1_map() -> Vec<MemMapEntry> {
    vec![
        MemMapEntry { base_addr: 0, length: 640 * 1024, entry_type: 1 },
        MemMapEntry { base_addr: 0x10_0000, length: 127 * 1024 * 1024, entry_type: 1 },
        MemMapEntry { base_addr: 0xFEE0_0000, length: 4096, entry_type: 2 },
    ]
}

#[test]
fn memory_map_frames() {
    let map = s1_map();
    assert_eq!(highest_ram_addr(&map), 128 * 1024 * 1024);
    assert_eq!(count_ram_frames(&map), 32_768);
    assert_eq!(map[2].entry_type(), MemMapEntryType::Other(2));
    assert_eq!(map[0].end(), PhysicalAddress::new(640 * 1024 - 1));
}

#[test]
fn bring_up_bitmap() {
    let map = s1_map();
    let kernel_end: u64 = 0x20_0fff;
    let (b, start) = bitmap_for_map(&map, kernel_end).unwrap();
    assert_eq!(b.ram_frames, 32_768);
    assert_eq!(b.bits.len(), 32_768);
    assert_eq!(start, 0x20_1000);
    // kernel frames 0..=0x200 and the 4 KiB of bitmap storage are used
    assert!(b.bits[0] && b.bits[0x200] && b.bits[0x201]);
    assert!(!b.bits[0x202]);
    assert!(!b.bits[32_767]);
    let mut a = BitMapAllocator::new();
    assert!(a.init(&map, kernel_end));
    assert!(!a.init(&map, kernel_end));
    assert_eq!(a.allocate_frame().unwrap().number, 0x202);
}

#[test]
fn bitmap_needs_room_above_kernel() {
    let map = vec![MemMapEntry { base_addr: 0, length: 0x10_0000, entry_type: 1 }];
    assert!(bitmap_for_map(&map, 0xf_ffff).is_none());
}

#[test]
fn non_ram_frames_reserved() {
    let map = vec![
        MemMapEntry { base_addr: 0, length: 0x40_0000, entry_type: 1 },
        MemMapEntry { base_addr: 0x30_0000, length: 0x2000, entry_type: 3 },
    ];
    let (b, _) = bitmap_for_map(&map, 0xfff).unwrap();
    assert!(b.bits[0x300] && b.bits[0x301]);
    assert!(!b.bits[0x302] && !b.bits[0x2ff]);
}

#[test]
fn map_then_translate_then_unmap() {
    let mut t = P4Table::new();
    let v: u64 = 0xFFFF_8800_0000_0000;
    assert!(t.map_4KiB(v, 0x1000, PRESENT | WRITABLE));
    assert_eq!(t.translate(v + 0x123), Some(0x1123));
    assert_eq!(t.translate(v + 0xfff), Some(0x1fff));
    assert_eq!(t.translate(v + 0x1000), None);
    assert!(!t.map_4KiB(v, 0x5000, WRITABLE));
    assert!(t.unmap(v));
    assert_eq!(t.translate(v), None);
    assert!(!t.unmap(v));
}

#[test]
fn map_two_pages_shares_tables() {
    let mut t = P4Table::new();
    assert!(t.map_4KiB(0x40_0000, 0x7000, PRESENT | USER_ACCESSIBLE));
    let after_first = t.entries.len();
    assert!(t.map_4KiB(0x40_1000, 0x9000, PRESENT | USER_ACCESSIBLE | WRITABLE));
    assert_eq!(t.entries.len(), after_first);
    assert_eq!(t.translate(0x40_0010), Some(0x7010));
    assert_eq!(t.translate(0x40_1010), Some(0x9010));
}

#[test]
fn huge_page_2m() {
    let mut t = P4Table::new();
    let v: u64 = 0xFFFF_8800_0020_0000;
    assert!(t.map_huge_2MiB(v, 0x20_0000, PRESENT | HUGE_PAGE | WRITABLE));
    assert_eq!(t.translate(v + 0x1F_FFFF), Some(0x20_0000 + 0x1F_FFFF));
    assert_eq!(t.translate(v + 0x20_0000), None);
    assert!(!t.map_4KiB(v + 0x1000, 0x1000, WRITABLE));
    assert!(t.unmap(v + 0x1234));
    assert_eq!(t.translate(v), None);
}

#[test]
fn huge_page_1g() {
    let mut t = P4Table::new();
    let v: u64 = 0xFFFF_8800_4000_0000;
    assert!(t.map_huge_1GiB(v, 0x4000_0000, PRESENT | HUGE_PAGE));
    assert_eq!(t.translate(v + 0x3FFF_FFFF), Some(0x7FFF_FFFF));
    assert_eq!(t.translate(v + 0x4000_0000), None);
}

#[test]
fn direct_map_of_regions() {
    assert_eq!(find_best_fit(0x4000_0000, 0x4000_0000), MapSize::Size1GiB);
    assert_eq!(find_best_fit(0x20_0000, 0x40_0000), MapSize::Size2MiB);
    assert_eq!(find_best_fit(0x1000, 0x40_0000), MapSize::Size4KiB);
    let mut t = P4Table::new();
    let map = vec![
        MemMapEntry { base_addr: 0, length: 0x9_f000, entry_type: 1 },
        MemMapEntry { base_addr: 0x10_0000, length: 0x50_0000, entry_type: 1 },
        MemMapEntry { base_addr: 0xFEE0_0000, length: 0x1000, entry_type: 2 },
    ];
    assert!(map_direct(&mut t, &map));
    let hh: u64 = 0xFFFF_8000_0000_0000;
    assert_eq!(t.translate(hh + 0x1234), Some(0x1234));
    assert_eq!(t.translate(hh + 0x45_6789), Some(0x45_6789));
    assert_eq!(t.translate(hh + 0xFEE0_00b0), Some(0xFEE0_00b0));
    assert_eq!(t.translate(hh + 0x70_0000), None);
    let mut u = P4Table::new();
    assert!(map_region(&mut u, 0x1800, 0x1000, PRESENT | WRITABLE | WRITE_THROUGH | NO_CACHE));
    assert_eq!(u.translate(hh + 0x2fff), Some(0x2fff));
}

#[test]
fn user_task_layout() {
    let mut t = P4Table::new();
    assert!(map_user_task(&mut t, 0x10_0000, 2, 0x20_0000, 1, 0x30_0000, 1));
    assert_eq!(t.translate(0x40_0000), Some(0x10_0000));
    assert_eq!(t.translate(0x40_1abc), Some(0x10_1abc));
    assert_eq!(t.translate(0xFFFF_8000_0020_0008), Some(0x20_0008));
    assert_eq!(t.translate(0x80_0ff0), Some(0x30_0ff0));
    assert_eq!(t.translate(0x40_2000), None);
}

#[test]
fn stack_seeding() {
    assert_eq!(seed_stack(0x1111, 0x2222, None), vec![0, 0, 0, 0, 0, 0, 0x2222, 0x1111]);
    assert_eq!(
        seed_stack(0x40_0000, 0x3333, Some(0x80_1005)),
        vec![0, 0, 0, 0, 0, 0, 0x3333, 0x40_0000, 51, 0x200, 0x80_0ff0, 43]
    );
}

#[test]
fn descriptors() {
    assert_eq!(get_kernel_code_segment_selector(), 8);
    assert_eq!(get_user_data_segment_selector(), 43);
    assert_eq!(get_user_code_segment_selector(), 51);
    let (lo, hi) = tss_descriptor(0x1234_5678_9abc_def0, 0x68);
    assert_eq!(hi, 0x1234_5678);
    assert_eq!(lo, 0x68 | (0xbc_def0 << 16) | (0x89 << 40) | (2 << 52) | (0x9a << 56));
}

#[test]
fn ioapic_redirections() {
    let overrides = vec![
        IntSourceOverride { irq_source: 0, gsi: 2, flags: 0 },
        IntSourceOverride { irq_source: 9, gsi: 9, flags: 0xd },
        IntSourceOverride { irq_source: 1, gsi: 1, flags: 0x2 },
        IntSourceOverride { irq_source: 5, gsi: 40, flags: 0 },
    ];
    let w = redirection_entries(0, 24, &overrides);
    assert_eq!(w, vec![(1, 0x21), (2, 0x20), (9, 0x29 | (1 << 15)), (1, 0x21 | (1 << 13))]);
    assert_eq!(ioredtbl_halves(0x0100_0000_0000_0029), (0x29, 0x0100_0000));
}

#[test]
fn sleep_wakes_in_order() {
    let mut d = Delays::new();
    d.add(1, 30_000_000, 0);
    d.add(2, 10_000_000, 0);
    d.add(3, 20_000_000, 0);
    assert_eq!(d.get_smallest_delay(0), Some(10_000_000));
    assert!(d.get_expired_timers(9_999_999).is_empty());
    assert_eq!(d.get_expired_timers(10_000_000), vec![2]);
    assert_eq!(d.get_expired_timers(20_000_000), vec![3]);
    assert_eq!(d.get_smallest_delay(25_000_000), Some(5_000_000));
    assert_eq!(d.get_expired_timers(30_000_000), vec![1]);
    assert_eq!(d.get_smallest_delay(0), None);
}

#[test]
fn late_check_wakes_in_expiry_order() {
    let mut d = Delays::new();
    d.add(1, 30, 0);
    d.add(2, 10, 0);
    d.add(3, 20, 0);
    assert_eq!(d.get_expired_timers(100), vec![2, 3, 1]);
}

fn lapic() -> Lapic {
    Lapic { timer_lvt: 0, divider: 0, init_count: 0, current_count: 0, eoi_count: 0, timer_freq: 128_000_000, timer_divider: 64 }
}

#[test]
fn timer_tick_wakes_and_switches() {
    let mut l = lapic();
    let mut s = Scheduler::new(0);
    assert!(s.add_task(1));
    assert!(s.add_task(2));
    assert!(!s.add_task(2));
    // task 0 runs; 1 and 2 go to sleep in turn
    assert_eq!(s.yield_now(), 1);
    assert_eq!(s.delay(10_000_000, 0), 2);
    assert_eq!(s.delay(30_000_000, 0), 0);
    assert_eq!(s.states, vec![TaskState::Running, TaskState::Waiting, TaskState::Waiting]);
    let next = s.timer_tick(&mut l, 10_000_000);
    assert_eq!(next, 1);
    assert_eq!(l.eoi_count, 1);
    assert_eq!(s.states, vec![TaskState::Ready, TaskState::Running, TaskState::Waiting]);
    assert_eq!(l.init_count, 40_000);
}

#[test]
fn two_tasks_alternate() {
    let mut s = Scheduler::new(1);
    assert!(s.add_task(2));
    let mut counts = [0u64; 2];
    for _ in 0..11 {
        counts[s.current] += 1;
        s.yield_now();
    }
    assert_eq!(counts[0] + counts[1], 11);
    assert!(counts[0].abs_diff(counts[1]) <= 1);
}

#[test]
fn block_and_unblock() {
    let mut s = Scheduler::new(7);
    assert!(s.add_task(8));
    assert_eq!(s.block(), 1);
    assert_eq!(s.states, vec![TaskState::Waiting, TaskState::Running]);
    assert_eq!(s.unblock(9), None);
    assert_eq!(s.unblock(7), Some(0));
    assert_eq!(s.states, vec![TaskState::Running, TaskState::Ready]);
}

#[test]
fn idle_when_nothing_ready() {
    let mut s = Scheduler::new(1);
    assert_eq!(s.delay(5, 0), 0);
    assert_eq!(s.states, vec![TaskState::Waiting]);
    let mut l = lapic();
    assert_eq!(s.timer_tick(&mut l, 5), 0);
    assert_eq!(s.states, vec![TaskState::Running]);
}

#[test]
fn table_frames_lists_tables_only() {
    let mut t = P4Table::new();
    assert_eq!(t.table_frames(), vec![0]);
    assert!(t.map_4KiB(0x40_0000, 0x7000, PRESENT | USER_ACCESSIBLE));
    assert_eq!(t.table_frames(), vec![0, 0x1000, 0x2000, 0x3000]);
    assert!(t.map_huge_2MiB(0x60_0000, 0x20_0000, PRESENT | HUGE_PAGE));
    assert_eq!(t.table_frames(), vec![0, 0x1000, 0x2000, 0x3000]);
}
