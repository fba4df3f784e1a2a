use vstd::prelude::*;

verus! {

/// Femtoseconds in one second.
pub const FS_PER_SECOND: u64 = 1_000_000_000_000_000;

/// Nanoseconds in one second.
pub const NS_PER_SECOND: u64 = 1_000_000_000;

/// Offset of the HPET main counter register.
pub const HPET_MAIN_COUNTER: u64 = 0xf0;

/// The HPET's registers that the kernel reads and writes.
pub struct Hpet {
    /// Counter period in femtoseconds, from the capability register.
    pub period: u64,
    pub main_counter: u64,
    pub general_config: u64,
    /// Configuration and comparator registers of each comparator.
    pub timer_conf: Vec<u64>,
    pub timer_comparator: Vec<u64>,
}

pub open spec fn hpet_frequency(period: u64) -> int {
    FS_PER_SECOND as int / period as int
}

impl Hpet {
    pub open spec fn wf(&self) -> bool {
        self.period > 0 && self.timer_conf@.len() == self.timer_comparator@.len()
    }

    /// A descriptor with counter period `period` and `n` comparators, everything cleared.
    pub fn new(period: u64, n: usize) -> (r: Self)
        requires
            period > 0,
        ensures
            r.wf(),
            r.period == period,
            r.main_counter == 0,
            r.general_config == 0,
            r.timer_conf@ == Seq::new(n as nat, |i: int| 0u64),
            r.timer_comparator@ == Seq::new(n as nat, |i: int| 0u64),
    {
        let mut timer_conf: Vec<u64> = Vec::new();
        let mut timer_comparator: Vec<u64> = Vec::new();
        let mut i: usize = 0;
        while i < n
            invariant
                i <= n,
                timer_conf@ == Seq::new(i as nat, |k: int| 0u64),
                timer_comparator@ == Seq::new(i as nat, |k: int| 0u64),
            decreases n - i,
        {
            timer_conf.push(0);
            timer_comparator.push(0);
            i = i + 1;
            assert(timer_conf@ =~= Seq::new(i as nat, |k: int| 0u64));
            assert(timer_comparator@ =~= Seq::new(i as nat, |k: int| 0u64));
        }
        Hpet { period, main_counter: 0, general_config: 0, timer_conf, timer_comparator }
    }

    /// Counter ticks per second.
    pub fn frequency(&self) -> (r: u64)
        requires
            self.period > 0,
        ensures
            r == hpet_frequency(self.period),
    {
        FS_PER_SECOND / self.period
    }

    /// The number of counter ticks in `ns` nanoseconds.
    pub fn ns_to_counter(&self, ns: u64) -> (r: u64)
        requires
            self.period > 0,
            ns * hpet_frequency(self.period) <= u64::MAX,
        ensures
            r == ns * hpet_frequency(self.period) / NS_PER_SECOND as int,
    {
        let f = self.frequency();
        (ns * f) / NS_PER_SECOND
    }

    /// Nanoseconds since the main counter was cleared.
    pub fn time_since_boot_in_ns(&self) -> (r: u64)
        requires
            self.main_counter * self.period <= u64::MAX,
        ensures
            r == self.main_counter * self.period / 1_000_000,
    {
        self.main_counter * self.period / 1_000_000
    }

    pub fn read_main_counter(&self) -> (r: u64)
        ensures
            r == self.main_counter,
    {
        self.main_counter
    }

    pub fn write_main_counter(&mut self, val: u64)
        ensures
            final(self).main_counter == val,
            final(self).period == old(self).period,
            final(self).general_config == old(self).general_config,
            final(self).timer_conf == old(self).timer_conf,
            final(self).timer_comparator == old(self).timer_comparator,
    {
        self.main_counter = val;
    }

    /// Byte offset of comparator `n`'s configuration register.
    pub fn timer_conf_reg_offset(n: usize) -> (r: u64)
        requires
            n < 32,
        ensures
            r == 0x100 + 0x20 * n,
    {
        0x100 + 0x20 * n as u64
    }

    /// Byte offset of comparator `n`'s comparator-value register.
    pub fn timer_comparator_val_reg_offset(n: usize) -> (r: u64)
        requires
            n < 32,
        ensures
            r == 0x108 + 0x20 * n,
    {
        0x108 + 0x20 * n as u64
    }

    /// Turns on legacy routing (bits 0 and 1 of the general configuration).
    pub fn enable_legacy_routing(&mut self)
        ensures
            final(self).general_config == old(self).general_config | 3,
            final(self).period == old(self).period,
            final(self).main_counter == old(self).main_counter,
            final(self).timer_conf == old(self).timer_conf,
            final(self).timer_comparator == old(self).timer_comparator,
    {
        self.general_config = self.general_config | 3;
    }

    /// Arms comparator `n` to fire once, `ns` from now, on `vector`.
    pub fn enable_timer_oneshot(&mut self, n: usize, ns: u64, vector: u8)
        requires
            old(self).wf(),
            n < old(self).timer_conf@.len(),
            ns * hpet_frequency(old(self).period) <= u64::MAX,
            old(self).main_counter + ns * hpet_frequency(old(self).period) / NS_PER_SECOND as int <= u64::MAX,
        ensures
            final(self).wf(),
            final(self).timer_conf@ == old(self).timer_conf@.update(n as int, oneshot_config(vector)),
            final(self).timer_comparator@ == old(self).timer_comparator@.update(
                n as int,
                (old(self).main_counter + ns * hpet_frequency(old(self).period) / NS_PER_SECOND as int) as u64,
            ),
            final(self).period == old(self).period,
            final(self).main_counter == old(self).main_counter,
            final(self).general_config == old(self).general_config,
    {
        let counter = self.ns_to_counter(ns);
        let val = oneshot_conf_value(vector);
        self.timer_conf.set(n, val);
        let main = self.read_main_counter();
        self.timer_comparator.set(n, main + counter);
    }

    /// Arms comparator `n` to fire every `ns` nanoseconds on `vector`.
    pub fn enable_timer_periodic(&mut self, n: usize, ns: u64, vector: u8)
        requires
            old(self).wf(),
            n < old(self).timer_conf@.len(),
            ns * hpet_frequency(old(self).period) <= u64::MAX,
            old(self).main_counter + ns * hpet_frequency(old(self).period) / NS_PER_SECOND as int <= u64::MAX,
        ensures
            final(self).wf(),
            final(self).timer_conf@ == old(self).timer_conf@.update(n as int, periodic_config(vector)),
            final(self).timer_comparator@ == old(self).timer_comparator@.update(
                n as int,
                (old(self).main_counter + ns * hpet_frequency(old(self).period) / NS_PER_SECOND as int) as u64,
            ),
            final(self).period == old(self).period,
            final(self).main_counter == old(self).main_counter,
            final(self).general_config == old(self).general_config,
    {
        let counter = self.ns_to_counter(ns);
        let val = periodic_conf_value(vector);
        self.timer_conf.set(n, val);
        let main = self.read_main_counter();
        self.timer_comparator.set(n, main + counter);
    }
}

/// Comparator configuration for a one-shot interrupt: vector in bits 9..13, interrupt enable.
pub open spec fn oneshot_config(vector: u8) -> u64 {
    ((vector as u64 % 32) * 512 + 4) as u64
}

/// As `oneshot_config`, plus the periodic bit (3) and the direct period write bit (6).
pub open spec fn periodic_config(vector: u8) -> u64 {
    ((vector as u64 % 32) * 512 + 64 + 8 + 4) as u64
}

pub fn oneshot_conf_value(vector: u8) -> (r: u64)
    ensures
        r == oneshot_config(vector),
{
    (vector as u64 % 32) * 512 + 4
}

pub fn periodic_conf_value(vector: u8) -> (r: u64)
    ensures
        r == periodic_config(vector),
{
    (vector as u64 % 32) * 512 + 64 + 8 + 4
}

/// Offsets of the local APIC registers the kernel uses.
pub const LAPIC_EOI: u16 = 0xb0;
pub const LAPIC_TIMER_LVT: u16 = 0x320;
pub const LAPIC_INIT_COUNT: u16 = 0x380;
pub const LAPIC_CURRENT_COUNT: u16 = 0x390;
pub const LAPIC_DIVIDER: u16 = 0x3e0;

/// The timer's local vector table mask bit.
pub const TIMER_MASK_BIT: u32 = 0x1_0000;

/// Timer modes of the LAPIC timer, as written to bits 17..18 of its vector entry.
#[derive(Debug, Clone, Copy, PartialEq, Eq, Structural)]
pub enum ApicTimerMode {
    OneShot,
    Periodic,
    TscDeadline,
}

pub open spec fn mode_bits(m: ApicTimerMode) -> u32 {
    match m {
        ApicTimerMode::OneShot => 0,
        ApicTimerMode::Periodic => 1,
        ApicTimerMode::TscDeadline => 2,
    }
}

/// The local APIC's timer registers and its calibration.
pub struct Lapic {
    pub timer_lvt: u32,
    pub divider: u32,
    pub init_count: u32,
    pub current_count: u32,
    /// End-of-interrupt writes made so far.
    pub eoi_count: u64,
    /// Calibrated timer ticks per second, before division.
    pub timer_freq: u64,
    /// Divider in use.
    pub timer_divider: u64,
}

/// The divider register's code for a divider, or `None` if unsupported.
pub open spec fn divider_code(d: u8) -> Option<u32> {
    if d == 1 { Some(7u32) }
    else if d == 2 { Some(0u32) }
    else if d == 4 { Some(1u32) }
    else if d == 8 { Some(2u32) }
    else if d == 16 { Some(3u32) }
    else if d == 32 { Some(4u32) }
    else if d == 64 { Some(5u32) }
    else if d == 128 { Some(6u32) }
    else { None }
}

/// Initial-count register value for `ns` nanoseconds at `freq` ticks per second and `divider`.
pub open spec fn initial_count_for(freq: u64, divider: u64, ns: u32) -> int {
    (freq as int / divider as int) * ns as int / NS_PER_SECOND as int
}

impl Lapic {
    pub fn send_eoi(&mut self)
        requires
            old(self).eoi_count < u64::MAX,
        ensures
            final(self).eoi_count == old(self).eoi_count + 1,
            final(self).timer_freq == old(self).timer_freq,
            final(self).timer_divider == old(self).timer_divider,
            final(self).timer_lvt == old(self).timer_lvt,
            final(self).init_count == old(self).init_count,
    {
        self.eoi_count = self.eoi_count + 1;
    }

    pub fn mask_timer_interrupts(&mut self, mask: bool)
        ensures
            mask ==> final(self).timer_lvt == old(self).timer_lvt | TIMER_MASK_BIT,
            !mask ==> final(self).timer_lvt == old(self).timer_lvt & !TIMER_MASK_BIT,
            final(self).eoi_count == old(self).eoi_count,
    {
        if mask {
            self.timer_lvt = self.timer_lvt | TIMER_MASK_BIT;
        } else {
            self.timer_lvt = self.timer_lvt & !TIMER_MASK_BIT;
        }
    }

    pub fn set_timer_mode(&mut self, mode: ApicTimerMode)
        ensures
            final(self).timer_lvt == (old(self).timer_lvt & !0x6_0000u32) | (mode_bits(mode) << 17u32),
            final(self).eoi_count == old(self).eoi_count,
    {
        let bits: u32 = match mode {
            ApicTimerMode::OneShot => 0,
            ApicTimerMode::Periodic => 1,
            ApicTimerMode::TscDeadline => 2,
        };
        self.timer_lvt = (self.timer_lvt & !0x6_0000u32) | (bits << 17u32);
    }

    pub fn set_timer_interrupt_vector(&mut self, vector: u8)
        ensures
            final(self).timer_lvt == (old(self).timer_lvt & !0xffu32) | (vector as u32),
            final(self).eoi_count == old(self).eoi_count,
    {
        self.timer_lvt = (self.timer_lvt & !0xffu32) | (vector as u32);
    }

    /// Writes the divider register; `None` for a divider the hardware lacks.
    pub fn set_timer_divider(&mut self, divider: u8) -> (r: Option<u32>)
        ensures
            r == divider_code(divider),
            r matches Some(c) ==> final(self).divider == c,
            r is None ==> final(self).divider == old(self).divider,
            final(self).eoi_count == old(self).eoi_count,
    {
        let code: Option<u32> = match divider {
            1 => Some(7),
            2 => Some(0),
            4 => Some(1),
            8 => Some(2),
            16 => Some(3),
            32 => Some(4),
            64 => Some(5),
            128 => Some(6),
            _ => None,
        };
        if let Some(c) = code {
            self.divider = c;
        }
        code
    }

    pub fn set_timer_initial_count(&mut self, init_count: u32)
        ensures
            final(self).init_count == init_count,
            final(self).eoi_count == old(self).eoi_count,
            final(self).timer_freq == old(self).timer_freq,
            final(self).timer_divider == old(self).timer_divider,
    {
        self.init_count = init_count;
    }

    pub fn get_timer_current_count(&self) -> (r: u32)
        ensures
            r == self.current_count,
    {
        self.current_count
    }

    /// Records a calibration: `ticks` counted in one second at divider 128, then divider 64.
    pub fn calibrate(&mut self, ticks: u32)
        ensures
            final(self).timer_freq == ticks as int * 128,
            final(self).timer_divider == 64,
            final(self).eoi_count == old(self).eoi_count,
    {
        self.timer_freq = ticks as u64 * 128;
        self.timer_divider = 64;
    }

    /// Programs the initial count for `ns` nanoseconds; `false`, with nothing written,
    /// when the count does not fit in 32 bits.
    pub fn set_timer_initial_count_in_ns(&mut self, ns: u32) -> (r: bool)
        requires
            old(self).timer_divider > 0,
            old(self).timer_freq <= u32::MAX as int * 128,
        ensures
            r == (initial_count_for(old(self).timer_freq, old(self).timer_divider, ns) < u32::MAX),
            r ==> final(self).init_count == initial_count_for(old(self).timer_freq, old(self).timer_divider, ns),
            !r ==> final(self).init_count == old(self).init_count,
            final(self).eoi_count == old(self).eoi_count,
            final(self).timer_freq == old(self).timer_freq,
            final(self).timer_divider == old(self).timer_divider,
    {
        let per = self.timer_freq / self.timer_divider;
        assert(per <= u32::MAX as int * 128);
        assert(per * ns <= (u32::MAX as int * 128) * (u32::MAX as int)) by (nonlinear_arith)
            requires per <= u32::MAX as int * 128, ns <= u32::MAX;
        let count: u128 = (per as u128 * ns as u128) / 1_000_000_000u128;
        if count < u32::MAX as u128 {
            self.set_timer_initial_count(count as u32);
            true
        } else {
            false
        }
    }
}

/// Ticks counted by the LAPIC timer when it started at `u32::MAX` and now reads `current`.
pub fn ticks_elapsed(current: u32) -> (r: u32)
    ensures
        r == u32::MAX - current,
{
    u32::MAX - current
}

} // verus!
