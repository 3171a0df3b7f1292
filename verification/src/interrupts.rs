//! Interrupt setup and dispatch: GICv2 and the ARM generic timer.
//!
//! Getting a periodic interrupt takes four steps: install the vector table,
//! enable the GIC distributor, the timer interrupt and the CPU interface,
//! program the timer, and unmask IRQs. Each timer interrupt then counts a
//! tick, re-arms the timer for the next 10 ms slice, signals end of interrupt
//! and lets the scheduler switch tasks. This module computes the register
//! values and decisions; the caller performs the register accesses.

use vstd::prelude::*;

verus! {

/// GICv2 distributor base on the QEMU `virt` machine.
pub const GICD_BASE: usize = 0x0800_0000;

/// GICv2 CPU interface base on the QEMU `virt` machine.
pub const GICC_BASE: usize = 0x0801_0000;

/// Distributor control register offset.
pub const GICD_CTLR: usize = 0x000;

/// Distributor set-enable registers offset (one bit per interrupt).
pub const GICD_ISENABLER: usize = 0x100;

/// CPU interface control register offset.
pub const GICC_CTLR: usize = 0x000;

/// CPU interface priority mask register offset.
pub const GICC_PMR: usize = 0x004;

/// CPU interface interrupt acknowledge register offset.
pub const GICC_IAR: usize = 0x00C;

/// CPU interface end-of-interrupt register offset.
pub const GICC_EOIR: usize = 0x010;

/// Non-secure EL1 physical timer: PPI, interrupt ID 30.
pub const TIMER_IRQ: u32 = 30;

/// Timer interrupts per second.
pub const TICK_HZ: u64 = 100;

/// The interrupt ID field of an IAR value.
pub const INTID_MASK: u32 = 0x3FF;

/// The exception level encoded in a `CurrentEL` register value (bits 3:2).
pub fn current_el(current_el_reg: u64) -> (r: u64)
    ensures
        r == (current_el_reg / 4) % 4,
{
    let r = (current_el_reg >> 2) & 0b11;
    assert(r == (current_el_reg / 4) % 4) by (bit_vector)
        requires
            r == (current_el_reg >> 2u64) & 3u64,
    ;
    r
}

/// Byte offset of the distributor set-enable register that holds interrupt
/// `intid`, and the bit within it.
pub fn enable_register(intid: u32) -> (r: (usize, u32))
    ensures
        r.0 == (intid / 32) * 4,
        r.1 == 1u32 << (intid % 32),
{
    let reg: usize = (intid / 32) as usize * 4;
    let bit: u32 = 1u32 << (intid % 32);
    (reg, bit)
}

/// The GIC register writes `(address, value)` that bring interrupts up, in
/// order: enable the distributor, enable the timer interrupt, open the
/// priority mask, enable the CPU interface.
pub open spec fn gic_init_writes_spec() -> Seq<(usize, u32)> {
    seq![
        ((GICD_BASE + GICD_CTLR) as usize, 1u32),
        ((GICD_BASE + GICD_ISENABLER) as usize, 0x4000_0000u32),
        ((GICC_BASE + GICC_PMR) as usize, 0xFFu32),
        ((GICC_BASE + GICC_CTLR) as usize, 1u32),
    ]
}

/// The GIC register writes of interrupt setup.
pub fn gic_init_writes() -> (r: Vec<(usize, u32)>)
    ensures
        r@ == gic_init_writes_spec(),
{
    let (reg, bit) = enable_register(TIMER_IRQ);
    assert(1u32 << 30u32 == 0x4000_0000u32) by (bit_vector);
    let mut r: Vec<(usize, u32)> = Vec::new();
    r.push((GICD_BASE + GICD_CTLR, 1));
    r.push((GICD_BASE + GICD_ISENABLER + reg, bit));
    r.push((GICC_BASE + GICC_PMR, 0xFF));
    r.push((GICC_BASE + GICC_CTLR, 1));
    assert(r@ =~= gic_init_writes_spec());
    r
}

/// Timer counts per scheduling slice, for a counter running at `cntfrq` Hz.
pub fn timer_slice(cntfrq: u64) -> (r: u64)
    ensures
        r == cntfrq / TICK_HZ,
{
    cntfrq / TICK_HZ
}

/// Everything interrupt setup programs: the GIC register writes, in order,
/// and the first timer countdown.
pub struct InterruptSetup {
    /// `(address, value)` GIC register writes.
    pub gic_writes: Vec<(usize, u32)>,
    /// The timer countdown (CNTP_TVAL_EL0) for one scheduling slice.
    pub countdown: u64,
}

/// The interrupt configuration for a counter running at `cntfrq` Hz: the
/// GIC writes that enable the timer interrupt and a 10 ms timer slice. The
/// caller installs the vector table first and unmasks IRQs last.
pub fn init(cntfrq: u64) -> (r: InterruptSetup)
    ensures
        r.gic_writes@ == gic_init_writes_spec(),
        r.countdown == cntfrq / TICK_HZ,
{
    InterruptSetup { gic_writes: gic_init_writes(), countdown: timer_slice(cntfrq) }
}

/// What the IRQ handler does for one acknowledged interrupt.
pub struct IrqAction {
    /// The interrupt ID that was acknowledged.
    pub intid: u32,
    /// Re-arm the timer for the next slice.
    pub rearm_timer: bool,
    /// The value to write to the end-of-interrupt register.
    pub eoi: u32,
    /// Switch tasks once the interrupt has ended.
    pub reschedule: bool,
}

/// Handles the interrupt whose IAR value is `iar`: a timer interrupt counts a
/// tick, re-arms the timer and asks for a task switch; any interrupt is ended
/// by writing its IAR value back.
pub fn handle_irq(ticks: &mut u64, iar: u32) -> (r: IrqAction)
    ensures
        r.intid == iar % 0x400,
        r.eoi == iar,
        r.rearm_timer == (r.intid == TIMER_IRQ),
        r.reschedule == (r.intid == TIMER_IRQ),
        r.intid == TIMER_IRQ ==> *final(ticks) == (*old(ticks) + 1) % 0x1_0000_0000_0000_0000,
        r.intid != TIMER_IRQ ==> *final(ticks) == *old(ticks),
{
    let intid = iar & INTID_MASK;
    assert(intid == iar % 0x400) by (bit_vector)
        requires
            intid == iar & 0x3FFu32,
    ;
    let is_timer = intid == TIMER_IRQ;
    if is_timer {
        *ticks = ticks.wrapping_add(1);
    }
    IrqAction { intid, rearm_timer: is_timer, eoi: iar, reschedule: is_timer }
}

} // verus!
