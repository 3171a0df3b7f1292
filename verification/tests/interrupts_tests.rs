use ross_os::interrupts::{
    current_el, enable_register, handle_irq, init, GICC_BASE, GICC_CTLR, GICC_PMR, GICD_BASE,
    GICD_CTLR, GICD_ISENABLER, TIMER_IRQ,
};

#[test]
fn exception_level_from_current_el() {
    assert_eq!(current_el(0x4), 1);
    assert_eq!(current_el(0x8), 2);
    assert_eq!(current_el(0xC), 3);
    assert_eq!(current_el(0x0), 0);
    assert_eq!(current_el(0xFFFF_FFF7), 1);
}

#[test]
fn set_enable_register_and_bit() {
    assert_eq!(enable_register(TIMER_IRQ), (0, 1 << 30));
    assert_eq!(enable_register(33), (4, 2));
    assert_eq!(enable_register(64), (8, 1));
}

#[test]
fn setup_writes_and_slice() {
    let s = init(62_500_000);
    assert_eq!(s.countdown, 625_000);
    assert_eq!(
        s.gic_writes,
        vec![
            (GICD_BASE + GICD_CTLR, 1),
            (GICD_BASE + GICD_ISENABLER, 0x4000_0000),
            (GICC_BASE + GICC_PMR, 0xFF),
            (GICC_BASE + GICC_CTLR, 1),
        ]
    );
    assert_eq!(init(99).countdown, 0);
}

#[test]
fn timer_interrupt_ticks_and_reschedules() {
    let mut ticks: u64 = 0;
    let a = handle_irq(&mut ticks, 30);
    assert_eq!(a.intid, 30);
    assert!(a.rearm_timer);
    assert!(a.reschedule);
    assert_eq!(a.eoi, 30);
    assert_eq!(ticks, 1);
}

#[test]
fn other_interrupts_do_not_tick() {
    let mut ticks: u64 = 7;
    let a = handle_irq(&mut ticks, 33);
    assert_eq!(a.intid, 33);
    assert!(!a.rearm_timer);
    assert!(!a.reschedule);
    assert_eq!(a.eoi, 33);
    assert_eq!(ticks, 7);
    let spurious = handle_irq(&mut ticks, 1023);
    assert_eq!(spurious.intid, 1023);
    assert!(!spurious.reschedule);
    assert_eq!(ticks, 7);
}

#[test]
fn interrupt_id_is_the_low_ten_bits() {
    let mut ticks: u64 = 0;
    let a = handle_irq(&mut ticks, 0x1C00 | 30);
    assert_eq!(a.intid, 30);
    assert_eq!(a.eoi, 0x1C1E);
    assert!(a.reschedule);
    assert_eq!(ticks, 1);
}

#[test]
fn tick_counter_wraps() {
    let mut ticks: u64 = u64::MAX;
    handle_irq(&mut ticks, 30);
    assert_eq!(ticks, 0);
}
