use ross_os::sync::{irq_restore, irq_save, without_preempt, DAIF_I};

#[test]
fn save_masks_and_restore_puts_back() {
    let mut daif: u64 = 0x3c0 & !DAIF_I;
    let saved = irq_save(&mut daif);
    assert_eq!(saved, 0x340);
    assert_eq!(daif, 0x3c0);
    irq_restore(&mut daif, saved);
    assert_eq!(daif, 0x340);
}

#[test]
fn nested_sections_unmask_only_at_the_outermost_end() {
    let mut daif: u64 = 0;
    let outer = irq_save(&mut daif);
    let inner = irq_save(&mut daif);
    assert_eq!(daif & DAIF_I, DAIF_I);
    irq_restore(&mut daif, inner);
    assert_eq!(daif & DAIF_I, DAIF_I);
    irq_restore(&mut daif, outer);
    assert_eq!(daif, 0);
}

#[test]
fn already_masked_stays_masked() {
    let mut daif: u64 = DAIF_I;
    let saved = irq_save(&mut daif);
    irq_restore(&mut daif, saved);
    assert_eq!(daif, DAIF_I);
}

#[test]
fn without_preempt_runs_masked_and_restores() {
    let mut daif: u64 = 0x200;
    let seen = without_preempt(&mut daif, |d| d);
    assert_eq!(seen, 0x280);
    assert_eq!(daif, 0x200);
    let r = without_preempt(&mut daif, |_d| 41 + 1);
    assert_eq!(r, 42);
}
