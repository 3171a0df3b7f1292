//! Critical sections for a preemptive single-core kernel.
//!
//! Shared state (the heap's free list, the UART) is touched with IRQs masked,
//! so a timer interrupt can never switch tasks in the middle of an update.
//! The interrupt mask lives in the DAIF register; `irq_save` masks IRQs and
//! returns the previous DAIF so that sections nest, and `irq_restore` puts it
//! back exactly as it was. Here DAIF is a value the caller passes in; the code
//! that runs on the CPU reads and writes the register around these calls.

use vstd::prelude::*;

verus! {

/// The DAIF.I bit: IRQs are masked while it is set.
pub const DAIF_I: u64 = 0x80;

/// IRQs are masked under `daif`.
pub open spec fn irqs_masked(daif: u64) -> bool {
    daif & DAIF_I != 0
}

/// DAIF with the I bit set and every other bit kept.
pub open spec fn masked(daif: u64) -> u64 {
    daif | DAIF_I
}

/// Masks IRQs and returns the DAIF value from before, for `irq_restore`.
pub fn irq_save(daif: &mut u64) -> (saved: u64)
    ensures
        saved == *old(daif),
        *final(daif) == masked(*old(daif)),
{
    let saved = *daif;
    *daif = saved | DAIF_I;
    saved
}

/// Puts back the DAIF value that `irq_save` returned. IRQs come back on only
/// if they were on when that section began.
pub fn irq_restore(daif: &mut u64, saved: u64)
    ensures
        *final(daif) == saved,
{
    *daif = saved;
}

/// A critical section over the DAIF value `daif`: `f` is called with the
/// masked value (the value to have in the DAIF register while `f`'s work
/// runs), and afterwards `daif` holds exactly the value it had before. The
/// caller that drives the CPU writes the value `f` receives into the register
/// before that work and `daif` back after it.
pub fn without_preempt<R, F: FnOnce(u64) -> R>(daif: &mut u64, f: F) -> (r: R)
    requires
        f.requires((masked(*old(daif)),)),
    ensures
        f.ensures((masked(*old(daif)),), r),
        *final(daif) == *old(daif),
{
    let saved = irq_save(daif);
    let r = f(*daif);
    irq_restore(daif, saved);
    r
}

/// Masking sets the I bit and changes nothing else, whatever the prior state.
pub proof fn lemma_masked_masks(daif: u64)
    ensures
        irqs_masked(masked(daif)),
        masked(daif) & !DAIF_I == daif & !DAIF_I,
        irqs_masked(daif) ==> masked(daif) == daif,
{
    assert((daif | 0x80u64) & 0x80u64 != 0u64) by (bit_vector);
    assert((daif | 0x80u64) & !0x80u64 == daif & !0x80u64) by (bit_vector);
    assert(daif & 0x80u64 != 0u64 ==> daif | 0x80u64 == daif) by (bit_vector);
}

/// Sections nest: entering an inner section while IRQs are already masked
/// changes nothing, so the inner section's end (which restores the masked
/// value it saved) leaves IRQs masked; only the outermost end can unmask, and
/// only if IRQs were unmasked when it began.
pub proof fn lemma_nested_sections(daif: u64)
    ensures
        irqs_masked(masked(daif)),
        masked(masked(daif)) == masked(daif),
{
    lemma_masked_masks(daif);
    lemma_masked_masks(masked(daif));
}

} // verus!
