//! MMU configuration: a minimal identity map.
//!
//! 4 KiB granule, 39-bit virtual addresses, so the top translation level is L1
//! and each L1 entry maps one 1 GiB block. One L1 table identity-maps
//! everything the kernel touches with two entries:
//!   - [0] 0x0000_0000..0x4000_0000 Device (GIC, UART)
//!   - [1] 0x4000_0000..0x8000_0000 Normal (kernel image, stack, tables, RAM)
//!
//! Because VA == PA for every address the kernel uses, running code keeps
//! working the instant translation is switched on. This module computes the
//! table and the control-register values; the caller writes the registers.

use vstd::prelude::*;

verus! {

/// Entries in a translation table.
pub const TABLE_ENTRIES: usize = 512;

/// Bytes mapped by one L1 block.
pub const BLOCK_SIZE: u64 = 0x4000_0000;

/// Block descriptor: bits[1:0] = 0b01 at L1.
pub const VALID: u64 = 1;

/// Access flag (an access faults while it is clear).
pub const AF: u64 = 0x400;

/// Inner shareable.
pub const SH_INNER: u64 = 0x300;

/// AttrIndx 0: MAIR attribute 0, Device-nGnRnE.
pub const ATTR_DEVICE: u64 = 0;

/// AttrIndx 1: MAIR attribute 1, Normal write-back.
pub const ATTR_NORMAL: u64 = 4;

/// Output-address bits of an L1 block descriptor (47:30).
pub const BLOCK_ADDR_MASK: u64 = 0x0000_FFFF_C000_0000;

/// Offset-within-block bits of a virtual address (29:0).
pub const BLOCK_OFFSET_MASK: u64 = 0x3FFF_FFFF;

/// SCTLR_EL1 bits M (MMU), C (data cache), I (instruction cache).
pub const SCTLR_ENABLE_BITS: u64 = 0x1005;

/// The memory type an L1 entry maps its block as.
pub enum MemType {
    Device,
    Normal,
    Other,
}

/// The identity-map L1 descriptors.
pub open spec fn l1_entry_spec(i: int) -> u64 {
    if i == 0 {
        0x401u64
    } else if i == 1 {
        0x4000_0705u64
    } else {
        0u64
    }
}

/// The index of the L1 entry that translates `va`.
pub open spec fn l1_index(va: u64) -> int {
    ((va >> 30u64) & 0x1FFu64) as int
}

/// Translation of `va` through `table` at L1: the physical address when the
/// entry is a valid block descriptor with the access flag set, else `None`
/// (a translation fault).
pub open spec fn translate(table: Seq<u64>, va: u64) -> Option<u64> {
    let e = table[l1_index(va)];
    if e & 3u64 == 1u64 && e & AF != 0u64 {
        Some((e & BLOCK_ADDR_MASK) | (va & BLOCK_OFFSET_MASK))
    } else {
        None
    }
}

/// The memory type an L1 entry gives its block (AttrIndx, bits 4:2).
pub open spec fn mem_type(e: u64) -> MemType {
    let attr = (e >> 2u64) & 7u64;
    if attr == 0 {
        MemType::Device
    } else if attr == 1 {
        MemType::Normal
    } else {
        MemType::Other
    }
}

/// The L1 table: entry 0 maps the first GiB as Device memory, entry 1 the
/// second GiB as inner-shareable Normal memory, the rest are invalid.
pub fn l1_table() -> (t: Vec<u64>)
    ensures
        t@.len() == TABLE_ENTRIES,
        forall|i: int| 0 <= i < TABLE_ENTRIES ==> t@[i] == l1_entry_spec(i),
{
    let mut t: Vec<u64> = Vec::new();
    t.push(0x0000_0000 | VALID | AF | ATTR_DEVICE);
    t.push(0x4000_0000 | VALID | AF | SH_INNER | ATTR_NORMAL);
    assert(0x0000_0000u64 | 1u64 | 0x400u64 | 0u64 == 0x401u64) by (bit_vector);
    assert(0x4000_0000u64 | 1u64 | 0x400u64 | 0x300u64 | 4u64 == 0x4000_0705u64) by (bit_vector);
    while t.len() < TABLE_ENTRIES
        invariant
            2 <= t@.len() <= TABLE_ENTRIES,
            forall|i: int| 0 <= i < t@.len() ==> t@[i] == l1_entry_spec(i),
        decreases TABLE_ENTRIES - t@.len(),
    {
        t.push(0);
    }
    t
}

/// MAIR_EL1: attribute 0 Device-nGnRnE (0x00), attribute 1 Normal write-back (0xFF).
pub fn mair_value() -> (r: u64)
    ensures
        r == 0xFF00,
{
    let r: u64 = (0xFF << 8) | 0x00;
    assert((0xFFu64 << 8u64) | 0u64 == 0xFF00u64) by (bit_vector);
    r
}

/// TCR_EL1: T0SZ = 25 (39-bit VA), 4 KiB granule, inner and outer
/// write-back cacheable, inner shareable, 32-bit physical addresses.
pub fn tcr_value() -> (r: u64)
    ensures
        r == 0x3519,
{
    let r: u64 = 25 | (0b01 << 8) | (0b01 << 10) | (0b11 << 12);
    assert(25u64 | (1u64 << 8u64) | (1u64 << 10u64) | (3u64 << 12u64) == 0x3519u64) by (bit_vector);
    r
}

/// SCTLR_EL1 with the MMU and both caches switched on and every other bit kept.
pub fn sctlr_enable(sctlr: u64) -> (r: u64)
    ensures
        r == sctlr | SCTLR_ENABLE_BITS,
{
    let r: u64 = sctlr | (1 << 0) | (1 << 2) | (1 << 12);
    assert(sctlr | (1u64 << 0u64) | (1u64 << 2u64) | (1u64 << 12u64) == sctlr | 0x1005u64) by (bit_vector);
    r
}

/// Whether SCTLR_EL1.M (translation on) is set.
pub fn enabled(sctlr: u64) -> (r: bool)
    ensures
        r == (sctlr & 1 != 0),
{
    sctlr & 1 != 0
}

/// Everything the MMU is programmed with before translation is switched on.
pub struct MmuSetup {
    /// The L1 translation table (its address goes to TTBR0_EL1).
    pub table: Vec<u64>,
    /// The MAIR_EL1 value.
    pub mair: u64,
    /// The TCR_EL1 value.
    pub tcr: u64,
}

/// The identity-map configuration: the L1 table and the MAIR_EL1 and TCR_EL1
/// values. Translation is then switched on with `sctlr_enable`.
pub fn init() -> (r: MmuSetup)
    ensures
        r.table@.len() == TABLE_ENTRIES,
        forall|i: int| 0 <= i < TABLE_ENTRIES ==> r.table@[i] == l1_entry_spec(i),
        r.mair == 0xFF00,
        r.tcr == 0x3519,
{
    MmuSetup { table: l1_table(), mair: mair_value(), tcr: tcr_value() }
}

/// Switching the MMU on sets SCTLR_EL1.M, whatever the register held.
pub proof fn lemma_enable_sets_m(sctlr: u64)
    ensures
        (sctlr | SCTLR_ENABLE_BITS) & 1 != 0,
{
    assert((sctlr | 0x1005u64) & 1u64 != 0u64) by (bit_vector);
}

/// The identity map: through the L1 table every address below 2 GiB
/// translates to itself, the first GiB as Device memory and the second as
/// Normal memory; every address from 2 GiB up to the 512 GiB the table covers
/// faults.
pub proof fn lemma_identity_map(table: Seq<u64>, va: u64)
    requires
        table.len() == TABLE_ENTRIES,
        forall|i: int| 0 <= i < TABLE_ENTRIES ==> table[i] == l1_entry_spec(i),
    ensures
        va < 0x8000_0000 ==> translate(table, va) == Some(va),
        va < 0x4000_0000 ==> mem_type(table[l1_index(va)]) is Device,
        0x4000_0000 <= va < 0x8000_0000 ==> mem_type(table[l1_index(va)]) is Normal,
        0x8000_0000 <= va < 0x80_0000_0000 ==> translate(table, va) is None,
{
    let i = l1_index(va);
    assert(((va >> 30u64) & 0x1FFu64) < 512u64) by (bit_vector);
    assert(0 <= i < 512);
    let e = table[i];
    assert(e == l1_entry_spec(i));
    if va < 0x4000_0000 {
        assert((va >> 30u64) & 0x1FFu64 == 0u64) by (bit_vector)
            requires
                va < 0x4000_0000u64,
        ;
        assert(e == 0x401u64);
        assert((e & 0x0000_FFFF_C000_0000u64) | (va & 0x3FFF_FFFFu64) == va && e & 3u64 == 1u64 && e
            & 0x400u64 != 0u64 && (e >> 2u64) & 7u64 == 0u64) by (bit_vector)
            requires
                va < 0x4000_0000u64,
                e == 0x401u64,
        ;
    } else if va < 0x8000_0000 {
        assert((va >> 30u64) & 0x1FFu64 == 1u64) by (bit_vector)
            requires
                0x4000_0000u64 <= va < 0x8000_0000u64,
        ;
        assert(e == 0x4000_0705u64);
        assert((e & 0x0000_FFFF_C000_0000u64) | (va & 0x3FFF_FFFFu64) == va && e & 3u64 == 1u64 && e
            & 0x400u64 != 0u64 && (e >> 2u64) & 7u64 == 1u64) by (bit_vector)
            requires
                0x4000_0000u64 <= va < 0x8000_0000u64,
                e == 0x4000_0705u64,
        ;
    } else if va < 0x80_0000_0000 {
        assert((va >> 30u64) & 0x1FFu64 >= 2u64) by (bit_vector)
            requires
                0x8000_0000u64 <= va < 0x80_0000_0000u64,
        ;
        assert(e == 0u64);
        assert(e & 3u64 == 0u64) by (bit_vector)
            requires
                e == 0u64,
        ;
    }
}

} // verus!
