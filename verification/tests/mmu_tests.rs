use ross_os::mmu::{enabled, init, sctlr_enable, AF, BLOCK_ADDR_MASK, BLOCK_OFFSET_MASK, TABLE_ENTRIES};

fn translate(table: &[u64], va: u64) -> Option<u64> {
    let e = table[((va >> 30) & 0x1FF) as usize];
    if e & 3 == 1 && e & AF != 0 {
        Some((e & BLOCK_ADDR_MASK) | (va & BLOCK_OFFSET_MASK))
    } else {
        None
    }
}

#[test]
fn table_has_device_and_normal_blocks() {
    let s = init();
    assert_eq!(s.table.len(), TABLE_ENTRIES);
    assert_eq!(s.table[0], 0x0000_0000 | 1 | (1 << 10));
    assert_eq!(s.table[1], 0x4000_0000 | 1 | (1 << 10) | (0b11 << 8) | (1 << 2));
    assert!(s.table[2..].iter().all(|&e| e == 0));
}

#[test]
fn register_values() {
    let s = init();
    assert_eq!(s.mair, 0xFF00);
    assert_eq!(s.tcr, 25 | (1 << 8) | (1 << 10) | (3 << 12));
}

#[test]
fn identity_map_covers_devices_and_ram() {
    let t = init().table;
    for va in [0x0800_0000u64, 0x0900_0000, 0x0900_0018, 0x4000_0000, 0x4008_c000, 0x7FFF_FFFF, 0] {
        assert_eq!(translate(&t, va), Some(va));
    }
    assert_eq!((t[0] >> 2) & 7, 0);
    assert_eq!((t[1] >> 2) & 7, 1);
    assert_eq!(translate(&t, 0x8000_0000), None);
    assert_eq!(translate(&t, 0x7F_FFFF_FFFF), None);
}

#[test]
fn enabling_sets_m_c_and_i() {
    assert_eq!(sctlr_enable(0x30D0_0800), 0x30D0_1805);
    assert!(enabled(sctlr_enable(0)));
    assert!(!enabled(0x30D0_0800));
    assert!(enabled(1));
}
