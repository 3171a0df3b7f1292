use font8x8::legacy::BASIC_LEGACY;
use ross_os::fb::{
    dma_descriptor, find_ramfb_selector, init, Framebuffer, RamfbSetup, FB_BYTES, GLYPH_W, HEIGHT,
    SCREEN_PIXELS, WIDTH,
};
use ross_os::memory::{self, FrameAllocator};

const GLYPH_A: [u8; 8] = [0x0C, 0x1E, 0x33, 0x33, 0x3F, 0x33, 0x33, 0x00];

fn screen() -> Framebuffer {
    Framebuffer::new(0x4010_0000, vec![0u32; SCREEN_PIXELS], BASIC_LEGACY)
}

fn ink_of(glyph: [u8; 8], col: usize, row: usize) -> bool {
    (glyph[row] >> col) & 1 != 0
}

#[test]
fn new_screen_shows_the_given_pixels() {
    let mut px = vec![0u32; SCREEN_PIXELS];
    px[WIDTH + 2] = 0x0012_3456;
    let fb = Framebuffer::new(1, px, BASIC_LEGACY);
    assert_eq!(fb.pixel(2, 1), 0x0012_3456);
    assert_eq!(fb.pixel(1, 2), 0);
}

#[test]
fn new_screen_is_black() {
    let fb = screen();
    assert_eq!(fb.base(), 0x4010_0000);
    assert_eq!(fb.pixel(0, 0), 0);
    assert_eq!(fb.pixel(WIDTH - 1, HEIGHT - 1), 0);
}

#[test]
fn put_pixel_sets_one_pixel() {
    let mut fb = screen();
    fb.put_pixel(5, 7, 0x00FF_0000);
    assert_eq!(fb.pixel(5, 7), 0x00FF_0000);
    assert_eq!(fb.pixel(6, 7), 0);
    assert_eq!(fb.pixel(5, 8), 0);
}

#[test]
fn put_pixel_off_screen_is_ignored() {
    let mut fb = screen();
    fb.put_pixel(WIDTH, 0, 1);
    fb.put_pixel(0, HEIGHT, 1);
    fb.put_pixel(usize::MAX, usize::MAX, 1);
    for y in [0, HEIGHT - 1] {
        for x in [0, WIDTH - 1] {
            assert_eq!(fb.pixel(x, y), 0);
        }
    }
}

#[test]
fn no_scanout_memory_ignores_drawing() {
    let mut fb = Framebuffer::new(0, vec![0u32; SCREEN_PIXELS], BASIC_LEGACY);
    fb.put_pixel(1, 1, 5);
    fb.fill_rect(0, 0, 10, 10, 5);
    fb.draw_char(0, 0, b'A', 5, 1);
    assert_eq!(fb.pixel(1, 1), 0);
    assert_eq!(fb.pixel(2, 0), 0);
}

#[test]
fn fill_rect_paints_exactly_the_rectangle() {
    let mut fb = screen();
    fb.fill_rect(40, 90, 300, 200, 0x00E0_4040);
    assert_eq!(fb.pixel(40, 90), 0x00E0_4040);
    assert_eq!(fb.pixel(339, 289), 0x00E0_4040);
    assert_eq!(fb.pixel(340, 289), 0);
    assert_eq!(fb.pixel(339, 290), 0);
    assert_eq!(fb.pixel(39, 90), 0);
    assert_eq!(fb.pixel(40, 89), 0);
}

#[test]
fn fill_rect_is_clipped_to_the_screen() {
    let mut fb = screen();
    fb.fill_rect(1000, 760, 100, 100, 7);
    assert_eq!(fb.pixel(1023, 767), 7);
    assert_eq!(fb.pixel(1000, 760), 7);
    assert_eq!(fb.pixel(999, 767), 0);
    fb.fill_rect(WIDTH + 5, 0, 10, 10, 9);
    assert_eq!(fb.pixel(WIDTH - 1, 0), 0);
}

#[test]
fn empty_rectangle_changes_nothing() {
    let mut fb = screen();
    fb.fill_rect(10, 10, 0, 50, 3);
    fb.fill_rect(10, 10, 50, 0, 3);
    assert_eq!(fb.pixel(10, 10), 0);
}

#[test]
fn clear_paints_every_pixel() {
    let mut fb = screen();
    fb.put_pixel(3, 3, 99);
    fb.clear(0x0010_2840);
    for (x, y) in [(0, 0), (3, 3), (WIDTH - 1, HEIGHT - 1), (512, 384)] {
        assert_eq!(fb.pixel(x, y), 0x0010_2840);
    }
}

#[test]
fn draw_char_inks_the_glyph_only() {
    let mut fb = screen();
    fb.fill_rect(0, 0, 16, 16, 0x0040_C060);
    fb.draw_char(0, 0, b'A', 0x00FF_FFFF, 1);
    assert_eq!(BASIC_LEGACY[b'A' as usize], GLYPH_A);
    for row in 0..8 {
        for col in 0..8 {
            let want = if ink_of(GLYPH_A, col, row) { 0x00FF_FFFF } else { 0x0040_C060 };
            assert_eq!(fb.pixel(col, row), want, "({}, {})", col, row);
        }
    }
    assert_eq!(fb.pixel(8, 0), 0x0040_C060);
}

#[test]
fn draw_char_magnifies_by_scale() {
    let mut fb = screen();
    fb.draw_char(100, 50, b'A', 1, 2);
    for y in 0..16 {
        for x in 0..16 {
            let want = if ink_of(GLYPH_A, x / 2, y / 2) { 1 } else { 0 };
            assert_eq!(fb.pixel(100 + x, 50 + y), want);
        }
    }
}

#[test]
fn draw_char_uses_the_low_seven_bits() {
    let mut a = screen();
    let mut b = screen();
    a.draw_char(0, 0, b'A', 1, 1);
    b.draw_char(0, 0, b'A' | 0x80, 1, 1);
    for y in 0..8 {
        for x in 0..8 {
            assert_eq!(a.pixel(x, y), b.pixel(x, y));
        }
    }
}

#[test]
fn draw_char_at_the_edge_is_clipped() {
    let mut fb = screen();
    fb.draw_char(WIDTH - 4, HEIGHT - 4, b'A', 1, 1);
    for y in 0..4 {
        for x in 0..4 {
            let want = if ink_of(GLYPH_A, x, y) { 1 } else { 0 };
            assert_eq!(fb.pixel(WIDTH - 4 + x, HEIGHT - 4 + y), want);
        }
    }
}

#[test]
fn draw_str_lays_glyphs_left_to_right() {
    let mut fb = screen();
    fb.draw_str(12, 10, "AI", 0x00FF_FFFF, 2);
    let glyph_i = BASIC_LEGACY[b'I' as usize];
    for y in 0..16 {
        for x in 0..16 {
            let a = if ink_of(GLYPH_A, x / 2, y / 2) { 0x00FF_FFFF } else { 0 };
            let i = if ink_of(glyph_i, x / 2, y / 2) { 0x00FF_FFFF } else { 0 };
            assert_eq!(fb.pixel(12 + x, 10 + y), a);
            assert_eq!(fb.pixel(12 + GLYPH_W * 2 + x, 10 + y), i);
        }
    }
}

#[test]
fn draw_str_does_not_wrap() {
    let mut fb = screen();
    fb.draw_str(WIDTH - 8, 0, "AA", 1, 1);
    for y in 0..8 {
        for x in 0..8 {
            let want = if ink_of(GLYPH_A, x, y) { 1 } else { 0 };
            assert_eq!(fb.pixel(WIDTH - 8 + x, y), want);
            assert_eq!(fb.pixel(x, 8 + y), 0);
        }
    }
}

#[test]
fn empty_string_draws_nothing() {
    let mut fb = screen();
    fb.draw_str(0, 0, "", 1, 3);
    assert_eq!(fb.pixel(0, 0), 0);
}

fn entry(select: u16, name: &[u8]) -> Vec<u8> {
    let mut e = vec![0u8; 64];
    e[0..4].copy_from_slice(&28u32.to_be_bytes());
    e[4..6].copy_from_slice(&select.to_be_bytes());
    e[8..8 + name.len()].copy_from_slice(name);
    e
}

fn directory(count: u32, entries: &[Vec<u8>]) -> Vec<u8> {
    let mut d = count.to_be_bytes().to_vec();
    for e in entries {
        d.extend_from_slice(e);
    }
    d
}

#[test]
fn finds_the_ramfb_entry() {
    let d = directory(
        3,
        &[entry(0x19, b"etc/boot-menu-wait\0"), entry(0x25, b"etc/ramfb\0"), entry(0x30, b"etc/ramfb\0")],
    );
    assert_eq!(find_ramfb_selector(&d), Some(0x25));
}

#[test]
fn ramfb_absent() {
    let d = directory(2, &[entry(0x19, b"etc/ramfbx\0"), entry(0x25, b"etc/ram\0")]);
    assert_eq!(find_ramfb_selector(&d), None);
    assert_eq!(find_ramfb_selector(&[]), None);
    assert_eq!(find_ramfb_selector(&directory(0, &[entry(0x25, b"etc/ramfb\0")])), None);
}

#[test]
fn only_the_announced_entries_are_scanned() {
    let d = directory(1, &[entry(0x19, b"opt/x\0"), entry(0x25, b"etc/ramfb\0")]);
    assert_eq!(find_ramfb_selector(&d), None);
    let short = directory(5, &[entry(0x19, b"opt/x\0"), entry(0x25, b"etc/ramfb\0")]);
    assert_eq!(find_ramfb_selector(&short), Some(0x25));
}

#[test]
fn at_most_256_entries_are_scanned() {
    let mut entries: Vec<Vec<u8>> = (0..256).map(|_| entry(1, b"opt/x\0")).collect();
    entries.push(entry(0x25, b"etc/ramfb\0"));
    assert_eq!(find_ramfb_selector(&directory(1000, &entries)), None);
    entries[255] = entry(0x26, b"etc/ramfb\0");
    assert_eq!(find_ramfb_selector(&directory(1000, &entries)), Some(0x26));
}

#[test]
fn init_takes_scanout_memory() {
    let mut frames = FrameAllocator::new();
    memory::init(&mut frames, 0x4008_a000);
    let d = directory(1, &[entry(0x25, b"etc/ramfb\0")]);
    let setup = init(&d, &mut frames).unwrap();
    assert_eq!(setup.base, 0x4008_a000);
    assert_eq!(setup.selector, 0x25);
    assert_eq!(FB_BYTES, 1024 * 768 * 4);
    assert_eq!(memory::alloc_frame(&mut frames), Some(0x4008_a000 + FB_BYTES));
    assert_eq!(setup.dma_control(), (0x25 << 16) | 0x08 | 0x10);
}

#[test]
fn init_without_ramfb_takes_nothing() {
    let mut frames = FrameAllocator::new();
    memory::init(&mut frames, 0x4008_a000);
    let d = directory(1, &[entry(0x19, b"opt/x\0")]);
    assert!(init(&d, &mut frames).is_none());
    assert_eq!(memory::alloc_frame(&mut frames), Some(0x4008_a000));
}

#[test]
fn init_without_ram_fails() {
    let mut frames = FrameAllocator::new();
    memory::init(&mut frames, 0x7FF0_0000);
    let d = directory(1, &[entry(0x25, b"etc/ramfb\0")]);
    assert!(init(&d, &mut frames).is_none());
}

#[test]
fn ramfb_config_is_big_endian() {
    let setup = RamfbSetup { base: 0x4008_a000, selector: 0x25 };
    let cfg = setup.ramfb_config();
    let mut want = Vec::new();
    want.extend_from_slice(&0x4008_a000u64.to_be_bytes());
    want.extend_from_slice(&0x3432_5258u32.to_be_bytes());
    want.extend_from_slice(&0u32.to_be_bytes());
    want.extend_from_slice(&1024u32.to_be_bytes());
    want.extend_from_slice(&768u32.to_be_bytes());
    want.extend_from_slice(&4096u32.to_be_bytes());
    assert_eq!(cfg.len(), 28);
    assert_eq!(cfg, want);
}

#[test]
fn dma_descriptor_is_big_endian() {
    let d = dma_descriptor(0x0025_0018, 0x1122_3344_5566_7788);
    let mut want = Vec::new();
    want.extend_from_slice(&0x0025_0018u32.to_be_bytes());
    want.extend_from_slice(&28u32.to_be_bytes());
    want.extend_from_slice(&0x1122_3344_5566_7788u64.to_be_bytes());
    assert_eq!(d, want);
}

#[test]
fn rectangle_past_the_address_range_is_clipped() {
    let mut fb = screen();
    fb.fill_rect(usize::MAX, 0, 2, 2, 7);
    fb.fill_rect(0, usize::MAX, 2, 2, 7);
    assert_eq!(fb.pixel(0, 0), 0);
    assert_eq!(fb.pixel(1, 1), 0);
    fb.fill_rect(WIDTH - 2, HEIGHT - 2, usize::MAX, usize::MAX, 7);
    assert_eq!(fb.pixel(WIDTH - 1, HEIGHT - 1), 7);
    assert_eq!(fb.pixel(WIDTH - 2, HEIGHT - 2), 7);
    assert_eq!(fb.pixel(WIDTH - 3, HEIGHT - 1), 0);
}

#[test]
fn huge_scale_inks_only_the_first_cells() {
    let mut fb = screen();
    // Row 0 of 'A' is 0x0C: columns 2 and 3; at this scale their blocks start
    // past the end of the address range, so nothing is drawn.
    fb.draw_char(0, 0, b'A', 1, usize::MAX / 2);
    assert_eq!(fb.pixel(0, 0), 0);
    // '|' (0x18 in row 0: columns 3 and 4) far right: off screen.
    fb.draw_char(usize::MAX - 3, 0, b'|', 1, 1);
    assert_eq!(fb.pixel(WIDTH - 1, 0), 0);
}

#[test]
fn draw_char_cell_at_origin_with_huge_scale_covers_the_screen() {
    let mut font = [[0u8; 8]; 128];
    font[1][0] = 0x01;
    let mut fb = Framebuffer::new(1, vec![0u32; SCREEN_PIXELS], font);
    fb.draw_char(0, 0, 1, 9, usize::MAX);
    assert_eq!(fb.pixel(0, 0), 9);
    assert_eq!(fb.pixel(WIDTH - 1, HEIGHT - 1), 9);
}

#[test]
fn text_running_past_the_address_range_is_clipped() {
    let mut fb = screen();
    fb.draw_str(WIDTH - 8, 0, "AAAA", 1, usize::MAX / 16);
    assert_eq!(fb.pixel(WIDTH - 1, 0), 0);
    let mut fb = screen();
    fb.draw_str(0, 0, "AA", 1, usize::MAX);
    assert_eq!(fb.pixel(0, 0), 0);
}

#[test]
fn draw_str_equals_draw_char_in_order() {
    let mut a = screen();
    let mut b = screen();
    a.draw_str(100, 200, "Hi!", 0x00A0_C0FF, 3);
    for (i, &c) in b"Hi!".iter().enumerate() {
        b.draw_char(100 + i * GLYPH_W * 3, 200, c, 0x00A0_C0FF, 3);
    }
    for y in 200..230 {
        for x in 100..180 {
            assert_eq!(a.pixel(x, y), b.pixel(x, y));
        }
    }
}
