//! Linear framebuffer (QEMU ramfb), drawn into as XRGB8888 pixels.
//!
//! Pixel `(x, y)` lives at index `y * WIDTH + x`; each pixel is a `u32` of the
//! form `0x00RRGGBB`. Every drawing operation is clipped to the screen, and a
//! framebuffer whose base address is 0 (no scanout memory) ignores drawing.

use vstd::prelude::*;
use vstd::string::StringSliceAdditionalSpecFns;

use crate::memory::{alloc_contig, bump_result, frame_align_up, FrameAllocator};

verus! {

/// Screen width in pixels.
pub const WIDTH: usize = 1024;

/// Screen height in pixels.
pub const HEIGHT: usize = 768;

/// Bytes per scanline.
pub const STRIDE: usize = 4096;

/// Number of pixels on the screen.
pub const SCREEN_PIXELS: usize = 786432;

/// Glyph width in source pixels (before scaling).
pub const GLYPH_W: usize = 8;

/// Column of the pixel at linear index `i`.
pub open spec fn px_of(i: int) -> int {
    i % (WIDTH as int)
}

/// Row of the pixel at linear index `i`.
pub open spec fn py_of(i: int) -> int {
    i / (WIDTH as int)
}

/// `(px, py)` lies in the `w` by `h` rectangle whose top-left corner is `(x, y)`.
pub open spec fn in_rect(px: int, py: int, x: int, y: int, w: int, h: int) -> bool {
    x <= px < x + w && y <= py < y + h
}

/// The screen `s` after every pixel of the rectangle that lies on the screen
/// is set to `color`.
pub open spec fn rect_painted(s: Seq<u32>, x: int, y: int, w: int, h: int, color: u32) -> Seq<u32> {
    Seq::new(s.len(), |i: int| if in_rect(px_of(i), py_of(i), x, y, w, h) { color } else { s[i] })
}

/// Bit `col` of a glyph row byte: whether source pixel `col` of that row is ink.
pub open spec fn glyph_bit(bits: u8, col: int) -> bool {
    (bits >> (col as u8)) & 1u8 == 1u8
}

/// Source cell `(row, col)` of `glyph` is ink, and its `scale` by `scale`
/// block, drawn with the glyph's top-left corner at `(x, y)`, covers `(px, py)`.
pub open spec fn cell_hit(glyph: [u8; 8], x: int, y: int, scale: int, px: int, py: int, row: int, col: int) -> bool {
    glyph_bit(glyph[row], col) && in_rect(px, py, x + col * scale, y + row * scale, scale, scale)
}

/// `glyph`, drawn at `(x, y)` magnified by `scale`, puts ink on `(px, py)`.
pub open spec fn glyph_hit(glyph: [u8; 8], x: int, y: int, scale: int, px: int, py: int) -> bool {
    exists|row: int, col: int|
        0 <= row < 8 && 0 <= col < 8 && #[trigger] cell_hit(glyph, x, y, scale, px, py, row, col)
}

/// The screen `s` after `glyph` is drawn at `(x, y)` magnified by `scale` in
/// `color`; pixels the glyph does not ink keep their colour.
pub open spec fn glyph_painted(s: Seq<u32>, glyph: [u8; 8], x: int, y: int, scale: int, color: u32) -> Seq<u32> {
    Seq::new(s.len(), |i: int| if glyph_hit(glyph, x, y, scale, px_of(i), py_of(i)) { color } else { s[i] })
}

/// Whether one of the first `n` cells of `glyph`, in row-major order, inks
/// `(px, py)`.
pub open spec fn cells_hit(glyph: [u8; 8], x: int, y: int, scale: int, px: int, py: int, n: nat) -> bool
    decreases n,
{
    if n == 0 {
        false
    } else {
        cells_hit(glyph, x, y, scale, px, py, (n - 1) as nat)
            || cell_hit(glyph, x, y, scale, px, py, (n - 1) / 8, (n - 1) % 8)
    }
}

/// The screen `s` after the first `n` cells of `glyph` are drawn.
pub open spec fn cells_painted(s: Seq<u32>, glyph: [u8; 8], x: int, y: int, scale: int, color: u32, n: nat) -> Seq<u32> {
    Seq::new(s.len(), |i: int| if cells_hit(glyph, x, y, scale, px_of(i), py_of(i), n) { color } else { s[i] })
}

/// The first `n` cells ink `(px, py)` exactly when one of them does.
proof fn lemma_cells_hit(glyph: [u8; 8], x: int, y: int, scale: int, px: int, py: int, n: nat)
    ensures
        cells_hit(glyph, x, y, scale, px, py, n) <==> exists|k: int|
            0 <= k < n && #[trigger] cell_hit(glyph, x, y, scale, px, py, k / 8, k % 8),
    decreases n,
{
    if n > 0 {
        lemma_cells_hit(glyph, x, y, scale, px, py, (n - 1) as nat);
    }
}

/// All 64 cells ink `(px, py)` exactly when the glyph does.
proof fn lemma_all_cells_hit(glyph: [u8; 8], x: int, y: int, scale: int, px: int, py: int)
    ensures
        cells_hit(glyph, x, y, scale, px, py, 64) == glyph_hit(glyph, x, y, scale, px, py),
{
    lemma_cells_hit(glyph, x, y, scale, px, py, 64);
    if cells_hit(glyph, x, y, scale, px, py, 64) {
        let k = choose|k: int| 0 <= k < 64 && #[trigger] cell_hit(glyph, x, y, scale, px, py, k / 8, k % 8);
        assert(cell_hit(glyph, x, y, scale, px, py, k / 8, k % 8));
    }
    if glyph_hit(glyph, x, y, scale, px, py) {
        let (row, col) = choose|row: int, col: int|
            0 <= row < 8 && 0 <= col < 8 && #[trigger] cell_hit(glyph, x, y, scale, px, py, row, col);
        let k = row * 8 + col;
        assert(k / 8 == row && k % 8 == col);
        assert(cell_hit(glyph, x, y, scale, px, py, k / 8, k % 8));
    }
}

/// Character `k` of `bytes`, drawn at `x + k * GLYPH_W * scale` on row `y`,
/// inks `(px, py)`.
pub open spec fn char_hit(glyphs: Seq<[u8; 8]>, bytes: Seq<u8>, x: int, y: int, scale: int, px: int, py: int, k: int) -> bool {
    glyph_hit(glyphs[(bytes[k] & 0x7f) as int], x + k * (GLYPH_W * scale), y, scale, px, py)
}

/// The text `bytes`, laid out left to right from `(x, y)` without wrapping,
/// inks `(px, py)`.
pub open spec fn text_hit(glyphs: Seq<[u8; 8]>, bytes: Seq<u8>, x: int, y: int, scale: int, px: int, py: int) -> bool {
    exists|k: int| 0 <= k < bytes.len() && #[trigger] char_hit(glyphs, bytes, x, y, scale, px, py, k)
}

/// The screen `s` after the text `bytes` is drawn from `(x, y)` in `color`.
pub open spec fn text_painted(s: Seq<u32>, glyphs: Seq<[u8; 8]>, bytes: Seq<u8>, x: int, y: int, scale: int, color: u32) -> Seq<u32> {
    Seq::new(s.len(), |i: int| if text_hit(glyphs, bytes, x, y, scale, px_of(i), py_of(i)) { color } else { s[i] })
}

/// Whether one of the first `n` characters of `bytes` inks `(px, py)`.
pub open spec fn chars_hit(glyphs: Seq<[u8; 8]>, bytes: Seq<u8>, x: int, y: int, scale: int, px: int, py: int, n: nat) -> bool
    decreases n,
{
    if n == 0 {
        false
    } else {
        chars_hit(glyphs, bytes, x, y, scale, px, py, (n - 1) as nat)
            || char_hit(glyphs, bytes, x, y, scale, px, py, n - 1)
    }
}

/// The screen `s` after the first `n` characters of `bytes` are drawn.
pub open spec fn chars_painted(s: Seq<u32>, glyphs: Seq<[u8; 8]>, bytes: Seq<u8>, x: int, y: int, scale: int, color: u32, n: nat) -> Seq<u32> {
    Seq::new(s.len(), |i: int| if chars_hit(glyphs, bytes, x, y, scale, px_of(i), py_of(i), n) { color } else { s[i] })
}

/// The first `n` characters ink `(px, py)` exactly when one of them does.
proof fn lemma_chars_hit(glyphs: Seq<[u8; 8]>, bytes: Seq<u8>, x: int, y: int, scale: int, px: int, py: int, n: nat)
    ensures
        chars_hit(glyphs, bytes, x, y, scale, px, py, n) <==> exists|k: int|
            0 <= k < n && #[trigger] char_hit(glyphs, bytes, x, y, scale, px, py, k),
    decreases n,
{
    if n > 0 {
        lemma_chars_hit(glyphs, bytes, x, y, scale, px, py, (n - 1) as nat);
    }
}

/// Bytes in one fw_cfg file-directory entry:
/// `{ u32 size; u16 select; u16 reserved; char name[56]; }`, big-endian.
pub const DIR_ENTRY_LEN: usize = 64;

/// At most this many directory entries are scanned.
pub const DIR_MAX_ENTRIES: usize = 256;

/// Length of the name that identifies the ramfb file, NUL included.
pub const RAMFB_NAME_LEN: usize = 10;

/// The big-endian `u32` in `b[off..off + 4]`.
pub open spec fn be_u32_at(b: Seq<u8>, off: int) -> int {
    b[off] * 0x100_0000 + b[off + 1] * 0x1_0000 + b[off + 2] * 0x100 + b[off + 3]
}

/// The big-endian `u16` in `b[off..off + 2]`.
pub open spec fn be_u16_at(b: Seq<u8>, off: int) -> int {
    b[off] * 0x100 + b[off + 1]
}

/// `"etc/ramfb\0"`: the prefix of the ramfb file's name.
pub open spec fn ramfb_name() -> Seq<u8> {
    seq![0x65u8, 0x74u8, 0x63u8, 0x2fu8, 0x72u8, 0x61u8, 0x6du8, 0x66u8, 0x62u8, 0x00u8]
}

/// The number of entries the directory image `dir` announces in its first
/// four bytes (0 when those bytes are missing).
pub open spec fn dir_count(dir: Seq<u8>) -> int {
    if dir.len() >= 4 { be_u32_at(dir, 0) } else { 0 }
}

/// The number of entries scanned: the announced count, capped at
/// `DIR_MAX_ENTRIES` and at the entries the image actually holds.
pub open spec fn dir_scanned(dir: Seq<u8>) -> int {
    let avail = if dir.len() >= 4 { (dir.len() - 4) / (DIR_ENTRY_LEN as int) } else { 0 };
    let c = if dir_count(dir) < DIR_MAX_ENTRIES { dir_count(dir) } else { DIR_MAX_ENTRIES as int };
    if c < avail { c } else { avail }
}

/// Offset of directory entry `k` in the image.
pub open spec fn entry_off(k: int) -> int {
    4 + k * (DIR_ENTRY_LEN as int)
}

/// The name of directory entry `k` starts with `"etc/ramfb\0"`.
pub open spec fn entry_is_ramfb(dir: Seq<u8>, k: int) -> bool {
    forall|j: int| 0 <= j < RAMFB_NAME_LEN ==> #[trigger] dir[entry_off(k) + 8 + j] == ramfb_name()[j]
}

/// The selector key of directory entry `k`.
pub open spec fn entry_selector(dir: Seq<u8>, k: int) -> int {
    be_u16_at(dir, entry_off(k) + 4)
}

/// The name bytes that identify the ramfb file.
fn ramfb_name_bytes() -> (r: [u8; 10])
    ensures
        r@ == ramfb_name(),
{
    let r: [u8; 10] = [0x65u8, 0x74u8, 0x63u8, 0x2fu8, 0x72u8, 0x61u8, 0x6du8, 0x66u8, 0x62u8, 0x00u8];
    assert(r@ =~= ramfb_name());
    r
}

/// Scans a fw_cfg file-directory image (the big-endian entry count followed by
/// the entries, as read from the `FW_CFG_FILE_DIR` item) for `etc/ramfb` and
/// returns its selector key: the first matching entry among the first
/// `min(count, 256)` entries, or `None`.
pub fn find_ramfb_selector(dir: &[u8]) -> (r: Option<u16>)
    ensures
        r matches Some(sel) ==> exists|k: int|
            0 <= k < dir_scanned(dir@) && #[trigger] entry_is_ramfb(dir@, k)
                && sel == entry_selector(dir@, k)
                && forall|k2: int| 0 <= k2 < k ==> !#[trigger] entry_is_ramfb(dir@, k2),
        r is None ==> forall|k: int| 0 <= k < dir_scanned(dir@) ==> !#[trigger] entry_is_ramfb(dir@, k),
{
    if dir.len() < 4 {
        return None;
    }
    let count: u32 = (dir[0] as u32) * 0x100_0000 + (dir[1] as u32) * 0x1_0000 + (dir[2] as u32) * 0x100
        + (dir[3] as u32);
    let avail: usize = (dir.len() - 4) / DIR_ENTRY_LEN;
    let capped: usize = if count < 256 { count as usize } else { DIR_MAX_ENTRIES };
    let n: usize = if capped < avail { capped } else { avail };
    assert(n == dir_scanned(dir@));
    let name = ramfb_name_bytes();
    let mut k: usize = 0;
    while k < n
        invariant
            n == dir_scanned(dir@),
            n <= avail,
            avail == (dir@.len() - 4) / (DIR_ENTRY_LEN as int),
            dir@.len() >= 4,
            name@ == ramfb_name(),
            k <= n,
            forall|k2: int| 0 <= k2 < k ==> !#[trigger] entry_is_ramfb(dir@, k2),
        decreases n - k,
    {
        assert(entry_off(k as int) + DIR_ENTRY_LEN <= dir@.len()) by (nonlinear_arith)
            requires
                k < avail,
                avail == (dir@.len() - 4) / 64,
                dir@.len() >= 4,
        ;
        let off: usize = 4 + k * DIR_ENTRY_LEN;
        let mut j: usize = 0;
        let mut matched: bool = true;
        while j < RAMFB_NAME_LEN
            invariant
                off == entry_off(k as int),
                off + DIR_ENTRY_LEN <= dir@.len(),
                name@ == ramfb_name(),
                j <= RAMFB_NAME_LEN,
                matched == forall|j2: int| 0 <= j2 < j ==> #[trigger] dir@[off + 8 + j2] == ramfb_name()[j2],
            decreases RAMFB_NAME_LEN - j,
        {
            if dir[off + 8 + j] != name[j] {
                matched = false;
            }
            j = j + 1;
        }
        if matched {
            let sel: u16 = (dir[off + 4] as u16) * 0x100 + (dir[off + 5] as u16);
            assert(entry_is_ramfb(dir@, k as int));
            return Some(sel);
        }
        assert(!entry_is_ramfb(dir@, k as int)) by {
            let j2 = choose|j2: int| 0 <= j2 < RAMFB_NAME_LEN && #[trigger] dir@[off + 8 + j2] != ramfb_name()[j2];
            assert(dir@[entry_off(k as int) + 8 + j2] != ramfb_name()[j2]);
        }
        k = k + 1;
    }
    None
}

/// DRM fourcc `XR24` (XRGB8888).
pub const FOURCC_XR24: u32 = 0x3432_5258;

/// fw_cfg DMA control bit: select the item in the upper 16 bits.
pub const DMA_SELECT: u32 = 0x08;

/// fw_cfg DMA control bit: write to the item.
pub const DMA_WRITE: u32 = 0x10;

/// Bytes of the ramfb configuration handed to QEMU.
pub const RAMFB_CFG_LEN: u32 = 28;

/// Bytes of scanout memory: one screen of 32-bit pixels.
pub const FB_BYTES: usize = 3145728;

/// The four big-endian bytes of `v`.
pub open spec fn be32_bytes(v: int) -> Seq<u8> {
    seq![(v / 0x100_0000 % 0x100) as u8, (v / 0x1_0000 % 0x100) as u8, (v / 0x100 % 0x100) as u8, (v % 0x100) as u8]
}

/// The eight big-endian bytes of `v`.
pub open spec fn be64_bytes(v: int) -> Seq<u8> {
    be32_bytes(v / 0x1_0000_0000) + be32_bytes(v % 0x1_0000_0000)
}

/// The ramfb configuration for scanout memory at `addr`, as QEMU reads it:
/// address, fourcc, flags, width, height, stride, all big-endian.
pub open spec fn ramfb_config_spec(addr: int) -> Seq<u8> {
    be64_bytes(addr) + be32_bytes(FOURCC_XR24 as int) + be32_bytes(0) + be32_bytes(WIDTH as int)
        + be32_bytes(HEIGHT as int) + be32_bytes(STRIDE as int)
}

/// The fw_cfg DMA control word that selects item `sel` and writes to it.
pub open spec fn dma_control_spec(sel: int) -> int {
    sel * 0x1_0000 + DMA_SELECT + DMA_WRITE
}

/// The fw_cfg DMA descriptor (control, length, address; big-endian) that
/// transfers `RAMFB_CFG_LEN` bytes from `cfg_addr` under `control`.
pub open spec fn dma_descriptor_spec(control: int, cfg_addr: int) -> Seq<u8> {
    be32_bytes(control) + be32_bytes(RAMFB_CFG_LEN as int) + be64_bytes(cfg_addr)
}

/// Appends the big-endian bytes of `x`.
fn push_be32(v: &mut Vec<u8>, x: u32)
    ensures
        final(v)@ == old(v)@ + be32_bytes(x as int),
{
    v.push((x / 0x100_0000 % 0x100) as u8);
    v.push((x / 0x1_0000 % 0x100) as u8);
    v.push((x / 0x100 % 0x100) as u8);
    v.push((x % 0x100) as u8);
    assert(final(v)@ =~= old(v)@ + be32_bytes(x as int));
}

/// Appends the big-endian bytes of `x`.
fn push_be64(v: &mut Vec<u8>, x: u64)
    ensures
        final(v)@ == old(v)@ + be64_bytes(x as int),
{
    push_be32(v, (x / 0x1_0000_0000) as u32);
    push_be32(v, (x % 0x1_0000_0000) as u32);
    assert(final(v)@ =~= old(v)@ + be64_bytes(x as int));
}

/// The fw_cfg DMA descriptor bytes for a transfer of the ramfb configuration
/// stored at `cfg_addr` under `control`.
pub fn dma_descriptor(control: u32, cfg_addr: u64) -> (r: Vec<u8>)
    ensures
        r@ == dma_descriptor_spec(control as int, cfg_addr as int),
{
    let mut r: Vec<u8> = Vec::new();
    push_be32(&mut r, control);
    push_be32(&mut r, RAMFB_CFG_LEN);
    push_be64(&mut r, cfg_addr);
    assert(r@ =~= dma_descriptor_spec(control as int, cfg_addr as int));
    r
}

/// A glyph drawn with its left edge right of `px` puts no ink on `(px, py)`.
proof fn lemma_glyph_right_of(glyph: [u8; 8], x: int, y: int, scale: int, px: int, py: int)
    requires
        px < x,
        scale >= 0,
    ensures
        !glyph_hit(glyph, x, y, scale, px, py),
{
    assert forall|row: int, col: int| 0 <= row < 8 && 0 <= col < 8 implies !#[trigger] cell_hit(
        glyph,
        x,
        y,
        scale,
        px,
        py,
        row,
        col,
    ) by {
        assert(col * scale >= 0) by (nonlinear_arith)
            requires
                col >= 0,
                scale >= 0,
        ;
    }
}

/// `base + k * scale` when it fits in a `usize`; `None` when the position lies
/// beyond the address range (and so far off the screen).
fn cell_origin(base: usize, k: usize, scale: usize) -> (r: Option<usize>)
    ensures
        base + k * scale <= usize::MAX ==> r == Some((base + k * scale) as usize),
        base + k * scale > usize::MAX ==> r is None,
{
    match k.checked_mul(scale) {
        Some(o) => base.checked_add(o),
        None => {
            assert(k * scale >= 0) by (nonlinear_arith)
                requires
                    k >= 0,
                    scale >= 0,
            ;
            None
        },
    }
}

/// A framebuffer: its scanout base address, its pixels and the 8x8 font used
/// to draw text (128 glyphs; bit `col` of row byte `row` is pixel `(col, row)`).
pub struct Framebuffer {
    base: usize,
    pixels: Vec<u32>,
    font: [[u8; 8]; 128],
}

impl View for Framebuffer {
    type V = Seq<u32>;

    closed spec fn view(&self) -> Seq<u32> {
        self.pixels@
    }
}

impl Framebuffer {
    /// The scanout base address (0 when there is none).
    pub closed spec fn base_addr(&self) -> nat {
        self.base as nat
    }

    /// The font's glyphs.
    pub closed spec fn glyphs(&self) -> Seq<[u8; 8]> {
        self.font@
    }

    /// The pixel buffer covers exactly the screen.
    pub open spec fn wf(&self) -> bool {
        self@.len() == SCREEN_PIXELS
    }

    /// A framebuffer with scanout base `base`, drawing into `pixels` (one
    /// screen, row by row) with `font`.
    pub fn new(base: usize, pixels: Vec<u32>, font: [[u8; 8]; 128]) -> (fb: Framebuffer)
        requires
            pixels@.len() == SCREEN_PIXELS,
        ensures
            fb.wf(),
            fb.base_addr() == base,
            fb.glyphs() == font@,
            fb@ == pixels@,
    {
        Framebuffer { base, pixels, font }
    }

    /// The scanout base address.
    pub fn base(&self) -> (r: usize)
        ensures
            r == self.base_addr(),
    {
        self.base
    }

    /// The colour of pixel `(x, y)`.
    pub fn pixel(&self, x: usize, y: usize) -> (r: u32)
        requires
            self.wf(),
            x < WIDTH,
            y < HEIGHT,
        ensures
            r == self@[y * WIDTH + x],
    {
        self.pixels[y * WIDTH + x]
    }

    /// Sets one pixel to `color`; off-screen coordinates, or a framebuffer with
    /// no scanout memory, leave everything unchanged.
    pub fn put_pixel(&mut self, x: usize, y: usize, color: u32)
        requires
            old(self).wf(),
        ensures
            final(self).wf(),
            final(self).base_addr() == old(self).base_addr(),
            final(self).glyphs() == old(self).glyphs(),
            final(self)@ == (if x < WIDTH && y < HEIGHT && old(self).base_addr() != 0 {
                old(self)@.update(y * WIDTH + x, color)
            } else {
                old(self)@
            }),
    {
        if x >= WIDTH || y >= HEIGHT {
            return;
        }
        let p = self.base();
        if p == 0 {
            return;
        }
        self.pixels.set(y * WIDTH + x, color);
    }

    /// Fills the `w` by `h` rectangle at `(x, y)` with `color`, clipped to the
    /// screen. A rectangle that reaches past the end of the address range is
    /// clipped like any other.
    pub fn fill_rect(&mut self, x: usize, y: usize, w: usize, h: usize, color: u32)
        requires
            old(self).wf(),
        ensures
            final(self).wf(),
            final(self).base_addr() == old(self).base_addr(),
            final(self).glyphs() == old(self).glyphs(),
            final(self)@ == (if old(self).base_addr() != 0 {
                rect_painted(old(self)@, x as int, y as int, w as int, h as int, color)
            } else {
                old(self)@
            }),
    {
        let xe = x.saturating_add(w);
        let ye = y.saturating_add(h);
        let x1 = if xe < WIDTH { xe } else { WIDTH };
        let y1 = if ye < HEIGHT { ye } else { HEIGHT };
        let ghost s0 = self@;
        let ghost on = self.base_addr() != 0;
        let mut yy = y;
        while yy < y1
            invariant
                self.wf(),
                s0.len() == SCREEN_PIXELS,
                self.base_addr() == old(self).base_addr(),
                self.glyphs() == old(self).glyphs(),
                s0 == old(self)@,
                on == (self.base_addr() != 0),
                y <= yy,
                y1 <= HEIGHT,
                x1 <= WIDTH,
                x1 == (if x + w < WIDTH { x + w } else { WIDTH as int }),
                y1 == (if y + h < HEIGHT { y + h } else { HEIGHT as int }),
                yy < y1 || yy == y || yy == y1,
                self@ == (if on {
                    rect_painted(s0, x as int, y as int, w as int, yy - y, color)
                } else {
                    s0
                }),
            decreases y1 - yy,
        {
            let mut xx = x;
            while xx < x1
                invariant
                    self.wf(),
                    s0.len() == SCREEN_PIXELS,
                    self.base_addr() == old(self).base_addr(),
                    self.glyphs() == old(self).glyphs(),
                    on == (self.base_addr() != 0),
                    y <= yy < y1,
                    y1 <= HEIGHT,
                    x1 <= WIDTH,
                    x1 == (if x + w < WIDTH { x + w } else { WIDTH as int }),
                    x <= xx,
                    xx < x1 || xx == x || xx == x1,
                    self@ == (if on {
                        Seq::new(
                            s0.len(),
                            |i: int|
                                if in_rect(px_of(i), py_of(i), x as int, y as int, w as int, yy - y)
                                    || in_rect(px_of(i), py_of(i), x as int, yy as int, xx - x, 1) {
                                    color
                                } else {
                                    s0[i]
                                },
                        )
                    } else {
                        s0
                    }),
                decreases x1 - xx,
            {
                self.put_pixel(xx, yy, color);
                proof {
                    if on {
                        let k = yy * WIDTH + xx;
                        assert(px_of(k) == xx && py_of(k) == yy);
                        assert forall|i: int| 0 <= i < s0.len() && i != k implies
                            !(px_of(i) == xx && py_of(i) == yy) by {
                            assert(i == py_of(i) * WIDTH + px_of(i));
                        }
                    }
                }
                xx = xx + 1;
            }
            proof {
                if on {
                    assert forall|i: int| 0 <= i < s0.len() implies
                        (in_rect(px_of(i), py_of(i), x as int, y as int, w as int, yy - y)
                            || in_rect(px_of(i), py_of(i), x as int, yy as int, xx - x, 1))
                        == in_rect(px_of(i), py_of(i), x as int, y as int, w as int, yy + 1 - y) by {
                        assert(0 <= px_of(i) < WIDTH);
                    }
                }
            }
            yy = yy + 1;
        }
        proof {
            if on {
                assert forall|i: int| 0 <= i < s0.len() implies
                    in_rect(px_of(i), py_of(i), x as int, y as int, w as int, yy - y)
                    == in_rect(px_of(i), py_of(i), x as int, y as int, w as int, h as int) by {
                    assert(0 <= py_of(i) < HEIGHT);
                }
            }
        }
    }
    /// Draws ASCII character `c` (its low 7 bits select the glyph) with its
    /// top-left corner at `(x, y)`, each source pixel magnified to a `scale` by
    /// `scale` block. Only ink is drawn: background pixels keep their colour.
    pub fn draw_char(&mut self, x: usize, y: usize, c: u8, color: u32, scale: usize)
        requires
            old(self).wf(),
        ensures
            final(self).wf(),
            final(self).base_addr() == old(self).base_addr(),
            final(self).glyphs() == old(self).glyphs(),
            final(self)@ == (if old(self).base_addr() != 0 {
                glyph_painted(old(self)@, old(self).glyphs()[(c & 0x7f) as int], x as int, y as int, scale as int, color)
            } else {
                old(self)@
            }),
    {
        assert(c & 0x7f < 128u8) by (bit_vector);
        let idx: usize = (c & 0x7f) as usize;
        let glyph: [u8; 8] = self.font[idx];
        let ghost s0 = self@;
        let ghost on = self.base_addr() != 0;
        assert(glyph@ == self.glyphs()[(c & 0x7f) as int]@);
        let mut row: usize = 0;
        while row < 8
            invariant
                self.wf(),
                s0.len() == SCREEN_PIXELS,
                self.base_addr() == old(self).base_addr(),
                self.glyphs() == old(self).glyphs(),
                s0 == old(self)@,
                on == (self.base_addr() != 0),
                row <= 8,
                self@ == (if on {
                    cells_painted(s0, glyph, x as int, y as int, scale as int, color, (row * 8) as nat)
                } else {
                    s0
                }),
            decreases 8 - row,
        {
            let bits: u8 = glyph[row];
            let mut col: usize = 0;
            while col < 8
                invariant
                    self.wf(),
                    s0.len() == SCREEN_PIXELS,
                    self.base_addr() == old(self).base_addr(),
                    self.glyphs() == old(self).glyphs(),
                    on == (self.base_addr() != 0),
                    bits == glyph[row as int],
                    row < 8,
                    col <= 8,
                    self@ == (if on {
                        cells_painted(s0, glyph, x as int, y as int, scale as int, color, (row * 8 + col) as nat)
                    } else {
                        s0
                    }),
                decreases 8 - col,
            {
                let ghost n: nat = (row * 8 + col) as nat;
                assert((n + 1 - 1) / 8 == row && (n + 1 - 1) % 8 == col);
                if (bits >> (col as u8)) & 1u8 != 0 {
                    proof {
                        assert((bits >> (col as u8)) & 1u8 == 1u8) by (bit_vector)
                            requires
                                (bits >> (col as u8)) & 1u8 != 0u8,
                        ;
                    }
                    let ox = cell_origin(x, col, scale);
                    let oy = cell_origin(y, row, scale);
                    if ox.is_some() && oy.is_some() {
                        let cx = ox.unwrap();
                        let cy = oy.unwrap();
                        self.fill_rect(cx, cy, scale, scale, color);
                        proof {
                            if on {
                                assert forall|i: int| 0 <= i < s0.len() implies
                                    (in_rect(px_of(i), py_of(i), cx as int, cy as int, scale as int, scale as int)
                                        || cells_hit(glyph, x as int, y as int, scale as int, px_of(i), py_of(i), n))
                                    == cells_hit(glyph, x as int, y as int, scale as int, px_of(i), py_of(i), n + 1) by {
                                }
                                assert(self@ =~= cells_painted(s0, glyph, x as int, y as int, scale as int, color, n + 1));
                            }
                        }
                    } else {
                        proof {
                            if on {
                                assert forall|i: int| 0 <= i < s0.len() implies
                                    cells_hit(glyph, x as int, y as int, scale as int, px_of(i), py_of(i), n)
                                    == cells_hit(glyph, x as int, y as int, scale as int, px_of(i), py_of(i), n + 1) by {
                                    assert(px_of(i) < WIDTH && py_of(i) < HEIGHT);
                                }
                                assert(self@ =~= cells_painted(s0, glyph, x as int, y as int, scale as int, color, n + 1));
                            }
                        }
                    }
                } else {
                    proof {
                        assert(!glyph_bit(bits, col as int)) by (bit_vector)
                            requires
                                (bits >> (col as u8)) & 1u8 == 0u8,
                        ;
                        if on {
                            assert forall|i: int| 0 <= i < s0.len() implies
                                cells_hit(glyph, x as int, y as int, scale as int, px_of(i), py_of(i), n)
                                == cells_hit(glyph, x as int, y as int, scale as int, px_of(i), py_of(i), n + 1) by {
                            }
                            assert(self@ =~= cells_painted(s0, glyph, x as int, y as int, scale as int, color, n + 1));
                        }
                    }
                }
                col = col + 1;
            }
            row = row + 1;
        }
        proof {
            if on {
                assert forall|i: int| 0 <= i < s0.len() implies
                    cells_hit(glyph, x as int, y as int, scale as int, px_of(i), py_of(i), 64)
                    == glyph_hit(glyph, x as int, y as int, scale as int, px_of(i), py_of(i)) by {
                    lemma_all_cells_hit(glyph, x as int, y as int, scale as int, px_of(i), py_of(i));
                }
                assert(self@ =~= glyph_painted(s0, glyph, x as int, y as int, scale as int, color));
            }
        }
    }
    /// Paints the whole screen `color`.
    pub fn clear(&mut self, color: u32)
        requires
            old(self).wf(),
        ensures
            final(self).wf(),
            final(self).base_addr() == old(self).base_addr(),
            final(self).glyphs() == old(self).glyphs(),
            final(self)@ == (if old(self).base_addr() != 0 {
                Seq::new(SCREEN_PIXELS as nat, |i: int| color)
            } else {
                old(self)@
            }),
    {
        let ghost s0 = self@;
        self.fill_rect(0, 0, WIDTH, HEIGHT, color);
        proof {
            if self.base_addr() != 0 {
                assert forall|i: int| 0 <= i < SCREEN_PIXELS implies
                    in_rect(px_of(i), py_of(i), 0, 0, WIDTH as int, HEIGHT as int) by {
                }
                assert(self@ =~= Seq::new(SCREEN_PIXELS as nat, |i: int| color));
            }
        }
    }

    /// Draws the string `s` left to right starting at `(x, y)`, one glyph every
    /// `GLYPH_W * scale` pixels. No wrapping.
    pub fn draw_str(&mut self, x: usize, y: usize, s: &str, color: u32, scale: usize)
        requires
            old(self).wf(),
        ensures
            final(self).wf(),
            final(self).base_addr() == old(self).base_addr(),
            final(self).glyphs() == old(self).glyphs(),
            final(self)@ == (if old(self).base_addr() != 0 {
                text_painted(old(self)@, old(self).glyphs(), s.spec_bytes(), x as int, y as int, scale as int, color)
            } else {
                old(self)@
            }),
    {
        let bytes: &[u8] = s.as_bytes();
        let ghost s0 = self@;
        let ghost on = self.base_addr() != 0;
        let ghost glyphs = self.glyphs();
        let ghost b = bytes@;
        let ghost st: int = GLYPH_W * scale;
        let step: Option<usize> = GLYPH_W.checked_mul(scale);
        let mut cx: Option<usize> = Some(x);
        let mut i: usize = 0;
        while i < bytes.len()
            invariant
                self.wf(),
                s0.len() == SCREEN_PIXELS,
                self.base_addr() == old(self).base_addr(),
                self.glyphs() == old(self).glyphs(),
                glyphs == old(self).glyphs(),
                s0 == old(self)@,
                on == (self.base_addr() != 0),
                b == bytes@,
                b == s.spec_bytes(),
                st == GLYPH_W * scale,
                i <= b.len(),
                step == (if st <= usize::MAX { Some(st as usize) } else { None::<usize> }),
                cx == (if x + i * st <= usize::MAX { Some((x + i * st) as usize) } else { None::<usize> }),
                self@ == (if on {
                    chars_painted(s0, glyphs, b, x as int, y as int, scale as int, color, i as nat)
                } else {
                    s0
                }),
            decreases b.len() - i,
        {
            assert(i * st + st == (i + 1) * st && 0 <= i * st && 0 <= st) by (nonlinear_arith)
                requires
                    i >= 0,
                    st == 8 * scale,
                    scale >= 0,
            ;
            let c = bytes[i];
            if cx.is_some() {
                let p = cx.unwrap();
                self.draw_char(p, y, c, color, scale);
                proof {
                    if on {
                        assert forall|j: int| 0 <= j < s0.len() implies
                            (glyph_hit(glyphs[(c & 0x7f) as int], p as int, y as int, scale as int, px_of(j), py_of(j))
                                || chars_hit(glyphs, b, x as int, y as int, scale as int, px_of(j), py_of(j), i as nat))
                            == chars_hit(glyphs, b, x as int, y as int, scale as int, px_of(j), py_of(j), (i + 1) as nat) by {
                        }
                        assert(self@ =~= chars_painted(s0, glyphs, b, x as int, y as int, scale as int, color, (i + 1) as nat));
                    }
                }
                cx = match step {
                    Some(d) => p.checked_add(d),
                    None => None,
                };
            } else {
                proof {
                    if on {
                        assert forall|j: int| 0 <= j < s0.len() implies
                            chars_hit(glyphs, b, x as int, y as int, scale as int, px_of(j), py_of(j), i as nat)
                            == chars_hit(glyphs, b, x as int, y as int, scale as int, px_of(j), py_of(j), (i + 1) as nat) by {
                            assert(px_of(j) < WIDTH);
                            lemma_glyph_right_of(glyphs[(c & 0x7f) as int], x + i * st, y as int, scale as int, px_of(j), py_of(j));
                        }
                        assert(self@ =~= chars_painted(s0, glyphs, b, x as int, y as int, scale as int, color, (i + 1) as nat));
                    }
                }
            }
            i = i + 1;
        }
        proof {
            if on {
                assert forall|j: int| 0 <= j < s0.len() implies
                    chars_hit(glyphs, b, x as int, y as int, scale as int, px_of(j), py_of(j), b.len())
                    == text_hit(glyphs, b, x as int, y as int, scale as int, px_of(j), py_of(j)) by {
                    lemma_chars_hit(glyphs, b, x as int, y as int, scale as int, px_of(j), py_of(j), b.len());
                }
                assert(self@ =~= text_painted(s0, glyphs, b, x as int, y as int, scale as int, color));
            }
        }
    }
}

/// Text does not wrap: everything `bytes` inks, drawn from `(x, y)`, lies on
/// its own line, in the rows `y .. y + 8 * scale` and the columns
/// `x .. x + len * GLYPH_W * scale`.
pub proof fn lemma_text_stays_on_its_line(
    glyphs: Seq<[u8; 8]>,
    bytes: Seq<u8>,
    x: int,
    y: int,
    scale: int,
    px: int,
    py: int,
)
    requires
        scale >= 0,
        text_hit(glyphs, bytes, x, y, scale, px, py),
    ensures
        y <= py < y + 8 * scale,
        x <= px < x + bytes.len() * (GLYPH_W * scale),
{
    let k = choose|k: int| 0 <= k < bytes.len() && #[trigger] char_hit(glyphs, bytes, x, y, scale, px, py, k);
    let g = glyphs[(bytes[k] & 0x7f) as int];
    let cx = x + k * (GLYPH_W * scale);
    let (row, col) = choose|row: int, col: int|
        0 <= row < 8 && 0 <= col < 8 && #[trigger] cell_hit(g, cx, y, scale, px, py, row, col);
    assert(cell_hit(g, cx, y, scale, px, py, row, col));
    assert(0 <= row * scale && row * scale + scale <= 8 * scale && 0 <= col * scale && col * scale + scale
        <= 8 * scale) by (nonlinear_arith)
        requires
            0 <= row < 8,
            0 <= col < 8,
            scale >= 0,
    ;
    assert(0 <= k * (8 * scale) && k * (8 * scale) + 8 * scale <= bytes.len() * (8 * scale)) by (nonlinear_arith)
        requires
            0 <= k < bytes.len(),
            scale >= 0,
    ;
}

/// The screen `s` after `draw_char` is applied to the first `n` bytes of
/// `bytes` one after another, byte `k` at `x + k * GLYPH_W * scale` on row `y`.
pub open spec fn glyphs_drawn_in_order(
    s: Seq<u32>,
    glyphs: Seq<[u8; 8]>,
    bytes: Seq<u8>,
    x: int,
    y: int,
    scale: int,
    color: u32,
    n: nat,
) -> Seq<u32>
    decreases n,
{
    if n == 0 {
        s
    } else {
        glyph_painted(
            glyphs_drawn_in_order(s, glyphs, bytes, x, y, scale, color, (n - 1) as nat),
            glyphs[(bytes[n - 1] & 0x7f) as int],
            x + (n - 1) * (GLYPH_W * scale),
            y,
            scale,
            color,
        )
    }
}

proof fn lemma_chars_painted_in_order(
    s: Seq<u32>,
    glyphs: Seq<[u8; 8]>,
    bytes: Seq<u8>,
    x: int,
    y: int,
    scale: int,
    color: u32,
    n: nat,
)
    ensures
        chars_painted(s, glyphs, bytes, x, y, scale, color, n) == glyphs_drawn_in_order(
            s,
            glyphs,
            bytes,
            x,
            y,
            scale,
            color,
            n,
        ),
    decreases n,
{
    if n == 0 {
        assert(chars_painted(s, glyphs, bytes, x, y, scale, color, 0) =~= s);
    } else {
        lemma_chars_painted_in_order(s, glyphs, bytes, x, y, scale, color, (n - 1) as nat);
        assert(chars_painted(s, glyphs, bytes, x, y, scale, color, n) =~= glyphs_drawn_in_order(
            s,
            glyphs,
            bytes,
            x,
            y,
            scale,
            color,
            n,
        ));
    }
}

/// `draw_char` inks every set bit of all eight glyph rows: when bit `col` of
/// row byte `row` is set (any `row` in `0..8`, any `col` in `0..8`), every
/// on-screen pixel of the `scale` by `scale` block at
/// `(x + col * scale, y + row * scale)` gets `color`.
pub proof fn lemma_draw_char_inks_every_set_bit(
    s: Seq<u32>,
    glyph: [u8; 8],
    x: int,
    y: int,
    scale: int,
    color: u32,
    i: int,
    row: int,
    col: int,
)
    requires
        0 <= i < s.len(),
        0 <= row < 8,
        0 <= col < 8,
        (glyph[row] >> (col as u8)) & 1u8 == 1u8,
        x + col * scale <= px_of(i) < x + col * scale + scale,
        y + row * scale <= py_of(i) < y + row * scale + scale,
    ensures
        glyph_painted(s, glyph, x, y, scale, color)[i] == color,
{
    assert(cell_hit(glyph, x, y, scale, px_of(i), py_of(i), row, col));
}

/// `draw_char` inks nothing else: a pixel that no set bit's block covers keeps
/// its colour.
pub proof fn lemma_draw_char_keeps_background(
    s: Seq<u32>,
    glyph: [u8; 8],
    x: int,
    y: int,
    scale: int,
    color: u32,
    i: int,
)
    requires
        0 <= i < s.len(),
        forall|row: int, col: int|
            #![trigger glyph[row] >> (col as u8)]
            0 <= row < 8 && 0 <= col < 8 && (glyph[row] >> (col as u8)) & 1u8 == 1u8 ==> !(x + col * scale
                <= px_of(i) < x + col * scale + scale && y + row * scale <= py_of(i) < y + row * scale
                + scale),
    ensures
        glyph_painted(s, glyph, x, y, scale, color)[i] == s[i],
{
    if glyph_hit(glyph, x, y, scale, px_of(i), py_of(i)) {
        let (row, col) = choose|row: int, col: int|
            0 <= row < 8 && 0 <= col < 8 && #[trigger] cell_hit(glyph, x, y, scale, px_of(i), py_of(i), row, col);
        assert(glyph[row] >> (col as u8) == glyph[row] >> (col as u8));
    }
}

/// Drawing a string is drawing its characters one by one, in order, each
/// `GLYPH_W * scale` pixels right of the one before: `draw_str`'s result
/// (`text_painted`) equals `draw_char`'s result (`glyph_painted`) applied byte
/// by byte.
pub proof fn lemma_text_is_glyphs_in_order(
    s: Seq<u32>,
    glyphs: Seq<[u8; 8]>,
    bytes: Seq<u8>,
    x: int,
    y: int,
    scale: int,
    color: u32,
)
    ensures
        text_painted(s, glyphs, bytes, x, y, scale, color) == glyphs_drawn_in_order(
            s,
            glyphs,
            bytes,
            x,
            y,
            scale,
            color,
            bytes.len(),
        ),
{
    lemma_chars_painted_in_order(s, glyphs, bytes, x, y, scale, color, bytes.len());
    assert forall|i: int| 0 <= i < s.len() implies chars_hit(glyphs, bytes, x, y, scale, px_of(i), py_of(i), bytes.len())
        == text_hit(glyphs, bytes, x, y, scale, px_of(i), py_of(i)) by {
        lemma_chars_hit(glyphs, bytes, x, y, scale, px_of(i), py_of(i), bytes.len());
    }
    assert(text_painted(s, glyphs, bytes, x, y, scale, color) =~= chars_painted(
        s,
        glyphs,
        bytes,
        x,
        y,
        scale,
        color,
        bytes.len(),
    ));
}

/// Only the low seven bits of a character select its glyph: `draw_char` of
/// `c >= 128` draws exactly what `draw_char` of `c - 128` draws.
pub proof fn lemma_high_bit_ignored(c: u8)
    requires
        c >= 128,
    ensures
        c & 0x7f == ((c - 128) as u8) & 0x7f,
        c & 0x7f < 128,
{
    assert(c >= 128u8 ==> c & 0x7fu8 == ((c - 128u8) as u8) & 0x7fu8 && c & 0x7fu8 < 128u8) by (bit_vector);
}

/// `fill_rect` paints exactly its rectangle: a pixel `(px, py)` with
/// `x <= px < x + w` and `y <= py < y + h` gets `color`, and every other
/// pixel keeps its colour.
pub proof fn lemma_fill_rect_paints_exactly(
    s: Seq<u32>,
    x: int,
    y: int,
    w: int,
    h: int,
    color: u32,
    i: int,
)
    requires
        0 <= i < s.len(),
    ensures
        (x <= px_of(i) && px_of(i) < x + w && y <= py_of(i) && py_of(i) < y + h) ==> rect_painted(
            s,
            x,
            y,
            w,
            h,
            color,
        )[i] == color,
        !(x <= px_of(i) && px_of(i) < x + w && y <= py_of(i) && py_of(i) < y + h) ==> rect_painted(
            s,
            x,
            y,
            w,
            h,
            color,
        )[i] == s[i],
{
}

/// The big-endian encodings decode back to the value: reading the bytes of
/// `be32_bytes(v)` most significant first gives `v`, and likewise for eight
/// bytes of `be64_bytes(v)`.
pub proof fn lemma_be_bytes_round_trip(v: int, u: int)
    requires
        0 <= v < 0x1_0000_0000,
        0 <= u < 0x1_0000_0000_0000_0000,
    ensures
        be32_bytes(v).len() == 4,
        be_u32_at(be32_bytes(v), 0) == v,
        be64_bytes(u).len() == 8,
        be_u32_at(be64_bytes(u), 0) * 0x1_0000_0000 + be_u32_at(be64_bytes(u), 4) == u,
{
    let b = be32_bytes(v);
    assert(b[0] == v / 0x100_0000 % 0x100 && b[1] == v / 0x1_0000 % 0x100 && b[2] == v / 0x100 % 0x100 && b[3]
        == v % 0x100);
    assert(v == (v / 0x100_0000 % 0x100) * 0x100_0000 + (v / 0x1_0000 % 0x100) * 0x1_0000 + (v / 0x100
        % 0x100) * 0x100 + v % 0x100) by (nonlinear_arith)
        requires
            0 <= v < 0x1_0000_0000,
    ;
    let hi = u / 0x1_0000_0000;
    let lo = u % 0x1_0000_0000;
    assert(0 <= hi < 0x1_0000_0000 && 0 <= lo < 0x1_0000_0000 && hi * 0x1_0000_0000 + lo == u) by (nonlinear_arith)
        requires
            0 <= u < 0x1_0000_0000_0000_0000,
            hi == u / 0x1_0000_0000,
            lo == u % 0x1_0000_0000,
    ;
    let bh = be32_bytes(hi);
    let bl = be32_bytes(lo);
    assert(hi == (hi / 0x100_0000 % 0x100) * 0x100_0000 + (hi / 0x1_0000 % 0x100) * 0x1_0000 + (hi / 0x100
        % 0x100) * 0x100 + hi % 0x100) by (nonlinear_arith)
        requires
            0 <= hi < 0x1_0000_0000,
    ;
    assert(lo == (lo / 0x100_0000 % 0x100) * 0x100_0000 + (lo / 0x1_0000 % 0x100) * 0x1_0000 + (lo / 0x100
        % 0x100) * 0x100 + lo % 0x100) by (nonlinear_arith)
        requires
            0 <= lo < 0x1_0000_0000,
    ;
    let e = be64_bytes(u);
    assert(e == bh + bl);
    assert(e[0] == bh[0] && e[1] == bh[1] && e[2] == bh[2] && e[3] == bh[3]);
    assert(e[4] == bl[0] && e[5] == bl[1] && e[6] == bl[2] && e[7] == bl[3]);
}

/// The ramfb file is recognised by its name and nothing else: entry `k`
/// matches exactly when its name field starts with the ten bytes
/// `"etc/ramfb\0"`.
pub proof fn lemma_ramfb_name_is_etc_ramfb(dir: Seq<u8>, k: int)
    ensures
        entry_is_ramfb(dir, k) <==> ({
            let o = 4 + 64 * k + 8;
            &&& dir[o] == 0x65u8
            &&& dir[o + 1] == 0x74u8
            &&& dir[o + 2] == 0x63u8
            &&& dir[o + 3] == 0x2fu8
            &&& dir[o + 4] == 0x72u8
            &&& dir[o + 5] == 0x61u8
            &&& dir[o + 6] == 0x6du8
            &&& dir[o + 7] == 0x66u8
            &&& dir[o + 8] == 0x62u8
            &&& dir[o + 9] == 0x00u8
        }),
{
    let o = 4 + 64 * k + 8;
    assert(entry_off(k) + 8 == o);
    if entry_is_ramfb(dir, k) {
        assert(dir[o + 0] == ramfb_name()[0]);
        assert(dir[o + 1] == ramfb_name()[1]);
        assert(dir[o + 2] == ramfb_name()[2]);
        assert(dir[o + 3] == ramfb_name()[3]);
        assert(dir[o + 4] == ramfb_name()[4]);
        assert(dir[o + 5] == ramfb_name()[5]);
        assert(dir[o + 6] == ramfb_name()[6]);
        assert(dir[o + 7] == ramfb_name()[7]);
        assert(dir[o + 8] == ramfb_name()[8]);
        assert(dir[o + 9] == ramfb_name()[9]);
    }
}

/// Where the framebuffer lives: the scanout memory taken for it and the
/// fw_cfg selector key of the ramfb configuration file.
pub struct RamfbSetup {
    pub base: usize,
    pub selector: u16,
}

impl RamfbSetup {
    /// The ramfb configuration (28 big-endian bytes) that points QEMU's
    /// scanout at `base`.
    pub fn ramfb_config(&self) -> (r: Vec<u8>)
        ensures
            r@ == ramfb_config_spec(self.base as int),
    {
        let mut r: Vec<u8> = Vec::new();
        push_be64(&mut r, self.base as u64);
        push_be32(&mut r, FOURCC_XR24);
        push_be32(&mut r, 0);
        push_be32(&mut r, WIDTH as u32);
        push_be32(&mut r, HEIGHT as u32);
        push_be32(&mut r, STRIDE as u32);
        assert(r@ =~= ramfb_config_spec(self.base as int));
        r
    }

    /// The fw_cfg DMA control word that selects the ramfb file and writes to it.
    pub fn dma_control(&self) -> (r: u32)
        ensures
            r == dma_control_spec(self.selector as int),
    {
        let sel: u32 = self.selector as u32;
        let r: u32 = (sel << 16) | DMA_SELECT | DMA_WRITE;
        assert(r == sel * 0x1_0000 + 0x18) by (bit_vector)
            requires
                sel < 0x1_0000,
                r == (sel << 16) | 8u32 | 16u32,
        ;
        r
    }
}

/// Finds the ramfb file in the fw_cfg directory image `dir` and takes one
/// screen of scanout memory from `frames`. `None` when ramfb is absent (no
/// memory is taken then) or RAM is exhausted.
pub fn init(dir: &[u8], frames: &mut FrameAllocator) -> (r: Option<RamfbSetup>)
    requires
        (exists|k: int| 0 <= k < dir_scanned(dir@) && #[trigger] entry_is_ramfb(dir@, k))
            ==> old(frames)@ + FB_BYTES <= usize::MAX,
    ensures
        r matches Some(setup) ==> {
            &&& setup.base == old(frames)@
            &&& bump_result(old(frames)@ as int, FB_BYTES as int) == Some(old(frames)@ as int)
            &&& exists|k: int|
                0 <= k < dir_scanned(dir@) && #[trigger] entry_is_ramfb(dir@, k)
                    && setup.selector == entry_selector(dir@, k)
                    && forall|k2: int| 0 <= k2 < k ==> !#[trigger] entry_is_ramfb(dir@, k2)
        },
        r is None ==> (forall|k: int| 0 <= k < dir_scanned(dir@) ==> !#[trigger] entry_is_ramfb(dir@, k))
            || bump_result(old(frames)@ as int, FB_BYTES as int) is None,
        (exists|k: int| 0 <= k < dir_scanned(dir@) && #[trigger] entry_is_ramfb(dir@, k))
            ==> final(frames)@ == old(frames)@ + FB_BYTES,
        (forall|k: int| 0 <= k < dir_scanned(dir@) ==> !#[trigger] entry_is_ramfb(dir@, k))
            ==> final(frames)@ == old(frames)@,
{
    let sel = match find_ramfb_selector(dir) {
        Some(s) => s,
        None => {
            return None;
        },
    };
    assert(frame_align_up(FB_BYTES as int) == FB_BYTES);
    let p = match alloc_contig(frames, FB_BYTES) {
        Some(p) => p,
        None => {
            return None;
        },
    };
    Some(RamfbSetup { base: p, selector: sel })
}

} // verus!
