//! Pixels, regions and the colours of the user interface.
//!
//! A pixel buffer is a row-major run of bytes. Its rows are `stride` bytes
//! apart and each pixel takes `bpp` bytes. What a drawing function leaves in a
//! buffer is given by spec functions from bytes to bytes.
use vstd::prelude::*;

use crate::bytes::spliced;

verus! {

// User interface colours, as 0x00RRGGBB.
pub const COLOR_BLACK: u32 = 0x000000;
pub const COLOR_WHITE: u32 = 0xFFFFFF;
pub const COLOR_GRAY: u32 = 0x606060;
pub const COLOR_DARK_GRAY: u32 = 0x404040;

// Theme palette.
pub const BAR_BG: u32 = 0x1a1a2e;
pub const BAR_TEXT: u32 = 0xc8c8d0;
pub const DESKTOP_BG: u32 = 0x2a2a3a;
pub const WIN_BORDER: u32 = 0x5a5a6e;
pub const WIN_TITLEBAR: u32 = 0x3a3a50;
pub const WIN_TITLEBAR_ACTIVE: u32 = 0x4a4a6a;
pub const WIN_TITLE_TEXT: u32 = 0xe0e0e8;
pub const WIN_BODY_BG: u32 = 0x0c0c14;
pub const ACCENT: u32 = 0x6a7abb;
pub const ACCENT_ACTIVE: u32 = 0xe8ecff;
pub const DESKTOP_HOVER_BG: u32 = 0x3a3a50;
pub const BTN_HOVER_BG: u32 = 0x2e2e44;
pub const BTN_HOVER_BORDER: u32 = 0x8a8a9e;
pub const BTN_CLOSE_HOVER_BG: u32 = 0x6b2020;
pub const BTN_CLOSE_HOVER_BORDER: u32 = 0xd06060;

// Scrollbar colours.
pub const SB_BG: u32 = WIN_TITLEBAR;
pub const SB_TRACK: u32 = BAR_BG;
pub const SB_ARROW_HOVER: u32 = 0x4a4a64;
pub const SB_ARROW_COLOR: u32 = BAR_TEXT;

/// `buf` with the byte at `i` replaced, where there is one.
pub open spec fn byte_put(buf: Seq<u8>, i: int, b: u8) -> Seq<u8> {
    if 0 <= i < buf.len() { buf.update(i, b) } else { buf }
}

/// The bytes of a pixel buffer after one pixel at byte `offset` took `color`.
pub open spec fn pixel_written(buf: Seq<u8>, offset: int, color: u32, bpp: int) -> Seq<u8> {
    if bpp == 1 {
        byte_put(buf, offset, color as u8)
    } else if bpp == 3 {
        byte_put(
            byte_put(byte_put(buf, offset, color as u8), offset + 1, (color >> 8) as u8),
            offset + 2,
            (color >> 16) as u8,
        )
    } else {
        buf
    }
}

/// `n` pixels in a row, the first at byte `offset`, all of one colour.
pub open spec fn span_filled(buf: Seq<u8>, offset: int, n: nat, color: u32, bpp: int) -> Seq<u8>
    decreases n,
{
    if n == 0 {
        buf
    } else {
        pixel_written(
            span_filled(buf, offset, (n - 1) as nat, color, bpp),
            offset + (n - 1) * bpp,
            color,
            bpp,
        )
    }
}

/// `h` rows of `w` pixels each, the first row at byte `start`, all of one colour.
pub open spec fn block_filled(
    buf: Seq<u8>,
    start: int,
    stride: int,
    w: nat,
    h: nat,
    color: u32,
    bpp: int,
) -> Seq<u8>
    decreases h,
{
    if h == 0 {
        buf
    } else {
        span_filled(
            block_filled(buf, start, stride, w, (h - 1) as nat, color, bpp),
            start + (h - 1) * stride,
            w,
            color,
            bpp,
        )
    }
}

/// A block of `h` rows of `w` pixels at byte `start` lies inside `len` bytes.
pub open spec fn block_fits(len: int, start: int, stride: int, w: int, h: int, bpp: int) -> bool {
    w == 0 || h == 0 || start + (h - 1) * stride + w * bpp <= len
}

/// The first `rows` rows of `len` bytes each, copied from `src` into `dst`.
pub open spec fn rows_copied(
    dst: Seq<u8>,
    dst_start: int,
    dst_stride: int,
    src: Seq<u8>,
    src_start: int,
    src_stride: int,
    len: int,
    rows: nat,
) -> Seq<u8>
    decreases rows,
{
    if rows == 0 {
        dst
    } else {
        let s = src_start + (rows - 1) * src_stride;
        spliced(
            rows_copied(
                dst, dst_start, dst_stride, src, src_start, src_stride, len, (rows - 1) as nat,
            ),
            dst_start + (rows - 1) * dst_stride,
            src.subrange(s, s + len),
        )
    }
}

pub proof fn lemma_span_len(buf: Seq<u8>, offset: int, n: nat, color: u32, bpp: int)
    ensures
        span_filled(buf, offset, n, color, bpp).len() == buf.len(),
    decreases n,
{
    if n > 0 {
        lemma_span_len(buf, offset, (n - 1) as nat, color, bpp);
    }
}

pub proof fn lemma_block_len(
    buf: Seq<u8>, start: int, stride: int, w: nat, h: nat, color: u32, bpp: int,
)
    ensures
        block_filled(buf, start, stride, w, h, color, bpp).len() == buf.len(),
    decreases h,
{
    if h > 0 {
        lemma_block_len(buf, start, stride, w, (h - 1) as nat, color, bpp);
        lemma_span_len(
            block_filled(buf, start, stride, w, (h - 1) as nat, color, bpp),
            start + (h - 1) * stride, w, color, bpp,
        );
    }
}

/// Nothing changes where the block has no columns.
pub proof fn lemma_block_empty(
    buf: Seq<u8>, start: int, stride: int, h: nat, color: u32, bpp: int,
)
    ensures
        block_filled(buf, start, stride, 0, h, color, bpp) == buf,
    decreases h,
{
    if h > 0 {
        lemma_block_empty(buf, start, stride, (h - 1) as nat, color, bpp);
    }
}

pub proof fn lemma_rows_copied_len(
    dst: Seq<u8>, dst_start: int, dst_stride: int,
    src: Seq<u8>, src_start: int, src_stride: int, len: int, rows: nat,
)
    ensures
        rows_copied(dst, dst_start, dst_stride, src, src_start, src_stride, len, rows).len()
            == dst.len(),
    decreases rows,
{
    if rows > 0 {
        lemma_rows_copied_len(
            dst, dst_start, dst_stride, src, src_start, src_stride, len, (rows - 1) as nat,
        );
    }
}

/// One byte of the colour as a pixel of `bpp` bytes holds it.
pub open spec fn color_byte(color: u32, i: int) -> u8 {
    if i == 0 {
        color as u8
    } else if i == 1 {
        (color >> 8) as u8
    } else {
        (color >> 16) as u8
    }
}

/// A filled span holds the colour inside and the old bytes outside.
pub proof fn lemma_span_bytes(buf: Seq<u8>, offset: int, n: nat, color: u32, bpp: int)
    requires
        bpp == 1 || bpp == 3,
        0 <= offset,
        offset + n * bpp <= buf.len(),
    ensures
        forall|k: int|
            0 <= k < buf.len() ==> #[trigger] span_filled(buf, offset, n, color, bpp)[k] == (
            if offset <= k < offset + n * bpp {
                color_byte(color, (k - offset) % bpp)
            } else {
                buf[k]
            }),
    decreases n,
{
    lemma_span_len(buf, offset, n, color, bpp);
    if n > 0 {
        assert((n - 1) * bpp + bpp == n * bpp) by (nonlinear_arith);
        lemma_span_len(buf, offset, (n - 1) as nat, color, bpp);
        lemma_span_bytes(buf, offset, (n - 1) as nat, color, bpp);
        let base = offset + (n - 1) * bpp;
        assert forall|k: int| base <= k < base + bpp implies #[trigger] ((k - offset) % bpp) == k - base by {
            let m = n - 1;
            assert((k - offset) == m * bpp + (k - base));
            assert((m * bpp + (k - base)) % bpp == k - base) by (nonlinear_arith)
                requires 0 <= k - base < bpp, bpp > 0;
        }
    }
}

/// A filled block holds the colour in its rows, and the old bytes everywhere else.
pub proof fn block_fill_paints_exactly_the_block(
    buf: Seq<u8>, start: int, stride: int, w: nat, h: nat, color: u32, bpp: int,
)
    requires
        bpp == 1 || bpp == 3,
        0 <= start,
        w > 0,
        w * bpp <= stride,
        block_fits(buf.len() as int, start, stride, w as int, h as int, bpp),
    ensures
        forall|r: int, c: int, b: int|
            0 <= r < h && 0 <= c < w && 0 <= b < bpp ==>
            #[trigger] block_filled(buf, start, stride, w, h, color, bpp)[
                start + r * stride + c * bpp + b] == color_byte(color, b),
        forall|k: int|
            0 <= k < buf.len() && !(exists|r: int| 0 <= r < h
                && #[trigger] (start + r * stride) <= k < start + r * stride + w * bpp)
            ==> #[trigger] block_filled(buf, start, stride, w, h, color, bpp)[k] == buf[k],
    decreases h,
{
    if h > 0 {
        let h1 = (h - 1) as nat;
        let prev = block_filled(buf, start, stride, w, h1, color, bpp);
        let cur = block_filled(buf, start, stride, w, h, color, bpp);
        lemma_block_len(buf, start, stride, w, h1, color, bpp);
        let row = start + h1 * stride;
        assert(h1 * stride >= 0) by (nonlinear_arith) requires h1 >= 0, stride >= 0;
        assert((h1 - 1) * stride <= h1 * stride) by (nonlinear_arith) requires stride >= 0;
        block_fill_paints_exactly_the_block(buf, start, stride, w, h1, color, bpp);
        lemma_span_bytes(prev, row, w, color, bpp);
        assert forall|r: int, c: int, b: int| 0 <= r < h && 0 <= c < w && 0 <= b < bpp implies
            #[trigger] cur[start + r * stride + c * bpp + b] == color_byte(color, b) by {
            let k = start + r * stride + c * bpp + b;
            assert(0 <= c * bpp && c * bpp + b < w * bpp) by (nonlinear_arith)
                requires 0 <= c < w, 0 <= b < bpp;
            assert(0 <= r * stride) by (nonlinear_arith) requires 0 <= r, 0 <= stride;
            if r == h1 {
                assert(k - row == c * bpp + b);
                assert((c * bpp + b) % bpp == b) by (nonlinear_arith) requires 0 <= b < bpp;
            } else {
                assert(r * stride + stride <= h1 * stride) by (nonlinear_arith)
                    requires r + 1 <= h1, stride >= 0;
                assert(prev[start + r * stride + c * bpp + b] == color_byte(color, b));
                assert(k < row);
                assert(cur[k] == prev[k]);
            }
        }
        assert forall|k: int|
            0 <= k < buf.len() && !(exists|r: int| 0 <= r < h
                && #[trigger] (start + r * stride) <= k < start + r * stride + w * bpp) implies
            #[trigger] cur[k] == buf[k] by {
            assert(!(start + h1 * stride <= k < start + h1 * stride + w * bpp));
            assert(cur[k] == prev[k]);
            assert(!(exists|r: int| 0 <= r < h1
                && #[trigger] (start + r * stride) <= k < start + r * stride + w * bpp)) by {
                if exists|r: int| 0 <= r < h1
                    && #[trigger] (start + r * stride) <= k < start + r * stride + w * bpp {
                    let r = choose|r: int| 0 <= r < h1
                        && #[trigger] (start + r * stride) <= k < start + r * stride + w * bpp;
                    assert(0 <= r < h && (start + r * stride) <= k < start + r * stride + w * bpp);
                }
            }
        }
    }
}

/// Store `color` at byte `offset`: one byte, or blue, green and red.
pub fn write_pixel(buffer: &mut [u8], offset: usize, color: u32, bytes_per_pixel: usize)
    requires
        bytes_per_pixel == 1 ==> offset < old(buffer)@.len(),
        bytes_per_pixel == 3 ==> offset + 2 < old(buffer)@.len(),
    ensures
        final(buffer)@ == pixel_written(old(buffer)@, offset as int, color, bytes_per_pixel as int),
{
    match bytes_per_pixel {
        1 => {
            buffer[offset] = color as u8;
        }
        3 => {
            buffer[offset] = color as u8;
            buffer[offset + 1] = (color >> 8) as u8;
            buffer[offset + 2] = (color >> 16) as u8;
        }
        _ => {}
    }
}

/// Fill `n` pixels in a row, the first at byte `offset`.
pub fn fill_span(buffer: &mut [u8], offset: usize, n: usize, color: u32, bpp: usize)
    requires
        1 <= bpp <= 4,
        offset + n * bpp <= old(buffer)@.len(),
    ensures
        final(buffer)@ == span_filled(old(buffer)@, offset as int, n as nat, color, bpp as int),
{
    let ghost before = buffer@;
    let capacity: usize = buffer.len();
    let mut i: usize = 0;
    while i < n
        invariant
            i <= n,
            1 <= bpp <= 4,
            buffer@ == span_filled(before, offset as int, i as nat, color, bpp as int),
            buffer@.len() == before.len() == capacity,
            offset + n * bpp <= before.len(),
        decreases n - i,
    {
        assert((i + 1) * bpp == i * bpp + bpp) by (nonlinear_arith);
        assert((i + 1) * bpp <= n * bpp) by (nonlinear_arith)
            requires i + 1 <= n;
        assert(i * bpp >= 0) by (nonlinear_arith) requires i >= 0, bpp >= 0;
        write_pixel(buffer, offset + i * bpp, color, bpp);
        i += 1;
        proof { lemma_span_len(before, offset as int, i as nat, color, bpp as int); }
    }
}

/// Fill `h` rows of `w` pixels, the first row at byte `start`.
pub fn fill_block(
    buffer: &mut [u8],
    start: usize,
    stride: usize,
    w: usize,
    h: usize,
    color: u32,
    bpp: usize,
)
    requires
        1 <= bpp <= 4,
        block_fits(old(buffer)@.len() as int, start as int, stride as int, w as int, h as int, bpp as int),
    ensures
        final(buffer)@ == block_filled(
            old(buffer)@, start as int, stride as int, w as nat, h as nat, color, bpp as int,
        ),
{
    let ghost before = buffer@;
    let capacity: usize = buffer.len();
    if w == 0 {
        proof { lemma_block_empty(before, start as int, stride as int, h as nat, color, bpp as int); }
        return;
    }
    let mut row: usize = 0;
    while row < h
        invariant
            row <= h,
            w > 0,
            1 <= bpp <= 4,
            buffer@ == block_filled(
                before, start as int, stride as int, w as nat, row as nat, color, bpp as int,
            ),
            buffer@.len() == before.len() == capacity,
            block_fits(before.len() as int, start as int, stride as int, w as int, h as int, bpp as int),
        decreases h - row,
    {
        assert(row * stride <= (h - 1) * stride) by (nonlinear_arith)
            requires row <= h - 1, 0 <= stride;
        assert(0 <= row * stride) by (nonlinear_arith) requires 0 <= row, 0 <= stride;
        assert(w * bpp >= 0) by (nonlinear_arith) requires w >= 0, bpp >= 0;
        fill_span(buffer, start + row * stride, w, color, bpp);
        row += 1;
        proof {
            lemma_block_len(before, start as int, stride as int, w as nat, row as nat, color, bpp as int);
        }
    }
}

/// Copy `len` bytes of `src` from `src_offset` over `dst` from `dst_offset`.
pub fn copy_span(dst: &mut [u8], dst_offset: usize, src: &[u8], src_offset: usize, len: usize)
    requires
        dst_offset + len <= old(dst)@.len(),
        src_offset + len <= src@.len(),
    ensures
        final(dst)@ == spliced(
            old(dst)@, dst_offset as int, src@.subrange(src_offset as int, src_offset + len),
        ),
{
    let ghost before = dst@;
    let dst_len: usize = dst.len();
    let src_len: usize = src.len();
    let mut i: usize = 0;
    while i < len
        invariant
            i <= len,
            dst@.len() == before.len() == dst_len,
            src@.len() == src_len,
            dst_offset + len <= before.len(),
            src_offset + len <= src@.len(),
            forall|k: int| 0 <= k < before.len() ==> #[trigger] dst@[k] == (
                if dst_offset <= k < dst_offset + i { src@[src_offset + (k - dst_offset)] }
                else { before[k] }),
        decreases len - i,
    {
        dst[dst_offset + i] = src[src_offset + i];
        i += 1;
    }
    assert(dst@ =~= spliced(
        before, dst_offset as int, src@.subrange(src_offset as int, src_offset + len),
    ));
}

/// Copy `rows` rows of `len` bytes each from `src` to `dst`.
pub fn copy_rows(
    dst: &mut [u8],
    dst_start: usize,
    dst_stride: usize,
    src: &[u8],
    src_start: usize,
    src_stride: usize,
    len: usize,
    rows: usize,
)
    requires
        rows > 0 ==> dst_start + (rows - 1) * dst_stride + len <= old(dst)@.len(),
        rows > 0 ==> src_start + (rows - 1) * src_stride + len <= src@.len(),
    ensures
        final(dst)@ == rows_copied(
            old(dst)@, dst_start as int, dst_stride as int,
            src@, src_start as int, src_stride as int, len as int, rows as nat,
        ),
{
    let ghost before = dst@;
    let dst_len: usize = dst.len();
    let src_len: usize = src.len();
    let mut row: usize = 0;
    while row < rows
        invariant
            row <= rows,
            rows > 0 ==> dst_start + (rows - 1) * dst_stride + len <= before.len(),
            rows > 0 ==> src_start + (rows - 1) * src_stride + len <= src@.len(),
            dst@.len() == before.len() == dst_len,
            src@.len() == src_len,
            dst@ == rows_copied(
                before, dst_start as int, dst_stride as int,
                src@, src_start as int, src_stride as int, len as int, row as nat,
            ),
        decreases rows - row,
    {
        assert(row * dst_stride <= (rows - 1) * dst_stride) by (nonlinear_arith)
            requires row <= rows - 1, 0 <= dst_stride;
        assert(row * src_stride <= (rows - 1) * src_stride) by (nonlinear_arith)
            requires row <= rows - 1, 0 <= src_stride;
        assert(0 <= row * dst_stride) by (nonlinear_arith) requires 0 <= row, 0 <= dst_stride;
        assert(0 <= row * src_stride) by (nonlinear_arith) requires 0 <= row, 0 <= src_stride;
        copy_span(dst, dst_start + row * dst_stride, src, src_start + row * src_stride, len);
        row += 1;
    }
}

#[derive(Clone, Copy, PartialEq, Eq, Structural, Debug)]
pub struct Point {
    pub x: u16,
    pub y: u16,
}

#[derive(Clone, Copy, PartialEq, Eq, Structural, Debug)]
pub struct Region {
    pub x: u16,
    pub y: u16,
    pub width: u16,
    pub height: u16,
}

impl Region {
    /// The right and bottom edges have 16-bit coordinates.
    pub open spec fn wf(&self) -> bool {
        self.x + self.width <= u16::MAX && self.y + self.height <= u16::MAX
    }

    pub open spec fn right(&self) -> int {
        self.x + self.width
    }

    pub open spec fn bottom(&self) -> int {
        self.y + self.height
    }

    /// The region holds the pixel at `(px, py)`.
    pub open spec fn holds(&self, px: int, py: int) -> bool {
        self.x <= px < self.right() && self.y <= py < self.bottom()
    }

    /// The closed rectangles share a point, an edge or corner counts.
    pub open spec fn touches(&self, other: &Region) -> bool {
        self.x <= other.right() && other.x <= self.right()
            && self.y <= other.bottom() && other.y <= self.bottom()
    }

    /// Every edge of `other` lies within this region.
    pub open spec fn encloses(&self, other: &Region) -> bool {
        self.x <= other.x && other.right() <= self.right()
            && self.y <= other.y && other.bottom() <= self.bottom()
    }

    pub fn intersects(&self, other: &Region) -> (r: bool)
        requires
            self.wf(),
            other.wf(),
        ensures
            r == self.touches(other),
    {
        if self.x > other.x + other.width {
            return false;
        }
        if other.x > self.x + self.width {
            return false;
        }
        if self.y > other.y + other.height {
            return false;
        }
        if other.y > self.y + self.height {
            return false;
        }
        true
    }

    pub fn fully_contains(&self, other: &Region) -> (r: bool)
        requires
            self.wf(),
            other.wf(),
        ensures
            r == self.encloses(other),
    {
        if self.x > other.x {
            return false;
        }
        if self.x + self.width < other.x + other.width {
            return false;
        }
        if self.y > other.y {
            return false;
        }
        if self.y + self.height < other.y + other.height {
            return false;
        }
        true
    }

    /// The smallest region that encloses both.
    pub fn merge(&self, other: &Region) -> (r: Region)
        requires
            self.wf(),
            other.wf(),
        ensures
            r.wf(),
            r == self.merged(other),
    {
        let x1: u16 = if self.x <= other.x { self.x } else { other.x };
        let y1: u16 = if self.y <= other.y { self.y } else { other.y };
        let sx: u16 = self.x + self.width;
        let ox: u16 = other.x + other.width;
        let sy: u16 = self.y + self.height;
        let oy: u16 = other.y + other.height;
        let x2: u16 = if sx >= ox { sx } else { ox };
        let y2: u16 = if sy >= oy { sy } else { oy };
        Region { x: x1, y: y1, width: x2 - x1, height: y2 - y1 }
    }

    pub open spec fn merged(&self, other: &Region) -> Region {
        let x1 = if self.x <= other.x { self.x } else { other.x };
        let y1 = if self.y <= other.y { self.y } else { other.y };
        let x2 = if self.right() >= other.right() { self.right() } else { other.right() };
        let y2 = if self.bottom() >= other.bottom() { self.bottom() } else { other.bottom() };
        Region { x: x1, y: y1, width: (x2 - x1) as u16, height: (y2 - y1) as u16 }
    }
}

/// A merged region encloses both parts, and every region that encloses both
/// parts encloses the merged one.
pub proof fn merge_is_least_enclosing(a: Region, b: Region, c: Region)
    requires
        a.wf(),
        b.wf(),
    ensures
        a.merged(&b).encloses(&a),
        a.merged(&b).encloses(&b),
        c.encloses(&a) && c.encloses(&b) ==> c.encloses(&a.merged(&b)),
        a.merged(&b) == b.merged(&a),
{
}

/// Enclosing is a partial order on regions, and a region touches what it encloses.
pub proof fn encloses_is_an_order(a: Region, b: Region, c: Region)
    ensures
        a.encloses(&a),
        a.encloses(&b) && b.encloses(&c) ==> a.encloses(&c),
        a.encloses(&b) && b.encloses(&a) ==> a == b,
        a.encloses(&b) ==> a.touches(&b),
        a.touches(&b) == b.touches(&a),
{
}

/// Some region of the list encloses `region`.
pub open spec fn covered(regions: Seq<Region>, region: Region) -> bool {
    exists|i: int| 0 <= i < regions.len() && (#[trigger] regions[i]).encloses(&region)
}

/// The list of dirty regions after `region` was marked.
pub open spec fn dirty_with(regions: Seq<Region>, region: Region) -> Seq<Region> {
    if covered(regions, region) { regions } else { regions.push(region) }
}

pub open spec fn regions_wf(regions: Seq<Region>) -> bool {
    forall|i: int| 0 <= i < regions.len() ==> (#[trigger] regions[i]).wf()
}

/// Every region lies within a screen of `w` by `h` pixels.
pub open spec fn regions_within(regions: Seq<Region>, w: int, h: int) -> bool {
    forall|i: int| 0 <= i < regions.len() ==> (#[trigger] regions[i]).right() <= w
        && regions[i].bottom() <= h
}

/// Append `region` unless a region of the list already encloses it.
pub fn add_dirty_region(regions: &mut Vec<Region>, region: Region)
    requires
        regions_wf(old(regions)@),
        region.wf(),
    ensures
        final(regions)@ == dirty_with(old(regions)@, region),
        regions_wf(final(regions)@),
{
    let mut i: usize = 0;
    while i < regions.len()
        invariant
            i <= regions.len(),
            regions@ == old(regions)@,
            regions_wf(regions@),
            region.wf(),
            forall|j: int| 0 <= j < i ==> !(#[trigger] regions@[j]).encloses(&region),
        decreases regions.len() - i,
    {
        if regions[i].fully_contains(&region) {
            assert(covered(old(regions)@, region));
            return;
        }
        i += 1;
    }
    regions.push(region);
}

/// What was marked stays covered: nothing is lost by skipping an enclosed region.
pub proof fn marked_regions_stay_covered(regions: Seq<Region>, region: Region, other: Region)
    ensures
        covered(dirty_with(regions, region), region),
        covered(regions, other) ==> covered(dirty_with(regions, region), other),
{
    let after = dirty_with(regions, region);
    if !covered(regions, region) {
        assert(after[after.len() - 1].encloses(&region));
    }
    if covered(regions, other) {
        let i = choose|i: int| 0 <= i < regions.len() && (#[trigger] regions[i]).encloses(&other);
        assert(after[i].encloses(&other));
    }
}

/// A window onto a pixel buffer: `width` by `height` pixels whose first byte is
/// `origin`, with rows `stride` bytes apart.
pub struct Framebuffer {
    pub width: u16,
    pub height: u16,
    pub stride: u16,
    pub origin: usize,
    pub pixels: Vec<u8>,
}

/// What a framebuffer is, as a value.
pub struct Frame {
    pub width: u16,
    pub height: u16,
    pub stride: u16,
    pub origin: int,
    pub pixels: Seq<u8>,
}

impl View for Framebuffer {
    type V = Frame;

    open spec fn view(&self) -> Frame {
        Frame {
            width: self.width,
            height: self.height,
            stride: self.stride,
            origin: self.origin as int,
            pixels: self.pixels@,
        }
    }
}

impl Frame {
    /// The byte where the pixel at `(x, y)` starts.
    pub open spec fn at(&self, x: int, y: int, bpp: int) -> int {
        self.origin + y * self.stride + x * bpp
    }

    /// The same geometry and the same number of bytes.
    pub open spec fn same_shape(&self, other: Frame) -> bool {
        self.width == other.width && self.height == other.height && self.stride == other.stride
            && self.origin == other.origin && self.pixels.len() == other.pixels.len()
    }

    /// The same geometry over other bytes.
    pub open spec fn with(&self, pixels: Seq<u8>) -> Frame {
        Frame { pixels, ..*self }
    }

    /// The frame after a block of `w` by `h` pixels at `(x, y)` was filled.
    pub open spec fn filled(&self, x: int, y: int, w: int, h: int, color: u32, bpp: int) -> Frame {
        self.with(
            block_filled(
                self.pixels, self.at(x, y, bpp), self.stride as int, w as nat, h as nat, color, bpp,
            ),
        )
    }

    /// The block of `w` by `h` pixels at `(x, y)` lies in the buffer.
    pub open spec fn fits(&self, x: int, y: int, w: int, h: int, bpp: int) -> bool {
        w == 0 || h == 0
            || self.at(x, y, bpp) + (h - 1) * self.stride + w * bpp <= self.pixels.len()
    }
}

/// A block inside a block that fits, fits.
pub proof fn lemma_sub_block_fits(
    frame: Frame, bx: int, by: int, bw: int, bh: int, x: int, y: int, w: int, h: int, bpp: int,
)
    requires
        frame.fits(bx, by, bw, bh, bpp),
        bx <= x,
        by <= y,
        0 <= w,
        0 <= h,
        x + w <= bx + bw,
        y + h <= by + bh,
        0 <= bpp,
    ensures
        frame.fits(x, y, w, h, bpp),
{
    if w != 0 && h != 0 {
        let stride = frame.stride as int;
        assert(y * stride + (h - 1) * stride == (y + h - 1) * stride) by (nonlinear_arith);
        assert(by * stride + (bh - 1) * stride == (by + bh - 1) * stride) by (nonlinear_arith);
        assert((y + h - 1) * stride <= (by + bh - 1) * stride) by (nonlinear_arith)
            requires y + h - 1 <= by + bh - 1, 0 <= stride;
        assert(x * bpp + w * bpp == (x + w) * bpp) by (nonlinear_arith);
        assert(bx * bpp + bw * bpp == (bx + bw) * bpp) by (nonlinear_arith);
        assert((x + w) * bpp <= (bx + bw) * bpp) by (nonlinear_arith)
            requires x + w <= bx + bw, 0 <= bpp;
    }
}

/// The last byte of a rectangle on a screen that fits, is in the buffer.
pub proof fn lemma_rect_in_screen(
    frame: Frame, sw: int, sh: int, x: int, y: int, w: int, h: int, bpp: int,
)
    requires
        frame.fits(0, 0, sw, sh, bpp),
        frame.origin == 0,
        1 <= sw,
        1 <= h,
        0 <= x,
        0 <= y,
        0 <= w,
        x + w <= sw,
        y + h <= sh,
        0 <= bpp,
    ensures
        frame.at(x, y, bpp) + (h - 1) * frame.stride + w * bpp <= frame.pixels.len(),
        0 <= frame.at(x, y, bpp),
        0 <= (h - 1) * frame.stride,
        0 <= w * bpp,
{
    let stride = frame.stride as int;
    assert(y * stride + (h - 1) * stride == (y + h - 1) * stride) by (nonlinear_arith);
    assert((y + h - 1) * stride <= (sh - 1) * stride) by (nonlinear_arith)
        requires y + h - 1 <= sh - 1, 0 <= stride;
    assert(x * bpp + w * bpp == (x + w) * bpp) by (nonlinear_arith);
    assert((x + w) * bpp <= sw * bpp) by (nonlinear_arith) requires x + w <= sw, 0 <= bpp;
    assert(0 <= y * stride) by (nonlinear_arith) requires 0 <= y, 0 <= stride;
    assert(0 <= x * bpp) by (nonlinear_arith) requires 0 <= x, 0 <= bpp;
    assert(0 <= w * bpp) by (nonlinear_arith) requires 0 <= w, 0 <= bpp;
    assert(0 <= (h - 1) * stride) by (nonlinear_arith) requires 1 <= h, 0 <= stride;
}

impl Framebuffer {
    /// Fill a block of `w` by `h` pixels at `(x, y)`.
    pub fn fill(&mut self, x: usize, y: usize, w: usize, h: usize, color: u32, bpp: usize)
        requires
            1 <= bpp <= 4,
            old(self)@.fits(x as int, y as int, w as int, h as int, bpp as int),
        ensures
            final(self)@ == old(self)@.filled(
                x as int, y as int, w as int, h as int, color, bpp as int,
            ),
            final(self)@.same_shape(old(self)@),
    {
        let ghost before = self@;
        let stride: usize = self.stride as usize;
        if w == 0 || h == 0 {
            proof {
                lemma_block_empty(
                    before.pixels, before.at(x as int, y as int, bpp as int), stride as int,
                    h as nat, color, bpp as int,
                );
            }
            return;
        }
        proof {
            assert(0 <= y * stride) by (nonlinear_arith) requires 0 <= y, 0 <= stride;
            assert(0 <= x * bpp) by (nonlinear_arith) requires 0 <= x, 0 <= bpp;
            assert(0 <= w * bpp) by (nonlinear_arith) requires 0 <= w, 0 <= bpp;
            assert(0 <= (h - 1) * stride) by (nonlinear_arith) requires 1 <= h, 0 <= stride;
        }
        let capacity: usize = self.pixels.len();
        let start: usize = self.origin + y * stride + x * bpp;
        proof {
            lemma_block_len(
                before.pixels, start as int, stride as int, w as nat, h as nat, color, bpp as int,
            );
        }
        fill_block(self.pixels.as_mut_slice(), start, stride, w, h, color, bpp);
    }
}

} // verus!
