//! The pixel geometry of the renderer's framebuffer operations: which part
//! of a rectangle lands inside the framebuffer, whether a frame carries
//! enough bytes, and how pixel rows are gathered between strides. The
//! renderer issues the device calls with these values.
use vstd::prelude::*;

verus! {

/// A half-open box of framebuffer pixels.
#[derive(Debug, Clone, Copy, PartialEq, Eq, Structural)]
pub struct PixelBox {
    pub left: u32,
    pub top: u32,
    pub right: u32,
    pub bottom: u32,
}

pub open spec fn min_int(a: int, b: int) -> int {
    if a < b {
        a
    } else {
        b
    }
}

/// Writing a `w`x`h` RGBA rectangle at (`x`, `y`) from `have` bytes laid
/// out `4 * w` bytes per row: nothing for an empty rectangle, one that
/// starts outside the framebuffer, or too few bytes; else the destination
/// box, clipped to the framebuffer.
pub open spec fn spec_update_box(x: u16, y: u16, w: u16, h: u16, have: nat, fb_w: u32, fb_h: u32) -> Option<PixelBox> {
    if w == 0 || h == 0 || x >= fb_w || y >= fb_h || have < 4 * w * h {
        None
    } else {
        Some(
            PixelBox {
                left: x as u32,
                top: y as u32,
                right: min_int(x + w, fb_w as int) as u32,
                bottom: min_int(y + h, fb_h as int) as u32,
            },
        )
    }
}

/// Where an RGBA rectangle update lands (see [`spec_update_box`]).
pub fn update_box(x: u16, y: u16, w: u16, h: u16, have: usize, fb_w: u32, fb_h: u32) -> (r: Option<PixelBox>)
    ensures
        r == spec_update_box(x, y, w, h, have as nat, fb_w, fb_h),
{
    if w == 0 || h == 0 || x as u32 >= fb_w || y as u32 >= fb_h {
        return None;
    }
    assert(4 * (w as u64) * (h as u64) < 0x1_0000_0000_0000) by (nonlinear_arith)
        requires
            w < 0x10000,
            h < 0x10000,
    ;
    let need: u64 = 4 * (w as u64) * (h as u64);
    if (have as u64) < need {
        return None;
    }
    let right = if (x as u32) + (w as u32) < fb_w { (x as u32) + (w as u32) } else { fb_w };
    let bottom = if (y as u32) + (h as u32) < fb_h { (y as u32) + (h as u32) } else { fb_h };
    Some(PixelBox { left: x as u32, top: y as u32, right, bottom })
}

/// The part of a `w`x`h` rectangle at (`x`, `y`) inside the framebuffer,
/// as width and height; nothing when it starts outside or nothing is left.
pub open spec fn spec_clip_extent(x: u32, y: u32, w: u32, h: u32, fb_w: u32, fb_h: u32) -> Option<(u32, u32)> {
    if x >= fb_w || y >= fb_h {
        None
    } else {
        let cw = min_int(w as int, fb_w - x);
        let ch = min_int(h as int, fb_h - y);
        if cw == 0 || ch == 0 {
            None
        } else {
            Some((cw as u32, ch as u32))
        }
    }
}

/// Clip a rectangle at (`x`, `y`) to the framebuffer (see [`spec_clip_extent`]).
pub fn clip_extent(x: u32, y: u32, w: u32, h: u32, fb_w: u32, fb_h: u32) -> (r: Option<(u32, u32)>)
    ensures
        r == spec_clip_extent(x, y, w, h, fb_w, fb_h),
{
    if x >= fb_w || y >= fb_h {
        return None;
    }
    let cw = if w < fb_w - x { w } else { fb_w - x };
    let ch = if h < fb_h - y { h } else { fb_h - y };
    if cw == 0 || ch == 0 {
        None
    } else {
        Some((cw, ch))
    }
}

/// Copying a `w`x`h` framebuffer rectangle from (`sx`, `sy`) to (`dx`,
/// `dy`): nothing for an empty rectangle or a corner outside the
/// framebuffer; else the extent that keeps both rectangles inside.
pub open spec fn spec_copy_extent(sx: u32, sy: u32, dx: u32, dy: u32, w: u32, h: u32, fb_w: u32, fb_h: u32) -> Option<(u32, u32)> {
    if w == 0 || h == 0 || sx >= fb_w || sy >= fb_h || dx >= fb_w || dy >= fb_h {
        None
    } else {
        let cw = min_int(min_int(w as int, fb_w - sx), fb_w - dx);
        let ch = min_int(min_int(h as int, fb_h - sy), fb_h - dy);
        if cw == 0 || ch == 0 {
            None
        } else {
            Some((cw as u32, ch as u32))
        }
    }
}

/// The extent of a framebuffer-to-framebuffer copy (see [`spec_copy_extent`]).
pub fn copy_extent(sx: u32, sy: u32, dx: u32, dy: u32, w: u32, h: u32, fb_w: u32, fb_h: u32) -> (r: Option<(u32, u32)>)
    ensures
        r == spec_copy_extent(sx, sy, dx, dy, w, h, fb_w, fb_h),
{
    if w == 0 || h == 0 || sx >= fb_w || sy >= fb_h || dx >= fb_w || dy >= fb_h {
        return None;
    }
    let cw0 = if w < fb_w - sx { w } else { fb_w - sx };
    let cw = if cw0 < fb_w - dx { cw0 } else { fb_w - dx };
    let ch0 = if h < fb_h - sy { h } else { fb_h - sy };
    let ch = if ch0 < fb_h - dy { ch0 } else { fb_h - dy };
    if cw == 0 || ch == 0 {
        None
    } else {
        Some((cw, ch))
    }
}

/// Stashing a `w`x`h` framebuffer rectangle at (`sx`, `sy`) in the cache:
/// nothing for an empty rectangle or one that starts outside; else its
/// clipped extent.
pub open spec fn spec_cache_extent(sx: u32, sy: u32, w: u32, h: u32, fb_w: u32, fb_h: u32) -> Option<(u32, u32)> {
    if w == 0 || h == 0 {
        None
    } else {
        spec_clip_extent(sx, sy, w, h, fb_w, fb_h)
    }
}

/// The extent of a framebuffer rectangle stashed in the cache.
pub fn cache_extent(sx: u32, sy: u32, w: u32, h: u32, fb_w: u32, fb_h: u32) -> (r: Option<(u32, u32)>)
    ensures
        r == spec_cache_extent(sx, sy, w, h, fb_w, fb_h),
{
    if w == 0 || h == 0 {
        None
    } else {
        clip_extent(sx, sy, w, h, fb_w, fb_h)
    }
}

/// Whether `have` bytes hold a whole NV12 frame of `w`x`h`: both sides
/// nonzero and even, a `w * h` luma plane and a `w * (h / 2)` chroma plane.
pub open spec fn spec_nv12_fits(w: u32, h: u32, have: nat) -> bool {
    w != 0 && h != 0 && w % 2 == 0 && h % 2 == 0 && have >= w * h + w * (h / 2)
}

/// Check an NV12 frame's size (see [`spec_nv12_fits`]).
pub fn nv12_fits(w: u32, h: u32, have: usize) -> (r: bool)
    ensures
        r == spec_nv12_fits(w, h, have as nat),
{
    if w == 0 || h == 0 || w % 2 != 0 || h % 2 != 0 {
        return false;
    }
    assert((w as u128) * (h as u128) + (w as u128) * ((h / 2) as u128) < 0x1_0000_0000_0000_0000_0000) by (nonlinear_arith)
        requires
            w < 0x1_0000_0000,
            h < 0x1_0000_0000,
    ;
    let need: u128 = (w as u128) * (h as u128) + (w as u128) * ((h / 2) as u128);
    (have as u128) >= need
}

/// Compute groups of 8x8 pixels covering a `cw`x`ch` extent.
pub fn dispatch_groups(cw: u32, ch: u32) -> (r: (u32, u32))
    ensures
        r.0 as int == (cw as int + 7) / 8,
        r.1 as int == (ch as int + 7) / 8,
{
    let gx = cw / 8 + if cw % 8 != 0 { 1u32 } else { 0u32 };
    let gy = ch / 8 + if ch % 8 != 0 { 1u32 } else { 0u32 };
    (gx, gy)
}

/// Presenting one monitor's `w`x`h` slice at (`src_x`, `src_y`): the
/// framebuffer box it shows, clipped; nothing when no pixel is left.
pub open spec fn spec_slice_box(src_x: u32, src_y: u32, w: u32, h: u32, fb_w: u32, fb_h: u32) -> Option<PixelBox> {
    let right = min_int(src_x + w, fb_w as int);
    let bottom = min_int(src_y + h, fb_h as int);
    if right > src_x && bottom > src_y {
        Some(PixelBox { left: src_x, top: src_y, right: right as u32, bottom: bottom as u32 })
    } else {
        None
    }
}

/// The box of one monitor's slice (see [`spec_slice_box`]).
pub fn slice_box(src_x: u32, src_y: u32, w: u32, h: u32, fb_w: u32, fb_h: u32) -> (r: Option<PixelBox>)
    ensures
        r == spec_slice_box(src_x, src_y, w, h, fb_w, fb_h),
{
    let rx: u64 = src_x as u64 + w as u64;
    let by: u64 = src_y as u64 + h as u64;
    let right: u32 = if rx < fb_w as u64 { rx as u32 } else { fb_w };
    let bottom: u32 = if by < fb_h as u64 { by as u32 } else { fb_h };
    if right > src_x && bottom > src_y {
        Some(PixelBox { left: src_x, top: src_y, right, bottom })
    } else {
        None
    }
}

/// The first `width` bytes of each of `rows` rows that start `stride`
/// bytes apart, back to back.
pub open spec fn gathered(src: Seq<u8>, stride: nat, width: nat, rows: nat) -> Seq<u8>
    decreases rows,
{
    if rows == 0 {
        Seq::empty()
    } else {
        let r = (rows - 1) as nat;
        gathered(src, stride, width, r) + src.subrange((r * stride) as int, (r * stride + width) as int)
    }
}

/// Gather `rows` rows of `width` bytes that lie `stride` bytes apart in
/// `src` into one tightly packed buffer: repacking a clipped upload, or
/// reading back a padded staging texture.
pub fn gather_rows(src: &[u8], stride: usize, width: usize, rows: usize) -> (r: Vec<u8>)
    requires
        width <= stride,
        rows * stride <= src@.len(),
    ensures
        r@ == gathered(src@, stride as nat, width as nat, rows as nat),
        r@.len() == rows * width,
{
    let n = src.len();
    let mut out: Vec<u8> = Vec::new();
    let mut row: usize = 0;
    while row < rows
        invariant
            n == src@.len(),
            row <= rows,
            width <= stride,
            rows * stride <= src@.len(),
            out@ == gathered(src@, stride as nat, width as nat, row as nat),
            out@.len() == row * width,
        decreases rows - row,
    {
        assert((row + 1) * stride <= rows * stride) by (nonlinear_arith)
            requires
                row + 1 <= rows,
        ;
        assert(row * stride + stride == (row + 1) * stride) by (nonlinear_arith);
        assert((row + 1) * width == row * width + width) by (nonlinear_arith);
        assert(row * stride + stride <= n);
        let start = row * stride;
        let mut k: usize = 0;
        let ghost before = out@;
        while k < width
            invariant
                k <= width,
                width <= stride,
                n == src@.len(),
                start + stride <= n,
                out@ == before + src@.subrange(start as int, start + k),
            decreases width - k,
        {
            out.push(src[start + k]);
            k = k + 1;
            assert(out@ =~= before + src@.subrange(start as int, start + k));
        }
        row = row + 1;
        assert(out@ =~= gathered(src@, stride as nat, width as nat, row as nat));
    }
    out
}

} // verus!
