//! Bitmap update parsing and pixel conversion for the legacy (non-RDPGFX)
//! path: the Bitmap Update PDU, conversion of raw 15/16/24/32 bpp pixels to
//! RGBA8, and the interleaved-RLE decoder for compressed rectangles.
//!
//! The RLE decoder is specified by a small interpreter over the order stream
//! ([`rle_decode`]): each order appends pixels to the output written so far.
//! Background pixels copy the pixel one scanline above, foreground pixels are
//! that pixel XOR the foreground colour; on the first scanline "above" reads
//! as zero. The bytes not reached by the stream stay zero.
use vstd::prelude::*;
use crate::bytes::{rd16, get_u16};

verus! {

/// `updateType` value for a Bitmap Update.
pub const UPDATETYPE_BITMAP: u16 = 0x0001;
/// Per-rectangle flag: the bitmap data is interleaved-RLE compressed.
pub const BITMAP_COMPRESSION: u16 = 0x0001;
/// Per-rectangle flag: no 8-byte compression header precedes the data.
pub const NO_BITMAP_COMPRESSION_HDR: u16 = 0x0400;

/// One rectangle from a Bitmap Update.
#[derive(Debug, Clone, PartialEq, Eq)]
pub struct BitmapRect {
    pub dest_left: u16,
    pub dest_top: u16,
    pub dest_right: u16,
    pub dest_bottom: u16,
    pub width: u16,
    pub height: u16,
    pub bits_per_pixel: u16,
    pub compressed: bool,
    /// Pixel data: raw (bottom-up) if not compressed, else the interleaved-RLE
    /// stream (with any 8-byte compression header already stripped).
    pub data: Vec<u8>,
}

/// A parsed Bitmap Update.
#[derive(Debug, Clone, Default, PartialEq, Eq)]
pub struct BitmapUpdate {
    pub rectangles: Vec<BitmapRect>,
}

/// Whether a complete rectangle (18-byte header and its data) starts at `off`.
pub open spec fn rect_ok(body: Seq<u8>, off: int) -> bool {
    off + 18 <= body.len() && off + 18 + rd16(body, off + 16) <= body.len()
}

/// Where rectangle `i` starts: rectangles follow the 4-byte update header
/// back to back, each an 18-byte header and `bitmapLength` bytes.
pub open spec fn rect_off(body: Seq<u8>, i: nat) -> int
    decreases i,
{
    if i == 0 {
        4
    } else {
        let o = rect_off(body, (i - 1) as nat);
        o + 18 + rd16(body, o + 16)
    }
}

/// How many of the `count` announced rectangles are complete: parsing stops
/// at the first one that is cut short.
pub open spec fn parsed_from(body: Seq<u8>, count: nat, i: nat) -> nat
    decreases count - i,
{
    if i >= count || !rect_ok(body, rect_off(body, i)) {
        i
    } else {
        parsed_from(body, count, i + 1)
    }
}

/// The pixel data of the rectangle at `off`: its `bitmapLength` bytes, less
/// the 8-byte compression header when the rectangle is compressed and does
/// not declare the header absent.
pub open spec fn rect_data(body: Seq<u8>, off: int) -> Seq<u8> {
    let flags = rd16(body, off + 14);
    let blob = body.subrange(off + 18, off + 18 + rd16(body, off + 16));
    if flags & BITMAP_COMPRESSION != 0 && flags & NO_BITMAP_COMPRESSION_HDR == 0 && blob.len() >= 8 {
        blob.skip(8)
    } else {
        blob
    }
}

/// `r` is the rectangle whose header starts at `off`.
pub open spec fn rect_matches(r: BitmapRect, body: Seq<u8>, off: int) -> bool {
    &&& r.dest_left == rd16(body, off)
    &&& r.dest_top == rd16(body, off + 2)
    &&& r.dest_right == rd16(body, off + 4)
    &&& r.dest_bottom == rd16(body, off + 6)
    &&& r.width == rd16(body, off + 8)
    &&& r.height == rd16(body, off + 10)
    &&& r.bits_per_pixel == rd16(body, off + 12)
    &&& r.compressed == (rd16(body, off + 14) & BITMAP_COMPRESSION != 0)
    &&& r.data@ == rect_data(body, off)
}

/// Parse a Bitmap Update from the update body (starting at the `updateType`
/// field of a slow-path Update PDU, or just after the fast-path update
/// header). Rectangles are read until the announced count or the first one
/// that is cut short.
pub fn parse_bitmap_update(body: &[u8]) -> (r: Option<BitmapUpdate>)
    ensures
        r is Some <==> body@.len() >= 4 && rd16(body@, 0) == UPDATETYPE_BITMAP,
        r matches Some(u) ==> {
            &&& u.rectangles@.len() == parsed_from(body@, rd16(body@, 2) as nat, 0)
            &&& forall|i: int| 0 <= i < u.rectangles@.len()
                ==> rect_matches(#[trigger] u.rectangles@[i], body@, rect_off(body@, i as nat))
        },
{
    if body.len() < 4 || get_u16(body, 0) != UPDATETYPE_BITMAP {
        return None;
    }
    let count = get_u16(body, 2) as usize;
    let ghost total = parsed_from(body@, count as nat, 0);
    let mut off: usize = 4;
    let mut rectangles: Vec<BitmapRect> = Vec::new();
    let mut k: usize = 0;
    while k < count
        invariant
            k <= count,
            body@.len() >= 4 && rd16(body@, 0) == UPDATETYPE_BITMAP,
            count as nat == rd16(body@, 2) as nat,
            off as int == rect_off(body@, k as nat),
            off <= body@.len(),
            rectangles@.len() == k,
            total == parsed_from(body@, count as nat, 0),
            total == parsed_from(body@, count as nat, k as nat),
            forall|i: int| 0 <= i < k ==> rect_matches(#[trigger] rectangles@[i], body@, rect_off(body@, i as nat)),
        decreases count - k,
    {
        if body.len() - off < 18 {
            return Some(BitmapUpdate { rectangles });
        }
        let dest_left = get_u16(body, off);
        let dest_top = get_u16(body, off + 2);
        let dest_right = get_u16(body, off + 4);
        let dest_bottom = get_u16(body, off + 6);
        let width = get_u16(body, off + 8);
        let height = get_u16(body, off + 10);
        let bits_per_pixel = get_u16(body, off + 12);
        let flags = get_u16(body, off + 14);
        let bitmap_length = get_u16(body, off + 16) as usize;
        if body.len() - (off + 18) < bitmap_length {
            return Some(BitmapUpdate { rectangles });
        }
        let mut blob = crate::bytes::range(body, off + 18, off + 18 + bitmap_length);
        let compressed = flags & BITMAP_COMPRESSION != 0;
        if compressed && flags & NO_BITMAP_COMPRESSION_HDR == 0 && blob.len() >= 8 {
            blob = crate::bytes::skip(blob, 8);
        }
        let rect = BitmapRect {
            dest_left,
            dest_top,
            dest_right,
            dest_bottom,
            width,
            height,
            bits_per_pixel,
            compressed,
            data: crate::bytes::to_vec(blob),
        };
        assert(rect_matches(rect, body@, off as int));
        rectangles.push(rect);
        off = off + 18 + bitmap_length;
        k = k + 1;
    }
    Some(BitmapUpdate { rectangles })
}

/// Bytes per source pixel for `to_rgba` (0 for an unsupported depth).
pub open spec fn rgba_src_bytes(bpp: u16) -> nat {
    if bpp == 32 {
        4
    } else if bpp == 24 {
        3
    } else if bpp == 16 || bpp == 15 {
        2
    } else {
        0
    }
}

/// Widen a 5-bit channel to 8 bits by repeating its top bits.
pub open spec fn expand5(x: u8) -> u8 {
    (x << 3u8) | (x >> 2u8)
}

/// Widen a 6-bit channel to 8 bits by repeating its top bits.
pub open spec fn expand6(x: u8) -> u8 {
    (x << 2u8) | (x >> 4u8)
}

/// The red, green and blue bytes of the source pixel at `si`: 32 and 24 bpp
/// are stored blue first, 16 bpp is RGB565 and 15 bpp RGB555 (little-endian).
pub open spec fn source_rgb(data: Seq<u8>, si: int, bpp: u16) -> Seq<u8> {
    if bpp == 32 || bpp == 24 {
        seq![data[si + 2], data[si + 1], data[si]]
    } else {
        let v = rd16(data, si);
        if bpp == 16 {
            seq![
                expand5(((v >> 11u16) & 0x1f) as u8),
                expand6(((v >> 5u16) & 0x3f) as u8),
                expand5((v & 0x1f) as u8),
            ]
        } else {
            seq![
                expand5(((v >> 10u16) & 0x1f) as u8),
                expand5(((v >> 5u16) & 0x1f) as u8),
                expand5((v & 0x1f) as u8),
            ]
        }
    }
}

/// The RGBA output pixel at display `row`, `col`: the source row is flipped
/// when the data is stored bottom-up; alpha is opaque.
pub open spec fn pixel_rgba(data: Seq<u8>, w: nat, h: nat, bpp: u16, bottom_up: bool, row: nat, col: nat) -> Seq<u8> {
    let src_row: int = if bottom_up { h - 1 - row } else { row as int };
    source_rgb(data, (src_row * w + col) * rgba_src_bytes(bpp), bpp).push(0xFFu8)
}

/// The first `n` output pixels of display row `row`.
pub open spec fn row_rgba(data: Seq<u8>, w: nat, h: nat, bpp: u16, bottom_up: bool, row: nat, n: nat) -> Seq<u8>
    decreases n,
{
    if n == 0 {
        Seq::empty()
    } else {
        row_rgba(data, w, h, bpp, bottom_up, row, (n - 1) as nat) + pixel_rgba(data, w, h, bpp, bottom_up, row, (n - 1) as nat)
    }
}

/// The first `n` display rows, top-down.
pub open spec fn rows_rgba(data: Seq<u8>, w: nat, h: nat, bpp: u16, bottom_up: bool, n: nat) -> Seq<u8>
    decreases n,
{
    if n == 0 {
        Seq::empty()
    } else {
        rows_rgba(data, w, h, bpp, bottom_up, (n - 1) as nat) + row_rgba(data, w, h, bpp, bottom_up, (n - 1) as nat, w)
    }
}

/// What `to_rgba` gives: `None` for a zero or oversized dimension (over
/// 16384), an unsupported depth or too little data; else every row.
pub open spec fn spec_to_rgba(data: Seq<u8>, width: u16, height: u16, bpp: u16, bottom_up: bool) -> Option<Seq<u8>> {
    let (w, h) = (width as nat, height as nat);
    if w == 0 || h == 0 || w > 16384 || h > 16384 || rgba_src_bytes(bpp) == 0 || data.len() < w * h
        * rgba_src_bytes(bpp) {
        None
    } else {
        Some(rows_rgba(data, w, h, bpp, bottom_up, h))
    }
}

proof fn lemma_row_rgba_len(data: Seq<u8>, w: nat, h: nat, bpp: u16, bottom_up: bool, row: nat, n: nat)
    ensures
        row_rgba(data, w, h, bpp, bottom_up, row, n).len() == 4 * n,
    decreases n,
{
    if n > 0 {
        lemma_row_rgba_len(data, w, h, bpp, bottom_up, row, (n - 1) as nat);
    }
}

proof fn lemma_rows_rgba_len(data: Seq<u8>, w: nat, h: nat, bpp: u16, bottom_up: bool, n: nat)
    ensures
        rows_rgba(data, w, h, bpp, bottom_up, n).len() == 4 * w * n,
    decreases n,
{
    if n > 0 {
        lemma_rows_rgba_len(data, w, h, bpp, bottom_up, (n - 1) as nat);
        lemma_row_rgba_len(data, w, h, bpp, bottom_up, (n - 1) as nat, w);
        assert(4 * w * (n - 1) + 4 * w == 4 * w * n) by (nonlinear_arith);
    } else {
        assert(4 * w * n == 0) by (nonlinear_arith)
            requires n == 0;
    }
}

/// The RGB bytes of the source pixel at `si`.
fn read_rgb(data: &[u8], si: usize, bpp: u16) -> (r: (u8, u8, u8))
    requires
        rgba_src_bytes(bpp) > 0,
        si + rgba_src_bytes(bpp) <= data@.len(),
    ensures
        seq![r.0, r.1, r.2] == source_rgb(data@, si as int, bpp),
{
    if bpp == 32 || bpp == 24 {
        assert(si + 3 <= data.len());
        (data[si + 2], data[si + 1], data[si])
    } else {
        let v = get_u16(data, si);
        if bpp == 16 {
            let r = ((v >> 11u16) & 0x1f) as u8;
            let g = ((v >> 5u16) & 0x3f) as u8;
            let b = (v & 0x1f) as u8;
            ((r << 3u8) | (r >> 2u8), (g << 2u8) | (g >> 4u8), (b << 3u8) | (b >> 2u8))
        } else {
            let r = ((v >> 10u16) & 0x1f) as u8;
            let g = ((v >> 5u16) & 0x1f) as u8;
            let b = (v & 0x1f) as u8;
            ((r << 3u8) | (r >> 2u8), (g << 3u8) | (g >> 2u8), (b << 3u8) | (b >> 2u8))
        }
    }
}

/// Convert uncompressed RDP pixel data to RGBA8 (4 bytes per pixel,
/// top-down). RDP rows are stored bottom-up, so `bottom_up` flips them into
/// display order. Supports 15/16/24/32 bits per pixel.
pub fn to_rgba(data: &[u8], width: u16, height: u16, bpp: u16, bottom_up: bool) -> (r: Option<Vec<u8>>)
    ensures
        r is None <==> spec_to_rgba(data@, width, height, bpp, bottom_up) is None,
        r matches Some(v) ==> spec_to_rgba(data@, width, height, bpp, bottom_up) == Some(v@)
            && v@.len() == 4 * width as nat * height as nat,
{
    let w = width as usize;
    let h = height as usize;
    if w == 0 || h == 0 || w > 16384 || h > 16384 {
        return None;
    }
    let bpb: usize = if bpp == 32 {
        4
    } else if bpp == 24 {
        3
    } else if bpp == 16 || bpp == 15 {
        2
    } else {
        return None;
    };
    proof {
        assert(w * h <= 16384 * 16384) by (nonlinear_arith)
            requires w <= 16384, h <= 16384;
    }
    if data.len() < w * h * bpb {
        return None;
    }
    let mut out: Vec<u8> = Vec::new();
    let mut row: usize = 0;
    while row < h
        invariant
            1 <= w <= 16384,
            1 <= h <= 16384,
            w == width as nat,
            h == height as nat,
            bpb as nat == rgba_src_bytes(bpp),
            bpb >= 2,
            data@.len() >= w * h * bpb,
            row <= h,
            out@ == rows_rgba(data@, w as nat, h as nat, bpp, bottom_up, row as nat),
        decreases h - row,
    {
        let src_row = if bottom_up { h - 1 - row } else { row };
        let mut col: usize = 0;
        while col < w
            invariant
                1 <= w <= 16384,
                1 <= h <= 16384,
                w == width as nat,
                h == height as nat,
                bpb as nat == rgba_src_bytes(bpp),
                bpb >= 2,
                data@.len() >= w * h * bpb,
                row < h,
                src_row < h,
                src_row as int == (if bottom_up { h - 1 - row } else { row as int }),
                col <= w,
                out@ == rows_rgba(data@, w as nat, h as nat, bpp, bottom_up, row as nat)
                    + row_rgba(data@, w as nat, h as nat, bpp, bottom_up, row as nat, col as nat),
            decreases w - col,
        {
            proof {
                assert(src_row * w + col < w * h) by (nonlinear_arith)
                    requires src_row < h, col < w;
                assert((src_row * w + col) * bpb + bpb <= w * h * bpb) by (nonlinear_arith)
                    requires src_row < h, col < w, bpb >= 2;
                assert(w * h <= 16384 * 16384) by (nonlinear_arith)
                    requires w <= 16384, h <= 16384;
            }
            let si = (src_row * w + col) * bpb;
            let (r, g, b) = read_rgb(data, si, bpp);
            let ghost before = out@;
            out.push(r);
            out.push(g);
            out.push(b);
            out.push(0xFF);
            proof {
                assert(out@ =~= before + pixel_rgba(data@, w as nat, h as nat, bpp, bottom_up, row as nat, col as nat));
            }
            col = col + 1;
        }
        row = row + 1;
    }
    proof {
        lemma_rows_rgba_len(data@, w as nat, h as nat, bpp, bottom_up, h as nat);
    }
    Some(out)
}

// Order codes (the header byte classified by `code_of`).
pub const C_BG_RUN: u8 = 0x00;
pub const C_FG_RUN: u8 = 0x01;
pub const C_FGBG_IMAGE: u8 = 0x02;
pub const C_COLOR_RUN: u8 = 0x03;
pub const C_COLOR_IMAGE: u8 = 0x04;
pub const C_LITE_SET_FG_FG_RUN: u8 = 0x0C;
pub const C_LITE_SET_FG_FGBG_IMAGE: u8 = 0x0D;
pub const C_LITE_DITHERED_RUN: u8 = 0x0E;
pub const C_MEGA_BG_RUN: u8 = 0xF0;
pub const C_MEGA_FG_RUN: u8 = 0xF1;
pub const C_MEGA_FGBG_IMAGE: u8 = 0xF2;
pub const C_MEGA_COLOR_RUN: u8 = 0xF3;
pub const C_MEGA_COLOR_IMAGE: u8 = 0xF4;
pub const C_MEGA_SET_FG_RUN: u8 = 0xF6;
pub const C_MEGA_SET_FGBG_IMAGE: u8 = 0xF7;
pub const C_MEGA_DITHERED_RUN: u8 = 0xF8;
pub const C_SPECIAL_FGBG_1: u8 = 0xF9;
pub const C_SPECIAL_FGBG_2: u8 = 0xFA;
pub const C_SPECIAL_WHITE: u8 = 0xFD;
pub const C_SPECIAL_BLACK: u8 = 0xFE;

/// The order code of a header byte: regular orders keep the top three bits,
/// "lite" orders the top four, and mega/special orders the whole byte.
pub open spec fn code_of(h: u8) -> u8 {
    if h & 0xC0 != 0xC0 {
        h >> 5
    } else if h & 0x30 != 0x30 {
        h >> 4
    } else {
        h
    }
}

/// The run length of the order at `s` and how many header bytes it used.
pub open spec fn run_length_of(code: u8, src: Seq<u8>, s: int) -> Option<(nat, nat)> {
    if s < 0 || s >= src.len() {
        None
    } else {
        let h = src[s];
        let has1 = s + 1 < src.len();
        if code == C_FGBG_IMAGE || code == C_LITE_SET_FG_FGBG_IMAGE {
            let r = (if code == C_FGBG_IMAGE { h & 0x1F } else { h & 0x0F }) as nat;
            if r != 0 {
                Some((r * 8, 1))
            } else if has1 {
                Some((src[s + 1] as nat + 1, 2))
            } else {
                None
            }
        } else if code == C_BG_RUN || code == C_FG_RUN || code == C_COLOR_RUN || code
            == C_COLOR_IMAGE {
            let r = (h & 0x1F) as nat;
            if r != 0 {
                Some((r, 1))
            } else if has1 {
                Some((src[s + 1] as nat + 32, 2))
            } else {
                None
            }
        } else if code == C_LITE_SET_FG_FG_RUN || code == C_LITE_DITHERED_RUN {
            let r = (h & 0x0F) as nat;
            if r != 0 {
                Some((r, 1))
            } else if has1 {
                Some((src[s + 1] as nat + 16, 2))
            } else {
                None
            }
        } else if code == C_MEGA_BG_RUN || code == C_MEGA_FG_RUN || code == C_MEGA_SET_FG_RUN
            || code == C_MEGA_DITHERED_RUN || code == C_MEGA_COLOR_RUN || code
            == C_MEGA_FGBG_IMAGE || code == C_MEGA_SET_FGBG_IMAGE || code == C_MEGA_COLOR_IMAGE {
            if s + 2 < src.len() {
                Some((src[s + 1] as nat + 256 * src[s + 2] as nat, 3))
            } else {
                None
            }
        } else {
            None
        }
    }
}

/// Byte `i` of the pixel one scanline (`rd` bytes) above the next pixel to
/// be written after `out`; zero on the first scanline.
pub open spec fn above_byte(out: Seq<u8>, rd: nat, i: int) -> u8 {
    if out.len() >= rd {
        out[out.len() - rd + i]
    } else {
        0
    }
}

/// A background pixel: a copy of the pixel above.
pub open spec fn bg_pel(out: Seq<u8>, rd: nat, p: nat) -> Seq<u8> {
    Seq::new(p, |i: int| above_byte(out, rd, i))
}

/// A foreground pixel: the pixel above XOR the foreground colour.
pub open spec fn fg_pel(out: Seq<u8>, rd: nat, p: nat, fg: Seq<u8>) -> Seq<u8> {
    Seq::new(p, |i: int| above_byte(out, rd, i) ^ fg[i])
}

/// Append one pixel, unless that overruns the `total`-byte output.
pub open spec fn put_pel(out: Seq<u8>, total: nat, pel: Seq<u8>) -> Option<Seq<u8>> {
    if out.len() + pel.len() > total {
        None
    } else {
        Some(out + pel)
    }
}

/// Pixel sources for runs: each gives the pixel to append after `out`.
pub open spec fn bg_src(rd: nat, p: nat) -> spec_fn(Seq<u8>) -> Seq<u8> {
    |o: Seq<u8>| bg_pel(o, rd, p)
}

pub open spec fn fg_src(rd: nat, p: nat, fg: Seq<u8>) -> spec_fn(Seq<u8>) -> Seq<u8> {
    |o: Seq<u8>| fg_pel(o, rd, p, fg)
}

pub open spec fn abs_src(pel: Seq<u8>) -> spec_fn(Seq<u8>) -> Seq<u8> {
    |o: Seq<u8>| pel
}

/// `n` pixels from `pel`, one after the other.
pub open spec fn pel_run(out: Seq<u8>, total: nat, n: nat, pel: spec_fn(Seq<u8>) -> Seq<u8>) -> Option<Seq<u8>>
    decreases n,
{
    if n == 0 {
        Some(out)
    } else {
        match put_pel(out, total, pel(out)) {
            None => None,
            Some(o) => pel_run(o, total, (n - 1) as nat, pel),
        }
    }
}

/// Bit `i` of an FGBG mask byte.
pub open spec fn mask_bit(mask: u8, i: u32) -> bool {
    (mask >> i) & 1u8 == 1u8
}

/// Bits `i..cbits` of `mask`: a set bit writes a foreground pixel, a clear
/// bit a background pixel.
pub open spec fn fgbg_bits(out: Seq<u8>, total: nat, rd: nat, p: nat, fg: Seq<u8>, mask: u8, i: u32, cbits: u32) -> Option<Seq<u8>>
    decreases cbits - i,
{
    if i >= cbits {
        Some(out)
    } else {
        let pel = if mask_bit(mask, i) {
            fg_pel(out, rd, p, fg)
        } else {
            bg_pel(out, rd, p)
        };
        match put_pel(out, total, pel) {
            None => None,
            Some(o) => fgbg_bits(o, total, rd, p, fg, mask, (i + 1) as u32, cbits),
        }
    }
}

/// `remaining` FGBG pixels driven by mask bytes read from `src[s..]`, eight
/// pixels per byte; gives the output and the position after the masks.
pub open spec fn fgbg_image(out: Seq<u8>, total: nat, rd: nat, p: nat, fg: Seq<u8>, src: Seq<u8>, s: nat, remaining: nat) -> Option<(Seq<u8>, nat)>
    decreases remaining,
{
    if remaining == 0 {
        Some((out, s))
    } else if s >= src.len() {
        None
    } else {
        let cbits: nat = if remaining < 8 { remaining } else { 8 };
        match fgbg_bits(out, total, rd, p, fg, src[s as int], 0, cbits as u32) {
            None => None,
            Some(o) => fgbg_image(o, total, rd, p, fg, src, s + 1, (remaining - cbits) as nat),
        }
    }
}

/// `n` literal pixels copied from `src[s..]`; gives the output and the
/// position after them.
pub open spec fn image_run(out: Seq<u8>, total: nat, src: Seq<u8>, s: nat, p: nat, n: nat) -> Option<(Seq<u8>, nat)>
    decreases n,
{
    if n == 0 {
        Some((out, s))
    } else if s + p > src.len() {
        None
    } else {
        match put_pel(out, total, src.subrange(s as int, (s + p) as int)) {
            None => None,
            Some(o) => image_run(o, total, src, s + p, p, (n - 1) as nat),
        }
    }
}

/// One decoder state: output so far, stream position, foreground colour,
/// and whether the previous order was a background run.
pub type RleState = (Seq<u8>, nat, Seq<u8>, bool);

/// A background run. Two adjacent background runs are separated by one
/// foreground pixel the encoder left out; it is put back first.
pub open spec fn bg_order(src: Seq<u8>, total: nat, rd: nat, p: nat, st: RleState, code: u8) -> Option<RleState> {
    let (out, s, fg, prev_bg) = st;
    match run_length_of(code, src, s as int) {
        None => None,
        Some((run, adv)) => {
            let start = if prev_bg {
                put_pel(out, total, fg_pel(out, rd, p, fg))
            } else {
                Some(out)
            };
            let n: nat = if prev_bg && run > 0 { (run - 1) as nat } else if prev_bg { 0 } else { run };
            match start {
                None => None,
                Some(o1) => match pel_run(o1, total, n, bg_src(rd, p)) {
                    None => None,
                    Some(o2) => Some((o2, s + adv, fg, true)),
                },
            }
        },
    }
}

/// Whether an order code first sets the foreground colour from the stream.
pub open spec fn sets_fg(code: u8) -> bool {
    code == C_LITE_SET_FG_FG_RUN || code == C_MEGA_SET_FG_RUN || code == C_LITE_SET_FG_FGBG_IMAGE
        || code == C_MEGA_SET_FGBG_IMAGE
}

/// A foreground run, optionally setting the foreground colour first.
pub open spec fn fg_order(src: Seq<u8>, total: nat, rd: nat, p: nat, st: RleState, code: u8) -> Option<RleState> {
    let (out, s, fg, prev_bg) = st;
    match run_length_of(code, src, s as int) {
        None => None,
        Some((run, adv)) => {
            let s1 = s + adv;
            if sets_fg(code) && s1 + p > src.len() {
                None
            } else {
                let fg1 = if sets_fg(code) { src.subrange(s1 as int, (s1 + p) as int) } else { fg };
                let s2: nat = if sets_fg(code) { s1 + p } else { s1 };
                match pel_run(out, total, run, fg_src(rd, p, fg1)) {
                    None => None,
                    Some(o) => Some((o, s2, fg1, false)),
                }
            }
        },
    }
}

/// A run of one colour given after the header.
pub open spec fn color_run_order(src: Seq<u8>, total: nat, p: nat, st: RleState, code: u8) -> Option<RleState> {
    let (out, s, fg, prev_bg) = st;
    match run_length_of(code, src, s as int) {
        None => None,
        Some((run, adv)) => {
            let s1 = s + adv;
            if s1 + p > src.len() {
                None
            } else {
                match pel_run(out, total, run, abs_src(src.subrange(s1 as int, (s1 + p) as int))) {
                    None => None,
                    Some(o) => Some((o, s1 + p, fg, false)),
                }
            }
        },
    }
}

/// Literal pixels given after the header.
pub open spec fn color_image_order(src: Seq<u8>, total: nat, p: nat, st: RleState, code: u8) -> Option<RleState> {
    let (out, s, fg, prev_bg) = st;
    match run_length_of(code, src, s as int) {
        None => None,
        Some((run, adv)) => match image_run(out, total, src, s + adv, p, run) {
            None => None,
            Some((o, s2)) => Some((o, s2, fg, false)),
        },
    }
}

/// FGBG pixels driven by mask bytes, optionally setting the foreground
/// colour first.
pub open spec fn fgbg_order(src: Seq<u8>, total: nat, rd: nat, p: nat, st: RleState, code: u8) -> Option<RleState> {
    let (out, s, fg, prev_bg) = st;
    match run_length_of(code, src, s as int) {
        None => None,
        Some((run, adv)) => {
            let s1 = s + adv;
            if sets_fg(code) && s1 + p > src.len() {
                None
            } else {
                let fg1 = if sets_fg(code) { src.subrange(s1 as int, (s1 + p) as int) } else { fg };
                let s2: nat = if sets_fg(code) { s1 + p } else { s1 };
                match fgbg_image(out, total, rd, p, fg1, src, s2, run) {
                    None => None,
                    Some((o, s3)) => Some((o, s3, fg1, false)),
                }
            }
        },
    }
}

/// Pairs of two alternating colours given after the header.
pub open spec fn dithered_order(src: Seq<u8>, total: nat, p: nat, st: RleState, code: u8) -> Option<RleState> {
    let (out, s, fg, prev_bg) = st;
    match run_length_of(code, src, s as int) {
        None => None,
        Some((run, adv)) => {
            let s1 = s + adv;
            if s1 + 2 * p > src.len() {
                None
            } else {
                let pair = src.subrange(s1 as int, (s1 + 2 * p) as int);
                match pel_run(out, total, run, abs_src(pair)) {
                    None => None,
                    Some(o) => Some((o, s1 + 2 * p, fg, false)),
                }
            }
        },
    }
}

/// One-byte special orders: two fixed FGBG masks, one white and one black
/// pixel.
pub open spec fn special_order(total: nat, rd: nat, p: nat, st: RleState, code: u8) -> Option<RleState> {
    let (out, s, fg, prev_bg) = st;
    let r = if code == C_SPECIAL_FGBG_1 {
        fgbg_bits(out, total, rd, p, fg, 0x03, 0, 8)
    } else if code == C_SPECIAL_FGBG_2 {
        fgbg_bits(out, total, rd, p, fg, 0x05, 0, 8)
    } else if code == C_SPECIAL_WHITE {
        put_pel(out, total, Seq::new(p, |i: int| 0xFFu8))
    } else {
        put_pel(out, total, Seq::new(p, |i: int| 0u8))
    };
    match r {
        None => None,
        Some(o) => Some((o, s + 1, fg, false)),
    }
}

/// Decode the order at the current position.
pub open spec fn rle_step(src: Seq<u8>, total: nat, rd: nat, p: nat, st: RleState) -> Option<RleState> {
    let code = code_of(src[st.1 as int]);
    if code == C_BG_RUN || code == C_MEGA_BG_RUN {
        bg_order(src, total, rd, p, st, code)
    } else if code == C_FG_RUN || code == C_MEGA_FG_RUN || code == C_LITE_SET_FG_FG_RUN || code
        == C_MEGA_SET_FG_RUN {
        fg_order(src, total, rd, p, st, code)
    } else if code == C_COLOR_RUN || code == C_MEGA_COLOR_RUN {
        color_run_order(src, total, p, st, code)
    } else if code == C_COLOR_IMAGE || code == C_MEGA_COLOR_IMAGE {
        color_image_order(src, total, p, st, code)
    } else if code == C_FGBG_IMAGE || code == C_MEGA_FGBG_IMAGE || code
        == C_LITE_SET_FG_FGBG_IMAGE || code == C_MEGA_SET_FGBG_IMAGE {
        fgbg_order(src, total, rd, p, st, code)
    } else if code == C_LITE_DITHERED_RUN || code == C_MEGA_DITHERED_RUN {
        dithered_order(src, total, p, st, code)
    } else if code == C_SPECIAL_FGBG_1 || code == C_SPECIAL_FGBG_2 || code == C_SPECIAL_WHITE
        || code == C_SPECIAL_BLACK {
        special_order(total, rd, p, st, code)
    } else {
        None
    }
}

/// Decode orders from the current position to the end of the stream.
pub open spec fn rle_decode(src: Seq<u8>, total: nat, rd: nat, p: nat, st: RleState) -> Option<Seq<u8>>
    decreases src.len() - st.1,
{
    if st.1 >= src.len() {
        Some(st.0)
    } else {
        match rle_step(src, total, rd, p, st) {
            None => None,
            Some(next) => if next.1 <= st.1 {
                None
            } else if next.1 >= src.len() {
                Some(next.0)
            } else {
                rle_decode(src, total, rd, p, next)
            },
        }
    }
}

/// Bytes per pixel of a bit depth the decoder supports (0 otherwise).
pub open spec fn rle_bytes_per_pixel(bpp: u16) -> nat {
    if bpp == 8 {
        1
    } else if bpp == 15 || bpp == 16 {
        2
    } else if bpp == 24 {
        3
    } else {
        0
    }
}

/// The decoded rectangle: the pixels the stream gives, then zeros to fill
/// `width * height` pixels.
pub open spec fn spec_decompress(src: Seq<u8>, width: u16, height: u16, bpp: u16) -> Option<Seq<u8>> {
    let p = rle_bytes_per_pixel(bpp);
    let total = width as nat * height as nat * p;
    if p == 0 || total > usize::MAX {
        None
    } else if total == 0 {
        Some(Seq::empty())
    } else {
        let start: RleState = (Seq::empty(), 0, Seq::new(p, |i: int| 0xFFu8), false);
        match rle_decode(src, total, width as nat * p, p, start) {
            None => None,
            Some(o) => Some(o + Seq::new((total - o.len()) as nat, |i: int| 0u8)),
        }
    }
}

/// What a run writes per pixel.
#[derive(Clone, Copy, PartialEq, Eq, Structural)]
pub enum PelKind {
    /// A copy of the pixel above.
    Background,
    /// The pixel above XOR the given colour.
    Foreground,
    /// The given bytes.
    Literal,
}

/// The pixel source of a run of `kind` with colour or bytes `pel`.
pub open spec fn kind_src(kind: PelKind, rd: nat, p: nat, pel: Seq<u8>) -> spec_fn(Seq<u8>) -> Seq<u8> {
    match kind {
        PelKind::Background => bg_src(rd, p),
        PelKind::Foreground => fg_src(rd, p, pel),
        PelKind::Literal => abs_src(pel),
    }
}

/// Classify an order header byte into a code identifier.
fn extract_code_id(h: u8) -> (r: u8)
    ensures
        r == code_of(h),
{
    if h & 0xC0 != 0xC0 {
        h >> 5
    } else if h & 0x30 != 0x30 {
        h >> 4
    } else {
        h
    }
}

/// Decode the run length for `code` starting at `src[s]`: the length and the
/// number of header bytes used, or `None` if the stream is too short or the
/// code has no run length.
fn extract_run_length(code: u8, src: &[u8], s: usize) -> (r: Option<(usize, usize)>)
    ensures
        r is None <==> run_length_of(code, src@, s as int) is None,
        r matches Some((n, a)) ==> run_length_of(code, src@, s as int) == Some((n as nat, a as nat))
            && 1 <= a <= 3 && s + a <= src@.len() && n <= 0x1_0000,
{
    if s >= src.len() {
        return None;
    }
    let h = src[s];
    let has1 = src.len() - s > 1;
    assert(h & 0x1F <= 0x1F) by (bit_vector);
    assert(h & 0x0F <= 0x0F) by (bit_vector);
    if code == C_FGBG_IMAGE || code == C_LITE_SET_FG_FGBG_IMAGE {
        let r = (if code == C_FGBG_IMAGE { h & 0x1F } else { h & 0x0F }) as usize;
        if r != 0 {
            Some((r * 8, 1))
        } else if has1 {
            Some((src[s + 1] as usize + 1, 2))
        } else {
            None
        }
    } else if code == C_BG_RUN || code == C_FG_RUN || code == C_COLOR_RUN || code == C_COLOR_IMAGE {
        let r = (h & 0x1F) as usize;
        if r != 0 {
            Some((r, 1))
        } else if has1 {
            Some((src[s + 1] as usize + 32, 2))
        } else {
            None
        }
    } else if code == C_LITE_SET_FG_FG_RUN || code == C_LITE_DITHERED_RUN {
        let r = (h & 0x0F) as usize;
        if r != 0 {
            Some((r, 1))
        } else if has1 {
            Some((src[s + 1] as usize + 16, 2))
        } else {
            None
        }
    } else if code == C_MEGA_BG_RUN || code == C_MEGA_FG_RUN || code == C_MEGA_SET_FG_RUN || code
        == C_MEGA_DITHERED_RUN || code == C_MEGA_COLOR_RUN || code == C_MEGA_FGBG_IMAGE || code
        == C_MEGA_SET_FGBG_IMAGE || code == C_MEGA_COLOR_IMAGE {
        if src.len() - s > 2 {
            let lo = src[s + 1] as usize;
            let hi = src[s + 2] as usize;
            Some((lo + 256 * hi, 3))
        } else {
            None
        }
    } else {
        None
    }
}

/// Append `pel` unless that overruns `total` bytes.
fn write_pel(out: &mut Vec<u8>, total: usize, pel: &[u8]) -> (ok: bool)
    requires
        old(out)@.len() <= total,
    ensures
        ok == put_pel(old(out)@, total as nat, pel@) is Some,
        ok ==> final(out)@ == old(out)@ + pel@,
        final(out)@.len() <= total,
{
    if total - out.len() < pel.len() {
        return false;
    }
    crate::bytes::push_all(out, pel);
    true
}

/// Append one pixel of `kind`, unless that overruns `total` bytes.
fn write_kind(out: &mut Vec<u8>, total: usize, rd: usize, p: usize, kind: PelKind, pel: &[u8]) -> (ok: bool)
    requires
        old(out)@.len() <= total,
        1 <= p <= rd,
        kind == PelKind::Foreground ==> pel@.len() >= p,
    ensures
        ok == put_pel(old(out)@, total as nat, kind_src(kind, rd as nat, p as nat, pel@)(old(out)@)) is Some,
        ok ==> final(out)@ == old(out)@ + kind_src(kind, rd as nat, p as nat, pel@)(old(out)@),
        final(out)@.len() <= total,
{
    if let PelKind::Literal = kind {
        return write_pel(out, total, pel);
    }
    let ghost o0 = out@;
    let ghost want = kind_src(kind, rd as nat, p as nat, pel@)(o0);
    let d = out.len();
    if total - d < p {
        return false;
    }
    let mut i: usize = 0;
    while i < p
        invariant
            d == o0.len(),
            d + p <= total,
            1 <= p <= rd,
            i <= p,
            kind == PelKind::Foreground ==> pel@.len() >= p,
            kind != PelKind::Literal,
            want == kind_src(kind, rd as nat, p as nat, pel@)(o0),
            want.len() == p,
            out@ == o0 + want.take(i as int),
        decreases p - i,
    {
        let a = if d >= rd { out[d - rd + i] } else { 0 };
        assert(a == above_byte(o0, rd as nat, i as int));
        let b = if let PelKind::Foreground = kind { a ^ pel[i] } else { a };
        out.push(b);
        i = i + 1;
        assert(out@ =~= o0 + want.take(i as int));
    }
    assert(want.take(p as int) =~= want);
    true
}

/// `n` pixels of `kind`, one after the other.
fn write_run(out: &mut Vec<u8>, total: usize, rd: usize, p: usize, kind: PelKind, pel: &[u8], n: usize) -> (ok: bool)
    requires
        old(out)@.len() <= total,
        1 <= p <= rd,
        kind == PelKind::Foreground ==> pel@.len() >= p,
    ensures
        ok == pel_run(old(out)@, total as nat, n as nat, kind_src(kind, rd as nat, p as nat, pel@)) is Some,
        ok ==> pel_run(old(out)@, total as nat, n as nat, kind_src(kind, rd as nat, p as nat, pel@)) == Some(final(out)@),
        final(out)@.len() <= total,
{
    let ghost f = kind_src(kind, rd as nat, p as nat, pel@);
    let ghost o0 = out@;
    let ghost goal = pel_run(o0, total as nat, n as nat, f);
    let mut k: usize = 0;
    while k < n
        invariant
            k <= n,
            o0 == old(out)@,
            goal == pel_run(o0, total as nat, n as nat, f),
            out@.len() <= total,
            1 <= p <= rd,
            kind == PelKind::Foreground ==> pel@.len() >= p,
            f == kind_src(kind, rd as nat, p as nat, pel@),
            goal == pel_run(out@, total as nat, (n - k) as nat, f),
        decreases n - k,
    {
        let ghost cur = out@;
        if !write_kind(out, total, rd, p, kind, pel) {
            assert(pel_run(cur, total as nat, (n - k) as nat, f) is None);
            return false;
        }
        k = k + 1;
    }
    true
}

/// Write `cbits` pixels using one FGBG mask byte (bit set: foreground).
fn write_fgbg(out: &mut Vec<u8>, total: usize, rd: usize, p: usize, fg: &[u8], mask: u8, cbits: u32) -> (ok: bool)
    requires
        old(out)@.len() <= total,
        1 <= p <= rd,
        fg@.len() == p,
        cbits <= 8,
    ensures
        ok == fgbg_bits(old(out)@, total as nat, rd as nat, p as nat, fg@, mask, 0, cbits) is Some,
        ok ==> fgbg_bits(old(out)@, total as nat, rd as nat, p as nat, fg@, mask, 0, cbits) == Some(final(out)@),
        final(out)@.len() <= total,
{
    let ghost o0 = out@;
    let ghost goal = fgbg_bits(o0, total as nat, rd as nat, p as nat, fg@, mask, 0, cbits);
    let mut i: u32 = 0;
    while i < cbits
        invariant
            i <= cbits <= 8,
            o0 == old(out)@,
            out@.len() <= total,
            1 <= p <= rd,
            fg@.len() == p,
            goal == fgbg_bits(o0, total as nat, rd as nat, p as nat, fg@, mask, 0, cbits),
            goal == fgbg_bits(out@, total as nat, rd as nat, p as nat, fg@, mask, i, cbits),
        decreases cbits - i,
    {
        let ghost cur = out@;
        let kind = if (mask >> i) & 1u8 == 1u8 { PelKind::Foreground } else { PelKind::Background };
        if !write_kind(out, total, rd, p, kind, fg) {
            assert(fgbg_bits(cur, total as nat, rd as nat, p as nat, fg@, mask, i, cbits) is None);
            return false;
        }
        i = i + 1;
    }
    true
}

/// FGBG pixels driven by mask bytes read from `src[s..]`; gives the
/// position after the masks.
fn write_fgbg_image(out: &mut Vec<u8>, total: usize, rd: usize, p: usize, fg: &[u8], src: &[u8], s: usize, run: usize) -> (r: Option<usize>)
    requires
        old(out)@.len() <= total,
        1 <= p <= rd,
        fg@.len() == p,
        s <= src@.len(),
    ensures
        r is None <==> fgbg_image(old(out)@, total as nat, rd as nat, p as nat, fg@, src@, s as nat, run as nat) is None,
        r matches Some(s2) ==> fgbg_image(old(out)@, total as nat, rd as nat, p as nat, fg@, src@, s as nat, run as nat)
            == Some((final(out)@, s2 as nat)) && s2 <= src@.len() && s <= s2,
        final(out)@.len() <= total,
{
    let ghost o0 = out@;
    let ghost goal = fgbg_image(o0, total as nat, rd as nat, p as nat, fg@, src@, s as nat, run as nat);
    let mut remaining = run;
    let mut pos = s;
    while remaining > 0
        invariant
            o0 == old(out)@,
            out@.len() <= total,
            1 <= p <= rd,
            fg@.len() == p,
            s <= pos <= src@.len(),
            goal == fgbg_image(o0, total as nat, rd as nat, p as nat, fg@, src@, s as nat, run as nat),
            goal == fgbg_image(out@, total as nat, rd as nat, p as nat, fg@, src@, pos as nat, remaining as nat),
        decreases remaining,
    {
        let ghost cur = out@;
        if pos >= src.len() {
            return None;
        }
        let cbits = if remaining < 8 { remaining } else { 8 };
        let mask = src[pos];
        if !write_fgbg(out, total, rd, p, fg, mask, cbits as u32) {
            assert(fgbg_image(cur, total as nat, rd as nat, p as nat, fg@, src@, pos as nat, remaining as nat) is None);
            return None;
        }
        pos = pos + 1;
        remaining = remaining - cbits;
    }
    Some(pos)
}

/// `n` literal pixels copied from `src[s..]`; gives the position after them.
fn write_image(out: &mut Vec<u8>, total: usize, src: &[u8], s: usize, p: usize, n: usize) -> (r: Option<usize>)
    requires
        old(out)@.len() <= total,
        s <= src@.len(),
    ensures
        r is None <==> image_run(old(out)@, total as nat, src@, s as nat, p as nat, n as nat) is None,
        r matches Some(s2) ==> image_run(old(out)@, total as nat, src@, s as nat, p as nat, n as nat)
            == Some((final(out)@, s2 as nat)) && s2 <= src@.len() && s <= s2,
        final(out)@.len() <= total,
{
    let ghost o0 = out@;
    let ghost goal = image_run(o0, total as nat, src@, s as nat, p as nat, n as nat);
    let mut k: usize = 0;
    let mut pos = s;
    while k < n
        invariant
            k <= n,
            o0 == old(out)@,
            out@.len() <= total,
            s <= pos <= src@.len(),
            goal == image_run(o0, total as nat, src@, s as nat, p as nat, n as nat),
            goal == image_run(out@, total as nat, src@, pos as nat, p as nat, (n - k) as nat),
        decreases n - k,
    {
        let ghost cur = out@;
        if src.len() - pos < p {
            return None;
        }
        let px = crate::bytes::range(src, pos, pos + p);
        if !write_pel(out, total, px) {
            assert(image_run(cur, total as nat, src@, pos as nat, p as nat, (n - k) as nat) is None);
            return None;
        }
        pos = pos + p;
        k = k + 1;
    }
    Some(pos)
}

/// Decode the order at `src[s]`: append its pixels to `out`, update the
/// foreground colour where the order sets it, and give the position after
/// the order and whether it was a background run.
fn decode_order(src: &[u8], total: usize, rd: usize, p: usize, out: &mut Vec<u8>, fg: &mut Vec<u8>, s: usize, prev_bg: bool) -> (r: Option<(usize, bool)>)
    requires
        old(out)@.len() <= total,
        1 <= p <= rd,
        old(fg)@.len() == p,
        s < src@.len(),
    ensures
        r is None <==> rle_step(src@, total as nat, rd as nat, p as nat, (old(out)@, s as nat, old(fg)@, prev_bg)) is None,
        r matches Some((s2, pb)) ==> rle_step(src@, total as nat, rd as nat, p as nat, (old(out)@, s as nat, old(fg)@, prev_bg))
            == Some((final(out)@, s2 as nat, final(fg)@, pb)) && s < s2 <= src@.len(),
        final(out)@.len() <= total,
        final(fg)@.len() == p,
{
    let code = extract_code_id(src[s]);
    if code == C_BG_RUN || code == C_MEGA_BG_RUN {
        let (run, adv) = match extract_run_length(code, src, s) {
            None => return None,
            Some(x) => x,
        };
        let mut n = run;
        if prev_bg {
            if !write_kind(out, total, rd, p, PelKind::Foreground, fg.as_slice()) {
                return None;
            }
            n = if run > 0 { run - 1 } else { 0 };
        }
        if !write_run(out, total, rd, p, PelKind::Background, fg.as_slice(), n) {
            return None;
        }
        Some((s + adv, true))
    } else if code == C_FG_RUN || code == C_MEGA_FG_RUN || code == C_LITE_SET_FG_FG_RUN || code
        == C_MEGA_SET_FG_RUN {
        let (run, adv) = match extract_run_length(code, src, s) {
            None => return None,
            Some(x) => x,
        };
        let mut pos = s + adv;
        if code == C_LITE_SET_FG_FG_RUN || code == C_MEGA_SET_FG_RUN {
            if src.len() - pos < p {
                return None;
            }
            *fg = crate::bytes::to_vec(crate::bytes::range(src, pos, pos + p));
            pos = pos + p;
        }
        if !write_run(out, total, rd, p, PelKind::Foreground, fg.as_slice(), run) {
            return None;
        }
        Some((pos, false))
    } else if code == C_COLOR_RUN || code == C_MEGA_COLOR_RUN {
        let (run, adv) = match extract_run_length(code, src, s) {
            None => return None,
            Some(x) => x,
        };
        let pos = s + adv;
        if src.len() - pos < p {
            return None;
        }
        let color = crate::bytes::range(src, pos, pos + p);
        if !write_run(out, total, rd, p, PelKind::Literal, color, run) {
            return None;
        }
        Some((pos + p, false))
    } else if code == C_COLOR_IMAGE || code == C_MEGA_COLOR_IMAGE {
        let (run, adv) = match extract_run_length(code, src, s) {
            None => return None,
            Some(x) => x,
        };
        match write_image(out, total, src, s + adv, p, run) {
            None => None,
            Some(pos) => Some((pos, false)),
        }
    } else if code == C_FGBG_IMAGE || code == C_MEGA_FGBG_IMAGE || code == C_LITE_SET_FG_FGBG_IMAGE
        || code == C_MEGA_SET_FGBG_IMAGE {
        let (run, adv) = match extract_run_length(code, src, s) {
            None => return None,
            Some(x) => x,
        };
        let mut pos = s + adv;
        if code == C_LITE_SET_FG_FGBG_IMAGE || code == C_MEGA_SET_FGBG_IMAGE {
            if src.len() - pos < p {
                return None;
            }
            *fg = crate::bytes::to_vec(crate::bytes::range(src, pos, pos + p));
            pos = pos + p;
        }
        match write_fgbg_image(out, total, rd, p, fg.as_slice(), src, pos, run) {
            None => None,
            Some(end) => Some((end, false)),
        }
    } else if code == C_LITE_DITHERED_RUN || code == C_MEGA_DITHERED_RUN {
        let (run, adv) = match extract_run_length(code, src, s) {
            None => return None,
            Some(x) => x,
        };
        let pos = s + adv;
        if (src.len() - pos) / 2 < p {
            return None;
        }
        let pair = crate::bytes::range(src, pos, pos + 2 * p);
        if !write_run(out, total, rd, p, PelKind::Literal, pair, run) {
            return None;
        }
        Some((pos + 2 * p, false))
    } else if code == C_SPECIAL_FGBG_1 || code == C_SPECIAL_FGBG_2 {
        let mask: u8 = if code == C_SPECIAL_FGBG_1 { 0x03 } else { 0x05 };
        if !write_fgbg(out, total, rd, p, fg.as_slice(), mask, 8) {
            return None;
        }
        Some((s + 1, false))
    } else if code == C_SPECIAL_WHITE || code == C_SPECIAL_BLACK {
        let b: u8 = if code == C_SPECIAL_WHITE { 0xFF } else { 0x00 };
        let pel = vec![b; p];
        proof {
            if code == C_SPECIAL_WHITE {
                assert(pel@ =~= Seq::new(p as nat, |i: int| 0xFFu8));
            } else {
                assert(pel@ =~= Seq::new(p as nat, |i: int| 0u8));
            }
        }
        if !write_pel(out, total, pel.as_slice()) {
            return None;
        }
        Some((s + 1, false))
    } else {
        None
    }
}

/// Decompress an interleaved-RLE bitmap rectangle into raw (bottom-up) pixel
/// bytes, the same layout as an uncompressed rectangle, ready for
/// [`to_rgba`]. `None` for an unsupported pixel size (8/15/16/24 bpp are
/// supported) or a malformed or overrunning stream.
pub fn decompress_interleaved(src: &[u8], width: u16, height: u16, bpp: u16) -> (r: Option<Vec<u8>>)
    ensures
        r is None <==> spec_decompress(src@, width, height, bpp) is None,
        r matches Some(v) ==> spec_decompress(src@, width, height, bpp) == Some(v@)
            && v@.len() == width as nat * height as nat * rle_bytes_per_pixel(bpp),
{
    let p: usize = if bpp == 8 {
        1
    } else if bpp == 15 || bpp == 16 {
        2
    } else if bpp == 24 {
        3
    } else {
        return None;
    };
    let w = width as usize;
    let h = height as usize;
    let wh = match w.checked_mul(h) {
        None => {
            proof {
                assert(w as nat * h as nat * p as nat >= w as nat * h as nat) by (nonlinear_arith)
                    requires p >= 1;
            }
            return None;
        },
        Some(x) => x,
    };
    let total = match wh.checked_mul(p) {
        None => return None,
        Some(x) => x,
    };
    if total == 0 {
        return Some(Vec::new());
    }
    proof {
        assert(w >= 1 && h >= 1 && w * p <= total) by (nonlinear_arith)
            requires
                total == w * h * p,
                total > 0,
                p >= 1,
        ;
    }
    let rd = w * p;
    let ghost start: RleState = (Seq::empty(), 0, Seq::new(p as nat, |i: int| 0xFFu8), false);
    let ghost goal = rle_decode(src@, total as nat, rd as nat, p as nat, start);
    let mut out: Vec<u8> = Vec::new();
    let mut fg: Vec<u8> = vec![0xFFu8; p];
    let mut s: usize = 0;
    let mut prev_bg = false;
    assert(out@ =~= start.0);
    assert(fg@ =~= start.2);
    while s < src.len()
        invariant
            1 <= p <= rd,
            out@.len() <= total,
            fg@.len() == p,
            p as nat == rle_bytes_per_pixel(bpp),
            total as nat == width as nat * height as nat * p as nat,
            rd as nat == width as nat * p as nat,
            total > 0,
            start == (Seq::<u8>::empty(), 0nat, Seq::new(p as nat, |i: int| 0xFFu8), false),
            goal == rle_decode(src@, total as nat, rd as nat, p as nat, start),
            goal == rle_decode(src@, total as nat, rd as nat, p as nat, (out@, s as nat, fg@, prev_bg)),
        decreases src@.len() - s,
    {
        let ghost cur: RleState = (out@, s as nat, fg@, prev_bg);
        match decode_order(src, total, rd, p, &mut out, &mut fg, s, prev_bg) {
            None => {
                assert(rle_decode(src@, total as nat, rd as nat, p as nat, cur) is None);
                return None;
            },
            Some((next, pb)) => {
                s = next;
                prev_bg = pb;
            },
        }
    }
    let ghost body = out@;
    while out.len() < total
        invariant
            body.len() <= out@.len() <= total,
            out@ == body + Seq::new((out@.len() - body.len()) as nat, |i: int| 0u8),
        decreases total - out@.len(),
    {
        out.push(0);
        assert(out@ =~= body + Seq::new((out@.len() - body.len()) as nat, |i: int| 0u8));
    }
    Some(out)
}

/// Display row `r` of an RGBA image `w` pixels wide.
pub open spec fn rgba_row(out: Seq<u8>, w: nat, r: nat) -> Seq<u8> {
    out.subrange((4 * w * r) as int, (4 * w * r + 4 * w) as int)
}

/// Byte `t` of the pixel at display row `r`, column `c` of an RGBA image
/// `w` pixels wide.
pub open spec fn rgba_at(out: Seq<u8>, w: nat, r: nat, c: nat, t: nat) -> u8 {
    out[(4 * w * r + 4 * c + t) as int]
}

proof fn lemma_pixel_len(data: Seq<u8>, w: nat, h: nat, bpp: u16, bottom_up: bool, row: nat, col: nat)
    ensures
        pixel_rgba(data, w, h, bpp, bottom_up, row, col).len() == 4,
        pixel_rgba(data, w, h, bpp, bottom_up, row, col)[3] == 0xFF,
{
}

proof fn lemma_row_alpha(data: Seq<u8>, w: nat, h: nat, bpp: u16, bottom_up: bool, row: nat, n: nat, c: nat)
    requires
        c < n,
    ensures
        row_rgba(data, w, h, bpp, bottom_up, row, n)[(4 * c + 3) as int] == 0xFF,
    decreases n,
{
    lemma_row_rgba_len(data, w, h, bpp, bottom_up, row, (n - 1) as nat);
    lemma_pixel_len(data, w, h, bpp, bottom_up, row, (n - 1) as nat);
    if c < n - 1 {
        lemma_row_alpha(data, w, h, bpp, bottom_up, row, (n - 1) as nat, c);
    }
}

proof fn lemma_row_flip(data: Seq<u8>, w: nat, h: nat, bpp: u16, r: nat, n: nat)
    requires
        r < h,
    ensures
        row_rgba(data, w, h, bpp, true, r, n) == row_rgba(data, w, h, bpp, false, (h - 1 - r) as nat, n),
    decreases n,
{
    if n > 0 {
        lemma_row_flip(data, w, h, bpp, r, (n - 1) as nat);
        assert(pixel_rgba(data, w, h, bpp, true, r, (n - 1) as nat) == pixel_rgba(
            data,
            w,
            h,
            bpp,
            false,
            (h - 1 - r) as nat,
            (n - 1) as nat,
        ));
    }
}

proof fn lemma_rows_slice(data: Seq<u8>, w: nat, h: nat, bpp: u16, bottom_up: bool, n: nat, r: nat)
    requires
        r < n,
    ensures
        rgba_row(rows_rgba(data, w, h, bpp, bottom_up, n), w, r) == row_rgba(data, w, h, bpp, bottom_up, r, w),
    decreases n,
{
    let p = rows_rgba(data, w, h, bpp, bottom_up, (n - 1) as nat);
    let q = row_rgba(data, w, h, bpp, bottom_up, (n - 1) as nat, w);
    let all = rows_rgba(data, w, h, bpp, bottom_up, n);
    lemma_rows_rgba_len(data, w, h, bpp, bottom_up, (n - 1) as nat);
    lemma_row_rgba_len(data, w, h, bpp, bottom_up, (n - 1) as nat, w);
    assert(all == p + q);
    if r < n - 1 {
        lemma_rows_slice(data, w, h, bpp, bottom_up, (n - 1) as nat, r);
        assert(4 * w * r + 4 * w <= 4 * w * (n - 1)) by (nonlinear_arith)
            requires
                r + 1 <= n - 1,
        ;
        assert(rgba_row(all, w, r) =~= rgba_row(p, w, r));
    } else {
        assert(rgba_row(all, w, r) =~= q);
    }
}

/// What `to_rgba` makes of valid input: an image of `4 * w * h` bytes whose
/// every pixel is opaque, and the bottom-up reading is the top-down one with
/// its rows in reverse order.
pub proof fn lemma_to_rgba_layout(data: Seq<u8>, width: u16, height: u16, bpp: u16)
    requires
        spec_to_rgba(data, width, height, bpp, false) is Some,
    ensures
        spec_to_rgba(data, width, height, bpp, true) is Some,
        spec_to_rgba(data, width, height, bpp, false)->Some_0.len() == 4 * width as nat * height as nat,
        spec_to_rgba(data, width, height, bpp, true)->Some_0.len() == 4 * width as nat * height as nat,
        forall|r: nat| r < height ==> #[trigger] rgba_row(spec_to_rgba(data, width, height, bpp, true)->Some_0, width as nat, r)
            == rgba_row(spec_to_rgba(data, width, height, bpp, false)->Some_0, width as nat, (height - 1 - r) as nat),
        forall|b: bool, r: nat, c: nat| r < height && c < width ==> #[trigger] rgba_at(
            spec_to_rgba(data, width, height, bpp, b)->Some_0,
            width as nat,
            r,
            c,
            3,
        ) == 0xFF,
{
    let (w, h) = (width as nat, height as nat);
    lemma_rows_rgba_len(data, w, h, bpp, false, h);
    lemma_rows_rgba_len(data, w, h, bpp, true, h);
    assert forall|r: nat| r < height implies #[trigger] rgba_row(spec_to_rgba(data, width, height, bpp, true)->Some_0, w, r)
        == rgba_row(spec_to_rgba(data, width, height, bpp, false)->Some_0, w, (height - 1 - r) as nat) by {
        lemma_rows_slice(data, w, h, bpp, true, h, r);
        lemma_rows_slice(data, w, h, bpp, false, h, (h - 1 - r) as nat);
        lemma_row_flip(data, w, h, bpp, r, w);
    }
    assert forall|b: bool, r: nat, c: nat| r < height && c < width implies #[trigger] rgba_at(
        spec_to_rgba(data, width, height, bpp, b)->Some_0,
        w,
        r,
        c,
        3,
    ) == 0xFF by {
        let out = rows_rgba(data, w, h, bpp, b, h);
        lemma_rows_slice(data, w, h, bpp, b, h, r);
        lemma_row_alpha(data, w, h, bpp, b, r, w, c);
        lemma_rows_rgba_len(data, w, h, bpp, b, h);
        assert(4 * w * r + 4 * w <= 4 * w * h) by (nonlinear_arith)
            requires
                r + 1 <= h,
        ;
        assert(rgba_row(out, w, r)[(4 * c + 3) as int] == out[(4 * w * r + 4 * c + 3) as int]);
    }
}

/// The two special FGBG orders are shorthands: `0xF9` decodes exactly like
/// the one-byte FGBG image order `0x41 0x03` (eight pixels, mask `0x03`),
/// and `0xFA` like `0x41 0x05` (mask `0x05`), from any decoder state: same
/// pixels, same foreground colour, each consuming its own bytes.
pub proof fn lemma_special_fgbg_abbreviates(total: nat, rd: nat, p: nat, out: Seq<u8>, fg: Seq<u8>, prev_bg: bool)
    ensures
        ({
            let a = rle_step(seq![0xF9u8], total, rd, p, (out, 0, fg, prev_bg));
            let b = rle_step(seq![0x41u8, 0x03u8], total, rd, p, (out, 0, fg, prev_bg));
            &&& a is Some <==> b is Some
            &&& a is Some ==> a.unwrap().0 == b.unwrap().0 && a.unwrap().1 == 1 && b.unwrap().1 == 2
                && a.unwrap().2 == b.unwrap().2 && a.unwrap().3 == b.unwrap().3
        }),
        ({
            let a = rle_step(seq![0xFAu8], total, rd, p, (out, 0, fg, prev_bg));
            let b = rle_step(seq![0x41u8, 0x05u8], total, rd, p, (out, 0, fg, prev_bg));
            &&& a is Some <==> b is Some
            &&& a is Some ==> a.unwrap().0 == b.unwrap().0 && a.unwrap().1 == 1 && b.unwrap().1 == 2
                && a.unwrap().2 == b.unwrap().2 && a.unwrap().3 == b.unwrap().3
        }),
{
    assert(code_of(0xF9u8) == 0xF9u8) by (bit_vector);
    assert(code_of(0xFAu8) == 0xFAu8) by (bit_vector);
    assert(code_of(0x41u8) == 2u8) by (bit_vector);
    assert(0x41u8 & 0x1Fu8 == 1u8) by (bit_vector);
    let s1 = seq![0x41u8, 0x03u8];
    let s2 = seq![0x41u8, 0x05u8];
    assert(run_length_of(C_FGBG_IMAGE, s1, 0) == Some((8nat, 1nat)));
    assert(run_length_of(C_FGBG_IMAGE, s2, 0) == Some((8nat, 1nat)));
    assert(!sets_fg(C_FGBG_IMAGE));
    reveal_with_fuel(fgbg_image, 2);
}

/// On the first scanline the pixel above counts as black: a foreground
/// pixel there is the foreground colour itself, a background pixel is black.
proof fn lemma_first_line_pels(out: Seq<u8>, rd: nat, p: nat, fg: Seq<u8>)
    requires
        out.len() + p <= rd,
        fg.len() == p,
    ensures
        fg_pel(out, rd, p, fg) == fg,
        bg_pel(out, rd, p) == Seq::new(p, |i: int| 0u8),
{
    assert(forall|x: u8| 0u8 ^ x == x) by (bit_vector);
    if p > 0 {
        assert(out.len() < rd);
    }
    assert(fg_pel(out, rd, p, fg) =~= fg);
    assert(bg_pel(out, rd, p) =~= Seq::new(p, |i: int| 0u8));
}

/// One FGBG pixel on the first scanline, with room left for it.
proof fn lemma_first_line_fgbg_step(out: Seq<u8>, total: nat, rd: nat, p: nat, fg: Seq<u8>, mask: u8, i: u32, cbits: u32)
    requires
        i < cbits,
        out.len() + p <= rd,
        out.len() + p <= total,
        fg.len() == p,
    ensures
        fgbg_bits(out, total, rd, p, fg, mask, i, cbits) == fgbg_bits(
            out + (if mask_bit(mask, i) { fg } else { Seq::new(p, |k: int| 0u8) }),
            total,
            rd,
            p,
            fg,
            mask,
            (i + 1) as u32,
            cbits,
        ),
{
    lemma_first_line_pels(out, rd, p, fg);
}

/// What the two special FGBG orders write on the first scanline of the
/// rectangle, where the pixel above counts as black: `0xF9` (mask `0x03`)
/// gives two foreground pixels and six black ones; `0xFA` (mask `0x05`) gives
/// foreground, black, foreground and five black pixels. Either consumes its
/// one byte, keeps the foreground colour and clears the background-run flag.
pub proof fn lemma_special_fgbg_first_line(src: Seq<u8>, total: nat, rd: nat, p: nat, out: Seq<u8>, s: nat, fg: Seq<u8>, prev_bg: bool)
    requires
        s < src.len(),
        fg.len() == p,
        out.len() + 8 * p <= rd,
        out.len() + 8 * p <= total,
    ensures
        src[s as int] == 0xF9u8 ==> rle_step(src, total, rd, p, (out, s, fg, prev_bg)) == Some(
            (out + fg + fg + Seq::new(6 * p, |k: int| 0u8), s + 1, fg, false),
        ),
        src[s as int] == 0xFAu8 ==> rle_step(src, total, rd, p, (out, s, fg, prev_bg)) == Some(
            (out + fg + Seq::new(p, |k: int| 0u8) + fg + Seq::new(5 * p, |k: int| 0u8), s + 1, fg, false),
        ),
{
    assert(code_of(0xF9u8) == 0xF9u8) by (bit_vector);
    assert(code_of(0xFAu8) == 0xFAu8) by (bit_vector);
    let z = Seq::new(p, |k: int| 0u8);
    if src[s as int] == 0xF9u8 || src[s as int] == 0xFAu8 {
        let mask: u8 = if src[s as int] == 0xF9u8 { 0x03 } else { 0x05 };
        assert(mask_bit(0x03, 0) && mask_bit(0x03, 1) && !mask_bit(0x03, 2) && !mask_bit(0x03, 3)
            && !mask_bit(0x03, 4) && !mask_bit(0x03, 5) && !mask_bit(0x03, 6) && !mask_bit(0x03, 7)) by (bit_vector);
        assert(mask_bit(0x05, 0) && !mask_bit(0x05, 1) && mask_bit(0x05, 2) && !mask_bit(0x05, 3)
            && !mask_bit(0x05, 4) && !mask_bit(0x05, 5) && !mask_bit(0x05, 6) && !mask_bit(0x05, 7)) by (bit_vector);
        let px = |j: u32| if mask_bit(mask, j) { fg } else { z };
        let o1 = out + px(0);
        let o2 = o1 + px(1);
        let o3 = o2 + px(2);
        let o4 = o3 + px(3);
        let o5 = o4 + px(4);
        let o6 = o5 + px(5);
        let o7 = o6 + px(6);
        let o8 = o7 + px(7);
        lemma_first_line_fgbg_step(out, total, rd, p, fg, mask, 0, 8);
        lemma_first_line_fgbg_step(o1, total, rd, p, fg, mask, 1, 8);
        lemma_first_line_fgbg_step(o2, total, rd, p, fg, mask, 2, 8);
        lemma_first_line_fgbg_step(o3, total, rd, p, fg, mask, 3, 8);
        lemma_first_line_fgbg_step(o4, total, rd, p, fg, mask, 4, 8);
        lemma_first_line_fgbg_step(o5, total, rd, p, fg, mask, 5, 8);
        lemma_first_line_fgbg_step(o6, total, rd, p, fg, mask, 6, 8);
        lemma_first_line_fgbg_step(o7, total, rd, p, fg, mask, 7, 8);
        assert(fgbg_bits(o8, total, rd, p, fg, mask, 8, 8) == Some(o8));
        if mask == 0x03 {
            assert(o8 =~= out + fg + fg + Seq::new(6 * p, |k: int| 0u8));
        } else {
            assert(o8 =~= out + fg + z + fg + Seq::new(5 * p, |k: int| 0u8));
        }
    }
}

/// A rectangle at least eight pixels wide given by the single order `0xF9`:
/// its first two pixels take the initial foreground colour (all bits set) and
/// everything else is black; `0xFA` sets the first and third pixels instead.
pub proof fn lemma_special_fgbg_rectangle(width: u16, height: u16, bpp: u16)
    requires
        width >= 8,
        height >= 1,
        rle_bytes_per_pixel(bpp) > 0,
        width as nat * height as nat * rle_bytes_per_pixel(bpp) <= usize::MAX,
    ensures
        ({
            let p = rle_bytes_per_pixel(bpp);
            let total = width as nat * height as nat * p;
            let ff = Seq::new(p, |k: int| 0xFFu8);
            &&& spec_decompress(seq![0xF9u8], width, height, bpp) == Some(
                ff + ff + Seq::new((total - 2 * p) as nat, |k: int| 0u8),
            )
            &&& spec_decompress(seq![0xFAu8], width, height, bpp) == Some(
                ff + Seq::new(p, |k: int| 0u8) + ff + Seq::new((total - 3 * p) as nat, |k: int| 0u8),
            )
        }),
{
    let p = rle_bytes_per_pixel(bpp);
    let total = width as nat * height as nat * p;
    let rd = width as nat * p;
    let ff = Seq::new(p, |k: int| 0xFFu8);
    let e = Seq::<u8>::empty();
    assert(8 * p <= rd && rd <= total) by (nonlinear_arith)
        requires
            width >= 8,
            height >= 1,
            rd == width as nat * p,
            total == width as nat * height as nat * p,
    ;
    let a = seq![0xF9u8];
    let b = seq![0xFAu8];
    lemma_special_fgbg_first_line(a, total, rd, p, e, 0, ff, false);
    lemma_special_fgbg_first_line(b, total, rd, p, e, 0, ff, false);
    let oa = e + ff + ff + Seq::new(6 * p, |k: int| 0u8);
    let ob = e + ff + Seq::new(p, |k: int| 0u8) + ff + Seq::new(5 * p, |k: int| 0u8);
    assert(rle_decode(a, total, rd, p, (e, 0, ff, false)) == Some(oa));
    assert(rle_decode(b, total, rd, p, (e, 0, ff, false)) == Some(ob));
    assert(oa + Seq::new((total - oa.len()) as nat, |k: int| 0u8) =~= ff + ff + Seq::new(
        (total - 2 * p) as nat,
        |k: int| 0u8,
    ));
    assert(ob + Seq::new((total - ob.len()) as nat, |k: int| 0u8) =~= ff + Seq::new(p, |k: int| 0u8) + ff
        + Seq::new((total - 3 * p) as nat, |k: int| 0u8));
}

} // verus!
