use rdpio::graphics::avc::{nal_units, parse_avc420, parse_avc444, Avc444Lc, QuantQuality};
use rdpio::graphics::bitmap::{decompress_interleaved, parse_bitmap_update, to_rgba};
use rdpio::graphics::pool::{bucket_index, BufferPool};
use rdpio::graphics::surface::{GfxCommand, SurfaceTable};

#[test]
fn parse_one_uncompressed_rect() {
    let mut body = vec![0x01, 0x00, 0x01, 0x00];
    body.extend_from_slice(&[
        0x00, 0x00, 0x00, 0x00, 0x01, 0x00, 0x01, 0x00, 0x02, 0x00, 0x02, 0x00, 0x20, 0x00, 0x00, 0x00, 0x10, 0x00,
    ]);
    body.extend_from_slice(&[0u8; 16]);
    let update = parse_bitmap_update(&body).unwrap();
    assert_eq!(update.rectangles.len(), 1);
    let r = &update.rectangles[0];
    assert_eq!((r.width, r.height, r.bits_per_pixel), (2, 2, 32));
    assert!(!r.compressed);
    assert_eq!(r.data.len(), 16);
}

#[test]
fn compressed_rect_strips_8byte_header() {
    let mut body = vec![0x01, 0x00, 0x01, 0x00];
    body.extend_from_slice(&[
        0, 0, 0, 0, 0, 0, 0, 0, 0x04, 0x00, 0x01, 0x00, 0x10, 0x00, 0x01, 0x00, 0x0C, 0x00,
    ]);
    body.extend_from_slice(&[0xAA; 8]);
    body.extend_from_slice(&[0x01, 0x02, 0x03, 0x04]);
    let update = parse_bitmap_update(&body).unwrap();
    let r = &update.rectangles[0];
    assert!(r.compressed);
    assert_eq!(r.data, vec![0x01, 0x02, 0x03, 0x04]);
}

#[test]
fn bitmap_update_rejects_other_types_and_stops_at_truncation() {
    assert!(parse_bitmap_update(&[0x02, 0x00, 0x00, 0x00]).is_none());
    assert!(parse_bitmap_update(&[0x01, 0x00]).is_none());
    // Two rectangles announced, only one complete: one is returned.
    let mut body = vec![0x01, 0x00, 0x02, 0x00];
    body.extend_from_slice(&[0, 0, 0, 0, 0, 0, 0, 0, 1, 0, 1, 0, 0x20, 0, 0, 0, 4, 0]);
    body.extend_from_slice(&[1, 2, 3, 4]);
    body.extend_from_slice(&[0, 0, 0]);
    let update = parse_bitmap_update(&body).unwrap();
    assert_eq!(update.rectangles.len(), 1);
    assert_eq!(update.rectangles[0].data, vec![1, 2, 3, 4]);
}

#[test]
fn to_rgba_32bpp_bgra_to_rgba() {
    let px = to_rgba(&[0x10, 0x20, 0x30, 0xFF], 1, 1, 32, false).unwrap();
    assert_eq!(px, vec![0x30, 0x20, 0x10, 0xFF]);
}

#[test]
fn to_rgba_bottom_up_flips_rows() {
    let data = [0x00, 0x00, 0xFF, 0xFF, 0xFF, 0x00, 0x00, 0xFF];
    let px = to_rgba(&data, 1, 2, 32, true).unwrap();
    assert_eq!(&px[0..4], &[0x00, 0x00, 0xFF, 0xFF]);
    assert_eq!(&px[4..8], &[0xFF, 0x00, 0x00, 0xFF]);
}

#[test]
fn to_rgba_rejects_short_data() {
    assert!(to_rgba(&[0u8; 3], 2, 2, 32, false).is_none());
}

#[test]
fn to_rgba_16_and_15_bpp_expand_channels() {
    // RGB565 white and pure red.
    assert_eq!(to_rgba(&[0xFF, 0xFF], 1, 1, 16, false).unwrap(), vec![0xFF, 0xFF, 0xFF, 0xFF]);
    assert_eq!(to_rgba(&[0x00, 0xF8], 1, 1, 16, false).unwrap(), vec![0xFF, 0x00, 0x00, 0xFF]);
    // RGB555 pure green.
    assert_eq!(to_rgba(&[0xE0, 0x03], 1, 1, 15, false).unwrap(), vec![0x00, 0xFF, 0x00, 0xFF]);
    // 24 bpp is BGR.
    assert_eq!(to_rgba(&[1, 2, 3], 1, 1, 24, false).unwrap(), vec![3, 2, 1, 0xFF]);
}

#[test]
fn to_rgba_rejects_bad_dimensions_and_depth() {
    assert!(to_rgba(&[0u8; 4], 0, 1, 32, false).is_none());
    assert!(to_rgba(&[0u8; 4], 1, 1, 8, false).is_none());
    assert!(to_rgba(&[0u8; 4], 16385, 1, 32, false).is_none());
}

#[test]
fn rle_color_image_copies_literal_pixels() {
    let mut s = vec![0x84];
    let pixels = [1, 2, 3, 4, 5, 6, 7, 8, 9, 10, 11, 12];
    s.extend_from_slice(&pixels);
    let out = decompress_interleaved(&s, 4, 1, 24).unwrap();
    assert_eq!(out, pixels);
}

#[test]
fn rle_color_run_repeats_one_color() {
    let s = [0x64, 0xAA, 0xBB, 0xCC];
    let out = decompress_interleaved(&s, 4, 1, 24).unwrap();
    assert_eq!(out, [0xAA, 0xBB, 0xCC].repeat(4));
}

#[test]
fn rle_bg_run_first_line_is_black() {
    let s = [0x04];
    let out = decompress_interleaved(&s, 4, 1, 24).unwrap();
    assert_eq!(out, vec![0u8; 12]);
}

#[test]
fn rle_set_fg_run_first_line_is_fgpel() {
    let s = [0xC4, 0x11, 0x22, 0x33];
    let out = decompress_interleaved(&s, 4, 1, 24).unwrap();
    assert_eq!(out, [0x11, 0x22, 0x33].repeat(4));
}

#[test]
fn rle_bg_run_copies_previous_scanline() {
    let line0 = [1, 2, 3, 4, 5, 6, 7, 8, 9, 10, 11, 12];
    let mut s = vec![0x84];
    s.extend_from_slice(&line0);
    s.push(0x04);
    let out = decompress_interleaved(&s, 4, 2, 24).unwrap();
    assert_eq!(&out[0..12], &line0);
    assert_eq!(&out[12..24], &line0);
}

#[test]
fn rle_fgbg_image_first_line_uses_mask() {
    let s = [0x41, 0xAA];
    let out = decompress_interleaved(&s, 8, 1, 8).unwrap();
    assert_eq!(out, vec![0x00, 0xFF, 0x00, 0xFF, 0x00, 0xFF, 0x00, 0xFF]);
}

#[test]
fn rle_special_white_and_black() {
    let s = [0xFD, 0xFE];
    let out = decompress_interleaved(&s, 2, 1, 8).unwrap();
    assert_eq!(out, vec![0xFF, 0x00]);
}

#[test]
fn rle_consecutive_bg_runs_insert_fg_pixel() {
    let s = [0xC1, 0x55, 0x02, 0x02];
    let out = decompress_interleaved(&s, 5, 1, 8).unwrap();
    assert_eq!(out, vec![0x55, 0x00, 0x00, 0x55, 0x00]);
}

#[test]
fn rle_rejects_overrun() {
    let s = [0x84, 1, 2, 3];
    assert!(decompress_interleaved(&s, 4, 1, 24).is_none());
}

#[test]
fn rle_unsupported_bpp_returns_none() {
    assert!(decompress_interleaved(&[0x04], 4, 1, 32).is_none());
}

#[test]
fn rle_short_stream_is_zero_padded_and_empty_rect_is_empty() {
    // One white pixel of four: the rest stays zero.
    assert_eq!(decompress_interleaved(&[0xFD], 4, 1, 8).unwrap(), vec![0xFF, 0, 0, 0]);
    assert_eq!(decompress_interleaved(&[0xFD], 0, 5, 8).unwrap(), Vec::<u8>::new());
}

#[test]
fn rle_dithered_and_mega_runs() {
    // LITE_DITHERED_RUN (0xE0) length 2: pairs of two colours.
    let s = [0xE2, 0x01, 0x02];
    assert_eq!(decompress_interleaved(&s, 4, 1, 8).unwrap(), vec![1, 2, 1, 2]);
    // MEGA_MEGA_COLOR_RUN (0xF3) length 3 in the next two bytes.
    let s = [0xF3, 0x03, 0x00, 0x07];
    assert_eq!(decompress_interleaved(&s, 3, 1, 8).unwrap(), vec![7, 7, 7]);
    // An unknown order code is rejected.
    assert!(decompress_interleaved(&[0xA1], 3, 1, 8).is_none());
}

#[test]
fn rle_fg_run_on_second_line_xors_above() {
    // Line 0: colour image 1,2; line 1: FG run of 2 with the default white
    // foreground, giving above ^ 0xFF.
    let s = [0x82, 0x01, 0x02, 0x22];
    assert_eq!(decompress_interleaved(&s, 2, 2, 8).unwrap(), vec![0x01, 0x02, 0xFE, 0xFD]);
}

#[test]
fn avc420_metablock_then_h264() {
    let mut b = Vec::new();
    b.extend_from_slice(&1u32.to_le_bytes());
    b.extend_from_slice(&[0, 0, 0, 0, 0x80, 0x07, 0x38, 0x04]);
    b.extend_from_slice(&[51, 100]);
    b.extend_from_slice(&[0x00, 0x00, 0x01, 0x67, 0xAA]);
    let s = parse_avc420(&b).unwrap();
    assert_eq!(s.rects.len(), 1);
    assert_eq!(s.rects[0].right, 1920);
    assert_eq!(s.quants[0], QuantQuality { qp: 51, quality: 100 });
    assert_eq!(s.h264, &[0x00, 0x00, 0x01, 0x67, 0xAA]);
}

#[test]
fn avc444_luma_only_has_one_substream() {
    let stream1 = {
        let mut b = Vec::new();
        b.extend_from_slice(&0u32.to_le_bytes());
        b.extend_from_slice(&[0x00, 0x00, 0x01, 0x65]);
        b
    };
    let mut buf = Vec::new();
    let word = (1u32 << 30) | (stream1.len() as u32);
    buf.extend_from_slice(&word.to_le_bytes());
    buf.extend_from_slice(&stream1);
    let s = parse_avc444(&buf).unwrap();
    assert_eq!(s.lc, Avc444Lc::LumaOnly);
    assert!(s.stream2.is_none());
    assert_eq!(s.stream1.h264, &[0x00, 0x00, 0x01, 0x65]);
}

#[test]
fn avc444_both_splits_two_substreams() {
    let mk = |nal: u8| {
        let mut b = Vec::new();
        b.extend_from_slice(&0u32.to_le_bytes());
        b.extend_from_slice(&[0x00, 0x00, 0x01, nal]);
        b
    };
    let s1 = mk(0x67);
    let s2 = mk(0x68);
    let mut buf = Vec::new();
    let word = s1.len() as u32;
    buf.extend_from_slice(&word.to_le_bytes());
    buf.extend_from_slice(&s1);
    buf.extend_from_slice(&s2);
    let s = parse_avc444(&buf).unwrap();
    assert_eq!(s.lc, Avc444Lc::Both);
    assert_eq!(s.stream1.h264, &[0, 0, 1, 0x67]);
    assert_eq!(s.stream2.unwrap().h264, &[0, 0, 1, 0x68]);
}

#[test]
fn avc_rejects_reserved_selector_and_short_metablock() {
    assert!(parse_avc444(&(3u32 << 30).to_le_bytes()).is_none());
    let mut b = 2u32.to_le_bytes().to_vec();
    b.extend_from_slice(&[0u8; 8]);
    assert!(parse_avc420(&b).is_none());
}

#[test]
fn nal_split_three_and_four_byte_start_codes() {
    let stream = [0x00, 0x00, 0x00, 0x01, 0x67, 0x42, 0x00, 0x00, 0x01, 0x68, 0xCE];
    let nals = nal_units(&stream);
    assert_eq!(nals.len(), 2);
    assert_eq!(nals[0], &[0x67, 0x42]);
    assert_eq!(nals[1], &[0x68, 0xCE]);
}

#[test]
fn nal_split_single_unit() {
    let stream = [0x00, 0x00, 0x01, 0x09, 0x10];
    assert_eq!(nal_units(&stream), vec![&[0x09, 0x10][..]]);
}

#[test]
fn nal_split_ignores_leading_bytes_and_handles_none() {
    assert_eq!(nal_units(&[1, 2, 3]).len(), 0);
    assert_eq!(nal_units(&[7, 0, 0, 1, 5]), vec![&[5u8][..]]);
}

#[test]
fn pooled_buffer_is_zeroed_and_sized() {
    let mut pool = BufferPool::new();
    let buf = pool.acquire(1024);
    assert_eq!(buf.len(), 1024);
    assert!(buf.iter().all(|&b| b == 0));
}

#[test]
fn release_and_reuse_preserves_capacity() {
    let mut pool = BufferPool::new();
    let buf = pool.acquire(1000);
    let cap = buf.capacity();
    pool.release(buf);
    let buf2 = pool.acquire(1000);
    assert_eq!(buf2.capacity(), cap);
    assert_eq!(buf2.len(), 1000);
}

#[test]
fn acquire_keeps_other_pooled_buffers() {
    let mut pool = BufferPool::new();
    for _ in 0..4 {
        pool.release(Vec::with_capacity(1024));
    }
    let _one = pool.acquire(1024);
    assert_eq!(pool.bucket_len(bucket_index(1024)), 3);
}

#[test]
fn retention_limit_respected() {
    let mut pool = BufferPool::with_limit(2);
    for _ in 0..10 {
        pool.release(vec![0u8; 256]);
    }
    assert_eq!(pool.bucket_len(bucket_index(256)), 2);
}

#[test]
fn bucket_index_is_floor_log2() {
    assert_eq!(bucket_index(0), 0);
    assert_eq!(bucket_index(1), 0);
    assert_eq!(bucket_index(2), 1);
    assert_eq!(bucket_index(3), 1);
    assert_eq!(bucket_index(1000), 9);
    assert_eq!(bucket_index(1023), 9);
    assert_eq!(bucket_index(1024), 10);
    assert_eq!(bucket_index(1025), 10);
    assert_eq!(bucket_index(usize::MAX), usize::BITS as usize - 1);
}

#[test]
fn released_buffer_lands_in_floor_bucket_and_is_reused() {
    let mut pool = BufferPool::new();
    pool.release_with_capacity(Vec::new(), 1000);
    assert_eq!(pool.bucket_len(9), 1);
    assert_eq!(pool.bucket_len(10), 0);
    let _b = pool.acquire(1000);
    assert_eq!(pool.bucket_len(9), 0);
    // A pooled buffer too small for the request stays pooled.
    pool.release_with_capacity(Vec::new(), 520);
    let _c = pool.acquire(1000);
    assert_eq!(pool.bucket_len(9), 1);
}

#[test]
fn reused_buffer_is_zeroed() {
    let mut pool = BufferPool::new();
    let mut buf = pool.acquire(100);
    buf.iter_mut().for_each(|b| *b = 9);
    pool.release(buf);
    let again = pool.acquire(100);
    assert!(again.iter().all(|&b| b == 0));
    // A tiny buffer is not pooled.
    pool.release(Vec::with_capacity(8));
    assert_eq!(pool.bucket_len(bucket_index(8)), 0);
}

fn create(id: u16, w: u16, h: u16) -> GfxCommand {
    GfxCommand::CreateSurface { surface_id: id, width: w, height: h, pixel_format: 0x20 }
}

#[test]
fn create_map_lookup() {
    let mut t = SurfaceTable::new();
    t.apply(&create(1, 1024, 768));
    assert_eq!(t.output_origin(1), Some((0, 0)));
    t.apply(&GfxCommand::MapSurfaceToOutput { surface_id: 1, x: 100, y: 50 });
    assert_eq!(t.output_origin(1), Some((100, 50)));
    assert_eq!(t.get(1).unwrap().width, 1024);
}

#[test]
fn delete_removes() {
    let mut t = SurfaceTable::new();
    t.apply(&create(2, 64, 64));
    t.apply(&GfxCommand::DeleteSurface { surface_id: 2 });
    assert_eq!(t.output_origin(2), None);
}

#[test]
fn unknown_surface_is_none() {
    let t = SurfaceTable::new();
    assert_eq!(t.output_origin(9), None);
}

#[test]
fn map_unknown_surface_is_ignored() {
    let mut t = SurfaceTable::new();
    t.apply(&GfxCommand::MapSurfaceToOutput { surface_id: 5, x: 1, y: 2 });
    assert_eq!(t.get(5), None);
}

#[test]
fn recreate_surface_resets_mapping() {
    let mut t = SurfaceTable::new();
    t.apply(&create(3, 10, 10));
    t.apply(&GfxCommand::MapSurfaceToOutput { surface_id: 3, x: 4, y: 5 });
    t.apply(&create(3, 20, 20));
    assert_eq!(t.output_origin(3), Some((0, 0)));
    t.apply(&GfxCommand::Other);
    assert_eq!(t.get(3).unwrap().width, 20);
}

#[test]
fn to_rgba_bottom_up_is_top_down_with_rows_reversed() {
    let data: Vec<u8> = (0u8..24).collect();
    let td = to_rgba(&data, 2, 3, 32, false).unwrap();
    let bu = to_rgba(&data, 2, 3, 32, true).unwrap();
    assert_eq!(td.len(), 2 * 3 * 4);
    for r in 0..3 {
        assert_eq!(&bu[r * 8..r * 8 + 8], &td[(2 - r) * 8..(2 - r) * 8 + 8]);
    }
    assert!(td.chunks(4).all(|p| p[3] == 0xFF));
}
