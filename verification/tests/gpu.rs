use rdpio::gpu::geometry::{
    cache_extent, clip_extent, copy_extent, dispatch_groups, gather_rows, nv12_fits, slice_box, update_box, PixelBox,
};
use rdpio::gpu::Backend;

#[test]
fn default_backend_is_d3d11() {
    assert_eq!(Backend::default(), Backend::D3D11);
}

#[test]
fn update_box_clips_to_framebuffer() {
    assert_eq!(
        update_box(90, 40, 20, 20, 20 * 20 * 4, 100, 50),
        Some(PixelBox { left: 90, top: 40, right: 100, bottom: 50 })
    );
    assert_eq!(
        update_box(0, 0, 10, 10, 400, 100, 50),
        Some(PixelBox { left: 0, top: 0, right: 10, bottom: 10 })
    );
}

#[test]
fn update_box_rejects_empty_outside_or_short() {
    assert_eq!(update_box(0, 0, 0, 10, 1000, 100, 50), None);
    assert_eq!(update_box(100, 0, 1, 1, 4, 100, 50), None);
    assert_eq!(update_box(0, 50, 1, 1, 4, 100, 50), None);
    assert_eq!(update_box(0, 0, 10, 10, 399, 100, 50), None);
}

#[test]
fn copy_extent_keeps_both_rectangles_inside() {
    assert_eq!(copy_extent(0, 0, 90, 45, 20, 20, 100, 50), Some((10, 5)));
    assert_eq!(copy_extent(95, 0, 0, 0, 20, 20, 100, 50), Some((5, 20)));
    assert_eq!(copy_extent(0, 0, 100, 0, 20, 20, 100, 50), None);
    assert_eq!(copy_extent(0, 0, 0, 0, 0, 20, 100, 50), None);
}

#[test]
fn cache_and_clip_extents() {
    assert_eq!(cache_extent(90, 40, 20, 20, 100, 50), Some((10, 10)));
    assert_eq!(cache_extent(0, 0, 0, 5, 100, 50), None);
    assert_eq!(clip_extent(99, 49, 5, 5, 100, 50), Some((1, 1)));
    assert_eq!(clip_extent(0, 0, 0, 5, 100, 50), None);
    assert_eq!(clip_extent(100, 0, 5, 5, 100, 50), None);
}

#[test]
fn nv12_needs_even_sides_and_both_planes() {
    assert!(nv12_fits(4, 2, 12));
    assert!(!nv12_fits(4, 2, 11));
    assert!(!nv12_fits(3, 2, 100));
    assert!(!nv12_fits(4, 0, 100));
    assert!(nv12_fits(1920, 1080, 1920 * 1080 * 3 / 2));
}

#[test]
fn dispatch_groups_round_up() {
    assert_eq!(dispatch_groups(1920, 1080), (240, 135));
    assert_eq!(dispatch_groups(1, 9), (1, 2));
    assert_eq!(dispatch_groups(0, 8), (0, 1));
}

#[test]
fn slice_box_clips_and_drops_empty() {
    assert_eq!(slice_box(1920, 0, 1920, 1080, 3840, 1080), Some(PixelBox { left: 1920, top: 0, right: 3840, bottom: 1080 }));
    assert_eq!(slice_box(3000, 0, 1920, 1080, 3840, 1080), Some(PixelBox { left: 3000, top: 0, right: 3840, bottom: 1080 }));
    assert_eq!(slice_box(3840, 0, 1920, 1080, 3840, 1080), None);
}

#[test]
fn gather_rows_repacks_strided_rows() {
    let src: Vec<u8> = (0u8..12).collect();
    // Three rows of stride 4, keep two bytes of each.
    assert_eq!(gather_rows(&src, 4, 2, 3), vec![0, 1, 4, 5, 8, 9]);
    assert_eq!(gather_rows(&src, 4, 4, 3), src);
    assert_eq!(gather_rows(&src, 4, 0, 3), Vec::<u8>::new());
}
