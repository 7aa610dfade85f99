use autoaim::pixels::{
    bgra_to_rgba_in_place, resize_rgba_nearest, scale_bgra_to_rgba, synthetic_smoke_rgba,
    SMOKE_FRAME_SIZE,
};

#[test]
fn scale_bgra_swaps_channels_and_makes_pixels_opaque() {
    // One 2x1 BGRA frame copied at the same size.
    let bgra = [1u8, 2, 3, 0, 10, 20, 30, 7];
    let rgba = scale_bgra_to_rgba(&bgra, 2, 1, 8, 2, 1);
    assert_eq!(rgba, vec![3, 2, 1, 255, 30, 20, 10, 255]);
}

#[test]
fn scale_bgra_halves_by_nearest_neighbour_and_honours_pitch() {
    // 4x2 source with a padded row pitch of 20 bytes; each pixel's blue is its index.
    let mut bgra = vec![0u8; 40];
    for y in 0..2 {
        for x in 0..4 {
            let base = y * 20 + x * 4;
            bgra[base] = (y * 4 + x) as u8;
            bgra[base + 1] = 100;
            bgra[base + 2] = 200;
        }
    }
    let rgba = scale_bgra_to_rgba(&bgra, 4, 2, 20, 2, 1);
    // Destination column 0 samples source column 1, column 1 samples column 3;
    // the single row samples source row 1.
    assert_eq!(rgba, vec![200, 100, 5, 255, 200, 100, 7, 255]);
}

#[test]
fn resize_rgba_nearest_rejects_bad_sizes() {
    let rgba = vec![9u8; 16];
    assert!(resize_rgba_nearest(&rgba, [0, 2], [1, 1]).is_empty());
    assert!(resize_rgba_nearest(&rgba, [2, 2], [0, 1]).is_empty());
    assert!(resize_rgba_nearest(&rgba, [3, 2], [1, 1]).is_empty());
}

#[test]
fn resize_rgba_nearest_to_same_size_is_identity() {
    let rgba: Vec<u8> = (0..24u8).collect();
    assert_eq!(resize_rgba_nearest(&rgba, [3, 2], [3, 2]), rgba);
}

#[test]
fn resize_rgba_nearest_doubles_and_halves() {
    let rgba = vec![1u8, 2, 3, 4, 5, 6, 7, 8];
    assert_eq!(
        resize_rgba_nearest(&rgba, [2, 1], [4, 1]),
        vec![1, 2, 3, 4, 1, 2, 3, 4, 5, 6, 7, 8, 5, 6, 7, 8]
    );
    assert_eq!(resize_rgba_nearest(&rgba, [2, 1], [1, 1]), vec![5, 6, 7, 8]);
}

#[test]
fn bgra_to_rgba_in_place_leaves_partial_pixel() {
    let mut pixels = vec![1u8, 2, 3, 4, 5, 6, 7, 8, 9, 10];
    bgra_to_rgba_in_place(&mut pixels);
    assert_eq!(pixels, vec![3, 2, 1, 255, 7, 6, 5, 255, 9, 10]);
}

#[test]
fn synthetic_smoke_frame_draws_a_light_figure() {
    let rgba = synthetic_smoke_rgba();
    assert_eq!(SMOKE_FRAME_SIZE, [640, 360]);
    assert_eq!(rgba.len(), 640 * 360 * 4);
    let at = |x: usize, y: usize| {
        let i = (y * 640 + x) * 4;
        [rgba[i], rgba[i + 1], rgba[i + 2], rgba[i + 3]]
    };
    assert_eq!(at(0, 0), [24, 24, 24, 255]);
    assert_eq!(at(320, 200), [210, 210, 210, 255]);
    assert_eq!(at(320, 50), [210, 210, 210, 255]);
    assert_eq!(at(290, 50), [24, 24, 24, 255]);
    assert_eq!(at(362, 312), [210, 210, 210, 255]);
    assert_eq!(at(363, 312), [24, 24, 24, 255]);
}
