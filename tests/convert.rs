use image_go_nord::recolor::recolor;
use image_go_nord::stages::{quantize, shrink};
use image_go_nord::{convert, nord, ConvertError, DynamicPalette, Image, Options, StaticPalette};

fn image(w: u32, h: u32, pixels: &[[u8; 4]]) -> Image {
    let data: Vec<u8> = pixels.iter().flat_map(|p| p.iter().copied()).collect();
    Image::from_raw(w, h, data).unwrap()
}

#[test]
fn two_by_two_scenario() {
    let img = image(2, 2, &[[255, 0, 0, 255], [0, 255, 0, 255], [0, 0, 255, 255], [255, 255, 255, 128]]);
    let palette = StaticPalette::from_colors([[10, 20, 30]]);
    let out = convert(&img, Options::default(), &palette, |i| i).unwrap();
    assert_eq!(out.width(), 2);
    assert_eq!(out.height(), 2);
    assert_eq!(out.get_pixel(0, 0), [10, 20, 30, 255]);
    assert_eq!(out.get_pixel(1, 0), [10, 20, 30, 255]);
    assert_eq!(out.get_pixel(0, 1), [10, 20, 30, 255]);
    assert_eq!(out.get_pixel(1, 1), [255, 255, 255, 128]);
}

#[test]
fn default_options() {
    let o = Options::default();
    assert_eq!(o, Options { resize: 0, quantize: 0, avg: [0, 0], transparency_tolerance: 190 });
}

#[test]
fn empty_image_is_refused() {
    let img = Image::from_raw(0, 3, vec![]).unwrap();
    let r = convert(&img, Options::default(), &nord(), |i| i);
    assert_eq!(r.err(), Some(ConvertError::EmptyImage));
}

#[test]
fn empty_palette_is_refused() {
    let img = image(1, 1, &[[1, 2, 3, 255]]);
    let palette = DynamicPalette::from_palette_str("no colors").unwrap();
    let r = convert(&img, Options::default(), &palette, |i| i);
    assert_eq!(r.err(), Some(ConvertError::EmptyPalette));
}

#[test]
fn from_raw_checks_size() {
    assert!(Image::from_raw(2, 2, vec![0; 15]).is_none());
    assert!(Image::from_raw(2, 2, vec![0; 16]).is_some());
}

#[test]
fn recolor_of_palette_image_is_identity() {
    let palette = nord();
    let img = image(3, 1, &[[0xBF, 0x61, 0x6A, 255], [0x8F, 0xBC, 0xBB, 200], [0xEC, 0xEF, 0xF4, 3]]);
    let out = recolor(&img, [0, 0], 0, &palette);
    assert_eq!(out.as_raw(), img.as_raw());
}

#[test]
fn tolerance_is_inclusive() {
    let palette = StaticPalette::from_colors([[0, 0, 0]]);
    let img = image(2, 1, &[[9, 9, 9, 190], [9, 9, 9, 191]]);
    let out = recolor(&img, [0, 0], 190, &palette);
    assert_eq!(out.get_pixel(0, 0), [9, 9, 9, 190]);
    assert_eq!(out.get_pixel(1, 0), [0, 0, 0, 191]);
}

#[test]
fn kernel_mean_decides_the_color() {
    // The mean of the 2x1 window (0..2) is 100, nearer to 90 than to 0.
    let palette = StaticPalette::from_colors([[0, 0, 0], [90, 90, 90]]);
    let img = image(2, 1, &[[0, 0, 0, 255], [200, 200, 200, 255]]);
    let plain = recolor(&img, [0, 0], 0, &palette);
    assert_eq!(plain.get_pixel(0, 0), [0, 0, 0, 255]);
    let averaged = recolor(&img, [2, 1], 0, &palette);
    assert_eq!(averaged.get_pixel(0, 0), [90, 90, 90, 255]);
}

#[test]
fn kernel_window_is_clipped_at_edges() {
    // 3x3 kernel at the corner covers the four pixels: mean (0+0+0+40)/4 = 10.
    let palette = StaticPalette::from_colors([[10, 10, 10], [0, 0, 0]]);
    let img = image(2, 2, &[[0, 0, 0, 255], [0, 0, 0, 255], [0, 0, 0, 255], [40, 40, 40, 255]]);
    let out = recolor(&img, [3, 3], 0, &palette);
    assert_eq!(out.get_pixel(0, 0), [10, 10, 10, 255]);
}

#[test]
fn shrink_resamples_by_factor() {
    let img = image(4, 2, &[[100, 100, 100, 255]; 8]);
    let small = shrink(&img, 2);
    assert_eq!(small.width(), 2);
    assert_eq!(small.height(), 1);
    assert_eq!(small.as_raw().len(), 8);
    assert_eq!(small.get_pixel(0, 0), [100, 100, 100, 255]);
    let same = shrink(&img, 1);
    assert_eq!(same.as_raw(), img.as_raw());
}

#[test]
fn resize_keeps_output_size() {
    let pixels: Vec<[u8; 4]> = (0..36).map(|i| [i as u8 * 7, 255 - i as u8, 3, 255]).collect();
    let img = image(6, 6, &pixels);
    let opt = Options { resize: 3, ..Options::default() };
    let out = convert(&img, opt, &nord(), |i| i).unwrap();
    assert_eq!(out.width(), 6);
    assert_eq!(out.height(), 6);
    assert_eq!(out.as_raw().len(), 144);
}

#[test]
fn quantize_keeps_size_and_is_skipped_out_of_range() {
    let pixels: Vec<[u8; 4]> = (0..16).map(|i| [i as u8 * 16, 0, 255 - i as u8 * 16, 255]).collect();
    let img = image(4, 4, &pixels);
    let q = quantize(image(4, 4, &pixels), 10);
    assert_eq!(q.width(), 4);
    assert_eq!(q.height(), 4);
    assert_eq!(q.as_raw().len(), 64);
    let off = quantize(image(4, 4, &pixels), 31);
    assert_eq!(off.as_raw(), img.as_raw());
    let opt = Options { quantize: 10, ..Options::default() };
    let out = convert(&img, opt, &nord(), |i| i).unwrap();
    assert_eq!(out.as_raw().len(), 64);
}

#[test]
fn post_process_runs_after_recolor() {
    let img = image(1, 1, &[[255, 0, 0, 255]]);
    let palette = StaticPalette::from_colors([[10, 20, 30]]);
    let out = convert(&img, Options::default(), &palette, |i: Image| {
        let mut d = i.into_raw();
        d[0] += 1;
        Image::from_raw(1, 1, d).unwrap()
    })
    .unwrap();
    assert_eq!(out.get_pixel(0, 0), [11, 20, 30, 255]);
}

#[test]
fn resize_zero_and_one_agree() {
    let pixels: Vec<[u8; 4]> = (0..9).map(|i| [i as u8 * 28, 100, 255 - i as u8 * 28, 255]).collect();
    let img = image(3, 3, &pixels);
    let off = convert(&img, Options { resize: 0, ..Options::default() }, &nord(), |i| i).unwrap();
    let one = convert(&img, Options { resize: 1, ..Options::default() }, &nord(), |i| i).unwrap();
    assert_eq!(off.as_raw(), one.as_raw());
    let plain = recolor(&img, [0, 0], 190, &nord());
    assert_eq!(off.as_raw(), plain.as_raw());
}

#[test]
fn quantize_skips_single_column() {
    let pixels = [[1, 2, 3, 255], [4, 5, 6, 255], [7, 8, 9, 255]];
    let q = quantize(image(1, 3, &pixels), 10);
    assert_eq!(q.as_raw(), image(1, 3, &pixels).as_raw());
}

#[test]
fn quantized_conversion_is_deterministic() {
    let pixels: Vec<[u8; 4]> = (0..64).map(|i| [i as u8 * 4, 255 - i as u8 * 3, i as u8, 255]).collect();
    let img = image(8, 8, &pixels);
    let opt = Options { quantize: 5, resize: 2, ..Options::default() };
    let a = convert(&img, opt, &nord(), |i| i).unwrap();
    let b = convert(&img, opt, &nord(), |i| i).unwrap();
    assert_eq!(a.as_raw(), b.as_raw());
    let q1 = quantize(image(8, 8, &pixels), 5);
    let q2 = quantize(image(8, 8, &pixels), 5);
    assert_eq!(q1.as_raw(), q2.as_raw());
}
