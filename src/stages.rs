//! The resize and quantize stages, which the `image` and `color_quant` crates
//! carry out.

use crate::raster::{Image, ImageView};
use color_quant::NeuQuant;
use image::imageops;
use image::RgbaImage;
use vstd::prelude::*;

verus! {

/// The bytes of a `width` by `height` RGBA image resampled to `new_width` by
/// `new_height` with a triangle (bilinear) filter.
pub uninterp spec fn resampled(
    data: Seq<u8>,
    width: nat,
    height: nat,
    new_width: nat,
    new_height: nat,
) -> Seq<u8>;

/// Relies on `image::imageops::resize` with `FilterType::Triangle`: the
/// result has the requested size and depends on the pixels and the sizes
/// alone; a resize to the same size copies the pixels.
#[verifier::external_body]
fn resize_bytes(data: &Vec<u8>, width: u32, height: u32, new_width: u32, new_height: u32) -> (r:
    Vec<u8>)
    requires
        data@.len() == 4 * ((width as nat) * (height as nat)),
        width > 0,
        height > 0,
        new_width > 0,
        new_height > 0,
        4 * ((width as nat) * (new_height as nat)) <= usize::MAX,
        4 * ((new_width as nat) * (new_height as nat)) <= usize::MAX,
    ensures
        r@ == resampled(data@, width as nat, height as nat, new_width as nat, new_height as nat),
        r@.len() == 4 * ((new_width as nat) * (new_height as nat)),
        new_width == width && new_height == height ==> r@ == data@,
{
    let src = RgbaImage::from_raw(width, height, data.clone()).unwrap();
    imageops::resize(&src, new_width, new_height, imageops::FilterType::Triangle).into_raw()
}

/// The bytes of a `width` by `height` RGBA image after training a quantizer
/// of `colors` colors on it with sample factor `samplefac` and dithering the
/// image against that quantizer.
pub uninterp spec fn quantized(
    data: Seq<u8>,
    width: nat,
    height: nat,
    samplefac: i32,
    colors: nat,
) -> Seq<u8>;

/// Relies on `color_quant::NeuQuant::new`, which trains a network of
/// `colors` colors on the RGBA bytes (a sample factor in 1 to 30, at least one
/// color), and on `image::imageops::dither`, which then applies
/// Floyd-Steinberg error diffusion against those colors in place. Neither
/// draws on anything but its arguments, so the result depends on the bytes,
/// the size, the sample factor and the color count alone, and keeps its
/// length. Dithering reaches for the next column of every pixel but the last,
/// so it needs two columns and a row.
#[verifier::external_body]
fn quantize_bytes(data: Vec<u8>, width: u32, height: u32, samplefac: i32, colors: usize) -> (r:
    Vec<u8>)
    requires
        data@.len() == 4 * ((width as nat) * (height as nat)),
        width >= 2,
        height >= 1,
        1 <= samplefac <= 30,
        colors >= 1,
    ensures
        r@ == quantized(data@, width as nat, height as nat, samplefac, colors as nat),
        r@.len() == data@.len(),
{
    let quantizer = NeuQuant::new(samplefac, colors, &data);
    let mut img = RgbaImage::from_raw(width, height, data).unwrap();
    imageops::dither(&mut img, &quantizer);
    img.into_raw()
}

/// Number of colors of the quantizer that the quantize stage trains.
pub const QUANTIZER_COLORS: usize = 256;

/// Size of a side of `n` pixels after shrinking by `factor`.
pub open spec fn shrunk(n: nat, factor: u32) -> nat {
    (n - n / (factor as nat)) as nat
}

/// The image after the resize stage: with a factor above one, each side
/// loses its share `1 / factor`; else the image is kept.
pub open spec fn shrink_stage(v: ImageView, factor: u32) -> ImageView {
    if factor > 1 {
        let w = shrunk(v.width, factor);
        let h = shrunk(v.height, factor);
        ImageView { width: w, height: h, data: resampled(v.data, v.width, v.height, w, h) }
    } else {
        v
    }
}

/// Whether the quantize stage runs: a sample factor in 1 to 30, on an image
/// of two columns or more and a row or more.
pub open spec fn quantizes(samplefac: i32, v: ImageView) -> bool {
    1 <= samplefac <= 30 && v.width >= 2 && v.height >= 1
}

/// The image after the quantize stage: quantized to 256 colors with
/// dithering when the stage runs, else kept.
pub open spec fn quantize_stage(v: ImageView, samplefac: i32) -> ImageView {
    if quantizes(samplefac, v) {
        ImageView {
            width: v.width,
            height: v.height,
            data: quantized(v.data, v.width, v.height, samplefac, 256),
        }
    } else {
        v
    }
}

/// The image after the stage that undoes the resize stage: resampled back to
/// `width` by `height` when the factor is above one.
pub open spec fn restore_stage(v: ImageView, width: nat, height: nat, factor: u32) -> ImageView {
    if factor > 1 {
        ImageView { width, height, data: resampled(v.data, v.width, v.height, width, height) }
    } else {
        v
    }
}

/// A copy of an image.
pub fn copy_image(img: &Image) -> (r: Image)
    ensures
        r@ == img@,
{
    let data = img.as_raw().clone();
    Image::from_parts(img.width(), img.height(), data)
}

proof fn lemma_shrunk_fits(n: nat, factor: u32)
    requires
        n > 0,
        factor > 1,
    ensures
        0 < shrunk(n, factor) <= n,
{
    assert(n / (factor as nat) < n) by (nonlinear_arith)
        requires
            n > 0,
            factor > 1,
    ;
}

proof fn lemma_product_monotonic(a: nat, b: nat, c: nat, d: nat)
    requires
        a <= c,
        b <= d,
    ensures
        a * b <= c * d,
{
    assert(a * b <= c * d) by (nonlinear_arith)
        requires
            a <= c,
            b <= d,
    ;
}

/// The resize stage: shrinks each side by its share `1 / factor` when the
/// factor is above one.
pub fn shrink(img: &Image, factor: u32) -> (r: Image)
    requires
        img@.width > 0,
        img@.height > 0,
    ensures
        r@ == shrink_stage(img@, factor),
        r@.width > 0,
        r@.height > 0,
        r@.width <= img@.width,
        r@.height <= img@.height,
{
    let w = img.width();
    let h = img.height();
    let data = img.as_raw();
    let len = data.len();
    if factor > 1 {
        let nw = w - w / factor;
        let nh = h - h / factor;
        proof {
            lemma_shrunk_fits(w as nat, factor);
            lemma_shrunk_fits(h as nat, factor);
            lemma_product_monotonic(w as nat, nh as nat, w as nat, h as nat);
            lemma_product_monotonic(nw as nat, nh as nat, w as nat, h as nat);
        }
        let out = resize_bytes(data, w, h, nw, nh);
        Image::from_parts(nw, nh, out)
    } else {
        copy_image(img)
    }
}

/// The quantize stage: with a sample factor in 1 to 30, on an image of two
/// columns or more, trains a quantizer of 256 colors on the image and
/// dithers the image against it; otherwise the image is kept.
pub fn quantize(img: Image, samplefac: i32) -> (r: Image)
    ensures
        r@ == quantize_stage(img@, samplefac),
        r@.data.len() == img@.data.len(),
{
    let w = img.width();
    let h = img.height();
    if 1 <= samplefac && samplefac <= 30 && w >= 2 && h >= 1 {
        let data = quantize_bytes(img.into_raw(), w, h, samplefac, QUANTIZER_COLORS);
        Image::from_parts(w, h, data)
    } else {
        img
    }
}

/// Undoes the resize stage: resamples to `width` by `height` when the factor
/// is above one.
pub fn restore(img: Image, width: u32, height: u32, factor: u32) -> (r: Image)
    requires
        img@.width > 0,
        img@.height > 0,
        width > 0,
        height > 0,
        img@.width <= width,
        4 * ((width as nat) * (height as nat)) <= usize::MAX,
    ensures
        r@ == restore_stage(img@, width as nat, height as nat, factor),
{
    if factor > 1 {
        let w = img.width();
        let h = img.height();
        proof {
            lemma_product_monotonic(w as nat, height as nat, width as nat, height as nat);
        }
        let out = resize_bytes(img.as_raw(), w, h, width, height);
        Image::from_parts(width, height, out)
    } else {
        img
    }
}

} // verus!
