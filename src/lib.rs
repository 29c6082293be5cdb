//! Recolors RGBA raster images to the nearest colors of a palette, with
//! optional downsampling, quantization, kernel averaging and a caller-supplied
//! post-process such as a blur.

pub mod palette;
pub mod palette_text;
pub mod raster;
pub mod recolor;
pub mod stages;
pub mod utils;

pub use palette::palettes::{aurora, frost, nord, polar_night, snow_storm};
pub use palette::{DynamicPalette, Entry, Palette, Rgba, StaticPalette};
pub use raster::{Image, ImageView};

use recolor::{recolor, recolored};
use stages::{
    quantize, quantize_stage, restore, restore_stage, shrink, shrink_stage,
};
use vstd::prelude::*;

verus! {

/// What `convert` does besides recoloring.
///
/// Every field has a value that switches its stage off, and the default
/// switches them all off: no resize, no quantization, no averaging, and a
/// transparency tolerance of 190.
#[derive(Clone, Copy, Debug, PartialEq, Eq, Hash)]
pub struct Options {
    /// Shrinks each side by its share `1 / resize` before the other stages,
    /// and resamples back to the size it came with at the end. Zero and one
    /// switch it off.
    pub resize: u32,
    /// Sample factor of the quantizer that reduces the image to 256 colors
    /// with dithering before recoloring: 1 is slowest and best, 30 fastest.
    /// Any value outside 1 to 30 switches quantization off.
    pub quantize: i32,
    /// Width and height of the window whose mean color is searched instead of
    /// the pixel's own. `[0, 0]` and `[1, 1]` sample the pixel alone.
    pub avg: [u32; 2],
    /// Pixels whose alpha is at or below this value are left as they are.
    pub transparency_tolerance: u8,
}

impl Default for Options {
    fn default() -> (o: Self)
        ensures
            o.resize == 0,
            o.quantize == 0,
            o.avg[0] == 0,
            o.avg[1] == 0,
            o.transparency_tolerance == 190,
    {
        Options { resize: 0, quantize: 0, avg: [0, 0], transparency_tolerance: 190 }
    }
}

/// Why `convert` refused an input.
#[derive(Clone, Copy, Debug, PartialEq, Eq, Hash)]
pub enum ConvertError {
    /// The image has no pixels: its width or its height is zero.
    EmptyImage,
    /// The palette has no colors, so no pixel has a nearest one.
    EmptyPalette,
}

/// `out` is a possible result of converting `v`: resize, quantize, recolor,
/// the post-process, then the size restored. Only the post-process leaves
/// its result open.
pub open spec fn converts_to<F: Fn(Image) -> Image>(
    v: ImageView,
    opt: Options,
    entries: Seq<Entry>,
    post: F,
    out: ImageView,
) -> bool {
    exists|before: Image, after: Image|
        #![trigger post.ensures((before,), after)]
        before@ == recolored(
            quantize_stage(shrink_stage(v, opt.resize), opt.quantize),
            opt.avg,
            opt.transparency_tolerance,
            entries,
        ) && post.ensures((before,), after) && out == restore_stage(
            after@,
            v.width,
            v.height,
            opt.resize,
        )
}

/// With a post-process whose result depends on the image it is given alone,
/// a conversion
/// has one result: the same image, options and palette always give the same
/// image.
pub proof fn lemma_convert_deterministic<F: Fn(Image) -> Image>(
    v: ImageView,
    opt: Options,
    entries: Seq<Entry>,
    post: F,
    out1: ImageView,
    out2: ImageView,
)
    requires
        forall|i: Image, j: Image, o1: Image, o2: Image|
            i@ == j@ && #[trigger] post.ensures((i,), o1) && #[trigger] post.ensures((j,), o2)
                ==> o1@ == o2@,
        converts_to(v, opt, entries, post, out1),
        converts_to(v, opt, entries, post, out2),
    ensures
        out1 == out2,
{
    let (b1, a1) = choose|before: Image, after: Image|
        #![trigger post.ensures((before,), after)]
        before@ == recolored(
            quantize_stage(shrink_stage(v, opt.resize), opt.quantize),
            opt.avg,
            opt.transparency_tolerance,
            entries,
        ) && post.ensures((before,), after) && out1 == restore_stage(
            after@,
            v.width,
            v.height,
            opt.resize,
        );
    let (b2, a2) = choose|before: Image, after: Image|
        #![trigger post.ensures((before,), after)]
        before@ == recolored(
            quantize_stage(shrink_stage(v, opt.resize), opt.quantize),
            opt.avg,
            opt.transparency_tolerance,
            entries,
        ) && post.ensures((before,), after) && out2 == restore_stage(
            after@,
            v.width,
            v.height,
            opt.resize,
        );
    assert(a1@ == a2@);
}

/// Converts `img` to the colors of `palette`.
///
/// The stages run in a fixed order, each as `opt` says: shrink, quantize,
/// recolor, `post` (a blur, say, or the identity), and the resize undone.
/// `post` must keep the size of the image it is given. Fails on an image
/// without pixels and on a palette without colors, and on nothing else.
pub fn convert<P: Palette, F: Fn(Image) -> Image>(
    img: &Image,
    opt: Options,
    palette: &P,
    post: F,
) -> (r: Result<Image, ConvertError>)
    requires
        forall|i: Image| #[trigger] post.requires((i,)),
        forall|i: Image, o: Image| #[trigger]
            post.ensures((i,), o) ==> o@.width == i@.width && o@.height == i@.height,
    ensures
        r == Err::<Image, ConvertError>(ConvertError::EmptyImage) <==> (img@.width == 0
            || img@.height == 0),
        r == Err::<Image, ConvertError>(ConvertError::EmptyPalette) <==> (img@.width > 0
            && img@.height > 0 && palette.entries().len() == 0),
        r matches Ok(out) ==> out@.width == img@.width && out@.height == img@.height
            && converts_to(img@, opt, palette.entries(), post, out@),
{
    let w = img.width();
    let h = img.height();
    if w == 0 || h == 0 {
        return Err(ConvertError::EmptyImage);
    }
    if palette.len() == 0 {
        return Err(ConvertError::EmptyPalette);
    }
    let len = img.as_raw().len();
    let small = shrink(img, opt.resize);
    let quantized = quantize(small, opt.quantize);
    let recolored_img = recolor(&quantized, opt.avg, opt.transparency_tolerance, palette);
    let ghost before = recolored_img;
    let after = post(recolored_img);
    let ghost after_copy = after;
    let out = restore(after, w, h, opt.resize);
    proof {
        assert(post.ensures((before,), after_copy));
    }
    Ok(out)
}

/// Resize factors of zero and one leave the resize stage out: the result of
/// a conversion is then the post-processed recoloring of the (possibly
/// quantized) image itself, with no resampling before or after, and the two
/// factors give the same results.
pub proof fn lemma_no_resize_without_factor<F: Fn(Image) -> Image>(
    v: ImageView,
    opt: Options,
    entries: Seq<Entry>,
    post: F,
    out: ImageView,
)
    requires
        opt.resize <= 1,
    ensures
        converts_to(v, opt, entries, post, out) <==> exists|before: Image, after: Image|
            #![trigger post.ensures((before,), after)]
            before@ == recolored(
                quantize_stage(v, opt.quantize),
                opt.avg,
                opt.transparency_tolerance,
                entries,
            ) && post.ensures((before,), after) && out == after@,
        converts_to(v, opt, entries, post, out) <==> converts_to(
            v,
            Options { resize: 0, ..opt },
            entries,
            post,
            out,
        ),
{
    assert(shrink_stage(v, opt.resize) == v);
    assert(shrink_stage(v, 0) == v);
    assert forall|a: ImageView| restore_stage(a, v.width, v.height, opt.resize) == a by {}
    assert forall|a: ImageView| restore_stage(a, v.width, v.height, 0) == a by {}
}

} // verus!
