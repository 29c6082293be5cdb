//! The recolor stage: every pixel that is opaque enough takes the nearest
//! palette color, sampled from the pixel itself or from the mean of a window
//! around it.

use crate::palette::{
    entry_dist, lemma_nearest_is_first_minimum, mapped, nearest, Entry, Palette, Rgba,
};
use crate::utils::{lemma_delta_fits, lemma_delta_upto_agree, lemma_delta_upto_zero};
use crate::raster::{Image, ImageView};
use vstd::prelude::*;

verus! {

/// Side of an averaging window; zero counts as one.
pub open spec fn kernel_size(k: u32) -> int {
    if k == 0 {
        1
    } else {
        k as int
    }
}

/// First row or column of the window of side `k` around `p`.
pub open spec fn window_lo(p: int, k: u32) -> int {
    let lo = p - (kernel_size(k) - 1) / 2;
    if lo < 0 {
        0
    } else {
        lo
    }
}

/// One past the last row or column of the window of side `k` around `p`,
/// within `n`.
pub open spec fn window_hi(p: int, k: u32, n: int) -> int {
    let hi = p + kernel_size(k) / 2 + 1;
    if hi > n {
        n
    } else {
        hi
    }
}

/// Sum of channel `c` over columns `x0..x1` of row `y`.
pub open spec fn row_sum(v: ImageView, c: int, y: int, x0: int, x1: int) -> int
    decreases x1 - x0,
{
    if x1 <= x0 {
        0
    } else {
        row_sum(v, c, y, x0, x1 - 1) + v.data[4 * (y * v.width + x1 - 1) + c] as int
    }
}

/// Sum of channel `c` over columns `x0..x1` of rows `y0..y1`.
pub open spec fn window_sum(v: ImageView, c: int, x0: int, x1: int, y0: int, y1: int) -> int
    decreases y1 - y0,
{
    if y1 <= y0 {
        0
    } else {
        window_sum(v, c, x0, x1, y0, y1 - 1) + row_sum(v, c, y1 - 1, x0, x1)
    }
}

/// Whether the kernel covers more than the pixel itself.
pub open spec fn averages(avg: [u32; 2]) -> bool {
    avg[0] > 1 || avg[1] > 1
}

/// Mean of channel `c` over the kernel window around pixel `k`, rounded down.
pub open spec fn window_mean(v: ImageView, avg: [u32; 2], k: int, c: int) -> u8 {
    let x = k % (v.width as int);
    let y = k / (v.width as int);
    let x0 = window_lo(x, avg[0]);
    let x1 = window_hi(x, avg[0], v.width as int);
    let y0 = window_lo(y, avg[1]);
    let y1 = window_hi(y, avg[1], v.height as int);
    (window_sum(v, c, x0, x1, y0, y1) / ((x1 - x0) * (y1 - y0))) as u8
}

/// The color searched for pixel `k`: the pixel itself, or the window mean
/// with the pixel's own alpha.
pub open spec fn sample(v: ImageView, avg: [u32; 2], k: int) -> Seq<u8> {
    if averages(avg) {
        seq![
            window_mean(v, avg, k, 0),
            window_mean(v, avg, k, 1),
            window_mean(v, avg, k, 2),
            v.pixel(k)[3],
        ]
    } else {
        v.pixel(k)
    }
}

/// Pixel `k` after recoloring: unchanged at or below the alpha tolerance,
/// else the nearest palette color of its sample, with its own alpha.
pub open spec fn recolored_pixel(
    v: ImageView,
    avg: [u32; 2],
    tolerance: u8,
    entries: Seq<Entry>,
    k: int,
) -> Seq<u8> {
    if v.pixel(k)[3] > tolerance {
        mapped(entries, sample(v, avg, k))
    } else {
        v.pixel(k)
    }
}

/// The whole image after recoloring.
pub open spec fn recolored(v: ImageView, avg: [u32; 2], tolerance: u8, entries: Seq<Entry>) -> ImageView {
    ImageView {
        width: v.width,
        height: v.height,
        data: Seq::new(
            v.data.len(),
            |i: int| recolored_pixel(v, avg, tolerance, entries, i / 4)[i % 4],
        ),
    }
}

proof fn lemma_byte_of_pixel(k: int, c: int)
    requires
        0 <= k,
        0 <= c < 4,
    ensures
        (4 * k + c) / 4 == k,
        (4 * k + c) % 4 == c,
{
    assert((4 * k + c) / 4 == k) by (nonlinear_arith)
        requires
            0 <= k,
            0 <= c < 4,
    ;
    assert((4 * k + c) % 4 == c) by (nonlinear_arith)
        requires
            0 <= k,
            0 <= c < 4,
    ;
}

proof fn lemma_cell_in_bounds(w: int, h: int, x: int, y: int)
    requires
        0 <= x < w,
        0 <= y < h,
    ensures
        0 <= y * w + x < w * h,
        0 <= y * w,
{
    assert(0 <= y * w + x < w * h) by (nonlinear_arith)
        requires
            0 <= x < w,
            0 <= y < h,
    ;
    assert(0 <= y * w) by (nonlinear_arith)
        requires
            0 <= x < w,
            0 <= y < h,
    ;
}

/// Sum of channel `c` over a window of the image.
fn window_sum_of(img: &Image, c: usize, x0: usize, x1: usize, y0: usize, y1: usize) -> (s: u128)
    requires
        c < 3,
        x0 <= x1 <= img@.width,
        y0 <= y1 <= img@.height,
    ensures
        s as int == window_sum(img@, c as int, x0 as int, x1 as int, y0 as int, y1 as int),
        s as int <= 255 * ((x1 - x0) * (y1 - y0)),
{
    let data = img.as_raw();
    let w = img.width() as usize;
    let ghost v = img@;
    let n = data.len();
    let mut s: u128 = 0;
    let mut y: usize = y0;
    while y < y1
        invariant
            v == img@,
            v.well_sized(),
            w as nat == v.width,
            data@ == v.data,
            c < 3,
            x0 <= x1 <= v.width,
            y0 <= y <= y1 <= v.height,
            v.width <= u32::MAX,
            v.height <= u32::MAX,
            n == data@.len(),
            s as int == window_sum(v, c as int, x0 as int, x1 as int, y0 as int, y as int),
            s as int <= 255 * ((x1 - x0) * (y - y0)),
        decreases y1 - y,
    {
        let mut r: u128 = 0;
        let mut x: usize = x0;
        while x < x1
            invariant
                v == img@,
                v.well_sized(),
                w as nat == v.width,
                data@ == v.data,
                c < 3,
                x0 <= x <= x1 <= v.width,
                y0 <= y < y1 <= v.height,
                v.width <= u32::MAX,
                v.height <= u32::MAX,
                n == data@.len(),
                r as int == row_sum(v, c as int, y as int, x0 as int, x as int),
                r as int <= 255 * (x - x0),
            decreases x1 - x,
        {
            proof {
                lemma_cell_in_bounds(w as int, v.height as int, x as int, y as int);
            }
            let i: usize = 4 * (y * w + x) + c;
            r = r + data[i] as u128;
            x = x + 1;
        }
        proof {
            assert(255 * ((x1 - x0) * (y - y0)) + 255 * (x1 - x0) == 255 * ((x1 - x0) * (y + 1
                - y0))) by (nonlinear_arith);
            assert(255 * ((x1 - x0) * (y + 1 - y0)) <= 255 * (0xffff_ffffu128 * 0xffff_ffffu128))
                by (nonlinear_arith)
                requires
                    0 <= x1 - x0 <= 0xffff_ffffu128,
                    0 <= y + 1 - y0 <= 0xffff_ffffu128,
            ;
        }
        s = s + r;
        y = y + 1;
    }
    s
}

/// Bounds of the window of side `k` around `p`, within `0..n`.
fn window_bounds(p: usize, k: u32, n: usize) -> (r: (usize, usize))
    requires
        p < n,
        n <= u32::MAX,
    ensures
        r.0 as int == window_lo(p as int, k),
        r.1 as int == window_hi(p as int, k, n as int),
        r.0 <= p < r.1 <= n,
{
    let size: u64 = if k == 0 {
        1
    } else {
        k as u64
    };
    let before: u64 = (size - 1) / 2;
    let lo: usize = if (p as u64) >= before {
        ((p as u64) - before) as usize
    } else {
        0
    };
    let hi: u64 = (p as u64) + size / 2 + 1;
    let hi: usize = if hi > (n as u64) {
        n
    } else {
        hi as usize
    };
    (lo, hi)
}

proof fn lemma_mean_fits(s: int, n: int)
    requires
        0 <= s <= 255 * n,
        n > 0,
    ensures
        0 <= s / n <= 255,
{
    assert(0 <= s / n <= 255) by (nonlinear_arith)
        requires
            0 <= s <= 255 * n,
            n > 0,
    ;
}

proof fn lemma_row_and_column(k: int, w: int, h: int)
    requires
        0 <= k < w * h,
        w > 0,
    ensures
        0 <= k % w < w,
        0 <= k / w < h,
        (k / w) * w + k % w == k,
{
    assert(0 <= k / w < h) by (nonlinear_arith)
        requires
            0 <= k < w * h,
            w > 0,
    ;
    assert((k / w) * w + k % w == k) by (nonlinear_arith)
        requires
            w > 0,
    ;
}

/// The color searched for pixel `k`.
fn sample_of(img: &Image, avg: [u32; 2], k: usize) -> (p: Rgba)
    requires
        k < img@.area(),
    ensures
        p@ == sample(img@, avg, k as int),
{
    let data = img.as_raw();
    let w = img.width() as usize;
    let h = img.height() as usize;
    let ghost v = img@;
    let len = data.len();
    proof {
        assert(w > 0) by (nonlinear_arith)
            requires
                k < (w as int) * (h as int),
        ;
        lemma_row_and_column(k as int, w as int, h as int);
    }
    let alpha = data[4 * k + 3];
    if avg[0] > 1 || avg[1] > 1 {
        let x = k % w;
        let y = k / w;
        let (x0, x1) = window_bounds(x, avg[0], w);
        let (y0, y1) = window_bounds(y, avg[1], h);
        assert(((x1 - x0) as u128) * ((y1 - y0) as u128) <= 0xffff_ffffu128 * 0xffff_ffffu128)
            by (nonlinear_arith)
            requires
                0 <= x1 - x0 <= 0xffff_ffffu128,
                0 <= y1 - y0 <= 0xffff_ffffu128,
        ;
        let count: u128 = ((x1 - x0) as u128) * ((y1 - y0) as u128);
        assert(count > 0) by (nonlinear_arith)
            requires
                count == (x1 - x0) * (y1 - y0),
                x1 > x0,
                y1 > y0,
        ;
        let r = window_sum_of(img, 0, x0, x1, y0, y1);
        let g = window_sum_of(img, 1, x0, x1, y0, y1);
        let b = window_sum_of(img, 2, x0, x1, y0, y1);
        proof {
            lemma_mean_fits(r as int, count as int);
            lemma_mean_fits(g as int, count as int);
            lemma_mean_fits(b as int, count as int);
        }
        let p = [(r / count) as u8, (g / count) as u8, (b / count) as u8, alpha];
        assert(p@ =~= sample(v, avg, k as int));
        p
    } else {
        let p = [data[4 * k], data[4 * k + 1], data[4 * k + 2], alpha];
        assert(p@ =~= sample(v, avg, k as int));
        p
    }
}

/// Recolors every pixel whose alpha is above `tolerance` to the palette
/// color nearest to its sample; the others are left as they are. With a
/// kernel `avg` larger than one pixel, the sample is the mean color of the
/// window around the pixel, rounded down, instead of the pixel itself.
pub fn recolor<P: Palette>(img: &Image, avg: [u32; 2], tolerance: u8, palette: &P) -> (r: Image)
    requires
        palette.entries().len() > 0,
    ensures
        r@ == recolored(img@, avg, tolerance, palette.entries()),
{
    let data = img.as_raw();
    let w = img.width();
    let h = img.height();
    let ghost v = img@;
    let ghost target = recolored(v, avg, tolerance, palette.entries());
    let len = data.len();
    let n: usize = len / 4;
    let mut out: Vec<u8> = Vec::new();
    let mut k: usize = 0;
    while k < n
        invariant
            v == img@,
            v.well_sized(),
            data@ == v.data,
            n == v.area(),
            len == data@.len(),
            target == recolored(v, avg, tolerance, palette.entries()),
            palette.entries().len() > 0,
            k <= n,
            out@.len() == 4 * k,
            forall|i: int| 0 <= i < 4 * k ==> out@[i] == target.data[i],
        decreases n - k,
    {
        let ghost before = out@;
        let alpha = data[4 * k + 3];
        let mut c: Rgba = if alpha > tolerance {
            let mut c = sample_of(img, avg, k);
            palette.map_color(&mut c);
            c
        } else {
            [data[4 * k], data[4 * k + 1], data[4 * k + 2], alpha]
        };
        proof {
            assert(c@ =~= recolored_pixel(v, avg, tolerance, palette.entries(), k as int));
        }
        out.push(c[0]);
        out.push(c[1]);
        out.push(c[2]);
        out.push(c[3]);
        proof {
            assert forall|i: int| 0 <= i < 4 * (k + 1) implies out@[i] == target.data[i] by {
                if i >= 4 * k {
                    lemma_byte_of_pixel(k as int, i - 4 * k);
                } else {
                    assert(out@[i] == before[i]);
                }
            }
        }
        k = k + 1;
    }
    proof {
        assert(out@ =~= target.data);
    }
    Image::from_parts(w, h, out)
}

proof fn lemma_recolored_pixel_bytes(
    v: ImageView,
    avg: [u32; 2],
    tolerance: u8,
    entries: Seq<Entry>,
    k: int,
)
    requires
        v.well_sized(),
        entries.len() > 0,
        0 <= k < v.area(),
    ensures
        recolored(v, avg, tolerance, entries).pixel(k) == recolored_pixel(
            v,
            avg,
            tolerance,
            entries,
            k,
        ),
        recolored_pixel(v, avg, tolerance, entries, k).len() == 4,
{
    let r = recolored(v, avg, tolerance, entries);
    let p = recolored_pixel(v, avg, tolerance, entries, k);
    lemma_nearest_is_first_minimum(entries, sample(v, avg, k));
    assert(4 * k + 4 <= 4 * v.area());
    assert forall|c: int| 0 <= c < 4 implies r.pixel(k)[c] == p[c] by {
        lemma_byte_of_pixel(k, c);
    }
    assert(r.pixel(k) =~= p);
}

/// Pixels whose alpha is at or below the tolerance leave the recolor stage
/// byte for byte as they came; every other pixel keeps its alpha and takes
/// red, green and blue of a palette color.
pub proof fn lemma_recolor_respects_tolerance(
    v: ImageView,
    avg: [u32; 2],
    tolerance: u8,
    entries: Seq<Entry>,
    k: int,
)
    requires
        v.well_sized(),
        entries.len() > 0,
        0 <= k < v.area(),
    ensures
        v.pixel(k)[3] <= tolerance ==> recolored(v, avg, tolerance, entries).pixel(k) == v.pixel(
            k,
        ),
        v.pixel(k)[3] > tolerance ==> exists|j: int|
            0 <= j < entries.len() && recolored(v, avg, tolerance, entries).pixel(k) == seq![
                entries[j][0],
                entries[j][1],
                entries[j][2],
                v.pixel(k)[3],
            ],
{
    lemma_recolored_pixel_bytes(v, avg, tolerance, entries, k);
    let s = sample(v, avg, k);
    lemma_nearest_is_first_minimum(entries, s);
    if v.pixel(k)[3] > tolerance {
        let j = nearest(entries, s);
        assert(recolored(v, avg, tolerance, entries).pixel(k) == seq![
            entries[j][0],
            entries[j][1],
            entries[j][2],
            v.pixel(k)[3],
        ]);
    }
}

/// The color channels of pixel `k` are those of some palette color.
pub open spec fn is_palette_pixel(v: ImageView, entries: Seq<Entry>, k: int) -> bool {
    exists|j: int|
        0 <= j < entries.len() && #[trigger] v.pixel(k).subrange(0, 3) == entries[j]@
}

/// Recoloring with a kernel of one pixel returns an image unchanged when the
/// color channels of each of its pixels already are a palette color: no
/// alpha changes, no channel drifts.
pub proof fn lemma_recolor_keeps_palette_image(
    v: ImageView,
    avg: [u32; 2],
    tolerance: u8,
    entries: Seq<Entry>,
)
    requires
        v.well_sized(),
        !averages(avg),
        entries.len() > 0,
        forall|k: int| 0 <= k < v.area() ==> is_palette_pixel(v, entries, k),
    ensures
        recolored(v, avg, tolerance, entries) == v,
{
    let r = recolored(v, avg, tolerance, entries);
    assert forall|i: int| 0 <= i < v.data.len() implies r.data[i] == v.data[i] by {
        let k = i / 4;
        let c = i % 4;
        assert(0 <= k < v.area() && 0 <= c < 4 && i == 4 * k + c) by (nonlinear_arith)
            requires
                0 <= i < v.data.len(),
                v.data.len() == 4 * v.area(),
                k == i / 4,
                c == i % 4,
        ;
        lemma_recolored_pixel_bytes(v, avg, tolerance, entries, k);
        let p = v.pixel(k);
        if p[3] > tolerance {
            assert(is_palette_pixel(v, entries, k));
            let j = choose|j: int|
                0 <= j < entries.len() && #[trigger] v.pixel(k).subrange(0, 3) == entries[j]@;
            assert(sample(v, avg, k) == p);
            lemma_delta_upto_agree(p, entries[j]@, 3);
            assert(entry_dist(entries, p, j) == 0);
            lemma_nearest_is_first_minimum(entries, p);
            let n = nearest(entries, p);
            lemma_delta_fits(p, entries[n]@);
            lemma_delta_upto_zero(p, entries[n]@, 3);
            assert(mapped(entries, p) =~= p);
        }
        assert(r.pixel(k)[c] == v.pixel(k)[c]);
    }
    assert(r.data =~= v.data);
}

} // verus!
