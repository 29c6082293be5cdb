//! RGBA pixel buffers.

use crate::palette::Rgba;
use vstd::prelude::*;

verus! {

/// What an image holds: its size and its bytes, four per pixel (red, green,
/// blue, alpha), row by row.
pub struct ImageView {
    pub width: nat,
    pub height: nat,
    pub data: Seq<u8>,
}

impl ImageView {
    /// Number of pixels.
    pub open spec fn area(self) -> nat {
        self.width * self.height
    }

    /// The four channels of the pixel at position `k` in row-major order.
    pub open spec fn pixel(self, k: int) -> Seq<u8> {
        self.data.subrange(4 * k, 4 * k + 4)
    }

    /// The bytes hold four channels for each pixel.
    pub open spec fn well_sized(self) -> bool {
        self.data.len() == 4 * self.area()
    }
}

/// An RGBA image: `width` by `height` pixels, four bytes each, row by row.
#[derive(Debug)]
pub struct Image {
    width: u32,
    height: u32,
    data: Vec<u8>,
}

impl View for Image {
    type V = ImageView;

    closed spec fn view(&self) -> ImageView {
        ImageView { width: self.width as nat, height: self.height as nat, data: self.data@ }
    }
}

impl Image {
    #[verifier::type_invariant]
    spec fn sized(&self) -> bool {
        self@.well_sized()
    }

    /// Builds an image from bytes already known to fit its size.
    pub(crate) fn from_parts(width: u32, height: u32, data: Vec<u8>) -> (img: Image)
        requires
            data@.len() == 4 * ((width as nat) * (height as nat)),
        ensures
            img@ == (ImageView { width: width as nat, height: height as nat, data: data@ }),
    {
        Image { width, height, data }
    }

    /// Builds an image from its bytes, or `None` when there are not exactly
    /// four bytes for each pixel.
    pub fn from_raw(width: u32, height: u32, data: Vec<u8>) -> (r: Option<Image>)
        ensures
            r is Some <==> data@.len() == 4 * ((width as nat) * (height as nat)),
            r matches Some(img) ==> img@ == (ImageView {
                width: width as nat,
                height: height as nat,
                data: data@,
            }),
    {
        let len = data.len() as u128;
        assert((width as u128) * (height as u128) <= 0xffff_ffff * 0xffff_ffffu128) by (nonlinear_arith);
        if len == 4 * ((width as u128) * (height as u128)) {
            Some(Image { width, height, data })
        } else {
            None
        }
    }

    /// The image's size, its bytes and their count agree; sizes fit the
    /// machine's integers.
    pub fn width(&self) -> (w: u32)
        ensures
            w as nat == self@.width,
            self@.well_sized(),
            self@.width <= u32::MAX,
            self@.height <= u32::MAX,
    {
        proof {
            use_type_invariant(self);
        }
        self.width
    }

    /// Number of rows.
    pub fn height(&self) -> (h: u32)
        ensures
            h as nat == self@.height,
            self@.well_sized(),
    {
        proof {
            use_type_invariant(self);
        }
        self.height
    }

    /// The image's bytes.
    pub fn as_raw(&self) -> (d: &Vec<u8>)
        ensures
            d@ == self@.data,
            self@.well_sized(),
    {
        proof {
            use_type_invariant(self);
        }
        &self.data
    }

    /// Gives up the image for its bytes.
    pub fn into_raw(self) -> (d: Vec<u8>)
        ensures
            d@ == self@.data,
    {
        self.data
    }

    /// The pixel in column `x` of row `y`.
    pub fn get_pixel(&self, x: u32, y: u32) -> (p: Rgba)
        requires
            x < self@.width,
            y < self@.height,
        ensures
            p@ == self@.pixel(y * self@.width + x),
    {
        let n = self.data.len();
        proof {
            use_type_invariant(self);
            assert((y as int) * (self.width as int) + (x as int) + 1 <= (self.width as int) * (
            self.height as int)) by (nonlinear_arith)
                requires
                    x < self.width,
                    y < self.height,
            ;
            assert(0 <= (y as int) * (self.width as int)) by (nonlinear_arith);
        }
        let k: usize = (y as usize) * (self.width as usize) + (x as usize);
        let p = [self.data[4 * k], self.data[4 * k + 1], self.data[4 * k + 2], self.data[4 * k + 3]];
        assert(p@ =~= self@.pixel(k as int));
        p
    }
}

} // verus!
