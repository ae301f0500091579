//! Textures: a single colour, a checker pattern, and the texels of an image.
use vstd::prelude::*;
use crate::scalar::Scalar;
use crate::vec3::{Color, Point3, Vec3};

verus! {

/// A texture of one colour.
#[derive(Clone, Copy, Debug)]
pub struct SolidColor {
    pub color_value: Color,
}

impl SolidColor {
    /// The texture of the colour with the given channels.
    pub fn new(red: Scalar, green: Scalar, blue: Scalar) -> (t: SolidColor)
        ensures
            t.color_value == Vec3(red, green, blue),
    {
        SolidColor { color_value: Vec3(red, green, blue) }
    }

    /// The colour at surface coordinates `(u, v)` and point `p`: the same
    /// everywhere.
    pub fn value(&self, u: Scalar, v: Scalar, p: &Point3) -> (c: Color)
        ensures
            c == self.color_value,
    {
        self.color_value
    }
}

/// A checker pattern of two textures.
#[derive(Clone, Copy, Debug)]
pub struct CheckerTexture {
    /// The two textures, as their indices in the scene's textures.
    pub odd: usize,
    pub even: usize,
}

impl CheckerTexture {
    /// The pattern of the textures with the given indices.
    pub fn new(even: usize, odd: usize) -> (t: CheckerTexture)
        ensures
            t.even == even,
            t.odd == odd,
    {
        CheckerTexture { odd, even }
    }

    /// The texture that colours a point, from `sines`, the product of the
    /// sines of ten times its coordinates: the odd one where the product is
    /// negative, else the even one.
    pub fn value(&self, sines: Scalar) -> (texture: usize)
        ensures
            texture == if sines.less(Scalar { bits: 0 }) {
                self.odd
            } else {
                self.even
            },
    {
        if sines.lt(Scalar::zero()) {
            self.odd
        } else {
            self.even
        }
    }
}

/// The pixels of a decoded image, in the image buffer of the `image` crate.
///
/// Trusted: the buffer is opaque here. What it holds is named by
/// [`image_size`] and [`image_texels`], and known only through
/// [`Pixels::from_raw`], [`Pixels::dimensions`] and [`Pixels::get_pixel`].
#[verifier::external_body]
#[derive(Debug)]
pub struct Pixels {
    buffer: image::ImageBuffer<image::Rgb<u8>, Vec<u8>>,
}

/// The width and the height of an image buffer.
pub uninterp spec fn image_size(img: Pixels) -> (u32, u32);

/// The pixels of an image buffer, by column and row: red, green and blue.
pub uninterp spec fn image_texels(img: Pixels) -> Map<(u32, u32), (u8, u8, u8)>;

/// The bytes of the pixel in column `x` of row `y`, in a buffer of rows of
/// `width` pixels of three bytes each.
pub open spec fn texel_at(bytes: Seq<u8>, width: u32, x: u32, y: u32) -> (u8, u8, u8) {
    let at = 3 * (y * width + x);
    (bytes[at], bytes[at + 1], bytes[at + 2])
}

impl Pixels {
    /// The image of the given size over the given bytes, by
    /// `image::ImageBuffer::from_raw`.
    ///
    /// Trusted: that for an image with pixels the buffer is made where the
    /// bytes suffice for three to a pixel and not otherwise, that it has the
    /// size given, and that its pixels are the bytes in rows from the top,
    /// three to a pixel, as the crate's index computation shows.
    #[verifier::external_body]
    pub(crate) fn from_raw(width: u32, height: u32, buf: Vec<u8>) -> (p: Option<Pixels>)
        requires
            width > 0,
            height > 0,
        ensures
            p is Some <==> 3 * width * height <= buf.len(),
            p is Some ==> image_size(p->0) == (width, height),
            p is Some ==> forall|x: u32, y: u32|
                x < width && y < height ==> #[trigger] image_texels(p->0)[(x, y)] == texel_at(
                    buf@,
                    width,
                    x,
                    y,
                ),
    {
        image::ImageBuffer::from_raw(width, height, buf).map(|buffer| Pixels { buffer })
    }

    /// The width and the height, by `image::ImageBuffer::dimensions`.
    ///
    /// Trusted: nothing but the name of what the method returns.
    #[verifier::external_body]
    pub(crate) fn dimensions(&self) -> (d: (u32, u32))
        ensures
            d == image_size(*self),
    {
        self.buffer.dimensions()
    }

    /// The pixel in column `x` of row `y`, by `image::ImageBuffer::get_pixel`.
    ///
    /// Trusted: nothing but the name of what the method returns. The method
    /// panics on a column or row outside the image, which is excluded.
    #[verifier::external_body]
    pub(crate) fn get_pixel(&self, x: u32, y: u32) -> (rgb: (u8, u8, u8))
        requires
            x < image_size(*self).0,
            y < image_size(*self).1,
        ensures
            rgb == image_texels(*self)[(x, y)],
    {
        let pixel = self.buffer.get_pixel(x, y);
        (pixel.0[0], pixel.0[1], pixel.0[2])
    }
}

/// An image that colours a surface. It has at least one pixel.
#[derive(Debug)]
pub struct ImageTexture {
    data: Pixels,
    width: u32,
    height: u32,
    bytes_per_scanline: u32,
}

impl ImageTexture {
    #[verifier::type_invariant]
    closed spec fn wf(self) -> bool {
        &&& self.width > 0
        &&& self.height > 0
        &&& (self.width, self.height) == image_size(self.data)
        &&& self.bytes_per_scanline == 3 * self.width
    }

    /// The width and the height of the image.
    pub closed spec fn size(self) -> (u32, u32) {
        (self.width, self.height)
    }

    /// The pixels of the image, by column and row: red, green and blue.
    pub closed spec fn texels(self) -> Map<(u32, u32), (u8, u8, u8)> {
        image_texels(self.data)
    }

    /// The column and the row that are looked up for `(i, j)`: the last ones
    /// where the index runs past them.
    pub open spec fn held(self, i: u32, j: u32) -> (u32, u32) {
        (
            if i >= self.size().0 {
                (self.size().0 - 1) as u32
            } else {
                i
            },
            if j >= self.size().1 {
                (self.size().1 - 1) as u32
            } else {
                j
            },
        )
    }

    /// The texture over the bytes of a decoded image of the given size, rows
    /// from the top and three bytes to a pixel. `None` where the image has no
    /// pixel, where a row has more bytes than can be counted, and where the
    /// bytes do not suffice.
    pub fn new(data: Vec<u8>, width: u32, height: u32) -> (t: Option<ImageTexture>)
        ensures
            t is Some <==> width > 0 && height > 0 && 3 * width <= u32::MAX && 3 * width * height
                <= data.len(),
            t is Some ==> {
                &&& t->0.size() == (width, height)
                &&& forall|x: u32, y: u32|
                    x < width && y < height ==> #[trigger] t->0.texels()[(x, y)] == texel_at(
                        data@,
                        width,
                        x,
                        y,
                    )
            },
    {
        if width == 0 || height == 0 || width > 0x5555_5555 {
            return None;
        }
        match Pixels::from_raw(width, height, data) {
            Some(pixels) => {
                let (width, height) = pixels.dimensions();
                Some(ImageTexture { data: pixels, width, height, bytes_per_scanline: 3 * width })
            },
            None => None,
        }
    }

    /// The width of the image in pixels.
    pub fn width(&self) -> (w: u32)
        ensures
            w == self.size().0,
            w > 0,
    {
        proof {
            use_type_invariant(self);
        }
        self.width
    }

    /// The height of the image in pixels.
    pub fn height(&self) -> (h: u32)
        ensures
            h == self.size().1,
            h > 0,
    {
        proof {
            use_type_invariant(self);
        }
        self.height
    }

    /// The number of bytes in a row: three to a pixel.
    pub fn bytes_per_scanline(&self) -> (n: u32)
        ensures
            n == 3 * self.size().0,
    {
        proof {
            use_type_invariant(self);
        }
        self.bytes_per_scanline
    }

    /// The pixel in column `i` of row `j`, red first. An index past the last
    /// column or row is held to the last.
    pub fn texel(&self, i: u32, j: u32) -> (rgb: (u8, u8, u8))
        ensures
            rgb == self.texels()[self.held(i, j)],
    {
        proof {
            use_type_invariant(self);
        }
        let x: u32 = if i >= self.width {
            self.width - 1
        } else {
            i
        };
        let y: u32 = if j >= self.height {
            self.height - 1
        } else {
            j
        };
        self.data.get_pixel(x, y)
    }
}

} // verus!
