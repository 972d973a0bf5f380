//! Decoded frames.
//!
//! A frame is held as the `image` crate decodes it. Contracts speak of a frame
//! through its [`Raster`]: its extent and the pixel at each coordinate inside
//! it. What is said here of the `image` crate is taken on trust.

use image::DynamicImage;
use image::GenericImageView;
use image::ImageError;
use image::ImageFormat;
use vstd::prelude::*;

verus! {

/// `image::DynamicImage`, a decoded image. Nothing is known of what it holds
/// but through [`image_extent`] and [`image_pixels`].
#[verifier::external_type_specification]
#[verifier::external_body]
pub struct ExDynamicImage(DynamicImage);

/// `image::ImageError`, the reason why an image could not be decoded. It is
/// carried through; nothing is known of what it holds.
#[verifier::external_type_specification]
#[verifier::external_body]
pub struct ExImageError(ImageError);

/// The colour of one pixel: red, green, blue and alpha, eight bits each.
#[derive(Clone, Copy, Debug, PartialEq, Eq, Structural)]
pub struct Pixel {
    pub red: u8,
    pub green: u8,
    pub blue: u8,
    pub alpha: u8,
}

/// A frame as contracts speak of it: `width` columns, `height` rows, and
/// the pixel at each coordinate `(x, y)` with `0 <= x < width` and
/// `0 <= y < height`.
pub struct Raster {
    pub width: nat,
    pub height: nat,
    pub pixels: Map<(int, int), Pixel>,
}

impl Raster {
    /// `(x, y)` lies inside the frame.
    pub open spec fn contains(self, x: int, y: int) -> bool {
        0 <= x < self.width && 0 <= y < self.height
    }

    /// The number of pixels of the frame.
    pub open spec fn pixel_count(self) -> nat {
        self.width * self.height
    }
}

/// Width and height of a decoded frame, in this order.
pub uninterp spec fn image_extent(image: DynamicImage) -> (nat, nat);

/// The pixels of a decoded frame: for each coordinate inside its extent, the
/// colour that the frame shows there, as an 8-bit RGBA value.
pub uninterp spec fn image_pixels(image: DynamicImage) -> Map<(int, int), Pixel>;

/// What the bytes of a PNG file decode to; `None` where they do not decode.
pub uninterp spec fn png_decoding(bytes: Seq<u8>) -> Option<Raster>;

/// The raster of a decoded frame.
pub open spec fn raster_of(image: DynamicImage) -> Raster {
    Raster {
        width: image_extent(image).0,
        height: image_extent(image).1,
        pixels: image_pixels(image),
    }
}

/// `GenericImageView::dimensions` of `DynamicImage`: the width and the height
/// of the frame. The contract takes this pair as the frame's extent.
#[verifier::external_body]
pub(crate) fn extent_of(image: &DynamicImage) -> (extent: (u32, u32))
    ensures
        extent.0 == image_extent(*image).0,
        extent.1 == image_extent(*image).1,
{
    image.dimensions()
}

/// `GenericImageView::get_pixel` of `DynamicImage`: the pixel at `(x, y)`,
/// converted to 8-bit RGBA. It panics outside the frame, which `requires`
/// rules out. The contract takes the value returned as the frame's pixel at
/// that coordinate.
#[verifier::external_body]
pub(crate) fn pixel_at(image: &DynamicImage, x: u32, y: u32) -> (pixel: Pixel)
    requires
        x < image_extent(*image).0,
        y < image_extent(*image).1,
    ensures
        image_pixels(*image).get((x as int, y as int)) == Some(pixel),
{
    let rgba = image.get_pixel(x, y);
    Pixel { red: rgba.0[0], green: rgba.0[1], blue: rgba.0[2], alpha: rgba.0[3] }
}

/// `image::load_from_memory_with_format` with the PNG format: decodes the
/// bytes of a PNG file. The outcome depends on the bytes alone, so the
/// contract gives it a name: the frame returned has the raster that
/// [`png_decoding`] names, and an error comes exactly where that is `None`.
#[verifier::external_body]
pub(crate) fn decode_png(bytes: &[u8]) -> (decoded: Result<DynamicImage, ImageError>)
    ensures
        match decoded {
            Ok(image) => png_decoding(bytes@) == Some(raster_of(image)),
            Err(_) => png_decoding(bytes@) is None,
        },
{
    image::load_from_memory_with_format(bytes, ImageFormat::Png)
}

} // verus!
