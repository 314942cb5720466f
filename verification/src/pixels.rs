//! Decoded images.

use crate::error::IndexError;
use vstd::prelude::*;

verus! {

/// The mathematical value of a decoded image.
pub struct Pixels {
    pub width: nat,
    pub height: nat,
    /// Red, green and blue of each pixel, rows from the top.
    pub data: Seq<u8>,
}

/// A decoded image with three colour channels of eight bits.
#[derive(Debug, Clone, PartialEq, Eq)]
pub struct RgbImage {
    pub width: u32,
    pub height: u32,
    /// Red, green and blue of each pixel, rows from the top.
    pub data: Vec<u8>,
}

impl View for RgbImage {
    type V = Pixels;

    open spec fn view(&self) -> Pixels {
        Pixels { width: self.width as nat, height: self.height as nat, data: self.data@ }
    }
}

impl RgbImage {
    /// Whether the buffer holds three bytes for each pixel.
    pub open spec fn wf(&self) -> bool {
        self.data@.len() == self.width * self.height * 3
    }

    /// An image of the given size over `data`, if `data` holds three bytes
    /// for each pixel.
    pub fn from_raw(width: u32, height: u32, data: Vec<u8>) -> (r: Option<RgbImage>)
        ensures
            match r {
                Some(img) => img.wf() && img.width == width && img.height == height && img.data
                    == data,
                None => data@.len() != width * height * 3,
            },
    {
        assert(width * height <= 0xffff_ffff * 0xffff_ffff) by (nonlinear_arith)
            requires
                width <= 0xffff_ffff,
                height <= 0xffff_ffff,
        ;
        let bytes: u128 = (width as u128) * (height as u128) * 3;
        if data.len() as u128 == bytes {
            Some(RgbImage { width, height, data })
        } else {
            None
        }
    }

    /// Width and height, in pixels.
    pub fn dimensions(&self) -> (r: (u32, u32))
        ensures
            r == (self.width, self.height),
    {
        (self.width, self.height)
    }
}

/// The pixels that a PNG file decodes to, as width, height and the RGB bytes
/// of the pixels; none where the bytes are no PNG file that can be decoded.
pub uninterp spec fn decoded_png(encoded: Seq<u8>) -> Option<(u32, u32, Seq<u8>)>;

#[verifier::external_type_specification]
#[verifier::external_body]
pub struct ExImageError(image::ImageError);

/// Decodes a PNG file held in memory and turns it into 8-bit RGB.
///
/// Calls `image::load_from_memory_with_format` with the PNG format, then
/// `DynamicImage::to_rgb8`, and copies out the size and the pixels. Trusted:
/// the outcome depends on the bytes alone, and the pixels come as three
/// bytes each, `width * height` of them, rows from the top.
#[verifier::external_body]
fn decode_png_rgb8(encoded: &[u8]) -> (r: Result<RgbImage, image::ImageError>)
    ensures
        match r {
            Ok(img) => img.wf() && decoded_png(encoded@) == Some(
                (img.width, img.height, img.data@),
            ),
            Err(_) => decoded_png(encoded@) is None,
        },
{
    let img = image::load_from_memory_with_format(encoded, image::ImageFormat::Png)?.to_rgb8();
    let (width, height) = img.dimensions();
    Ok(RgbImage { width, height, data: img.pixels().flat_map(|p| p.0).collect() })
}

/// What decoding a file gives: the image, or nothing.
pub open spec fn decoded_image(encoded: Seq<u8>) -> Option<Pixels> {
    match decoded_png(encoded) {
        Some((width, height, data)) => Some(
            Pixels { width: width as nat, height: height as nat, data },
        ),
        None => None,
    }
}

/// Decodes one image file, given as its bytes, into RGB pixels.
pub fn load_rgbimage(encoded: &[u8]) -> (r: Result<RgbImage, IndexError>)
    ensures
        match r {
            Ok(img) => img.wf() && decoded_image(encoded@) == Some(img@),
            Err(e) => e == IndexError::DecodeError && decoded_image(encoded@) is None,
        },
{
    match decode_png_rgb8(encoded) {
        Ok(img) => Ok(img),
        Err(_) => Err(IndexError::DecodeError),
    }
}

} // verus!
