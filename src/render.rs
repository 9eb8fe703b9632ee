//! Encoding pixel frames as PNG images.

use crate::error::GymError;
use crate::frame::RenderFrame;
use image::codecs::png::PngEncoder;
use image::{ExtendedColorType, ImageEncoder, ImageError};
use vstd::prelude::*;

verus! {

#[verifier::external_type_specification]
#[verifier::external_body]
pub struct ExImageError(ImageError);

/// How the bytes of one pixel are laid out.
#[derive(Clone, Copy, Debug, PartialEq, Eq)]
pub enum PixelLayout {
    /// Red, green, blue: three bytes.
    Rgb,
    /// Red, green, blue, alpha: four bytes.
    Rgba,
}

impl PixelLayout {
    /// Bytes per pixel.
    pub open spec fn spec_channels(self) -> nat {
        match self {
            PixelLayout::Rgb => 3,
            PixelLayout::Rgba => 4,
        }
    }

    /// Bytes per pixel.
    pub fn channels(self) -> (r: u8)
        ensures
            r == self.spec_channels(),
    {
        match self {
            PixelLayout::Rgb => 3,
            PixelLayout::Rgba => 4,
        }
    }
}

/// The layout under which `len` bytes hold exactly `width * height` pixels;
/// RGB is preferred when both fit (only possible for an empty image).
pub open spec fn layout_for(width: u32, height: u32, len: nat) -> Option<PixelLayout> {
    if len == width * height * 3 {
        Some(PixelLayout::Rgb)
    } else if len == width * height * 4 {
        Some(PixelLayout::Rgba)
    } else {
        None
    }
}

/// The eight bytes every PNG file starts with.
pub open spec fn png_signature() -> Seq<u8> {
    seq![137u8, 80u8, 78u8, 71u8, 13u8, 10u8, 26u8, 10u8]
}

/// The PNG file that image's encoder writes for these pixels.
pub uninterp spec fn png_encoding(pixels: Seq<u8>, width: u32, height: u32, channels: nat) -> Seq<u8>;

/// What encoding `data` as a `width` x `height` PNG may give: an
/// `InvalidObservation` error when the data length fits no pixel layout;
/// otherwise the encoder's PNG file when the image has at least one row and
/// one column, and `Other` (the encoder refusing an empty image) when not.
pub open spec fn png_result_for(width: u32, height: u32, data: Seq<u8>, r: Result<Vec<u8>, GymError>) -> bool {
    match layout_for(width, height, data.len()) {
        None => r is Err && r->Err_0 is InvalidObservation,
        Some(layout) => {
            &&& (r is Ok) == (width > 0 && height > 0)
            &&& r is Ok ==> r->Ok_0@ == png_encoding(data, width, height, layout.spec_channels())
            &&& r is Ok ==> r->Ok_0@.take(8) == png_signature()
            &&& r is Err ==> r->Err_0 is Other
        },
    }
}

/// Relies on `image::codecs::png::PngEncoder::write_image` writing into a
/// `Vec`: for 8-bit RGB or RGBA data it encodes the pixels as one PNG file,
/// whose first bytes are the signature (png's `Encoder::write_header`). It
/// fails only on a zero width or height (png's `Writer::init`; image data is
/// split into chunks, so size is no limit), and panics unless the buffer
/// holds exactly `width * height` pixels.
#[verifier::external_body]
fn write_png(pixels: &[u8], width: u32, height: u32, layout: PixelLayout) -> (r: Result<Vec<u8>, ImageError>)
    requires
        pixels@.len() == width * height * layout.spec_channels(),
    ensures
        (r is Ok) == (width > 0 && height > 0),
        r is Ok ==> r->Ok_0@ == png_encoding(pixels@, width, height, layout.spec_channels()),
        r is Ok ==> r->Ok_0@.len() >= 8 && r->Ok_0@.take(8) == png_signature(),
{
    let color = match layout {
        PixelLayout::Rgb => ExtendedColorType::Rgb8,
        PixelLayout::Rgba => ExtendedColorType::Rgba8,
    };
    let mut buf: Vec<u8> = Vec::new();
    PngEncoder::new(&mut buf).write_image(pixels, width, height, color)?;
    Ok(buf)
}

/// Relies on the `Display` impl of `image::ImageError` for its description.
#[verifier::external_body]
fn describe_image_error(e: &ImageError) -> String {
    format!("PNG encode error: {}", e)
}

/// The outcome of the PNG encoder as a toolkit result: the bytes unchanged,
/// or the encoder's failure as `GymError::Other`.
pub fn png_outcome(outcome: Result<Vec<u8>, ImageError>) -> (r: Result<Vec<u8>, GymError>)
    ensures
        outcome is Ok ==> r == Ok::<Vec<u8>, GymError>(outcome->Ok_0),
        outcome is Err ==> r is Err && r->Err_0 is Other,
{
    match outcome {
        Ok(bytes) => Ok(bytes),
        Err(e) => Err(GymError::Other(describe_image_error(&e))),
    }
}

/// The layout of `len` bytes of pixel data for a `width` x `height` image, if any.
pub fn pixel_layout(width: u32, height: u32, len: usize) -> (r: Option<PixelLayout>)
    ensures
        r == layout_for(width, height, len as nat),
{
    proof {
        assert(width * height <= 0xffff_ffffu32 * 0xffff_ffffu32) by (nonlinear_arith)
            requires
                width <= 0xffff_ffffu32,
                height <= 0xffff_ffffu32,
        ;
    }
    let count: u128 = (width as u128) * (height as u128);
    let len128 = len as u128;
    if len128 == count * 3 {
        Some(PixelLayout::Rgb)
    } else if len128 == count * 4 {
        Some(PixelLayout::Rgba)
    } else {
        None
    }
}

/// Encodes raw pixels as a PNG file. The data must hold exactly
/// `width * height` RGB or RGBA pixels, otherwise the error is
/// `InvalidObservation`; a failure of the encoder itself is `Other`.
pub fn encode_pixels_png(width: u32, height: u32, data: &Vec<u8>) -> (r: Result<Vec<u8>, GymError>)
    ensures
        png_result_for(width, height, data@, r),
{
    match pixel_layout(width, height, data.len()) {
        None => Err(
            GymError::InvalidObservation(
                "pixel data length is neither width*height*3 nor width*height*4".to_owned(),
            ),
        ),
        Some(layout) => png_outcome(write_png(data.as_slice(), width, height, layout)),
    }
}

/// Encodes a pixel frame as a PNG file; text frames are `NotSupported`.
pub fn encode_png(frame: &RenderFrame) -> (r: Result<Vec<u8>, GymError>)
    ensures
        frame is Text ==> r is Err && r->Err_0 is NotSupported,
        frame is Pixels ==> png_result_for(frame->width, frame->height, frame->data@, r),
{
    match frame {
        RenderFrame::Pixels { width, height, data } => encode_pixels_png(*width, *height, data),
        RenderFrame::Text(_) => Err(
            GymError::NotSupported("text frames cannot be encoded to PNG".to_owned()),
        ),
    }
}

} // verus!
