use vstd::prelude::*;
use crate::error::AnalysisError;

verus! {

/// A decoded raster image: RGBA8 pixels in row-major order.
pub struct ImageData {
    pub width: u32,
    pub height: u32,
    pub pixels: Vec<u8>,
}

impl ImageData {
    /// The buffer holds exactly four bytes per pixel.
    pub open spec fn wf(&self) -> bool {
        self.pixels@.len() == 4 * (self.width as int) * (self.height as int)
    }

    /// Number of pixels.
    pub open spec fn spec_pixel_count(&self) -> int {
        (self.width as int) * (self.height as int)
    }
}

/// What decoding a byte buffer yields: `None` when the bytes do not parse as
/// an image, otherwise the width, height and RGBA8 contents. Decoding is a
/// pure function of the bytes.
pub uninterp spec fn decoded_image(bytes: Seq<u8>) -> Option<(u32, u32, Seq<u8>)>;

/// Relies on `image::load_from_memory` and `DynamicImage::to_rgba8`: parses
/// compressed image bytes and lays the pixels out as RGBA8, four bytes per
/// pixel, deterministically. Assumes the process registers no decoding or
/// format-detection hooks with the image crate: with the builtin formats
/// and default limits, decoding is a pure function of the bytes.
#[verifier::external_body]
pub(crate) fn decode_rgba(bytes: &Vec<u8>) -> (r: Result<ImageData, AnalysisError>)
    ensures
        r is Ok <==> decoded_image(bytes@) is Some,
        r matches Ok(img) ==> {
            &&& decoded_image(bytes@) == Some((img.width, img.height, img.pixels@))
            &&& img.wf()
        },
        r matches Err(e) ==> e == AnalysisError::Decode,
{
    match image::load_from_memory(bytes.as_slice()) {
        Ok(dynimg) => {
            let rgba = dynimg.to_rgba8();
            let (width, height) = rgba.dimensions();
            Ok(ImageData { width, height, pixels: rgba.into_raw() })
        }
        Err(_) => Err(AnalysisError::Decode),
    }
}

/// What resampling an RGBA8 buffer to new dimensions yields. A pure function
/// of the buffer and the four dimensions.
pub uninterp spec fn resized_image(
    pixels: Seq<u8>,
    width: u32,
    height: u32,
    new_width: u32,
    new_height: u32,
) -> Seq<u8>;

/// Relies on `image::imageops::resize` with the Lanczos3 filter: resamples
/// to exactly the requested dimensions, four bytes per pixel, and depends
/// only on its arguments.
#[verifier::external_body]
pub(crate) fn resize_rgba(
    pixels: &Vec<u8>,
    width: u32,
    height: u32,
    new_width: u32,
    new_height: u32,
) -> (r: Vec<u8>)
    requires
        pixels@.len() == 4 * (width as int) * (height as int),
        width > 0,
        height > 0,
        new_width > 0,
        new_height > 0,
        4 * (new_width as int) * (new_height as int) <= usize::MAX,
        (width as int) * (new_height as int) <= usize::MAX,
    ensures
        r@ == resized_image(pixels@, width, height, new_width, new_height),
        r@.len() == 4 * (new_width as int) * (new_height as int),
{
    let img: image::RgbaImage =
        image::ImageBuffer::from_raw(width, height, pixels.clone()).unwrap();
    let out = image::imageops::resize(
        &img,
        new_width,
        new_height,
        image::imageops::FilterType::Lanczos3,
    );
    out.into_raw()
}

/// What PNG-encoding an RGBA8 buffer yields: `None` when the encoder
/// refuses the input, otherwise the encoded bytes. The encoder runs with
/// fixed settings against an in-memory buffer, so both the outcome and the
/// bytes are a pure function of the buffer and dimensions.
pub uninterp spec fn png_encoding(pixels: Seq<u8>, width: u32, height: u32) -> Option<Seq<u8>>;

/// Relies on `image::DynamicImage::write_to` with the PNG format: encodes
/// the buffer into PNG bytes deterministically, or reports an encoder
/// failure.
#[verifier::external_body]
pub(crate) fn encode_png(pixels: &Vec<u8>, width: u32, height: u32) -> (r: Result<
    Vec<u8>,
    AnalysisError,
>)
    requires
        pixels@.len() == 4 * (width as int) * (height as int),
        width > 0,
        height > 0,
    ensures
        r is Ok <==> png_encoding(pixels@, width, height) is Some,
        r matches Ok(b) ==> Some(b@) == png_encoding(pixels@, width, height),
        r matches Err(e) ==> e == AnalysisError::Encoding,
{
    let img: image::RgbaImage = match image::ImageBuffer::from_raw(
        width,
        height,
        pixels.clone(),
    ) {
        Some(i) => i,
        None => return Err(AnalysisError::Encoding),
    };
    let mut buf = std::io::Cursor::new(Vec::new());
    match image::DynamicImage::ImageRgba8(img).write_to(&mut buf, image::ImageFormat::Png) {
        Ok(()) => Ok(buf.into_inner()),
        Err(_) => Err(AnalysisError::Encoding),
    }
}

} // verus!
