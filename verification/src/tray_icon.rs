//! The system tray icon: PNG bytes decoded to RGBA pixels.
use vstd::prelude::*;

verus! {

/// `image::ImageError`, the error of a failed decode.
#[verifier::external_type_specification]
#[verifier::external_body]
pub struct ExImageError(image::ImageError);

/// The RGBA8 pixels (row-major, four bytes per pixel), width and height that
/// the `image` crate's built-in PNG decoder yields for the given bytes; `None`
/// when they are not a PNG image it can decode.
pub uninterp spec fn decoded_rgba(bytes: Seq<u8>) -> Option<(Seq<u8>, u32, u32)>;

/// Decodes a PNG image with `image::load_from_memory_with_format` (format set
/// to `ImageFormat::Png`, so no registered format-detection or decoding hook
/// is consulted and the default limits apply), converts it with
/// `DynamicImage::to_rgba8` and takes its `dimensions` and `into_raw` pixel
/// buffer. Claimed: the result is the decoding named `decoded_rgba` of the
/// bytes (a function of the bytes alone), and the call fails exactly when that
/// decoding does not exist. Nothing further is stated about the pixels.
#[verifier::external_body]
fn decode_rgba(bytes: &[u8]) -> (r: Result<(Vec<u8>, u32, u32), image::ImageError>)
    ensures
        match r {
            Ok((px, w, h)) => decoded_rgba(bytes@) == Some((px@, w, h)),
            Err(_) => decoded_rgba(bytes@) is None,
        },
{
    let rgba = image::load_from_memory_with_format(bytes, image::ImageFormat::Png)?.to_rgba8();
    let (w, h) = rgba.dimensions();
    Ok((rgba.into_raw(), w, h))
}

/// Why the tray icon could not be made.
#[derive(Debug)]
pub enum TrayIconError {
    /// The embedded bytes are not a decodable image.
    Decode,
}

/// The tray icon's RGBA pixels, width and height, decoded from the embedded
/// PNG bytes.
pub fn tray_icon_rgba(bytes: &[u8]) -> (r: Result<(Vec<u8>, u32, u32), TrayIconError>)
    ensures
        match r {
            Ok((px, w, h)) => decoded_rgba(bytes@) == Some((px@, w, h)),
            Err(_) => decoded_rgba(bytes@) is None,
        },
{
    match decode_rgba(bytes) {
        Ok(img) => Ok(img),
        Err(_) => Err(TrayIconError::Decode),
    }
}

} // verus!
