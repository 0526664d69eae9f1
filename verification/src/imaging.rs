//! RGBA8 picture operations done by the `image` crate: resampling to a new
//! size, JPEG encoding and decoding. Each call sits behind a trusted
//! wrapper; the checks around it, and what each failure is reported as,
//! are verified here.

use vstd::prelude::*;

use crate::model::AssetError;

verus! {

/// What the triangle-filter resampling of a `width × height` RGBA8 image
/// to `nwidth × nheight` gives.
pub uninterp spec fn triangle_resize(
    data: Seq<u8>,
    width: u32,
    height: u32,
    nwidth: u32,
    nheight: u32,
) -> Seq<u8>;

/// What encoding a `width × height` RGBA8 image as JPEG gives, or `None`
/// when the encoder refuses it.
pub uninterp spec fn jpeg_encoding(data: Seq<u8>, width: u32, height: u32) -> Option<Seq<u8>>;

/// What decoding an encoded image gives: its width, height and RGBA8
/// pixels, or `None` when it cannot be decoded.
pub uninterp spec fn decoded_rgba(bytes: Seq<u8>) -> Option<(u32, u32, Seq<u8>)>;

/// The `image` crate's error type.
#[verifier::external_type_specification]
#[verifier::external_body]
pub struct ExImageError(image::ImageError);

/// Bytes of a `width × height` RGBA8 picture.
pub open spec fn rgba_len(width: u32, height: u32) -> int {
    width as int * height as int * 4
}

/// `image::DynamicImage::resize_exact` with `FilterType::Triangle`, on an
/// RGBA8 image made of the first `width * height * 4` bytes of `data`.
/// Claimed: the result is a function of the arguments, holds
/// `nwidth * nheight` pixels, and equals the input pixels when the size
/// does not change (the crate copies instead of resampling then). The
/// resampled values themselves are not stated.
#[verifier::external_body]
fn image_resize_exact(data: &[u8], width: u32, height: u32, nwidth: u32, nheight: u32) -> (r: Vec<u8>)
    requires
        rgba_len(width, height) <= data@.len(),
        width as int * nheight as int * 16 <= isize::MAX,
        nwidth as int * nheight as int * 16 <= isize::MAX,
    ensures
        r@ == triangle_resize(data@, width, height, nwidth, nheight),
        r@.len() == rgba_len(nwidth, nheight),
        nwidth == width && nheight == height ==> r@ == data@.subrange(0, rgba_len(width, height)),
{
    let img = image::RgbaImage::from_raw(width, height, data.to_vec()).expect("fits");
    image::DynamicImage::ImageRgba8(img).resize_exact(
        nwidth,
        nheight,
        image::imageops::FilterType::Triangle,
    ).to_rgba8().into_raw()
}

/// `image::DynamicImage::write_to` with `ImageFormat::Jpeg`, on an RGBA8
/// image made of the first `width * height * 4` bytes of `data`. Claimed:
/// the outcome is a function of the arguments, and the encoder refuses a
/// side of 0 or over 65535 pixels (it writes 16-bit sizes). Whether it
/// refuses other images is not stated.
#[verifier::external_body]
fn image_write_jpeg(data: &[u8], width: u32, height: u32) -> (r: Result<Vec<u8>, image::ImageError>)
    requires
        rgba_len(width, height) <= data@.len(),
    ensures
        match r {
            Ok(v) => jpeg_encoding(data@, width, height) == Some(v@),
            Err(_) => jpeg_encoding(data@, width, height) is None,
        },
        jpeg_size_refused(width, height) ==> r is Err,
{
    let img = image::RgbaImage::from_raw(width, height, data.to_vec()).expect("fits");
    let mut out: Vec<u8> = Vec::new();
    match image::DynamicImage::ImageRgba8(img).write_to(
        &mut std::io::Cursor::new(&mut out),
        image::ImageFormat::Jpeg,
    ) {
        Ok(()) => Ok(out),
        Err(e) => Err(e),
    }
}

/// `image::load_from_memory` followed by `to_rgba8`. Claimed: the outcome
/// is a function of the bytes, and a decoded picture holds
/// `width * height * 4` bytes. Which inputs decode is not stated.
#[verifier::external_body]
fn image_load_rgba(bytes: &[u8]) -> (r: Result<(u32, u32, Vec<u8>), image::ImageError>)
    ensures
        match r {
            Ok((w, h, v)) => decoded_rgba(bytes@) == Some((w, h, v@)) && v@.len() == rgba_len(w, h),
            Err(_) => decoded_rgba(bytes@) is None,
        },
{
    match image::load_from_memory(bytes) {
        Ok(img) => {
            let rgba = img.to_rgba8();
            let (w, h) = rgba.dimensions();
            Ok((w, h, rgba.into_raw()))
        },
        Err(e) => Err(e),
    }
}

/// Whether `width × height` RGBA8 pixels fit in `len` bytes (and their
/// size in an address).
pub open spec fn rgba_fits(width: u32, height: u32, len: nat) -> bool {
    rgba_len(width, height) <= usize::MAX && rgba_len(width, height) <= len
}

/// Whether `width × height` RGBA8 pixels fit in `len` bytes.
fn check_rgba_fits(width: u32, height: u32, len: usize) -> (r: bool)
    ensures
        r == rgba_fits(width, height, len as nat),
{
    match (width as usize).checked_mul(height as usize) {
        Some(p) => match p.checked_mul(4) {
            Some(n) => n <= len,
            None => false,
        },
        None => false,
    }
}

/// Resamples a `width × height` RGBA8 frame to `nwidth × nheight` with a
/// triangle filter.
///
/// # Errors
/// Returns [`AssetError::Codec`] when `data` holds fewer than
/// `width * height * 4` bytes.
pub fn resize_rgba(data: &[u8], width: u32, height: u32, nwidth: u32, nheight: u32) -> (r: Result<
    Vec<u8>,
    AssetError,
>)
    requires
        width as int * nheight as int * 16 <= isize::MAX,
        nwidth as int * nheight as int * 16 <= isize::MAX,
    ensures
        r is Ok <==> rgba_fits(width, height, data@.len()),
        r matches Ok(v) ==> v@ == triangle_resize(data@, width, height, nwidth, nheight) && v@.len()
            == rgba_len(nwidth, nheight),
        r matches Ok(v) ==> (nwidth == width && nheight == height ==> v@ == data@.subrange(
            0,
            rgba_len(width, height),
        )),
        r matches Err(e) ==> e is Codec,
{
    if !check_rgba_fits(width, height, data.len()) {
        return Err(AssetError::codec("decoder returned malformed frame"));
    }
    Ok(image_resize_exact(data, width, height, nwidth, nheight))
}

/// Whether a JPEG cannot hold a picture of this size: a side of 0 or over
/// 65535 pixels.
pub open spec fn jpeg_size_refused(width: u32, height: u32) -> bool {
    width == 0 || height == 0 || width > 0xFFFF || height > 0xFFFF
}

/// Encodes a `width × height` RGBA8 thumbnail as JPEG.
///
/// # Errors
/// Returns [`AssetError::Validation`] when `data` holds fewer than
/// `width * height * 4` bytes, and [`AssetError::Codec`] when the encoder
/// refuses the image.
pub fn encode_jpeg(data: &[u8], width: u32, height: u32) -> (r: Result<Vec<u8>, AssetError>)
    ensures
        !rgba_fits(width, height, data@.len()) <==> r matches Err(AssetError::Validation(_)),
        rgba_fits(width, height, data@.len()) ==> match jpeg_encoding(data@, width, height) {
            Some(bytes) => r matches Ok(v) && v@ == bytes,
            None => r matches Err(AssetError::Codec(_)),
        },
        rgba_fits(width, height, data@.len()) && jpeg_size_refused(width, height) ==> r matches Err(
            AssetError::Codec(_),
        ),
{
    if !check_rgba_fits(width, height, data.len()) {
        return Err(AssetError::validation("thumbnail data length does not match its size"));
    }
    match image_write_jpeg(data, width, height) {
        Ok(v) => Ok(v),
        Err(_) => Err(AssetError::codec("jpeg encode failed")),
    }
}

/// Decodes an encoded picture into RGBA8: `(width, height, pixels)`.
///
/// # Errors
/// Returns [`AssetError::Codec`] when the bytes cannot be decoded.
pub fn decode_rgba(bytes: &[u8]) -> (r: Result<(u32, u32, Vec<u8>), AssetError>)
    ensures
        match decoded_rgba(bytes@) {
            Some((w, h, px)) => r matches Ok((rw, rh, v)) && rw == w && rh == h && v@ == px
                && px.len() == rgba_len(w, h),
            None => r matches Err(AssetError::Codec(_)),
        },
{
    match image_load_rgba(bytes) {
        Ok((w, h, v)) => Ok((w, h, v)),
        Err(_) => Err(AssetError::codec("jpeg decode failed")),
    }
}

} // verus!
