//! Trusted boundary to the `image` crate: decoding bytes into an RGBA buffer,
//! encoding a buffer back into a container format, and exact resizing. Each
//! outside call is named or specified here and nowhere else; everything the
//! engine then does with the pixels is verified.
use vstd::prelude::*;
use crate::imagebuf::ImageBuf;

verus! {

/// The RGBA8 pixels and dimensions that decoding a byte string yields, or
/// nothing when the bytes are not a readable image. Decoding is a pure
/// function of the bytes.
pub uninterp spec fn decoded_rgba(bytes: Seq<u8>) -> Option<(nat, nat, Seq<u8>)>;

/// The RGBA8 pixels produced by exact (aspect-ignoring) Lanczos3 resampling
/// of the given pixels to the given target dimensions.
pub uninterp spec fn resized_rgba(w0: nat, h0: nat, px: Seq<u8>, w: nat, h: nat) -> Seq<u8>;

/// The PNG encoding of an RGBA8 image.
pub uninterp spec fn png_encoding(w: nat, h: nat, px: Seq<u8>) -> Seq<u8>;

/// The JPEG encoding of an RGBA8 image, alpha dropped.
pub uninterp spec fn jpeg_encoding(w: nat, h: nat, px: Seq<u8>) -> Seq<u8>;

/// Relies on `image::load_from_memory` and `DynamicImage::to_rgba8`: decoding
/// guesses the container format from the bytes and yields an RGBA8 buffer
/// whose raw storage holds exactly four bytes per pixel; the result depends on
/// the input bytes alone.
#[verifier::external_body]
pub(crate) fn decode_rgba(bytes: &Vec<u8>) -> (r: Option<ImageBuf>)
    ensures
        match r {
            Some(img) => img.wf() && decoded_rgba(bytes@) == Some(
                ((img.width as nat), (img.height as nat), img.data@),
            ),
            None => decoded_rgba(bytes@) is None,
        },
{
    match image::load_from_memory(bytes.as_slice()) {
        Ok(dynimg) => {
            let rgba = dynimg.to_rgba8();
            let (w, h) = rgba.dimensions();
            Some(ImageBuf { width: w, height: h, data: rgba.into_raw() })
        },
        Err(_) => None,
    }
}

/// Relies on `ImageBuffer::write_to` with `ImageFormat::Png`: encoding writes
/// into an in-memory cursor and depends on pixels and dimensions alone. The
/// encoder refuses a zero dimension; within the format's dimension range
/// (each side up to 2^31 - 1) a write to memory succeeds.
#[verifier::external_body]
pub(crate) fn encode_png(img: &ImageBuf) -> (r: Option<Vec<u8>>)
    requires
        img.wf(),
    ensures
        r matches Some(v) ==> v@ == png_encoding(
            (img.width as nat),
            (img.height as nat),
            img.data@,
        ),
        1 <= img.width <= 0x7fff_ffff && 1 <= img.height <= 0x7fff_ffff ==> r is Some,
{
    let buf = image::RgbaImage::from_raw(img.width, img.height, img.data.clone())?;
    let mut out = std::io::Cursor::new(Vec::new());
    match buf.write_to(&mut out, image::ImageFormat::Png) {
        Ok(()) => Some(out.into_inner()),
        Err(_) => None,
    }
}

/// Relies on `DynamicImage::to_rgb8` and `ImageBuffer::write_to` with
/// `ImageFormat::Jpeg`: the alpha channel is dropped and the opaque pixels
/// encoded; the result depends on pixels and dimensions alone. The encoder
/// requires each dimension in 1..=65535; within that range a write to memory
/// succeeds.
#[verifier::external_body]
pub(crate) fn encode_jpeg(img: &ImageBuf) -> (r: Option<Vec<u8>>)
    requires
        img.wf(),
    ensures
        r matches Some(v) ==> v@ == jpeg_encoding(
            (img.width as nat),
            (img.height as nat),
            img.data@,
        ),
        1 <= img.width <= 65535 && 1 <= img.height <= 65535 ==> r is Some,
{
    let buf = image::RgbaImage::from_raw(img.width, img.height, img.data.clone())?;
    let rgb = image::DynamicImage::ImageRgba8(buf).to_rgb8();
    let mut out = std::io::Cursor::new(Vec::new());
    match rgb.write_to(&mut out, image::ImageFormat::Jpeg) {
        Ok(()) => Some(out.into_inner()),
        Err(_) => None,
    }
}

/// What encoding an RGBA8 image into one of the further raster containers
/// yields: the bytes on success, nothing where that encoder refuses the
/// image. Each is a pure function of pixels and dimensions.
pub uninterp spec fn bmp_encoding(w: nat, h: nat, px: Seq<u8>) -> Option<Seq<u8>>;

pub uninterp spec fn gif_encoding(w: nat, h: nat, px: Seq<u8>) -> Option<Seq<u8>>;

pub uninterp spec fn tiff_encoding(w: nat, h: nat, px: Seq<u8>) -> Option<Seq<u8>>;

pub uninterp spec fn webp_encoding(w: nat, h: nat, px: Seq<u8>) -> Option<Seq<u8>>;

/// Relies on `ImageBuffer::write_to` with `ImageFormat::Bmp`: deterministic
/// encoding into an in-memory cursor; the outcome, refusals included, is a
/// function of the image alone.
#[verifier::external_body]
pub(crate) fn encode_bmp(img: &ImageBuf) -> (r: Option<Vec<u8>>)
    requires
        img.wf(),
    ensures
        match r {
            Some(v) => bmp_encoding((img.width as nat), (img.height as nat), img.data@) == Some(
                v@,
            ),
            None => bmp_encoding((img.width as nat), (img.height as nat), img.data@) is None,
        },
{
    let buf = image::RgbaImage::from_raw(img.width, img.height, img.data.clone())?;
    let mut out = std::io::Cursor::new(Vec::new());
    match buf.write_to(&mut out, image::ImageFormat::Bmp) {
        Ok(()) => Some(out.into_inner()),
        Err(_) => None,
    }
}

/// Relies on `ImageBuffer::write_to` with `ImageFormat::Gif` (single frame,
/// palette quantization included): deterministic; the outcome, refusals
/// included (dimensions over the format's 16-bit range), is a function of the
/// image alone.
#[verifier::external_body]
pub(crate) fn encode_gif(img: &ImageBuf) -> (r: Option<Vec<u8>>)
    requires
        img.wf(),
    ensures
        match r {
            Some(v) => gif_encoding((img.width as nat), (img.height as nat), img.data@) == Some(
                v@,
            ),
            None => gif_encoding((img.width as nat), (img.height as nat), img.data@) is None,
        },
{
    let buf = image::RgbaImage::from_raw(img.width, img.height, img.data.clone())?;
    let mut out = std::io::Cursor::new(Vec::new());
    match buf.write_to(&mut out, image::ImageFormat::Gif) {
        Ok(()) => Some(out.into_inner()),
        Err(_) => None,
    }
}

/// Relies on `ImageBuffer::write_to` with `ImageFormat::Tiff`: deterministic;
/// the outcome, refusals included, is a function of the image alone.
#[verifier::external_body]
pub(crate) fn encode_tiff(img: &ImageBuf) -> (r: Option<Vec<u8>>)
    requires
        img.wf(),
    ensures
        match r {
            Some(v) => tiff_encoding((img.width as nat), (img.height as nat), img.data@) == Some(
                v@,
            ),
            None => tiff_encoding((img.width as nat), (img.height as nat), img.data@) is None,
        },
{
    let buf = image::RgbaImage::from_raw(img.width, img.height, img.data.clone())?;
    let mut out = std::io::Cursor::new(Vec::new());
    match buf.write_to(&mut out, image::ImageFormat::Tiff) {
        Ok(()) => Some(out.into_inner()),
        Err(_) => None,
    }
}

/// Relies on `ImageBuffer::write_to` with `ImageFormat::WebP` (the lossless
/// encoder): deterministic; the outcome, refusals included, is a function of
/// the image alone.
#[verifier::external_body]
pub(crate) fn encode_webp(img: &ImageBuf) -> (r: Option<Vec<u8>>)
    requires
        img.wf(),
    ensures
        match r {
            Some(v) => webp_encoding((img.width as nat), (img.height as nat), img.data@) == Some(
                v@,
            ),
            None => webp_encoding((img.width as nat), (img.height as nat), img.data@) is None,
        },
{
    let buf = image::RgbaImage::from_raw(img.width, img.height, img.data.clone())?;
    let mut out = std::io::Cursor::new(Vec::new());
    match buf.write_to(&mut out, image::ImageFormat::WebP) {
        Ok(()) => Some(out.into_inner()),
        Err(_) => None,
    }
}

/// Relies on `DynamicImage::resize_exact` with the Lanczos3 filter: the
/// result has exactly the requested dimensions, ignores aspect ratio, and
/// depends only on the source pixels and both dimension pairs.
#[verifier::external_body]
pub(crate) fn resize_exact(img: &ImageBuf, nwidth: u32, nheight: u32) -> (r: ImageBuf)
    requires
        img.wf(),
        img.width >= 1,
        img.height >= 1,
        nwidth >= 1,
        nheight >= 1,
        4 * ((nwidth as int) * (nheight as int)) <= usize::MAX,
    ensures
        r.wf(),
        r.width == nwidth,
        r.height == nheight,
        r.data@ == resized_rgba(
            (img.width as nat),
            (img.height as nat),
            img.data@,
            (nwidth as nat),
            (nheight as nat),
        ),
{
    let buf = image::RgbaImage::from_raw(img.width, img.height, img.data.clone()).unwrap();
    let resized = image::DynamicImage::ImageRgba8(buf).resize_exact(
        nwidth,
        nheight,
        image::imageops::FilterType::Lanczos3,
    );
    let rgba = resized.to_rgba8();
    let (w, h) = rgba.dimensions();
    ImageBuf { width: w, height: h, data: rgba.into_raw() }
}

} // verus!
