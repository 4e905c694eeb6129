//! The transform engine: background removal by corner-color distance,
//! straight-alpha compositing over a fill color, exact resize + re-encode
//! conversion, and the color grading pipeline. Pixel work is verified; the
//! engine reaches the `image` crate only through the trusted boundary in
//! `imageio`.
use vstd::prelude::*;
use crate::color::{
    color_distance_sq, spec_color_distance_sq, spec_brightness_px, brightness_ch,
    spec_contrast_px, contrast_ch, spec_saturation_px, saturation_ch, luma, spec_hue_px,
    hue_shift_px, normalize_degrees,
};
use crate::imagebuf::{ImageBuf, px_at, rgb_at, px_ch, lemma_px_to_bytes, lemma_wf_len_facts};
use crate::imageio::{
    decode_rgba, encode_png, encode_jpeg, encode_bmp, encode_gif, encode_tiff, encode_webp,
    resize_exact, decoded_rgba, png_encoding, jpeg_encoding, bmp_encoding, gif_encoding,
    tiff_encoding, webp_encoding, resized_rgba,
};
use crate::strutil::str_eq;
use crate::lut::{Lut3D, spec_cube_parse, spec_lut_data};
use vstd::string::StringExecFns;

verus! {

/// Errors of the transform engine. Each carries a human-readable summary.
#[derive(Debug)]
pub enum ProcessingError {
    /// The segmentation model could not be prepared.
    ModelLoadFailed(String),
    /// Image data could not be decoded, or a result could not be encoded.
    ImageLoadFailed(String),
    /// A transform could not run (an unknown preset, unusable parameters).
    InferenceFailed(String),
    /// Byte-level input or output failed outside the engine.
    IoError(String),
}

/// Alpha assigned by background removal: fully transparent when the pixel's
/// squared RGB distance to the background estimate is below 50 squared,
/// opaque otherwise.
pub open spec fn spec_bg_alpha(rgb: (u8, u8, u8), bg: (u8, u8, u8)) -> u8 {
    if spec_color_distance_sq(rgb, bg) < 2500 {
        0u8
    } else {
        255u8
    }
}

/// Background removal on one pixel: color kept, alpha thresholded.
pub open spec fn spec_remove_px(px: (u8, u8, u8, u8), bg: (u8, u8, u8)) -> (u8, u8, u8, u8) {
    (px.0, px.1, px.2, spec_bg_alpha((px.0, px.1, px.2), bg))
}

/// The background estimate of an image given as raw RGBA bytes: the four
/// corner pixels averaged channel by channel (integer division by four).
pub open spec fn spec_bg_color_data(data: Seq<u8>, w: int, h: int) -> (u8, u8, u8) {
    let c00 = rgb_at(data, 0);
    let c10 = rgb_at(data, w - 1);
    let c01 = rgb_at(data, (h - 1) * w);
    let c11 = rgb_at(data, h * w - 1);
    (
        (((c00.0 + c10.0 + c01.0 + c11.0) / 4) as u8),
        (((c00.1 + c10.1 + c01.1 + c11.1) / 4) as u8),
        (((c00.2 + c10.2 + c01.2 + c11.2) / 4) as u8),
    )
}

/// The raw bytes of an image after background removal.
pub open spec fn spec_remove_data(data: Seq<u8>, w: int, h: int) -> Seq<u8> {
    Seq::new(
        data.len(),
        |k: int| px_ch(spec_remove_px(px_at(data, k / 4), spec_bg_color_data(data, w, h)), k % 4),
    )
}

/// Straight alpha blend of one channel: `fg*a/255 + bg*(255-a)/255` over a
/// common denominator.
pub open spec fn spec_blend_ch(fg: u8, bg: u8, alpha: u8) -> u8 {
    ((fg * alpha + bg * (255 - alpha)) / 255) as u8
}

/// Composite one foreground pixel over an opaque fill color; the result is
/// opaque.
pub open spec fn spec_composite_px(px: (u8, u8, u8, u8), bg: (u8, u8, u8)) -> (u8, u8, u8, u8) {
    (
        spec_blend_ch(px.0, bg.0, px.3),
        spec_blend_ch(px.1, bg.1, px.3),
        spec_blend_ch(px.2, bg.2, px.3),
        255u8,
    )
}

/// The raw bytes of an image composited over an opaque fill color.
pub open spec fn spec_composite_data(data: Seq<u8>, bg: (u8, u8, u8)) -> Seq<u8> {
    Seq::new(data.len(), |k: int| px_ch(spec_composite_px(px_at(data, k / 4), bg), k % 4))
}

/// The transform engine; carries the configured path of the segmentation
/// model asset.
pub struct ImageProcessor {
    pub model_path: String,
}

impl ImageProcessor {
    /// Build an engine for the given model path. Always succeeds; the model
    /// file is only consulted when a job runs.
    pub fn new(model_path: String) -> (r: Result<ImageProcessor, ProcessingError>)
        ensures
            r matches Ok(p) && p.model_path@ == model_path@,
    {
        Ok(ImageProcessor { model_path })
    }

    /// Average the four corner pixels; the result estimates the background
    /// color of the image.
    pub fn estimate_background_color(&self, img: &ImageBuf) -> (bg: (u8, u8, u8))
        requires
            img.wf(),
            img.width >= 1,
            img.height >= 1,
        ensures
            bg == spec_bg_color_data(img.data@, img.spec_width(), img.spec_height()),
    {
        let n = img.pixel_count();
        let w = img.width() as usize;
        proof {
            assert((img.spec_height() - 1) * img.spec_width() == img.num_pixels()
                - img.spec_width() && img.num_pixels() >= img.spec_width()) by (nonlinear_arith)
                requires
                    img.num_pixels() == img.spec_width() * img.spec_height() && img.spec_width()
                        >= 1 && img.spec_height() >= 1,
            ;
        }
        let c00 = img.get_pixel(0);
        let c10 = img.get_pixel(w - 1);
        let c01 = img.get_pixel(n - w);
        let c11 = img.get_pixel(n - 1);
        let r = ((c00.0 as u32 + c10.0 as u32 + c01.0 as u32 + c11.0 as u32) / 4) as u8;
        let g = ((c00.1 as u32 + c10.1 as u32 + c01.1 as u32 + c11.1 as u32) / 4) as u8;
        let b = ((c00.2 as u32 + c10.2 as u32 + c01.2 as u32 + c11.2 as u32) / 4) as u8;
        (r, g, b)
    }

    /// Squared RGB distance between two colors; background removal compares
    /// it to the squared threshold 2500.
    pub fn color_distance_sq(&self, a: (u8, u8, u8), b: (u8, u8, u8)) -> (r: u32)
        ensures
            r == spec_color_distance_sq(a, b),
    {
        color_distance_sq(a, b)
    }

    /// Threshold-based background removal: estimate the background from the
    /// corners, then make every pixel within RGB distance 50 of the estimate
    /// fully transparent and every other pixel fully opaque.
    pub fn simple_bg_removal(&self, img: &ImageBuf) -> (r: Result<ImageBuf, ProcessingError>)
        requires
            img.wf(),
            img.width >= 1,
            img.height >= 1,
        ensures
            r matches Ok(out) && out.wf() && out.same_dims(*img) && out.data@ == spec_remove_data(
                img.data@,
                img.spec_width(),
                img.spec_height(),
            ) && (forall|i: int|
                0 <= i < out.num_pixels() ==> out.spec_pixel(i) == spec_remove_px(
                    img.spec_pixel(i),
                    spec_bg_color_data(img.data@, img.spec_width(), img.spec_height()),
                )),
    {
        let ghost bgc = spec_bg_color_data(img.data@, img.spec_width(), img.spec_height());
        let bg = self.estimate_background_color(img);
        let n = img.pixel_count();
        let dl = img.data.len();
        let mut out = ImageBuf::new(img.width(), img.height());
        let mut i: usize = 0;
        while i < n
            invariant
                img.wf(),
                out.wf(),
                out.width == img.width,
                out.height == img.height,
                n == img.num_pixels(),
                i <= n,
                bg == bgc,
                bgc == spec_bg_color_data(img.data@, img.spec_width(), img.spec_height()),
                forall|j: int|
                    0 <= j < i ==> out.spec_pixel(j) == spec_remove_px(img.spec_pixel(j), bgc),
            decreases n - i,
        {
            let px = img.get_pixel(i);
            let d2 = color_distance_sq((px.0, px.1, px.2), bg);
            let alpha: u8 = if d2 < 2500 {
                0
            } else {
                255
            };
            out.set_pixel(i, (px.0, px.1, px.2, alpha));
            i = i + 1;
        }
        proof {
            lemma_wf_len_facts(*img);
            let f = (|px: (u8, u8, u8, u8)| spec_remove_px(px, bgc));
            assert forall|j: int| 0 <= j < img.data@.len() / 4 implies px_at(out.data@, j) == f(
                px_at(img.data@, j),
            ) by {
                assert(out.spec_pixel(j) == spec_remove_px(img.spec_pixel(j), bgc));
            }
            lemma_px_to_bytes(out.data@, img.data@, f);
            assert forall|k: int| 0 <= k < out.data@.len() implies out.data@[k]
                == spec_remove_data(img.data@, img.spec_width(), img.spec_height())[k] by {
                assert(f(px_at(img.data@, k / 4)) == spec_remove_px(px_at(img.data@, k / 4), bgc));
            }
            assert(out.data@ =~= spec_remove_data(
                img.data@,
                img.spec_width(),
                img.spec_height(),
            ));
        }
        Ok(out)
    }

    /// Composite every pixel over an opaque fill color with straight alpha
    /// blending.
    pub fn composite_over_color(&self, img: &ImageBuf, bg: (u8, u8, u8)) -> (out: ImageBuf)
        requires
            img.wf(),
        ensures
            out.wf(),
            out.same_dims(*img),
            out.data@ == spec_composite_data(img.data@, bg),
            forall|i: int|
                0 <= i < out.num_pixels() ==> out.spec_pixel(i) == spec_composite_px(
                    img.spec_pixel(i),
                    bg,
                ),
    {
        let n = img.pixel_count();
        let dl = img.data.len();
        let mut out = ImageBuf::new(img.width(), img.height());
        let mut i: usize = 0;
        while i < n
            invariant
                img.wf(),
                out.wf(),
                out.width == img.width,
                out.height == img.height,
                n == img.num_pixels(),
                i <= n,
                forall|j: int|
                    0 <= j < i ==> out.spec_pixel(j) == spec_composite_px(img.spec_pixel(j), bg),
            decreases n - i,
        {
            let px = img.get_pixel(i);
            let a = px.3;
            out.set_pixel(
                i,
                (blend_ch(px.0, bg.0, a), blend_ch(px.1, bg.1, a), blend_ch(px.2, bg.2, a), 255),
            );
            i = i + 1;
        }
        proof {
            lemma_wf_len_facts(*img);
            let f = (|px: (u8, u8, u8, u8)| spec_composite_px(px, bg));
            assert forall|j: int| 0 <= j < img.data@.len() / 4 implies px_at(out.data@, j) == f(
                px_at(img.data@, j),
            ) by {
                assert(out.spec_pixel(j) == spec_composite_px(img.spec_pixel(j), bg));
            }
            lemma_px_to_bytes(out.data@, img.data@, f);
            assert forall|k: int| 0 <= k < out.data@.len() implies out.data@[k]
                == spec_composite_data(img.data@, bg)[k] by {
                assert(f(px_at(img.data@, k / 4)) == spec_composite_px(px_at(img.data@, k / 4), bg));
            }
            assert(out.data@ =~= spec_composite_data(img.data@, bg));
        }
        out
    }
}

/// The raw bytes of an image after the additive brightness adjustment.
pub open spec fn spec_brightness_data(data: Seq<u8>, amount: int) -> Seq<u8> {
    Seq::new(data.len(), |k: int| px_ch(spec_brightness_px(px_at(data, k / 4), amount), k % 4))
}

/// The raw bytes of an image after the contrast adjustment.
pub open spec fn spec_contrast_data(data: Seq<u8>, amount: int) -> Seq<u8> {
    Seq::new(data.len(), |k: int| px_ch(spec_contrast_px(px_at(data, k / 4), amount), k % 4))
}

/// The raw bytes of an image after the saturation adjustment.
pub open spec fn spec_saturation_data(data: Seq<u8>, amount: int) -> Seq<u8> {
    Seq::new(data.len(), |k: int| px_ch(spec_saturation_px(px_at(data, k / 4), amount), k % 4))
}

/// The raw bytes of an image after the hue rotation.
pub open spec fn spec_hue_data(data: Seq<u8>, amount: int) -> Seq<u8> {
    Seq::new(data.len(), |k: int| px_ch(spec_hue_px(px_at(data, k / 4), amount), k % 4))
}

/// Contrast amounts at or above the gain formula's pole (259) are clamped to
/// the largest meaningful gain.
pub open spec fn spec_clamped_contrast(amount: int) -> int {
    if amount > 258 {
        258
    } else {
        amount
    }
}

/// The raw bytes of an image after the full grading pipeline: brightness,
/// then contrast, then saturation, then hue, each step only when requested.
pub open spec fn spec_color_grade_data(
    data: Seq<u8>,
    hue: Option<i32>,
    sat: Option<i32>,
    bri: Option<i32>,
    con: Option<i32>,
) -> Seq<u8> {
    let d1 = match bri {
        Some(b) => spec_brightness_data(data, b as int),
        None => data,
    };
    let d2 = match con {
        Some(c) => spec_contrast_data(d1, spec_clamped_contrast(c as int)),
        None => d1,
    };
    let d3 = match sat {
        Some(s) => spec_saturation_data(d2, s as int),
        None => d2,
    };
    match hue {
        Some(hh) => spec_hue_data(d3, hh as int),
        None => d3,
    }
}

/// An identical copy of an image buffer.
pub fn copy_image(img: &ImageBuf) -> (out: ImageBuf)
    ensures
        out.width == img.width,
        out.height == img.height,
        out.data@ == img.data@,
{
    let n = img.data.len();
    let mut d: Vec<u8> = Vec::new();
    let mut i: usize = 0;
    while i < n
        invariant
            n == img.data@.len(),
            d@.len() == i,
            i <= n,
            forall|j: int| 0 <= j < i ==> d@[j] == img.data@[j],
        decreases n - i,
    {
        d.push(img.data[i]);
        i = i + 1;
    }
    proof {
        assert(d@ =~= img.data@);
    }
    ImageBuf { width: img.width, height: img.height, data: d }
}

/// Additive brightness on every pixel.
pub fn adjust_brightness(img: &ImageBuf, amount: i32) -> (out: ImageBuf)
    requires
        img.wf(),
    ensures
        out.wf(),
        out.same_dims(*img),
        out.data@ == spec_brightness_data(img.data@, amount as int),
        forall|i: int|
            0 <= i < out.num_pixels() ==> out.spec_pixel(i) == spec_brightness_px(
                img.spec_pixel(i),
                amount as int,
            ),
{
    let n = img.pixel_count();
    let dl = img.data.len();
    let mut out = ImageBuf::new(img.width(), img.height());
    let mut i: usize = 0;
    while i < n
        invariant
            img.wf(),
            out.wf(),
            out.width == img.width,
            out.height == img.height,
            n == img.num_pixels(),
            i <= n,
            forall|j: int|
                0 <= j < i ==> out.spec_pixel(j) == spec_brightness_px(
                    img.spec_pixel(j),
                    amount as int,
                ),
        decreases n - i,
    {
        let px = img.get_pixel(i);
        out.set_pixel(
            i,
            (
                brightness_ch(px.0, amount),
                brightness_ch(px.1, amount),
                brightness_ch(px.2, amount),
                px.3,
            ),
        );
        i = i + 1;
    }
    proof {
        lemma_wf_len_facts(*img);
        let f = (|px: (u8, u8, u8, u8)| spec_brightness_px(px, amount as int));
        assert forall|j: int| 0 <= j < img.data@.len() / 4 implies px_at(out.data@, j) == f(
            px_at(img.data@, j),
        ) by {
            assert(out.spec_pixel(j) == spec_brightness_px(img.spec_pixel(j), amount as int));
        }
        lemma_px_to_bytes(out.data@, img.data@, f);
        assert forall|k: int| 0 <= k < out.data@.len() implies out.data@[k]
            == spec_brightness_data(img.data@, amount as int)[k] by {
            assert(f(px_at(img.data@, k / 4)) == spec_brightness_px(
                px_at(img.data@, k / 4),
                amount as int,
            ));
        }
        assert(out.data@ =~= spec_brightness_data(img.data@, amount as int));
    }
    out
}

/// Contrast gain on every pixel; amounts at or above the formula's pole are
/// excluded here and clamped by the pipeline.
pub fn adjust_contrast(img: &ImageBuf, amount: i32) -> (out: ImageBuf)
    requires
        img.wf(),
        amount <= 258,
    ensures
        out.wf(),
        out.same_dims(*img),
        out.data@ == spec_contrast_data(img.data@, amount as int),
        forall|i: int|
            0 <= i < out.num_pixels() ==> out.spec_pixel(i) == spec_contrast_px(
                img.spec_pixel(i),
                amount as int,
            ),
{
    let n = img.pixel_count();
    let dl = img.data.len();
    let mut out = ImageBuf::new(img.width(), img.height());
    let mut i: usize = 0;
    while i < n
        invariant
            img.wf(),
            out.wf(),
            out.width == img.width,
            out.height == img.height,
            n == img.num_pixels(),
            i <= n,
            amount <= 258,
            forall|j: int|
                0 <= j < i ==> out.spec_pixel(j) == spec_contrast_px(
                    img.spec_pixel(j),
                    amount as int,
                ),
        decreases n - i,
    {
        let px = img.get_pixel(i);
        out.set_pixel(
            i,
            (
                contrast_ch(px.0, amount),
                contrast_ch(px.1, amount),
                contrast_ch(px.2, amount),
                px.3,
            ),
        );
        i = i + 1;
    }
    proof {
        lemma_wf_len_facts(*img);
        let f = (|px: (u8, u8, u8, u8)| spec_contrast_px(px, amount as int));
        assert forall|j: int| 0 <= j < img.data@.len() / 4 implies px_at(out.data@, j) == f(
            px_at(img.data@, j),
        ) by {
            assert(out.spec_pixel(j) == spec_contrast_px(img.spec_pixel(j), amount as int));
        }
        lemma_px_to_bytes(out.data@, img.data@, f);
        assert forall|k: int| 0 <= k < out.data@.len() implies out.data@[k] == spec_contrast_data(
            img.data@,
            amount as int,
        )[k] by {
            assert(f(px_at(img.data@, k / 4)) == spec_contrast_px(
                px_at(img.data@, k / 4),
                amount as int,
            ));
        }
        assert(out.data@ =~= spec_contrast_data(img.data@, amount as int));
    }
    out
}

/// Saturation blend on every pixel, toward each pixel's own luma.
pub fn adjust_saturation(img: &ImageBuf, amount: i32) -> (out: ImageBuf)
    requires
        img.wf(),
    ensures
        out.wf(),
        out.same_dims(*img),
        out.data@ == spec_saturation_data(img.data@, amount as int),
        forall|i: int|
            0 <= i < out.num_pixels() ==> out.spec_pixel(i) == spec_saturation_px(
                img.spec_pixel(i),
                amount as int,
            ),
{
    let n = img.pixel_count();
    let dl = img.data.len();
    let mut out = ImageBuf::new(img.width(), img.height());
    let mut i: usize = 0;
    while i < n
        invariant
            img.wf(),
            out.wf(),
            out.width == img.width,
            out.height == img.height,
            n == img.num_pixels(),
            i <= n,
            forall|j: int|
                0 <= j < i ==> out.spec_pixel(j) == spec_saturation_px(
                    img.spec_pixel(j),
                    amount as int,
                ),
        decreases n - i,
    {
        let px = img.get_pixel(i);
        let gray = luma(px.0, px.1, px.2);
        out.set_pixel(
            i,
            (
                saturation_ch(px.0, gray, amount),
                saturation_ch(px.1, gray, amount),
                saturation_ch(px.2, gray, amount),
                px.3,
            ),
        );
        i = i + 1;
    }
    proof {
        lemma_wf_len_facts(*img);
        let f = (|px: (u8, u8, u8, u8)| spec_saturation_px(px, amount as int));
        assert forall|j: int| 0 <= j < img.data@.len() / 4 implies px_at(out.data@, j) == f(
            px_at(img.data@, j),
        ) by {
            assert(out.spec_pixel(j) == spec_saturation_px(img.spec_pixel(j), amount as int));
        }
        lemma_px_to_bytes(out.data@, img.data@, f);
        assert forall|k: int| 0 <= k < out.data@.len() implies out.data@[k]
            == spec_saturation_data(img.data@, amount as int)[k] by {
            assert(f(px_at(img.data@, k / 4)) == spec_saturation_px(
                px_at(img.data@, k / 4),
                amount as int,
            ));
        }
        assert(out.data@ =~= spec_saturation_data(img.data@, amount as int));
    }
    out
}

/// Hue rotation on every pixel by a signed amount of degrees.
pub fn adjust_hue(img: &ImageBuf, amount: i32) -> (out: ImageBuf)
    requires
        img.wf(),
    ensures
        out.wf(),
        out.same_dims(*img),
        out.data@ == spec_hue_data(img.data@, amount as int),
        forall|i: int|
            0 <= i < out.num_pixels() ==> out.spec_pixel(i) == spec_hue_px(
                img.spec_pixel(i),
                amount as int,
            ),
{
    let am = normalize_degrees(amount);
    let n = img.pixel_count();
    let dl = img.data.len();
    let mut out = ImageBuf::new(img.width(), img.height());
    let mut i: usize = 0;
    while i < n
        invariant
            img.wf(),
            out.wf(),
            out.width == img.width,
            out.height == img.height,
            n == img.num_pixels(),
            i <= n,
            am == (amount as int) % 360,
            am < 360,
            forall|j: int|
                0 <= j < i ==> out.spec_pixel(j) == spec_hue_px(img.spec_pixel(j), amount as int),
        decreases n - i,
    {
        let px = img.get_pixel(i);
        out.set_pixel(i, hue_shift_px(px, am));
        i = i + 1;
    }
    proof {
        lemma_wf_len_facts(*img);
        let f = (|px: (u8, u8, u8, u8)| spec_hue_px(px, amount as int));
        assert forall|j: int| 0 <= j < img.data@.len() / 4 implies px_at(out.data@, j) == f(
            px_at(img.data@, j),
        ) by {
            assert(out.spec_pixel(j) == spec_hue_px(img.spec_pixel(j), amount as int));
        }
        lemma_px_to_bytes(out.data@, img.data@, f);
        assert forall|k: int| 0 <= k < out.data@.len() implies out.data@[k] == spec_hue_data(
            img.data@,
            amount as int,
        )[k] by {
            assert(f(px_at(img.data@, k / 4)) == spec_hue_px(px_at(img.data@, k / 4), amount as int));
        }
        assert(out.data@ =~= spec_hue_data(img.data@, amount as int));
    }
    out
}

/// The grading pipeline on a decoded buffer, in the fixed order brightness,
/// contrast, saturation, hue.
pub fn color_grade_buf(
    img: &ImageBuf,
    hue: Option<i32>,
    saturation: Option<i32>,
    brightness: Option<i32>,
    contrast: Option<i32>,
) -> (out: ImageBuf)
    requires
        img.wf(),
    ensures
        out.wf(),
        out.same_dims(*img),
        out.data@ == spec_color_grade_data(img.data@, hue, saturation, brightness, contrast),
{
    let mut cur: ImageBuf = copy_image(img);
    if let Some(b) = brightness {
        cur = adjust_brightness(&cur, b);
    }
    if let Some(c) = contrast {
        let c2: i32 = if c > 258 {
            258
        } else {
            c
        };
        cur = adjust_contrast(&cur, c2);
    }
    if let Some(s) = saturation {
        cur = adjust_saturation(&cur, s);
    }
    if let Some(hh) = hue {
        cur = adjust_hue(&cur, hh);
    }
    cur
}

/// Dimensions the PNG encoder accepts: each side in 1..=2^31-1.
pub open spec fn png_encodable(w: nat, h: nat) -> bool {
    1 <= w <= 0x7fff_ffff && 1 <= h <= 0x7fff_ffff
}

/// Dimensions the JPEG encoder accepts: each side in 1..=65535.
pub open spec fn jpeg_encodable(w: nat, h: nat) -> bool {
    1 <= w <= 65535 && 1 <= h <= 65535
}

/// An exact resize the sampler can carry out: nonzero source and target, and
/// both the output buffer and the sampler's intermediate buffer (source width
/// by target height, sixteen bytes per pixel) fit in memory.
pub open spec fn spec_resizable(w0: nat, h0: nat, w: nat, h: nat) -> bool {
    w0 >= 1 && h0 >= 1 && w >= 1 && h >= 1 && 4 * (w * h) <= usize::MAX && 16 * (w0 * h)
        <= usize::MAX
}

/// The PNG bytes produced by background removal, when the input decodes to an
/// image the PNG encoder accepts.
pub open spec fn spec_remove_bg_result(input: Seq<u8>) -> Option<Seq<u8>> {
    match decoded_rgba(input) {
        None => None,
        Some(t) => if !png_encodable(t.0, t.1) {
            None
        } else {
            Some(png_encoding(t.0, t.1, spec_remove_data(t.2, t.0 as int, t.1 as int)))
        },
    }
}

/// The PNG bytes produced by background replacement: removal, then straight
/// alpha compositing over the fill color.
pub open spec fn spec_replace_bg_result(input: Seq<u8>, bg: (u8, u8, u8)) -> Option<Seq<u8>> {
    match decoded_rgba(input) {
        None => None,
        Some(t) => if !png_encodable(t.0, t.1) {
            None
        } else {
            Some(
                png_encoding(
                    t.0,
                    t.1,
                    spec_composite_data(spec_remove_data(t.2, t.0 as int, t.1 as int), bg),
                ),
            )
        },
    }
}

/// The bytes produced by format conversion: an optional exact resize (only
/// when both target dimensions are given, and only within the sampler's
/// capacity), then a re-encode into the requested format. PNG and JPEG
/// targets encode exactly within their dimension ranges; BMP, GIF, TIFF and
/// WEBP targets yield whatever their encoder yields; other targets are
/// refused.
pub open spec fn spec_convert_result(
    input: Seq<u8>,
    width: Option<u32>,
    height: Option<u32>,
    fmt: Seq<char>,
) -> Option<Seq<u8>> {
    match decoded_rgba(input) {
        None => None,
        Some(t) => {
            let ok_resize = match (width, height) {
                (Some(w), Some(h)) => spec_resizable(t.0, t.1, w as nat, h as nat),
                _ => true,
            };
            let w2 = match (width, height) {
                (Some(w), Some(h)) => (w as nat),
                _ => t.0,
            };
            let h2 = match (width, height) {
                (Some(w), Some(h)) => (h as nat),
                _ => t.1,
            };
            let px2 = match (width, height) {
                (Some(w), Some(h)) => resized_rgba(t.0, t.1, t.2, w as nat, h as nat),
                _ => t.2,
            };
            if !ok_resize {
                None
            } else if fmt == "png"@ {
                if png_encodable(w2, h2) {
                    Some(png_encoding(w2, h2, px2))
                } else {
                    None
                }
            } else if fmt == "jpg"@ || fmt == "jpeg"@ {
                if jpeg_encodable(w2, h2) {
                    Some(jpeg_encoding(w2, h2, px2))
                } else {
                    None
                }
            } else if fmt == "bmp"@ {
                bmp_encoding(w2, h2, px2)
            } else if fmt == "gif"@ {
                gif_encoding(w2, h2, px2)
            } else if fmt == "tiff"@ {
                tiff_encoding(w2, h2, px2)
            } else if fmt == "webp"@ {
                webp_encoding(w2, h2, px2)
            } else {
                None
            }
        },
    }
}

/// The PNG bytes produced by the grading pipeline, when the input decodes to
/// an image the PNG encoder accepts.
pub open spec fn spec_grade_result(
    input: Seq<u8>,
    hue: Option<i32>,
    sat: Option<i32>,
    bri: Option<i32>,
    con: Option<i32>,
) -> Option<Seq<u8>> {
    match decoded_rgba(input) {
        None => None,
        Some(t) => if !png_encodable(t.0, t.1) {
            None
        } else {
            Some(png_encoding(t.0, t.1, spec_color_grade_data(t.2, hue, sat, bri, con)))
        },
    }
}

/// The PNG bytes produced by applying a `.cube` LUT to an image: both parse
/// (a parsed lattice is never empty), the image is one the PNG encoder
/// accepts, and the lookup runs over every pixel.
pub open spec fn spec_lut_result(input: Seq<u8>, lut_text: Seq<u8>) -> Option<Seq<u8>> {
    match decoded_rgba(input) {
        None => None,
        Some(t) => match spec_cube_parse(lut_text) {
            Ok(l) => if png_encodable(t.0, t.1) {
                Some(png_encoding(t.0, t.1, spec_lut_data(l.0, l.1, t.2)))
            } else {
                None
            },
            Err(_) => None,
        },
    }
}

/// The manual adjustments a named preset stands for, as (hue, saturation,
/// brightness, contrast).
pub open spec fn spec_preset_params(p: Seq<char>) -> Option<(i32, i32, i32, i32)> {
    if p == "vintage"@ {
        Some((15i32, -20i32, -10i32, 10i32))
    } else if p == "cinematic"@ {
        Some((-5i32, 10i32, -15i32, 20i32))
    } else if p == "bright"@ {
        Some((0i32, 15i32, 30i32, 5i32))
    } else {
        None
    }
}

impl ImageProcessor {
    /// Remove the background of an encoded image and hand back the PNG bytes
    /// of the transparent result. Succeeds exactly on inputs that decode to
    /// an image the PNG encoder accepts.
    pub fn remove_background(&self, input: &Vec<u8>) -> (r: Result<Vec<u8>, ProcessingError>)
        ensures
            spec_remove_bg_result(input@) matches Some(b) ==> r matches Ok(v) && v@ == b,
            spec_remove_bg_result(input@) is None ==> r is Err,
            decoded_rgba(input@) is None ==> (r matches Err(e) && e is ImageLoadFailed),
    {
        let img = match decode_rgba(input) {
            Some(im) => im,
            None => {
                return Err(
                    ProcessingError::ImageLoadFailed(String::from_str("could not decode image")),
                );
            },
        };
        if img.width() == 0 || img.height() == 0 {
            return Err(ProcessingError::ImageLoadFailed(String::from_str("image has no pixels")));
        }
        if img.width() > 0x7fff_ffff || img.height() > 0x7fff_ffff {
            return Err(
                ProcessingError::ImageLoadFailed(
                    String::from_str("image dimensions unsupported by the encoder"),
                ),
            );
        }
        let removed = match self.simple_bg_removal(&img) {
            Ok(x) => x,
            Err(e) => {
                return Err(e);
            },
        };
        match encode_png(&removed) {
            Some(v) => Ok(v),
            None => {
                proof {
                    assert(false);
                }
                Err(ProcessingError::ImageLoadFailed(String::from_str("could not encode image")))
            },
        }
    }

    /// Remove the background, then composite the transparent result over an
    /// opaque fill color; hands back the PNG bytes.
    pub fn replace_background(&self, input: &Vec<u8>, bg_color: (u8, u8, u8)) -> (r: Result<
        Vec<u8>,
        ProcessingError,
    >)
        ensures
            spec_replace_bg_result(input@, bg_color) matches Some(b) ==> r matches Ok(v) && v@
                == b,
            spec_replace_bg_result(input@, bg_color) is None ==> r is Err,
            decoded_rgba(input@) is None ==> (r matches Err(e) && e is ImageLoadFailed),
    {
        let img = match decode_rgba(input) {
            Some(im) => im,
            None => {
                return Err(
                    ProcessingError::ImageLoadFailed(String::from_str("could not decode image")),
                );
            },
        };
        if img.width() == 0 || img.height() == 0 {
            return Err(ProcessingError::ImageLoadFailed(String::from_str("image has no pixels")));
        }
        if img.width() > 0x7fff_ffff || img.height() > 0x7fff_ffff {
            return Err(
                ProcessingError::ImageLoadFailed(
                    String::from_str("image dimensions unsupported by the encoder"),
                ),
            );
        }
        let removed = match self.simple_bg_removal(&img) {
            Ok(x) => x,
            Err(e) => {
                return Err(e);
            },
        };
        let composited = self.composite_over_color(&removed, bg_color);
        match encode_png(&composited) {
            Some(v) => Ok(v),
            None => {
                proof {
                    assert(false);
                }
                Err(ProcessingError::ImageLoadFailed(String::from_str("could not encode image")))
            },
        }
    }

    /// Convert an encoded image: resize exactly when both target dimensions
    /// are given, then re-encode into the requested output format. Succeeds
    /// exactly when the input decodes, any requested resize is within the
    /// sampler's capacity, and the final dimensions are ones the requested
    /// encoder accepts.
    pub fn convert_format(
        &self,
        input: &Vec<u8>,
        width: Option<u32>,
        height: Option<u32>,
        output_format: &str,
    ) -> (r: Result<Vec<u8>, ProcessingError>)
        ensures
            spec_convert_result(input@, width, height, output_format@) matches Some(b) ==> r
                matches Ok(v) && v@ == b,
            spec_convert_result(input@, width, height, output_format@) is None ==> r is Err,
            decoded_rgba(input@) is None ==> (r matches Err(e) && e is ImageLoadFailed),
    {
        let img = match decode_rgba(input) {
            Some(im) => im,
            None => {
                return Err(
                    ProcessingError::ImageLoadFailed(String::from_str("could not decode image")),
                );
            },
        };
        let both = width.is_some() && height.is_some();
        let cur: ImageBuf = if both {
            let w = match width {
                Some(w) => w,
                None => 1,
            };
            let h = match height {
                Some(h) => h,
                None => 1,
            };
            if img.width() == 0 || img.height() == 0 || w == 0 || h == 0 {
                return Err(
                    ProcessingError::InferenceFailed(String::from_str("bad resize dimensions")),
                );
            }
            proof {
                assert((w as int) * (h as int) < 18446744073709551616 && (w as int) * (h as int)
                    >= 0 && (img.width as int) * (h as int) < 18446744073709551616 && (
                img.width as int) * (h as int) >= 0) by (nonlinear_arith)
                    requires
                        w < 4294967296 && h < 4294967296 && img.width < 4294967296,
                ;
            }
            let q: u64 = (w as u64) * (h as u64);
            if q > usize::MAX as u64 / 4 {
                return Err(ProcessingError::InferenceFailed(String::from_str("resize too large")));
            }
            let q2: u64 = (img.width() as u64) * (h as u64);
            if q2 > usize::MAX as u64 / 16 {
                return Err(ProcessingError::InferenceFailed(String::from_str("resize too large")));
            }
            proof {
                vstd::arithmetic::div_mod::lemma_fundamental_div_mod(usize::MAX as int, 4);
                vstd::arithmetic::div_mod::lemma_fundamental_div_mod(usize::MAX as int, 16);
            }
            resize_exact(&img, w, h)
        } else {
            img
        };
        if str_eq(output_format, "png") {
            if cur.width() == 0 || cur.height() == 0 || cur.width() > 0x7fff_ffff || cur.height()
                > 0x7fff_ffff {
                return Err(
                    ProcessingError::ImageLoadFailed(
                        String::from_str("image dimensions unsupported by the encoder"),
                    ),
                );
            }
            match encode_png(&cur) {
                Some(v) => Ok(v),
                None => {
                    proof {
                        assert(false);
                    }
                    Err(
                        ProcessingError::ImageLoadFailed(
                            String::from_str("could not encode image"),
                        ),
                    )
                },
            }
        } else if str_eq(output_format, "jpg") || str_eq(output_format, "jpeg") {
            if cur.width() == 0 || cur.height() == 0 || cur.width() > 65535 || cur.height()
                > 65535 {
                return Err(
                    ProcessingError::ImageLoadFailed(
                        String::from_str("image dimensions unsupported by the encoder"),
                    ),
                );
            }
            match encode_jpeg(&cur) {
                Some(v) => Ok(v),
                None => {
                    proof {
                        assert(false);
                    }
                    Err(
                        ProcessingError::ImageLoadFailed(
                            String::from_str("could not encode image"),
                        ),
                    )
                },
            }
        } else if str_eq(output_format, "bmp") {
            match encode_bmp(&cur) {
                Some(v) => Ok(v),
                None => Err(
                    ProcessingError::ImageLoadFailed(String::from_str("could not encode image")),
                ),
            }
        } else if str_eq(output_format, "gif") {
            match encode_gif(&cur) {
                Some(v) => Ok(v),
                None => Err(
                    ProcessingError::ImageLoadFailed(String::from_str("could not encode image")),
                ),
            }
        } else if str_eq(output_format, "tiff") {
            match encode_tiff(&cur) {
                Some(v) => Ok(v),
                None => Err(
                    ProcessingError::ImageLoadFailed(String::from_str("could not encode image")),
                ),
            }
        } else if str_eq(output_format, "webp") {
            match encode_webp(&cur) {
                Some(v) => Ok(v),
                None => Err(
                    ProcessingError::ImageLoadFailed(String::from_str("could not encode image")),
                ),
            }
        } else {
            Err(ProcessingError::ImageLoadFailed(String::from_str("unsupported output format")))
        }
    }

    /// Apply the grading pipeline to an encoded image and hand back the PNG
    /// bytes of the graded result. Succeeds exactly on inputs that decode to
    /// an image the PNG encoder accepts.
    pub fn color_grade(
        &self,
        input: &Vec<u8>,
        hue: Option<i32>,
        saturation: Option<i32>,
        brightness: Option<i32>,
        contrast: Option<i32>,
    ) -> (r: Result<Vec<u8>, ProcessingError>)
        ensures
            spec_grade_result(input@, hue, saturation, brightness, contrast) matches Some(b)
                ==> r matches Ok(v) && v@ == b,
            spec_grade_result(input@, hue, saturation, brightness, contrast) is None ==> r is Err,
            decoded_rgba(input@) is None ==> (r matches Err(e) && e is ImageLoadFailed),
    {
        let img = match decode_rgba(input) {
            Some(im) => im,
            None => {
                return Err(
                    ProcessingError::ImageLoadFailed(String::from_str("could not decode image")),
                );
            },
        };
        if img.width() == 0 || img.height() == 0 {
            return Err(ProcessingError::ImageLoadFailed(String::from_str("image has no pixels")));
        }
        if img.width() > 0x7fff_ffff || img.height() > 0x7fff_ffff {
            return Err(
                ProcessingError::ImageLoadFailed(
                    String::from_str("image dimensions unsupported by the encoder"),
                ),
            );
        }
        let graded = color_grade_buf(&img, hue, saturation, brightness, contrast);
        match encode_png(&graded) {
            Some(v) => Ok(v),
            None => {
                proof {
                    assert(false);
                }
                Err(ProcessingError::ImageLoadFailed(String::from_str("could not encode image")))
            },
        }
    }

    /// Apply a 3D LUT, given as `.cube` text, to an encoded image; hands back
    /// the PNG bytes. Succeeds exactly when the LUT parses and the input
    /// decodes to an image the PNG encoder accepts.
    pub fn apply_lut(&self, input: &Vec<u8>, lut_text: &Vec<u8>) -> (r: Result<
        Vec<u8>,
        ProcessingError,
    >)
        ensures
            spec_lut_result(input@, lut_text@) matches Some(b) ==> r matches Ok(v) && v@ == b,
            spec_lut_result(input@, lut_text@) is None ==> r is Err,
            decoded_rgba(input@) is None ==> (r matches Err(e) && e is ImageLoadFailed),
            !(decoded_rgba(input@) is None) && spec_cube_parse(lut_text@) is Err ==> (r matches Err(
                e,
            ) && e is InferenceFailed),
    {
        let img = match decode_rgba(input) {
            Some(im) => im,
            None => {
                return Err(
                    ProcessingError::ImageLoadFailed(String::from_str("could not decode image")),
                );
            },
        };
        let lut = match Lut3D::from_cube(lut_text) {
            Ok(l) => l,
            Err(_) => {
                return Err(
                    ProcessingError::InferenceFailed(String::from_str("could not parse LUT")),
                );
            },
        };
        if img.width() == 0 || img.height() == 0 {
            return Err(ProcessingError::ImageLoadFailed(String::from_str("image has no pixels")));
        }
        if img.width() > 0x7fff_ffff || img.height() > 0x7fff_ffff {
            return Err(
                ProcessingError::ImageLoadFailed(
                    String::from_str("image dimensions unsupported by the encoder"),
                ),
            );
        }
        let out = lut.apply_to_image(&img);
        match encode_png(&out) {
            Some(v) => Ok(v),
            None => {
                proof {
                    assert(false);
                }
                Err(ProcessingError::ImageLoadFailed(String::from_str("could not encode image")))
            },
        }
    }

    /// Apply a named grading preset; an unknown name is refused.
    pub fn apply_preset(&self, input: &Vec<u8>, preset: &str) -> (r: Result<
        Vec<u8>,
        ProcessingError,
    >)
        ensures
            spec_preset_params(preset@) is None ==> (r matches Err(e) && e is InferenceFailed),
            spec_preset_params(preset@) matches Some(q) ==> (spec_grade_result(
                input@,
                Some(q.0),
                Some(q.1),
                Some(q.2),
                Some(q.3),
            ) matches Some(b) ==> r matches Ok(v) && v@ == b),
            spec_preset_params(preset@) matches Some(q) ==> (spec_grade_result(
                input@,
                Some(q.0),
                Some(q.1),
                Some(q.2),
                Some(q.3),
            ) is None ==> r is Err),
            spec_preset_params(preset@) is Some && decoded_rgba(input@) is None ==> (r matches Err(
                e,
            ) && e is ImageLoadFailed),
    {
        if str_eq(preset, "vintage") {
            self.color_grade(input, Some(15), Some(-20), Some(-10), Some(10))
        } else if str_eq(preset, "cinematic") {
            self.color_grade(input, Some(-5), Some(10), Some(-15), Some(20))
        } else if str_eq(preset, "bright") {
            self.color_grade(input, Some(0), Some(15), Some(30), Some(5))
        } else {
            Err(
                ProcessingError::InferenceFailed(
                    String::from_str("Unknown preset: ").concat(preset),
                ),
            )
        }
    }
}

/// Contrast adjustment at amount zero is the identity transform on a whole
/// raw RGBA image.
pub proof fn lemma_contrast_zero_data(data: Seq<u8>)
    requires
        data.len() % 4 == 0,
    ensures
        spec_contrast_data(data, 0) == data,
{
    assert forall|k: int| 0 <= k < data.len() implies spec_contrast_data(data, 0)[k]
        == data[k] by {
        vstd::arithmetic::div_mod::lemma_fundamental_div_mod(k, 4);
        crate::color::lemma_contrast_zero_identity(px_at(data, k / 4));
        assert(data[4 * (k / 4) + k % 4] == data[k]);
    }
    assert(spec_contrast_data(data, 0) =~= data);
}

/// Background removal on a single-color image (every pixel equal to the
/// corner color) yields full transparency: the corner average is that color,
/// every distance is zero, and every alpha is written as zero; the color
/// channels are kept.
pub proof fn lemma_remove_bg_uniform(img: ImageBuf, c: (u8, u8, u8))
    requires
        img.wf(),
        img.width >= 1,
        img.height >= 1,
        forall|i: int| 0 <= i < img.num_pixels() ==> img.spec_rgb(i) == c,
    ensures
        spec_bg_color_data(img.data@, img.spec_width(), img.spec_height()) == c,
        forall|i: int|
            0 <= i < img.num_pixels() ==> spec_remove_px(
                img.spec_pixel(i),
                spec_bg_color_data(img.data@, img.spec_width(), img.spec_height()),
            ) == (c.0, c.1, c.2, 0u8),
{
    let w = img.spec_width();
    let h = img.spec_height();
    assert(0 < img.num_pixels() && w - 1 < img.num_pixels() && 0 <= (h - 1) * w && (h - 1) * w
        < img.num_pixels() && h * w - 1 < img.num_pixels() && h * w == img.num_pixels())
        by (nonlinear_arith)
        requires
            img.num_pixels() == w * h && w >= 1 && h >= 1,
    ;
    assert(img.spec_rgb(0) == c);
    assert(img.spec_rgb(w - 1) == c);
    assert(img.spec_rgb((h - 1) * w) == c);
    assert(img.spec_rgb(h * w - 1) == c);
    assert((c.0 + c.0 + c.0 + c.0) / 4 == c.0 as int);
    assert((c.1 + c.1 + c.1 + c.1) / 4 == c.1 as int);
    assert((c.2 + c.2 + c.2 + c.2) / 4 == c.2 as int);
    let bg = spec_bg_color_data(img.data@, w, h);
    assert forall|i: int| 0 <= i < img.num_pixels() implies spec_remove_px(
        img.spec_pixel(i),
        bg,
    ) == (c.0, c.1, c.2, 0u8) by {
        assert(img.spec_rgb(i) == c);
        assert(spec_color_distance_sq(c, c) == 0) by (nonlinear_arith);
    }
}

/// One channel of the straight alpha blend.
pub fn blend_ch(fg: u8, bg: u8, alpha: u8) -> (r: u8)
    ensures
        r == spec_blend_ch(fg, bg, alpha),
{
    proof {
        assert((fg as int) * (alpha as int) + (bg as int) * (255 - alpha) <= 255 * 255 && (
        fg as int) * (alpha as int) >= 0 && (bg as int) * (255 - alpha) >= 0) by (nonlinear_arith)
            requires
                fg <= 255 && bg <= 255 && alpha <= 255,
        ;
    }
    ((fg as u32 * alpha as u32 + bg as u32 * (255 - alpha as u32)) / 255) as u8
}

} // verus!
