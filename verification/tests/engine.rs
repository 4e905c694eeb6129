//! Tests of the transform engine: pixel math, background removal, LUT
//! parsing and application, and the byte-level conversion paths.
use mediaforge::color::{brightness_ch, contrast_ch, hue_px, luma, saturation_ch};
use mediaforge::imagebuf::ImageBuf;
use mediaforge::lut::{Lut3D, LutError};
use mediaforge::processing::{
    adjust_brightness, adjust_contrast, adjust_hue, adjust_saturation, ImageProcessor,
    ProcessingError,
};

fn solid_image(w: u32, h: u32, px: (u8, u8, u8, u8)) -> ImageBuf {
    let mut img = ImageBuf::new(w, h);
    let n = (w * h) as usize;
    for i in 0..n {
        img.set_pixel(i, px);
    }
    img
}

fn png_of(img: &ImageBuf) -> Vec<u8> {
    let buf = image::RgbaImage::from_raw(img.width, img.height, img.data.clone()).unwrap();
    let mut out = std::io::Cursor::new(Vec::new());
    buf.write_to(&mut out, image::ImageFormat::Png).unwrap();
    out.into_inner()
}

#[test]
fn test_processor_creation() {
    let processor = ImageProcessor::new("./models/u2net.onnx".to_string());
    assert!(processor.is_ok());
}

#[test]
fn test_color_distance_sq() {
    let processor = ImageProcessor::new("./models/u2net.onnx".to_string()).unwrap();
    let black = (0u8, 0u8, 0u8);
    let white = (255u8, 255u8, 255u8);
    let distance = processor.color_distance_sq(black, white);
    assert_eq!(distance, 3 * 255 * 255);
    assert!(distance > 400 * 400);
    assert_eq!(processor.color_distance_sq((1, 2, 3), (1, 2, 3)), 0);
    assert_eq!(processor.color_distance_sq((10, 0, 0), (0, 0, 0)), 100);
}

#[test]
fn test_lut_load_and_apply() {
    // A tiny 2x2x2 cube: r varies fastest, then g, then b.
    let mut text = String::new();
    text.push_str("LUT_3D_SIZE 2\n");
    text.push_str("0 0 0\n");
    text.push_str("1 0 0\n");
    text.push_str("0 1 0\n");
    text.push_str("1 1 0\n");
    text.push_str("0 0 1\n");
    text.push_str("1 0 1\n");
    text.push_str("0 1 1\n");
    text.push_str("1 1 1\n");

    let lut = Lut3D::from_cube(&text.into_bytes()).unwrap();
    assert_eq!(lut.size, 2);
    assert_eq!(lut.entries.len(), 8);

    // Apply to a 1x1 transparent black image.
    let img = ImageBuf::new(1, 1);
    let out = lut.apply_to_image(&img);
    assert_eq!((out.width, out.height), (1, 1));
}

#[test]
fn test_identity_lut_round_trip() {
    // The 2x2x2 lattice with entries 0/255 is the identity mapping; pixels
    // whose channels sit on lattice points come back unchanged.
    let mut text = String::new();
    text.push_str("LUT_3D_SIZE 2\n");
    text.push_str("0 0 0\n1 0 0\n0 1 0\n1 1 0\n0 0 1\n1 0 1\n0 1 1\n1 1 1\n");
    let lut = Lut3D::from_cube(&text.into_bytes()).unwrap();

    let mut img = ImageBuf::new(2, 2);
    img.set_pixel(0, (255, 0, 255, 77));
    img.set_pixel(1, (0, 0, 0, 1));
    img.set_pixel(2, (255, 255, 255, 255));
    img.set_pixel(3, (0, 255, 0, 0));
    let out = lut.apply_to_image(&img);
    for i in 0..4usize {
        assert_eq!(out.get_pixel(i), img.get_pixel(i));
    }
}

#[test]
fn test_lut_count_mismatch() {
    // LUT_3D_SIZE 2 with only 7 triples must fail with a count mismatch.
    let mut text = String::new();
    text.push_str("LUT_3D_SIZE 2\n");
    text.push_str("0 0 0\n1 0 0\n0 1 0\n1 1 0\n0 0 1\n1 0 1\n0 1 1\n");
    let r = Lut3D::from_cube(&text.into_bytes());
    match r {
        Err(LutError::Parse(m)) => {
            assert_eq!(m, "Expected 8 entries but found 7");
        }
        _ => panic!("expected a count-mismatch parse error"),
    }
}

#[test]
fn test_lut_zero_size_refused() {
    // A zero lattice size describes no lattice, even with zero entries.
    let text = "LUT_3D_SIZE 0\n".to_string();
    match Lut3D::from_cube(&text.into_bytes()) {
        Err(LutError::Parse(m)) => {
            assert_eq!(m, "LUT_3D_SIZE must be positive");
        }
        _ => panic!("expected a refusal of the empty lattice"),
    }
}

#[test]
fn test_lut_numeric_token_grammar() {
    // Exponent forms and the infinity/not-a-number words are lattice values.
    let mut text = String::new();
    text.push_str("LUT_3D_SIZE 2\n");
    text.push_str("5e-1 25E-2 1e0\n"); // 0.5, 0.25, 1.0
    text.push_str("-1e3 inf NAN\n"); // 0, 255, 0
    text.push_str("0.00000000001e11 10e-1 1E9\n"); // 1.0, 1.0, huge
    text.push_str("-inf Infinity nan\n"); // 0, 255, 0
    text.push_str("0 0 0\n1 0 0\n0 1 0\n1 1 0\n");
    let lut = Lut3D::from_cube(&text.into_bytes()).unwrap();
    assert_eq!(lut.size, 2);
    assert_eq!(lut.entries[0], (127, 63, 255));
    assert_eq!(lut.entries[1], (0, 255, 0));
    assert_eq!(lut.entries[2], (255, 255, 255));
    assert_eq!(lut.entries[3], (0, 255, 0));
    // Malformed near-numbers stay ignored lines: the count comes out wrong.
    let mut bad = String::new();
    bad.push_str("LUT_3D_SIZE 2\n");
    bad.push_str("1e 0 0\n"); // an exponent with no digits is no value line
    bad.push_str("0 0 0\n1 0 0\n0 1 0\n1 1 0\n0 0 1\n1 0 1\n0 1 1\n");
    match Lut3D::from_cube(&bad.into_bytes()) {
        Err(LutError::Parse(m)) => {
            assert_eq!(m, "Expected 8 entries but found 7");
        }
        _ => panic!("expected a count-mismatch parse error"),
    }
}

#[test]
fn test_lut_size_inference_and_values() {
    // No directive: eight triples infer a 2-lattice; comments and blanks are
    // skipped; fractions floor at 255ths.
    let mut text = String::new();
    text.push_str("# a comment\n\nTITLE \"x\"\n");
    text.push_str("0.5 0.25 1\n-0.5 2 0\n0 0 0\n1 1 1\n");
    text.push_str("0.5 0.5 0.5\n1 0 0\n0 1 0\n0 0 1\n");
    let lut = Lut3D::from_cube(&text.into_bytes()).unwrap();
    assert_eq!(lut.size, 2);
    assert_eq!(lut.entries[0], (127, 63, 255));
    assert_eq!(lut.entries[1], (0, 255, 0));
}

#[test]
fn test_lut_missing_size() {
    // Seven triples without a directive: not a perfect cube.
    let mut text = String::new();
    text.push_str("0 0 0\n1 0 0\n0 1 0\n1 1 0\n0 0 1\n1 0 1\n0 1 1\n");
    let r = Lut3D::from_cube(&text.into_bytes());
    match r {
        Err(LutError::Parse(m)) => {
            assert_eq!(m, "Missing LUT_3D_SIZE and cannot infer size");
        }
        _ => panic!("expected a missing-size parse error"),
    }
}

#[test]
fn test_remove_bg_uniform_image() {
    // A single-color image becomes fully transparent.
    let processor = ImageProcessor::new(String::new()).unwrap();
    let img = solid_image(3, 2, (10, 20, 30, 255));
    let out = processor.simple_bg_removal(&img).unwrap();
    for i in 0..6usize {
        assert_eq!(out.get_pixel(i), (10, 20, 30, 0));
    }
}

#[test]
fn test_remove_bg_foreground_kept() {
    let processor = ImageProcessor::new(String::new()).unwrap();
    let mut img = solid_image(2, 2, (200, 200, 200, 255));
    // One pixel far from the corner average stays opaque.
    img.set_pixel(1, (0, 0, 0, 255));
    // The corner average shifts to (150,150,150); distance of (200,200,200)
    // is 3*50^2 = 7500 >= 2500, so background pixels also stay opaque here;
    // check exact alphas against the rule.
    let out = processor.simple_bg_removal(&img).unwrap();
    let bg = processor.estimate_background_color(&img);
    assert_eq!(bg, (150, 150, 150));
    assert_eq!(out.get_pixel(1).3, 255);
    assert_eq!(out.get_pixel(0).3, 255);
}

#[test]
fn test_remove_background_bytes() {
    let processor = ImageProcessor::new(String::new()).unwrap();
    let img = solid_image(2, 2, (5, 6, 7, 255));
    let png = png_of(&img);
    let out_png = processor.remove_background(&png).unwrap();
    let decoded = image::load_from_memory(&out_png).unwrap().to_rgba8();
    assert_eq!(decoded.dimensions(), (2, 2));
    for p in decoded.pixels() {
        assert_eq!(p.0, [5, 6, 7, 0]);
    }
}

#[test]
fn test_replace_background_bytes() {
    let processor = ImageProcessor::new(String::new()).unwrap();
    let img = solid_image(2, 1, (9, 9, 9, 255));
    let png = png_of(&img);
    let out_png = processor.replace_background(&png, (0, 0, 255)).unwrap();
    let decoded = image::load_from_memory(&out_png).unwrap().to_rgba8();
    // Uniform image: everything transparent, then composited over blue.
    for p in decoded.pixels() {
        assert_eq!(p.0, [0, 0, 255, 255]);
    }
}

#[test]
fn test_convert_resize_and_jpeg() {
    let processor = ImageProcessor::new(String::new()).unwrap();
    let img = solid_image(4, 4, (50, 100, 150, 255));
    let png = png_of(&img);
    let resized = processor
        .convert_format(&png, Some(3), Some(2), "png")
        .unwrap();
    let decoded = image::load_from_memory(&resized).unwrap().to_rgba8();
    assert_eq!(decoded.dimensions(), (3, 2));

    let jpg = processor.convert_format(&png, None, None, "jpg").unwrap();
    let dj = image::load_from_memory(&jpg).unwrap();
    assert_eq!(image::guess_format(&jpg).unwrap(), image::ImageFormat::Jpeg);
    assert_eq!((dj.width(), dj.height()), (4, 4));

    // The further raster targets encode through their own encoders.
    let bmp = processor.convert_format(&png, None, None, "bmp").unwrap();
    assert_eq!(image::guess_format(&bmp).unwrap(), image::ImageFormat::Bmp);
    let gif = processor.convert_format(&png, None, None, "gif").unwrap();
    assert_eq!(image::guess_format(&gif).unwrap(), image::ImageFormat::Gif);
    let tif = processor.convert_format(&png, None, None, "tiff").unwrap();
    assert_eq!(image::guess_format(&tif).unwrap(), image::ImageFormat::Tiff);
    let web = processor.convert_format(&png, None, None, "webp").unwrap();
    let dw = image::load_from_memory(&web).unwrap();
    assert_eq!((dw.width(), dw.height()), (4, 4));

    let bad = processor.convert_format(&png, None, None, "tga");
    assert!(matches!(bad, Err(ProcessingError::ImageLoadFailed(_))));
}

#[test]
fn test_brightness_exact() {
    assert_eq!(brightness_ch(100, 10), 110);
    assert_eq!(brightness_ch(250, 10), 255);
    assert_eq!(brightness_ch(5, -10), 0);
    let img = solid_image(2, 1, (100, 200, 250, 7));
    let out = adjust_brightness(&img, 10);
    assert_eq!(out.get_pixel(0), (110, 210, 255, 7));
}

#[test]
fn test_contrast_exact_and_zero_identity() {
    assert_eq!(contrast_ch(100, 10), 97);
    assert_eq!(contrast_ch(128, 10), 128);
    assert_eq!(contrast_ch(200, 50), 234);
    // Amount 0 is the identity transform.
    let mut img = ImageBuf::new(2, 1);
    img.set_pixel(0, (3, 77, 251, 13));
    img.set_pixel(1, (128, 0, 255, 255));
    let out = adjust_contrast(&img, 0);
    assert_eq!(out.get_pixel(0), img.get_pixel(0));
    assert_eq!(out.get_pixel(1), img.get_pixel(1));
}

#[test]
fn test_saturation_exact() {
    assert_eq!(luma(100, 150, 200), 140);
    assert_eq!(saturation_ch(100, 140, 100), 60);
    assert_eq!(saturation_ch(150, 140, 100), 160);
    assert_eq!(saturation_ch(200, 140, 100), 255);
    let img = solid_image(1, 1, (100, 150, 200, 9));
    let out = adjust_saturation(&img, 100);
    assert_eq!(out.get_pixel(0), (60, 160, 255, 9));
    // Amount 0 keeps the pixel.
    let same = adjust_saturation(&img, 0);
    assert_eq!(same.get_pixel(0), (100, 150, 200, 9));
}

#[test]
fn test_hue_exact() {
    // A 120-degree rotation turns pure red into pure green.
    assert_eq!(hue_px((255, 0, 0, 9), 120), (0, 255, 0, 9));
    assert_eq!(hue_px((10, 200, 50, 4), 180), (200, 10, 160, 4));
    // Gray pixels are unchanged, and so is a zero shift modulo a full turn.
    assert_eq!(hue_px((90, 90, 90, 1), 45), (90, 90, 90, 1));
    assert_eq!(hue_px((255, 0, 0, 2), 360), (255, 0, 0, 2));
    assert_eq!(hue_px((255, 0, 0, 2), -240), (0, 255, 0, 2));
    let img = solid_image(1, 1, (255, 0, 0, 8));
    let out = adjust_hue(&img, 120);
    assert_eq!(out.get_pixel(0), (0, 255, 0, 8));
}

#[test]
fn test_apply_preset() {
    let processor = ImageProcessor::new(String::new()).unwrap();
    let img = solid_image(1, 1, (100, 100, 100, 255));
    let png = png_of(&img);
    assert!(processor.apply_preset(&png, "vintage").is_ok());
    assert!(processor.apply_preset(&png, "cinematic").is_ok());
    assert!(processor.apply_preset(&png, "bright").is_ok());
    match processor.apply_preset(&png, "sepia") {
        Err(ProcessingError::InferenceFailed(m)) => {
            assert_eq!(m, "Unknown preset: sepia");
        }
        _ => panic!("expected an unknown-preset error"),
    }
}

#[test]
fn test_apply_lut_bytes() {
    let processor = ImageProcessor::new(String::new()).unwrap();
    // An inverting 2-lattice: output = 1 - input on every axis.
    let mut text = String::new();
    text.push_str("LUT_3D_SIZE 2\n");
    text.push_str("1 1 1\n0 1 1\n1 0 1\n0 0 1\n1 1 0\n0 1 0\n1 0 0\n0 0 0\n");
    let lut_bytes = text.into_bytes();
    let img = solid_image(1, 1, (255, 0, 255, 31));
    let png = png_of(&img);
    let out_png = processor.apply_lut(&png, &lut_bytes).unwrap();
    let decoded = image::load_from_memory(&out_png).unwrap().to_rgba8();
    assert_eq!(decoded.get_pixel(0, 0).0, [0, 255, 0, 31]);
}
