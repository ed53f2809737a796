use std::io::Cursor;

use levelbot::fingerprint::{prepare_channels, split_channels};
use levelbot::level::Coefficients;
use levelbot::{DecodeError, ExtractError, IMAGE_DIM, NUM_COEFFICIENTS};

fn tiny_png() -> Vec<u8> {
    // a 2×2 image with distinct channel values, encoded as a real PNG
    let mut img = image::RgbImage::new(2, 2);
    img.put_pixel(0, 0, image::Rgb([255, 0, 0]));
    img.put_pixel(1, 0, image::Rgb([0, 255, 0]));
    img.put_pixel(0, 1, image::Rgb([0, 0, 255]));
    img.put_pixel(1, 1, image::Rgb([255, 255, 255]));
    let mut out = Cursor::new(Vec::new());
    image::DynamicImage::ImageRgb8(img)
        .write_to(&mut out, image::ImageFormat::Png)
        .unwrap();
    out.into_inner()
}

#[test]
fn garbage_fails_to_decode() {
    let r = prepare_channels(&b"not an image at all".to_vec());
    assert!(matches!(r, Err(DecodeError::Undecodable)));
    assert!(matches!(
        prepare_channels(&Vec::new()),
        Err(DecodeError::Undecodable)
    ));
}

#[test]
fn png_decodes_to_fixed_grids() {
    let ch = prepare_channels(&tiny_png()).unwrap();
    assert_eq!(ch.r.len(), IMAGE_DIM * IMAGE_DIM);
    assert_eq!(ch.g.len(), IMAGE_DIM * IMAGE_DIM);
    assert_eq!(ch.b.len(), IMAGE_DIM * IMAGE_DIM);
    // the top-left source pixel is pure red: after the resize the first
    // sample of the red grid is high while the green and blue ones are low
    let r0 = f32::from_bits(ch.r[0]);
    let g0 = f32::from_bits(ch.g[0]);
    let b0 = f32::from_bits(ch.b[0]);
    assert!(r0 > 0.9, "red sample was {r0}");
    assert!(g0 < 0.1, "green sample was {g0}");
    assert!(b0 < 0.1, "blue sample was {b0}");
}

#[test]
fn decoding_is_deterministic() {
    let a = prepare_channels(&tiny_png()).unwrap();
    let b = prepare_channels(&tiny_png()).unwrap();
    assert_eq!(a.r, b.r);
    assert_eq!(a.g, b.g);
    assert_eq!(a.b, b.b);
}

#[test]
fn split_deinterleaves() {
    let samples = vec![1, 2, 3, 4, 5, 6, 7, 8, 9];
    let ch = split_channels(&samples);
    assert_eq!(ch.r, vec![1, 4, 7]);
    assert_eq!(ch.g, vec![2, 5, 8]);
    assert_eq!(ch.b, vec![3, 6, 9]);
}

#[test]
fn coefficients_truncate_to_prefix() {
    let long: Vec<u32> = (0..100).collect();
    let c = Coefficients::new(long.clone(), long.clone(), long).unwrap();
    assert_eq!(c.r, (0..NUM_COEFFICIENTS as u32).collect::<Vec<u32>>());
    assert_eq!(c.r.len(), NUM_COEFFICIENTS);
    assert_eq!(c.g.len(), NUM_COEFFICIENTS);
    assert_eq!(c.b.len(), NUM_COEFFICIENTS);
}

#[test]
fn short_transform_output_is_rejected() {
    let long: Vec<u32> = (0..100).collect();
    let short: Vec<u32> = (0..5).collect();
    assert!(matches!(
        Coefficients::new(short, long.clone(), long.clone()),
        Err(ExtractError::TransformLengthMismatch)
    ));
}
