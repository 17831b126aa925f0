//! The content-addressed thumbnail store: naming and the low-resolution
//! transcode.

use media_scanner::utils::make_low_thumbnail;
use media_scanner::utils::thumbnail_names;

#[test]
fn names_are_the_blake3_digest_with_suffixes() {
    let data: Vec<u8> = vec![1, 2, 3, 4, 5];
    let (high, low) = thumbnail_names(&data);
    let hex = blake3::hash(&data).to_hex();
    assert_eq!(high, format!("{}.png", hex.as_str()));
    assert_eq!(low, format!("{}-low.png", hex.as_str()));
    assert_eq!(high.len(), 68);
    assert_eq!(low.len(), 72);
}

#[test]
fn equal_bytes_share_names_and_different_bytes_do_not() {
    let a: Vec<u8> = vec![9, 9, 9];
    let b: Vec<u8> = vec![9, 9, 9];
    let c: Vec<u8> = vec![9, 9, 8];
    assert_eq!(thumbnail_names(&a), thumbnail_names(&b));
    assert_ne!(thumbnail_names(&a).0, thumbnail_names(&c).0);
}

fn tiny_png() -> Vec<u8> {
    // A 2 x 3 RGBA image with distinct pixels, encoded as PNG.
    let mut img = image::RgbaImage::new(2, 3);
    for (x, y, p) in img.enumerate_pixels_mut() {
        *p = image::Rgba([(x * 100) as u8, (y * 80) as u8, 7, 255]);
    }
    let mut bytes: Vec<u8> = Vec::new();
    let enc = image::codecs::png::PngEncoder::new(&mut bytes);
    image::ImageEncoder::write_image(enc, img.as_raw(), 2, 3, image::ColorType::Rgba8).unwrap();
    bytes
}

#[test]
fn low_thumbnail_is_a_valid_80_by_80_png() {
    let png = make_low_thumbnail(&tiny_png()).unwrap();
    let decoded = image::load_from_memory(&png).unwrap();
    assert_eq!(decoded.width(), 80);
    assert_eq!(decoded.height(), 80);
}

#[test]
fn low_thumbnail_is_deterministic() {
    let data = tiny_png();
    assert_eq!(make_low_thumbnail(&data).unwrap(), make_low_thumbnail(&data).unwrap());
}

#[test]
fn undecodable_bytes_are_the_codec_error() {
    let junk: Vec<u8> = vec![0, 1, 2, 3];
    match make_low_thumbnail(&junk) {
        Err(media_scanner::error::ScanError::ImageError(msg)) => {
            assert!(!msg.is_empty());
        },
        Err(_) => panic!("undecodable bytes must carry the codec's error"),
        Ok(_) => panic!("junk bytes must not decode"),
    }
}
