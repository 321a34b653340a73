use culler_core::analyze::dhash::{dhash, dhash_of_grid};
use image::{DynamicImage, GrayImage, ImageFormat};
use std::io::Cursor;

fn png_bytes(img: &DynamicImage) -> Vec<u8> {
    let mut buf = Vec::new();
    img.write_to(&mut Cursor::new(&mut buf), ImageFormat::Png).unwrap();
    buf
}

#[test]
fn each_bit_compares_a_pixel_with_its_right_neighbour() {
    // Row y: pixels descending in row 0 (every bit set), ascending in row 1
    // (no bit set), flat elsewhere except one step down in row 7 at x = 3.
    let mut luma = vec![100u8; 72];
    for x in 0..9 {
        luma[x] = 200 - x as u8;
        luma[9 + x] = 10 + x as u8;
    }
    luma[7 * 9 + 3] = 150;
    let h = dhash_of_grid(&luma);
    assert_eq!(h & 0xFF, 0xFF);
    assert_eq!((h >> 8) & 0xFF, 0);
    assert_eq!(h >> 56, 1 << 3);
    assert_eq!((h >> 16) & 0xFF_FFFF_FFFF, 0);
}

#[test]
fn a_flat_image_hashes_to_zero() {
    let img = DynamicImage::ImageLuma8(GrayImage::from_pixel(64, 48, image::Luma([77u8])));
    assert_eq!(dhash(&png_bytes(&img)), Some(0));
}

#[test]
fn a_left_to_right_darkening_image_sets_every_bit() {
    let img = DynamicImage::ImageLuma8(GrayImage::from_fn(90, 80, |x, _| image::Luma([250 - 2 * x as u8])));
    assert_eq!(dhash(&png_bytes(&img)), Some(u64::MAX));
}

#[test]
fn bytes_that_are_no_image_have_no_hash() {
    assert_eq!(dhash(b"not an image at all"), None);
}
