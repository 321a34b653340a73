use culler_core::analyze::exif::exif_facts;
use image::{DynamicImage, RgbImage};

fn jpeg_bytes(img: &DynamicImage) -> Vec<u8> {
    let mut buf = Vec::new();
    img.write_to(&mut std::io::Cursor::new(&mut buf), image::ImageFormat::Jpeg).unwrap();
    buf
}

fn entry(out: &mut Vec<u8>, tag: u16, typ: u16, cnt: u32, val: u32) {
    out.extend_from_slice(&tag.to_le_bytes());
    out.extend_from_slice(&typ.to_le_bytes());
    out.extend_from_slice(&cnt.to_le_bytes());
    out.extend_from_slice(&val.to_le_bytes());
}

/// A JPEG with a hand-built EXIF segment: Make, Model, Orientation in IFD0
/// and DateTimeOriginal in the Exif IFD.
fn exif_jpeg(make: &[u8], model: &[u8], orientation: u16, datetime: &str) -> Vec<u8> {
    let img = DynamicImage::ImageRgb8(RgbImage::from_pixel(16, 16, image::Rgb([10, 20, 30])));
    let jpeg = jpeg_bytes(&img);
    let mut make_z = make.to_vec();
    make_z.push(0);
    let mut model_z = model.to_vec();
    model_z.push(0);
    let mut dto_z = datetime.as_bytes().to_vec();
    dto_z.push(0);
    let mut tiff = vec![0x49, 0x49, 0x2A, 0x00, 0x08, 0x00, 0x00, 0x00];
    let make_off = 62u32;
    let model_off = make_off + make_z.len() as u32;
    let mut exif_ifd_off = model_off + model_z.len() as u32;
    if exif_ifd_off % 2 == 1 {
        exif_ifd_off += 1;
    }
    let dto_off = exif_ifd_off + 18;
    tiff.extend_from_slice(&4u16.to_le_bytes());
    entry(&mut tiff, 0x010F, 2, make_z.len() as u32, make_off);
    entry(&mut tiff, 0x0110, 2, model_z.len() as u32, model_off);
    entry(&mut tiff, 0x0112, 3, 1, orientation as u32);
    entry(&mut tiff, 0x8769, 4, 1, exif_ifd_off);
    tiff.extend_from_slice(&0u32.to_le_bytes());
    tiff.extend_from_slice(&make_z);
    tiff.extend_from_slice(&model_z);
    while tiff.len() < exif_ifd_off as usize {
        tiff.push(0);
    }
    tiff.extend_from_slice(&1u16.to_le_bytes());
    entry(&mut tiff, 0x9003, 2, dto_z.len() as u32, dto_off);
    tiff.extend_from_slice(&0u32.to_le_bytes());
    tiff.extend_from_slice(&dto_z);
    let mut app1 = vec![0xFF, 0xE1];
    let len = (2 + 6 + tiff.len()) as u16;
    app1.extend_from_slice(&len.to_be_bytes());
    app1.extend_from_slice(b"Exif\0\0");
    app1.extend_from_slice(&tiff);
    let mut out = jpeg[..2].to_vec();
    out.extend_from_slice(&app1);
    out.extend_from_slice(&jpeg[2..]);
    out
}

#[test]
fn exif_facts_read_capture_time_camera_and_orientation() {
    let bytes = exif_jpeg(b"Apple", b"iPhone 15 Pro", 6, "2019:07:15 14:30:05");
    let facts = exif_facts(&bytes);
    assert_eq!(facts.captured_at, Some(1563201005));
    assert_eq!(facts.camera.as_deref(), Some("Apple iPhone 15 Pro"));
    assert_eq!(facts.orientation, Some(6));
}

#[test]
fn tag_text_is_trimmed_of_nuls_and_whitespace_and_empty_tags_drop_out() {
    let bytes = exif_jpeg(b"  Canon\0\0", b"    \t ", 1, "2019:07:15 14:30:05");
    let facts = exif_facts(&bytes);
    assert_eq!(facts.camera.as_deref(), Some("Canon"));
}

#[test]
fn bytes_without_exif_give_no_facts() {
    let img = DynamicImage::ImageRgb8(RgbImage::from_pixel(8, 8, image::Rgb([1, 2, 3])));
    let facts = exif_facts(&jpeg_bytes(&img));
    assert_eq!(facts.captured_at, None);
    assert_eq!(facts.camera, None);
    assert_eq!(facts.orientation, None);
    let none = exif_facts(b"not an image");
    assert_eq!(none.camera, None);
}
