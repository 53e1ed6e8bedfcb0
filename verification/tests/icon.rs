use runote::icon::decode_rgba;
use std::io::Cursor;

fn png_bytes() -> Vec<u8> {
    let img = image::RgbaImage::from_raw(2, 1, vec![255, 0, 0, 255, 0, 0, 255, 128]).unwrap();
    let mut out = Cursor::new(Vec::new());
    img.write_to(&mut out, image::ImageFormat::Png).unwrap();
    out.into_inner()
}

#[test]
fn decode_rgba_gives_pixels_and_size() {
    let bytes = png_bytes();
    let (rgba, w, h) = decode_rgba(&bytes).unwrap();
    assert_eq!((w, h), (2, 1));
    assert_eq!(rgba, vec![255, 0, 0, 255, 0, 0, 255, 128]);
}

#[test]
fn decode_rgba_rejects_non_image() {
    assert_eq!(decode_rgba(b"not an image"), None);
}
