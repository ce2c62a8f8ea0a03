use rustium::error::Error;
use rustium::render::Rendered;

#[test]
fn a_pixel_encodes_as_png() {
    let img = Rendered { width: 1, height: 1, rgba: vec![255, 0, 0, 255] };
    let png = img.to_png().unwrap();
    assert_eq!(&png[..8], &[0x89, b'P', b'N', b'G', 0x0d, 0x0a, 0x1a, 0x0a]);
    assert_ne!(png, img.rgba);
}

#[test]
fn png_records_the_dimensions() {
    let img = Rendered { width: 3, height: 2, rgba: vec![7; 24] };
    let png = img.to_png().unwrap();
    // IHDR follows the signature and its length and tag: width then height, big-endian.
    assert_eq!(&png[12..16], b"IHDR");
    assert_eq!(&png[16..20], &[0, 0, 0, 3]);
    assert_eq!(&png[20..24], &[0, 0, 0, 2]);
}

#[test]
fn an_empty_image_is_a_render_error() {
    let img = Rendered { width: 0, height: 0, rgba: Vec::new() };
    let err = img.to_png().err().unwrap();
    assert!(matches!(err, Error::Render(m) if m.starts_with("png encode: ")));
}
