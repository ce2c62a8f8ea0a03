use rustium::filters::Decoded;
use rustium::object::{Dict, ObjRef, Object};
use rustium::page::{
    colorspace_components, components_of, decode_image_object, decode_inline_image, image_data,
    image_header, inline_image_header, ImageData, ImageHeader,
};
use rustium::parser::PdfFile;

/// A PDF from numbered object bodies, with a classic xref table and /Root 1.
fn pdf_with(objs: &[&str]) -> Vec<u8> {
    let mut out: Vec<u8> = b"%PDF-1.4\n".to_vec();
    let mut offsets = Vec::new();
    for (i, body) in objs.iter().enumerate() {
        offsets.push(out.len());
        out.extend_from_slice(format!("{} 0 obj\n{}\nendobj\n", i + 1, body).as_bytes());
    }
    let xref_at = out.len();
    out.extend_from_slice(format!("xref\n0 {}\n0000000000 65535 f \n", objs.len() + 1).as_bytes());
    for o in offsets {
        out.extend_from_slice(format!("{:010} 00000 n \n", o).as_bytes());
    }
    out.extend_from_slice(format!("trailer\n<< /Size {} /Root 1 0 R >>\n", objs.len() + 1).as_bytes());
    out.extend_from_slice(format!("startxref\n{xref_at}\n%%EOF\n").as_bytes());
    out
}

fn name(n: &str) -> Object {
    Object::Name(n.to_string())
}

fn file() -> PdfFile {
    PdfFile::load(
        pdf_with(&[
            "<< /Type /Catalog >>",
            "[/DeviceCMYK /Cyan /Magenta]",
            "<< /N 4 >>\nstream\nxx\nendstream",
            "<< /Width 2 /Height 2 /ColorSpace /DeviceGray /BitsPerComponent 8 >>\nstream\nABCD\nendstream",
        ]),
        None,
    )
    .unwrap()
}

#[test]
fn image_data_keeps_codec_payloads() {
    let raw = image_data(Decoded { data: vec![1, 2, 3], image_filter: None }, 8, 3);
    assert!(matches!(raw, ImageData::Raw { bits_per_component: 8, components: 3, ref data } if data == &vec![1, 2, 3]));
    let jpeg = image_data(
        Decoded { data: vec![0xff, 0xd8], image_filter: Some("DCTDecode".to_string()) },
        8,
        3,
    );
    assert!(matches!(jpeg, ImageData::Encoded { ref filter, ref data } if filter == "DCTDecode" && data == &vec![0xff, 0xd8]));
}

#[test]
fn device_spaces_have_fixed_component_counts() {
    let f = file();
    assert_eq!(components_of(&f, &name("DeviceRGB"), 0), 3);
    assert_eq!(components_of(&f, &name("DeviceCMYK"), 0), 4);
    assert_eq!(components_of(&f, &name("DeviceGray"), 0), 1);
    assert_eq!(components_of(&f, &name("Unknown"), 0), 1);
    assert_eq!(components_of(&f, &Object::Int(5), 0), 1);
}

#[test]
fn array_spaces_count_their_components() {
    let f = file();
    let indexed = Object::Array(vec![name("Indexed"), name("DeviceRGB"), Object::Int(255)]);
    assert_eq!(components_of(&f, &indexed, 0), 1);
    let pattern = Object::Array(vec![name("Pattern")]);
    assert_eq!(components_of(&f, &pattern, 0), 0);
    let lab = Object::Array(vec![name("Lab"), Object::Dict(Dict::new())]);
    assert_eq!(components_of(&f, &lab, 0), 3);
    // DeviceN counts its component names, read through the file.
    let device_n = Object::Array(vec![name("DeviceN"), Object::Ref(ObjRef::new(2, 0))]);
    assert_eq!(components_of(&f, &device_n, 0), 3);
    // ICCBased reads N from the profile stream.
    let icc = Object::Array(vec![name("ICCBased"), Object::Ref(ObjRef::new(3, 0))]);
    assert_eq!(components_of(&f, &icc, 0), 4);
    let icc_missing = Object::Array(vec![name("ICCBased")]);
    assert_eq!(components_of(&f, &icc_missing, 0), 3);
    // An unknown head defers to the space it names.
    let nested = Object::Array(vec![name("DeviceCMYK")]);
    assert_eq!(components_of(&f, &nested, 0), 4);
}

#[test]
fn deep_nesting_counts_one_component() {
    let f = file();
    let mut space = name("DeviceRGB");
    for _ in 0..6 {
        space = Object::Array(vec![space]);
    }
    assert_eq!(components_of(&f, &space, 0), 1);
}

#[test]
fn named_spaces_resolve_through_resources() {
    let f = file();
    let mut spaces = Dict::new();
    spaces.insert("CS0".to_string(), Object::Array(vec![name("ICCBased"), Object::Ref(ObjRef::new(3, 0))]));
    let mut resources = Dict::new();
    resources.insert("ColorSpace".to_string(), Object::Dict(spaces));
    assert_eq!(colorspace_components(&f, &resources, &[name("CS0")]), 4);
    assert_eq!(colorspace_components(&f, &resources, &[name("RGB")]), 3);
    assert_eq!(colorspace_components(&f, &resources, &[name("G")]), 1);
    assert_eq!(colorspace_components(&f, &resources, &[name("CMYK")]), 4);
    assert_eq!(colorspace_components(&f, &resources, &[name("Pattern")]), 0);
    assert_eq!(colorspace_components(&f, &resources, &[name("Missing")]), 1);
    assert_eq!(colorspace_components(&f, &resources, &[]), 1);
    assert_eq!(colorspace_components(&f, &resources, &[Object::Int(1)]), 1);
}

#[test]
fn image_headers_read_the_dictionary() {
    let f = file();
    let img = f.get(4);
    let stream = img.as_stream().unwrap();
    let h = image_header(&f, &stream.dict).unwrap();
    assert_eq!(
        h,
        ImageHeader { width: 2, height: 2, is_mask: false, bits_per_component: 8, components: 1 }
    );
    let data = decode_image_object(&f, ObjRef::new(4, 0), h.bits_per_component, h.components).unwrap();
    assert!(matches!(data, ImageData::Raw { ref data, .. } if data == b"ABCD"));
}

#[test]
fn a_mask_has_one_component_and_one_bit() {
    let f = file();
    let mut d = Dict::new();
    d.insert("Width".to_string(), Object::Int(8));
    d.insert("Height".to_string(), Object::Int(1));
    d.insert("ImageMask".to_string(), Object::Bool(true));
    d.insert("ColorSpace".to_string(), name("DeviceRGB"));
    let h = image_header(&f, &d).unwrap();
    assert!(h.is_mask);
    assert_eq!(h.bits_per_component, 1);
    assert_eq!(h.components, 1);
}

#[test]
fn an_image_without_pixels_has_no_header() {
    let f = file();
    let mut d = Dict::new();
    d.insert("Width".to_string(), Object::Int(0));
    d.insert("Height".to_string(), Object::Int(5));
    assert_eq!(image_header(&f, &d), None);
    let mut e = Dict::new();
    e.insert("Height".to_string(), Object::Int(5));
    assert_eq!(image_header(&f, &e), None);
}

#[test]
fn bits_per_component_is_clamped() {
    let f = file();
    let mut d = Dict::new();
    d.insert("Width".to_string(), Object::Int(1));
    d.insert("Height".to_string(), Object::Int(1));
    d.insert("BitsPerComponent".to_string(), Object::Int(99));
    d.insert("ColorSpace".to_string(), name("DeviceCMYK"));
    let h = image_header(&f, &d).unwrap();
    assert_eq!(h.bits_per_component, 16);
    assert_eq!(h.components, 4);
}

#[test]
fn inline_images_read_named_spaces_from_resources() {
    let f = file();
    let mut spaces = Dict::new();
    spaces.insert("CS1".to_string(), name("DeviceRGB"));
    let mut resources = Dict::new();
    resources.insert("ColorSpace".to_string(), Object::Dict(spaces));
    let mut d = Dict::new();
    d.insert("Width".to_string(), Object::Int(2));
    d.insert("Height".to_string(), Object::Int(1));
    d.insert("ColorSpace".to_string(), name("CS1"));
    let h = inline_image_header(&f, &d, &resources).unwrap();
    assert_eq!(h.components, 3);
    assert_eq!(h.bits_per_component, 8);
    let data = decode_inline_image(&f, &d, &[1, 2, 3, 4, 5, 6], &h).unwrap();
    assert!(matches!(data, ImageData::Raw { components: 3, ref data, .. } if data.len() == 6));
}

#[test]
fn a_missing_image_object_is_an_error() {
    let f = file();
    let err = decode_image_object(&f, ObjRef::new(42, 0), 8, 1).err().unwrap();
    assert!(matches!(err, rustium::error::Error::Parse(m) if m == "image object 42 is not a stream"));
}

#[test]
fn samples_are_read_most_significant_bit_first_and_scaled() {
    let data = [0b1011_0000u8, 0x7f];
    assert_eq!(rustium::page::sample(&data, 0, 0, 1), 255);
    assert_eq!(rustium::page::sample(&data, 0, 1, 1), 0);
    assert_eq!(rustium::page::sample(&data, 0, 2, 2), 255);
    assert_eq!(rustium::page::sample(&data, 0, 0, 2), 170);
    assert_eq!(rustium::page::sample(&data, 0, 0, 4), 187);
    assert_eq!(rustium::page::sample(&data, 0, 8, 8), 0x7f);
    assert_eq!(rustium::page::sample(&data, 1, 0, 16), 0x7f);
    assert_eq!(rustium::page::sample(&data, 1, 8, 8), 0);
    assert_eq!(rustium::page::sample(&data, 0, 0, 3), 0);
}
