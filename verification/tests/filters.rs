use std::io::Write;

use flate2::write::ZlibEncoder;
use flate2::Compression;
use rustium::error::Error;
use rustium::filters::{
    ascii85_decode, ascii_hex_decode, decode, lzw_decode, predict, run_length_decode, Direct,
};
use rustium::object::{Dict, Object};

fn zlib(payload: &[u8]) -> Vec<u8> {
    let mut enc = ZlibEncoder::new(Vec::new(), Compression::default());
    enc.write_all(payload).unwrap();
    enc.finish().unwrap()
}

fn with_filter(name: &str) -> Dict {
    let mut dict = Dict::new();
    dict.insert("Filter".to_string(), Object::Name(name.into()));
    dict
}

#[test]
fn flate_round_trip() {
    let payload = b"BT /F1 12 Tf (Hello) Tj ET".repeat(100);
    let compressed = zlib(&payload);
    let dict = with_filter("FlateDecode");
    let d = decode(&dict, &compressed, &Direct).unwrap();
    assert_eq!(d.data, payload);
    assert!(d.image_filter.is_none());
}

#[test]
fn truncated_flate_keeps_prefix() {
    let payload = vec![7u8; 100_000];
    let mut compressed = zlib(&payload);
    compressed.truncate(compressed.len() / 2);
    let dict = with_filter("FlateDecode");
    let d = decode(&dict, &compressed, &Direct).unwrap();
    assert!(!d.data.is_empty());
    assert!(d.data.iter().all(|&b| b == 7));
}

#[test]
fn ascii_filters() {
    assert_eq!(ascii_hex_decode(b"48656C6C6F>"), b"Hello");
    assert_eq!(ascii85_decode(b"87cURD_*#T~>"), b"Hello, w");
    assert_eq!(ascii85_decode(b"z~>"), [0, 0, 0, 0]);
}

#[test]
fn run_length() {
    // 2 literal bytes, then 0xFF repeated 4 times (257-253), then EOD.
    assert_eq!(
        run_length_decode(&[1, b'a', b'b', 253, 0xFF, 128]),
        b"ab\xff\xff\xff\xff"
    );
}

#[test]
fn lzw_known_vector() {
    // Decodes to 45 45 45 45 45 65 45 45 45 66.
    let encoded = [0x80, 0x0B, 0x60, 0x50, 0x22, 0x0C, 0x0C, 0x85, 0x01];
    assert_eq!(
        lzw_decode(&encoded, true),
        [45, 45, 45, 45, 45, 65, 45, 45, 45, 66]
    );
}

#[test]
fn png_up_predictor() {
    // Two rows of 3 bytes, filter type 2 (Up).
    let mut dict = with_filter("FlateDecode");
    let mut parms = Dict::new();
    parms.insert("Predictor".to_string(), Object::Int(12));
    parms.insert("Columns".to_string(), Object::Int(3));
    dict.insert("DecodeParms".to_string(), Object::Dict(parms));
    let raw = [2u8, 1, 2, 3, 2, 1, 1, 1];
    let compressed = zlib(&raw);
    let d = decode(&dict, &compressed, &Direct).unwrap();
    assert_eq!(d.data, [1, 2, 3, 2, 3, 4]);
}

#[test]
fn dct_passes_through() {
    let dict = with_filter("DCTDecode");
    let d = decode(&dict, b"\xff\xd8jpegdata", &Direct).unwrap();
    assert_eq!(d.image_filter.as_deref(), Some("DCTDecode"));
    assert_eq!(d.data, b"\xff\xd8jpegdata");
}

#[test]
fn unknown_filter_is_a_parse_error() {
    let dict = with_filter("BogusDecode");
    match decode(&dict, b"abc", &Direct) {
        Err(Error::Parse(m)) => assert_eq!(m, "unknown filter BogusDecode"),
        _ => panic!("expected a parse error"),
    }
}

#[test]
fn flate_garbage_decodes_to_nothing() {
    let dict = with_filter("FlateDecode");
    match decode(&dict, b"  \x00\x00garbage", &Direct) {
        Err(Error::Parse(m)) => assert_eq!(m, "flate stream decoded to nothing"),
        _ => panic!("expected a parse error"),
    }
}

#[test]
fn bad_png_row_type_is_reported() {
    assert_eq!(predict(10, 1, 8, 2, vec![9, 1, 2]), Err(9));
    let mut dict = with_filter("ASCIIHexDecode");
    let mut parms = Dict::new();
    parms.insert("Predictor".to_string(), Object::Int(12));
    dict.insert("DecodeParms".to_string(), Object::Dict(parms));
    // Hex filters take no predictor: the chain ignores it.
    let d = decode(&dict, b"0901>", &Direct).unwrap();
    assert_eq!(d.data, [9, 1]);
}

#[test]
fn predictors_by_hand() {
    // No predictor.
    assert_eq!(predict(1, 1, 8, 1, vec![1, 2, 3]), Ok(vec![1, 2, 3]));
    // TIFF: two rows of three one-byte samples, each adds the one before.
    assert_eq!(predict(2, 1, 8, 3, vec![1, 1, 1, 5, 250, 10]), Ok(vec![1, 2, 3, 5, 255, 9]));
    // PNG Sub, Average and Paeth rows, 3 columns, one byte per pixel.
    assert_eq!(predict(10, 1, 8, 3, vec![1, 1, 1, 1]), Ok(vec![1, 2, 3]));
    assert_eq!(predict(10, 1, 8, 2, vec![3, 4, 4]), Ok(vec![4, 6]));
    assert_eq!(predict(10, 1, 8, 2, vec![0, 10, 20, 4, 1, 1]), Ok(vec![10, 20, 11, 21]));
    // A trailing partial row is dropped.
    assert_eq!(predict(10, 1, 8, 2, vec![0, 5, 6, 0]), Ok(vec![5, 6]));
}

#[test]
fn ascii85_partial_group_and_prefix() {
    assert_eq!(ascii85_decode(b"<~87cURD]i,\"Ebo80~>"), b"Hello World!");
    assert_eq!(ascii85_decode(b"87cU"), b"Hel");
}

#[test]
fn lzw_clear_code_restarts_the_table() {
    // 9-bit codes: 256 (clear), 65, 66, 257 (end).
    let encoded = [0x80, 0x10, 0x48, 0x50, 0x10];
    assert_eq!(lzw_decode(&encoded, true), b"AB");
}

#[test]
fn flate_output_larger_than_the_first_room_is_complete() {
    let payload: Vec<u8> = (0..300_000u32).map(|i| (i.wrapping_mul(2654435761) >> 13) as u8).collect();
    let mut compressed = b"\r\n ".to_vec();
    compressed.extend_from_slice(&zlib(&payload));
    let d = decode(&with_filter("FlateDecode"), &compressed, &Direct).unwrap();
    assert_eq!(d.data.len(), payload.len());
    assert_eq!(d.data, payload);
    // Exactly one room's worth decodes as well.
    let exact = vec![3u8; 65536];
    assert_eq!(rustium::filters::inflate(&zlib(&exact)).unwrap(), exact);
}

#[test]
fn raw_deflate_without_zlib_header() {
    let mut enc = flate2::write::DeflateEncoder::new(Vec::new(), Compression::default());
    enc.write_all(b"raw deflate body").unwrap();
    let raw = enc.finish().unwrap();
    assert_eq!(rustium::filters::inflate(&raw).unwrap(), b"raw deflate body");
}
