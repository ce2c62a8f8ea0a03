use rustium::font::type1::{builtin_encoding, Builtin};

/// The header Computer Modern actually ships, trimmed.
const CMBX10: &[u8] = b"%!PS-AdobeFont-1.0: CMBX10 003.002\n\
    /FontType 1 def\n\
    /FontName /HELIDL+CMBX10 def\n\
    /Encoding 256 array\n\
    0 1 255 {1 index exch /.notdef put} for\n\
    dup 65 /A put\n\
    dup 97 /a put\n\
    dup 49 /one put\n\
    dup 46 /period put\n\
    readonly def\n\
    currentdict end\n\
    currentfile eexec\n\
    \xcd\xa1\x63\x0b";

#[test]
fn reads_the_computer_modern_encoding() {
    let Some(Builtin::Custom(names)) = builtin_encoding(CMBX10) else {
        panic!("expected a custom encoding");
    };
    assert_eq!(names[65], "A");
    assert_eq!(names[97], "a");
    assert_eq!(names[49], "one");
    assert_eq!(names[46], "period");
    // Every slot the program did not name stays empty, including `.notdef` ones.
    assert_eq!(names[66], "");
    assert_eq!(names.len(), 256);
}

#[test]
fn recognises_a_deferral_to_the_standard_table() {
    let src = b"/FontType 1 def\n/Encoding StandardEncoding def\ncurrentfile eexec\n";
    assert_eq!(builtin_encoding(src), Some(Builtin::Standard));
}

#[test]
fn a_program_without_an_encoding_yields_nothing() {
    let src = b"%!PS-AdobeFont-1.0\n/FontType 1 def\ncurrentfile eexec\nbinary";
    assert_eq!(builtin_encoding(src), None);
    // An `/Encoding` naming only `.notdef` carries no information either.
    let empty = b"/Encoding 256 array\n0 1 255 {1 index exch /.notdef put} for\nreadonly def\n";
    assert_eq!(builtin_encoding(empty), None);
}

#[test]
fn the_scan_stops_at_the_binding_def() {
    // `dup 3 /other put` sits past `readonly def`, in what would be the private dictionary.
    let src = b"/Encoding 256 array\ndup 65 /A put\nreadonly def\n\
                /Private 15 dict dup begin\ndup 3 /other put\n";
    let Some(Builtin::Custom(names)) = builtin_encoding(src) else {
        panic!("expected a custom encoding");
    };
    assert_eq!(names[65], "A");
    assert_eq!(
        names[3], "",
        "entries after the binding def must not be read"
    );
}

#[test]
fn only_the_cleartext_header_is_searched() {
    // An `/Encoding` appearing in the encrypted body is binary noise, not a declaration.
    let src = b"/FontType 1 def\ncurrentfile eexec\n/Encoding 256 array\ndup 65 /A put\n";
    assert_eq!(builtin_encoding(src), None);
}

#[test]
fn a_pfb_segment_header_is_stepped_over() {
    let mut src = vec![0x80, 0x01, 0x00, 0x01, 0x00, 0x00];
    src.extend_from_slice(b"/Encoding 256 array\ndup 65 /A put\nreadonly def\neexec");
    let Some(Builtin::Custom(names)) = builtin_encoding(&src) else {
        panic!("expected a custom encoding");
    };
    assert_eq!(names[65], "A");
}

#[test]
fn out_of_range_and_malformed_entries_are_skipped() {
    let src = b"/Encoding 256 array\n\
                dup 300 /TooBig put\n\
                dup /NoCode put\n\
                dup 66 NotAName put\n\
                dup 67 /C put\n\
                readonly def\n";
    let Some(Builtin::Custom(names)) = builtin_encoding(src) else {
        panic!("expected a custom encoding");
    };
    assert_eq!(names[67], "C");
    assert_eq!(names[66], "");
}

#[test]
fn an_integer_past_i32_is_no_code() {
    let src = b"/Encoding 256 array\ndup 99999999999 /X put\ndup 68 /D put\nreadonly def\n";
    let Some(Builtin::Custom(names)) = builtin_encoding(src) else {
        panic!("expected a custom encoding");
    };
    assert_eq!(names[68], "D");
    assert!(names.iter().all(|n| n != "X"));
}
