use rustium::font::cmap::CMap;
use rustium::font::type1::Builtin;
use rustium::font::tables::{
    cid_to_gid_map, composite_cmap, descendant_font, simple_advance, simple_widths, Advance, SimpleWidths,
    build_encoding, decode_codes, CharCode, composite_gid, glyph_name, load_program, load_to_unicode, type1_encoding, unicode_for, Program,
};
use rustium::object::{Dict, ObjRef, Object, Stream};
use rustium::parser::PdfFile;

fn pdf_with(objs: &[&str]) -> Vec<u8> {
    let mut out: Vec<u8> = b"%PDF-1.4\n".to_vec();
    let mut offsets = Vec::new();
    for (i, body) in objs.iter().enumerate() {
        offsets.push(out.len());
        out.extend_from_slice(format!("{} 0 obj\n{}\nendobj\n", i + 1, body).as_bytes());
    }
    let xref_at = out.len();
    out.extend_from_slice(format!("xref\n0 {}\n0000000000 65535 f \n", objs.len() + 1).as_bytes());
    for o in offsets {
        out.extend_from_slice(format!("{:010} 00000 n \n", o).as_bytes());
    }
    out.extend_from_slice(format!("trailer\n<< /Size {} /Root 1 0 R >>\n", objs.len() + 1).as_bytes());
    out.extend_from_slice(format!("startxref\n{xref_at}\n%%EOF\n").as_bytes());
    out
}

fn name(n: &str) -> Object {
    Object::Name(n.to_string())
}

fn file() -> PdfFile {
    PdfFile::load(
        pdf_with(&[
            "<< /Type /Catalog >>",
            "<< /Length 0 >>\nstream\n\nendstream",
            "<< /Subtype /OpenType >>\nstream\nOTTO\nendstream",
            "<< >>\nstream\n/CIDInit /ProcSet findresource begin\n1 begincodespacerange <00> <FF> endcodespacerange\n1 beginbfchar <41> <0042> endbfchar\nend\nendstream",
            "[/Differences]",
        ]),
        None,
    )
    .unwrap()
}

#[test]
fn a_winansi_font_names_its_codes() {
    let f = file();
    let mut d = Dict::new();
    d.insert("Encoding".to_string(), name("WinAnsiEncoding"));
    let names = build_encoding(&f, &d, "Helvetica", false, None);
    assert_eq!(names.len(), 256);
    assert_eq!(names[65], "A");
    assert_eq!(names[0x80], "Euro");
    assert_eq!(names[0x27], "quotesingle");
}

#[test]
fn differences_override_the_base_encoding() {
    let f = file();
    let mut enc = Dict::new();
    enc.insert("BaseEncoding".to_string(), name("StandardEncoding"));
    enc.insert(
        "Differences".to_string(),
        Object::Array(vec![Object::Int(65), name("alpha"), name("beta"), Object::Int(300), name("gamma")]),
    );
    let mut d = Dict::new();
    d.insert("Encoding".to_string(), Object::Dict(enc));
    let names = build_encoding(&f, &d, "Times-Roman", false, None);
    assert_eq!(names[65], "alpha");
    assert_eq!(names[66], "beta");
    assert_eq!(names[67], "C");
    assert_eq!(names[0x27], "quoteright");
}

#[test]
fn symbol_fonts_default_to_the_symbol_encoding() {
    let f = file();
    let d = Dict::new();
    let names = build_encoding(&f, &d, "ABCDEF+SyMbOl", true, None);
    assert_eq!(names[0x61], "alpha");
    // A symbolic font with no stated encoding and another name has no names at all.
    let none = build_encoding(&f, &d, "ZapfDingbats", true, None);
    assert!(none.iter().all(|n| n.is_empty()));
    // A nonsymbolic font falls back to the standard encoding.
    let standard = build_encoding(&f, &d, "Custom", false, None);
    assert_eq!(standard[0x60], "quoteleft");
}

#[test]
fn glyph_names_and_text_for_codes() {
    let f = file();
    let mut d = Dict::new();
    d.insert("Encoding".to_string(), name("WinAnsiEncoding"));
    let names = build_encoding(&f, &d, "Helvetica", false, None);
    assert_eq!(glyph_name(&names, 65), "A");
    assert_eq!(glyph_name(&names, 1000), "");
    assert_eq!(unicode_for(None, &names, 65), Some("A".to_string()));
    assert_eq!(unicode_for(None, &names, 0x80), Some("\u{20ac}".to_string()));
    assert_eq!(unicode_for(None, &names, 1000), None);
    let mut fd = Dict::new();
    fd.insert("ToUnicode".to_string(), Object::Ref(ObjRef::new(4, 0)));
    let map: CMap = load_to_unicode(&f, &fd).unwrap();
    // The ToUnicode map wins over the encoding.
    assert_eq!(unicode_for(Some(&map), &names, 0x41), Some("B".to_string()));
    assert_eq!(unicode_for(Some(&map), &names, 0x43), Some("C".to_string()));
}

#[test]
fn a_tounicode_without_mappings_is_dropped() {
    let f = file();
    let mut fd = Dict::new();
    fd.insert("ToUnicode".to_string(), Object::Ref(ObjRef::new(2, 0)));
    assert!(load_to_unicode(&f, &fd).is_none());
    assert!(load_to_unicode(&f, &Dict::new()).is_none());
}

#[test]
fn composite_glyph_ids_come_from_the_map() {
    assert_eq!(composite_gid(None, 7), 7);
    assert_eq!(composite_gid(None, 0x1_0005), 5);
    let map = [0u8, 0, 0x01, 0x02, 0xff];
    assert_eq!(composite_gid(Some(&map), 1), 0x0102);
    assert_eq!(composite_gid(Some(&map), 2), 0);
    assert_eq!(composite_gid(Some(&map), 100), 0);
}

#[test]
fn programs_come_from_the_descriptor() {
    let f = file();
    assert!(matches!(load_program(&f, None), Program::Empty));
    let mut desc = Dict::new();
    desc.insert("FontFile3".to_string(), Object::Ref(ObjRef::new(3, 0)));
    assert!(matches!(load_program(&f, Some(&desc)), Program::Sfnt(ref d) if d == b"OTTO"));
    let mut plain = Dict::new();
    plain.insert("FontFile".to_string(), Object::Ref(ObjRef::new(3, 0)));
    assert!(matches!(load_program(&f, Some(&plain)), Program::Empty));
    let mut missing = Dict::new();
    missing.insert("FontFile2".to_string(), Object::Ref(ObjRef::new(99, 0)));
    assert!(matches!(load_program(&f, Some(&missing)), Program::Empty));
}

fn stream(entries: &[(&str, Object)], raw: &[u8]) -> Object {
    let mut dict = Dict::new();
    for (k, v) in entries {
        dict.insert(k.to_string(), v.clone());
    }
    Object::Stream(Stream { dict, raw: raw.to_vec() })
}

#[test]
fn direct_font_files_pick_the_program_kind() {
    let f = file();
    // A TrueType program under /FontFile2 is an sfnt.
    let mut tt = Dict::new();
    tt.insert("FontFile2".to_string(), stream(&[], b"true"));
    assert!(matches!(load_program(&f, Some(&tt)), Program::Sfnt(ref d) if d == b"true"));
    // A bare CFF program under /FontFile3.
    let mut cff = Dict::new();
    cff.insert("FontFile3".to_string(), stream(&[("Subtype", name("Type1C"))], b"cff"));
    assert!(matches!(load_program(&f, Some(&cff)), Program::Cff(ref d) if d == b"cff"));
    // A /FontFile2 whose filter cannot be undone gives way to /FontFile3.
    let mut both = Dict::new();
    both.insert("FontFile2".to_string(), stream(&[("Filter", name("BogusDecode"))], b"x"));
    both.insert("FontFile3".to_string(), stream(&[("Subtype", name("OpenType"))], b"OTTO"));
    assert!(matches!(load_program(&f, Some(&both)), Program::Sfnt(ref d) if d == b"OTTO"));
    // Something other than a stream is no program.
    let mut odd = Dict::new();
    odd.insert("FontFile2".to_string(), Object::Int(3));
    assert!(matches!(load_program(&f, Some(&odd)), Program::Empty));
}

#[test]
fn a_direct_descendant_is_read_in_place() {
    let f = file();
    let mut inner = Dict::new();
    inner.insert("Subtype".to_string(), name("CIDFontType0"));
    let mut d = Dict::new();
    d.insert("DescendantFonts".to_string(), Object::Array(vec![Object::Dict(inner.clone())]));
    assert_eq!(descendant_font(&f, &d), inner);
    let mut bare = Dict::new();
    bare.insert("DescendantFonts".to_string(), Object::Dict(inner.clone()));
    assert_eq!(descendant_font(&f, &bare), inner);
    let mut empty = Dict::new();
    empty.insert("DescendantFonts".to_string(), Object::Array(vec![]));
    assert!(descendant_font(&f, &empty).get("Subtype").is_none());
    let mut odd = Dict::new();
    odd.insert("DescendantFonts".to_string(), Object::Array(vec![Object::Int(1)]));
    assert!(descendant_font(&f, &odd).get("Subtype").is_none());
}

#[test]
fn simple_fonts_decode_one_code_per_byte() {
    let codes = decode_codes(None, b"A B");
    assert_eq!(
        codes,
        vec![
            CharCode { code: 65, cid: 65, is_word_space: false },
            CharCode { code: 32, cid: 32, is_word_space: true },
            CharCode { code: 66, cid: 66, is_word_space: false },
        ]
    );
}

#[test]
fn composite_fonts_decode_by_codespace() {
    let map = CMap::parse(
        b"1 begincodespacerange <0000> <FFFF> endcodespacerange\n1 begincidrange <0020> <0030> 100 endcidrange",
    );
    let codes = decode_codes(Some(&map), &[0x00, 0x20, 0x00, 0x22]);
    assert_eq!(
        codes,
        vec![
            CharCode { code: 0x20, cid: 100, is_word_space: false },
            CharCode { code: 0x22, cid: 102, is_word_space: false },
        ]
    );
}

#[test]
fn listed_widths_win_then_builtin_metrics_then_missing() {
    let f = file();
    let mut d = Dict::new();
    d.insert("FirstChar".to_string(), Object::Int(65));
    d.insert("Widths".to_string(), Object::Array(vec![Object::Int(0), Object::Int(611)]));
    let mut desc = Dict::new();
    desc.insert("MissingWidth".to_string(), Object::Int(250));
    let w = simple_widths(&f, &d, Some(&desc));
    assert_eq!(w.first, 65);
    assert_eq!(w.widths.len(), 2);
    // A listed zero is kept.
    assert!(matches!(simple_advance(&w, "Helvetica", "A", 65), Advance::Listed(Object::Int(0))));
    assert!(matches!(simple_advance(&w, "Helvetica", "B", 66), Advance::Listed(Object::Int(611))));
    // Past the array a standard font uses its built-in metrics.
    assert!(matches!(simple_advance(&w, "Helvetica", "C", 67), Advance::Builtin(722)));
    // Any other font uses /MissingWidth before a look-alike's metrics.
    assert!(matches!(simple_advance(&w, "Custom", "C", 67), Advance::Missing(Object::Int(250))));
}

#[test]
fn without_missing_width_a_look_alike_or_500() {
    let w = SimpleWidths { first: 0, widths: Vec::new(), missing: None };
    // A symbol face has no look-alike metrics; an unknown face borrows Helvetica's.
    assert!(matches!(simple_advance(&w, "SymbolMT", "alpha", 97), Advance::Fallback));
    assert!(matches!(simple_advance(&w, "Custom", "space", 32), Advance::Builtin(278)));
    assert!(matches!(simple_advance(&w, "Courier-Custom", "x", 120), Advance::Builtin(600)));
    let f = file();
    let d = Dict::new();
    let none = simple_widths(&f, &d, None);
    assert_eq!(none.first, 0);
    assert!(none.widths.is_empty() && none.missing.is_none());
    let mut neg = Dict::new();
    neg.insert("FirstChar".to_string(), Object::Int(-5));
    assert_eq!(simple_widths(&f, &neg, None).first, 0);
}

#[test]
fn type0_fonts_read_their_cmap_descendant_and_gid_map() {
    let f = PdfFile::load(
        pdf_with(&[
            "<< /Type /Catalog >>",
            "<< /Type /Font /Subtype /CIDFontType2 /CIDToGIDMap 3 0 R >>",
            "<< /Length 4 >>\nstream\n\x00\x05\x00\x07\nendstream",
        ]),
        None,
    )
    .unwrap();
    let mut d = Dict::new();
    d.insert("Encoding".to_string(), name("Identity-H"));
    d.insert("DescendantFonts".to_string(), Object::Array(vec![Object::Ref(ObjRef::new(2, 0))]));
    let cmap = composite_cmap(&f, &d);
    let codes = decode_codes(Some(&cmap), &[0x00, 0x01, 0x00, 0x02]);
    assert_eq!(codes.iter().map(|c| c.cid).collect::<Vec<_>>(), vec![1, 2]);
    let desc = descendant_font(&f, &d);
    assert_eq!(desc.get("Subtype").unwrap().as_name(), Some("CIDFontType2"));
    let map = cid_to_gid_map(&f, &desc).unwrap();
    assert_eq!(composite_gid(Some(&map), 1), 7);
    let mut ident = Dict::new();
    ident.insert("CIDToGIDMap".to_string(), name("Identity"));
    assert!(cid_to_gid_map(&f, &ident).is_none());
    assert!(descendant_font(&f, &Dict::new()).get("Subtype").is_none());
}

#[test]
fn symbol_font_private_use_points_become_their_symbols() {
    let f = file();
    let names = build_encoding(&f, &Dict::new(), "Symbol", true, None);
    let map = CMap::parse(
        b"1 begincodespacerange <00> <FF> endcodespacerange\n2 beginbfchar <61> <F061> <62> <0041> endbfchar\n",
    );
    assert_eq!(unicode_for(Some(&map), &names, 0x61), Some("\u{3b1}".to_string()));
    // Text outside the private-use page is kept as the map gives it.
    assert_eq!(unicode_for(Some(&map), &names, 0x62), Some("A".to_string()));
    // A slot the encoding leaves unnamed keeps the private-use point.
    let empty = vec![String::new(); 256];
    assert_eq!(unicode_for(Some(&map), &empty, 0x61), Some("\u{f061}".to_string()));
}

#[test]
fn a_symbolic_font_without_encoding_reads_its_type1_program() {
    let f = file();
    let program = b"%!PS-AdobeFont-1.0: CMBX10\n/Encoding 256 array\n0 1 255 {1 index exch /.notdef put} for\ndup 65 /A put\ndup 97 /a put\nreadonly def\ncurrentfile eexec\n";
    let mut desc = Dict::new();
    desc.insert("Flags".to_string(), Object::Int(4));
    desc.insert("FontFile".to_string(), stream(&[("Length1", Object::Int(program.len() as i64))], program));
    let builtin = type1_encoding(&f, Some(&desc));
    assert!(matches!(builtin, Some(Builtin::Custom(_))));
    let names = build_encoding(&f, &Dict::new(), "HELIDL+CMBX10", true, builtin.as_ref());
    assert_eq!(glyph_name(&names, 65), "A");
    assert_eq!(unicode_for(None, &names, 65), Some("A".to_string()));
    assert_eq!(unicode_for(None, &names, 66), None);
    // A nonsymbolic font keeps the standard encoding, and a stated encoding wins.
    let plain = build_encoding(&f, &Dict::new(), "HELIDL+CMBX10", false, builtin.as_ref());
    assert_eq!(glyph_name(&plain, 66), "B");
    let mut d = Dict::new();
    d.insert("Encoding".to_string(), name("WinAnsiEncoding"));
    let stated = build_encoding(&f, &d, "HELIDL+CMBX10", true, builtin.as_ref());
    assert_eq!(glyph_name(&stated, 0x80), "Euro");
    // A program that declares StandardEncoding gives the standard names.
    let mut std_desc = Dict::new();
    std_desc.insert("FontFile".to_string(), stream(&[], b"/Encoding StandardEncoding def\n"));
    let std_builtin = type1_encoding(&f, Some(&std_desc));
    assert!(matches!(std_builtin, Some(Builtin::Standard)));
    let names = build_encoding(&f, &Dict::new(), "X", true, std_builtin.as_ref());
    assert_eq!(glyph_name(&names, 0x60), "quoteleft");
    assert!(type1_encoding(&f, None).is_none());
}
