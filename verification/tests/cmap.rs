use rustium::font::cmap::{CMap, CodeSpace};

const TOUNICODE: &[u8] = br#"
/CIDInit /ProcSet findresource begin
12 dict begin
begincmap
1 begincodespacerange
<0000> <FFFF>
endcodespacerange
2 beginbfchar
<0003> <0020>
<001B> <FB00>
endbfchar
2 beginbfrange
<000F> <0018> <0041>
<0020> <0021> [<0058> <00590059>]
endbfrange
endcmap
CMapName currentdict /CMap defineresource pop
end end
"#;

#[test]
fn tounicode_parses() {
    let m = CMap::parse(TOUNICODE);
    assert_eq!(m.unicode(0x03).as_deref(), Some(" "));
    assert_eq!(m.unicode(0x1B).as_deref(), Some("ﬀ"));
    assert_eq!(m.unicode(0x0F).as_deref(), Some("A"));
    assert_eq!(m.unicode(0x12).as_deref(), Some("D"));
    assert_eq!(m.unicode(0x20).as_deref(), Some("X"));
    assert_eq!(m.unicode(0x21).as_deref(), Some("YY"));
    assert_eq!(m.unicode(0x99), None);
}

#[test]
fn codespace_decodes_two_byte() {
    let m = CMap::parse(TOUNICODE);
    assert_eq!(
        m.codespace().decode(&[0x00, 0x0F, 0x00, 0x12]),
        vec![0x0F, 0x12]
    );
}

#[test]
fn mixed_width_codespace() {
    let mut cs = CodeSpace::default();
    cs.push(&[0x00], &[0x80]);
    cs.push(&[0x81, 0x40], &[0xFE, 0xFE]);
    assert_eq!(
        cs.decode(&[0x41, 0x81, 0x41, 0x42]),
        vec![0x41, 0x8141, 0x42]
    );
}

#[test]
fn cid_ranges() {
    let data = br#"
1 begincodespacerange
<0000> <FFFF>
endcodespacerange
1 begincidrange
<0010> <001F> 100
endcidrange
1 begincidchar
<0005> 7
endcidchar
"#;
    let m = CMap::parse(data);
    assert_eq!(m.cid(0x15), 105);
    assert_eq!(m.cid(0x05), 7);
    assert_eq!(m.cid(0x99), 0);
}

#[test]
fn identity() {
    let m = CMap::identity();
    assert_eq!(m.cid(0x1234), 0x1234);
    assert_eq!(
        m.codespace().decode(&[0x12, 0x34, 0x00, 0x41]),
        vec![0x1234, 0x41]
    );
}

#[test]
fn a_map_without_codespace_infers_its_width() {
    let narrow = CMap::parse(b"1 beginbfchar <41> <0061> endbfchar");
    assert_eq!(narrow.codespace().decode(&[0x41, 0x42]), vec![0x41, 0x42]);
    assert!(narrow.has_unicode());
    let wide = CMap::parse(b"1 beginbfchar <0141> <0061> endbfchar");
    assert_eq!(wide.codespace().decode(&[0x01, 0x41]), vec![0x141]);
    assert_eq!(wide.unicode(0x141).as_deref(), Some("a"));
}

#[test]
fn usecmap_identity_and_empty_mappings() {
    let m = CMap::parse(b"/Identity-H usecmap 1 beginbfchar <01> <0000> endbfchar");
    assert_eq!(m.cid(0x77), 0x77);
    // A mapping to U+0000 is no mapping.
    assert_eq!(m.unicode(0x01), None);
    let plain = CMap::parse(b"");
    assert_eq!(plain.cid(0x77), 0);
    assert!(!plain.has_unicode());
}

#[test]
fn glyph_name_destinations_resolve() {
    let m = CMap::parse(b"1 beginbfchar <05> /fi endbfchar 1 beginbfrange <10> <11> [/A /B] endbfrange");
    assert_eq!(m.unicode(0x05).as_deref(), Some("\u{FB01}"));
    assert_eq!(m.unicode(0x11).as_deref(), Some("B"));
}

#[test]
fn unmatched_bytes_take_the_shortest_declared_length() {
    let mut cs = CodeSpace::default();
    cs.push(&[0x81, 0x40], &[0xFE, 0xFE]);
    // 0x20 0x21 is in no range; the shortest length is two bytes.
    assert_eq!(cs.decode(&[0x20, 0x21, 0x81, 0x41, 0x07]), vec![0x2021, 0x8141, 0x07]);
}
