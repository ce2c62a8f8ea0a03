use rustium::document::{collect_pages, dict_get, page_content, page_tree, rotation_of};
use md5::{Digest, Md5};
use rustium::crypt::{padded, rc4, PAD};
use rustium::lexer::rfind;
use rustium::object::{Dict, ObjRef, Object, Stream};
use rustium::parser::PdfFile;

/// A minimal one-page PDF with a classic xref table, built by hand.
fn tiny_pdf() -> Vec<u8> {
    let mut out: Vec<u8> = Vec::new();
    let mut offsets = [0usize; 6];
    out.extend_from_slice(b"%PDF-1.4\n");
    let content = b"BT /F1 12 Tf 72 720 Td (Hi) Tj ET";
    let objs: Vec<(usize, String)> = vec![
        (1, "<< /Type /Catalog /Pages 2 0 R >>".into()),
        (2, "<< /Type /Pages /Kids [3 0 R] /Count 1 >>".into()),
        (
            3,
            "<< /Type /Page /Parent 2 0 R /MediaBox [0 0 612 792] /Contents 4 0 R \
             /Resources << /Font << /F1 5 0 R >> >> >>"
                .into(),
        ),
        (
            4,
            format!(
                "<< /Length {} >>\nstream\n{}\nendstream",
                content.len(),
                std::str::from_utf8(content).unwrap()
            ),
        ),
        (5, "<< /Type /Font /Subtype /Type1 /BaseFont /Helvetica >>".into()),
    ];
    for (num, body) in &objs {
        offsets[*num] = out.len();
        out.extend_from_slice(format!("{num} 0 obj\n{body}\nendobj\n").as_bytes());
    }
    let xref_at = out.len();
    out.extend_from_slice(b"xref\n0 6\n0000000000 65535 f \n");
    for num in 1..6 {
        out.extend_from_slice(format!("{:010} 00000 n \n", offsets[num]).as_bytes());
    }
    out.extend_from_slice(b"trailer\n<< /Size 6 /Root 1 0 R >>\n");
    out.extend_from_slice(format!("startxref\n{xref_at}\n%%EOF\n").as_bytes());
    out
}

#[test]
fn loads_classic_xref() {
    let file = PdfFile::load(tiny_pdf(), None).unwrap();
    let root = file.trailer.get("Root").unwrap().as_ref_id().unwrap();
    let cat = file.get(root.num);
    assert_eq!(
        cat.as_dict().unwrap().get("Type").unwrap().as_name(),
        Some("Catalog")
    );
    let content = file.get(4);
    let s = content.as_stream().unwrap();
    let d = file.decode_stream(s).unwrap();
    assert!(d.data.starts_with(b"BT"));
}

#[test]
fn survives_broken_startxref() {
    let mut pdf = tiny_pdf();
    // Corrupt the startxref offset.
    let sx = rfind(&pdf, b"startxref").unwrap();
    pdf[sx + 10] = b'9';
    pdf[sx + 11] = b'9';
    let file = PdfFile::load(pdf, None).unwrap();
    assert!(file.trailer.contains("Root"));
    assert!(file.get(3).as_dict().is_some());
}

#[test]
fn survives_junk_before_header() {
    let mut pdf = b"GARBAGE BYTES ".to_vec();
    pdf.extend_from_slice(&tiny_pdf());
    let file = PdfFile::load(pdf, None).unwrap();
    assert!(file.get(1).as_dict().is_some());
}

#[test]
fn wrong_length_falls_back_to_endstream_scan() {
    let pdf = tiny_pdf();
    let s = String::from_utf8(pdf).unwrap().replace("/Length 33", "/Length 4");
    let file = PdfFile::load(s.into_bytes(), None).unwrap();
    let content = file.get(4);
    let stream = content.as_stream().unwrap();
    assert!(stream.raw.starts_with(b"BT"));
    assert!(stream.raw.ends_with(b"ET"));
}

#[test]
fn missing_object_is_null() {
    let file = PdfFile::load(tiny_pdf(), None).unwrap();
    assert!(file.get(99).is_null());
    assert_eq!(file.resolve(&Object::Ref(ObjRef::new(99, 0))), Object::Null);
}

// ---- further cases -------------------------------------------------------------------------

#[test]
fn no_header_is_an_error() {
    let err = PdfFile::load(b"just some bytes".to_vec(), None).err().unwrap();
    assert!(matches!(err, rustium::error::Error::Parse(m) if m == "no %PDF header"));
}

#[test]
fn data_starts_at_the_header() {
    let mut pdf = b"JUNK".to_vec();
    pdf.extend_from_slice(&tiny_pdf());
    let file = PdfFile::load(pdf, None).unwrap();
    assert!(file.data().starts_with(b"%PDF-1.4"));
    assert_eq!(file.data(), &tiny_pdf()[..]);
}

#[test]
fn resolving_a_direct_object_returns_it() {
    let file = PdfFile::load(tiny_pdf(), None).unwrap();
    assert_eq!(file.resolve(&Object::Int(7)), Object::Int(7));
    let page = file.resolve(&Object::Ref(ObjRef::new(3, 0)));
    assert_eq!(
        page.as_dict().unwrap().get("Type").unwrap().as_name(),
        Some("Page")
    );
}

#[test]
fn reference_chains_end_in_a_direct_object() {
    // Object 1 refers to 2, which refers to 3, which is an integer.
    let mut out: Vec<u8> = b"%PDF-1.4\n".to_vec();
    let o1 = out.len();
    out.extend_from_slice(b"1 0 obj\n2 0 R\nendobj\n");
    let o2 = out.len();
    out.extend_from_slice(b"2 0 obj\n3 0 R\nendobj\n");
    let o3 = out.len();
    out.extend_from_slice(b"3 0 obj\n42\nendobj\n");
    let o4 = out.len();
    out.extend_from_slice(b"4 0 obj\n<< /Type /Catalog >>\nendobj\n");
    let xref_at = out.len();
    out.extend_from_slice(b"xref\n0 5\n0000000000 65535 f \n");
    for o in [o1, o2, o3, o4] {
        out.extend_from_slice(format!("{:010} 00000 n \n", o).as_bytes());
    }
    out.extend_from_slice(b"trailer\n<< /Size 5 /Root 4 0 R >>\n");
    out.extend_from_slice(format!("startxref\n{xref_at}\n%%EOF\n").as_bytes());
    let file = PdfFile::load(out, None).unwrap();
    assert_eq!(file.resolve(&Object::Ref(ObjRef::new(1, 0))), Object::Int(42));
}

#[test]
fn a_reference_cycle_resolves_to_null() {
    let mut out: Vec<u8> = b"%PDF-1.4\n".to_vec();
    let o1 = out.len();
    out.extend_from_slice(b"1 0 obj\n2 0 R\nendobj\n");
    let o2 = out.len();
    out.extend_from_slice(b"2 0 obj\n1 0 R\nendobj\n");
    let o3 = out.len();
    out.extend_from_slice(b"3 0 obj\n<< /Type /Catalog >>\nendobj\n");
    let xref_at = out.len();
    out.extend_from_slice(b"xref\n0 4\n0000000000 65535 f \n");
    for o in [o1, o2, o3] {
        out.extend_from_slice(format!("{:010} 00000 n \n", o).as_bytes());
    }
    out.extend_from_slice(b"trailer\n<< /Size 4 /Root 3 0 R >>\n");
    out.extend_from_slice(format!("startxref\n{xref_at}\n%%EOF\n").as_bytes());
    let file = PdfFile::load(out, None).unwrap();
    assert_eq!(file.resolve(&Object::Ref(ObjRef::new(1, 0))), Object::Null);
}

#[test]
fn a_wrong_xref_offset_gives_null() {
    // The table says object 2 sits where object 1 is: the header names another object.
    let pdf = tiny_pdf();
    let text = String::from_utf8(pdf).unwrap();
    let first = text.find("1 0 obj").unwrap();
    let second = text.find("2 0 obj").unwrap();
    let patched = text.replace(
        &format!("{:010} 00000 n \n", second),
        &format!("{:010} 00000 n \n", first),
    );
    let file = PdfFile::load(patched.into_bytes(), None).unwrap();
    assert!(file.get(2).is_null());
}

#[test]
fn scan_finds_the_catalog_without_a_trailer() {
    let pdf = b"%PDF-1.4\n7 0 obj\n<< /Type /Catalog >>\nendobj\n3 0 obj\n<< /Type /Font >>\nendobj\n"
        .to_vec();
    let file = PdfFile::load(pdf, None).unwrap();
    let root = file.trailer.get("Root").unwrap().as_ref_id().unwrap();
    assert_eq!(root, ObjRef::new(7, 0));
}

#[test]
fn a_file_without_objects_is_an_error() {
    let err = PdfFile::load(b"%PDF-1.4\nnothing here\n".to_vec(), None).err().unwrap();
    assert!(matches!(err, rustium::error::Error::Parse(m) if m == "no objects found in scan"));
}

#[test]
fn a_file_without_a_catalog_has_no_root() {
    let pdf = b"%PDF-1.4\n1 0 obj\n<< /Type /Font >>\nendobj\n".to_vec();
    let err = PdfFile::load(pdf, None).err().unwrap();
    assert!(matches!(err, rustium::error::Error::Parse(m) if m == "trailer has no /Root"));
}

// ---- the page tree ---------------------------------------------------------------------------

/// A PDF from numbered object bodies, with a classic xref table and /Root 1.
fn pdf_from(objs: &[&str]) -> Vec<u8> {
    let mut out: Vec<u8> = b"%PDF-1.4\n".to_vec();
    let mut offsets = Vec::new();
    for (i, body) in objs.iter().enumerate() {
        offsets.push(out.len());
        out.extend_from_slice(format!("{} 0 obj\n{}\nendobj\n", i + 1, body).as_bytes());
    }
    let xref_at = out.len();
    out.extend_from_slice(format!("xref\n0 {}\n0000000000 65535 f \n", objs.len() + 1).as_bytes());
    for o in offsets {
        out.extend_from_slice(format!("{:010} 00000 n \n", o).as_bytes());
    }
    out.extend_from_slice(format!("trailer\n<< /Size {} /Root 1 0 R >>\n", objs.len() + 1).as_bytes());
    out.extend_from_slice(format!("startxref\n{xref_at}\n%%EOF\n").as_bytes());
    out
}

#[test]
fn the_tiny_document_has_one_page() {
    let file = PdfFile::load(tiny_pdf(), None).unwrap();
    let pages = collect_pages(&file).unwrap();
    assert_eq!(pages.len(), 1);
    let page = &pages[0];
    assert_eq!(page.rotation, 0);
    assert_eq!(page.media_boxes.len(), 1);
    assert_eq!(
        page.media_boxes[0],
        Object::Array(vec![Object::Int(0), Object::Int(0), Object::Int(612), Object::Int(792)])
    );
    assert!(page.crop_boxes.is_empty());
    assert!(page.resources.get("Font").is_some());
    assert_eq!(page_content(&file, &page.dict), b"BT /F1 12 Tf 72 720 Td (Hi) Tj ET".to_vec());
}

#[test]
fn pages_inherit_rotation_and_resources_in_order() {
    let pdf = pdf_from(&[
        "<< /Type /Catalog /Pages 2 0 R >>",
        "<< /Type /Pages /Kids [3 0 R 4 0 R] /Rotate -90 /Resources << /X 1 >> /MediaBox [0 0 10 10] >>",
        "<< /Type /Page /Parent 2 0 R /Tag 1 >>",
        "<< /Type /Page /Parent 2 0 R /Tag 2 /Rotate 450 /MediaBox [0 0 5 5] >>",
    ]);
    let file = PdfFile::load(pdf, None).unwrap();
    let pages = collect_pages(&file).unwrap();
    assert_eq!(pages.len(), 2);
    assert_eq!(pages[0].dict.get("Tag"), Some(&Object::Int(1)));
    assert_eq!(pages[1].dict.get("Tag"), Some(&Object::Int(2)));
    assert_eq!(pages[0].rotation, 270);
    assert_eq!(pages[1].rotation, 90);
    assert_eq!(pages[0].resources.get("X"), Some(&Object::Int(1)));
    assert_eq!(pages[0].media_boxes.len(), 1);
    assert_eq!(pages[1].media_boxes.len(), 2);
}

#[test]
fn a_direct_page_tree_is_walked_in_order_with_inheritance() {
    let pdf = pdf_from(&["<< /Type /Catalog /Pages << /Type /Pages /Rotate 90 /MediaBox [0 0 8 8] \
        /Kids [ << /Type /Page /Tag 1 >> \
                << /Type /Pages /Resources << /Y 2 >> /Kids [ << /Type /Page /Tag 2 /Rotate 180 /CropBox [1 1 2 2] >> ] >> \
                << /Tag 3 >> 7 ] >> >>"]);
    let file = PdfFile::load(pdf, None).unwrap();
    let pages = collect_pages(&file).unwrap();
    assert_eq!(pages.len(), 3);
    assert_eq!(pages[0].dict.get("Tag"), Some(&Object::Int(1)));
    assert_eq!(pages[1].dict.get("Tag"), Some(&Object::Int(2)));
    assert_eq!(pages[2].dict.get("Tag"), Some(&Object::Int(3)));
    assert_eq!(pages[0].rotation, 90);
    assert_eq!(pages[1].rotation, 180);
    assert_eq!(pages[2].rotation, 90);
    assert!(pages[0].resources.get("Y").is_none());
    assert_eq!(pages[1].resources.get("Y"), Some(&Object::Int(2)));
    assert_eq!(pages[1].crop_boxes.len(), 1);
    assert!(pages[0].crop_boxes.is_empty());
    for p in &pages {
        assert_eq!(p.media_boxes.len(), 1);
    }
    // The same tree handed over directly gives the same pages.
    let root = file.resolve(file.trailer().get("Root").unwrap());
    let tree = root.as_dict().unwrap().get("Pages").unwrap();
    let again = page_tree(&file, tree);
    assert_eq!(again.len(), 3);
    assert_eq!(again[2].dict.get("Tag"), Some(&Object::Int(3)));
}

#[test]
fn page_contents_join_their_streams_with_newlines() {
    let file = PdfFile::load(tiny_pdf(), None).unwrap();
    let stream = |filter: Option<&str>, raw: &[u8]| {
        let mut dict = Dict::new();
        if let Some(f) = filter {
            dict.insert("Filter".to_string(), Object::Name(f.to_string()));
        }
        Object::Stream(Stream { dict, raw: raw.to_vec() })
    };
    let mut page = Dict::new();
    page.insert(
        "Contents".to_string(),
        Object::Array(vec![
            stream(None, b"q"),
            stream(Some("BogusDecode"), b"lost"),
            Object::Int(5),
            stream(Some("ASCIIHexDecode"), b"51>"),
            stream(None, b""),
            stream(None, b"BT"),
        ]),
    );
    // A stream that fails or is no stream adds nothing; an empty one still adds its newline.
    assert_eq!(page_content(&file, &page), b"q\nQ\n\nBT".to_vec());
    let mut single = Dict::new();
    single.insert("Contents".to_string(), stream(None, b"0 0 m"));
    assert_eq!(page_content(&file, &single), b"0 0 m".to_vec());
    assert!(page_content(&file, &Dict::new()).is_empty());
}

#[test]
fn a_cycle_in_the_page_tree_is_walked_once() {
    let pdf = pdf_from(&[
        "<< /Type /Catalog /Pages 2 0 R >>",
        "<< /Type /Pages /Kids [3 0 R 2 0 R 3 0 R] >>",
        "<< /Type /Page >>",
    ]);
    let file = PdfFile::load(pdf, None).unwrap();
    let pages = collect_pages(&file).unwrap();
    assert_eq!(pages.len(), 1);
}

#[test]
fn a_catalog_without_pages_is_an_error() {
    let pdf = pdf_from(&["<< /Type /Catalog >>"]);
    let file = PdfFile::load(pdf, None).unwrap();
    let err = collect_pages(&file).err().unwrap();
    assert!(matches!(err, rustium::error::Error::Parse(m) if m == "catalog has no /Pages"));
}

#[test]
fn rotation_reduces_to_quarter_turns() {
    assert_eq!(rotation_of(None), 0);
    assert_eq!(rotation_of(Some(90)), 90);
    assert_eq!(rotation_of(Some(-90)), 270);
    assert_eq!(rotation_of(Some(725)), 0);
    assert_eq!(rotation_of(Some(181)), 180);
    assert_eq!(rotation_of(Some(i64::MIN)), 270);
}

#[test]
fn dict_get_skips_nulls_and_resolves() {
    let file = PdfFile::load(tiny_pdf(), None).unwrap();
    let mut d = rustium::object::Dict::new();
    d.insert("A".to_string(), Object::Null);
    d.insert("B".to_string(), Object::Ref(ObjRef::new(5, 0)));
    d.insert("C".to_string(), Object::Ref(ObjRef::new(99, 0)));
    assert_eq!(dict_get(&file, &d, "A"), None);
    assert_eq!(dict_get(&file, &d, "C"), None);
    assert_eq!(dict_get(&file, &d, "Z"), None);
    let font = dict_get(&file, &d, "B").unwrap();
    assert_eq!(font.as_dict().unwrap().get("BaseFont").unwrap().as_name(), Some("Helvetica"));
}

// ---- encrypted files ---------------------------------------------------------------------------

fn hex(b: &[u8]) -> String {
    b.iter().map(|x| format!("{:02X}", x)).collect()
}

/// An RC4 revision 2 file for the empty user password whose object 4 holds an encrypted
/// string and object 5 an encrypted stream.
fn encrypted_pdf() -> Vec<u8> {
    let file_id = b"0123456789abcdef";
    let o_entry = vec![0x11u8; 32];
    let p: i32 = -4;
    let mut h = Md5::new();
    h.update(padded(b""));
    h.update(&o_entry);
    h.update(p.to_le_bytes());
    h.update(file_id);
    let key = h.finalize()[..5].to_vec();
    let u_entry = rc4(&key, &PAD);
    let object_key = |num: u8| {
        let mut h = Md5::new();
        h.update(&key);
        h.update([num, 0, 0, 0, 0]);
        h.finalize()[..10].to_vec()
    };
    let secret = rc4(&object_key(4), b"attack at dawn");
    let body = rc4(&object_key(5), b"BT ET");
    let mut out: Vec<u8> = b"%PDF-1.4\n".to_vec();
    let mut offsets = Vec::new();
    let objs: Vec<Vec<u8>> = vec![
        b"<< /Type /Catalog >>".to_vec(),
        format!(
            "<< /Filter /Standard /V 1 /R 2 /O <{}> /U <{}> /P -4 >>",
            hex(&o_entry),
            hex(&u_entry)
        )
        .into_bytes(),
        b"<< /Note (plain) >>".to_vec(),
        format!("<< /Secret <{}> >>", hex(&secret)).into_bytes(),
        [format!("<< /Length {} >>\nstream\n", body.len()).into_bytes(), body.clone(), b"\nendstream".to_vec()]
            .concat(),
    ];
    for (i, obj) in objs.iter().enumerate() {
        offsets.push(out.len());
        out.extend_from_slice(format!("{} 0 obj\n", i + 1).as_bytes());
        out.extend_from_slice(obj);
        out.extend_from_slice(b"\nendobj\n");
    }
    let xref_at = out.len();
    out.extend_from_slice(b"xref\n0 6\n0000000000 65535 f \n");
    for o in offsets {
        out.extend_from_slice(format!("{:010} 00000 n \n", o).as_bytes());
    }
    out.extend_from_slice(
        format!(
            "trailer\n<< /Size 6 /Root 1 0 R /Encrypt 2 0 R /ID [<{}> <{}>] >>\n",
            hex(file_id),
            hex(file_id)
        )
        .as_bytes(),
    );
    out.extend_from_slice(format!("startxref\n{xref_at}\n%%EOF\n").as_bytes());
    out
}

#[test]
fn encrypted_strings_and_streams_read_back_in_the_clear() {
    let file = PdfFile::load(encrypted_pdf(), None).unwrap();
    assert!(file.decryptor.is_some());
    let secret = file.get(4);
    assert_eq!(
        secret.as_dict().unwrap().get("Secret").unwrap().as_string(),
        Some(&b"attack at dawn"[..])
    );
    let stream = file.get(5);
    assert_eq!(stream.as_stream().unwrap().raw, b"BT ET".to_vec());
}

#[test]
fn the_encrypt_dictionary_is_not_decrypted() {
    let file = PdfFile::load(encrypted_pdf(), None).unwrap();
    let enc = file.get(2);
    assert_eq!(enc.as_dict().unwrap().get("O").unwrap().as_string(), Some(&[0x11u8; 32][..]));
}

#[test]
fn a_wrong_password_does_not_open_the_file() {
    let err = PdfFile::load(encrypted_pdf(), Some("nope")).err().unwrap();
    assert!(matches!(err, rustium::error::Error::Password));
}

// ---- hostile input -------------------------------------------------------------------------------

#[test]
fn a_cyclic_page_tree_terminates() {
    let pdf = pdf_from(&[
        "<< /Type /Catalog /Pages 2 0 R >>",
        "<< /Type /Pages /Kids [2 0 R] /Count 1 >>",
    ]);
    let file = PdfFile::load(pdf, None).expect("catalog parses");
    assert_eq!(collect_pages(&file).unwrap().len(), 0);
}

#[test]
fn truncation_at_every_offset_does_not_panic() {
    let valid = tiny_pdf();
    for end in 0..valid.len() {
        if let Ok(file) = PdfFile::load(valid[..end].to_vec(), None) {
            if let Ok(pages) = collect_pages(&file) {
                for page in pages.iter().take(4) {
                    let _ = page_content(&file, &page.dict);
                }
            }
        }
    }
}

#[test]
fn mutations_of_the_object_structure_do_not_panic() {
    let valid = tiny_pdf();
    for offset in 0..valid.len() {
        for byte in [0, b'[', b'/', 255] {
            let mut bytes = valid.clone();
            bytes[offset] = byte;
            if let Ok(file) = PdfFile::load(bytes, None) {
                if let Ok(pages) = collect_pages(&file) {
                    if let Some(page) = pages.first() {
                        let _ = page_content(&file, &page.dict);
                    }
                }
            }
        }
    }
}

// ---- cross-reference streams and object streams -------------------------------------------

/// A file whose cross-reference section is a stream (rows of 1 + 2 + 1 bytes), with objects 4
/// and 5 stored in the object stream 3.
fn xref_stream_pdf() -> Vec<u8> {
    let mut out: Vec<u8> = b"%PDF-1.5\n".to_vec();
    let o1 = out.len();
    out.extend_from_slice(b"1 0 obj\n<< /Type /Catalog /Pages 2 0 R >>\nendobj\n");
    let o2 = out.len();
    out.extend_from_slice(b"2 0 obj\n<< /Type /Pages /Kids [] /Count 0 >>\nendobj\n");
    let members = b"4 0 5 7 (four) [5 5]";
    let o3 = out.len();
    out.extend_from_slice(
        format!("3 0 obj\n<< /Type /ObjStm /N 2 /First 8 /Length {} >>\nstream\n", members.len())
            .as_bytes(),
    );
    out.extend_from_slice(members);
    out.extend_from_slice(b"\nendstream\nendobj\n");
    let o6 = out.len();
    let mut rows: Vec<u8> = Vec::new();
    rows.extend_from_slice(&[0, 0, 0, 0]);
    for o in [o1, o2, o3] {
        rows.extend_from_slice(&[1, (o >> 8) as u8, o as u8, 0]);
    }
    rows.extend_from_slice(&[2, 0, 3, 0]);
    rows.extend_from_slice(&[2, 0, 3, 1]);
    rows.extend_from_slice(&[1, (o6 >> 8) as u8, o6 as u8, 0]);
    out.extend_from_slice(
        format!(
            "6 0 obj\n<< /Type /XRef /Size 7 /W [1 2 1] /Root 1 0 R /Length {} >>\nstream\n",
            rows.len()
        )
        .as_bytes(),
    );
    out.extend_from_slice(&rows);
    out.extend_from_slice(b"\nendstream\nendobj\n");
    out.extend_from_slice(format!("startxref\n{o6}\n%%EOF\n").as_bytes());
    out
}

#[test]
fn xref_streams_and_object_streams_are_read() {
    let file = PdfFile::load(xref_stream_pdf(), None).unwrap();
    assert_eq!(file.trailer.get("Root"), Some(&Object::Ref(ObjRef::new(1, 0))));
    assert_eq!(file.get(4), Object::String(b"four".to_vec()));
    assert_eq!(file.get(5), Object::Array(vec![Object::Int(5), Object::Int(5)]));
    assert!(file.get(1).as_dict().is_some());
    assert!(file.get(7).is_null());
}

#[test]
fn the_recovery_scan_indexes_object_streams() {
    let mut pdf = xref_stream_pdf();
    let sx = rfind(&pdf, b"startxref").unwrap();
    pdf.truncate(sx);
    pdf.extend_from_slice(b"startxref\n999999\n%%EOF\n");
    let file = PdfFile::load(pdf, None).unwrap();
    assert_eq!(file.get(4), Object::String(b"four".to_vec()));
    assert_eq!(file.get(5), Object::Array(vec![Object::Int(5), Object::Int(5)]));
}

#[test]
fn an_incremental_update_supersedes_earlier_definitions() {
    let mut pdf = tiny_pdf();
    let prev = {
        let sx = rfind(&pdf, b"startxref").unwrap();
        let text = std::str::from_utf8(&pdf[sx + 10..]).unwrap();
        text.split_whitespace().next().unwrap().parse::<usize>().unwrap()
    };
    let new3 = pdf.len();
    pdf.extend_from_slice(b"3 0 obj\n<< /Type /Page /Parent 2 0 R /Updated true >>\nendobj\n");
    let xref_at = pdf.len();
    pdf.extend_from_slice(format!("xref\n3 1\n{:010} 00000 n \n", new3).as_bytes());
    pdf.extend_from_slice(
        format!("trailer\n<< /Size 6 /Root 1 0 R /Prev {prev} /Info 9 0 R >>\n").as_bytes(),
    );
    pdf.extend_from_slice(format!("startxref\n{xref_at}\n%%EOF\n").as_bytes());
    let file = PdfFile::load(pdf, None).unwrap();
    assert_eq!(file.get(3).as_dict().unwrap().get("Updated"), Some(&Object::Bool(true)));
    // Objects the update leaves alone come from the older section.
    assert!(file.get(5).as_dict().is_some());
    // The newest trailer's keys win, and older ones fill in the rest.
    assert!(file.trailer.contains("Info"));
    assert_eq!(file.trailer.get("Size"), Some(&Object::Int(6)));
}

#[test]
fn recovery_takes_the_last_definition_of_an_object() {
    let pdf = b"%PDF-1.4\n1 0 obj\n<< /Type /Catalog >>\nendobj\n2 0 obj\n(old)\nendobj\n2 0 obj\n(new)\nendobj\n"
        .to_vec();
    let file = PdfFile::load(pdf, None).unwrap();
    assert_eq!(file.get(2), Object::String(b"new".to_vec()));
    assert_eq!(file.trailer.get("Root"), Some(&Object::Ref(ObjRef::new(1, 0))));
}

#[test]
fn recovery_keeps_the_last_trailer_dictionary() {
    let data = b"%PDF-1.4\n1 0 obj\n<< /Type /Catalog >>\nendobj\n2 0 obj\n<< /Type /Catalog >>\nendobj\ntrailer\n<< /Root 1 0 R /Size 9 >>\ntrailer\n<< /Root 2 0 R /Info 7 0 R >>\n".to_vec();
    let file = PdfFile::load(data, None).unwrap();
    assert_eq!(file.trailer.get("Root"), Some(&Object::Ref(ObjRef::new(2, 0))));
    assert!(file.trailer.contains("Info"));
    assert!(!file.trailer.contains("Size"));
}
