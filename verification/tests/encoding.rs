use rustium::font::encoding::{agl_count, agl_entry_at, base_encoding_name, glyph_name_to_unicode, Encoding};

#[test]
fn agl_is_sorted_for_binary_search() {
    for i in 1..agl_count() {
        let prev = agl_entry_at(i - 1).0;
        let cur = agl_entry_at(i).0;
        assert!(prev < cur, "AGL out of order at {:?}", cur);
    }
}

#[test]
fn name_lookups() {
    assert_eq!(glyph_name_to_unicode("A").as_deref(), Some("A"));
    assert_eq!(glyph_name_to_unicode("alpha").as_deref(), Some("α"));
    assert_eq!(glyph_name_to_unicode("ffi").as_deref(), Some("ﬃ"));
    assert_eq!(glyph_name_to_unicode("uni0041").as_deref(), Some("A"));
    assert_eq!(glyph_name_to_unicode("uni00660066").as_deref(), Some("ff"));
    assert_eq!(glyph_name_to_unicode("u1D400").as_deref(), Some("𝐀"));
    assert_eq!(glyph_name_to_unicode("one.oldstyle").as_deref(), Some("1"));
    assert_eq!(glyph_name_to_unicode(".notdef"), None);
    assert_eq!(glyph_name_to_unicode("madeupname"), None);
}

#[test]
fn tex_size_variants_resolve_to_one_character() {
    // `\\big(` through `\\Bigg(` are four glyphs and one character.
    for n in [
        "parenleftbig",
        "parenleftBig",
        "parenleftbigg",
        "parenleftBigg",
    ] {
        assert_eq!(glyph_name_to_unicode(n).as_deref(), Some("("), "{n}");
    }
    assert_eq!(
        glyph_name_to_unicode("bracketrightBig").as_deref(),
        Some("]")
    );
    assert_eq!(glyph_name_to_unicode("radicalbig").as_deref(), Some("√"));
}

#[test]
fn display_and_text_operators_resolve() {
    assert_eq!(
        glyph_name_to_unicode("summationdisplay").as_deref(),
        Some("∑")
    );
    assert_eq!(glyph_name_to_unicode("summationtext").as_deref(), Some("∑"));
    assert_eq!(
        glyph_name_to_unicode("integraldisplay").as_deref(),
        Some("∫")
    );
    assert_eq!(
        glyph_name_to_unicode("productdisplay").as_deref(),
        Some("∏")
    );
    assert_eq!(glyph_name_to_unicode("uniondisplay").as_deref(), Some("∪"));
    assert_eq!(
        glyph_name_to_unicode("contintegraldisplay").as_deref(),
        Some("∮")
    );
}

#[test]
fn an_extensible_delimiter_yields_exactly_one_character() {
    // A tall bracket is stacked from three glyphs. Emitting a character per piece would
    // triple every delimiter in a displayed matrix.
    assert_eq!(glyph_name_to_unicode("parenlefttp").as_deref(), Some("("));
    assert_eq!(glyph_name_to_unicode("parenleftex").as_deref(), Some(""));
    assert_eq!(glyph_name_to_unicode("parenleftbt").as_deref(), Some(""));
    assert_eq!(
        glyph_name_to_unicode("bracketrighttp").as_deref(),
        Some("]")
    );
    assert_eq!(glyph_name_to_unicode("bracketrightex").as_deref(), Some(""));
}

#[test]
fn math_names_absent_from_the_adobe_list_resolve() {
    assert_eq!(
        glyph_name_to_unicode("angbracketleft").as_deref(),
        Some("⟨")
    );
    assert_eq!(glyph_name_to_unicode("floorleft").as_deref(), Some("⌊"));
    assert_eq!(glyph_name_to_unicode("ceilingright").as_deref(), Some("⌉"));
    assert_eq!(glyph_name_to_unicode("bardbl").as_deref(), Some("‖"));
    assert_eq!(glyph_name_to_unicode("coproduct").as_deref(), Some("∐"));
}

#[test]
fn ordinary_names_are_not_mangled_by_the_math_rules() {
    // `big`, `text` and `ex` are suffixes only in TeX's mathematics fonts; a text glyph
    // whose name merely ends that way must survive untouched.
    assert_eq!(glyph_name_to_unicode("a").as_deref(), Some("a"));
    assert_eq!(glyph_name_to_unicode("six").as_deref(), Some("6"));
    assert_eq!(glyph_name_to_unicode("bullet").as_deref(), Some("•"));
    assert_eq!(glyph_name_to_unicode("nosuchglyphbig"), None);
}

#[test]
fn encodings_disagree_where_documented() {
    assert_eq!(base_encoding_name(Encoding::Standard, 0x27), "quoteright");
    assert_eq!(base_encoding_name(Encoding::WinAnsi, 0x27), "quotesingle");
    assert_eq!(base_encoding_name(Encoding::WinAnsi, 0xE9), "eacute");
    assert_eq!(base_encoding_name(Encoding::MacRoman, 0x8E), "eacute");
    assert_eq!(base_encoding_name(Encoding::Symbol, 0x61), "alpha");
    assert_eq!(base_encoding_name(Encoding::Standard, 0xAE), "fi");
}

#[test]
fn standard_slots_outside_any_table_are_empty() {
    assert_eq!(base_encoding_name(Encoding::Standard, 0x80), "");
    assert_eq!(base_encoding_name(Encoding::Symbol, 0x7F), "");
    assert_eq!(base_encoding_name(Encoding::Standard, 0x60), "quoteleft");
    assert_eq!(base_encoding_name(Encoding::MacRoman, 0x41), "A");
}

#[test]
fn uni_and_u_forms_follow_the_conventions() {
    // Surrogate values are not characters.
    assert_eq!(glyph_name_to_unicode("uD800"), None);
    assert_eq!(glyph_name_to_unicode("u0041"), Some("A".to_string()));
    // A group of fewer than four digits is not the `uni` form.
    assert_eq!(glyph_name_to_unicode("uni004"), None);
    // The suffix retry applies to the base only when the name has a dot past its start.
    assert_eq!(glyph_name_to_unicode(".alt"), None);
    assert_eq!(glyph_name_to_unicode("A.sc.alt").as_deref(), Some("A"));
}
