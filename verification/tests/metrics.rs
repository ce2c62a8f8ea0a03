use rustium::font::metrics::{base14_width, is_standard_font};

#[test]
fn helvetica_ascii_widths() {
    assert_eq!(base14_width("Helvetica", "space").map(f32::from), Some(278.0));
    assert_eq!(base14_width("Helvetica", "A").map(f32::from), Some(667.0));
    assert_eq!(base14_width("Helvetica", "i").map(f32::from), Some(222.0));
    assert_eq!(base14_width("Helvetica", "W").map(f32::from), Some(944.0));
}

#[test]
fn bold_and_italic_select_columns() {
    assert_eq!(base14_width("Helvetica-Bold", "A").map(f32::from), Some(722.0));
    assert_eq!(base14_width("Times-Roman", "A").map(f32::from), Some(722.0));
    assert_eq!(base14_width("Times-Italic", "A").map(f32::from), Some(611.0));
    assert_eq!(base14_width("Times-BoldItalic", "A").map(f32::from), Some(667.0));
    // Oblique is Helvetica's italic, and shares the upright metrics.
    assert_eq!(
        base14_width("Helvetica-Oblique", "A"),
        base14_width("Helvetica", "A")
    );
}

#[test]
fn courier_is_monospaced() {
    assert_eq!(base14_width("Courier", "A").map(f32::from), Some(600.0));
    assert_eq!(base14_width("Courier-BoldOblique", "i").map(f32::from), Some(600.0));
}

#[test]
fn subset_prefixes_and_comma_styles_resolve() {
    assert_eq!(base14_width("ABCDEF+Times-Bold", "A").map(f32::from), Some(722.0));
    assert_eq!(base14_width("Arial,Bold", "A").map(f32::from), Some(722.0));
}

#[test]
fn untabulated_names_report_nothing() {
    assert_eq!(base14_width("Helvetica", "eacute"), None);
    assert_eq!(base14_width("Helvetica", "fi"), None);
    assert_eq!(base14_width("Symbol", "alpha"), None);
}

#[test]
fn standard_font_detection() {
    assert!(is_standard_font("ABCDEF+Helvetica-Bold"));
    assert!(is_standard_font("Times-Roman"));
    assert!(!is_standard_font("MinionPro-Regular"));
}

#[test]
fn glyph_names_reach_the_table_through_unicode() {
    assert_eq!(base14_width("Helvetica", "uni0041"), Some(667));
    assert_eq!(base14_width("Times-Bold", "A.sc"), Some(722));
    assert_eq!(base14_width("ZapfDingbats", "a1"), None);
}
