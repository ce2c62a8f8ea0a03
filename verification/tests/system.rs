use rustium::font::system::{candidates, Style};
use rustium::font::{derive_flags, FontFlags};

#[test]
fn candidate_order_prefers_metric_compatible_faces() {
    let serif_bold = candidates(Style {
        serif: true,
        fixed_pitch: false,
        bold: true,
        italic: false,
    });
    assert_eq!(serif_bold[0], "LiberationSerif-Bold.ttf");
    assert!(serif_bold.iter().any(|c| c == "DejaVuSerif-Bold.ttf"));
    // A styled request falls back to the upright face rather than to nothing.
    assert!(serif_bold
        .iter()
        .any(|c| c == "LiberationSerif-Regular.ttf"));
}

#[test]
fn dejavu_sans_uses_oblique_not_italic() {
    let sans_italic = candidates(Style {
        serif: false,
        fixed_pitch: false,
        bold: false,
        italic: true,
    });
    assert!(sans_italic.iter().any(|c| c == "DejaVuSans-Oblique.ttf"));
}

#[test]
fn a_regular_style_has_three_candidates() {
    let mono = candidates(Style {
        serif: false,
        fixed_pitch: true,
        bold: false,
        italic: false,
    });
    assert_eq!(
        mono,
        ["LiberationMono-Regular.ttf", "DejaVuSansMono.ttf", "NotoSansMono-Regular.ttf"]
    );
}

#[test]
fn flags_read_back_what_was_set() {
    let mut f = FontFlags::default();
    assert!(!f.is_bold());
    f.set(FontFlags::BOLD, true);
    f.set(FontFlags::ITALIC, true);
    assert!(f.is_bold() && f.is_italic());
    assert!(!f.is_serif() && !f.is_fixed_pitch() && !f.is_symbolic());
    f.set(FontFlags::BOLD, false);
    assert!(!f.is_bold() && f.is_italic());
    assert!(FontFlags(FontFlags::SERIF | FontFlags::SYMBOLIC).has(FontFlags::SYMBOLIC));
}

#[test]
fn derived_flags_follow_the_descriptor_and_the_name() {
    let plain = derive_flags(0, "Helvetica", false, false, false);
    assert!(!plain.is_serif() && plain.has(FontFlags::SANS_SERIF) && !plain.is_bold());
    let times = derive_flags(0, "ABCDEF+Times-BoldItalic", false, false, false);
    assert!(times.is_serif() && times.is_bold() && times.is_italic());
    assert!(!times.has(FontFlags::SANS_SERIF));
    // Symbolic only when not also nonsymbolic.
    assert!(derive_flags(4, "X", false, false, false).is_symbolic());
    assert!(!derive_flags(4 | 32, "X", false, false, false).is_symbolic());
    let symbol = derive_flags(4, "Wingdings", false, false, false);
    assert!(symbol.has(FontFlags::SANS_SERIF) && !symbol.is_serif());
    let serif_symbol = derive_flags(4 | 2, "X", false, false, false);
    assert!(serif_symbol.is_serif() && !serif_symbol.has(FontFlags::SANS_SERIF));
    // The descriptor's numbers corroborate.
    assert!(derive_flags(0, "X", true, false, false).is_italic());
    assert!(derive_flags(0, "X", false, true, false).is_bold());
    assert!(derive_flags(0, "X", false, false, true).is_bold());
    assert!(derive_flags(0, "CourierNew", false, false, false).is_fixed_pitch());
    assert!(derive_flags(1 << 16, "X", false, false, false).has(FontFlags::ALL_CAPS));
    assert!(derive_flags(8, "X", false, false, false).has(FontFlags::CURSIVE));
    // Only the part after the subset prefix counts: "Bold" before the `+` does not.
    assert!(!derive_flags(0, "Bold+Regular", false, false, false).is_bold());
}
