//! Substitute faces for fonts a document does not embed.
//!
//! A PDF may reference Helvetica or Times and ship no program, on the understanding that the
//! viewer supplies one. Extraction does not care — the widths come from the metrics tables — but
//! rendering does: without a substitute, every glyph of a non-embedded font silently disappears
//! and the page comes out blank of text.
//!
//! Only the glyph *shapes* come from the substitute. Positions and advances always come from the
//! document, so a substitute with different metrics shifts nothing; it only draws letters that
//! are a little wide or narrow inside slots the PDF chose.

use vstd::prelude::*;

verus! {

/// The style slot a substitute is chosen for.
#[derive(Debug, Clone, Copy, PartialEq, Eq, Structural)]
pub struct Style {
    pub serif: bool,
    pub fixed_pitch: bool,
    pub bold: bool,
    pub italic: bool,
}

/// The three families searched for a style: Liberation, DejaVu and Noto, each in its mono,
/// serif or sans variety.
pub open spec fn families(style: Style) -> (Seq<char>, Seq<char>, Seq<char>) {
    if style.fixed_pitch {
        ("LiberationMono"@, "DejaVuSansMono"@, "NotoSansMono"@)
    } else if style.serif {
        ("LiberationSerif"@, "DejaVuSerif"@, "NotoSerif"@)
    } else {
        ("LiberationSans"@, "DejaVuSans"@, "NotoSans"@)
    }
}

/// How Liberation and Noto spell a style.
pub open spec fn liberation_suffix(style: Style) -> Seq<char> {
    if style.bold && style.italic {
        "-BoldItalic"@
    } else if style.bold {
        "-Bold"@
    } else if style.italic {
        "-Italic"@
    } else {
        "-Regular"@
    }
}

/// How DejaVu spells a style: a bare name when regular, and `Oblique` for its sans italics.
pub open spec fn dejavu_suffix(style: Style) -> Seq<char> {
    if style.bold && style.italic {
        if style.serif {
            "-BoldItalic"@
        } else {
            "-BoldOblique"@
        }
    } else if style.bold {
        "-Bold"@
    } else if style.italic {
        if style.serif {
            "-Italic"@
        } else {
            "-Oblique"@
        }
    } else {
        ""@
    }
}

/// Candidate file names for a style, best first: the style's face in each family, then, for a
/// bold or italic style, each family's upright face.
pub open spec fn spec_candidates(style: Style) -> Seq<Seq<char>> {
    let (family, dejavu, noto) = families(style);
    let first = seq![
        family + liberation_suffix(style) + ".ttf"@,
        dejavu + dejavu_suffix(style) + ".ttf"@,
        noto + liberation_suffix(style) + ".ttf"@,
    ];
    if style.bold || style.italic {
        first + seq![family + "-Regular.ttf"@, dejavu + ".ttf"@, noto + "-Regular.ttf"@]
    } else {
        first
    }
}

fn joined(a: &str, b: &str, c: &str) -> (r: String)
    ensures
        r@ == a@ + b@ + c@,
{
    let mut s = String::new();
    crate::text::push_str_chars(&mut s, a);
    crate::text::push_str_chars(&mut s, b);
    crate::text::push_str_chars(&mut s, c);
    assert(s@ =~= a@ + b@ + c@);
    s
}

/// Candidate file names per slot, best first.
///
/// The Liberation family leads because it is metrically compatible with Arial, Times New Roman
/// and Courier New — the faces PDFs actually name — so substituted text occupies very nearly the
/// space the document laid out for it. DejaVu and Noto follow as near-universal fallbacks.
pub fn candidates(style: Style) -> (r: Vec<String>)
    ensures
        r@.map_values(|s: String| s@) == spec_candidates(style),
{
    let (family, dejavu, noto): (&str, &str, &str) = if style.fixed_pitch {
        ("LiberationMono", "DejaVuSansMono", "NotoSansMono")
    } else if style.serif {
        ("LiberationSerif", "DejaVuSerif", "NotoSerif")
    } else {
        ("LiberationSans", "DejaVuSans", "NotoSans")
    };
    // Each family spells its styles differently: Liberation and Noto use `-Regular`/`-Italic`,
    // DejaVu uses a bare name and `-Oblique` for its sans faces.
    let liberation: &str = if style.bold && style.italic {
        "-BoldItalic"
    } else if style.bold {
        "-Bold"
    } else if style.italic {
        "-Italic"
    } else {
        "-Regular"
    };
    let dejavu_style: &str = if style.bold && style.italic {
        if style.serif {
            "-BoldItalic"
        } else {
            "-BoldOblique"
        }
    } else if style.bold {
        "-Bold"
    } else if style.italic {
        if style.serif {
            "-Italic"
        } else {
            "-Oblique"
        }
    } else {
        ""
    };
    let mut out: Vec<String> = Vec::new();
    out.push(joined(family, liberation, ".ttf"));
    out.push(joined(dejavu, dejavu_style, ".ttf"));
    out.push(joined(noto, liberation, ".ttf"));
    // Falling back across styles beats drawing nothing at all.
    if style.bold || style.italic {
        out.push(joined(family, "-Regular", ".ttf"));
        out.push(joined(dejavu, "", ".ttf"));
        out.push(joined(noto, "-Regular", ".ttf"));
        proof {
            reveal_strlit("");
            assert(family@ + ""@ + ".ttf"@ =~= family@ + ".ttf"@);
            assert(dejavu@ + ""@ + ".ttf"@ =~= dejavu@ + ".ttf"@);
            assert(family@ + "-Regular"@ + ".ttf"@ =~= family@ + "-Regular.ttf"@) by {
                reveal_strlit("-Regular");
                reveal_strlit(".ttf");
                reveal_strlit("-Regular.ttf");
            }
            assert(noto@ + "-Regular"@ + ".ttf"@ =~= noto@ + "-Regular.ttf"@) by {
                reveal_strlit("-Regular");
                reveal_strlit(".ttf");
                reveal_strlit("-Regular.ttf");
            }
        }
    }
    assert(out@.map_values(|s: String| s@) =~= spec_candidates(style));
    out
}

} // verus!
