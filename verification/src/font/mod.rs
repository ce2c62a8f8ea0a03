//! Fonts: mapping character codes to advances, Unicode and glyph names.

pub mod cmap;
pub mod encoding;
pub mod metrics;
pub mod system;
pub mod tables;
pub mod type1;

use vstd::prelude::*;

verus! {

/// Typeface properties, from the font descriptor's `/Flags` plus the corroborating entries.
///
/// A descriptor's flags alone are unreliable — publisher toolchains routinely ship bold faces
/// with the bold bit clear and italic faces with a zero `/ItalicAngle` — so each accessor
/// corroborates the bit with the font's weight, angle or name before answering.
#[derive(Debug, Clone, Copy, PartialEq, Eq, Structural)]
pub struct FontFlags(pub u32);

impl FontFlags {
    pub const FIXED_PITCH: u32 = 1;
    pub const SERIF: u32 = 2;
    pub const SYMBOLIC: u32 = 4;
    pub const CURSIVE: u32 = 8;
    pub const ITALIC: u32 = 16;
    pub const ALL_CAPS: u32 = 32;
    pub const SMALL_CAPS: u32 = 64;
    pub const BOLD: u32 = 128;
    /// Set when the descriptor's nonsymbolic bit is set or the serif bit is clear; a font is
    /// never both this and [`FontFlags::SERIF`].
    pub const SANS_SERIF: u32 = 256;

    /// Some bit of `flag` is set.
    pub open spec fn spec_has(self, flag: u32) -> bool {
        self.0 & flag != 0
    }

    /// Some bit of `flag` is set.
    #[verifier::when_used_as_spec(spec_has)]
    pub fn has(self, flag: u32) -> (r: bool)
        ensures
            r == self.spec_has(flag),
    {
        self.0 & flag != 0
    }

    /// Sets (`on`) or clears the bits of `flag`.
    pub fn set(&mut self, flag: u32, on: bool)
        ensures
            final(self).0 == if on {
                old(self).0 | flag
            } else {
                old(self).0 & !flag
            },
    {
        if on {
            self.0 = self.0 | flag;
        } else {
            self.0 = self.0 & !flag;
        }
    }

    pub fn is_bold(self) -> (r: bool)
        ensures
            r == self.spec_has(Self::BOLD),
    {
        self.has(Self::BOLD)
    }

    pub fn is_italic(self) -> (r: bool)
        ensures
            r == self.spec_has(Self::ITALIC),
    {
        self.has(Self::ITALIC)
    }

    pub fn is_serif(self) -> (r: bool)
        ensures
            r == self.spec_has(Self::SERIF),
    {
        self.has(Self::SERIF)
    }

    pub fn is_fixed_pitch(self) -> (r: bool)
        ensures
            r == self.spec_has(Self::FIXED_PITCH),
    {
        self.has(Self::FIXED_PITCH)
    }

    pub fn is_symbolic(self) -> (r: bool)
        ensures
            r == self.spec_has(Self::SYMBOLIC),
    {
        self.has(Self::SYMBOLIC)
    }
}

impl Default for FontFlags {
    /// No property set.
    fn default() -> (r: Self)
        ensures
            r.0 == 0,
    {
        FontFlags(0)
    }
}

/// Setting a flag makes it read back as set, clearing it as clear.
pub proof fn set_then_has(x: u32, flag: u32, on: bool)
    requires
        flag != 0,
    ensures
        FontFlags(if on {
            x | flag
        } else {
            x & !flag
        }).spec_has(flag) == on,
{
    if on {
        assert((x | flag) & flag != 0) by (bit_vector)
            requires
                flag != 0,
        ;
    } else {
        assert((x & !flag) & flag == 0) by (bit_vector);
    }
}

/// Setting or clearing a flag leaves every flag with no bit in common unchanged.
pub proof fn set_keeps_other_flags(x: u32, flag: u32, other: u32, on: bool)
    requires
        flag & other == 0,
    ensures
        FontFlags(if on {
            x | flag
        } else {
            x & !flag
        }).spec_has(other) == FontFlags(x).spec_has(other),
{
    assert(((x | flag) & other) == (x & other)) by (bit_vector)
        requires
            flag & other == 0,
    ;
    assert(((x & !flag) & other) == (x & other)) by (bit_vector)
        requires
            flag & other == 0,
    ;
}

} // verus!

verus! {

// ---- typeface properties -------------------------------------------------------------------

/// Bits of a font descriptor's `/Flags`, per the PDF specification's table.
pub const DESC_FIXED_PITCH: i64 = 1;
pub const DESC_SERIF: i64 = 2;
pub const DESC_SYMBOLIC: i64 = 4;
pub const DESC_SCRIPT: i64 = 8;
pub const DESC_NONSYMBOLIC: i64 = 32;
pub const DESC_ITALIC: i64 = 64;
pub const DESC_ALL_CAP: i64 = 65536;
pub const DESC_SMALL_CAP: i64 = 131072;
pub const DESC_FORCE_BOLD: i64 = 262144;

/// The index of the last `+` in `b` before `i`, or -1.
pub open spec fn last_plus(b: Seq<char>, i: int) -> int
    decreases i,
{
    if i <= 0 {
        -1
    } else if b[i - 1] == '+' {
        i - 1
    } else {
        last_plus(b, i - 1)
    }
}

/// The style part of a font name: what follows the last `+` of a subset prefix, with ASCII
/// letters in lower case, as character values.
pub open spec fn style_name(b: Seq<char>) -> Seq<u32> {
    let s = b.subrange(last_plus(b, b.len() as int) + 1, b.len() as int);
    Seq::new(s.len(), |k: int| crate::font::tables::ascii_lower_char(s[k]))
}

/// `w` occurs in `s` at `i`.
pub open spec fn word_at(s: Seq<u32>, w: Seq<char>, i: int) -> bool {
    0 <= i && i + w.len() <= s.len() && forall|k: int| 0 <= k < w.len() ==> #[trigger] s[i + k] == w[k] as u32
}

/// `w` occurs in `s`.
pub open spec fn has_word(s: Seq<u32>, w: Seq<char>) -> bool {
    exists|i: int| word_at(s, w, i)
}

/// A flag's bit when `on`, nothing otherwise.
pub open spec fn bit_if(on: bool, flag: u32) -> u32 {
    if on {
        flag
    } else {
        0
    }
}

/// The typeface properties of a font: its descriptor's `/Flags` (`raw`), corroborated by the
/// style part of its name and by what the descriptor's numbers say (`tilted`: the italic
/// angle is off upright; `heavy`: the weight is bold; `thick_stem`: the stems are bold).
pub open spec fn spec_derive_flags(raw: i64, name: Seq<u32>, tilted: bool, heavy: bool, thick_stem: bool) -> u32 {
    let symbolic = raw & DESC_SYMBOLIC != 0 && raw & DESC_NONSYMBOLIC == 0;
    let serif = raw & DESC_SERIF != 0 || has_word(name, "times"@) || has_word(name, "roman"@)
        || has_word(name, "georgia"@) || has_word(name, "garamond"@) || has_word(name, "minion"@)
        || has_word(name, "cambria"@) || has_word(name, "book"@);
    let fixed = raw & DESC_FIXED_PITCH != 0 || has_word(name, "courier"@) || has_word(name, "mono"@);
    let italic = raw & DESC_ITALIC != 0 || tilted || has_word(name, "italic"@) || has_word(
        name,
        "oblique"@,
    );
    let bold = raw & DESC_FORCE_BOLD != 0 || heavy || thick_stem || has_word(name, "bold"@)
        || has_word(name, "black"@) || has_word(name, "heavy"@);
    let cursive = raw & DESC_SCRIPT != 0 || has_word(name, "script"@);
    bit_if(symbolic, FontFlags::SYMBOLIC) | bit_if(serif, FontFlags::SERIF) | bit_if(
        (raw & DESC_NONSYMBOLIC != 0 || raw & DESC_SERIF == 0) && !serif,
        FontFlags::SANS_SERIF,
    ) | bit_if(fixed, FontFlags::FIXED_PITCH) | bit_if(italic, FontFlags::ITALIC) | bit_if(
        bold,
        FontFlags::BOLD,
    ) | bit_if(cursive, FontFlags::CURSIVE) | bit_if(raw & DESC_ALL_CAP != 0, FontFlags::ALL_CAPS)
        | bit_if(raw & DESC_SMALL_CAP != 0, FontFlags::SMALL_CAPS)
}

/// The style part of a font name, lower-cased, as character values.
fn style_name_of(base_font: &str) -> (r: Vec<u32>)
    ensures
        r@ == style_name(base_font@),
{
    let n = base_font.unicode_len();
    let mut start: usize = 0;
    let mut i: usize = n;
    while i > 0
        invariant_except_break
            n == base_font@.len(),
            i <= n,
            start == 0,
            last_plus(base_font@, n as int) == last_plus(base_font@, i as int),
        ensures
            start as int == last_plus(base_font@, n as int) + 1,
            start <= n,
        decreases i,
    {
        if base_font.get_char(i - 1) == '+' {
            start = i;
            break;
        }
        i = i - 1;
    }
    let mut out: Vec<u32> = Vec::new();
    let mut k: usize = start;
    while k < n
        invariant
            n == base_font@.len(),
            start <= k <= n,
            start as int == last_plus(base_font@, n as int) + 1,
            out@.len() == k - start,
            forall|j: int|
                0 <= j < out@.len() ==> out@[j] == crate::font::tables::ascii_lower_char(
                    base_font@[start + j],
                ),
        decreases n - k,
    {
        let c = base_font.get_char(k) as u32;
        out.push(
            if 65 <= c && c <= 90 {
                c + 32
            } else {
                c
            },
        );
        k = k + 1;
    }
    assert(out@ =~= style_name(base_font@));
    out
}

/// `w` occurs in `s`.
fn contains_word(s: &Vec<u32>, w: &str) -> (r: bool)
    ensures
        r == has_word(s@, w@),
{
    let m = w.unicode_len();
    let n = s.len();
    if m > n {
        return false;
    }
    let mut i: usize = 0;
    while i <= n - m
        invariant
            m == w@.len(),
            n == s@.len(),
            m <= n,
            forall|j: int| 0 <= j < i ==> !word_at(s@, w@, j),
        decreases n - i,
    {
        let mut k: usize = 0;
        let mut all = true;
        while k < m
            invariant
                m == w@.len(),
                n == s@.len(),
                i + m <= n,
                k <= m,
                all == forall|t: int| 0 <= t < k ==> s@[i + t] == w@[t] as u32,
            decreases m - k,
        {
            if s[i + k] != w.get_char(k) as u32 {
                all = false;
            }
            k = k + 1;
        }
        if all {
            assert(word_at(s@, w@, i as int));
            return true;
        }
        i = i + 1;
    }
    assert forall|j: int| !word_at(s@, w@, j) by {}
    false
}

/// Derives typeface properties from a descriptor's `/Flags`, the `/BaseFont` name and what the
/// descriptor's numbers say. The style suffix on a subset name (`ABCDEF+Times-BoldItalic`) is
/// often the only honest record of the face, so it corroborates every bit.
pub fn derive_flags(raw: i64, base_font: &str, tilted: bool, heavy: bool, thick_stem: bool) -> (r:
    FontFlags)
    ensures
        r.0 == spec_derive_flags(raw, style_name(base_font@), tilted, heavy, thick_stem),
{
    let name = style_name_of(base_font);
    // A font is symbolic when it says so and does not also claim to be nonsymbolic; producers
    // that set both mean nonsymbolic, which is the more conservative reading.
    let symbolic = raw & DESC_SYMBOLIC != 0 && raw & DESC_NONSYMBOLIC == 0;
    let serif = raw & DESC_SERIF != 0 || contains_word(&name, "times") || contains_word(
        &name,
        "roman",
    ) || contains_word(&name, "georgia") || contains_word(&name, "garamond") || contains_word(
        &name,
        "minion",
    ) || contains_word(&name, "cambria") || contains_word(&name, "book");
    let fixed = raw & DESC_FIXED_PITCH != 0 || contains_word(&name, "courier") || contains_word(
        &name,
        "mono",
    );
    // `/ItalicAngle` is the strongest signal: an upright face has angle zero.
    let italic = raw & DESC_ITALIC != 0 || tilted || contains_word(&name, "italic")
        || contains_word(&name, "oblique");
    // The descriptor's bold bit alone misses faces that are bold by weight but not by flag,
    // which is common in publisher-typeset PDFs.
    let bold = raw & DESC_FORCE_BOLD != 0 || heavy || thick_stem || contains_word(&name, "bold")
        || contains_word(&name, "black") || contains_word(&name, "heavy");
    let cursive = raw & DESC_SCRIPT != 0 || contains_word(&name, "script");
    let all_caps = raw & DESC_ALL_CAP != 0;
    let small_caps = raw & DESC_SMALL_CAP != 0;
    let v: u32 = (if symbolic {
        FontFlags::SYMBOLIC
    } else {
        0
    }) | (if serif {
        FontFlags::SERIF
    } else {
        0
    }) | (if (raw & DESC_NONSYMBOLIC != 0 || raw & DESC_SERIF == 0) && !serif {
        FontFlags::SANS_SERIF
    } else {
        0
    }) | (if fixed {
        FontFlags::FIXED_PITCH
    } else {
        0
    }) | (if italic {
        FontFlags::ITALIC
    } else {
        0
    }) | (if bold {
        FontFlags::BOLD
    } else {
        0
    }) | (if cursive {
        FontFlags::CURSIVE
    } else {
        0
    }) | (if all_caps {
        FontFlags::ALL_CAPS
    } else {
        0
    }) | (if small_caps {
        FontFlags::SMALL_CAPS
    } else {
        0
    });
    FontFlags(v)
}

/// A font is never both serif and sans-serif.
pub proof fn serif_and_sans_exclude(raw: i64, name: Seq<u32>, tilted: bool, heavy: bool, thick_stem: bool)
    ensures
        !(FontFlags(spec_derive_flags(raw, name, tilted, heavy, thick_stem)).spec_has(
            FontFlags::SERIF,
        ) && FontFlags(spec_derive_flags(raw, name, tilted, heavy, thick_stem)).spec_has(
            FontFlags::SANS_SERIF,
        )),
{
    let v = spec_derive_flags(raw, name, tilted, heavy, thick_stem);
    lemma_flag_bits(v);
}

/// In an OR of one optional bit per flag, the serif and sans-serif bits are set only by their
/// own terms.
proof fn lemma_flag_bits(v: u32)
    ensures
        forall|x: u32, y: u32, z: u32, w: u32, p: u32, q: u32, s: u32, t: u32, u: u32|
            #![trigger x | y | z | w | p | q | s | t | u]
            (x == 0 || x == 4) && (y == 0 || y == 2) && (z == 0 || z == 256) && (w == 0 || w == 1)
                && (p == 0 || p == 16) && (q == 0 || q == 128) && (s == 0 || s == 8) && (t == 0
                || t == 32) && (u == 0 || u == 64) ==> (((x | y | z | w | p | q | s | t | u) & 2
                != 0) == (y == 2)) && (((x | y | z | w | p | q | s | t | u) & 256 != 0) == (z
                == 256)),
{
    assert forall|x: u32, y: u32, z: u32, w: u32, p: u32, q: u32, s: u32, t: u32, u: u32|
        (x == 0 || x == 4) && (y == 0 || y == 2) && (z == 0 || z == 256) && (w == 0 || w == 1) && (
        p == 0 || p == 16) && (q == 0 || q == 128) && (s == 0 || s == 8) && (t == 0 || t == 32)
            && (u == 0 || u == 64) implies (((x | y | z | w | p | q | s | t | u) & 2 != 0) == (y
        == 2)) && (((x | y | z | w | p | q | s | t | u) & 256 != 0) == (z == 256)) by {
        assert((((x | y | z | w | p | q | s | t | u) & 2 != 0) == (y == 2)) && (((x | y | z | w
            | p | q | s | t | u) & 256 != 0) == (z == 256))) by (bit_vector)
            requires
                (x == 0 || x == 4) && (y == 0 || y == 2) && (z == 0 || z == 256) && (w == 0 || w
                    == 1) && (p == 0 || p == 16) && (q == 0 || q == 128) && (s == 0 || s == 8)
                    && (t == 0 || t == 32) && (u == 0 || u == 64),
        ;
    }
}

} // verus!
