//! Base encodings and glyph-name → Unicode mapping.
//!
//! The glyph list is a working subset of the Adobe Glyph List: full Latin-1 coverage, the
//! ligatures, Greek, and the mathematical symbols that appear in scientific documents. Names
//! not present fall through to the `uniXXXX`/`uXXXX(XX)` conventions, then to TeX's mathematics
//! conventions, then to suffix stripping (`a.sc` → `a`), then to nothing.
//!
//! Each table is stated twice, once as a spec function and once as the executable function
//! whose contract ties it to the spec: the contracts of the lookups speak of the spec tables.

use vstd::prelude::*;

use crate::text::{
    char_from_u32, chars_end_with, chars_of, chars_start_with, seq_ends_with, seq_starts_with,
    str_eq, string_from_chars, string_from_utf16_lossy, string_of_char, utf16_lossy,
};

verus! {

#[derive(Debug, Clone, Copy, PartialEq, Eq, Structural)]
pub enum Encoding {
    Standard,
    WinAnsi,
    MacRoman,
    Symbol,
}

/// Glyph names of the ASCII slots common to Standard, WinAnsi and MacRoman, code 32..=126.
pub open spec fn ascii_name(code: u8) -> Seq<char> {
    match code {
        32u8 => "space"@,
        33u8 => "exclam"@,
        34u8 => "quotedbl"@,
        35u8 => "numbersign"@,
        36u8 => "dollar"@,
        37u8 => "percent"@,
        38u8 => "ampersand"@,
        39u8 => "quotesingle"@,
        40u8 => "parenleft"@,
        41u8 => "parenright"@,
        42u8 => "asterisk"@,
        43u8 => "plus"@,
        44u8 => "comma"@,
        45u8 => "hyphen"@,
        46u8 => "period"@,
        47u8 => "slash"@,
        48u8 => "zero"@,
        49u8 => "one"@,
        50u8 => "two"@,
        51u8 => "three"@,
        52u8 => "four"@,
        53u8 => "five"@,
        54u8 => "six"@,
        55u8 => "seven"@,
        56u8 => "eight"@,
        57u8 => "nine"@,
        58u8 => "colon"@,
        59u8 => "semicolon"@,
        60u8 => "less"@,
        61u8 => "equal"@,
        62u8 => "greater"@,
        63u8 => "question"@,
        64u8 => "at"@,
        65u8 => "A"@,
        66u8 => "B"@,
        67u8 => "C"@,
        68u8 => "D"@,
        69u8 => "E"@,
        70u8 => "F"@,
        71u8 => "G"@,
        72u8 => "H"@,
        73u8 => "I"@,
        74u8 => "J"@,
        75u8 => "K"@,
        76u8 => "L"@,
        77u8 => "M"@,
        78u8 => "N"@,
        79u8 => "O"@,
        80u8 => "P"@,
        81u8 => "Q"@,
        82u8 => "R"@,
        83u8 => "S"@,
        84u8 => "T"@,
        85u8 => "U"@,
        86u8 => "V"@,
        87u8 => "W"@,
        88u8 => "X"@,
        89u8 => "Y"@,
        90u8 => "Z"@,
        91u8 => "bracketleft"@,
        92u8 => "backslash"@,
        93u8 => "bracketright"@,
        94u8 => "asciicircum"@,
        95u8 => "underscore"@,
        96u8 => "grave"@,
        97u8 => "a"@,
        98u8 => "b"@,
        99u8 => "c"@,
        100u8 => "d"@,
        101u8 => "e"@,
        102u8 => "f"@,
        103u8 => "g"@,
        104u8 => "h"@,
        105u8 => "i"@,
        106u8 => "j"@,
        107u8 => "k"@,
        108u8 => "l"@,
        109u8 => "m"@,
        110u8 => "n"@,
        111u8 => "o"@,
        112u8 => "p"@,
        113u8 => "q"@,
        114u8 => "r"@,
        115u8 => "s"@,
        116u8 => "t"@,
        117u8 => "u"@,
        118u8 => "v"@,
        119u8 => "w"@,
        120u8 => "x"@,
        121u8 => "y"@,
        122u8 => "z"@,
        123u8 => "braceleft"@,
        124u8 => "bar"@,
        125u8 => "braceright"@,
        126u8 => "asciitilde"@,
        _ => ""@,
    }
}

fn ascii_name_str(code: u8) -> (r: &'static str)
    ensures
        r@ == ascii_name(code),
{
    match code {
        32u8 => "space",
        33u8 => "exclam",
        34u8 => "quotedbl",
        35u8 => "numbersign",
        36u8 => "dollar",
        37u8 => "percent",
        38u8 => "ampersand",
        39u8 => "quotesingle",
        40u8 => "parenleft",
        41u8 => "parenright",
        42u8 => "asterisk",
        43u8 => "plus",
        44u8 => "comma",
        45u8 => "hyphen",
        46u8 => "period",
        47u8 => "slash",
        48u8 => "zero",
        49u8 => "one",
        50u8 => "two",
        51u8 => "three",
        52u8 => "four",
        53u8 => "five",
        54u8 => "six",
        55u8 => "seven",
        56u8 => "eight",
        57u8 => "nine",
        58u8 => "colon",
        59u8 => "semicolon",
        60u8 => "less",
        61u8 => "equal",
        62u8 => "greater",
        63u8 => "question",
        64u8 => "at",
        65u8 => "A",
        66u8 => "B",
        67u8 => "C",
        68u8 => "D",
        69u8 => "E",
        70u8 => "F",
        71u8 => "G",
        72u8 => "H",
        73u8 => "I",
        74u8 => "J",
        75u8 => "K",
        76u8 => "L",
        77u8 => "M",
        78u8 => "N",
        79u8 => "O",
        80u8 => "P",
        81u8 => "Q",
        82u8 => "R",
        83u8 => "S",
        84u8 => "T",
        85u8 => "U",
        86u8 => "V",
        87u8 => "W",
        88u8 => "X",
        89u8 => "Y",
        90u8 => "Z",
        91u8 => "bracketleft",
        92u8 => "backslash",
        93u8 => "bracketright",
        94u8 => "asciicircum",
        95u8 => "underscore",
        96u8 => "grave",
        97u8 => "a",
        98u8 => "b",
        99u8 => "c",
        100u8 => "d",
        101u8 => "e",
        102u8 => "f",
        103u8 => "g",
        104u8 => "h",
        105u8 => "i",
        106u8 => "j",
        107u8 => "k",
        108u8 => "l",
        109u8 => "m",
        110u8 => "n",
        111u8 => "o",
        112u8 => "p",
        113u8 => "q",
        114u8 => "r",
        115u8 => "s",
        116u8 => "t",
        117u8 => "u",
        118u8 => "v",
        119u8 => "w",
        120u8 => "x",
        121u8 => "y",
        122u8 => "z",
        123u8 => "braceleft",
        124u8 => "bar",
        125u8 => "braceright",
        126u8 => "asciitilde",
        _ => "",
    }
}

/// StandardEncoding above ASCII: glyph names by code, `""` where the slot is empty.
pub open spec fn standard_high(code: u8) -> Seq<char> {
    match code {
        161u8 => "exclamdown"@,
        162u8 => "cent"@,
        163u8 => "sterling"@,
        164u8 => "fraction"@,
        165u8 => "yen"@,
        166u8 => "florin"@,
        167u8 => "section"@,
        168u8 => "currency"@,
        169u8 => "quotesingle"@,
        170u8 => "quotedblleft"@,
        171u8 => "guillemotleft"@,
        172u8 => "guilsinglleft"@,
        173u8 => "guilsinglright"@,
        174u8 => "fi"@,
        175u8 => "fl"@,
        177u8 => "endash"@,
        178u8 => "dagger"@,
        179u8 => "daggerdbl"@,
        180u8 => "periodcentered"@,
        182u8 => "paragraph"@,
        183u8 => "bullet"@,
        184u8 => "quotesinglbase"@,
        185u8 => "quotedblbase"@,
        186u8 => "quotedblright"@,
        187u8 => "guillemotright"@,
        188u8 => "ellipsis"@,
        189u8 => "perthousand"@,
        191u8 => "questiondown"@,
        193u8 => "grave"@,
        194u8 => "acute"@,
        195u8 => "circumflex"@,
        196u8 => "tilde"@,
        197u8 => "macron"@,
        198u8 => "breve"@,
        199u8 => "dotaccent"@,
        200u8 => "dieresis"@,
        202u8 => "ring"@,
        203u8 => "cedilla"@,
        205u8 => "hungarumlaut"@,
        206u8 => "ogonek"@,
        207u8 => "caron"@,
        208u8 => "emdash"@,
        225u8 => "AE"@,
        227u8 => "ordfeminine"@,
        241u8 => "ae"@,
        245u8 => "dotlessi"@,
        _ => ""@,
    }
}

fn standard_high_str(code: u8) -> (r: &'static str)
    ensures
        r@ == standard_high(code),
{
    match code {
        161u8 => "exclamdown",
        162u8 => "cent",
        163u8 => "sterling",
        164u8 => "fraction",
        165u8 => "yen",
        166u8 => "florin",
        167u8 => "section",
        168u8 => "currency",
        169u8 => "quotesingle",
        170u8 => "quotedblleft",
        171u8 => "guillemotleft",
        172u8 => "guilsinglleft",
        173u8 => "guilsinglright",
        174u8 => "fi",
        175u8 => "fl",
        177u8 => "endash",
        178u8 => "dagger",
        179u8 => "daggerdbl",
        180u8 => "periodcentered",
        182u8 => "paragraph",
        183u8 => "bullet",
        184u8 => "quotesinglbase",
        185u8 => "quotedblbase",
        186u8 => "quotedblright",
        187u8 => "guillemotright",
        188u8 => "ellipsis",
        189u8 => "perthousand",
        191u8 => "questiondown",
        193u8 => "grave",
        194u8 => "acute",
        195u8 => "circumflex",
        196u8 => "tilde",
        197u8 => "macron",
        198u8 => "breve",
        199u8 => "dotaccent",
        200u8 => "dieresis",
        202u8 => "ring",
        203u8 => "cedilla",
        205u8 => "hungarumlaut",
        206u8 => "ogonek",
        207u8 => "caron",
        208u8 => "emdash",
        225u8 => "AE",
        227u8 => "ordfeminine",
        241u8 => "ae",
        245u8 => "dotlessi",
        _ => "",
    }
}

/// WinAnsiEncoding above ASCII: glyph names by code, `""` where the slot is empty.
pub open spec fn winansi_high(code: u8) -> Seq<char> {
    match code {
        128u8 => "Euro"@,
        130u8 => "quotesinglbase"@,
        131u8 => "florin"@,
        132u8 => "quotedblbase"@,
        133u8 => "ellipsis"@,
        134u8 => "dagger"@,
        135u8 => "daggerdbl"@,
        136u8 => "circumflex"@,
        137u8 => "perthousand"@,
        138u8 => "Scaron"@,
        139u8 => "guilsinglleft"@,
        140u8 => "OE"@,
        142u8 => "Zcaron"@,
        145u8 => "quoteleft"@,
        146u8 => "quoteright"@,
        147u8 => "quotedblleft"@,
        148u8 => "quotedblright"@,
        149u8 => "bullet"@,
        150u8 => "endash"@,
        151u8 => "emdash"@,
        152u8 => "tilde"@,
        153u8 => "trademark"@,
        154u8 => "scaron"@,
        155u8 => "guilsinglright"@,
        156u8 => "oe"@,
        158u8 => "zcaron"@,
        159u8 => "Ydieresis"@,
        161u8 => "exclamdown"@,
        162u8 => "cent"@,
        163u8 => "sterling"@,
        164u8 => "currency"@,
        165u8 => "yen"@,
        166u8 => "brokenbar"@,
        167u8 => "section"@,
        168u8 => "dieresis"@,
        169u8 => "copyright"@,
        170u8 => "ordfeminine"@,
        171u8 => "guillemotleft"@,
        172u8 => "logicalnot"@,
        173u8 => "hyphen"@,
        174u8 => "registered"@,
        175u8 => "macron"@,
        176u8 => "degree"@,
        177u8 => "plusminus"@,
        178u8 => "twosuperior"@,
        179u8 => "threesuperior"@,
        180u8 => "acute"@,
        181u8 => "mu"@,
        182u8 => "paragraph"@,
        183u8 => "periodcentered"@,
        184u8 => "cedilla"@,
        185u8 => "onesuperior"@,
        186u8 => "ordmasculine"@,
        187u8 => "guillemotright"@,
        188u8 => "onequarter"@,
        189u8 => "onehalf"@,
        190u8 => "threequarters"@,
        191u8 => "questiondown"@,
        192u8 => "Agrave"@,
        193u8 => "Aacute"@,
        194u8 => "Acircumflex"@,
        195u8 => "Atilde"@,
        196u8 => "Adieresis"@,
        197u8 => "Aring"@,
        198u8 => "AE"@,
        199u8 => "Ccedilla"@,
        200u8 => "Egrave"@,
        201u8 => "Eacute"@,
        202u8 => "Ecircumflex"@,
        203u8 => "Edieresis"@,
        204u8 => "Igrave"@,
        205u8 => "Iacute"@,
        206u8 => "Icircumflex"@,
        207u8 => "Idieresis"@,
        208u8 => "Eth"@,
        209u8 => "Ntilde"@,
        210u8 => "Ograve"@,
        211u8 => "Oacute"@,
        212u8 => "Ocircumflex"@,
        213u8 => "Otilde"@,
        214u8 => "Odieresis"@,
        215u8 => "multiply"@,
        216u8 => "Oslash"@,
        217u8 => "Ugrave"@,
        218u8 => "Uacute"@,
        219u8 => "Ucircumflex"@,
        220u8 => "Udieresis"@,
        221u8 => "Yacute"@,
        222u8 => "Thorn"@,
        223u8 => "germandbls"@,
        224u8 => "agrave"@,
        225u8 => "aacute"@,
        226u8 => "acircumflex"@,
        227u8 => "atilde"@,
        228u8 => "adieresis"@,
        229u8 => "aring"@,
        230u8 => "ae"@,
        231u8 => "ccedilla"@,
        232u8 => "egrave"@,
        233u8 => "eacute"@,
        234u8 => "ecircumflex"@,
        235u8 => "edieresis"@,
        236u8 => "igrave"@,
        237u8 => "iacute"@,
        238u8 => "icircumflex"@,
        239u8 => "idieresis"@,
        240u8 => "eth"@,
        241u8 => "ntilde"@,
        242u8 => "ograve"@,
        243u8 => "oacute"@,
        244u8 => "ocircumflex"@,
        245u8 => "otilde"@,
        246u8 => "odieresis"@,
        247u8 => "divide"@,
        248u8 => "oslash"@,
        249u8 => "ugrave"@,
        250u8 => "uacute"@,
        251u8 => "ucircumflex"@,
        252u8 => "udieresis"@,
        253u8 => "yacute"@,
        254u8 => "thorn"@,
        255u8 => "ydieresis"@,
        _ => ""@,
    }
}

fn winansi_high_str(code: u8) -> (r: &'static str)
    ensures
        r@ == winansi_high(code),
{
    match code {
        128u8 => "Euro",
        130u8 => "quotesinglbase",
        131u8 => "florin",
        132u8 => "quotedblbase",
        133u8 => "ellipsis",
        134u8 => "dagger",
        135u8 => "daggerdbl",
        136u8 => "circumflex",
        137u8 => "perthousand",
        138u8 => "Scaron",
        139u8 => "guilsinglleft",
        140u8 => "OE",
        142u8 => "Zcaron",
        145u8 => "quoteleft",
        146u8 => "quoteright",
        147u8 => "quotedblleft",
        148u8 => "quotedblright",
        149u8 => "bullet",
        150u8 => "endash",
        151u8 => "emdash",
        152u8 => "tilde",
        153u8 => "trademark",
        154u8 => "scaron",
        155u8 => "guilsinglright",
        156u8 => "oe",
        158u8 => "zcaron",
        159u8 => "Ydieresis",
        161u8 => "exclamdown",
        162u8 => "cent",
        163u8 => "sterling",
        164u8 => "currency",
        165u8 => "yen",
        166u8 => "brokenbar",
        167u8 => "section",
        168u8 => "dieresis",
        169u8 => "copyright",
        170u8 => "ordfeminine",
        171u8 => "guillemotleft",
        172u8 => "logicalnot",
        173u8 => "hyphen",
        174u8 => "registered",
        175u8 => "macron",
        176u8 => "degree",
        177u8 => "plusminus",
        178u8 => "twosuperior",
        179u8 => "threesuperior",
        180u8 => "acute",
        181u8 => "mu",
        182u8 => "paragraph",
        183u8 => "periodcentered",
        184u8 => "cedilla",
        185u8 => "onesuperior",
        186u8 => "ordmasculine",
        187u8 => "guillemotright",
        188u8 => "onequarter",
        189u8 => "onehalf",
        190u8 => "threequarters",
        191u8 => "questiondown",
        192u8 => "Agrave",
        193u8 => "Aacute",
        194u8 => "Acircumflex",
        195u8 => "Atilde",
        196u8 => "Adieresis",
        197u8 => "Aring",
        198u8 => "AE",
        199u8 => "Ccedilla",
        200u8 => "Egrave",
        201u8 => "Eacute",
        202u8 => "Ecircumflex",
        203u8 => "Edieresis",
        204u8 => "Igrave",
        205u8 => "Iacute",
        206u8 => "Icircumflex",
        207u8 => "Idieresis",
        208u8 => "Eth",
        209u8 => "Ntilde",
        210u8 => "Ograve",
        211u8 => "Oacute",
        212u8 => "Ocircumflex",
        213u8 => "Otilde",
        214u8 => "Odieresis",
        215u8 => "multiply",
        216u8 => "Oslash",
        217u8 => "Ugrave",
        218u8 => "Uacute",
        219u8 => "Ucircumflex",
        220u8 => "Udieresis",
        221u8 => "Yacute",
        222u8 => "Thorn",
        223u8 => "germandbls",
        224u8 => "agrave",
        225u8 => "aacute",
        226u8 => "acircumflex",
        227u8 => "atilde",
        228u8 => "adieresis",
        229u8 => "aring",
        230u8 => "ae",
        231u8 => "ccedilla",
        232u8 => "egrave",
        233u8 => "eacute",
        234u8 => "ecircumflex",
        235u8 => "edieresis",
        236u8 => "igrave",
        237u8 => "iacute",
        238u8 => "icircumflex",
        239u8 => "idieresis",
        240u8 => "eth",
        241u8 => "ntilde",
        242u8 => "ograve",
        243u8 => "oacute",
        244u8 => "ocircumflex",
        245u8 => "otilde",
        246u8 => "odieresis",
        247u8 => "divide",
        248u8 => "oslash",
        249u8 => "ugrave",
        250u8 => "uacute",
        251u8 => "ucircumflex",
        252u8 => "udieresis",
        253u8 => "yacute",
        254u8 => "thorn",
        255u8 => "ydieresis",
        _ => "",
    }
}

/// MacRomanEncoding above ASCII: glyph names by code, `""` where the slot is empty.
pub open spec fn macroman_high(code: u8) -> Seq<char> {
    match code {
        128u8 => "Adieresis"@,
        129u8 => "Aring"@,
        130u8 => "Ccedilla"@,
        131u8 => "Eacute"@,
        132u8 => "Ntilde"@,
        133u8 => "Odieresis"@,
        134u8 => "Udieresis"@,
        135u8 => "aacute"@,
        136u8 => "agrave"@,
        137u8 => "acircumflex"@,
        138u8 => "adieresis"@,
        139u8 => "atilde"@,
        140u8 => "aring"@,
        141u8 => "ccedilla"@,
        142u8 => "eacute"@,
        143u8 => "egrave"@,
        144u8 => "ecircumflex"@,
        145u8 => "edieresis"@,
        146u8 => "iacute"@,
        147u8 => "igrave"@,
        148u8 => "icircumflex"@,
        149u8 => "idieresis"@,
        150u8 => "ntilde"@,
        151u8 => "oacute"@,
        152u8 => "ograve"@,
        153u8 => "ocircumflex"@,
        154u8 => "odieresis"@,
        155u8 => "otilde"@,
        156u8 => "uacute"@,
        157u8 => "ugrave"@,
        158u8 => "ucircumflex"@,
        159u8 => "udieresis"@,
        160u8 => "dagger"@,
        161u8 => "degree"@,
        162u8 => "cent"@,
        163u8 => "sterling"@,
        164u8 => "section"@,
        165u8 => "bullet"@,
        166u8 => "paragraph"@,
        167u8 => "germandbls"@,
        168u8 => "registered"@,
        169u8 => "copyright"@,
        170u8 => "trademark"@,
        171u8 => "acute"@,
        172u8 => "dieresis"@,
        174u8 => "AE"@,
        175u8 => "Oslash"@,
        176u8 => "infinity"@,
        177u8 => "plusminus"@,
        178u8 => "lessequal"@,
        179u8 => "greaterequal"@,
        180u8 => "yen"@,
        181u8 => "mu"@,
        182u8 => "partialdiff"@,
        183u8 => "summation"@,
        184u8 => "product"@,
        185u8 => "pi"@,
        186u8 => "integral"@,
        187u8 => "ordfeminine"@,
        188u8 => "ordmasculine"@,
        190u8 => "ae"@,
        191u8 => "oslash"@,
        192u8 => "questiondown"@,
        193u8 => "exclamdown"@,
        194u8 => "logicalnot"@,
        195u8 => "radical"@,
        196u8 => "florin"@,
        197u8 => "approxequal"@,
        198u8 => "Delta"@,
        199u8 => "guillemotleft"@,
        200u8 => "guillemotright"@,
        201u8 => "ellipsis"@,
        202u8 => "space"@,
        203u8 => "Agrave"@,
        204u8 => "Atilde"@,
        205u8 => "Otilde"@,
        206u8 => "OE"@,
        207u8 => "oe"@,
        208u8 => "endash"@,
        209u8 => "emdash"@,
        210u8 => "quotedblleft"@,
        211u8 => "quotedblright"@,
        212u8 => "quoteleft"@,
        213u8 => "quoteright"@,
        214u8 => "divide"@,
        215u8 => "lozenge"@,
        216u8 => "ydieresis"@,
        217u8 => "Ydieresis"@,
        218u8 => "fraction"@,
        219u8 => "currency"@,
        220u8 => "guilsinglleft"@,
        221u8 => "guilsinglright"@,
        222u8 => "fi"@,
        223u8 => "fl"@,
        224u8 => "daggerdbl"@,
        225u8 => "periodcentered"@,
        226u8 => "quotesinglbase"@,
        227u8 => "quotedblbase"@,
        228u8 => "perthousand"@,
        229u8 => "Acircumflex"@,
        230u8 => "Ecircumflex"@,
        231u8 => "Aacute"@,
        232u8 => "Edieresis"@,
        233u8 => "Egrave"@,
        234u8 => "Iacute"@,
        235u8 => "Icircumflex"@,
        236u8 => "Idieresis"@,
        237u8 => "Igrave"@,
        238u8 => "Oacute"@,
        239u8 => "Ocircumflex"@,
        241u8 => "Ograve"@,
        242u8 => "Uacute"@,
        243u8 => "Ucircumflex"@,
        244u8 => "Ugrave"@,
        245u8 => "dotlessi"@,
        246u8 => "circumflex"@,
        247u8 => "tilde"@,
        248u8 => "macron"@,
        249u8 => "breve"@,
        250u8 => "dotaccent"@,
        251u8 => "ring"@,
        252u8 => "cedilla"@,
        253u8 => "hungarumlaut"@,
        254u8 => "ogonek"@,
        255u8 => "caron"@,
        _ => ""@,
    }
}

fn macroman_high_str(code: u8) -> (r: &'static str)
    ensures
        r@ == macroman_high(code),
{
    match code {
        128u8 => "Adieresis",
        129u8 => "Aring",
        130u8 => "Ccedilla",
        131u8 => "Eacute",
        132u8 => "Ntilde",
        133u8 => "Odieresis",
        134u8 => "Udieresis",
        135u8 => "aacute",
        136u8 => "agrave",
        137u8 => "acircumflex",
        138u8 => "adieresis",
        139u8 => "atilde",
        140u8 => "aring",
        141u8 => "ccedilla",
        142u8 => "eacute",
        143u8 => "egrave",
        144u8 => "ecircumflex",
        145u8 => "edieresis",
        146u8 => "iacute",
        147u8 => "igrave",
        148u8 => "icircumflex",
        149u8 => "idieresis",
        150u8 => "ntilde",
        151u8 => "oacute",
        152u8 => "ograve",
        153u8 => "ocircumflex",
        154u8 => "odieresis",
        155u8 => "otilde",
        156u8 => "uacute",
        157u8 => "ugrave",
        158u8 => "ucircumflex",
        159u8 => "udieresis",
        160u8 => "dagger",
        161u8 => "degree",
        162u8 => "cent",
        163u8 => "sterling",
        164u8 => "section",
        165u8 => "bullet",
        166u8 => "paragraph",
        167u8 => "germandbls",
        168u8 => "registered",
        169u8 => "copyright",
        170u8 => "trademark",
        171u8 => "acute",
        172u8 => "dieresis",
        174u8 => "AE",
        175u8 => "Oslash",
        176u8 => "infinity",
        177u8 => "plusminus",
        178u8 => "lessequal",
        179u8 => "greaterequal",
        180u8 => "yen",
        181u8 => "mu",
        182u8 => "partialdiff",
        183u8 => "summation",
        184u8 => "product",
        185u8 => "pi",
        186u8 => "integral",
        187u8 => "ordfeminine",
        188u8 => "ordmasculine",
        190u8 => "ae",
        191u8 => "oslash",
        192u8 => "questiondown",
        193u8 => "exclamdown",
        194u8 => "logicalnot",
        195u8 => "radical",
        196u8 => "florin",
        197u8 => "approxequal",
        198u8 => "Delta",
        199u8 => "guillemotleft",
        200u8 => "guillemotright",
        201u8 => "ellipsis",
        202u8 => "space",
        203u8 => "Agrave",
        204u8 => "Atilde",
        205u8 => "Otilde",
        206u8 => "OE",
        207u8 => "oe",
        208u8 => "endash",
        209u8 => "emdash",
        210u8 => "quotedblleft",
        211u8 => "quotedblright",
        212u8 => "quoteleft",
        213u8 => "quoteright",
        214u8 => "divide",
        215u8 => "lozenge",
        216u8 => "ydieresis",
        217u8 => "Ydieresis",
        218u8 => "fraction",
        219u8 => "currency",
        220u8 => "guilsinglleft",
        221u8 => "guilsinglright",
        222u8 => "fi",
        223u8 => "fl",
        224u8 => "daggerdbl",
        225u8 => "periodcentered",
        226u8 => "quotesinglbase",
        227u8 => "quotedblbase",
        228u8 => "perthousand",
        229u8 => "Acircumflex",
        230u8 => "Ecircumflex",
        231u8 => "Aacute",
        232u8 => "Edieresis",
        233u8 => "Egrave",
        234u8 => "Iacute",
        235u8 => "Icircumflex",
        236u8 => "Idieresis",
        237u8 => "Igrave",
        238u8 => "Oacute",
        239u8 => "Ocircumflex",
        241u8 => "Ograve",
        242u8 => "Uacute",
        243u8 => "Ucircumflex",
        244u8 => "Ugrave",
        245u8 => "dotlessi",
        246u8 => "circumflex",
        247u8 => "tilde",
        248u8 => "macron",
        249u8 => "breve",
        250u8 => "dotaccent",
        251u8 => "ring",
        252u8 => "cedilla",
        253u8 => "hungarumlaut",
        254u8 => "ogonek",
        255u8 => "caron",
        _ => "",
    }
}

/// The Symbol font's built-in encoding, mapped straight to Unicode-bearing names: its own
/// slots, then the ASCII names for the rest of 0x20..=0x7E.
pub open spec fn symbol_name(code: u8) -> Seq<char> {
    match code {
        34u8 => "universal"@,
        36u8 => "existential"@,
        39u8 => "suchthat"@,
        64u8 => "congruent"@,
        65u8 => "Alpha"@,
        66u8 => "Beta"@,
        67u8 => "Chi"@,
        68u8 => "Delta"@,
        69u8 => "Epsilon"@,
        70u8 => "Phi"@,
        71u8 => "Gamma"@,
        72u8 => "Eta"@,
        73u8 => "Iota"@,
        74u8 => "theta1"@,
        75u8 => "Kappa"@,
        76u8 => "Lambda"@,
        77u8 => "Mu"@,
        78u8 => "Nu"@,
        79u8 => "Omicron"@,
        80u8 => "Pi"@,
        81u8 => "Theta"@,
        82u8 => "Rho"@,
        83u8 => "Sigma"@,
        84u8 => "Tau"@,
        85u8 => "Upsilon"@,
        86u8 => "sigma1"@,
        87u8 => "Omega"@,
        88u8 => "Xi"@,
        89u8 => "Psi"@,
        90u8 => "Zeta"@,
        92u8 => "therefore"@,
        94u8 => "perpendicular"@,
        96u8 => "radicalex"@,
        97u8 => "alpha"@,
        98u8 => "beta"@,
        99u8 => "chi"@,
        100u8 => "delta"@,
        101u8 => "epsilon"@,
        102u8 => "phi"@,
        103u8 => "gamma"@,
        104u8 => "eta"@,
        105u8 => "iota"@,
        106u8 => "phi1"@,
        107u8 => "kappa"@,
        108u8 => "lambda"@,
        109u8 => "mu"@,
        110u8 => "nu"@,
        111u8 => "omicron"@,
        112u8 => "pi"@,
        113u8 => "theta"@,
        114u8 => "rho"@,
        115u8 => "sigma"@,
        116u8 => "tau"@,
        117u8 => "upsilon"@,
        118u8 => "omega1"@,
        119u8 => "omega"@,
        120u8 => "xi"@,
        121u8 => "psi"@,
        122u8 => "zeta"@,
        126u8 => "similar"@,
        162u8 => "minute"@,
        163u8 => "lessequal"@,
        164u8 => "fraction"@,
        165u8 => "infinity"@,
        166u8 => "florin"@,
        168u8 => "diamond"@,
        169u8 => "heart"@,
        170u8 => "spade"@,
        171u8 => "arrowboth"@,
        172u8 => "arrowleft"@,
        173u8 => "arrowup"@,
        174u8 => "arrowright"@,
        175u8 => "arrowdown"@,
        176u8 => "degree"@,
        177u8 => "plusminus"@,
        178u8 => "second"@,
        179u8 => "greaterequal"@,
        180u8 => "multiply"@,
        181u8 => "proportional"@,
        182u8 => "partialdiff"@,
        183u8 => "bullet"@,
        184u8 => "divide"@,
        185u8 => "notequal"@,
        186u8 => "equivalence"@,
        187u8 => "approxequal"@,
        188u8 => "ellipsis"@,
        192u8 => "aleph"@,
        193u8 => "Ifraktur"@,
        194u8 => "Rfraktur"@,
        195u8 => "weierstrass"@,
        196u8 => "circlemultiply"@,
        197u8 => "circleplus"@,
        198u8 => "emptyset"@,
        199u8 => "intersection"@,
        200u8 => "union"@,
        201u8 => "propersuperset"@,
        202u8 => "reflexsuperset"@,
        203u8 => "notsubset"@,
        204u8 => "propersubset"@,
        205u8 => "reflexsubset"@,
        206u8 => "element"@,
        207u8 => "notelement"@,
        208u8 => "angle"@,
        209u8 => "gradient"@,
        213u8 => "product"@,
        214u8 => "radical"@,
        215u8 => "dotmath"@,
        216u8 => "logicalnot"@,
        217u8 => "logicaland"@,
        218u8 => "logicalor"@,
        219u8 => "arrowdblboth"@,
        220u8 => "arrowdblleft"@,
        221u8 => "arrowdblup"@,
        222u8 => "arrowdblright"@,
        223u8 => "arrowdbldown"@,
        229u8 => "summation"@,
        242u8 => "integral"@,
        _ => if 32 <= code <= 126 {
            ascii_name(code)
        } else {
            ""@
        },
    }
}

fn symbol_name_str(code: u8) -> (r: &'static str)
    ensures
        r@ == symbol_name(code),
{
    match code {
        34u8 => "universal",
        36u8 => "existential",
        39u8 => "suchthat",
        64u8 => "congruent",
        65u8 => "Alpha",
        66u8 => "Beta",
        67u8 => "Chi",
        68u8 => "Delta",
        69u8 => "Epsilon",
        70u8 => "Phi",
        71u8 => "Gamma",
        72u8 => "Eta",
        73u8 => "Iota",
        74u8 => "theta1",
        75u8 => "Kappa",
        76u8 => "Lambda",
        77u8 => "Mu",
        78u8 => "Nu",
        79u8 => "Omicron",
        80u8 => "Pi",
        81u8 => "Theta",
        82u8 => "Rho",
        83u8 => "Sigma",
        84u8 => "Tau",
        85u8 => "Upsilon",
        86u8 => "sigma1",
        87u8 => "Omega",
        88u8 => "Xi",
        89u8 => "Psi",
        90u8 => "Zeta",
        92u8 => "therefore",
        94u8 => "perpendicular",
        96u8 => "radicalex",
        97u8 => "alpha",
        98u8 => "beta",
        99u8 => "chi",
        100u8 => "delta",
        101u8 => "epsilon",
        102u8 => "phi",
        103u8 => "gamma",
        104u8 => "eta",
        105u8 => "iota",
        106u8 => "phi1",
        107u8 => "kappa",
        108u8 => "lambda",
        109u8 => "mu",
        110u8 => "nu",
        111u8 => "omicron",
        112u8 => "pi",
        113u8 => "theta",
        114u8 => "rho",
        115u8 => "sigma",
        116u8 => "tau",
        117u8 => "upsilon",
        118u8 => "omega1",
        119u8 => "omega",
        120u8 => "xi",
        121u8 => "psi",
        122u8 => "zeta",
        126u8 => "similar",
        162u8 => "minute",
        163u8 => "lessequal",
        164u8 => "fraction",
        165u8 => "infinity",
        166u8 => "florin",
        168u8 => "diamond",
        169u8 => "heart",
        170u8 => "spade",
        171u8 => "arrowboth",
        172u8 => "arrowleft",
        173u8 => "arrowup",
        174u8 => "arrowright",
        175u8 => "arrowdown",
        176u8 => "degree",
        177u8 => "plusminus",
        178u8 => "second",
        179u8 => "greaterequal",
        180u8 => "multiply",
        181u8 => "proportional",
        182u8 => "partialdiff",
        183u8 => "bullet",
        184u8 => "divide",
        185u8 => "notequal",
        186u8 => "equivalence",
        187u8 => "approxequal",
        188u8 => "ellipsis",
        192u8 => "aleph",
        193u8 => "Ifraktur",
        194u8 => "Rfraktur",
        195u8 => "weierstrass",
        196u8 => "circlemultiply",
        197u8 => "circleplus",
        198u8 => "emptyset",
        199u8 => "intersection",
        200u8 => "union",
        201u8 => "propersuperset",
        202u8 => "reflexsuperset",
        203u8 => "notsubset",
        204u8 => "propersubset",
        205u8 => "reflexsubset",
        206u8 => "element",
        207u8 => "notelement",
        208u8 => "angle",
        209u8 => "gradient",
        213u8 => "product",
        214u8 => "radical",
        215u8 => "dotmath",
        216u8 => "logicalnot",
        217u8 => "logicaland",
        218u8 => "logicalor",
        219u8 => "arrowdblboth",
        220u8 => "arrowdblleft",
        221u8 => "arrowdblup",
        222u8 => "arrowdblright",
        223u8 => "arrowdbldown",
        229u8 => "summation",
        242u8 => "integral",
        _ => if 32 <= code && code <= 126 {
            ascii_name_str(code)
        } else {
            ""
        },
    }
}

/// Entries of the Adobe Glyph List subset.
pub open spec fn agl_len() -> int {
    344
}

/// The glyph list, sorted by name: entry `i`'s name and character.
pub open spec fn agl_entry(i: int) -> (Seq<char>, char) {
    if i < 0 {
        (""@, ' ')
    }
    else if i == 0 {
        ("A"@, 'A')
    }
    else if i == 1 {
        ("AE"@, 'Æ')
    }
    else if i == 2 {
        ("Aacute"@, 'Á')
    }
    else if i == 3 {
        ("Acircumflex"@, 'Â')
    }
    else if i == 4 {
        ("Adieresis"@, 'Ä')
    }
    else if i == 5 {
        ("Agrave"@, 'À')
    }
    else if i == 6 {
        ("Alpha"@, 'Α')
    }
    else if i == 7 {
        ("Aring"@, 'Å')
    }
    else if i == 8 {
        ("Atilde"@, 'Ã')
    }
    else if i == 9 {
        ("B"@, 'B')
    }
    else if i == 10 {
        ("Beta"@, 'Β')
    }
    else if i == 11 {
        ("C"@, 'C')
    }
    else if i == 12 {
        ("Ccedilla"@, 'Ç')
    }
    else if i == 13 {
        ("Chi"@, 'Χ')
    }
    else if i == 14 {
        ("D"@, 'D')
    }
    else if i == 15 {
        ("Delta"@, 'Δ')
    }
    else if i == 16 {
        ("E"@, 'E')
    }
    else if i == 17 {
        ("Eacute"@, 'É')
    }
    else if i == 18 {
        ("Ecircumflex"@, 'Ê')
    }
    else if i == 19 {
        ("Edieresis"@, 'Ë')
    }
    else if i == 20 {
        ("Egrave"@, 'È')
    }
    else if i == 21 {
        ("Epsilon"@, 'Ε')
    }
    else if i == 22 {
        ("Eta"@, 'Η')
    }
    else if i == 23 {
        ("Eth"@, 'Ð')
    }
    else if i == 24 {
        ("Euro"@, '€')
    }
    else if i == 25 {
        ("F"@, 'F')
    }
    else if i == 26 {
        ("G"@, 'G')
    }
    else if i == 27 {
        ("Gamma"@, 'Γ')
    }
    else if i == 28 {
        ("H"@, 'H')
    }
    else if i == 29 {
        ("I"@, 'I')
    }
    else if i == 30 {
        ("Iacute"@, 'Í')
    }
    else if i == 31 {
        ("Icircumflex"@, 'Î')
    }
    else if i == 32 {
        ("Idieresis"@, 'Ï')
    }
    else if i == 33 {
        ("Ifraktur"@, 'ℑ')
    }
    else if i == 34 {
        ("Igrave"@, 'Ì')
    }
    else if i == 35 {
        ("Iota"@, 'Ι')
    }
    else if i == 36 {
        ("J"@, 'J')
    }
    else if i == 37 {
        ("K"@, 'K')
    }
    else if i == 38 {
        ("Kappa"@, 'Κ')
    }
    else if i == 39 {
        ("L"@, 'L')
    }
    else if i == 40 {
        ("Lambda"@, 'Λ')
    }
    else if i == 41 {
        ("Lslash"@, 'Ł')
    }
    else if i == 42 {
        ("M"@, 'M')
    }
    else if i == 43 {
        ("Mu"@, 'Μ')
    }
    else if i == 44 {
        ("N"@, 'N')
    }
    else if i == 45 {
        ("Ntilde"@, 'Ñ')
    }
    else if i == 46 {
        ("Nu"@, 'Ν')
    }
    else if i == 47 {
        ("O"@, 'O')
    }
    else if i == 48 {
        ("OE"@, 'Œ')
    }
    else if i == 49 {
        ("Oacute"@, 'Ó')
    }
    else if i == 50 {
        ("Ocircumflex"@, 'Ô')
    }
    else if i == 51 {
        ("Odieresis"@, 'Ö')
    }
    else if i == 52 {
        ("Ograve"@, 'Ò')
    }
    else if i == 53 {
        ("Omega"@, 'Ω')
    }
    else if i == 54 {
        ("Omicron"@, 'Ο')
    }
    else if i == 55 {
        ("Oslash"@, 'Ø')
    }
    else if i == 56 {
        ("Otilde"@, 'Õ')
    }
    else if i == 57 {
        ("P"@, 'P')
    }
    else if i == 58 {
        ("Phi"@, 'Φ')
    }
    else if i == 59 {
        ("Pi"@, 'Π')
    }
    else if i == 60 {
        ("Psi"@, 'Ψ')
    }
    else if i == 61 {
        ("Q"@, 'Q')
    }
    else if i == 62 {
        ("R"@, 'R')
    }
    else if i == 63 {
        ("Rfraktur"@, 'ℜ')
    }
    else if i == 64 {
        ("Rho"@, 'Ρ')
    }
    else if i == 65 {
        ("S"@, 'S')
    }
    else if i == 66 {
        ("Scaron"@, 'Š')
    }
    else if i == 67 {
        ("Sigma"@, 'Σ')
    }
    else if i == 68 {
        ("T"@, 'T')
    }
    else if i == 69 {
        ("Tau"@, 'Τ')
    }
    else if i == 70 {
        ("Theta"@, 'Θ')
    }
    else if i == 71 {
        ("Thorn"@, 'Þ')
    }
    else if i == 72 {
        ("U"@, 'U')
    }
    else if i == 73 {
        ("Uacute"@, 'Ú')
    }
    else if i == 74 {
        ("Ucircumflex"@, 'Û')
    }
    else if i == 75 {
        ("Udieresis"@, 'Ü')
    }
    else if i == 76 {
        ("Ugrave"@, 'Ù')
    }
    else if i == 77 {
        ("Upsilon"@, 'Υ')
    }
    else if i == 78 {
        ("V"@, 'V')
    }
    else if i == 79 {
        ("W"@, 'W')
    }
    else if i == 80 {
        ("X"@, 'X')
    }
    else if i == 81 {
        ("Xi"@, 'Ξ')
    }
    else if i == 82 {
        ("Y"@, 'Y')
    }
    else if i == 83 {
        ("Yacute"@, 'Ý')
    }
    else if i == 84 {
        ("Ydieresis"@, 'Ÿ')
    }
    else if i == 85 {
        ("Z"@, 'Z')
    }
    else if i == 86 {
        ("Zcaron"@, 'Ž')
    }
    else if i == 87 {
        ("Zeta"@, 'Ζ')
    }
    else if i == 88 {
        ("a"@, 'a')
    }
    else if i == 89 {
        ("aacute"@, 'á')
    }
    else if i == 90 {
        ("acircumflex"@, 'â')
    }
    else if i == 91 {
        ("acute"@, '´')
    }
    else if i == 92 {
        ("adieresis"@, 'ä')
    }
    else if i == 93 {
        ("ae"@, 'æ')
    }
    else if i == 94 {
        ("agrave"@, 'à')
    }
    else if i == 95 {
        ("aleph"@, 'ℵ')
    }
    else if i == 96 {
        ("alpha"@, 'α')
    }
    else if i == 97 {
        ("ampersand"@, '&')
    }
    else if i == 98 {
        ("angle"@, '∠')
    }
    else if i == 99 {
        ("angleleft"@, '⟨')
    }
    else if i == 100 {
        ("angleright"@, '⟩')
    }
    else if i == 101 {
        ("approxequal"@, '≈')
    }
    else if i == 102 {
        ("aring"@, 'å')
    }
    else if i == 103 {
        ("arrowboth"@, '↔')
    }
    else if i == 104 {
        ("arrowdblboth"@, '⇔')
    }
    else if i == 105 {
        ("arrowdbldown"@, '⇓')
    }
    else if i == 106 {
        ("arrowdblleft"@, '⇐')
    }
    else if i == 107 {
        ("arrowdblright"@, '⇒')
    }
    else if i == 108 {
        ("arrowdblup"@, '⇑')
    }
    else if i == 109 {
        ("arrowdown"@, '↓')
    }
    else if i == 110 {
        ("arrowleft"@, '←')
    }
    else if i == 111 {
        ("arrowright"@, '→')
    }
    else if i == 112 {
        ("arrowup"@, '↑')
    }
    else if i == 113 {
        ("asciicircum"@, '^')
    }
    else if i == 114 {
        ("asciitilde"@, '~')
    }
    else if i == 115 {
        ("asterisk"@, '*')
    }
    else if i == 116 {
        ("asteriskmath"@, '∗')
    }
    else if i == 117 {
        ("at"@, '@')
    }
    else if i == 118 {
        ("atilde"@, 'ã')
    }
    else if i == 119 {
        ("b"@, 'b')
    }
    else if i == 120 {
        ("backslash"@, '\\')
    }
    else if i == 121 {
        ("bar"@, '|')
    }
    else if i == 122 {
        ("beta"@, 'β')
    }
    else if i == 123 {
        ("braceleft"@, '{')
    }
    else if i == 124 {
        ("braceright"@, '}')
    }
    else if i == 125 {
        ("bracketleft"@, '[')
    }
    else if i == 126 {
        ("bracketright"@, ']')
    }
    else if i == 127 {
        ("breve"@, '˘')
    }
    else if i == 128 {
        ("brokenbar"@, '¦')
    }
    else if i == 129 {
        ("bullet"@, '•')
    }
    else if i == 130 {
        ("c"@, 'c')
    }
    else if i == 131 {
        ("caron"@, 'ˇ')
    }
    else if i == 132 {
        ("ccedilla"@, 'ç')
    }
    else if i == 133 {
        ("cedilla"@, '¸')
    }
    else if i == 134 {
        ("cent"@, '¢')
    }
    else if i == 135 {
        ("chi"@, 'χ')
    }
    else if i == 136 {
        ("circlemultiply"@, '⊗')
    }
    else if i == 137 {
        ("circleplus"@, '⊕')
    }
    else if i == 138 {
        ("circumflex"@, 'ˆ')
    }
    else if i == 139 {
        ("club"@, '♣')
    }
    else if i == 140 {
        ("colon"@, ':')
    }
    else if i == 141 {
        ("comma"@, ',')
    }
    else if i == 142 {
        ("congruent"@, '≅')
    }
    else if i == 143 {
        ("copyright"@, '©')
    }
    else if i == 144 {
        ("currency"@, '¤')
    }
    else if i == 145 {
        ("d"@, 'd')
    }
    else if i == 146 {
        ("dagger"@, '†')
    }
    else if i == 147 {
        ("daggerdbl"@, '‡')
    }
    else if i == 148 {
        ("degree"@, '°')
    }
    else if i == 149 {
        ("delta"@, 'δ')
    }
    else if i == 150 {
        ("diamond"@, '♦')
    }
    else if i == 151 {
        ("dieresis"@, '¨')
    }
    else if i == 152 {
        ("divide"@, '÷')
    }
    else if i == 153 {
        ("dollar"@, '$')
    }
    else if i == 154 {
        ("dotaccent"@, '˙')
    }
    else if i == 155 {
        ("dotlessi"@, 'ı')
    }
    else if i == 156 {
        ("dotlessj"@, 'ȷ')
    }
    else if i == 157 {
        ("dotmath"@, '⋅')
    }
    else if i == 158 {
        ("e"@, 'e')
    }
    else if i == 159 {
        ("eacute"@, 'é')
    }
    else if i == 160 {
        ("ecircumflex"@, 'ê')
    }
    else if i == 161 {
        ("edieresis"@, 'ë')
    }
    else if i == 162 {
        ("egrave"@, 'è')
    }
    else if i == 163 {
        ("eight"@, '8')
    }
    else if i == 164 {
        ("element"@, '∈')
    }
    else if i == 165 {
        ("ellipsis"@, '…')
    }
    else if i == 166 {
        ("emdash"@, '—')
    }
    else if i == 167 {
        ("emptyset"@, '∅')
    }
    else if i == 168 {
        ("endash"@, '–')
    }
    else if i == 169 {
        ("epsilon"@, 'ε')
    }
    else if i == 170 {
        ("equal"@, '=')
    }
    else if i == 171 {
        ("equivalence"@, '≡')
    }
    else if i == 172 {
        ("eta"@, 'η')
    }
    else if i == 173 {
        ("eth"@, 'ð')
    }
    else if i == 174 {
        ("exclam"@, '!')
    }
    else if i == 175 {
        ("exclamdown"@, '¡')
    }
    else if i == 176 {
        ("existential"@, '∃')
    }
    else if i == 177 {
        ("f"@, 'f')
    }
    else if i == 178 {
        ("ff"@, 'ﬀ')
    }
    else if i == 179 {
        ("ffi"@, 'ﬃ')
    }
    else if i == 180 {
        ("ffl"@, 'ﬄ')
    }
    else if i == 181 {
        ("fi"@, 'ﬁ')
    }
    else if i == 182 {
        ("five"@, '5')
    }
    else if i == 183 {
        ("fl"@, 'ﬂ')
    }
    else if i == 184 {
        ("florin"@, 'ƒ')
    }
    else if i == 185 {
        ("four"@, '4')
    }
    else if i == 186 {
        ("fraction"@, '⁄')
    }
    else if i == 187 {
        ("g"@, 'g')
    }
    else if i == 188 {
        ("gamma"@, 'γ')
    }
    else if i == 189 {
        ("germandbls"@, 'ß')
    }
    else if i == 190 {
        ("gradient"@, '∇')
    }
    else if i == 191 {
        ("grave"@, '`')
    }
    else if i == 192 {
        ("greater"@, '>')
    }
    else if i == 193 {
        ("greaterequal"@, '≥')
    }
    else if i == 194 {
        ("guillemotleft"@, '«')
    }
    else if i == 195 {
        ("guillemotright"@, '»')
    }
    else if i == 196 {
        ("guilsinglleft"@, '‹')
    }
    else if i == 197 {
        ("guilsinglright"@, '›')
    }
    else if i == 198 {
        ("h"@, 'h')
    }
    else if i == 199 {
        ("heart"@, '♥')
    }
    else if i == 200 {
        ("hungarumlaut"@, '˝')
    }
    else if i == 201 {
        ("hyphen"@, '-')
    }
    else if i == 202 {
        ("i"@, 'i')
    }
    else if i == 203 {
        ("iacute"@, 'í')
    }
    else if i == 204 {
        ("icircumflex"@, 'î')
    }
    else if i == 205 {
        ("idieresis"@, 'ï')
    }
    else if i == 206 {
        ("igrave"@, 'ì')
    }
    else if i == 207 {
        ("infinity"@, '∞')
    }
    else if i == 208 {
        ("integral"@, '∫')
    }
    else if i == 209 {
        ("intersection"@, '∩')
    }
    else if i == 210 {
        ("iota"@, 'ι')
    }
    else if i == 211 {
        ("j"@, 'j')
    }
    else if i == 212 {
        ("k"@, 'k')
    }
    else if i == 213 {
        ("kappa"@, 'κ')
    }
    else if i == 214 {
        ("l"@, 'l')
    }
    else if i == 215 {
        ("lambda"@, 'λ')
    }
    else if i == 216 {
        ("less"@, '<')
    }
    else if i == 217 {
        ("lessequal"@, '≤')
    }
    else if i == 218 {
        ("logicaland"@, '∧')
    }
    else if i == 219 {
        ("logicalnot"@, '¬')
    }
    else if i == 220 {
        ("logicalor"@, '∨')
    }
    else if i == 221 {
        ("lozenge"@, '◊')
    }
    else if i == 222 {
        ("lslash"@, 'ł')
    }
    else if i == 223 {
        ("m"@, 'm')
    }
    else if i == 224 {
        ("macron"@, '¯')
    }
    else if i == 225 {
        ("minus"@, '−')
    }
    else if i == 226 {
        ("minute"@, '′')
    }
    else if i == 227 {
        ("mu"@, 'µ')
    }
    else if i == 228 {
        ("multiply"@, '×')
    }
    else if i == 229 {
        ("n"@, 'n')
    }
    else if i == 230 {
        ("nine"@, '9')
    }
    else if i == 231 {
        ("notelement"@, '∉')
    }
    else if i == 232 {
        ("notequal"@, '≠')
    }
    else if i == 233 {
        ("notsubset"@, '⊄')
    }
    else if i == 234 {
        ("ntilde"@, 'ñ')
    }
    else if i == 235 {
        ("nu"@, 'ν')
    }
    else if i == 236 {
        ("numbersign"@, '#')
    }
    else if i == 237 {
        ("o"@, 'o')
    }
    else if i == 238 {
        ("oacute"@, 'ó')
    }
    else if i == 239 {
        ("ocircumflex"@, 'ô')
    }
    else if i == 240 {
        ("odieresis"@, 'ö')
    }
    else if i == 241 {
        ("oe"@, 'œ')
    }
    else if i == 242 {
        ("ogonek"@, '˛')
    }
    else if i == 243 {
        ("ograve"@, 'ò')
    }
    else if i == 244 {
        ("omega"@, 'ω')
    }
    else if i == 245 {
        ("omega1"@, 'ϖ')
    }
    else if i == 246 {
        ("omicron"@, 'ο')
    }
    else if i == 247 {
        ("one"@, '1')
    }
    else if i == 248 {
        ("onehalf"@, '½')
    }
    else if i == 249 {
        ("onequarter"@, '¼')
    }
    else if i == 250 {
        ("onesuperior"@, '¹')
    }
    else if i == 251 {
        ("ordfeminine"@, 'ª')
    }
    else if i == 252 {
        ("ordmasculine"@, 'º')
    }
    else if i == 253 {
        ("oslash"@, 'ø')
    }
    else if i == 254 {
        ("otilde"@, 'õ')
    }
    else if i == 255 {
        ("p"@, 'p')
    }
    else if i == 256 {
        ("paragraph"@, '¶')
    }
    else if i == 257 {
        ("parenleft"@, '(')
    }
    else if i == 258 {
        ("parenright"@, ')')
    }
    else if i == 259 {
        ("partialdiff"@, '∂')
    }
    else if i == 260 {
        ("percent"@, '%')
    }
    else if i == 261 {
        ("period"@, '.')
    }
    else if i == 262 {
        ("periodcentered"@, '·')
    }
    else if i == 263 {
        ("perpendicular"@, '⊥')
    }
    else if i == 264 {
        ("perthousand"@, '‰')
    }
    else if i == 265 {
        ("phi"@, 'φ')
    }
    else if i == 266 {
        ("phi1"@, 'ϕ')
    }
    else if i == 267 {
        ("pi"@, 'π')
    }
    else if i == 268 {
        ("plus"@, '+')
    }
    else if i == 269 {
        ("plusminus"@, '±')
    }
    else if i == 270 {
        ("product"@, '∏')
    }
    else if i == 271 {
        ("propersubset"@, '⊂')
    }
    else if i == 272 {
        ("propersuperset"@, '⊃')
    }
    else if i == 273 {
        ("proportional"@, '∝')
    }
    else if i == 274 {
        ("psi"@, 'ψ')
    }
    else if i == 275 {
        ("q"@, 'q')
    }
    else if i == 276 {
        ("question"@, '?')
    }
    else if i == 277 {
        ("questiondown"@, '¿')
    }
    else if i == 278 {
        ("quotedbl"@, '"')
    }
    else if i == 279 {
        ("quotedblbase"@, '„')
    }
    else if i == 280 {
        ("quotedblleft"@, '“')
    }
    else if i == 281 {
        ("quotedblright"@, '”')
    }
    else if i == 282 {
        ("quoteleft"@, '‘')
    }
    else if i == 283 {
        ("quoteright"@, '’')
    }
    else if i == 284 {
        ("quotesinglbase"@, '‚')
    }
    else if i == 285 {
        ("quotesingle"@, '\'')
    }
    else if i == 286 {
        ("r"@, 'r')
    }
    else if i == 287 {
        ("radical"@, '√')
    }
    else if i == 288 {
        ("radicalex"@, '‾')
    }
    else if i == 289 {
        ("reflexsubset"@, '⊆')
    }
    else if i == 290 {
        ("reflexsuperset"@, '⊇')
    }
    else if i == 291 {
        ("registered"@, '®')
    }
    else if i == 292 {
        ("rho"@, 'ρ')
    }
    else if i == 293 {
        ("ring"@, '˚')
    }
    else if i == 294 {
        ("s"@, 's')
    }
    else if i == 295 {
        ("scaron"@, 'š')
    }
    else if i == 296 {
        ("second"@, '″')
    }
    else if i == 297 {
        ("section"@, '§')
    }
    else if i == 298 {
        ("semicolon"@, ';')
    }
    else if i == 299 {
        ("seven"@, '7')
    }
    else if i == 300 {
        ("sigma"@, 'σ')
    }
    else if i == 301 {
        ("sigma1"@, 'ς')
    }
    else if i == 302 {
        ("similar"@, '∼')
    }
    else if i == 303 {
        ("six"@, '6')
    }
    else if i == 304 {
        ("slash"@, '/')
    }
    else if i == 305 {
        ("space"@, ' ')
    }
    else if i == 306 {
        ("spade"@, '♠')
    }
    else if i == 307 {
        ("sterling"@, '£')
    }
    else if i == 308 {
        ("suchthat"@, '∋')
    }
    else if i == 309 {
        ("summation"@, '∑')
    }
    else if i == 310 {
        ("t"@, 't')
    }
    else if i == 311 {
        ("tau"@, 'τ')
    }
    else if i == 312 {
        ("theta"@, 'θ')
    }
    else if i == 313 {
        ("theta1"@, 'ϑ')
    }
    else if i == 314 {
        ("thorn"@, 'þ')
    }
    else if i == 315 {
        ("three"@, '3')
    }
    else if i == 316 {
        ("threequarters"@, '¾')
    }
    else if i == 317 {
        ("threesuperior"@, '³')
    }
    else if i == 318 {
        ("tilde"@, '˜')
    }
    else if i == 319 {
        ("trademark"@, '™')
    }
    else if i == 320 {
        ("two"@, '2')
    }
    else if i == 321 {
        ("twosuperior"@, '²')
    }
    else if i == 322 {
        ("u"@, 'u')
    }
    else if i == 323 {
        ("uacute"@, 'ú')
    }
    else if i == 324 {
        ("ucircumflex"@, 'û')
    }
    else if i == 325 {
        ("udieresis"@, 'ü')
    }
    else if i == 326 {
        ("ugrave"@, 'ù')
    }
    else if i == 327 {
        ("underscore"@, '_')
    }
    else if i == 328 {
        ("union"@, '∪')
    }
    else if i == 329 {
        ("universal"@, '∀')
    }
    else if i == 330 {
        ("upsilon"@, 'υ')
    }
    else if i == 331 {
        ("v"@, 'v')
    }
    else if i == 332 {
        ("w"@, 'w')
    }
    else if i == 333 {
        ("weierstrass"@, '℘')
    }
    else if i == 334 {
        ("x"@, 'x')
    }
    else if i == 335 {
        ("xi"@, 'ξ')
    }
    else if i == 336 {
        ("y"@, 'y')
    }
    else if i == 337 {
        ("yacute"@, 'ý')
    }
    else if i == 338 {
        ("ydieresis"@, 'ÿ')
    }
    else if i == 339 {
        ("yen"@, '¥')
    }
    else if i == 340 {
        ("z"@, 'z')
    }
    else if i == 341 {
        ("zcaron"@, 'ž')
    }
    else if i == 342 {
        ("zero"@, '0')
    }
    else if i == 343 {
        ("zeta"@, 'ζ')
    }
    else {
        (""@, ' ')
    }
}

/// Entry `i` of the glyph list.
pub fn agl_entry_at(i: usize) -> (r: (&'static str, char))
    requires
        i < agl_len(),
    ensures
        r.0@ == agl_entry(i as int).0,
        r.1 == agl_entry(i as int).1,
{
    match i {
        0usize => ("A", 'A'),
        1usize => ("AE", 'Æ'),
        2usize => ("Aacute", 'Á'),
        3usize => ("Acircumflex", 'Â'),
        4usize => ("Adieresis", 'Ä'),
        5usize => ("Agrave", 'À'),
        6usize => ("Alpha", 'Α'),
        7usize => ("Aring", 'Å'),
        8usize => ("Atilde", 'Ã'),
        9usize => ("B", 'B'),
        10usize => ("Beta", 'Β'),
        11usize => ("C", 'C'),
        12usize => ("Ccedilla", 'Ç'),
        13usize => ("Chi", 'Χ'),
        14usize => ("D", 'D'),
        15usize => ("Delta", 'Δ'),
        16usize => ("E", 'E'),
        17usize => ("Eacute", 'É'),
        18usize => ("Ecircumflex", 'Ê'),
        19usize => ("Edieresis", 'Ë'),
        20usize => ("Egrave", 'È'),
        21usize => ("Epsilon", 'Ε'),
        22usize => ("Eta", 'Η'),
        23usize => ("Eth", 'Ð'),
        24usize => ("Euro", '€'),
        25usize => ("F", 'F'),
        26usize => ("G", 'G'),
        27usize => ("Gamma", 'Γ'),
        28usize => ("H", 'H'),
        29usize => ("I", 'I'),
        30usize => ("Iacute", 'Í'),
        31usize => ("Icircumflex", 'Î'),
        32usize => ("Idieresis", 'Ï'),
        33usize => ("Ifraktur", 'ℑ'),
        34usize => ("Igrave", 'Ì'),
        35usize => ("Iota", 'Ι'),
        36usize => ("J", 'J'),
        37usize => ("K", 'K'),
        38usize => ("Kappa", 'Κ'),
        39usize => ("L", 'L'),
        40usize => ("Lambda", 'Λ'),
        41usize => ("Lslash", 'Ł'),
        42usize => ("M", 'M'),
        43usize => ("Mu", 'Μ'),
        44usize => ("N", 'N'),
        45usize => ("Ntilde", 'Ñ'),
        46usize => ("Nu", 'Ν'),
        47usize => ("O", 'O'),
        48usize => ("OE", 'Œ'),
        49usize => ("Oacute", 'Ó'),
        50usize => ("Ocircumflex", 'Ô'),
        51usize => ("Odieresis", 'Ö'),
        52usize => ("Ograve", 'Ò'),
        53usize => ("Omega", 'Ω'),
        54usize => ("Omicron", 'Ο'),
        55usize => ("Oslash", 'Ø'),
        56usize => ("Otilde", 'Õ'),
        57usize => ("P", 'P'),
        58usize => ("Phi", 'Φ'),
        59usize => ("Pi", 'Π'),
        60usize => ("Psi", 'Ψ'),
        61usize => ("Q", 'Q'),
        62usize => ("R", 'R'),
        63usize => ("Rfraktur", 'ℜ'),
        64usize => ("Rho", 'Ρ'),
        65usize => ("S", 'S'),
        66usize => ("Scaron", 'Š'),
        67usize => ("Sigma", 'Σ'),
        68usize => ("T", 'T'),
        69usize => ("Tau", 'Τ'),
        70usize => ("Theta", 'Θ'),
        71usize => ("Thorn", 'Þ'),
        72usize => ("U", 'U'),
        73usize => ("Uacute", 'Ú'),
        74usize => ("Ucircumflex", 'Û'),
        75usize => ("Udieresis", 'Ü'),
        76usize => ("Ugrave", 'Ù'),
        77usize => ("Upsilon", 'Υ'),
        78usize => ("V", 'V'),
        79usize => ("W", 'W'),
        80usize => ("X", 'X'),
        81usize => ("Xi", 'Ξ'),
        82usize => ("Y", 'Y'),
        83usize => ("Yacute", 'Ý'),
        84usize => ("Ydieresis", 'Ÿ'),
        85usize => ("Z", 'Z'),
        86usize => ("Zcaron", 'Ž'),
        87usize => ("Zeta", 'Ζ'),
        88usize => ("a", 'a'),
        89usize => ("aacute", 'á'),
        90usize => ("acircumflex", 'â'),
        91usize => ("acute", '´'),
        92usize => ("adieresis", 'ä'),
        93usize => ("ae", 'æ'),
        94usize => ("agrave", 'à'),
        95usize => ("aleph", 'ℵ'),
        96usize => ("alpha", 'α'),
        97usize => ("ampersand", '&'),
        98usize => ("angle", '∠'),
        99usize => ("angleleft", '⟨'),
        100usize => ("angleright", '⟩'),
        101usize => ("approxequal", '≈'),
        102usize => ("aring", 'å'),
        103usize => ("arrowboth", '↔'),
        104usize => ("arrowdblboth", '⇔'),
        105usize => ("arrowdbldown", '⇓'),
        106usize => ("arrowdblleft", '⇐'),
        107usize => ("arrowdblright", '⇒'),
        108usize => ("arrowdblup", '⇑'),
        109usize => ("arrowdown", '↓'),
        110usize => ("arrowleft", '←'),
        111usize => ("arrowright", '→'),
        112usize => ("arrowup", '↑'),
        113usize => ("asciicircum", '^'),
        114usize => ("asciitilde", '~'),
        115usize => ("asterisk", '*'),
        116usize => ("asteriskmath", '∗'),
        117usize => ("at", '@'),
        118usize => ("atilde", 'ã'),
        119usize => ("b", 'b'),
        120usize => ("backslash", '\\'),
        121usize => ("bar", '|'),
        122usize => ("beta", 'β'),
        123usize => ("braceleft", '{'),
        124usize => ("braceright", '}'),
        125usize => ("bracketleft", '['),
        126usize => ("bracketright", ']'),
        127usize => ("breve", '˘'),
        128usize => ("brokenbar", '¦'),
        129usize => ("bullet", '•'),
        130usize => ("c", 'c'),
        131usize => ("caron", 'ˇ'),
        132usize => ("ccedilla", 'ç'),
        133usize => ("cedilla", '¸'),
        134usize => ("cent", '¢'),
        135usize => ("chi", 'χ'),
        136usize => ("circlemultiply", '⊗'),
        137usize => ("circleplus", '⊕'),
        138usize => ("circumflex", 'ˆ'),
        139usize => ("club", '♣'),
        140usize => ("colon", ':'),
        141usize => ("comma", ','),
        142usize => ("congruent", '≅'),
        143usize => ("copyright", '©'),
        144usize => ("currency", '¤'),
        145usize => ("d", 'd'),
        146usize => ("dagger", '†'),
        147usize => ("daggerdbl", '‡'),
        148usize => ("degree", '°'),
        149usize => ("delta", 'δ'),
        150usize => ("diamond", '♦'),
        151usize => ("dieresis", '¨'),
        152usize => ("divide", '÷'),
        153usize => ("dollar", '$'),
        154usize => ("dotaccent", '˙'),
        155usize => ("dotlessi", 'ı'),
        156usize => ("dotlessj", 'ȷ'),
        157usize => ("dotmath", '⋅'),
        158usize => ("e", 'e'),
        159usize => ("eacute", 'é'),
        160usize => ("ecircumflex", 'ê'),
        161usize => ("edieresis", 'ë'),
        162usize => ("egrave", 'è'),
        163usize => ("eight", '8'),
        164usize => ("element", '∈'),
        165usize => ("ellipsis", '…'),
        166usize => ("emdash", '—'),
        167usize => ("emptyset", '∅'),
        168usize => ("endash", '–'),
        169usize => ("epsilon", 'ε'),
        170usize => ("equal", '='),
        171usize => ("equivalence", '≡'),
        172usize => ("eta", 'η'),
        173usize => ("eth", 'ð'),
        174usize => ("exclam", '!'),
        175usize => ("exclamdown", '¡'),
        176usize => ("existential", '∃'),
        177usize => ("f", 'f'),
        178usize => ("ff", 'ﬀ'),
        179usize => ("ffi", 'ﬃ'),
        180usize => ("ffl", 'ﬄ'),
        181usize => ("fi", 'ﬁ'),
        182usize => ("five", '5'),
        183usize => ("fl", 'ﬂ'),
        184usize => ("florin", 'ƒ'),
        185usize => ("four", '4'),
        186usize => ("fraction", '⁄'),
        187usize => ("g", 'g'),
        188usize => ("gamma", 'γ'),
        189usize => ("germandbls", 'ß'),
        190usize => ("gradient", '∇'),
        191usize => ("grave", '`'),
        192usize => ("greater", '>'),
        193usize => ("greaterequal", '≥'),
        194usize => ("guillemotleft", '«'),
        195usize => ("guillemotright", '»'),
        196usize => ("guilsinglleft", '‹'),
        197usize => ("guilsinglright", '›'),
        198usize => ("h", 'h'),
        199usize => ("heart", '♥'),
        200usize => ("hungarumlaut", '˝'),
        201usize => ("hyphen", '-'),
        202usize => ("i", 'i'),
        203usize => ("iacute", 'í'),
        204usize => ("icircumflex", 'î'),
        205usize => ("idieresis", 'ï'),
        206usize => ("igrave", 'ì'),
        207usize => ("infinity", '∞'),
        208usize => ("integral", '∫'),
        209usize => ("intersection", '∩'),
        210usize => ("iota", 'ι'),
        211usize => ("j", 'j'),
        212usize => ("k", 'k'),
        213usize => ("kappa", 'κ'),
        214usize => ("l", 'l'),
        215usize => ("lambda", 'λ'),
        216usize => ("less", '<'),
        217usize => ("lessequal", '≤'),
        218usize => ("logicaland", '∧'),
        219usize => ("logicalnot", '¬'),
        220usize => ("logicalor", '∨'),
        221usize => ("lozenge", '◊'),
        222usize => ("lslash", 'ł'),
        223usize => ("m", 'm'),
        224usize => ("macron", '¯'),
        225usize => ("minus", '−'),
        226usize => ("minute", '′'),
        227usize => ("mu", 'µ'),
        228usize => ("multiply", '×'),
        229usize => ("n", 'n'),
        230usize => ("nine", '9'),
        231usize => ("notelement", '∉'),
        232usize => ("notequal", '≠'),
        233usize => ("notsubset", '⊄'),
        234usize => ("ntilde", 'ñ'),
        235usize => ("nu", 'ν'),
        236usize => ("numbersign", '#'),
        237usize => ("o", 'o'),
        238usize => ("oacute", 'ó'),
        239usize => ("ocircumflex", 'ô'),
        240usize => ("odieresis", 'ö'),
        241usize => ("oe", 'œ'),
        242usize => ("ogonek", '˛'),
        243usize => ("ograve", 'ò'),
        244usize => ("omega", 'ω'),
        245usize => ("omega1", 'ϖ'),
        246usize => ("omicron", 'ο'),
        247usize => ("one", '1'),
        248usize => ("onehalf", '½'),
        249usize => ("onequarter", '¼'),
        250usize => ("onesuperior", '¹'),
        251usize => ("ordfeminine", 'ª'),
        252usize => ("ordmasculine", 'º'),
        253usize => ("oslash", 'ø'),
        254usize => ("otilde", 'õ'),
        255usize => ("p", 'p'),
        256usize => ("paragraph", '¶'),
        257usize => ("parenleft", '('),
        258usize => ("parenright", ')'),
        259usize => ("partialdiff", '∂'),
        260usize => ("percent", '%'),
        261usize => ("period", '.'),
        262usize => ("periodcentered", '·'),
        263usize => ("perpendicular", '⊥'),
        264usize => ("perthousand", '‰'),
        265usize => ("phi", 'φ'),
        266usize => ("phi1", 'ϕ'),
        267usize => ("pi", 'π'),
        268usize => ("plus", '+'),
        269usize => ("plusminus", '±'),
        270usize => ("product", '∏'),
        271usize => ("propersubset", '⊂'),
        272usize => ("propersuperset", '⊃'),
        273usize => ("proportional", '∝'),
        274usize => ("psi", 'ψ'),
        275usize => ("q", 'q'),
        276usize => ("question", '?'),
        277usize => ("questiondown", '¿'),
        278usize => ("quotedbl", '"'),
        279usize => ("quotedblbase", '„'),
        280usize => ("quotedblleft", '“'),
        281usize => ("quotedblright", '”'),
        282usize => ("quoteleft", '‘'),
        283usize => ("quoteright", '’'),
        284usize => ("quotesinglbase", '‚'),
        285usize => ("quotesingle", '\''),
        286usize => ("r", 'r'),
        287usize => ("radical", '√'),
        288usize => ("radicalex", '‾'),
        289usize => ("reflexsubset", '⊆'),
        290usize => ("reflexsuperset", '⊇'),
        291usize => ("registered", '®'),
        292usize => ("rho", 'ρ'),
        293usize => ("ring", '˚'),
        294usize => ("s", 's'),
        295usize => ("scaron", 'š'),
        296usize => ("second", '″'),
        297usize => ("section", '§'),
        298usize => ("semicolon", ';'),
        299usize => ("seven", '7'),
        300usize => ("sigma", 'σ'),
        301usize => ("sigma1", 'ς'),
        302usize => ("similar", '∼'),
        303usize => ("six", '6'),
        304usize => ("slash", '/'),
        305usize => ("space", ' '),
        306usize => ("spade", '♠'),
        307usize => ("sterling", '£'),
        308usize => ("suchthat", '∋'),
        309usize => ("summation", '∑'),
        310usize => ("t", 't'),
        311usize => ("tau", 'τ'),
        312usize => ("theta", 'θ'),
        313usize => ("theta1", 'ϑ'),
        314usize => ("thorn", 'þ'),
        315usize => ("three", '3'),
        316usize => ("threequarters", '¾'),
        317usize => ("threesuperior", '³'),
        318usize => ("tilde", '˜'),
        319usize => ("trademark", '™'),
        320usize => ("two", '2'),
        321usize => ("twosuperior", '²'),
        322usize => ("u", 'u'),
        323usize => ("uacute", 'ú'),
        324usize => ("ucircumflex", 'û'),
        325usize => ("udieresis", 'ü'),
        326usize => ("ugrave", 'ù'),
        327usize => ("underscore", '_'),
        328usize => ("union", '∪'),
        329usize => ("universal", '∀'),
        330usize => ("upsilon", 'υ'),
        331usize => ("v", 'v'),
        332usize => ("w", 'w'),
        333usize => ("weierstrass", '℘'),
        334usize => ("x", 'x'),
        335usize => ("xi", 'ξ'),
        336usize => ("y", 'y'),
        337usize => ("yacute", 'ý'),
        338usize => ("ydieresis", 'ÿ'),
        339usize => ("yen", '¥'),
        340usize => ("z", 'z'),
        341usize => ("zcaron", 'ž'),
        342usize => ("zero", '0'),
        343usize => ("zeta", 'ζ'),
        _ => ("", ' '),
    }
}

/// How many entries the glyph list has.
pub fn agl_count() -> (r: usize)
    ensures
        r == agl_len(),
{
    344
}

pub open spec fn math_len() -> int {
    30
}

/// Names used by TeX's mathematics fonts that no standard glyph list carries: entry `i`'s
/// name and text.
pub open spec fn math_entry(i: int) -> (Seq<char>, Seq<char>) {
    if i < 0 {
        (""@, ""@)
    }
    else if i == 0 {
        ("angbracketleft"@, "\u{27E8}"@)
    }
    else if i == 1 {
        ("angbracketright"@, "\u{27E9}"@)
    }
    else if i == 2 {
        ("arrowhookleft"@, "\u{21A9}"@)
    }
    else if i == 3 {
        ("arrowhookright"@, "\u{21AA}"@)
    }
    else if i == 4 {
        ("arrowlefttophalf"@, "\u{21BC}"@)
    }
    else if i == 5 {
        ("arrowrighttophalf"@, "\u{21C0}"@)
    }
    else if i == 6 {
        ("bardbl"@, "\u{2016}"@)
    }
    else if i == 7 {
        ("braceleft"@, "{"@)
    }
    else if i == 8 {
        ("braceright"@, "}"@)
    }
    else if i == 9 {
        ("ceilingleft"@, "\u{2308}"@)
    }
    else if i == 10 {
        ("ceilingright"@, "\u{2309}"@)
    }
    else if i == 11 {
        ("circlecopyrt"@, "\u{00A9}"@)
    }
    else if i == 12 {
        ("circledivide"@, "\u{2298}"@)
    }
    else if i == 13 {
        ("circledot"@, "\u{2299}"@)
    }
    else if i == 14 {
        ("circleminus"@, "\u{2296}"@)
    }
    else if i == 15 {
        ("contintegral"@, "\u{222E}"@)
    }
    else if i == 16 {
        ("coproduct"@, "\u{2210}"@)
    }
    else if i == 17 {
        ("floorleft"@, "\u{230A}"@)
    }
    else if i == 18 {
        ("floorright"@, "\u{230B}"@)
    }
    else if i == 19 {
        ("intersection"@, "\u{2229}"@)
    }
    else if i == 20 {
        ("logicaland"@, "\u{2227}"@)
    }
    else if i == 21 {
        ("logicalor"@, "\u{2228}"@)
    }
    else if i == 22 {
        ("negationslash"@, "\u{2044}"@)
    }
    else if i == 23 {
        ("owner"@, "\u{220B}"@)
    }
    else if i == 24 {
        ("summation"@, "\u{2211}"@)
    }
    else if i == 25 {
        ("union"@, "\u{222A}"@)
    }
    else if i == 26 {
        ("unionmulti"@, "\u{228E}"@)
    }
    else if i == 27 {
        ("uniondbl"@, "\u{228C}"@)
    }
    else if i == 28 {
        ("vextenddouble"@, "\u{2016}"@)
    }
    else if i == 29 {
        ("vextendsingle"@, "|"@)
    }
    else {
        (""@, ""@)
    }
}

fn math_entry_at(i: usize) -> (r: (&'static str, &'static str))
    requires
        i < math_len(),
    ensures
        r.0@ == math_entry(i as int).0,
        r.1@ == math_entry(i as int).1,
{
    match i {
        0usize => ("angbracketleft", "\u{27E8}"),
        1usize => ("angbracketright", "\u{27E9}"),
        2usize => ("arrowhookleft", "\u{21A9}"),
        3usize => ("arrowhookright", "\u{21AA}"),
        4usize => ("arrowlefttophalf", "\u{21BC}"),
        5usize => ("arrowrighttophalf", "\u{21C0}"),
        6usize => ("bardbl", "\u{2016}"),
        7usize => ("braceleft", "{"),
        8usize => ("braceright", "}"),
        9usize => ("ceilingleft", "\u{2308}"),
        10usize => ("ceilingright", "\u{2309}"),
        11usize => ("circlecopyrt", "\u{00A9}"),
        12usize => ("circledivide", "\u{2298}"),
        13usize => ("circledot", "\u{2299}"),
        14usize => ("circleminus", "\u{2296}"),
        15usize => ("contintegral", "\u{222E}"),
        16usize => ("coproduct", "\u{2210}"),
        17usize => ("floorleft", "\u{230A}"),
        18usize => ("floorright", "\u{230B}"),
        19usize => ("intersection", "\u{2229}"),
        20usize => ("logicaland", "\u{2227}"),
        21usize => ("logicalor", "\u{2228}"),
        22usize => ("negationslash", "\u{2044}"),
        23usize => ("owner", "\u{220B}"),
        24usize => ("summation", "\u{2211}"),
        25usize => ("union", "\u{222A}"),
        26usize => ("unionmulti", "\u{228E}"),
        27usize => ("uniondbl", "\u{228C}"),
        28usize => ("vextenddouble", "\u{2016}"),
        29usize => ("vextendsingle", "|"),
        _ => ("", ""),
    }
}

/// The glyph name a base encoding gives `code`, `""` where the slot is empty.
pub open spec fn spec_base_encoding_name(encoding: Encoding, code: u8) -> Seq<char> {
    if encoding == Encoding::Symbol {
        symbol_name(code)
    } else if 32 <= code <= 126 {
        if encoding == Encoding::Standard && code == 0x27 {
            "quoteright"@
        } else if encoding == Encoding::Standard && code == 0x60 {
            "quoteleft"@
        } else {
            ascii_name(code)
        }
    } else {
        match encoding {
            Encoding::Standard => standard_high(code),
            Encoding::WinAnsi => winansi_high(code),
            Encoding::MacRoman => macroman_high(code),
            Encoding::Symbol => symbol_name(code),
        }
    }
}

/// Returns the glyph name for `code` under the named base encoding, or `""`.
pub fn base_encoding_name(encoding: Encoding, code: u8) -> (r: &'static str)
    ensures
        r@ == spec_base_encoding_name(encoding, code),
{
    // Symbol reassigns the ASCII range to Greek and mathematics, so it must be consulted before
    // the shared-ASCII shortcut below rather than after it.
    if encoding == Encoding::Symbol {
        return symbol_name_str(code);
    }
    if 32 <= code && code <= 126 {
        // The two slots where StandardEncoding disagrees with the others.
        if encoding == Encoding::Standard {
            if code == 0x27 {
                return "quoteright";
            }
            if code == 0x60 {
                return "quoteleft";
            }
        }
        return ascii_name_str(code);
    }
    match encoding {
        Encoding::Standard => standard_high_str(code),
        Encoding::WinAnsi => winansi_high_str(code),
        Encoding::MacRoman => macroman_high_str(code),
        Encoding::Symbol => symbol_name_str(code),
    }
}

/// The character of the first glyph-list entry named `name`, searching from entry `i`.
pub open spec fn agl_find(name: Seq<char>, i: int) -> Option<char>
    decreases agl_len() - i,
{
    if i < 0 || i >= agl_len() {
        None
    } else if agl_entry(i).0 == name {
        Some(agl_entry(i).1)
    } else {
        agl_find(name, i + 1)
    }
}

/// The text of the first mathematics-name entry named `name`, searching from entry `i`.
pub open spec fn math_find(name: Seq<char>, i: int) -> Option<Seq<char>>
    decreases math_len() - i,
{
    if i < 0 || i >= math_len() {
        None
    } else if math_entry(i).0 == name {
        Some(math_entry(i).1)
    } else {
        math_find(name, i + 1)
    }
}

/// The Adobe list only.
pub open spec fn spec_plain_lookup(name: Seq<char>) -> Option<Seq<char>> {
    match agl_find(name, 0) {
        Some(c) => Some(seq![c]),
        None => None,
    }
}

pub open spec fn spec_lookup_math(name: Seq<char>) -> Option<Seq<char>> {
    math_find(name, 0)
}

fn agl_lookup(name: &str) -> (r: Option<char>)
    ensures
        r == agl_find(name@, 0),
{
    let n = agl_count();
    let mut i: usize = 0;
    while i < n
        invariant
            n == agl_len(),
            i <= n,
            agl_find(name@, i as int) == agl_find(name@, 0),
        decreases n - i,
    {
        let (nm, c) = agl_entry_at(i);
        if str_eq(nm, name) {
            return Some(c);
        }
        i = i + 1;
    }
    None
}

/// The Adobe list only, so that the math resolver cannot recurse into itself.
fn plain_lookup(name: &str) -> (r: Option<String>)
    ensures
        match r {
            Some(s) => spec_plain_lookup(name@) == Some(s@),
            None => spec_plain_lookup(name@) is None,
        },
{
    match agl_lookup(name) {
        Some(c) => Some(string_of_char(c)),
        None => None,
    }
}

fn lookup_math(name: &str) -> (r: Option<String>)
    ensures
        match r {
            Some(s) => spec_lookup_math(name@) == Some(s@),
            None => spec_lookup_math(name@) is None,
        },
{
    let mut i: usize = 0;
    while i < 30
        invariant
            math_len() == 30,
            i <= 30,
            math_find(name@, i as int) == math_find(name@, 0),
        decreases 30 - i,
    {
        let (nm, v) = math_entry_at(i);
        if str_eq(nm, name) {
            return Some(String::from_str(v));
        }
        i = i + 1;
    }
    None
}

/// The suffixes naming the pieces an extensible delimiter is stacked from, in the order they
/// are tried.
pub open spec fn piece_suffix(k: int) -> Seq<char> {
    if k == 0 {
        "tp"@
    } else if k == 1 {
        "bt"@
    } else if k == 2 {
        "mid"@
    } else {
        "ex"@
    }
}

fn piece_suffix_str(k: usize) -> (r: &'static str)
    ensures
        r@ == piece_suffix(k as int),
{
    if k == 0 {
        "tp"
    } else if k == 1 {
        "bt"
    } else if k == 2 {
        "mid"
    } else {
        "ex"
    }
}

/// The size variants TeX appends to a delimiter or operator name, in the order they are tried.
pub open spec fn size_suffix(k: int) -> Seq<char> {
    if k == 0 {
        "Bigg"@
    } else if k == 1 {
        "bigg"@
    } else if k == 2 {
        "Big"@
    } else if k == 3 {
        "big"@
    } else if k == 4 {
        "display"@
    } else if k == 5 {
        "text"@
    } else if k == 6 {
        "Ex"@
    } else {
        "ex"@
    }
}

fn size_suffix_str(k: usize) -> (r: &'static str)
    ensures
        r@ == size_suffix(k as int),
{
    if k == 0 {
        "Bigg"
    } else if k == 1 {
        "bigg"
    } else if k == 2 {
        "Big"
    } else if k == 3 {
        "big"
    } else if k == 4 {
        "display"
    } else if k == 5 {
        "text"
    } else if k == 6 {
        "Ex"
    } else {
        "ex"
    }
}

/// The families whose names an extensible delimiter's pieces extend.
pub open spec fn delimiter_prefix(k: int) -> Seq<char> {
    if k == 0 {
        "paren"@
    } else if k == 1 {
        "bracket"@
    } else if k == 2 {
        "brace"@
    } else if k == 3 {
        "angbracket"@
    } else if k == 4 {
        "arrow"@
    } else if k == 5 {
        "radical"@
    } else if k == 6 {
        "vert"@
    } else {
        "bracehtip"@
    }
}

fn delimiter_prefix_str(k: usize) -> (r: &'static str)
    ensures
        r@ == delimiter_prefix(k as int),
{
    if k == 0 {
        "paren"
    } else if k == 1 {
        "bracket"
    } else if k == 2 {
        "brace"
    } else if k == 3 {
        "angbracket"
    } else if k == 4 {
        "arrow"
    } else if k == 5 {
        "radical"
    } else if k == 6 {
        "vert"
    } else {
        "bracehtip"
    }
}

pub open spec fn is_delimiter_base(base: Seq<char>) -> bool {
    exists|k: int| 0 <= k < 8 && seq_starts_with(base, delimiter_prefix(k))
}

/// `s` without its last `n` characters.
pub open spec fn drop_end(s: Seq<char>, n: int) -> Seq<char> {
    s.subrange(0, s.len() - n)
}

pub open spec fn or_else(a: Option<Seq<char>>, b: Option<Seq<char>>) -> Option<Seq<char>> {
    match a {
        Some(x) => Some(x),
        None => b,
    }
}

/// The outcome of the first delimiter-piece rule that applies from piece `k` on: the top piece
/// stands for the delimiter and the other pieces yield nothing.
pub open spec fn piece_rule(name: Seq<char>, k: int) -> Option<Option<Seq<char>>>
    decreases 4 - k,
{
    if k < 0 || k >= 4 {
        None
    } else {
        let p = piece_suffix(k);
        let base = drop_end(name, p.len() as int);
        if seq_ends_with(name, p) && base.len() >= 3 && is_delimiter_base(base) {
            if k == 0 {
                Some(or_else(spec_lookup_math(base), spec_plain_lookup(base)))
            } else {
                Some(Some(Seq::empty()))
            }
        } else {
            piece_rule(name, k + 1)
        }
    }
}

/// The character of the first size variant from suffix `k` on whose base name resolves.
pub open spec fn size_rule(name: Seq<char>, k: int) -> Option<Seq<char>>
    decreases 8 - k,
{
    if k < 0 || k >= 8 {
        None
    } else {
        let sfx = size_suffix(k);
        let base = drop_end(name, sfx.len() as int);
        let found = or_else(spec_lookup_math(base), spec_plain_lookup(base));
        if seq_ends_with(name, sfx) && base.len() >= 3 && found is Some {
            found
        } else {
            size_rule(name, k + 1)
        }
    }
}

/// A TeX mathematics glyph name resolved: delimiter pieces first, then size variants, then the
/// mathematics names themselves.
pub open spec fn spec_math_name_to_unicode(name: Seq<char>) -> Option<Seq<char>> {
    match piece_rule(name, 0) {
        Some(r) => r,
        None => match size_rule(name, 0) {
            Some(f) => Some(f),
            None => spec_lookup_math(name),
        },
    }
}

fn starts_with_str(s: &[char], p: &str) -> (r: bool)
    ensures
        r == seq_starts_with(s@, p@),
{
    let pc = chars_of(p);
    chars_start_with(s, pc.as_slice())
}

fn is_delimiter_base_exec(base: &[char]) -> (r: bool)
    ensures
        r == is_delimiter_base(base@),
{
    let mut k: usize = 0;
    while k < 8
        invariant
            k <= 8,
            forall|j: int| 0 <= j < k ==> !seq_starts_with(base@, delimiter_prefix(j)),
        decreases 8 - k,
    {
        if starts_with_str(base, delimiter_prefix_str(k)) {
            return true;
        }
        k = k + 1;
    }
    false
}

fn lookup_either(base: &str) -> (r: Option<String>)
    ensures
        match r {
            Some(s) => or_else(spec_lookup_math(base@), spec_plain_lookup(base@)) == Some(s@),
            None => or_else(spec_lookup_math(base@), spec_plain_lookup(base@)) is None,
        },
{
    match lookup_math(base) {
        Some(s) => Some(s),
        None => plain_lookup(base),
    }
}

/// Resolves a TeX mathematics glyph name.
///
/// Two conventions have to be undone. Size variants (`summationdisplay`, `parenleftBig`) are the
/// same character drawn larger, so the suffix is stripped. Extensible delimiters are *built* from
/// pieces — `parenlefttp`, `parenleftex`, `parenleftbt` stack into one tall bracket — so the top
/// piece stands for the delimiter and the middle and bottom pieces yield nothing, which is what
/// makes a three-glyph bracket extract as a single character rather than three.
fn math_name_to_unicode(name: &str) -> (r: Option<String>)
    ensures
        match r {
            Some(s) => spec_math_name_to_unicode(name@) == Some(s@),
            None => spec_math_name_to_unicode(name@) is None,
        },
{
    let chars = chars_of(name);
    // Piece suffixes first: `parenlefttp` also ends in no size suffix, and stripping in the
    // other order would turn `bracketrightbt` into `bracketrightb`.
    let mut k: usize = 0;
    while k < 4
        invariant
            k <= 4,
            chars@ == name@,
            piece_rule(name@, k as int) == piece_rule(name@, 0),
        decreases 4 - k,
    {
        let piece = piece_suffix_str(k);
        let pc = chars_of(piece);
        if chars_end_with(chars.as_slice(), pc.as_slice()) {
            let cut = chars.len() - pc.len();
            let base_chars = &chars.as_slice()[0..cut];
            assert(base_chars@ =~= drop_end(name@, piece@.len() as int));
            if base_chars.len() >= 3 && is_delimiter_base_exec(base_chars) {
                // Only the top piece carries the character; the rest continue the same one.
                if k == 0 {
                    let base = string_from_chars(base_chars);
                    return lookup_either(base.as_str());
                } else {
                    return Some(String::new());
                }
            }
        }
        k = k + 1;
    }
    let mut k: usize = 0;
    while k < 8
        invariant
            k <= 8,
            chars@ == name@,
            piece_rule(name@, 0) is None,
            size_rule(name@, k as int) == size_rule(name@, 0),
        decreases 8 - k,
    {
        let sfx = size_suffix_str(k);
        let sc = chars_of(sfx);
        if chars_end_with(chars.as_slice(), sc.as_slice()) {
            let cut = chars.len() - sc.len();
            let base_chars = &chars.as_slice()[0..cut];
            assert(base_chars@ =~= drop_end(name@, sfx@.len() as int));
            if base_chars.len() >= 3 {
                let base = string_from_chars(base_chars);
                if let Some(found) = lookup_either(base.as_str()) {
                    return Some(found);
                }
            }
        }
        k = k + 1;
    }
    lookup_math(name)
}

pub open spec fn hex_char_val(c: char) -> Option<int> {
    if '0' <= c <= '9' {
        Some(c as int - '0' as int)
    } else if 'a' <= c <= 'f' {
        Some(c as int - 'a' as int + 10)
    } else if 'A' <= c <= 'F' {
        Some(c as int - 'A' as int + 10)
    } else {
        None
    }
}

pub open spec fn all_hex(s: Seq<char>) -> bool {
    forall|i: int| 0 <= i < s.len() ==> #[trigger] hex_char_val(s[i]) is Some
}

/// The value of a run of hexadecimal digits.
pub open spec fn hex_value(s: Seq<char>) -> int
    decreases s.len(),
{
    if s.len() == 0 {
        0
    } else {
        hex_value(s.drop_last()) * 16 + hex_char_val(s.last())->0
    }
}

/// Groups of four hex digits read as UTF-16 code units.
pub open spec fn hex_units(h: Seq<char>) -> Seq<u16>
    decreases h.len(),
{
    if h.len() < 4 {
        Seq::empty()
    } else {
        seq![hex_value(h.subrange(0, 4)) as u16] + hex_units(h.subrange(4, h.len() as int))
    }
}

/// `uniXXXX[XXXX...]`: groups of four hex digits, read as UTF-16.
pub open spec fn uni_form(name: Seq<char>) -> Option<Seq<char>> {
    if seq_starts_with(name, "uni"@) {
        let h = name.subrange(3, name.len() as int);
        if h.len() >= 4 && h.len() % 4 == 0 && all_hex(h) && utf16_lossy(hex_units(h)).len() > 0 {
            Some(utf16_lossy(hex_units(h)))
        } else {
            None
        }
    } else {
        None
    }
}

/// `uXXXX` to `uXXXXXX`: one scalar value in hex.
pub open spec fn u_form(name: Seq<char>) -> Option<Seq<char>> {
    if seq_starts_with(name, "u"@) {
        let h = name.subrange(1, name.len() as int);
        let v = hex_value(h);
        if 4 <= h.len() <= 6 && all_hex(h) && v <= 0x10FFFF && !(0xD800 <= v <= 0xDFFF) {
            Some(seq![((v as u32) as char)])
        } else {
            None
        }
    } else {
        None
    }
}

/// The part of `name` before its first `.`, when there is a `.` and the part is not empty.
pub open spec fn dotted_base(name: Seq<char>) -> Option<Seq<char>> {
    if exists|i: int| 0 <= i < name.len() && name[i] == '.' {
        let i = choose|i: int|
            0 <= i < name.len() && name[i] == '.' && forall|j: int| 0 <= j < i ==> name[j] != '.';
        if i > 0 {
            Some(name.subrange(0, i))
        } else {
            None
        }
    } else {
        None
    }
}

/// The text a glyph name stands for: the list itself, `uniXXXX[XXXX...]`, `uXXXX`–`uXXXXXX`,
/// then TeX's mathematics conventions, then the same resolution of the part before a `.`.
pub open spec fn glyph_unicode(name: Seq<char>) -> Option<Seq<char>>
    decreases name.len(),
{
    if name.len() == 0 || name == ".notdef"@ {
        None
    } else if spec_plain_lookup(name) is Some {
        spec_plain_lookup(name)
    } else if uni_form(name) is Some {
        uni_form(name)
    } else if u_form(name) is Some {
        u_form(name)
    } else if spec_math_name_to_unicode(name) is Some {
        spec_math_name_to_unicode(name)
    } else {
        match dotted_base(name) {
            Some(b) => if b.len() < name.len() {
                glyph_unicode(b)
            } else {
                None
            },
            None => None,
        }
    }
}

fn hex_digit(c: char) -> (r: Option<u32>)
    ensures
        match r {
            Some(v) => hex_char_val(c) == Some(v as int) && v < 16,
            None => hex_char_val(c) is None,
        },
{
    if '0' <= c && c <= '9' {
        Some((c as u32) - ('0' as u32))
    } else if 'a' <= c && c <= 'f' {
        Some((c as u32) - ('a' as u32) + 10)
    } else if 'A' <= c && c <= 'F' {
        Some((c as u32) - ('A' as u32) + 10)
    } else {
        None
    }
}

proof fn lemma_hex_value_step(s: Seq<char>, k: int)
    requires
        0 <= k < s.len(),
    ensures
        hex_value(s.subrange(0, k + 1)) == hex_value(s.subrange(0, k)) * 16 + hex_char_val(s[k])->0,
{
    assert(s.subrange(0, k + 1).drop_last() =~= s.subrange(0, k));
}

/// The value of at most six hex digits, or `None` when one is not a hex digit.
fn hex_run(s: &[char]) -> (r: Option<u32>)
    requires
        s@.len() <= 6,
    ensures
        match r {
            Some(v) => all_hex(s@) && v == hex_value(s@) && v < pow16(s@.len()),
            None => !all_hex(s@),
        },
{
    let mut v: u32 = 0;
    let mut i: usize = 0;
    while i < s.len()
        invariant
            s@.len() <= 6,
            i <= s@.len(),
            forall|k: int| 0 <= k < i ==> #[trigger] hex_char_val(s@[k]) is Some,
            v == hex_value(s@.subrange(0, i as int)),
            v < pow16(i as nat),
        decreases s@.len() - i,
    {
        match hex_digit(s[i]) {
            None => {
                assert(hex_char_val(s@[i as int]) is None);
                return None;
            },
            Some(d) => {
                proof {
                    lemma_hex_value_step(s@, i as int);
                    assert(pow16((i + 1) as nat) == pow16(i as nat) * 16);
                    assert(pow16(i as nat) <= pow16(5)) by {
                        lemma_pow16_mono(i as nat, 5);
                    }
                    assert(v * 16 + d < pow16(i as nat) * 16) by (nonlinear_arith)
                        requires
                            v < pow16(i as nat),
                            d < 16,
                    ;
                    assert(pow16(5) == 1048576) by {
                        reveal_with_fuel(pow16, 6);
                    }
                }
                v = v * 16 + d;
                i = i + 1;
            },
        }
    }
    assert(s@.subrange(0, s@.len() as int) =~= s@);
    Some(v)
}

pub open spec fn pow16(n: nat) -> int
    decreases n,
{
    if n == 0 {
        1
    } else {
        16 * pow16((n - 1) as nat)
    }
}

proof fn lemma_pow16_pos(n: nat)
    ensures
        1 <= pow16(n),
    decreases n,
{
    if n > 0 {
        lemma_pow16_pos((n - 1) as nat);
    }
}

proof fn lemma_pow16_mono(a: nat, b: nat)
    requires
        a <= b,
    ensures
        1 <= pow16(a) <= pow16(b),
    decreases b,
{
    if a < b {
        lemma_pow16_mono(a, (b - 1) as nat);
        lemma_pow16_pos((b - 1) as nat);
    } else {
        lemma_pow16_pos(a);
    }
}

fn uni_form_exec(name: &[char]) -> (r: Option<String>)
    ensures
        match r {
            Some(s) => uni_form(name@) == Some(s@),
            None => uni_form(name@) is None,
        },
{
    if !starts_with_str(name, "uni") {
        return None;
    }
    proof {
        reveal_strlit("uni");
    }
    let h = &name[3..name.len()];
    assert(h@ =~= name@.subrange(3, name@.len() as int));
    if !(h.len() >= 4 && h.len() % 4 == 0) {
        return None;
    }
    let mut units: Vec<u16> = Vec::new();
    let mut g: usize = 0;
    assert(h@.subrange(0, h@.len() as int) =~= h@);
    assert(pow16(4) == 65536) by {
        reveal_with_fuel(pow16, 5);
    }
    while g < h.len()
        invariant
            h@ == name@.subrange(3, name@.len() as int),
            pow16(4) == 65536,
            h@.len() % 4 == 0,
            g % 4 == 0,
            g <= h@.len(),
            forall|k: int| 0 <= k < g ==> #[trigger] hex_char_val(h@[k]) is Some,
            units@ + hex_units(h@.subrange(g as int, h@.len() as int)) == hex_units(h@),
        decreases h@.len() - g,
    {
        let grp = &h[g..g + 4];
        let ghost rest = h@.subrange(g as int, h@.len() as int);
        assert(grp@ =~= rest.subrange(0, 4));
        match hex_run(grp) {
            None => {
                assert(!all_hex(h@)) by {
                    let j = choose|j: int| 0 <= j < 4 && hex_char_val(grp@[j]) is None;
                    assert(h@[g + j] == grp@[j]);
                }
                return None;
            },
            Some(v) => {
                proof {
                    assert forall|k: int| 0 <= k < g + 4 implies #[trigger] hex_char_val(h@[k]) is Some by {
                        if k >= g {
                            assert(h@[k] == grp@[k - g]);
                        }
                    }
                    assert(rest.subrange(4, rest.len() as int) =~= h@.subrange(g + 4, h@.len() as int));
                }
                let ghost before = units@;
                units.push(v as u16);
                assert(units@ + hex_units(h@.subrange(g + 4, h@.len() as int)) =~= before + hex_units(rest));
                g = g + 4;
            },
        }
    }
    assert(h@.subrange(h@.len() as int, h@.len() as int) =~= Seq::<char>::empty());
    assert(units@ =~= hex_units(h@));
    let s = string_from_utf16_lossy(units.as_slice());
    if s.unicode_len() == 0 {
        return None;
    }
    Some(s)
}

fn u_form_exec(name: &[char]) -> (r: Option<String>)
    ensures
        match r {
            Some(s) => u_form(name@) == Some(s@),
            None => u_form(name@) is None,
        },
{
    if !starts_with_str(name, "u") {
        return None;
    }
    proof {
        reveal_strlit("u");
    }
    let h = &name[1..name.len()];
    assert(h@ =~= name@.subrange(1, name@.len() as int));
    if !(4 <= h.len() && h.len() <= 6) {
        return None;
    }
    match hex_run(h) {
        None => None,
        Some(v) => match char_from_u32(v) {
            Some(c) => {
                proof {
                    vstd::utf8::char_u32_cast(c, v);
                }
                Some(string_of_char(c))
            },
            None => None,
        },
    }
}

/// Maps a glyph name to its Unicode string.
///
/// Resolution order mirrors the AGL specification: the list itself, `uniXXXX[XXXX...]`,
/// `uXXXX`–`uXXXXXX`, then TeX's mathematics conventions, then a suffix-stripped retry
/// (`one.oldstyle` → `one`).
pub fn glyph_name_to_unicode(name: &str) -> (r: Option<String>)
    ensures
        match r {
            Some(s) => glyph_unicode(name@) == Some(s@),
            None => glyph_unicode(name@) is None,
        },
    decreases name@.len(),
{
    if name.is_empty() || str_eq(name, ".notdef") {
        return None;
    }
    if let Some(s) = plain_lookup(name) {
        return Some(s);
    }
    let chars = chars_of(name);
    if let Some(s) = uni_form_exec(chars.as_slice()) {
        return Some(s);
    }
    if let Some(s) = u_form_exec(chars.as_slice()) {
        return Some(s);
    }
    // TeX mathematics names: size variants and the pieces of an extensible delimiter.
    if let Some(found) = math_name_to_unicode(name) {
        return Some(found);
    }
    // `g.alt`, `a.sc`, `T1`-style subset suffixes.
    let mut i: usize = 0;
    while i < chars.len()
        invariant
            chars@ == name@,
            name@.len() > 0,
            name@ != ".notdef"@,
            spec_plain_lookup(name@) is None,
            uni_form(name@) is None,
            u_form(name@) is None,
            spec_math_name_to_unicode(name@) is None,
            i <= chars@.len(),
            forall|j: int| 0 <= j < i ==> chars@[j] != '.',
        decreases chars@.len() - i,
    {
        if chars[i] == '.' {
            assert(name@[i as int] == '.');
            proof {
                let k = choose|k: int|
                    0 <= k < name@.len() && name@[k] == '.' && forall|j: int| 0 <= j < k ==> name@[j] != '.';
                if k < i {
                    assert(chars@[k] != '.');
                }
                if k > i {
                    assert(name@[i as int] != '.');
                }
            }
            if i == 0 {
                return None;
            }
            let base = string_from_chars(&chars.as_slice()[0..i]);
            assert(base@ =~= name@.subrange(0, i as int));
            return glyph_name_to_unicode(base.as_str());
        }
        i = i + 1;
    }
    None
}

// ---- the base encodings against their character sets --------------------------------------

/// The character WinAnsiEncoding gives code `c` (PDF Annex D): code page 1252 from space to
/// `~` and from 0x80 on, except that 0xAD is the hyphen; nothing for the control codes,
/// 0x7F, 0xA0, and the five codes code page 1252 leaves undefined.
pub open spec fn code_page_1252(c: u8) -> Option<char> {
    match c {
        32u8 => Some('\u{20}'),
        33u8 => Some('\u{21}'),
        34u8 => Some('\u{22}'),
        35u8 => Some('\u{23}'),
        36u8 => Some('\u{24}'),
        37u8 => Some('\u{25}'),
        38u8 => Some('\u{26}'),
        39u8 => Some('\u{27}'),
        40u8 => Some('\u{28}'),
        41u8 => Some('\u{29}'),
        42u8 => Some('\u{2a}'),
        43u8 => Some('\u{2b}'),
        44u8 => Some('\u{2c}'),
        45u8 => Some('\u{2d}'),
        46u8 => Some('\u{2e}'),
        47u8 => Some('\u{2f}'),
        48u8 => Some('\u{30}'),
        49u8 => Some('\u{31}'),
        50u8 => Some('\u{32}'),
        51u8 => Some('\u{33}'),
        52u8 => Some('\u{34}'),
        53u8 => Some('\u{35}'),
        54u8 => Some('\u{36}'),
        55u8 => Some('\u{37}'),
        56u8 => Some('\u{38}'),
        57u8 => Some('\u{39}'),
        58u8 => Some('\u{3a}'),
        59u8 => Some('\u{3b}'),
        60u8 => Some('\u{3c}'),
        61u8 => Some('\u{3d}'),
        62u8 => Some('\u{3e}'),
        63u8 => Some('\u{3f}'),
        64u8 => Some('\u{40}'),
        65u8 => Some('\u{41}'),
        66u8 => Some('\u{42}'),
        67u8 => Some('\u{43}'),
        68u8 => Some('\u{44}'),
        69u8 => Some('\u{45}'),
        70u8 => Some('\u{46}'),
        71u8 => Some('\u{47}'),
        72u8 => Some('\u{48}'),
        73u8 => Some('\u{49}'),
        74u8 => Some('\u{4a}'),
        75u8 => Some('\u{4b}'),
        76u8 => Some('\u{4c}'),
        77u8 => Some('\u{4d}'),
        78u8 => Some('\u{4e}'),
        79u8 => Some('\u{4f}'),
        80u8 => Some('\u{50}'),
        81u8 => Some('\u{51}'),
        82u8 => Some('\u{52}'),
        83u8 => Some('\u{53}'),
        84u8 => Some('\u{54}'),
        85u8 => Some('\u{55}'),
        86u8 => Some('\u{56}'),
        87u8 => Some('\u{57}'),
        88u8 => Some('\u{58}'),
        89u8 => Some('\u{59}'),
        90u8 => Some('\u{5a}'),
        91u8 => Some('\u{5b}'),
        92u8 => Some('\u{5c}'),
        93u8 => Some('\u{5d}'),
        94u8 => Some('\u{5e}'),
        95u8 => Some('\u{5f}'),
        96u8 => Some('\u{60}'),
        97u8 => Some('\u{61}'),
        98u8 => Some('\u{62}'),
        99u8 => Some('\u{63}'),
        100u8 => Some('\u{64}'),
        101u8 => Some('\u{65}'),
        102u8 => Some('\u{66}'),
        103u8 => Some('\u{67}'),
        104u8 => Some('\u{68}'),
        105u8 => Some('\u{69}'),
        106u8 => Some('\u{6a}'),
        107u8 => Some('\u{6b}'),
        108u8 => Some('\u{6c}'),
        109u8 => Some('\u{6d}'),
        110u8 => Some('\u{6e}'),
        111u8 => Some('\u{6f}'),
        112u8 => Some('\u{70}'),
        113u8 => Some('\u{71}'),
        114u8 => Some('\u{72}'),
        115u8 => Some('\u{73}'),
        116u8 => Some('\u{74}'),
        117u8 => Some('\u{75}'),
        118u8 => Some('\u{76}'),
        119u8 => Some('\u{77}'),
        120u8 => Some('\u{78}'),
        121u8 => Some('\u{79}'),
        122u8 => Some('\u{7a}'),
        123u8 => Some('\u{7b}'),
        124u8 => Some('\u{7c}'),
        125u8 => Some('\u{7d}'),
        126u8 => Some('\u{7e}'),
        128u8 => Some('\u{20ac}'),
        130u8 => Some('\u{201a}'),
        131u8 => Some('\u{192}'),
        132u8 => Some('\u{201e}'),
        133u8 => Some('\u{2026}'),
        134u8 => Some('\u{2020}'),
        135u8 => Some('\u{2021}'),
        136u8 => Some('\u{2c6}'),
        137u8 => Some('\u{2030}'),
        138u8 => Some('\u{160}'),
        139u8 => Some('\u{2039}'),
        140u8 => Some('\u{152}'),
        142u8 => Some('\u{17d}'),
        145u8 => Some('\u{2018}'),
        146u8 => Some('\u{2019}'),
        147u8 => Some('\u{201c}'),
        148u8 => Some('\u{201d}'),
        149u8 => Some('\u{2022}'),
        150u8 => Some('\u{2013}'),
        151u8 => Some('\u{2014}'),
        152u8 => Some('\u{2dc}'),
        153u8 => Some('\u{2122}'),
        154u8 => Some('\u{161}'),
        155u8 => Some('\u{203a}'),
        156u8 => Some('\u{153}'),
        158u8 => Some('\u{17e}'),
        159u8 => Some('\u{178}'),
        161u8 => Some('\u{a1}'),
        162u8 => Some('\u{a2}'),
        163u8 => Some('\u{a3}'),
        164u8 => Some('\u{a4}'),
        165u8 => Some('\u{a5}'),
        166u8 => Some('\u{a6}'),
        167u8 => Some('\u{a7}'),
        168u8 => Some('\u{a8}'),
        169u8 => Some('\u{a9}'),
        170u8 => Some('\u{aa}'),
        171u8 => Some('\u{ab}'),
        172u8 => Some('\u{ac}'),
        173u8 => Some('\u{2d}'),
        174u8 => Some('\u{ae}'),
        175u8 => Some('\u{af}'),
        176u8 => Some('\u{b0}'),
        177u8 => Some('\u{b1}'),
        178u8 => Some('\u{b2}'),
        179u8 => Some('\u{b3}'),
        180u8 => Some('\u{b4}'),
        181u8 => Some('\u{b5}'),
        182u8 => Some('\u{b6}'),
        183u8 => Some('\u{b7}'),
        184u8 => Some('\u{b8}'),
        185u8 => Some('\u{b9}'),
        186u8 => Some('\u{ba}'),
        187u8 => Some('\u{bb}'),
        188u8 => Some('\u{bc}'),
        189u8 => Some('\u{bd}'),
        190u8 => Some('\u{be}'),
        191u8 => Some('\u{bf}'),
        192u8 => Some('\u{c0}'),
        193u8 => Some('\u{c1}'),
        194u8 => Some('\u{c2}'),
        195u8 => Some('\u{c3}'),
        196u8 => Some('\u{c4}'),
        197u8 => Some('\u{c5}'),
        198u8 => Some('\u{c6}'),
        199u8 => Some('\u{c7}'),
        200u8 => Some('\u{c8}'),
        201u8 => Some('\u{c9}'),
        202u8 => Some('\u{ca}'),
        203u8 => Some('\u{cb}'),
        204u8 => Some('\u{cc}'),
        205u8 => Some('\u{cd}'),
        206u8 => Some('\u{ce}'),
        207u8 => Some('\u{cf}'),
        208u8 => Some('\u{d0}'),
        209u8 => Some('\u{d1}'),
        210u8 => Some('\u{d2}'),
        211u8 => Some('\u{d3}'),
        212u8 => Some('\u{d4}'),
        213u8 => Some('\u{d5}'),
        214u8 => Some('\u{d6}'),
        215u8 => Some('\u{d7}'),
        216u8 => Some('\u{d8}'),
        217u8 => Some('\u{d9}'),
        218u8 => Some('\u{da}'),
        219u8 => Some('\u{db}'),
        220u8 => Some('\u{dc}'),
        221u8 => Some('\u{dd}'),
        222u8 => Some('\u{de}'),
        223u8 => Some('\u{df}'),
        224u8 => Some('\u{e0}'),
        225u8 => Some('\u{e1}'),
        226u8 => Some('\u{e2}'),
        227u8 => Some('\u{e3}'),
        228u8 => Some('\u{e4}'),
        229u8 => Some('\u{e5}'),
        230u8 => Some('\u{e6}'),
        231u8 => Some('\u{e7}'),
        232u8 => Some('\u{e8}'),
        233u8 => Some('\u{e9}'),
        234u8 => Some('\u{ea}'),
        235u8 => Some('\u{eb}'),
        236u8 => Some('\u{ec}'),
        237u8 => Some('\u{ed}'),
        238u8 => Some('\u{ee}'),
        239u8 => Some('\u{ef}'),
        240u8 => Some('\u{f0}'),
        241u8 => Some('\u{f1}'),
        242u8 => Some('\u{f2}'),
        243u8 => Some('\u{f3}'),
        244u8 => Some('\u{f4}'),
        245u8 => Some('\u{f5}'),
        246u8 => Some('\u{f6}'),
        247u8 => Some('\u{f7}'),
        248u8 => Some('\u{f8}'),
        249u8 => Some('\u{f9}'),
        250u8 => Some('\u{fa}'),
        251u8 => Some('\u{fb}'),
        252u8 => Some('\u{fc}'),
        253u8 => Some('\u{fd}'),
        254u8 => Some('\u{fe}'),
        255u8 => Some('\u{ff}'),
        _ => None,
    }
}

#[verifier::rlimit(40)]
proof fn lemma_winansi_0_64(c: u8)
    requires
        0 <= c < 64,
    ensures
        match code_page_1252(c) {
            Some(u) => exists|i: int|
                0 <= i < agl_len() && #[trigger] agl_entry(i) == (spec_base_encoding_name(Encoding::WinAnsi, c), u),
            None => spec_base_encoding_name(Encoding::WinAnsi, c).len() == 0,
        },
{
    reveal_strlit("");
    if c == 0u8 {
        assert(spec_base_encoding_name(Encoding::WinAnsi, c) == ""@);
    } else if c == 1u8 {
        assert(spec_base_encoding_name(Encoding::WinAnsi, c) == ""@);
    } else if c == 2u8 {
        assert(spec_base_encoding_name(Encoding::WinAnsi, c) == ""@);
    } else if c == 3u8 {
        assert(spec_base_encoding_name(Encoding::WinAnsi, c) == ""@);
    } else if c == 4u8 {
        assert(spec_base_encoding_name(Encoding::WinAnsi, c) == ""@);
    } else if c == 5u8 {
        assert(spec_base_encoding_name(Encoding::WinAnsi, c) == ""@);
    } else if c == 6u8 {
        assert(spec_base_encoding_name(Encoding::WinAnsi, c) == ""@);
    } else if c == 7u8 {
        assert(spec_base_encoding_name(Encoding::WinAnsi, c) == ""@);
    } else if c == 8u8 {
        assert(spec_base_encoding_name(Encoding::WinAnsi, c) == ""@);
    } else if c == 9u8 {
        assert(spec_base_encoding_name(Encoding::WinAnsi, c) == ""@);
    } else if c == 10u8 {
        assert(spec_base_encoding_name(Encoding::WinAnsi, c) == ""@);
    } else if c == 11u8 {
        assert(spec_base_encoding_name(Encoding::WinAnsi, c) == ""@);
    } else if c == 12u8 {
        assert(spec_base_encoding_name(Encoding::WinAnsi, c) == ""@);
    } else if c == 13u8 {
        assert(spec_base_encoding_name(Encoding::WinAnsi, c) == ""@);
    } else if c == 14u8 {
        assert(spec_base_encoding_name(Encoding::WinAnsi, c) == ""@);
    } else if c == 15u8 {
        assert(spec_base_encoding_name(Encoding::WinAnsi, c) == ""@);
    } else if c == 16u8 {
        assert(spec_base_encoding_name(Encoding::WinAnsi, c) == ""@);
    } else if c == 17u8 {
        assert(spec_base_encoding_name(Encoding::WinAnsi, c) == ""@);
    } else if c == 18u8 {
        assert(spec_base_encoding_name(Encoding::WinAnsi, c) == ""@);
    } else if c == 19u8 {
        assert(spec_base_encoding_name(Encoding::WinAnsi, c) == ""@);
    } else if c == 20u8 {
        assert(spec_base_encoding_name(Encoding::WinAnsi, c) == ""@);
    } else if c == 21u8 {
        assert(spec_base_encoding_name(Encoding::WinAnsi, c) == ""@);
    } else if c == 22u8 {
        assert(spec_base_encoding_name(Encoding::WinAnsi, c) == ""@);
    } else if c == 23u8 {
        assert(spec_base_encoding_name(Encoding::WinAnsi, c) == ""@);
    } else if c == 24u8 {
        assert(spec_base_encoding_name(Encoding::WinAnsi, c) == ""@);
    } else if c == 25u8 {
        assert(spec_base_encoding_name(Encoding::WinAnsi, c) == ""@);
    } else if c == 26u8 {
        assert(spec_base_encoding_name(Encoding::WinAnsi, c) == ""@);
    } else if c == 27u8 {
        assert(spec_base_encoding_name(Encoding::WinAnsi, c) == ""@);
    } else if c == 28u8 {
        assert(spec_base_encoding_name(Encoding::WinAnsi, c) == ""@);
    } else if c == 29u8 {
        assert(spec_base_encoding_name(Encoding::WinAnsi, c) == ""@);
    } else if c == 30u8 {
        assert(spec_base_encoding_name(Encoding::WinAnsi, c) == ""@);
    } else if c == 31u8 {
        assert(spec_base_encoding_name(Encoding::WinAnsi, c) == ""@);
    } else if c == 32u8 {
        assert(agl_entry(305) == (spec_base_encoding_name(Encoding::WinAnsi, c), code_page_1252(c)->0));
    } else if c == 33u8 {
        assert(agl_entry(174) == (spec_base_encoding_name(Encoding::WinAnsi, c), code_page_1252(c)->0));
    } else if c == 34u8 {
        assert(agl_entry(278) == (spec_base_encoding_name(Encoding::WinAnsi, c), code_page_1252(c)->0));
    } else if c == 35u8 {
        assert(agl_entry(236) == (spec_base_encoding_name(Encoding::WinAnsi, c), code_page_1252(c)->0));
    } else if c == 36u8 {
        assert(agl_entry(153) == (spec_base_encoding_name(Encoding::WinAnsi, c), code_page_1252(c)->0));
    } else if c == 37u8 {
        assert(agl_entry(260) == (spec_base_encoding_name(Encoding::WinAnsi, c), code_page_1252(c)->0));
    } else if c == 38u8 {
        assert(agl_entry(97) == (spec_base_encoding_name(Encoding::WinAnsi, c), code_page_1252(c)->0));
    } else if c == 39u8 {
        assert(agl_entry(285) == (spec_base_encoding_name(Encoding::WinAnsi, c), code_page_1252(c)->0));
    } else if c == 40u8 {
        assert(agl_entry(257) == (spec_base_encoding_name(Encoding::WinAnsi, c), code_page_1252(c)->0));
    } else if c == 41u8 {
        assert(agl_entry(258) == (spec_base_encoding_name(Encoding::WinAnsi, c), code_page_1252(c)->0));
    } else if c == 42u8 {
        assert(agl_entry(115) == (spec_base_encoding_name(Encoding::WinAnsi, c), code_page_1252(c)->0));
    } else if c == 43u8 {
        assert(agl_entry(268) == (spec_base_encoding_name(Encoding::WinAnsi, c), code_page_1252(c)->0));
    } else if c == 44u8 {
        assert(agl_entry(141) == (spec_base_encoding_name(Encoding::WinAnsi, c), code_page_1252(c)->0));
    } else if c == 45u8 {
        assert(agl_entry(201) == (spec_base_encoding_name(Encoding::WinAnsi, c), code_page_1252(c)->0));
    } else if c == 46u8 {
        assert(agl_entry(261) == (spec_base_encoding_name(Encoding::WinAnsi, c), code_page_1252(c)->0));
    } else if c == 47u8 {
        assert(agl_entry(304) == (spec_base_encoding_name(Encoding::WinAnsi, c), code_page_1252(c)->0));
    } else if c == 48u8 {
        assert(agl_entry(342) == (spec_base_encoding_name(Encoding::WinAnsi, c), code_page_1252(c)->0));
    } else if c == 49u8 {
        assert(agl_entry(247) == (spec_base_encoding_name(Encoding::WinAnsi, c), code_page_1252(c)->0));
    } else if c == 50u8 {
        assert(agl_entry(320) == (spec_base_encoding_name(Encoding::WinAnsi, c), code_page_1252(c)->0));
    } else if c == 51u8 {
        assert(agl_entry(315) == (spec_base_encoding_name(Encoding::WinAnsi, c), code_page_1252(c)->0));
    } else if c == 52u8 {
        assert(agl_entry(185) == (spec_base_encoding_name(Encoding::WinAnsi, c), code_page_1252(c)->0));
    } else if c == 53u8 {
        assert(agl_entry(182) == (spec_base_encoding_name(Encoding::WinAnsi, c), code_page_1252(c)->0));
    } else if c == 54u8 {
        assert(agl_entry(303) == (spec_base_encoding_name(Encoding::WinAnsi, c), code_page_1252(c)->0));
    } else if c == 55u8 {
        assert(agl_entry(299) == (spec_base_encoding_name(Encoding::WinAnsi, c), code_page_1252(c)->0));
    } else if c == 56u8 {
        assert(agl_entry(163) == (spec_base_encoding_name(Encoding::WinAnsi, c), code_page_1252(c)->0));
    } else if c == 57u8 {
        assert(agl_entry(230) == (spec_base_encoding_name(Encoding::WinAnsi, c), code_page_1252(c)->0));
    } else if c == 58u8 {
        assert(agl_entry(140) == (spec_base_encoding_name(Encoding::WinAnsi, c), code_page_1252(c)->0));
    } else if c == 59u8 {
        assert(agl_entry(298) == (spec_base_encoding_name(Encoding::WinAnsi, c), code_page_1252(c)->0));
    } else if c == 60u8 {
        assert(agl_entry(216) == (spec_base_encoding_name(Encoding::WinAnsi, c), code_page_1252(c)->0));
    } else if c == 61u8 {
        assert(agl_entry(170) == (spec_base_encoding_name(Encoding::WinAnsi, c), code_page_1252(c)->0));
    } else if c == 62u8 {
        assert(agl_entry(192) == (spec_base_encoding_name(Encoding::WinAnsi, c), code_page_1252(c)->0));
    } else if c == 63u8 {
        assert(agl_entry(276) == (spec_base_encoding_name(Encoding::WinAnsi, c), code_page_1252(c)->0));
    }
}

#[verifier::rlimit(40)]
proof fn lemma_winansi_64_128(c: u8)
    requires
        64 <= c < 128,
    ensures
        match code_page_1252(c) {
            Some(u) => exists|i: int|
                0 <= i < agl_len() && #[trigger] agl_entry(i) == (spec_base_encoding_name(Encoding::WinAnsi, c), u),
            None => spec_base_encoding_name(Encoding::WinAnsi, c).len() == 0,
        },
{
    reveal_strlit("");
    if c == 64u8 {
        assert(agl_entry(117) == (spec_base_encoding_name(Encoding::WinAnsi, c), code_page_1252(c)->0));
    } else if c == 65u8 {
        assert(agl_entry(0) == (spec_base_encoding_name(Encoding::WinAnsi, c), code_page_1252(c)->0));
    } else if c == 66u8 {
        assert(agl_entry(9) == (spec_base_encoding_name(Encoding::WinAnsi, c), code_page_1252(c)->0));
    } else if c == 67u8 {
        assert(agl_entry(11) == (spec_base_encoding_name(Encoding::WinAnsi, c), code_page_1252(c)->0));
    } else if c == 68u8 {
        assert(agl_entry(14) == (spec_base_encoding_name(Encoding::WinAnsi, c), code_page_1252(c)->0));
    } else if c == 69u8 {
        assert(agl_entry(16) == (spec_base_encoding_name(Encoding::WinAnsi, c), code_page_1252(c)->0));
    } else if c == 70u8 {
        assert(agl_entry(25) == (spec_base_encoding_name(Encoding::WinAnsi, c), code_page_1252(c)->0));
    } else if c == 71u8 {
        assert(agl_entry(26) == (spec_base_encoding_name(Encoding::WinAnsi, c), code_page_1252(c)->0));
    } else if c == 72u8 {
        assert(agl_entry(28) == (spec_base_encoding_name(Encoding::WinAnsi, c), code_page_1252(c)->0));
    } else if c == 73u8 {
        assert(agl_entry(29) == (spec_base_encoding_name(Encoding::WinAnsi, c), code_page_1252(c)->0));
    } else if c == 74u8 {
        assert(agl_entry(36) == (spec_base_encoding_name(Encoding::WinAnsi, c), code_page_1252(c)->0));
    } else if c == 75u8 {
        assert(agl_entry(37) == (spec_base_encoding_name(Encoding::WinAnsi, c), code_page_1252(c)->0));
    } else if c == 76u8 {
        assert(agl_entry(39) == (spec_base_encoding_name(Encoding::WinAnsi, c), code_page_1252(c)->0));
    } else if c == 77u8 {
        assert(agl_entry(42) == (spec_base_encoding_name(Encoding::WinAnsi, c), code_page_1252(c)->0));
    } else if c == 78u8 {
        assert(agl_entry(44) == (spec_base_encoding_name(Encoding::WinAnsi, c), code_page_1252(c)->0));
    } else if c == 79u8 {
        assert(agl_entry(47) == (spec_base_encoding_name(Encoding::WinAnsi, c), code_page_1252(c)->0));
    } else if c == 80u8 {
        assert(agl_entry(57) == (spec_base_encoding_name(Encoding::WinAnsi, c), code_page_1252(c)->0));
    } else if c == 81u8 {
        assert(agl_entry(61) == (spec_base_encoding_name(Encoding::WinAnsi, c), code_page_1252(c)->0));
    } else if c == 82u8 {
        assert(agl_entry(62) == (spec_base_encoding_name(Encoding::WinAnsi, c), code_page_1252(c)->0));
    } else if c == 83u8 {
        assert(agl_entry(65) == (spec_base_encoding_name(Encoding::WinAnsi, c), code_page_1252(c)->0));
    } else if c == 84u8 {
        assert(agl_entry(68) == (spec_base_encoding_name(Encoding::WinAnsi, c), code_page_1252(c)->0));
    } else if c == 85u8 {
        assert(agl_entry(72) == (spec_base_encoding_name(Encoding::WinAnsi, c), code_page_1252(c)->0));
    } else if c == 86u8 {
        assert(agl_entry(78) == (spec_base_encoding_name(Encoding::WinAnsi, c), code_page_1252(c)->0));
    } else if c == 87u8 {
        assert(agl_entry(79) == (spec_base_encoding_name(Encoding::WinAnsi, c), code_page_1252(c)->0));
    } else if c == 88u8 {
        assert(agl_entry(80) == (spec_base_encoding_name(Encoding::WinAnsi, c), code_page_1252(c)->0));
    } else if c == 89u8 {
        assert(agl_entry(82) == (spec_base_encoding_name(Encoding::WinAnsi, c), code_page_1252(c)->0));
    } else if c == 90u8 {
        assert(agl_entry(85) == (spec_base_encoding_name(Encoding::WinAnsi, c), code_page_1252(c)->0));
    } else if c == 91u8 {
        assert(agl_entry(125) == (spec_base_encoding_name(Encoding::WinAnsi, c), code_page_1252(c)->0));
    } else if c == 92u8 {
        assert(agl_entry(120) == (spec_base_encoding_name(Encoding::WinAnsi, c), code_page_1252(c)->0));
    } else if c == 93u8 {
        assert(agl_entry(126) == (spec_base_encoding_name(Encoding::WinAnsi, c), code_page_1252(c)->0));
    } else if c == 94u8 {
        assert(agl_entry(113) == (spec_base_encoding_name(Encoding::WinAnsi, c), code_page_1252(c)->0));
    } else if c == 95u8 {
        assert(agl_entry(327) == (spec_base_encoding_name(Encoding::WinAnsi, c), code_page_1252(c)->0));
    } else if c == 96u8 {
        assert(agl_entry(191) == (spec_base_encoding_name(Encoding::WinAnsi, c), code_page_1252(c)->0));
    } else if c == 97u8 {
        assert(agl_entry(88) == (spec_base_encoding_name(Encoding::WinAnsi, c), code_page_1252(c)->0));
    } else if c == 98u8 {
        assert(agl_entry(119) == (spec_base_encoding_name(Encoding::WinAnsi, c), code_page_1252(c)->0));
    } else if c == 99u8 {
        assert(agl_entry(130) == (spec_base_encoding_name(Encoding::WinAnsi, c), code_page_1252(c)->0));
    } else if c == 100u8 {
        assert(agl_entry(145) == (spec_base_encoding_name(Encoding::WinAnsi, c), code_page_1252(c)->0));
    } else if c == 101u8 {
        assert(agl_entry(158) == (spec_base_encoding_name(Encoding::WinAnsi, c), code_page_1252(c)->0));
    } else if c == 102u8 {
        assert(agl_entry(177) == (spec_base_encoding_name(Encoding::WinAnsi, c), code_page_1252(c)->0));
    } else if c == 103u8 {
        assert(agl_entry(187) == (spec_base_encoding_name(Encoding::WinAnsi, c), code_page_1252(c)->0));
    } else if c == 104u8 {
        assert(agl_entry(198) == (spec_base_encoding_name(Encoding::WinAnsi, c), code_page_1252(c)->0));
    } else if c == 105u8 {
        assert(agl_entry(202) == (spec_base_encoding_name(Encoding::WinAnsi, c), code_page_1252(c)->0));
    } else if c == 106u8 {
        assert(agl_entry(211) == (spec_base_encoding_name(Encoding::WinAnsi, c), code_page_1252(c)->0));
    } else if c == 107u8 {
        assert(agl_entry(212) == (spec_base_encoding_name(Encoding::WinAnsi, c), code_page_1252(c)->0));
    } else if c == 108u8 {
        assert(agl_entry(214) == (spec_base_encoding_name(Encoding::WinAnsi, c), code_page_1252(c)->0));
    } else if c == 109u8 {
        assert(agl_entry(223) == (spec_base_encoding_name(Encoding::WinAnsi, c), code_page_1252(c)->0));
    } else if c == 110u8 {
        assert(agl_entry(229) == (spec_base_encoding_name(Encoding::WinAnsi, c), code_page_1252(c)->0));
    } else if c == 111u8 {
        assert(agl_entry(237) == (spec_base_encoding_name(Encoding::WinAnsi, c), code_page_1252(c)->0));
    } else if c == 112u8 {
        assert(agl_entry(255) == (spec_base_encoding_name(Encoding::WinAnsi, c), code_page_1252(c)->0));
    } else if c == 113u8 {
        assert(agl_entry(275) == (spec_base_encoding_name(Encoding::WinAnsi, c), code_page_1252(c)->0));
    } else if c == 114u8 {
        assert(agl_entry(286) == (spec_base_encoding_name(Encoding::WinAnsi, c), code_page_1252(c)->0));
    } else if c == 115u8 {
        assert(agl_entry(294) == (spec_base_encoding_name(Encoding::WinAnsi, c), code_page_1252(c)->0));
    } else if c == 116u8 {
        assert(agl_entry(310) == (spec_base_encoding_name(Encoding::WinAnsi, c), code_page_1252(c)->0));
    } else if c == 117u8 {
        assert(agl_entry(322) == (spec_base_encoding_name(Encoding::WinAnsi, c), code_page_1252(c)->0));
    } else if c == 118u8 {
        assert(agl_entry(331) == (spec_base_encoding_name(Encoding::WinAnsi, c), code_page_1252(c)->0));
    } else if c == 119u8 {
        assert(agl_entry(332) == (spec_base_encoding_name(Encoding::WinAnsi, c), code_page_1252(c)->0));
    } else if c == 120u8 {
        assert(agl_entry(334) == (spec_base_encoding_name(Encoding::WinAnsi, c), code_page_1252(c)->0));
    } else if c == 121u8 {
        assert(agl_entry(336) == (spec_base_encoding_name(Encoding::WinAnsi, c), code_page_1252(c)->0));
    } else if c == 122u8 {
        assert(agl_entry(340) == (spec_base_encoding_name(Encoding::WinAnsi, c), code_page_1252(c)->0));
    } else if c == 123u8 {
        assert(agl_entry(123) == (spec_base_encoding_name(Encoding::WinAnsi, c), code_page_1252(c)->0));
    } else if c == 124u8 {
        assert(agl_entry(121) == (spec_base_encoding_name(Encoding::WinAnsi, c), code_page_1252(c)->0));
    } else if c == 125u8 {
        assert(agl_entry(124) == (spec_base_encoding_name(Encoding::WinAnsi, c), code_page_1252(c)->0));
    } else if c == 126u8 {
        assert(agl_entry(114) == (spec_base_encoding_name(Encoding::WinAnsi, c), code_page_1252(c)->0));
    } else if c == 127u8 {
        assert(spec_base_encoding_name(Encoding::WinAnsi, c) == ""@);
    }
}

#[verifier::rlimit(40)]
proof fn lemma_winansi_128_160(c: u8)
    requires
        128 <= c < 160,
    ensures
        match code_page_1252(c) {
            Some(u) => exists|i: int|
                0 <= i < agl_len() && #[trigger] agl_entry(i) == (spec_base_encoding_name(Encoding::WinAnsi, c), u),
            None => spec_base_encoding_name(Encoding::WinAnsi, c).len() == 0,
        },
{
    reveal_strlit("");
    if c == 128u8 {
        assert(agl_entry(24) == (spec_base_encoding_name(Encoding::WinAnsi, c), code_page_1252(c)->0));
    } else if c == 129u8 {
        assert(spec_base_encoding_name(Encoding::WinAnsi, c) == ""@);
    } else if c == 130u8 {
        assert(agl_entry(284) == (spec_base_encoding_name(Encoding::WinAnsi, c), code_page_1252(c)->0));
    } else if c == 131u8 {
        assert(agl_entry(184) == (spec_base_encoding_name(Encoding::WinAnsi, c), code_page_1252(c)->0));
    } else if c == 132u8 {
        assert(agl_entry(279) == (spec_base_encoding_name(Encoding::WinAnsi, c), code_page_1252(c)->0));
    } else if c == 133u8 {
        assert(agl_entry(165) == (spec_base_encoding_name(Encoding::WinAnsi, c), code_page_1252(c)->0));
    } else if c == 134u8 {
        assert(agl_entry(146) == (spec_base_encoding_name(Encoding::WinAnsi, c), code_page_1252(c)->0));
    } else if c == 135u8 {
        assert(agl_entry(147) == (spec_base_encoding_name(Encoding::WinAnsi, c), code_page_1252(c)->0));
    } else if c == 136u8 {
        assert(agl_entry(138) == (spec_base_encoding_name(Encoding::WinAnsi, c), code_page_1252(c)->0));
    } else if c == 137u8 {
        assert(agl_entry(264) == (spec_base_encoding_name(Encoding::WinAnsi, c), code_page_1252(c)->0));
    } else if c == 138u8 {
        assert(agl_entry(66) == (spec_base_encoding_name(Encoding::WinAnsi, c), code_page_1252(c)->0));
    } else if c == 139u8 {
        assert(agl_entry(196) == (spec_base_encoding_name(Encoding::WinAnsi, c), code_page_1252(c)->0));
    } else if c == 140u8 {
        assert(agl_entry(48) == (spec_base_encoding_name(Encoding::WinAnsi, c), code_page_1252(c)->0));
    } else if c == 141u8 {
        assert(spec_base_encoding_name(Encoding::WinAnsi, c) == ""@);
    } else if c == 142u8 {
        assert(agl_entry(86) == (spec_base_encoding_name(Encoding::WinAnsi, c), code_page_1252(c)->0));
    } else if c == 143u8 {
        assert(spec_base_encoding_name(Encoding::WinAnsi, c) == ""@);
    } else if c == 144u8 {
        assert(spec_base_encoding_name(Encoding::WinAnsi, c) == ""@);
    } else if c == 145u8 {
        assert(agl_entry(282) == (spec_base_encoding_name(Encoding::WinAnsi, c), code_page_1252(c)->0));
    } else if c == 146u8 {
        assert(agl_entry(283) == (spec_base_encoding_name(Encoding::WinAnsi, c), code_page_1252(c)->0));
    } else if c == 147u8 {
        assert(agl_entry(280) == (spec_base_encoding_name(Encoding::WinAnsi, c), code_page_1252(c)->0));
    } else if c == 148u8 {
        assert(agl_entry(281) == (spec_base_encoding_name(Encoding::WinAnsi, c), code_page_1252(c)->0));
    } else if c == 149u8 {
        assert(agl_entry(129) == (spec_base_encoding_name(Encoding::WinAnsi, c), code_page_1252(c)->0));
    } else if c == 150u8 {
        assert(agl_entry(168) == (spec_base_encoding_name(Encoding::WinAnsi, c), code_page_1252(c)->0));
    } else if c == 151u8 {
        assert(agl_entry(166) == (spec_base_encoding_name(Encoding::WinAnsi, c), code_page_1252(c)->0));
    } else if c == 152u8 {
        assert(agl_entry(318) == (spec_base_encoding_name(Encoding::WinAnsi, c), code_page_1252(c)->0));
    } else if c == 153u8 {
        assert(agl_entry(319) == (spec_base_encoding_name(Encoding::WinAnsi, c), code_page_1252(c)->0));
    } else if c == 154u8 {
        assert(agl_entry(295) == (spec_base_encoding_name(Encoding::WinAnsi, c), code_page_1252(c)->0));
    } else if c == 155u8 {
        assert(agl_entry(197) == (spec_base_encoding_name(Encoding::WinAnsi, c), code_page_1252(c)->0));
    } else if c == 156u8 {
        assert(agl_entry(241) == (spec_base_encoding_name(Encoding::WinAnsi, c), code_page_1252(c)->0));
    } else if c == 157u8 {
        assert(spec_base_encoding_name(Encoding::WinAnsi, c) == ""@);
    } else if c == 158u8 {
        assert(agl_entry(341) == (spec_base_encoding_name(Encoding::WinAnsi, c), code_page_1252(c)->0));
    } else if c == 159u8 {
        assert(agl_entry(84) == (spec_base_encoding_name(Encoding::WinAnsi, c), code_page_1252(c)->0));
    }
}

#[verifier::rlimit(40)]
proof fn lemma_winansi_160_208(c: u8)
    requires
        160 <= c < 208,
    ensures
        match code_page_1252(c) {
            Some(u) => exists|i: int|
                0 <= i < agl_len() && #[trigger] agl_entry(i) == (spec_base_encoding_name(Encoding::WinAnsi, c), u),
            None => spec_base_encoding_name(Encoding::WinAnsi, c).len() == 0,
        },
{
    reveal_strlit("");
    if c == 160u8 {
        assert(spec_base_encoding_name(Encoding::WinAnsi, c) == ""@);
    } else if c == 161u8 {
        assert(agl_entry(175) == (spec_base_encoding_name(Encoding::WinAnsi, c), code_page_1252(c)->0));
    } else if c == 162u8 {
        assert(agl_entry(134) == (spec_base_encoding_name(Encoding::WinAnsi, c), code_page_1252(c)->0));
    } else if c == 163u8 {
        assert(agl_entry(307) == (spec_base_encoding_name(Encoding::WinAnsi, c), code_page_1252(c)->0));
    } else if c == 164u8 {
        assert(agl_entry(144) == (spec_base_encoding_name(Encoding::WinAnsi, c), code_page_1252(c)->0));
    } else if c == 165u8 {
        assert(agl_entry(339) == (spec_base_encoding_name(Encoding::WinAnsi, c), code_page_1252(c)->0));
    } else if c == 166u8 {
        assert(agl_entry(128) == (spec_base_encoding_name(Encoding::WinAnsi, c), code_page_1252(c)->0));
    } else if c == 167u8 {
        assert(agl_entry(297) == (spec_base_encoding_name(Encoding::WinAnsi, c), code_page_1252(c)->0));
    } else if c == 168u8 {
        assert(agl_entry(151) == (spec_base_encoding_name(Encoding::WinAnsi, c), code_page_1252(c)->0));
    } else if c == 169u8 {
        assert(agl_entry(143) == (spec_base_encoding_name(Encoding::WinAnsi, c), code_page_1252(c)->0));
    } else if c == 170u8 {
        assert(agl_entry(251) == (spec_base_encoding_name(Encoding::WinAnsi, c), code_page_1252(c)->0));
    } else if c == 171u8 {
        assert(agl_entry(194) == (spec_base_encoding_name(Encoding::WinAnsi, c), code_page_1252(c)->0));
    } else if c == 172u8 {
        assert(agl_entry(219) == (spec_base_encoding_name(Encoding::WinAnsi, c), code_page_1252(c)->0));
    } else if c == 173u8 {
        assert(agl_entry(201) == (spec_base_encoding_name(Encoding::WinAnsi, c), code_page_1252(c)->0));
    } else if c == 174u8 {
        assert(agl_entry(291) == (spec_base_encoding_name(Encoding::WinAnsi, c), code_page_1252(c)->0));
    } else if c == 175u8 {
        assert(agl_entry(224) == (spec_base_encoding_name(Encoding::WinAnsi, c), code_page_1252(c)->0));
    } else if c == 176u8 {
        assert(agl_entry(148) == (spec_base_encoding_name(Encoding::WinAnsi, c), code_page_1252(c)->0));
    } else if c == 177u8 {
        assert(agl_entry(269) == (spec_base_encoding_name(Encoding::WinAnsi, c), code_page_1252(c)->0));
    } else if c == 178u8 {
        assert(agl_entry(321) == (spec_base_encoding_name(Encoding::WinAnsi, c), code_page_1252(c)->0));
    } else if c == 179u8 {
        assert(agl_entry(317) == (spec_base_encoding_name(Encoding::WinAnsi, c), code_page_1252(c)->0));
    } else if c == 180u8 {
        assert(agl_entry(91) == (spec_base_encoding_name(Encoding::WinAnsi, c), code_page_1252(c)->0));
    } else if c == 181u8 {
        assert(agl_entry(227) == (spec_base_encoding_name(Encoding::WinAnsi, c), code_page_1252(c)->0));
    } else if c == 182u8 {
        assert(agl_entry(256) == (spec_base_encoding_name(Encoding::WinAnsi, c), code_page_1252(c)->0));
    } else if c == 183u8 {
        assert(agl_entry(262) == (spec_base_encoding_name(Encoding::WinAnsi, c), code_page_1252(c)->0));
    } else if c == 184u8 {
        assert(agl_entry(133) == (spec_base_encoding_name(Encoding::WinAnsi, c), code_page_1252(c)->0));
    } else if c == 185u8 {
        assert(agl_entry(250) == (spec_base_encoding_name(Encoding::WinAnsi, c), code_page_1252(c)->0));
    } else if c == 186u8 {
        assert(agl_entry(252) == (spec_base_encoding_name(Encoding::WinAnsi, c), code_page_1252(c)->0));
    } else if c == 187u8 {
        assert(agl_entry(195) == (spec_base_encoding_name(Encoding::WinAnsi, c), code_page_1252(c)->0));
    } else if c == 188u8 {
        assert(agl_entry(249) == (spec_base_encoding_name(Encoding::WinAnsi, c), code_page_1252(c)->0));
    } else if c == 189u8 {
        assert(agl_entry(248) == (spec_base_encoding_name(Encoding::WinAnsi, c), code_page_1252(c)->0));
    } else if c == 190u8 {
        assert(agl_entry(316) == (spec_base_encoding_name(Encoding::WinAnsi, c), code_page_1252(c)->0));
    } else if c == 191u8 {
        assert(agl_entry(277) == (spec_base_encoding_name(Encoding::WinAnsi, c), code_page_1252(c)->0));
    } else if c == 192u8 {
        assert(agl_entry(5) == (spec_base_encoding_name(Encoding::WinAnsi, c), code_page_1252(c)->0));
    } else if c == 193u8 {
        assert(agl_entry(2) == (spec_base_encoding_name(Encoding::WinAnsi, c), code_page_1252(c)->0));
    } else if c == 194u8 {
        assert(agl_entry(3) == (spec_base_encoding_name(Encoding::WinAnsi, c), code_page_1252(c)->0));
    } else if c == 195u8 {
        assert(agl_entry(8) == (spec_base_encoding_name(Encoding::WinAnsi, c), code_page_1252(c)->0));
    } else if c == 196u8 {
        assert(agl_entry(4) == (spec_base_encoding_name(Encoding::WinAnsi, c), code_page_1252(c)->0));
    } else if c == 197u8 {
        assert(agl_entry(7) == (spec_base_encoding_name(Encoding::WinAnsi, c), code_page_1252(c)->0));
    } else if c == 198u8 {
        assert(agl_entry(1) == (spec_base_encoding_name(Encoding::WinAnsi, c), code_page_1252(c)->0));
    } else if c == 199u8 {
        assert(agl_entry(12) == (spec_base_encoding_name(Encoding::WinAnsi, c), code_page_1252(c)->0));
    } else if c == 200u8 {
        assert(agl_entry(20) == (spec_base_encoding_name(Encoding::WinAnsi, c), code_page_1252(c)->0));
    } else if c == 201u8 {
        assert(agl_entry(17) == (spec_base_encoding_name(Encoding::WinAnsi, c), code_page_1252(c)->0));
    } else if c == 202u8 {
        assert(agl_entry(18) == (spec_base_encoding_name(Encoding::WinAnsi, c), code_page_1252(c)->0));
    } else if c == 203u8 {
        assert(agl_entry(19) == (spec_base_encoding_name(Encoding::WinAnsi, c), code_page_1252(c)->0));
    } else if c == 204u8 {
        assert(agl_entry(34) == (spec_base_encoding_name(Encoding::WinAnsi, c), code_page_1252(c)->0));
    } else if c == 205u8 {
        assert(agl_entry(30) == (spec_base_encoding_name(Encoding::WinAnsi, c), code_page_1252(c)->0));
    } else if c == 206u8 {
        assert(agl_entry(31) == (spec_base_encoding_name(Encoding::WinAnsi, c), code_page_1252(c)->0));
    } else if c == 207u8 {
        assert(agl_entry(32) == (spec_base_encoding_name(Encoding::WinAnsi, c), code_page_1252(c)->0));
    }
}

#[verifier::rlimit(40)]
proof fn lemma_winansi_208_256(c: u8)
    requires
        208 <= c < 256,
    ensures
        match code_page_1252(c) {
            Some(u) => exists|i: int|
                0 <= i < agl_len() && #[trigger] agl_entry(i) == (spec_base_encoding_name(Encoding::WinAnsi, c), u),
            None => spec_base_encoding_name(Encoding::WinAnsi, c).len() == 0,
        },
{
    reveal_strlit("");
    if c == 208u8 {
        assert(agl_entry(23) == (spec_base_encoding_name(Encoding::WinAnsi, c), code_page_1252(c)->0));
    } else if c == 209u8 {
        assert(agl_entry(45) == (spec_base_encoding_name(Encoding::WinAnsi, c), code_page_1252(c)->0));
    } else if c == 210u8 {
        assert(agl_entry(52) == (spec_base_encoding_name(Encoding::WinAnsi, c), code_page_1252(c)->0));
    } else if c == 211u8 {
        assert(agl_entry(49) == (spec_base_encoding_name(Encoding::WinAnsi, c), code_page_1252(c)->0));
    } else if c == 212u8 {
        assert(agl_entry(50) == (spec_base_encoding_name(Encoding::WinAnsi, c), code_page_1252(c)->0));
    } else if c == 213u8 {
        assert(agl_entry(56) == (spec_base_encoding_name(Encoding::WinAnsi, c), code_page_1252(c)->0));
    } else if c == 214u8 {
        assert(agl_entry(51) == (spec_base_encoding_name(Encoding::WinAnsi, c), code_page_1252(c)->0));
    } else if c == 215u8 {
        assert(agl_entry(228) == (spec_base_encoding_name(Encoding::WinAnsi, c), code_page_1252(c)->0));
    } else if c == 216u8 {
        assert(agl_entry(55) == (spec_base_encoding_name(Encoding::WinAnsi, c), code_page_1252(c)->0));
    } else if c == 217u8 {
        assert(agl_entry(76) == (spec_base_encoding_name(Encoding::WinAnsi, c), code_page_1252(c)->0));
    } else if c == 218u8 {
        assert(agl_entry(73) == (spec_base_encoding_name(Encoding::WinAnsi, c), code_page_1252(c)->0));
    } else if c == 219u8 {
        assert(agl_entry(74) == (spec_base_encoding_name(Encoding::WinAnsi, c), code_page_1252(c)->0));
    } else if c == 220u8 {
        assert(agl_entry(75) == (spec_base_encoding_name(Encoding::WinAnsi, c), code_page_1252(c)->0));
    } else if c == 221u8 {
        assert(agl_entry(83) == (spec_base_encoding_name(Encoding::WinAnsi, c), code_page_1252(c)->0));
    } else if c == 222u8 {
        assert(agl_entry(71) == (spec_base_encoding_name(Encoding::WinAnsi, c), code_page_1252(c)->0));
    } else if c == 223u8 {
        assert(agl_entry(189) == (spec_base_encoding_name(Encoding::WinAnsi, c), code_page_1252(c)->0));
    } else if c == 224u8 {
        assert(agl_entry(94) == (spec_base_encoding_name(Encoding::WinAnsi, c), code_page_1252(c)->0));
    } else if c == 225u8 {
        assert(agl_entry(89) == (spec_base_encoding_name(Encoding::WinAnsi, c), code_page_1252(c)->0));
    } else if c == 226u8 {
        assert(agl_entry(90) == (spec_base_encoding_name(Encoding::WinAnsi, c), code_page_1252(c)->0));
    } else if c == 227u8 {
        assert(agl_entry(118) == (spec_base_encoding_name(Encoding::WinAnsi, c), code_page_1252(c)->0));
    } else if c == 228u8 {
        assert(agl_entry(92) == (spec_base_encoding_name(Encoding::WinAnsi, c), code_page_1252(c)->0));
    } else if c == 229u8 {
        assert(agl_entry(102) == (spec_base_encoding_name(Encoding::WinAnsi, c), code_page_1252(c)->0));
    } else if c == 230u8 {
        assert(agl_entry(93) == (spec_base_encoding_name(Encoding::WinAnsi, c), code_page_1252(c)->0));
    } else if c == 231u8 {
        assert(agl_entry(132) == (spec_base_encoding_name(Encoding::WinAnsi, c), code_page_1252(c)->0));
    } else if c == 232u8 {
        assert(agl_entry(162) == (spec_base_encoding_name(Encoding::WinAnsi, c), code_page_1252(c)->0));
    } else if c == 233u8 {
        assert(agl_entry(159) == (spec_base_encoding_name(Encoding::WinAnsi, c), code_page_1252(c)->0));
    } else if c == 234u8 {
        assert(agl_entry(160) == (spec_base_encoding_name(Encoding::WinAnsi, c), code_page_1252(c)->0));
    } else if c == 235u8 {
        assert(agl_entry(161) == (spec_base_encoding_name(Encoding::WinAnsi, c), code_page_1252(c)->0));
    } else if c == 236u8 {
        assert(agl_entry(206) == (spec_base_encoding_name(Encoding::WinAnsi, c), code_page_1252(c)->0));
    } else if c == 237u8 {
        assert(agl_entry(203) == (spec_base_encoding_name(Encoding::WinAnsi, c), code_page_1252(c)->0));
    } else if c == 238u8 {
        assert(agl_entry(204) == (spec_base_encoding_name(Encoding::WinAnsi, c), code_page_1252(c)->0));
    } else if c == 239u8 {
        assert(agl_entry(205) == (spec_base_encoding_name(Encoding::WinAnsi, c), code_page_1252(c)->0));
    } else if c == 240u8 {
        assert(agl_entry(173) == (spec_base_encoding_name(Encoding::WinAnsi, c), code_page_1252(c)->0));
    } else if c == 241u8 {
        assert(agl_entry(234) == (spec_base_encoding_name(Encoding::WinAnsi, c), code_page_1252(c)->0));
    } else if c == 242u8 {
        assert(agl_entry(243) == (spec_base_encoding_name(Encoding::WinAnsi, c), code_page_1252(c)->0));
    } else if c == 243u8 {
        assert(agl_entry(238) == (spec_base_encoding_name(Encoding::WinAnsi, c), code_page_1252(c)->0));
    } else if c == 244u8 {
        assert(agl_entry(239) == (spec_base_encoding_name(Encoding::WinAnsi, c), code_page_1252(c)->0));
    } else if c == 245u8 {
        assert(agl_entry(254) == (spec_base_encoding_name(Encoding::WinAnsi, c), code_page_1252(c)->0));
    } else if c == 246u8 {
        assert(agl_entry(240) == (spec_base_encoding_name(Encoding::WinAnsi, c), code_page_1252(c)->0));
    } else if c == 247u8 {
        assert(agl_entry(152) == (spec_base_encoding_name(Encoding::WinAnsi, c), code_page_1252(c)->0));
    } else if c == 248u8 {
        assert(agl_entry(253) == (spec_base_encoding_name(Encoding::WinAnsi, c), code_page_1252(c)->0));
    } else if c == 249u8 {
        assert(agl_entry(326) == (spec_base_encoding_name(Encoding::WinAnsi, c), code_page_1252(c)->0));
    } else if c == 250u8 {
        assert(agl_entry(323) == (spec_base_encoding_name(Encoding::WinAnsi, c), code_page_1252(c)->0));
    } else if c == 251u8 {
        assert(agl_entry(324) == (spec_base_encoding_name(Encoding::WinAnsi, c), code_page_1252(c)->0));
    } else if c == 252u8 {
        assert(agl_entry(325) == (spec_base_encoding_name(Encoding::WinAnsi, c), code_page_1252(c)->0));
    } else if c == 253u8 {
        assert(agl_entry(337) == (spec_base_encoding_name(Encoding::WinAnsi, c), code_page_1252(c)->0));
    } else if c == 254u8 {
        assert(agl_entry(314) == (spec_base_encoding_name(Encoding::WinAnsi, c), code_page_1252(c)->0));
    } else if c == 255u8 {
        assert(agl_entry(338) == (spec_base_encoding_name(Encoding::WinAnsi, c), code_page_1252(c)->0));
    }
}

/// WinAnsiEncoding is code page 1252 (PDF Annex D): the glyph list gives each named slot the
/// character code page 1252 puts there, and the slots it leaves out are empty.
pub proof fn winansi_is_code_page_1252(c: u8)
    ensures
        match code_page_1252(c) {
            Some(u) => exists|i: int|
                0 <= i < agl_len() && #[trigger] agl_entry(i) == (spec_base_encoding_name(Encoding::WinAnsi, c), u),
            None => spec_base_encoding_name(Encoding::WinAnsi, c).len() == 0,
        },
{
    if c < 64 {
        lemma_winansi_0_64(c);
    } else if c < 128 {
        lemma_winansi_64_128(c);
    } else if c < 160 {
        lemma_winansi_128_160(c);
    } else if c < 208 {
        lemma_winansi_160_208(c);
    } else {
        lemma_winansi_208_256(c);
    }
}

/// The character MacRomanEncoding gives code `c`: the Mac OS Roman character set from space to
/// `~` and from 0x80 on, as the PDF table has it: 0xCA is a second space, 0xDB the currency sign
/// and 0xC6 Greek capital delta, while 0xAD, 0xBD and 0xF0 are left out.
pub open spec fn mac_os_roman(c: u8) -> Option<char> {
    match c {
        32u8 => Some('\u{20}'),
        33u8 => Some('\u{21}'),
        34u8 => Some('\u{22}'),
        35u8 => Some('\u{23}'),
        36u8 => Some('\u{24}'),
        37u8 => Some('\u{25}'),
        38u8 => Some('\u{26}'),
        39u8 => Some('\u{27}'),
        40u8 => Some('\u{28}'),
        41u8 => Some('\u{29}'),
        42u8 => Some('\u{2a}'),
        43u8 => Some('\u{2b}'),
        44u8 => Some('\u{2c}'),
        45u8 => Some('\u{2d}'),
        46u8 => Some('\u{2e}'),
        47u8 => Some('\u{2f}'),
        48u8 => Some('\u{30}'),
        49u8 => Some('\u{31}'),
        50u8 => Some('\u{32}'),
        51u8 => Some('\u{33}'),
        52u8 => Some('\u{34}'),
        53u8 => Some('\u{35}'),
        54u8 => Some('\u{36}'),
        55u8 => Some('\u{37}'),
        56u8 => Some('\u{38}'),
        57u8 => Some('\u{39}'),
        58u8 => Some('\u{3a}'),
        59u8 => Some('\u{3b}'),
        60u8 => Some('\u{3c}'),
        61u8 => Some('\u{3d}'),
        62u8 => Some('\u{3e}'),
        63u8 => Some('\u{3f}'),
        64u8 => Some('\u{40}'),
        65u8 => Some('\u{41}'),
        66u8 => Some('\u{42}'),
        67u8 => Some('\u{43}'),
        68u8 => Some('\u{44}'),
        69u8 => Some('\u{45}'),
        70u8 => Some('\u{46}'),
        71u8 => Some('\u{47}'),
        72u8 => Some('\u{48}'),
        73u8 => Some('\u{49}'),
        74u8 => Some('\u{4a}'),
        75u8 => Some('\u{4b}'),
        76u8 => Some('\u{4c}'),
        77u8 => Some('\u{4d}'),
        78u8 => Some('\u{4e}'),
        79u8 => Some('\u{4f}'),
        80u8 => Some('\u{50}'),
        81u8 => Some('\u{51}'),
        82u8 => Some('\u{52}'),
        83u8 => Some('\u{53}'),
        84u8 => Some('\u{54}'),
        85u8 => Some('\u{55}'),
        86u8 => Some('\u{56}'),
        87u8 => Some('\u{57}'),
        88u8 => Some('\u{58}'),
        89u8 => Some('\u{59}'),
        90u8 => Some('\u{5a}'),
        91u8 => Some('\u{5b}'),
        92u8 => Some('\u{5c}'),
        93u8 => Some('\u{5d}'),
        94u8 => Some('\u{5e}'),
        95u8 => Some('\u{5f}'),
        96u8 => Some('\u{60}'),
        97u8 => Some('\u{61}'),
        98u8 => Some('\u{62}'),
        99u8 => Some('\u{63}'),
        100u8 => Some('\u{64}'),
        101u8 => Some('\u{65}'),
        102u8 => Some('\u{66}'),
        103u8 => Some('\u{67}'),
        104u8 => Some('\u{68}'),
        105u8 => Some('\u{69}'),
        106u8 => Some('\u{6a}'),
        107u8 => Some('\u{6b}'),
        108u8 => Some('\u{6c}'),
        109u8 => Some('\u{6d}'),
        110u8 => Some('\u{6e}'),
        111u8 => Some('\u{6f}'),
        112u8 => Some('\u{70}'),
        113u8 => Some('\u{71}'),
        114u8 => Some('\u{72}'),
        115u8 => Some('\u{73}'),
        116u8 => Some('\u{74}'),
        117u8 => Some('\u{75}'),
        118u8 => Some('\u{76}'),
        119u8 => Some('\u{77}'),
        120u8 => Some('\u{78}'),
        121u8 => Some('\u{79}'),
        122u8 => Some('\u{7a}'),
        123u8 => Some('\u{7b}'),
        124u8 => Some('\u{7c}'),
        125u8 => Some('\u{7d}'),
        126u8 => Some('\u{7e}'),
        128u8 => Some('\u{c4}'),
        129u8 => Some('\u{c5}'),
        130u8 => Some('\u{c7}'),
        131u8 => Some('\u{c9}'),
        132u8 => Some('\u{d1}'),
        133u8 => Some('\u{d6}'),
        134u8 => Some('\u{dc}'),
        135u8 => Some('\u{e1}'),
        136u8 => Some('\u{e0}'),
        137u8 => Some('\u{e2}'),
        138u8 => Some('\u{e4}'),
        139u8 => Some('\u{e3}'),
        140u8 => Some('\u{e5}'),
        141u8 => Some('\u{e7}'),
        142u8 => Some('\u{e9}'),
        143u8 => Some('\u{e8}'),
        144u8 => Some('\u{ea}'),
        145u8 => Some('\u{eb}'),
        146u8 => Some('\u{ed}'),
        147u8 => Some('\u{ec}'),
        148u8 => Some('\u{ee}'),
        149u8 => Some('\u{ef}'),
        150u8 => Some('\u{f1}'),
        151u8 => Some('\u{f3}'),
        152u8 => Some('\u{f2}'),
        153u8 => Some('\u{f4}'),
        154u8 => Some('\u{f6}'),
        155u8 => Some('\u{f5}'),
        156u8 => Some('\u{fa}'),
        157u8 => Some('\u{f9}'),
        158u8 => Some('\u{fb}'),
        159u8 => Some('\u{fc}'),
        160u8 => Some('\u{2020}'),
        161u8 => Some('\u{b0}'),
        162u8 => Some('\u{a2}'),
        163u8 => Some('\u{a3}'),
        164u8 => Some('\u{a7}'),
        165u8 => Some('\u{2022}'),
        166u8 => Some('\u{b6}'),
        167u8 => Some('\u{df}'),
        168u8 => Some('\u{ae}'),
        169u8 => Some('\u{a9}'),
        170u8 => Some('\u{2122}'),
        171u8 => Some('\u{b4}'),
        172u8 => Some('\u{a8}'),
        174u8 => Some('\u{c6}'),
        175u8 => Some('\u{d8}'),
        176u8 => Some('\u{221e}'),
        177u8 => Some('\u{b1}'),
        178u8 => Some('\u{2264}'),
        179u8 => Some('\u{2265}'),
        180u8 => Some('\u{a5}'),
        181u8 => Some('\u{b5}'),
        182u8 => Some('\u{2202}'),
        183u8 => Some('\u{2211}'),
        184u8 => Some('\u{220f}'),
        185u8 => Some('\u{3c0}'),
        186u8 => Some('\u{222b}'),
        187u8 => Some('\u{aa}'),
        188u8 => Some('\u{ba}'),
        190u8 => Some('\u{e6}'),
        191u8 => Some('\u{f8}'),
        192u8 => Some('\u{bf}'),
        193u8 => Some('\u{a1}'),
        194u8 => Some('\u{ac}'),
        195u8 => Some('\u{221a}'),
        196u8 => Some('\u{192}'),
        197u8 => Some('\u{2248}'),
        198u8 => Some('\u{394}'),
        199u8 => Some('\u{ab}'),
        200u8 => Some('\u{bb}'),
        201u8 => Some('\u{2026}'),
        202u8 => Some('\u{20}'),
        203u8 => Some('\u{c0}'),
        204u8 => Some('\u{c3}'),
        205u8 => Some('\u{d5}'),
        206u8 => Some('\u{152}'),
        207u8 => Some('\u{153}'),
        208u8 => Some('\u{2013}'),
        209u8 => Some('\u{2014}'),
        210u8 => Some('\u{201c}'),
        211u8 => Some('\u{201d}'),
        212u8 => Some('\u{2018}'),
        213u8 => Some('\u{2019}'),
        214u8 => Some('\u{f7}'),
        215u8 => Some('\u{25ca}'),
        216u8 => Some('\u{ff}'),
        217u8 => Some('\u{178}'),
        218u8 => Some('\u{2044}'),
        219u8 => Some('\u{a4}'),
        220u8 => Some('\u{2039}'),
        221u8 => Some('\u{203a}'),
        222u8 => Some('\u{fb01}'),
        223u8 => Some('\u{fb02}'),
        224u8 => Some('\u{2021}'),
        225u8 => Some('\u{b7}'),
        226u8 => Some('\u{201a}'),
        227u8 => Some('\u{201e}'),
        228u8 => Some('\u{2030}'),
        229u8 => Some('\u{c2}'),
        230u8 => Some('\u{ca}'),
        231u8 => Some('\u{c1}'),
        232u8 => Some('\u{cb}'),
        233u8 => Some('\u{c8}'),
        234u8 => Some('\u{cd}'),
        235u8 => Some('\u{ce}'),
        236u8 => Some('\u{cf}'),
        237u8 => Some('\u{cc}'),
        238u8 => Some('\u{d3}'),
        239u8 => Some('\u{d4}'),
        241u8 => Some('\u{d2}'),
        242u8 => Some('\u{da}'),
        243u8 => Some('\u{db}'),
        244u8 => Some('\u{d9}'),
        245u8 => Some('\u{131}'),
        246u8 => Some('\u{2c6}'),
        247u8 => Some('\u{2dc}'),
        248u8 => Some('\u{af}'),
        249u8 => Some('\u{2d8}'),
        250u8 => Some('\u{2d9}'),
        251u8 => Some('\u{2da}'),
        252u8 => Some('\u{b8}'),
        253u8 => Some('\u{2dd}'),
        254u8 => Some('\u{2db}'),
        255u8 => Some('\u{2c7}'),
        _ => None,
    }
}

#[verifier::rlimit(40)]
proof fn lemma_macroman_0_64(c: u8)
    requires
        0 <= c < 64,
    ensures
        match mac_os_roman(c) {
            Some(u) => exists|i: int|
                0 <= i < agl_len() && #[trigger] agl_entry(i) == (spec_base_encoding_name(Encoding::MacRoman, c), u),
            None => spec_base_encoding_name(Encoding::MacRoman, c).len() == 0,
        },
{
    reveal_strlit("");
    if c == 0u8 {
        assert(spec_base_encoding_name(Encoding::MacRoman, c) == ""@);
    } else if c == 1u8 {
        assert(spec_base_encoding_name(Encoding::MacRoman, c) == ""@);
    } else if c == 2u8 {
        assert(spec_base_encoding_name(Encoding::MacRoman, c) == ""@);
    } else if c == 3u8 {
        assert(spec_base_encoding_name(Encoding::MacRoman, c) == ""@);
    } else if c == 4u8 {
        assert(spec_base_encoding_name(Encoding::MacRoman, c) == ""@);
    } else if c == 5u8 {
        assert(spec_base_encoding_name(Encoding::MacRoman, c) == ""@);
    } else if c == 6u8 {
        assert(spec_base_encoding_name(Encoding::MacRoman, c) == ""@);
    } else if c == 7u8 {
        assert(spec_base_encoding_name(Encoding::MacRoman, c) == ""@);
    } else if c == 8u8 {
        assert(spec_base_encoding_name(Encoding::MacRoman, c) == ""@);
    } else if c == 9u8 {
        assert(spec_base_encoding_name(Encoding::MacRoman, c) == ""@);
    } else if c == 10u8 {
        assert(spec_base_encoding_name(Encoding::MacRoman, c) == ""@);
    } else if c == 11u8 {
        assert(spec_base_encoding_name(Encoding::MacRoman, c) == ""@);
    } else if c == 12u8 {
        assert(spec_base_encoding_name(Encoding::MacRoman, c) == ""@);
    } else if c == 13u8 {
        assert(spec_base_encoding_name(Encoding::MacRoman, c) == ""@);
    } else if c == 14u8 {
        assert(spec_base_encoding_name(Encoding::MacRoman, c) == ""@);
    } else if c == 15u8 {
        assert(spec_base_encoding_name(Encoding::MacRoman, c) == ""@);
    } else if c == 16u8 {
        assert(spec_base_encoding_name(Encoding::MacRoman, c) == ""@);
    } else if c == 17u8 {
        assert(spec_base_encoding_name(Encoding::MacRoman, c) == ""@);
    } else if c == 18u8 {
        assert(spec_base_encoding_name(Encoding::MacRoman, c) == ""@);
    } else if c == 19u8 {
        assert(spec_base_encoding_name(Encoding::MacRoman, c) == ""@);
    } else if c == 20u8 {
        assert(spec_base_encoding_name(Encoding::MacRoman, c) == ""@);
    } else if c == 21u8 {
        assert(spec_base_encoding_name(Encoding::MacRoman, c) == ""@);
    } else if c == 22u8 {
        assert(spec_base_encoding_name(Encoding::MacRoman, c) == ""@);
    } else if c == 23u8 {
        assert(spec_base_encoding_name(Encoding::MacRoman, c) == ""@);
    } else if c == 24u8 {
        assert(spec_base_encoding_name(Encoding::MacRoman, c) == ""@);
    } else if c == 25u8 {
        assert(spec_base_encoding_name(Encoding::MacRoman, c) == ""@);
    } else if c == 26u8 {
        assert(spec_base_encoding_name(Encoding::MacRoman, c) == ""@);
    } else if c == 27u8 {
        assert(spec_base_encoding_name(Encoding::MacRoman, c) == ""@);
    } else if c == 28u8 {
        assert(spec_base_encoding_name(Encoding::MacRoman, c) == ""@);
    } else if c == 29u8 {
        assert(spec_base_encoding_name(Encoding::MacRoman, c) == ""@);
    } else if c == 30u8 {
        assert(spec_base_encoding_name(Encoding::MacRoman, c) == ""@);
    } else if c == 31u8 {
        assert(spec_base_encoding_name(Encoding::MacRoman, c) == ""@);
    } else if c == 32u8 {
        assert(agl_entry(305) == (spec_base_encoding_name(Encoding::MacRoman, c), mac_os_roman(c)->0));
    } else if c == 33u8 {
        assert(agl_entry(174) == (spec_base_encoding_name(Encoding::MacRoman, c), mac_os_roman(c)->0));
    } else if c == 34u8 {
        assert(agl_entry(278) == (spec_base_encoding_name(Encoding::MacRoman, c), mac_os_roman(c)->0));
    } else if c == 35u8 {
        assert(agl_entry(236) == (spec_base_encoding_name(Encoding::MacRoman, c), mac_os_roman(c)->0));
    } else if c == 36u8 {
        assert(agl_entry(153) == (spec_base_encoding_name(Encoding::MacRoman, c), mac_os_roman(c)->0));
    } else if c == 37u8 {
        assert(agl_entry(260) == (spec_base_encoding_name(Encoding::MacRoman, c), mac_os_roman(c)->0));
    } else if c == 38u8 {
        assert(agl_entry(97) == (spec_base_encoding_name(Encoding::MacRoman, c), mac_os_roman(c)->0));
    } else if c == 39u8 {
        assert(agl_entry(285) == (spec_base_encoding_name(Encoding::MacRoman, c), mac_os_roman(c)->0));
    } else if c == 40u8 {
        assert(agl_entry(257) == (spec_base_encoding_name(Encoding::MacRoman, c), mac_os_roman(c)->0));
    } else if c == 41u8 {
        assert(agl_entry(258) == (spec_base_encoding_name(Encoding::MacRoman, c), mac_os_roman(c)->0));
    } else if c == 42u8 {
        assert(agl_entry(115) == (spec_base_encoding_name(Encoding::MacRoman, c), mac_os_roman(c)->0));
    } else if c == 43u8 {
        assert(agl_entry(268) == (spec_base_encoding_name(Encoding::MacRoman, c), mac_os_roman(c)->0));
    } else if c == 44u8 {
        assert(agl_entry(141) == (spec_base_encoding_name(Encoding::MacRoman, c), mac_os_roman(c)->0));
    } else if c == 45u8 {
        assert(agl_entry(201) == (spec_base_encoding_name(Encoding::MacRoman, c), mac_os_roman(c)->0));
    } else if c == 46u8 {
        assert(agl_entry(261) == (spec_base_encoding_name(Encoding::MacRoman, c), mac_os_roman(c)->0));
    } else if c == 47u8 {
        assert(agl_entry(304) == (spec_base_encoding_name(Encoding::MacRoman, c), mac_os_roman(c)->0));
    } else if c == 48u8 {
        assert(agl_entry(342) == (spec_base_encoding_name(Encoding::MacRoman, c), mac_os_roman(c)->0));
    } else if c == 49u8 {
        assert(agl_entry(247) == (spec_base_encoding_name(Encoding::MacRoman, c), mac_os_roman(c)->0));
    } else if c == 50u8 {
        assert(agl_entry(320) == (spec_base_encoding_name(Encoding::MacRoman, c), mac_os_roman(c)->0));
    } else if c == 51u8 {
        assert(agl_entry(315) == (spec_base_encoding_name(Encoding::MacRoman, c), mac_os_roman(c)->0));
    } else if c == 52u8 {
        assert(agl_entry(185) == (spec_base_encoding_name(Encoding::MacRoman, c), mac_os_roman(c)->0));
    } else if c == 53u8 {
        assert(agl_entry(182) == (spec_base_encoding_name(Encoding::MacRoman, c), mac_os_roman(c)->0));
    } else if c == 54u8 {
        assert(agl_entry(303) == (spec_base_encoding_name(Encoding::MacRoman, c), mac_os_roman(c)->0));
    } else if c == 55u8 {
        assert(agl_entry(299) == (spec_base_encoding_name(Encoding::MacRoman, c), mac_os_roman(c)->0));
    } else if c == 56u8 {
        assert(agl_entry(163) == (spec_base_encoding_name(Encoding::MacRoman, c), mac_os_roman(c)->0));
    } else if c == 57u8 {
        assert(agl_entry(230) == (spec_base_encoding_name(Encoding::MacRoman, c), mac_os_roman(c)->0));
    } else if c == 58u8 {
        assert(agl_entry(140) == (spec_base_encoding_name(Encoding::MacRoman, c), mac_os_roman(c)->0));
    } else if c == 59u8 {
        assert(agl_entry(298) == (spec_base_encoding_name(Encoding::MacRoman, c), mac_os_roman(c)->0));
    } else if c == 60u8 {
        assert(agl_entry(216) == (spec_base_encoding_name(Encoding::MacRoman, c), mac_os_roman(c)->0));
    } else if c == 61u8 {
        assert(agl_entry(170) == (spec_base_encoding_name(Encoding::MacRoman, c), mac_os_roman(c)->0));
    } else if c == 62u8 {
        assert(agl_entry(192) == (spec_base_encoding_name(Encoding::MacRoman, c), mac_os_roman(c)->0));
    } else if c == 63u8 {
        assert(agl_entry(276) == (spec_base_encoding_name(Encoding::MacRoman, c), mac_os_roman(c)->0));
    }
}

#[verifier::rlimit(40)]
proof fn lemma_macroman_64_128(c: u8)
    requires
        64 <= c < 128,
    ensures
        match mac_os_roman(c) {
            Some(u) => exists|i: int|
                0 <= i < agl_len() && #[trigger] agl_entry(i) == (spec_base_encoding_name(Encoding::MacRoman, c), u),
            None => spec_base_encoding_name(Encoding::MacRoman, c).len() == 0,
        },
{
    reveal_strlit("");
    if c == 64u8 {
        assert(agl_entry(117) == (spec_base_encoding_name(Encoding::MacRoman, c), mac_os_roman(c)->0));
    } else if c == 65u8 {
        assert(agl_entry(0) == (spec_base_encoding_name(Encoding::MacRoman, c), mac_os_roman(c)->0));
    } else if c == 66u8 {
        assert(agl_entry(9) == (spec_base_encoding_name(Encoding::MacRoman, c), mac_os_roman(c)->0));
    } else if c == 67u8 {
        assert(agl_entry(11) == (spec_base_encoding_name(Encoding::MacRoman, c), mac_os_roman(c)->0));
    } else if c == 68u8 {
        assert(agl_entry(14) == (spec_base_encoding_name(Encoding::MacRoman, c), mac_os_roman(c)->0));
    } else if c == 69u8 {
        assert(agl_entry(16) == (spec_base_encoding_name(Encoding::MacRoman, c), mac_os_roman(c)->0));
    } else if c == 70u8 {
        assert(agl_entry(25) == (spec_base_encoding_name(Encoding::MacRoman, c), mac_os_roman(c)->0));
    } else if c == 71u8 {
        assert(agl_entry(26) == (spec_base_encoding_name(Encoding::MacRoman, c), mac_os_roman(c)->0));
    } else if c == 72u8 {
        assert(agl_entry(28) == (spec_base_encoding_name(Encoding::MacRoman, c), mac_os_roman(c)->0));
    } else if c == 73u8 {
        assert(agl_entry(29) == (spec_base_encoding_name(Encoding::MacRoman, c), mac_os_roman(c)->0));
    } else if c == 74u8 {
        assert(agl_entry(36) == (spec_base_encoding_name(Encoding::MacRoman, c), mac_os_roman(c)->0));
    } else if c == 75u8 {
        assert(agl_entry(37) == (spec_base_encoding_name(Encoding::MacRoman, c), mac_os_roman(c)->0));
    } else if c == 76u8 {
        assert(agl_entry(39) == (spec_base_encoding_name(Encoding::MacRoman, c), mac_os_roman(c)->0));
    } else if c == 77u8 {
        assert(agl_entry(42) == (spec_base_encoding_name(Encoding::MacRoman, c), mac_os_roman(c)->0));
    } else if c == 78u8 {
        assert(agl_entry(44) == (spec_base_encoding_name(Encoding::MacRoman, c), mac_os_roman(c)->0));
    } else if c == 79u8 {
        assert(agl_entry(47) == (spec_base_encoding_name(Encoding::MacRoman, c), mac_os_roman(c)->0));
    } else if c == 80u8 {
        assert(agl_entry(57) == (spec_base_encoding_name(Encoding::MacRoman, c), mac_os_roman(c)->0));
    } else if c == 81u8 {
        assert(agl_entry(61) == (spec_base_encoding_name(Encoding::MacRoman, c), mac_os_roman(c)->0));
    } else if c == 82u8 {
        assert(agl_entry(62) == (spec_base_encoding_name(Encoding::MacRoman, c), mac_os_roman(c)->0));
    } else if c == 83u8 {
        assert(agl_entry(65) == (spec_base_encoding_name(Encoding::MacRoman, c), mac_os_roman(c)->0));
    } else if c == 84u8 {
        assert(agl_entry(68) == (spec_base_encoding_name(Encoding::MacRoman, c), mac_os_roman(c)->0));
    } else if c == 85u8 {
        assert(agl_entry(72) == (spec_base_encoding_name(Encoding::MacRoman, c), mac_os_roman(c)->0));
    } else if c == 86u8 {
        assert(agl_entry(78) == (spec_base_encoding_name(Encoding::MacRoman, c), mac_os_roman(c)->0));
    } else if c == 87u8 {
        assert(agl_entry(79) == (spec_base_encoding_name(Encoding::MacRoman, c), mac_os_roman(c)->0));
    } else if c == 88u8 {
        assert(agl_entry(80) == (spec_base_encoding_name(Encoding::MacRoman, c), mac_os_roman(c)->0));
    } else if c == 89u8 {
        assert(agl_entry(82) == (spec_base_encoding_name(Encoding::MacRoman, c), mac_os_roman(c)->0));
    } else if c == 90u8 {
        assert(agl_entry(85) == (spec_base_encoding_name(Encoding::MacRoman, c), mac_os_roman(c)->0));
    } else if c == 91u8 {
        assert(agl_entry(125) == (spec_base_encoding_name(Encoding::MacRoman, c), mac_os_roman(c)->0));
    } else if c == 92u8 {
        assert(agl_entry(120) == (spec_base_encoding_name(Encoding::MacRoman, c), mac_os_roman(c)->0));
    } else if c == 93u8 {
        assert(agl_entry(126) == (spec_base_encoding_name(Encoding::MacRoman, c), mac_os_roman(c)->0));
    } else if c == 94u8 {
        assert(agl_entry(113) == (spec_base_encoding_name(Encoding::MacRoman, c), mac_os_roman(c)->0));
    } else if c == 95u8 {
        assert(agl_entry(327) == (spec_base_encoding_name(Encoding::MacRoman, c), mac_os_roman(c)->0));
    } else if c == 96u8 {
        assert(agl_entry(191) == (spec_base_encoding_name(Encoding::MacRoman, c), mac_os_roman(c)->0));
    } else if c == 97u8 {
        assert(agl_entry(88) == (spec_base_encoding_name(Encoding::MacRoman, c), mac_os_roman(c)->0));
    } else if c == 98u8 {
        assert(agl_entry(119) == (spec_base_encoding_name(Encoding::MacRoman, c), mac_os_roman(c)->0));
    } else if c == 99u8 {
        assert(agl_entry(130) == (spec_base_encoding_name(Encoding::MacRoman, c), mac_os_roman(c)->0));
    } else if c == 100u8 {
        assert(agl_entry(145) == (spec_base_encoding_name(Encoding::MacRoman, c), mac_os_roman(c)->0));
    } else if c == 101u8 {
        assert(agl_entry(158) == (spec_base_encoding_name(Encoding::MacRoman, c), mac_os_roman(c)->0));
    } else if c == 102u8 {
        assert(agl_entry(177) == (spec_base_encoding_name(Encoding::MacRoman, c), mac_os_roman(c)->0));
    } else if c == 103u8 {
        assert(agl_entry(187) == (spec_base_encoding_name(Encoding::MacRoman, c), mac_os_roman(c)->0));
    } else if c == 104u8 {
        assert(agl_entry(198) == (spec_base_encoding_name(Encoding::MacRoman, c), mac_os_roman(c)->0));
    } else if c == 105u8 {
        assert(agl_entry(202) == (spec_base_encoding_name(Encoding::MacRoman, c), mac_os_roman(c)->0));
    } else if c == 106u8 {
        assert(agl_entry(211) == (spec_base_encoding_name(Encoding::MacRoman, c), mac_os_roman(c)->0));
    } else if c == 107u8 {
        assert(agl_entry(212) == (spec_base_encoding_name(Encoding::MacRoman, c), mac_os_roman(c)->0));
    } else if c == 108u8 {
        assert(agl_entry(214) == (spec_base_encoding_name(Encoding::MacRoman, c), mac_os_roman(c)->0));
    } else if c == 109u8 {
        assert(agl_entry(223) == (spec_base_encoding_name(Encoding::MacRoman, c), mac_os_roman(c)->0));
    } else if c == 110u8 {
        assert(agl_entry(229) == (spec_base_encoding_name(Encoding::MacRoman, c), mac_os_roman(c)->0));
    } else if c == 111u8 {
        assert(agl_entry(237) == (spec_base_encoding_name(Encoding::MacRoman, c), mac_os_roman(c)->0));
    } else if c == 112u8 {
        assert(agl_entry(255) == (spec_base_encoding_name(Encoding::MacRoman, c), mac_os_roman(c)->0));
    } else if c == 113u8 {
        assert(agl_entry(275) == (spec_base_encoding_name(Encoding::MacRoman, c), mac_os_roman(c)->0));
    } else if c == 114u8 {
        assert(agl_entry(286) == (spec_base_encoding_name(Encoding::MacRoman, c), mac_os_roman(c)->0));
    } else if c == 115u8 {
        assert(agl_entry(294) == (spec_base_encoding_name(Encoding::MacRoman, c), mac_os_roman(c)->0));
    } else if c == 116u8 {
        assert(agl_entry(310) == (spec_base_encoding_name(Encoding::MacRoman, c), mac_os_roman(c)->0));
    } else if c == 117u8 {
        assert(agl_entry(322) == (spec_base_encoding_name(Encoding::MacRoman, c), mac_os_roman(c)->0));
    } else if c == 118u8 {
        assert(agl_entry(331) == (spec_base_encoding_name(Encoding::MacRoman, c), mac_os_roman(c)->0));
    } else if c == 119u8 {
        assert(agl_entry(332) == (spec_base_encoding_name(Encoding::MacRoman, c), mac_os_roman(c)->0));
    } else if c == 120u8 {
        assert(agl_entry(334) == (spec_base_encoding_name(Encoding::MacRoman, c), mac_os_roman(c)->0));
    } else if c == 121u8 {
        assert(agl_entry(336) == (spec_base_encoding_name(Encoding::MacRoman, c), mac_os_roman(c)->0));
    } else if c == 122u8 {
        assert(agl_entry(340) == (spec_base_encoding_name(Encoding::MacRoman, c), mac_os_roman(c)->0));
    } else if c == 123u8 {
        assert(agl_entry(123) == (spec_base_encoding_name(Encoding::MacRoman, c), mac_os_roman(c)->0));
    } else if c == 124u8 {
        assert(agl_entry(121) == (spec_base_encoding_name(Encoding::MacRoman, c), mac_os_roman(c)->0));
    } else if c == 125u8 {
        assert(agl_entry(124) == (spec_base_encoding_name(Encoding::MacRoman, c), mac_os_roman(c)->0));
    } else if c == 126u8 {
        assert(agl_entry(114) == (spec_base_encoding_name(Encoding::MacRoman, c), mac_os_roman(c)->0));
    } else if c == 127u8 {
        assert(spec_base_encoding_name(Encoding::MacRoman, c) == ""@);
    }
}

#[verifier::rlimit(40)]
proof fn lemma_macroman_128_160(c: u8)
    requires
        128 <= c < 160,
    ensures
        match mac_os_roman(c) {
            Some(u) => exists|i: int|
                0 <= i < agl_len() && #[trigger] agl_entry(i) == (spec_base_encoding_name(Encoding::MacRoman, c), u),
            None => spec_base_encoding_name(Encoding::MacRoman, c).len() == 0,
        },
{
    reveal_strlit("");
    if c == 128u8 {
        assert(agl_entry(4) == (spec_base_encoding_name(Encoding::MacRoman, c), mac_os_roman(c)->0));
    } else if c == 129u8 {
        assert(agl_entry(7) == (spec_base_encoding_name(Encoding::MacRoman, c), mac_os_roman(c)->0));
    } else if c == 130u8 {
        assert(agl_entry(12) == (spec_base_encoding_name(Encoding::MacRoman, c), mac_os_roman(c)->0));
    } else if c == 131u8 {
        assert(agl_entry(17) == (spec_base_encoding_name(Encoding::MacRoman, c), mac_os_roman(c)->0));
    } else if c == 132u8 {
        assert(agl_entry(45) == (spec_base_encoding_name(Encoding::MacRoman, c), mac_os_roman(c)->0));
    } else if c == 133u8 {
        assert(agl_entry(51) == (spec_base_encoding_name(Encoding::MacRoman, c), mac_os_roman(c)->0));
    } else if c == 134u8 {
        assert(agl_entry(75) == (spec_base_encoding_name(Encoding::MacRoman, c), mac_os_roman(c)->0));
    } else if c == 135u8 {
        assert(agl_entry(89) == (spec_base_encoding_name(Encoding::MacRoman, c), mac_os_roman(c)->0));
    } else if c == 136u8 {
        assert(agl_entry(94) == (spec_base_encoding_name(Encoding::MacRoman, c), mac_os_roman(c)->0));
    } else if c == 137u8 {
        assert(agl_entry(90) == (spec_base_encoding_name(Encoding::MacRoman, c), mac_os_roman(c)->0));
    } else if c == 138u8 {
        assert(agl_entry(92) == (spec_base_encoding_name(Encoding::MacRoman, c), mac_os_roman(c)->0));
    } else if c == 139u8 {
        assert(agl_entry(118) == (spec_base_encoding_name(Encoding::MacRoman, c), mac_os_roman(c)->0));
    } else if c == 140u8 {
        assert(agl_entry(102) == (spec_base_encoding_name(Encoding::MacRoman, c), mac_os_roman(c)->0));
    } else if c == 141u8 {
        assert(agl_entry(132) == (spec_base_encoding_name(Encoding::MacRoman, c), mac_os_roman(c)->0));
    } else if c == 142u8 {
        assert(agl_entry(159) == (spec_base_encoding_name(Encoding::MacRoman, c), mac_os_roman(c)->0));
    } else if c == 143u8 {
        assert(agl_entry(162) == (spec_base_encoding_name(Encoding::MacRoman, c), mac_os_roman(c)->0));
    } else if c == 144u8 {
        assert(agl_entry(160) == (spec_base_encoding_name(Encoding::MacRoman, c), mac_os_roman(c)->0));
    } else if c == 145u8 {
        assert(agl_entry(161) == (spec_base_encoding_name(Encoding::MacRoman, c), mac_os_roman(c)->0));
    } else if c == 146u8 {
        assert(agl_entry(203) == (spec_base_encoding_name(Encoding::MacRoman, c), mac_os_roman(c)->0));
    } else if c == 147u8 {
        assert(agl_entry(206) == (spec_base_encoding_name(Encoding::MacRoman, c), mac_os_roman(c)->0));
    } else if c == 148u8 {
        assert(agl_entry(204) == (spec_base_encoding_name(Encoding::MacRoman, c), mac_os_roman(c)->0));
    } else if c == 149u8 {
        assert(agl_entry(205) == (spec_base_encoding_name(Encoding::MacRoman, c), mac_os_roman(c)->0));
    } else if c == 150u8 {
        assert(agl_entry(234) == (spec_base_encoding_name(Encoding::MacRoman, c), mac_os_roman(c)->0));
    } else if c == 151u8 {
        assert(agl_entry(238) == (spec_base_encoding_name(Encoding::MacRoman, c), mac_os_roman(c)->0));
    } else if c == 152u8 {
        assert(agl_entry(243) == (spec_base_encoding_name(Encoding::MacRoman, c), mac_os_roman(c)->0));
    } else if c == 153u8 {
        assert(agl_entry(239) == (spec_base_encoding_name(Encoding::MacRoman, c), mac_os_roman(c)->0));
    } else if c == 154u8 {
        assert(agl_entry(240) == (spec_base_encoding_name(Encoding::MacRoman, c), mac_os_roman(c)->0));
    } else if c == 155u8 {
        assert(agl_entry(254) == (spec_base_encoding_name(Encoding::MacRoman, c), mac_os_roman(c)->0));
    } else if c == 156u8 {
        assert(agl_entry(323) == (spec_base_encoding_name(Encoding::MacRoman, c), mac_os_roman(c)->0));
    } else if c == 157u8 {
        assert(agl_entry(326) == (spec_base_encoding_name(Encoding::MacRoman, c), mac_os_roman(c)->0));
    } else if c == 158u8 {
        assert(agl_entry(324) == (spec_base_encoding_name(Encoding::MacRoman, c), mac_os_roman(c)->0));
    } else if c == 159u8 {
        assert(agl_entry(325) == (spec_base_encoding_name(Encoding::MacRoman, c), mac_os_roman(c)->0));
    }
}

#[verifier::rlimit(40)]
proof fn lemma_macroman_160_208(c: u8)
    requires
        160 <= c < 208,
    ensures
        match mac_os_roman(c) {
            Some(u) => exists|i: int|
                0 <= i < agl_len() && #[trigger] agl_entry(i) == (spec_base_encoding_name(Encoding::MacRoman, c), u),
            None => spec_base_encoding_name(Encoding::MacRoman, c).len() == 0,
        },
{
    reveal_strlit("");
    if c == 160u8 {
        assert(agl_entry(146) == (spec_base_encoding_name(Encoding::MacRoman, c), mac_os_roman(c)->0));
    } else if c == 161u8 {
        assert(agl_entry(148) == (spec_base_encoding_name(Encoding::MacRoman, c), mac_os_roman(c)->0));
    } else if c == 162u8 {
        assert(agl_entry(134) == (spec_base_encoding_name(Encoding::MacRoman, c), mac_os_roman(c)->0));
    } else if c == 163u8 {
        assert(agl_entry(307) == (spec_base_encoding_name(Encoding::MacRoman, c), mac_os_roman(c)->0));
    } else if c == 164u8 {
        assert(agl_entry(297) == (spec_base_encoding_name(Encoding::MacRoman, c), mac_os_roman(c)->0));
    } else if c == 165u8 {
        assert(agl_entry(129) == (spec_base_encoding_name(Encoding::MacRoman, c), mac_os_roman(c)->0));
    } else if c == 166u8 {
        assert(agl_entry(256) == (spec_base_encoding_name(Encoding::MacRoman, c), mac_os_roman(c)->0));
    } else if c == 167u8 {
        assert(agl_entry(189) == (spec_base_encoding_name(Encoding::MacRoman, c), mac_os_roman(c)->0));
    } else if c == 168u8 {
        assert(agl_entry(291) == (spec_base_encoding_name(Encoding::MacRoman, c), mac_os_roman(c)->0));
    } else if c == 169u8 {
        assert(agl_entry(143) == (spec_base_encoding_name(Encoding::MacRoman, c), mac_os_roman(c)->0));
    } else if c == 170u8 {
        assert(agl_entry(319) == (spec_base_encoding_name(Encoding::MacRoman, c), mac_os_roman(c)->0));
    } else if c == 171u8 {
        assert(agl_entry(91) == (spec_base_encoding_name(Encoding::MacRoman, c), mac_os_roman(c)->0));
    } else if c == 172u8 {
        assert(agl_entry(151) == (spec_base_encoding_name(Encoding::MacRoman, c), mac_os_roman(c)->0));
    } else if c == 173u8 {
        assert(spec_base_encoding_name(Encoding::MacRoman, c) == ""@);
    } else if c == 174u8 {
        assert(agl_entry(1) == (spec_base_encoding_name(Encoding::MacRoman, c), mac_os_roman(c)->0));
    } else if c == 175u8 {
        assert(agl_entry(55) == (spec_base_encoding_name(Encoding::MacRoman, c), mac_os_roman(c)->0));
    } else if c == 176u8 {
        assert(agl_entry(207) == (spec_base_encoding_name(Encoding::MacRoman, c), mac_os_roman(c)->0));
    } else if c == 177u8 {
        assert(agl_entry(269) == (spec_base_encoding_name(Encoding::MacRoman, c), mac_os_roman(c)->0));
    } else if c == 178u8 {
        assert(agl_entry(217) == (spec_base_encoding_name(Encoding::MacRoman, c), mac_os_roman(c)->0));
    } else if c == 179u8 {
        assert(agl_entry(193) == (spec_base_encoding_name(Encoding::MacRoman, c), mac_os_roman(c)->0));
    } else if c == 180u8 {
        assert(agl_entry(339) == (spec_base_encoding_name(Encoding::MacRoman, c), mac_os_roman(c)->0));
    } else if c == 181u8 {
        assert(agl_entry(227) == (spec_base_encoding_name(Encoding::MacRoman, c), mac_os_roman(c)->0));
    } else if c == 182u8 {
        assert(agl_entry(259) == (spec_base_encoding_name(Encoding::MacRoman, c), mac_os_roman(c)->0));
    } else if c == 183u8 {
        assert(agl_entry(309) == (spec_base_encoding_name(Encoding::MacRoman, c), mac_os_roman(c)->0));
    } else if c == 184u8 {
        assert(agl_entry(270) == (spec_base_encoding_name(Encoding::MacRoman, c), mac_os_roman(c)->0));
    } else if c == 185u8 {
        assert(agl_entry(267) == (spec_base_encoding_name(Encoding::MacRoman, c), mac_os_roman(c)->0));
    } else if c == 186u8 {
        assert(agl_entry(208) == (spec_base_encoding_name(Encoding::MacRoman, c), mac_os_roman(c)->0));
    } else if c == 187u8 {
        assert(agl_entry(251) == (spec_base_encoding_name(Encoding::MacRoman, c), mac_os_roman(c)->0));
    } else if c == 188u8 {
        assert(agl_entry(252) == (spec_base_encoding_name(Encoding::MacRoman, c), mac_os_roman(c)->0));
    } else if c == 189u8 {
        assert(spec_base_encoding_name(Encoding::MacRoman, c) == ""@);
    } else if c == 190u8 {
        assert(agl_entry(93) == (spec_base_encoding_name(Encoding::MacRoman, c), mac_os_roman(c)->0));
    } else if c == 191u8 {
        assert(agl_entry(253) == (spec_base_encoding_name(Encoding::MacRoman, c), mac_os_roman(c)->0));
    } else if c == 192u8 {
        assert(agl_entry(277) == (spec_base_encoding_name(Encoding::MacRoman, c), mac_os_roman(c)->0));
    } else if c == 193u8 {
        assert(agl_entry(175) == (spec_base_encoding_name(Encoding::MacRoman, c), mac_os_roman(c)->0));
    } else if c == 194u8 {
        assert(agl_entry(219) == (spec_base_encoding_name(Encoding::MacRoman, c), mac_os_roman(c)->0));
    } else if c == 195u8 {
        assert(agl_entry(287) == (spec_base_encoding_name(Encoding::MacRoman, c), mac_os_roman(c)->0));
    } else if c == 196u8 {
        assert(agl_entry(184) == (spec_base_encoding_name(Encoding::MacRoman, c), mac_os_roman(c)->0));
    } else if c == 197u8 {
        assert(agl_entry(101) == (spec_base_encoding_name(Encoding::MacRoman, c), mac_os_roman(c)->0));
    } else if c == 198u8 {
        assert(agl_entry(15) == (spec_base_encoding_name(Encoding::MacRoman, c), mac_os_roman(c)->0));
    } else if c == 199u8 {
        assert(agl_entry(194) == (spec_base_encoding_name(Encoding::MacRoman, c), mac_os_roman(c)->0));
    } else if c == 200u8 {
        assert(agl_entry(195) == (spec_base_encoding_name(Encoding::MacRoman, c), mac_os_roman(c)->0));
    } else if c == 201u8 {
        assert(agl_entry(165) == (spec_base_encoding_name(Encoding::MacRoman, c), mac_os_roman(c)->0));
    } else if c == 202u8 {
        assert(agl_entry(305) == (spec_base_encoding_name(Encoding::MacRoman, c), mac_os_roman(c)->0));
    } else if c == 203u8 {
        assert(agl_entry(5) == (spec_base_encoding_name(Encoding::MacRoman, c), mac_os_roman(c)->0));
    } else if c == 204u8 {
        assert(agl_entry(8) == (spec_base_encoding_name(Encoding::MacRoman, c), mac_os_roman(c)->0));
    } else if c == 205u8 {
        assert(agl_entry(56) == (spec_base_encoding_name(Encoding::MacRoman, c), mac_os_roman(c)->0));
    } else if c == 206u8 {
        assert(agl_entry(48) == (spec_base_encoding_name(Encoding::MacRoman, c), mac_os_roman(c)->0));
    } else if c == 207u8 {
        assert(agl_entry(241) == (spec_base_encoding_name(Encoding::MacRoman, c), mac_os_roman(c)->0));
    }
}

#[verifier::rlimit(40)]
proof fn lemma_macroman_208_256(c: u8)
    requires
        208 <= c < 256,
    ensures
        match mac_os_roman(c) {
            Some(u) => exists|i: int|
                0 <= i < agl_len() && #[trigger] agl_entry(i) == (spec_base_encoding_name(Encoding::MacRoman, c), u),
            None => spec_base_encoding_name(Encoding::MacRoman, c).len() == 0,
        },
{
    reveal_strlit("");
    if c == 208u8 {
        assert(agl_entry(168) == (spec_base_encoding_name(Encoding::MacRoman, c), mac_os_roman(c)->0));
    } else if c == 209u8 {
        assert(agl_entry(166) == (spec_base_encoding_name(Encoding::MacRoman, c), mac_os_roman(c)->0));
    } else if c == 210u8 {
        assert(agl_entry(280) == (spec_base_encoding_name(Encoding::MacRoman, c), mac_os_roman(c)->0));
    } else if c == 211u8 {
        assert(agl_entry(281) == (spec_base_encoding_name(Encoding::MacRoman, c), mac_os_roman(c)->0));
    } else if c == 212u8 {
        assert(agl_entry(282) == (spec_base_encoding_name(Encoding::MacRoman, c), mac_os_roman(c)->0));
    } else if c == 213u8 {
        assert(agl_entry(283) == (spec_base_encoding_name(Encoding::MacRoman, c), mac_os_roman(c)->0));
    } else if c == 214u8 {
        assert(agl_entry(152) == (spec_base_encoding_name(Encoding::MacRoman, c), mac_os_roman(c)->0));
    } else if c == 215u8 {
        assert(agl_entry(221) == (spec_base_encoding_name(Encoding::MacRoman, c), mac_os_roman(c)->0));
    } else if c == 216u8 {
        assert(agl_entry(338) == (spec_base_encoding_name(Encoding::MacRoman, c), mac_os_roman(c)->0));
    } else if c == 217u8 {
        assert(agl_entry(84) == (spec_base_encoding_name(Encoding::MacRoman, c), mac_os_roman(c)->0));
    } else if c == 218u8 {
        assert(agl_entry(186) == (spec_base_encoding_name(Encoding::MacRoman, c), mac_os_roman(c)->0));
    } else if c == 219u8 {
        assert(agl_entry(144) == (spec_base_encoding_name(Encoding::MacRoman, c), mac_os_roman(c)->0));
    } else if c == 220u8 {
        assert(agl_entry(196) == (spec_base_encoding_name(Encoding::MacRoman, c), mac_os_roman(c)->0));
    } else if c == 221u8 {
        assert(agl_entry(197) == (spec_base_encoding_name(Encoding::MacRoman, c), mac_os_roman(c)->0));
    } else if c == 222u8 {
        assert(agl_entry(181) == (spec_base_encoding_name(Encoding::MacRoman, c), mac_os_roman(c)->0));
    } else if c == 223u8 {
        assert(agl_entry(183) == (spec_base_encoding_name(Encoding::MacRoman, c), mac_os_roman(c)->0));
    } else if c == 224u8 {
        assert(agl_entry(147) == (spec_base_encoding_name(Encoding::MacRoman, c), mac_os_roman(c)->0));
    } else if c == 225u8 {
        assert(agl_entry(262) == (spec_base_encoding_name(Encoding::MacRoman, c), mac_os_roman(c)->0));
    } else if c == 226u8 {
        assert(agl_entry(284) == (spec_base_encoding_name(Encoding::MacRoman, c), mac_os_roman(c)->0));
    } else if c == 227u8 {
        assert(agl_entry(279) == (spec_base_encoding_name(Encoding::MacRoman, c), mac_os_roman(c)->0));
    } else if c == 228u8 {
        assert(agl_entry(264) == (spec_base_encoding_name(Encoding::MacRoman, c), mac_os_roman(c)->0));
    } else if c == 229u8 {
        assert(agl_entry(3) == (spec_base_encoding_name(Encoding::MacRoman, c), mac_os_roman(c)->0));
    } else if c == 230u8 {
        assert(agl_entry(18) == (spec_base_encoding_name(Encoding::MacRoman, c), mac_os_roman(c)->0));
    } else if c == 231u8 {
        assert(agl_entry(2) == (spec_base_encoding_name(Encoding::MacRoman, c), mac_os_roman(c)->0));
    } else if c == 232u8 {
        assert(agl_entry(19) == (spec_base_encoding_name(Encoding::MacRoman, c), mac_os_roman(c)->0));
    } else if c == 233u8 {
        assert(agl_entry(20) == (spec_base_encoding_name(Encoding::MacRoman, c), mac_os_roman(c)->0));
    } else if c == 234u8 {
        assert(agl_entry(30) == (spec_base_encoding_name(Encoding::MacRoman, c), mac_os_roman(c)->0));
    } else if c == 235u8 {
        assert(agl_entry(31) == (spec_base_encoding_name(Encoding::MacRoman, c), mac_os_roman(c)->0));
    } else if c == 236u8 {
        assert(agl_entry(32) == (spec_base_encoding_name(Encoding::MacRoman, c), mac_os_roman(c)->0));
    } else if c == 237u8 {
        assert(agl_entry(34) == (spec_base_encoding_name(Encoding::MacRoman, c), mac_os_roman(c)->0));
    } else if c == 238u8 {
        assert(agl_entry(49) == (spec_base_encoding_name(Encoding::MacRoman, c), mac_os_roman(c)->0));
    } else if c == 239u8 {
        assert(agl_entry(50) == (spec_base_encoding_name(Encoding::MacRoman, c), mac_os_roman(c)->0));
    } else if c == 240u8 {
        assert(spec_base_encoding_name(Encoding::MacRoman, c) == ""@);
    } else if c == 241u8 {
        assert(agl_entry(52) == (spec_base_encoding_name(Encoding::MacRoman, c), mac_os_roman(c)->0));
    } else if c == 242u8 {
        assert(agl_entry(73) == (spec_base_encoding_name(Encoding::MacRoman, c), mac_os_roman(c)->0));
    } else if c == 243u8 {
        assert(agl_entry(74) == (spec_base_encoding_name(Encoding::MacRoman, c), mac_os_roman(c)->0));
    } else if c == 244u8 {
        assert(agl_entry(76) == (spec_base_encoding_name(Encoding::MacRoman, c), mac_os_roman(c)->0));
    } else if c == 245u8 {
        assert(agl_entry(155) == (spec_base_encoding_name(Encoding::MacRoman, c), mac_os_roman(c)->0));
    } else if c == 246u8 {
        assert(agl_entry(138) == (spec_base_encoding_name(Encoding::MacRoman, c), mac_os_roman(c)->0));
    } else if c == 247u8 {
        assert(agl_entry(318) == (spec_base_encoding_name(Encoding::MacRoman, c), mac_os_roman(c)->0));
    } else if c == 248u8 {
        assert(agl_entry(224) == (spec_base_encoding_name(Encoding::MacRoman, c), mac_os_roman(c)->0));
    } else if c == 249u8 {
        assert(agl_entry(127) == (spec_base_encoding_name(Encoding::MacRoman, c), mac_os_roman(c)->0));
    } else if c == 250u8 {
        assert(agl_entry(154) == (spec_base_encoding_name(Encoding::MacRoman, c), mac_os_roman(c)->0));
    } else if c == 251u8 {
        assert(agl_entry(293) == (spec_base_encoding_name(Encoding::MacRoman, c), mac_os_roman(c)->0));
    } else if c == 252u8 {
        assert(agl_entry(133) == (spec_base_encoding_name(Encoding::MacRoman, c), mac_os_roman(c)->0));
    } else if c == 253u8 {
        assert(agl_entry(200) == (spec_base_encoding_name(Encoding::MacRoman, c), mac_os_roman(c)->0));
    } else if c == 254u8 {
        assert(agl_entry(242) == (spec_base_encoding_name(Encoding::MacRoman, c), mac_os_roman(c)->0));
    } else if c == 255u8 {
        assert(agl_entry(131) == (spec_base_encoding_name(Encoding::MacRoman, c), mac_os_roman(c)->0));
    }
}

/// MacRomanEncoding is the Mac OS Roman character set as the PDF table has it: the glyph list
/// gives each named slot the character the set puts there, and the slots it leaves out are empty.
pub proof fn macroman_is_mac_os_roman(c: u8)
    ensures
        match mac_os_roman(c) {
            Some(u) => exists|i: int|
                0 <= i < agl_len() && #[trigger] agl_entry(i) == (spec_base_encoding_name(Encoding::MacRoman, c), u),
            None => spec_base_encoding_name(Encoding::MacRoman, c).len() == 0,
        },
{
    if c < 64 {
        lemma_macroman_0_64(c);
    } else if c < 128 {
        lemma_macroman_64_128(c);
    } else if c < 160 {
        lemma_macroman_128_160(c);
    } else if c < 208 {
        lemma_macroman_160_208(c);
    } else {
        lemma_macroman_208_256(c);
    }
}

/// The character Adobe's StandardEncoding gives code `c`, for the slots this table names: ASCII
/// from space to `~` with curly quotes at 0x27 and 0x60, and the accents, ligatures and
/// punctuation above 0xA0. Slots the table leaves empty give nothing.
pub open spec fn adobe_standard(c: u8) -> Option<char> {
    match c {
        32u8 => Some('\u{20}'),
        33u8 => Some('\u{21}'),
        34u8 => Some('\u{22}'),
        35u8 => Some('\u{23}'),
        36u8 => Some('\u{24}'),
        37u8 => Some('\u{25}'),
        38u8 => Some('\u{26}'),
        39u8 => Some('\u{2019}'),
        40u8 => Some('\u{28}'),
        41u8 => Some('\u{29}'),
        42u8 => Some('\u{2a}'),
        43u8 => Some('\u{2b}'),
        44u8 => Some('\u{2c}'),
        45u8 => Some('\u{2d}'),
        46u8 => Some('\u{2e}'),
        47u8 => Some('\u{2f}'),
        48u8 => Some('\u{30}'),
        49u8 => Some('\u{31}'),
        50u8 => Some('\u{32}'),
        51u8 => Some('\u{33}'),
        52u8 => Some('\u{34}'),
        53u8 => Some('\u{35}'),
        54u8 => Some('\u{36}'),
        55u8 => Some('\u{37}'),
        56u8 => Some('\u{38}'),
        57u8 => Some('\u{39}'),
        58u8 => Some('\u{3a}'),
        59u8 => Some('\u{3b}'),
        60u8 => Some('\u{3c}'),
        61u8 => Some('\u{3d}'),
        62u8 => Some('\u{3e}'),
        63u8 => Some('\u{3f}'),
        64u8 => Some('\u{40}'),
        65u8 => Some('\u{41}'),
        66u8 => Some('\u{42}'),
        67u8 => Some('\u{43}'),
        68u8 => Some('\u{44}'),
        69u8 => Some('\u{45}'),
        70u8 => Some('\u{46}'),
        71u8 => Some('\u{47}'),
        72u8 => Some('\u{48}'),
        73u8 => Some('\u{49}'),
        74u8 => Some('\u{4a}'),
        75u8 => Some('\u{4b}'),
        76u8 => Some('\u{4c}'),
        77u8 => Some('\u{4d}'),
        78u8 => Some('\u{4e}'),
        79u8 => Some('\u{4f}'),
        80u8 => Some('\u{50}'),
        81u8 => Some('\u{51}'),
        82u8 => Some('\u{52}'),
        83u8 => Some('\u{53}'),
        84u8 => Some('\u{54}'),
        85u8 => Some('\u{55}'),
        86u8 => Some('\u{56}'),
        87u8 => Some('\u{57}'),
        88u8 => Some('\u{58}'),
        89u8 => Some('\u{59}'),
        90u8 => Some('\u{5a}'),
        91u8 => Some('\u{5b}'),
        92u8 => Some('\u{5c}'),
        93u8 => Some('\u{5d}'),
        94u8 => Some('\u{5e}'),
        95u8 => Some('\u{5f}'),
        96u8 => Some('\u{2018}'),
        97u8 => Some('\u{61}'),
        98u8 => Some('\u{62}'),
        99u8 => Some('\u{63}'),
        100u8 => Some('\u{64}'),
        101u8 => Some('\u{65}'),
        102u8 => Some('\u{66}'),
        103u8 => Some('\u{67}'),
        104u8 => Some('\u{68}'),
        105u8 => Some('\u{69}'),
        106u8 => Some('\u{6a}'),
        107u8 => Some('\u{6b}'),
        108u8 => Some('\u{6c}'),
        109u8 => Some('\u{6d}'),
        110u8 => Some('\u{6e}'),
        111u8 => Some('\u{6f}'),
        112u8 => Some('\u{70}'),
        113u8 => Some('\u{71}'),
        114u8 => Some('\u{72}'),
        115u8 => Some('\u{73}'),
        116u8 => Some('\u{74}'),
        117u8 => Some('\u{75}'),
        118u8 => Some('\u{76}'),
        119u8 => Some('\u{77}'),
        120u8 => Some('\u{78}'),
        121u8 => Some('\u{79}'),
        122u8 => Some('\u{7a}'),
        123u8 => Some('\u{7b}'),
        124u8 => Some('\u{7c}'),
        125u8 => Some('\u{7d}'),
        126u8 => Some('\u{7e}'),
        161u8 => Some('\u{a1}'),
        162u8 => Some('\u{a2}'),
        163u8 => Some('\u{a3}'),
        164u8 => Some('\u{2044}'),
        165u8 => Some('\u{a5}'),
        166u8 => Some('\u{192}'),
        167u8 => Some('\u{a7}'),
        168u8 => Some('\u{a4}'),
        169u8 => Some('\u{27}'),
        170u8 => Some('\u{201c}'),
        171u8 => Some('\u{ab}'),
        172u8 => Some('\u{2039}'),
        173u8 => Some('\u{203a}'),
        174u8 => Some('\u{fb01}'),
        175u8 => Some('\u{fb02}'),
        177u8 => Some('\u{2013}'),
        178u8 => Some('\u{2020}'),
        179u8 => Some('\u{2021}'),
        180u8 => Some('\u{b7}'),
        182u8 => Some('\u{b6}'),
        183u8 => Some('\u{2022}'),
        184u8 => Some('\u{201a}'),
        185u8 => Some('\u{201e}'),
        186u8 => Some('\u{201d}'),
        187u8 => Some('\u{bb}'),
        188u8 => Some('\u{2026}'),
        189u8 => Some('\u{2030}'),
        191u8 => Some('\u{bf}'),
        193u8 => Some('\u{60}'),
        194u8 => Some('\u{b4}'),
        195u8 => Some('\u{2c6}'),
        196u8 => Some('\u{2dc}'),
        197u8 => Some('\u{af}'),
        198u8 => Some('\u{2d8}'),
        199u8 => Some('\u{2d9}'),
        200u8 => Some('\u{a8}'),
        202u8 => Some('\u{2da}'),
        203u8 => Some('\u{b8}'),
        205u8 => Some('\u{2dd}'),
        206u8 => Some('\u{2db}'),
        207u8 => Some('\u{2c7}'),
        208u8 => Some('\u{2014}'),
        225u8 => Some('\u{c6}'),
        227u8 => Some('\u{aa}'),
        241u8 => Some('\u{e6}'),
        245u8 => Some('\u{131}'),
        _ => None,
    }
}

#[verifier::rlimit(40)]
proof fn lemma_standard_0_64(c: u8)
    requires
        0 <= c < 64,
    ensures
        match adobe_standard(c) {
            Some(u) => exists|i: int|
                0 <= i < agl_len() && #[trigger] agl_entry(i) == (spec_base_encoding_name(Encoding::Standard, c), u),
            None => spec_base_encoding_name(Encoding::Standard, c).len() == 0,
        },
{
    reveal_strlit("");
    if c == 0u8 {
        assert(spec_base_encoding_name(Encoding::Standard, c) == ""@);
    } else if c == 1u8 {
        assert(spec_base_encoding_name(Encoding::Standard, c) == ""@);
    } else if c == 2u8 {
        assert(spec_base_encoding_name(Encoding::Standard, c) == ""@);
    } else if c == 3u8 {
        assert(spec_base_encoding_name(Encoding::Standard, c) == ""@);
    } else if c == 4u8 {
        assert(spec_base_encoding_name(Encoding::Standard, c) == ""@);
    } else if c == 5u8 {
        assert(spec_base_encoding_name(Encoding::Standard, c) == ""@);
    } else if c == 6u8 {
        assert(spec_base_encoding_name(Encoding::Standard, c) == ""@);
    } else if c == 7u8 {
        assert(spec_base_encoding_name(Encoding::Standard, c) == ""@);
    } else if c == 8u8 {
        assert(spec_base_encoding_name(Encoding::Standard, c) == ""@);
    } else if c == 9u8 {
        assert(spec_base_encoding_name(Encoding::Standard, c) == ""@);
    } else if c == 10u8 {
        assert(spec_base_encoding_name(Encoding::Standard, c) == ""@);
    } else if c == 11u8 {
        assert(spec_base_encoding_name(Encoding::Standard, c) == ""@);
    } else if c == 12u8 {
        assert(spec_base_encoding_name(Encoding::Standard, c) == ""@);
    } else if c == 13u8 {
        assert(spec_base_encoding_name(Encoding::Standard, c) == ""@);
    } else if c == 14u8 {
        assert(spec_base_encoding_name(Encoding::Standard, c) == ""@);
    } else if c == 15u8 {
        assert(spec_base_encoding_name(Encoding::Standard, c) == ""@);
    } else if c == 16u8 {
        assert(spec_base_encoding_name(Encoding::Standard, c) == ""@);
    } else if c == 17u8 {
        assert(spec_base_encoding_name(Encoding::Standard, c) == ""@);
    } else if c == 18u8 {
        assert(spec_base_encoding_name(Encoding::Standard, c) == ""@);
    } else if c == 19u8 {
        assert(spec_base_encoding_name(Encoding::Standard, c) == ""@);
    } else if c == 20u8 {
        assert(spec_base_encoding_name(Encoding::Standard, c) == ""@);
    } else if c == 21u8 {
        assert(spec_base_encoding_name(Encoding::Standard, c) == ""@);
    } else if c == 22u8 {
        assert(spec_base_encoding_name(Encoding::Standard, c) == ""@);
    } else if c == 23u8 {
        assert(spec_base_encoding_name(Encoding::Standard, c) == ""@);
    } else if c == 24u8 {
        assert(spec_base_encoding_name(Encoding::Standard, c) == ""@);
    } else if c == 25u8 {
        assert(spec_base_encoding_name(Encoding::Standard, c) == ""@);
    } else if c == 26u8 {
        assert(spec_base_encoding_name(Encoding::Standard, c) == ""@);
    } else if c == 27u8 {
        assert(spec_base_encoding_name(Encoding::Standard, c) == ""@);
    } else if c == 28u8 {
        assert(spec_base_encoding_name(Encoding::Standard, c) == ""@);
    } else if c == 29u8 {
        assert(spec_base_encoding_name(Encoding::Standard, c) == ""@);
    } else if c == 30u8 {
        assert(spec_base_encoding_name(Encoding::Standard, c) == ""@);
    } else if c == 31u8 {
        assert(spec_base_encoding_name(Encoding::Standard, c) == ""@);
    } else if c == 32u8 {
        assert(agl_entry(305) == (spec_base_encoding_name(Encoding::Standard, c), adobe_standard(c)->0));
    } else if c == 33u8 {
        assert(agl_entry(174) == (spec_base_encoding_name(Encoding::Standard, c), adobe_standard(c)->0));
    } else if c == 34u8 {
        assert(agl_entry(278) == (spec_base_encoding_name(Encoding::Standard, c), adobe_standard(c)->0));
    } else if c == 35u8 {
        assert(agl_entry(236) == (spec_base_encoding_name(Encoding::Standard, c), adobe_standard(c)->0));
    } else if c == 36u8 {
        assert(agl_entry(153) == (spec_base_encoding_name(Encoding::Standard, c), adobe_standard(c)->0));
    } else if c == 37u8 {
        assert(agl_entry(260) == (spec_base_encoding_name(Encoding::Standard, c), adobe_standard(c)->0));
    } else if c == 38u8 {
        assert(agl_entry(97) == (spec_base_encoding_name(Encoding::Standard, c), adobe_standard(c)->0));
    } else if c == 39u8 {
        assert(agl_entry(283) == (spec_base_encoding_name(Encoding::Standard, c), adobe_standard(c)->0));
    } else if c == 40u8 {
        assert(agl_entry(257) == (spec_base_encoding_name(Encoding::Standard, c), adobe_standard(c)->0));
    } else if c == 41u8 {
        assert(agl_entry(258) == (spec_base_encoding_name(Encoding::Standard, c), adobe_standard(c)->0));
    } else if c == 42u8 {
        assert(agl_entry(115) == (spec_base_encoding_name(Encoding::Standard, c), adobe_standard(c)->0));
    } else if c == 43u8 {
        assert(agl_entry(268) == (spec_base_encoding_name(Encoding::Standard, c), adobe_standard(c)->0));
    } else if c == 44u8 {
        assert(agl_entry(141) == (spec_base_encoding_name(Encoding::Standard, c), adobe_standard(c)->0));
    } else if c == 45u8 {
        assert(agl_entry(201) == (spec_base_encoding_name(Encoding::Standard, c), adobe_standard(c)->0));
    } else if c == 46u8 {
        assert(agl_entry(261) == (spec_base_encoding_name(Encoding::Standard, c), adobe_standard(c)->0));
    } else if c == 47u8 {
        assert(agl_entry(304) == (spec_base_encoding_name(Encoding::Standard, c), adobe_standard(c)->0));
    } else if c == 48u8 {
        assert(agl_entry(342) == (spec_base_encoding_name(Encoding::Standard, c), adobe_standard(c)->0));
    } else if c == 49u8 {
        assert(agl_entry(247) == (spec_base_encoding_name(Encoding::Standard, c), adobe_standard(c)->0));
    } else if c == 50u8 {
        assert(agl_entry(320) == (spec_base_encoding_name(Encoding::Standard, c), adobe_standard(c)->0));
    } else if c == 51u8 {
        assert(agl_entry(315) == (spec_base_encoding_name(Encoding::Standard, c), adobe_standard(c)->0));
    } else if c == 52u8 {
        assert(agl_entry(185) == (spec_base_encoding_name(Encoding::Standard, c), adobe_standard(c)->0));
    } else if c == 53u8 {
        assert(agl_entry(182) == (spec_base_encoding_name(Encoding::Standard, c), adobe_standard(c)->0));
    } else if c == 54u8 {
        assert(agl_entry(303) == (spec_base_encoding_name(Encoding::Standard, c), adobe_standard(c)->0));
    } else if c == 55u8 {
        assert(agl_entry(299) == (spec_base_encoding_name(Encoding::Standard, c), adobe_standard(c)->0));
    } else if c == 56u8 {
        assert(agl_entry(163) == (spec_base_encoding_name(Encoding::Standard, c), adobe_standard(c)->0));
    } else if c == 57u8 {
        assert(agl_entry(230) == (spec_base_encoding_name(Encoding::Standard, c), adobe_standard(c)->0));
    } else if c == 58u8 {
        assert(agl_entry(140) == (spec_base_encoding_name(Encoding::Standard, c), adobe_standard(c)->0));
    } else if c == 59u8 {
        assert(agl_entry(298) == (spec_base_encoding_name(Encoding::Standard, c), adobe_standard(c)->0));
    } else if c == 60u8 {
        assert(agl_entry(216) == (spec_base_encoding_name(Encoding::Standard, c), adobe_standard(c)->0));
    } else if c == 61u8 {
        assert(agl_entry(170) == (spec_base_encoding_name(Encoding::Standard, c), adobe_standard(c)->0));
    } else if c == 62u8 {
        assert(agl_entry(192) == (spec_base_encoding_name(Encoding::Standard, c), adobe_standard(c)->0));
    } else if c == 63u8 {
        assert(agl_entry(276) == (spec_base_encoding_name(Encoding::Standard, c), adobe_standard(c)->0));
    }
}

#[verifier::rlimit(40)]
proof fn lemma_standard_64_128(c: u8)
    requires
        64 <= c < 128,
    ensures
        match adobe_standard(c) {
            Some(u) => exists|i: int|
                0 <= i < agl_len() && #[trigger] agl_entry(i) == (spec_base_encoding_name(Encoding::Standard, c), u),
            None => spec_base_encoding_name(Encoding::Standard, c).len() == 0,
        },
{
    reveal_strlit("");
    if c == 64u8 {
        assert(agl_entry(117) == (spec_base_encoding_name(Encoding::Standard, c), adobe_standard(c)->0));
    } else if c == 65u8 {
        assert(agl_entry(0) == (spec_base_encoding_name(Encoding::Standard, c), adobe_standard(c)->0));
    } else if c == 66u8 {
        assert(agl_entry(9) == (spec_base_encoding_name(Encoding::Standard, c), adobe_standard(c)->0));
    } else if c == 67u8 {
        assert(agl_entry(11) == (spec_base_encoding_name(Encoding::Standard, c), adobe_standard(c)->0));
    } else if c == 68u8 {
        assert(agl_entry(14) == (spec_base_encoding_name(Encoding::Standard, c), adobe_standard(c)->0));
    } else if c == 69u8 {
        assert(agl_entry(16) == (spec_base_encoding_name(Encoding::Standard, c), adobe_standard(c)->0));
    } else if c == 70u8 {
        assert(agl_entry(25) == (spec_base_encoding_name(Encoding::Standard, c), adobe_standard(c)->0));
    } else if c == 71u8 {
        assert(agl_entry(26) == (spec_base_encoding_name(Encoding::Standard, c), adobe_standard(c)->0));
    } else if c == 72u8 {
        assert(agl_entry(28) == (spec_base_encoding_name(Encoding::Standard, c), adobe_standard(c)->0));
    } else if c == 73u8 {
        assert(agl_entry(29) == (spec_base_encoding_name(Encoding::Standard, c), adobe_standard(c)->0));
    } else if c == 74u8 {
        assert(agl_entry(36) == (spec_base_encoding_name(Encoding::Standard, c), adobe_standard(c)->0));
    } else if c == 75u8 {
        assert(agl_entry(37) == (spec_base_encoding_name(Encoding::Standard, c), adobe_standard(c)->0));
    } else if c == 76u8 {
        assert(agl_entry(39) == (spec_base_encoding_name(Encoding::Standard, c), adobe_standard(c)->0));
    } else if c == 77u8 {
        assert(agl_entry(42) == (spec_base_encoding_name(Encoding::Standard, c), adobe_standard(c)->0));
    } else if c == 78u8 {
        assert(agl_entry(44) == (spec_base_encoding_name(Encoding::Standard, c), adobe_standard(c)->0));
    } else if c == 79u8 {
        assert(agl_entry(47) == (spec_base_encoding_name(Encoding::Standard, c), adobe_standard(c)->0));
    } else if c == 80u8 {
        assert(agl_entry(57) == (spec_base_encoding_name(Encoding::Standard, c), adobe_standard(c)->0));
    } else if c == 81u8 {
        assert(agl_entry(61) == (spec_base_encoding_name(Encoding::Standard, c), adobe_standard(c)->0));
    } else if c == 82u8 {
        assert(agl_entry(62) == (spec_base_encoding_name(Encoding::Standard, c), adobe_standard(c)->0));
    } else if c == 83u8 {
        assert(agl_entry(65) == (spec_base_encoding_name(Encoding::Standard, c), adobe_standard(c)->0));
    } else if c == 84u8 {
        assert(agl_entry(68) == (spec_base_encoding_name(Encoding::Standard, c), adobe_standard(c)->0));
    } else if c == 85u8 {
        assert(agl_entry(72) == (spec_base_encoding_name(Encoding::Standard, c), adobe_standard(c)->0));
    } else if c == 86u8 {
        assert(agl_entry(78) == (spec_base_encoding_name(Encoding::Standard, c), adobe_standard(c)->0));
    } else if c == 87u8 {
        assert(agl_entry(79) == (spec_base_encoding_name(Encoding::Standard, c), adobe_standard(c)->0));
    } else if c == 88u8 {
        assert(agl_entry(80) == (spec_base_encoding_name(Encoding::Standard, c), adobe_standard(c)->0));
    } else if c == 89u8 {
        assert(agl_entry(82) == (spec_base_encoding_name(Encoding::Standard, c), adobe_standard(c)->0));
    } else if c == 90u8 {
        assert(agl_entry(85) == (spec_base_encoding_name(Encoding::Standard, c), adobe_standard(c)->0));
    } else if c == 91u8 {
        assert(agl_entry(125) == (spec_base_encoding_name(Encoding::Standard, c), adobe_standard(c)->0));
    } else if c == 92u8 {
        assert(agl_entry(120) == (spec_base_encoding_name(Encoding::Standard, c), adobe_standard(c)->0));
    } else if c == 93u8 {
        assert(agl_entry(126) == (spec_base_encoding_name(Encoding::Standard, c), adobe_standard(c)->0));
    } else if c == 94u8 {
        assert(agl_entry(113) == (spec_base_encoding_name(Encoding::Standard, c), adobe_standard(c)->0));
    } else if c == 95u8 {
        assert(agl_entry(327) == (spec_base_encoding_name(Encoding::Standard, c), adobe_standard(c)->0));
    } else if c == 96u8 {
        assert(agl_entry(282) == (spec_base_encoding_name(Encoding::Standard, c), adobe_standard(c)->0));
    } else if c == 97u8 {
        assert(agl_entry(88) == (spec_base_encoding_name(Encoding::Standard, c), adobe_standard(c)->0));
    } else if c == 98u8 {
        assert(agl_entry(119) == (spec_base_encoding_name(Encoding::Standard, c), adobe_standard(c)->0));
    } else if c == 99u8 {
        assert(agl_entry(130) == (spec_base_encoding_name(Encoding::Standard, c), adobe_standard(c)->0));
    } else if c == 100u8 {
        assert(agl_entry(145) == (spec_base_encoding_name(Encoding::Standard, c), adobe_standard(c)->0));
    } else if c == 101u8 {
        assert(agl_entry(158) == (spec_base_encoding_name(Encoding::Standard, c), adobe_standard(c)->0));
    } else if c == 102u8 {
        assert(agl_entry(177) == (spec_base_encoding_name(Encoding::Standard, c), adobe_standard(c)->0));
    } else if c == 103u8 {
        assert(agl_entry(187) == (spec_base_encoding_name(Encoding::Standard, c), adobe_standard(c)->0));
    } else if c == 104u8 {
        assert(agl_entry(198) == (spec_base_encoding_name(Encoding::Standard, c), adobe_standard(c)->0));
    } else if c == 105u8 {
        assert(agl_entry(202) == (spec_base_encoding_name(Encoding::Standard, c), adobe_standard(c)->0));
    } else if c == 106u8 {
        assert(agl_entry(211) == (spec_base_encoding_name(Encoding::Standard, c), adobe_standard(c)->0));
    } else if c == 107u8 {
        assert(agl_entry(212) == (spec_base_encoding_name(Encoding::Standard, c), adobe_standard(c)->0));
    } else if c == 108u8 {
        assert(agl_entry(214) == (spec_base_encoding_name(Encoding::Standard, c), adobe_standard(c)->0));
    } else if c == 109u8 {
        assert(agl_entry(223) == (spec_base_encoding_name(Encoding::Standard, c), adobe_standard(c)->0));
    } else if c == 110u8 {
        assert(agl_entry(229) == (spec_base_encoding_name(Encoding::Standard, c), adobe_standard(c)->0));
    } else if c == 111u8 {
        assert(agl_entry(237) == (spec_base_encoding_name(Encoding::Standard, c), adobe_standard(c)->0));
    } else if c == 112u8 {
        assert(agl_entry(255) == (spec_base_encoding_name(Encoding::Standard, c), adobe_standard(c)->0));
    } else if c == 113u8 {
        assert(agl_entry(275) == (spec_base_encoding_name(Encoding::Standard, c), adobe_standard(c)->0));
    } else if c == 114u8 {
        assert(agl_entry(286) == (spec_base_encoding_name(Encoding::Standard, c), adobe_standard(c)->0));
    } else if c == 115u8 {
        assert(agl_entry(294) == (spec_base_encoding_name(Encoding::Standard, c), adobe_standard(c)->0));
    } else if c == 116u8 {
        assert(agl_entry(310) == (spec_base_encoding_name(Encoding::Standard, c), adobe_standard(c)->0));
    } else if c == 117u8 {
        assert(agl_entry(322) == (spec_base_encoding_name(Encoding::Standard, c), adobe_standard(c)->0));
    } else if c == 118u8 {
        assert(agl_entry(331) == (spec_base_encoding_name(Encoding::Standard, c), adobe_standard(c)->0));
    } else if c == 119u8 {
        assert(agl_entry(332) == (spec_base_encoding_name(Encoding::Standard, c), adobe_standard(c)->0));
    } else if c == 120u8 {
        assert(agl_entry(334) == (spec_base_encoding_name(Encoding::Standard, c), adobe_standard(c)->0));
    } else if c == 121u8 {
        assert(agl_entry(336) == (spec_base_encoding_name(Encoding::Standard, c), adobe_standard(c)->0));
    } else if c == 122u8 {
        assert(agl_entry(340) == (spec_base_encoding_name(Encoding::Standard, c), adobe_standard(c)->0));
    } else if c == 123u8 {
        assert(agl_entry(123) == (spec_base_encoding_name(Encoding::Standard, c), adobe_standard(c)->0));
    } else if c == 124u8 {
        assert(agl_entry(121) == (spec_base_encoding_name(Encoding::Standard, c), adobe_standard(c)->0));
    } else if c == 125u8 {
        assert(agl_entry(124) == (spec_base_encoding_name(Encoding::Standard, c), adobe_standard(c)->0));
    } else if c == 126u8 {
        assert(agl_entry(114) == (spec_base_encoding_name(Encoding::Standard, c), adobe_standard(c)->0));
    } else if c == 127u8 {
        assert(spec_base_encoding_name(Encoding::Standard, c) == ""@);
    }
}

#[verifier::rlimit(40)]
proof fn lemma_standard_128_192(c: u8)
    requires
        128 <= c < 192,
    ensures
        match adobe_standard(c) {
            Some(u) => exists|i: int|
                0 <= i < agl_len() && #[trigger] agl_entry(i) == (spec_base_encoding_name(Encoding::Standard, c), u),
            None => spec_base_encoding_name(Encoding::Standard, c).len() == 0,
        },
{
    reveal_strlit("");
    if c == 128u8 {
        assert(spec_base_encoding_name(Encoding::Standard, c) == ""@);
    } else if c == 129u8 {
        assert(spec_base_encoding_name(Encoding::Standard, c) == ""@);
    } else if c == 130u8 {
        assert(spec_base_encoding_name(Encoding::Standard, c) == ""@);
    } else if c == 131u8 {
        assert(spec_base_encoding_name(Encoding::Standard, c) == ""@);
    } else if c == 132u8 {
        assert(spec_base_encoding_name(Encoding::Standard, c) == ""@);
    } else if c == 133u8 {
        assert(spec_base_encoding_name(Encoding::Standard, c) == ""@);
    } else if c == 134u8 {
        assert(spec_base_encoding_name(Encoding::Standard, c) == ""@);
    } else if c == 135u8 {
        assert(spec_base_encoding_name(Encoding::Standard, c) == ""@);
    } else if c == 136u8 {
        assert(spec_base_encoding_name(Encoding::Standard, c) == ""@);
    } else if c == 137u8 {
        assert(spec_base_encoding_name(Encoding::Standard, c) == ""@);
    } else if c == 138u8 {
        assert(spec_base_encoding_name(Encoding::Standard, c) == ""@);
    } else if c == 139u8 {
        assert(spec_base_encoding_name(Encoding::Standard, c) == ""@);
    } else if c == 140u8 {
        assert(spec_base_encoding_name(Encoding::Standard, c) == ""@);
    } else if c == 141u8 {
        assert(spec_base_encoding_name(Encoding::Standard, c) == ""@);
    } else if c == 142u8 {
        assert(spec_base_encoding_name(Encoding::Standard, c) == ""@);
    } else if c == 143u8 {
        assert(spec_base_encoding_name(Encoding::Standard, c) == ""@);
    } else if c == 144u8 {
        assert(spec_base_encoding_name(Encoding::Standard, c) == ""@);
    } else if c == 145u8 {
        assert(spec_base_encoding_name(Encoding::Standard, c) == ""@);
    } else if c == 146u8 {
        assert(spec_base_encoding_name(Encoding::Standard, c) == ""@);
    } else if c == 147u8 {
        assert(spec_base_encoding_name(Encoding::Standard, c) == ""@);
    } else if c == 148u8 {
        assert(spec_base_encoding_name(Encoding::Standard, c) == ""@);
    } else if c == 149u8 {
        assert(spec_base_encoding_name(Encoding::Standard, c) == ""@);
    } else if c == 150u8 {
        assert(spec_base_encoding_name(Encoding::Standard, c) == ""@);
    } else if c == 151u8 {
        assert(spec_base_encoding_name(Encoding::Standard, c) == ""@);
    } else if c == 152u8 {
        assert(spec_base_encoding_name(Encoding::Standard, c) == ""@);
    } else if c == 153u8 {
        assert(spec_base_encoding_name(Encoding::Standard, c) == ""@);
    } else if c == 154u8 {
        assert(spec_base_encoding_name(Encoding::Standard, c) == ""@);
    } else if c == 155u8 {
        assert(spec_base_encoding_name(Encoding::Standard, c) == ""@);
    } else if c == 156u8 {
        assert(spec_base_encoding_name(Encoding::Standard, c) == ""@);
    } else if c == 157u8 {
        assert(spec_base_encoding_name(Encoding::Standard, c) == ""@);
    } else if c == 158u8 {
        assert(spec_base_encoding_name(Encoding::Standard, c) == ""@);
    } else if c == 159u8 {
        assert(spec_base_encoding_name(Encoding::Standard, c) == ""@);
    } else if c == 160u8 {
        assert(spec_base_encoding_name(Encoding::Standard, c) == ""@);
    } else if c == 161u8 {
        assert(agl_entry(175) == (spec_base_encoding_name(Encoding::Standard, c), adobe_standard(c)->0));
    } else if c == 162u8 {
        assert(agl_entry(134) == (spec_base_encoding_name(Encoding::Standard, c), adobe_standard(c)->0));
    } else if c == 163u8 {
        assert(agl_entry(307) == (spec_base_encoding_name(Encoding::Standard, c), adobe_standard(c)->0));
    } else if c == 164u8 {
        assert(agl_entry(186) == (spec_base_encoding_name(Encoding::Standard, c), adobe_standard(c)->0));
    } else if c == 165u8 {
        assert(agl_entry(339) == (spec_base_encoding_name(Encoding::Standard, c), adobe_standard(c)->0));
    } else if c == 166u8 {
        assert(agl_entry(184) == (spec_base_encoding_name(Encoding::Standard, c), adobe_standard(c)->0));
    } else if c == 167u8 {
        assert(agl_entry(297) == (spec_base_encoding_name(Encoding::Standard, c), adobe_standard(c)->0));
    } else if c == 168u8 {
        assert(agl_entry(144) == (spec_base_encoding_name(Encoding::Standard, c), adobe_standard(c)->0));
    } else if c == 169u8 {
        assert(agl_entry(285) == (spec_base_encoding_name(Encoding::Standard, c), adobe_standard(c)->0));
    } else if c == 170u8 {
        assert(agl_entry(280) == (spec_base_encoding_name(Encoding::Standard, c), adobe_standard(c)->0));
    } else if c == 171u8 {
        assert(agl_entry(194) == (spec_base_encoding_name(Encoding::Standard, c), adobe_standard(c)->0));
    } else if c == 172u8 {
        assert(agl_entry(196) == (spec_base_encoding_name(Encoding::Standard, c), adobe_standard(c)->0));
    } else if c == 173u8 {
        assert(agl_entry(197) == (spec_base_encoding_name(Encoding::Standard, c), adobe_standard(c)->0));
    } else if c == 174u8 {
        assert(agl_entry(181) == (spec_base_encoding_name(Encoding::Standard, c), adobe_standard(c)->0));
    } else if c == 175u8 {
        assert(agl_entry(183) == (spec_base_encoding_name(Encoding::Standard, c), adobe_standard(c)->0));
    } else if c == 176u8 {
        assert(spec_base_encoding_name(Encoding::Standard, c) == ""@);
    } else if c == 177u8 {
        assert(agl_entry(168) == (spec_base_encoding_name(Encoding::Standard, c), adobe_standard(c)->0));
    } else if c == 178u8 {
        assert(agl_entry(146) == (spec_base_encoding_name(Encoding::Standard, c), adobe_standard(c)->0));
    } else if c == 179u8 {
        assert(agl_entry(147) == (spec_base_encoding_name(Encoding::Standard, c), adobe_standard(c)->0));
    } else if c == 180u8 {
        assert(agl_entry(262) == (spec_base_encoding_name(Encoding::Standard, c), adobe_standard(c)->0));
    } else if c == 181u8 {
        assert(spec_base_encoding_name(Encoding::Standard, c) == ""@);
    } else if c == 182u8 {
        assert(agl_entry(256) == (spec_base_encoding_name(Encoding::Standard, c), adobe_standard(c)->0));
    } else if c == 183u8 {
        assert(agl_entry(129) == (spec_base_encoding_name(Encoding::Standard, c), adobe_standard(c)->0));
    } else if c == 184u8 {
        assert(agl_entry(284) == (spec_base_encoding_name(Encoding::Standard, c), adobe_standard(c)->0));
    } else if c == 185u8 {
        assert(agl_entry(279) == (spec_base_encoding_name(Encoding::Standard, c), adobe_standard(c)->0));
    } else if c == 186u8 {
        assert(agl_entry(281) == (spec_base_encoding_name(Encoding::Standard, c), adobe_standard(c)->0));
    } else if c == 187u8 {
        assert(agl_entry(195) == (spec_base_encoding_name(Encoding::Standard, c), adobe_standard(c)->0));
    } else if c == 188u8 {
        assert(agl_entry(165) == (spec_base_encoding_name(Encoding::Standard, c), adobe_standard(c)->0));
    } else if c == 189u8 {
        assert(agl_entry(264) == (spec_base_encoding_name(Encoding::Standard, c), adobe_standard(c)->0));
    } else if c == 190u8 {
        assert(spec_base_encoding_name(Encoding::Standard, c) == ""@);
    } else if c == 191u8 {
        assert(agl_entry(277) == (spec_base_encoding_name(Encoding::Standard, c), adobe_standard(c)->0));
    }
}

#[verifier::rlimit(40)]
proof fn lemma_standard_192_256(c: u8)
    requires
        192 <= c < 256,
    ensures
        match adobe_standard(c) {
            Some(u) => exists|i: int|
                0 <= i < agl_len() && #[trigger] agl_entry(i) == (spec_base_encoding_name(Encoding::Standard, c), u),
            None => spec_base_encoding_name(Encoding::Standard, c).len() == 0,
        },
{
    reveal_strlit("");
    if c == 192u8 {
        assert(spec_base_encoding_name(Encoding::Standard, c) == ""@);
    } else if c == 193u8 {
        assert(agl_entry(191) == (spec_base_encoding_name(Encoding::Standard, c), adobe_standard(c)->0));
    } else if c == 194u8 {
        assert(agl_entry(91) == (spec_base_encoding_name(Encoding::Standard, c), adobe_standard(c)->0));
    } else if c == 195u8 {
        assert(agl_entry(138) == (spec_base_encoding_name(Encoding::Standard, c), adobe_standard(c)->0));
    } else if c == 196u8 {
        assert(agl_entry(318) == (spec_base_encoding_name(Encoding::Standard, c), adobe_standard(c)->0));
    } else if c == 197u8 {
        assert(agl_entry(224) == (spec_base_encoding_name(Encoding::Standard, c), adobe_standard(c)->0));
    } else if c == 198u8 {
        assert(agl_entry(127) == (spec_base_encoding_name(Encoding::Standard, c), adobe_standard(c)->0));
    } else if c == 199u8 {
        assert(agl_entry(154) == (spec_base_encoding_name(Encoding::Standard, c), adobe_standard(c)->0));
    } else if c == 200u8 {
        assert(agl_entry(151) == (spec_base_encoding_name(Encoding::Standard, c), adobe_standard(c)->0));
    } else if c == 201u8 {
        assert(spec_base_encoding_name(Encoding::Standard, c) == ""@);
    } else if c == 202u8 {
        assert(agl_entry(293) == (spec_base_encoding_name(Encoding::Standard, c), adobe_standard(c)->0));
    } else if c == 203u8 {
        assert(agl_entry(133) == (spec_base_encoding_name(Encoding::Standard, c), adobe_standard(c)->0));
    } else if c == 204u8 {
        assert(spec_base_encoding_name(Encoding::Standard, c) == ""@);
    } else if c == 205u8 {
        assert(agl_entry(200) == (spec_base_encoding_name(Encoding::Standard, c), adobe_standard(c)->0));
    } else if c == 206u8 {
        assert(agl_entry(242) == (spec_base_encoding_name(Encoding::Standard, c), adobe_standard(c)->0));
    } else if c == 207u8 {
        assert(agl_entry(131) == (spec_base_encoding_name(Encoding::Standard, c), adobe_standard(c)->0));
    } else if c == 208u8 {
        assert(agl_entry(166) == (spec_base_encoding_name(Encoding::Standard, c), adobe_standard(c)->0));
    } else if c == 209u8 {
        assert(spec_base_encoding_name(Encoding::Standard, c) == ""@);
    } else if c == 210u8 {
        assert(spec_base_encoding_name(Encoding::Standard, c) == ""@);
    } else if c == 211u8 {
        assert(spec_base_encoding_name(Encoding::Standard, c) == ""@);
    } else if c == 212u8 {
        assert(spec_base_encoding_name(Encoding::Standard, c) == ""@);
    } else if c == 213u8 {
        assert(spec_base_encoding_name(Encoding::Standard, c) == ""@);
    } else if c == 214u8 {
        assert(spec_base_encoding_name(Encoding::Standard, c) == ""@);
    } else if c == 215u8 {
        assert(spec_base_encoding_name(Encoding::Standard, c) == ""@);
    } else if c == 216u8 {
        assert(spec_base_encoding_name(Encoding::Standard, c) == ""@);
    } else if c == 217u8 {
        assert(spec_base_encoding_name(Encoding::Standard, c) == ""@);
    } else if c == 218u8 {
        assert(spec_base_encoding_name(Encoding::Standard, c) == ""@);
    } else if c == 219u8 {
        assert(spec_base_encoding_name(Encoding::Standard, c) == ""@);
    } else if c == 220u8 {
        assert(spec_base_encoding_name(Encoding::Standard, c) == ""@);
    } else if c == 221u8 {
        assert(spec_base_encoding_name(Encoding::Standard, c) == ""@);
    } else if c == 222u8 {
        assert(spec_base_encoding_name(Encoding::Standard, c) == ""@);
    } else if c == 223u8 {
        assert(spec_base_encoding_name(Encoding::Standard, c) == ""@);
    } else if c == 224u8 {
        assert(spec_base_encoding_name(Encoding::Standard, c) == ""@);
    } else if c == 225u8 {
        assert(agl_entry(1) == (spec_base_encoding_name(Encoding::Standard, c), adobe_standard(c)->0));
    } else if c == 226u8 {
        assert(spec_base_encoding_name(Encoding::Standard, c) == ""@);
    } else if c == 227u8 {
        assert(agl_entry(251) == (spec_base_encoding_name(Encoding::Standard, c), adobe_standard(c)->0));
    } else if c == 228u8 {
        assert(spec_base_encoding_name(Encoding::Standard, c) == ""@);
    } else if c == 229u8 {
        assert(spec_base_encoding_name(Encoding::Standard, c) == ""@);
    } else if c == 230u8 {
        assert(spec_base_encoding_name(Encoding::Standard, c) == ""@);
    } else if c == 231u8 {
        assert(spec_base_encoding_name(Encoding::Standard, c) == ""@);
    } else if c == 232u8 {
        assert(spec_base_encoding_name(Encoding::Standard, c) == ""@);
    } else if c == 233u8 {
        assert(spec_base_encoding_name(Encoding::Standard, c) == ""@);
    } else if c == 234u8 {
        assert(spec_base_encoding_name(Encoding::Standard, c) == ""@);
    } else if c == 235u8 {
        assert(spec_base_encoding_name(Encoding::Standard, c) == ""@);
    } else if c == 236u8 {
        assert(spec_base_encoding_name(Encoding::Standard, c) == ""@);
    } else if c == 237u8 {
        assert(spec_base_encoding_name(Encoding::Standard, c) == ""@);
    } else if c == 238u8 {
        assert(spec_base_encoding_name(Encoding::Standard, c) == ""@);
    } else if c == 239u8 {
        assert(spec_base_encoding_name(Encoding::Standard, c) == ""@);
    } else if c == 240u8 {
        assert(spec_base_encoding_name(Encoding::Standard, c) == ""@);
    } else if c == 241u8 {
        assert(agl_entry(93) == (spec_base_encoding_name(Encoding::Standard, c), adobe_standard(c)->0));
    } else if c == 242u8 {
        assert(spec_base_encoding_name(Encoding::Standard, c) == ""@);
    } else if c == 243u8 {
        assert(spec_base_encoding_name(Encoding::Standard, c) == ""@);
    } else if c == 244u8 {
        assert(spec_base_encoding_name(Encoding::Standard, c) == ""@);
    } else if c == 245u8 {
        assert(agl_entry(155) == (spec_base_encoding_name(Encoding::Standard, c), adobe_standard(c)->0));
    } else if c == 246u8 {
        assert(spec_base_encoding_name(Encoding::Standard, c) == ""@);
    } else if c == 247u8 {
        assert(spec_base_encoding_name(Encoding::Standard, c) == ""@);
    } else if c == 248u8 {
        assert(spec_base_encoding_name(Encoding::Standard, c) == ""@);
    } else if c == 249u8 {
        assert(spec_base_encoding_name(Encoding::Standard, c) == ""@);
    } else if c == 250u8 {
        assert(spec_base_encoding_name(Encoding::Standard, c) == ""@);
    } else if c == 251u8 {
        assert(spec_base_encoding_name(Encoding::Standard, c) == ""@);
    } else if c == 252u8 {
        assert(spec_base_encoding_name(Encoding::Standard, c) == ""@);
    } else if c == 253u8 {
        assert(spec_base_encoding_name(Encoding::Standard, c) == ""@);
    } else if c == 254u8 {
        assert(spec_base_encoding_name(Encoding::Standard, c) == ""@);
    } else if c == 255u8 {
        assert(spec_base_encoding_name(Encoding::Standard, c) == ""@);
    }
}

/// StandardEncoding follows Adobe's standard character set: the glyph list gives each named
/// slot the character the set puts there (curly quotes at 0x27 and 0x60).
pub proof fn standard_is_adobe_standard(c: u8)
    ensures
        match adobe_standard(c) {
            Some(u) => exists|i: int|
                0 <= i < agl_len() && #[trigger] agl_entry(i) == (spec_base_encoding_name(Encoding::Standard, c), u),
            None => spec_base_encoding_name(Encoding::Standard, c).len() == 0,
        },
{
    if c < 64 {
        lemma_standard_0_64(c);
    } else if c < 128 {
        lemma_standard_64_128(c);
    } else if c < 192 {
        lemma_standard_128_192(c);
    } else {
        lemma_standard_192_256(c);
    }
}

/// The Greek letter the Symbol font draws for a Latin letter code: `A`-`Z` and `a`-`z` in the
/// Latin order of their Greek counterparts (`C` chi, `F` phi, `H` eta, `Q` theta, `U` upsilon,
/// `X` xi, `Y` psi), with `J` the theta symbol, `V` the final sigma, `j` the phi symbol and `v`
/// the pi symbol; `m` is the micro sign, as the glyph list has `mu`.
pub open spec fn symbol_greek(c: u8) -> Option<char> {
    match c {
        65u8 => Some('\u{391}'),
        66u8 => Some('\u{392}'),
        67u8 => Some('\u{3a7}'),
        68u8 => Some('\u{394}'),
        69u8 => Some('\u{395}'),
        70u8 => Some('\u{3a6}'),
        71u8 => Some('\u{393}'),
        72u8 => Some('\u{397}'),
        73u8 => Some('\u{399}'),
        74u8 => Some('\u{3d1}'),
        75u8 => Some('\u{39a}'),
        76u8 => Some('\u{39b}'),
        77u8 => Some('\u{39c}'),
        78u8 => Some('\u{39d}'),
        79u8 => Some('\u{39f}'),
        80u8 => Some('\u{3a0}'),
        81u8 => Some('\u{398}'),
        82u8 => Some('\u{3a1}'),
        83u8 => Some('\u{3a3}'),
        84u8 => Some('\u{3a4}'),
        85u8 => Some('\u{3a5}'),
        86u8 => Some('\u{3c2}'),
        87u8 => Some('\u{3a9}'),
        88u8 => Some('\u{39e}'),
        89u8 => Some('\u{3a8}'),
        90u8 => Some('\u{396}'),
        97u8 => Some('\u{3b1}'),
        98u8 => Some('\u{3b2}'),
        99u8 => Some('\u{3c7}'),
        100u8 => Some('\u{3b4}'),
        101u8 => Some('\u{3b5}'),
        102u8 => Some('\u{3c6}'),
        103u8 => Some('\u{3b3}'),
        104u8 => Some('\u{3b7}'),
        105u8 => Some('\u{3b9}'),
        106u8 => Some('\u{3d5}'),
        107u8 => Some('\u{3ba}'),
        108u8 => Some('\u{3bb}'),
        109u8 => Some('\u{b5}'),
        110u8 => Some('\u{3bd}'),
        111u8 => Some('\u{3bf}'),
        112u8 => Some('\u{3c0}'),
        113u8 => Some('\u{3b8}'),
        114u8 => Some('\u{3c1}'),
        115u8 => Some('\u{3c3}'),
        116u8 => Some('\u{3c4}'),
        117u8 => Some('\u{3c5}'),
        118u8 => Some('\u{3d6}'),
        119u8 => Some('\u{3c9}'),
        120u8 => Some('\u{3be}'),
        121u8 => Some('\u{3c8}'),
        122u8 => Some('\u{3b6}'),
        _ => None,
    }
}

/// The Symbol encoding puts the Greek alphabet on the Latin letter codes: the glyph list gives
/// each letter code's glyph the Greek letter of [`symbol_greek`].
#[verifier::rlimit(40)]
pub proof fn symbol_letters_are_greek(c: u8)
    requires
        symbol_greek(c) is Some,
    ensures
        exists|i: int|
            0 <= i < agl_len() && #[trigger] agl_entry(i) == (
                spec_base_encoding_name(Encoding::Symbol, c),
                symbol_greek(c)->0,
            ),
{
    if c == 65u8 {
        assert(agl_entry(6) == (spec_base_encoding_name(Encoding::Symbol, c), symbol_greek(c)->0));
    } else if c == 66u8 {
        assert(agl_entry(10) == (spec_base_encoding_name(Encoding::Symbol, c), symbol_greek(c)->0));
    } else if c == 67u8 {
        assert(agl_entry(13) == (spec_base_encoding_name(Encoding::Symbol, c), symbol_greek(c)->0));
    } else if c == 68u8 {
        assert(agl_entry(15) == (spec_base_encoding_name(Encoding::Symbol, c), symbol_greek(c)->0));
    } else if c == 69u8 {
        assert(agl_entry(21) == (spec_base_encoding_name(Encoding::Symbol, c), symbol_greek(c)->0));
    } else if c == 70u8 {
        assert(agl_entry(58) == (spec_base_encoding_name(Encoding::Symbol, c), symbol_greek(c)->0));
    } else if c == 71u8 {
        assert(agl_entry(27) == (spec_base_encoding_name(Encoding::Symbol, c), symbol_greek(c)->0));
    } else if c == 72u8 {
        assert(agl_entry(22) == (spec_base_encoding_name(Encoding::Symbol, c), symbol_greek(c)->0));
    } else if c == 73u8 {
        assert(agl_entry(35) == (spec_base_encoding_name(Encoding::Symbol, c), symbol_greek(c)->0));
    } else if c == 74u8 {
        assert(agl_entry(313) == (spec_base_encoding_name(Encoding::Symbol, c), symbol_greek(c)->0));
    } else if c == 75u8 {
        assert(agl_entry(38) == (spec_base_encoding_name(Encoding::Symbol, c), symbol_greek(c)->0));
    } else if c == 76u8 {
        assert(agl_entry(40) == (spec_base_encoding_name(Encoding::Symbol, c), symbol_greek(c)->0));
    } else if c == 77u8 {
        assert(agl_entry(43) == (spec_base_encoding_name(Encoding::Symbol, c), symbol_greek(c)->0));
    } else if c == 78u8 {
        assert(agl_entry(46) == (spec_base_encoding_name(Encoding::Symbol, c), symbol_greek(c)->0));
    } else if c == 79u8 {
        assert(agl_entry(54) == (spec_base_encoding_name(Encoding::Symbol, c), symbol_greek(c)->0));
    } else if c == 80u8 {
        assert(agl_entry(59) == (spec_base_encoding_name(Encoding::Symbol, c), symbol_greek(c)->0));
    } else if c == 81u8 {
        assert(agl_entry(70) == (spec_base_encoding_name(Encoding::Symbol, c), symbol_greek(c)->0));
    } else if c == 82u8 {
        assert(agl_entry(64) == (spec_base_encoding_name(Encoding::Symbol, c), symbol_greek(c)->0));
    } else if c == 83u8 {
        assert(agl_entry(67) == (spec_base_encoding_name(Encoding::Symbol, c), symbol_greek(c)->0));
    } else if c == 84u8 {
        assert(agl_entry(69) == (spec_base_encoding_name(Encoding::Symbol, c), symbol_greek(c)->0));
    } else if c == 85u8 {
        assert(agl_entry(77) == (spec_base_encoding_name(Encoding::Symbol, c), symbol_greek(c)->0));
    } else if c == 86u8 {
        assert(agl_entry(301) == (spec_base_encoding_name(Encoding::Symbol, c), symbol_greek(c)->0));
    } else if c == 87u8 {
        assert(agl_entry(53) == (spec_base_encoding_name(Encoding::Symbol, c), symbol_greek(c)->0));
    } else if c == 88u8 {
        assert(agl_entry(81) == (spec_base_encoding_name(Encoding::Symbol, c), symbol_greek(c)->0));
    } else if c == 89u8 {
        assert(agl_entry(60) == (spec_base_encoding_name(Encoding::Symbol, c), symbol_greek(c)->0));
    } else if c == 90u8 {
        assert(agl_entry(87) == (spec_base_encoding_name(Encoding::Symbol, c), symbol_greek(c)->0));
    } else if c == 97u8 {
        assert(agl_entry(96) == (spec_base_encoding_name(Encoding::Symbol, c), symbol_greek(c)->0));
    } else if c == 98u8 {
        assert(agl_entry(122) == (spec_base_encoding_name(Encoding::Symbol, c), symbol_greek(c)->0));
    } else if c == 99u8 {
        assert(agl_entry(135) == (spec_base_encoding_name(Encoding::Symbol, c), symbol_greek(c)->0));
    } else if c == 100u8 {
        assert(agl_entry(149) == (spec_base_encoding_name(Encoding::Symbol, c), symbol_greek(c)->0));
    } else if c == 101u8 {
        assert(agl_entry(169) == (spec_base_encoding_name(Encoding::Symbol, c), symbol_greek(c)->0));
    } else if c == 102u8 {
        assert(agl_entry(265) == (spec_base_encoding_name(Encoding::Symbol, c), symbol_greek(c)->0));
    } else if c == 103u8 {
        assert(agl_entry(188) == (spec_base_encoding_name(Encoding::Symbol, c), symbol_greek(c)->0));
    } else if c == 104u8 {
        assert(agl_entry(172) == (spec_base_encoding_name(Encoding::Symbol, c), symbol_greek(c)->0));
    } else if c == 105u8 {
        assert(agl_entry(210) == (spec_base_encoding_name(Encoding::Symbol, c), symbol_greek(c)->0));
    } else if c == 106u8 {
        assert(agl_entry(266) == (spec_base_encoding_name(Encoding::Symbol, c), symbol_greek(c)->0));
    } else if c == 107u8 {
        assert(agl_entry(213) == (spec_base_encoding_name(Encoding::Symbol, c), symbol_greek(c)->0));
    } else if c == 108u8 {
        assert(agl_entry(215) == (spec_base_encoding_name(Encoding::Symbol, c), symbol_greek(c)->0));
    } else if c == 109u8 {
        assert(agl_entry(227) == (spec_base_encoding_name(Encoding::Symbol, c), symbol_greek(c)->0));
    } else if c == 110u8 {
        assert(agl_entry(235) == (spec_base_encoding_name(Encoding::Symbol, c), symbol_greek(c)->0));
    } else if c == 111u8 {
        assert(agl_entry(246) == (spec_base_encoding_name(Encoding::Symbol, c), symbol_greek(c)->0));
    } else if c == 112u8 {
        assert(agl_entry(267) == (spec_base_encoding_name(Encoding::Symbol, c), symbol_greek(c)->0));
    } else if c == 113u8 {
        assert(agl_entry(312) == (spec_base_encoding_name(Encoding::Symbol, c), symbol_greek(c)->0));
    } else if c == 114u8 {
        assert(agl_entry(292) == (spec_base_encoding_name(Encoding::Symbol, c), symbol_greek(c)->0));
    } else if c == 115u8 {
        assert(agl_entry(300) == (spec_base_encoding_name(Encoding::Symbol, c), symbol_greek(c)->0));
    } else if c == 116u8 {
        assert(agl_entry(311) == (spec_base_encoding_name(Encoding::Symbol, c), symbol_greek(c)->0));
    } else if c == 117u8 {
        assert(agl_entry(330) == (spec_base_encoding_name(Encoding::Symbol, c), symbol_greek(c)->0));
    } else if c == 118u8 {
        assert(agl_entry(245) == (spec_base_encoding_name(Encoding::Symbol, c), symbol_greek(c)->0));
    } else if c == 119u8 {
        assert(agl_entry(244) == (spec_base_encoding_name(Encoding::Symbol, c), symbol_greek(c)->0));
    } else if c == 120u8 {
        assert(agl_entry(335) == (spec_base_encoding_name(Encoding::Symbol, c), symbol_greek(c)->0));
    } else if c == 121u8 {
        assert(agl_entry(274) == (spec_base_encoding_name(Encoding::Symbol, c), symbol_greek(c)->0));
    } else if c == 122u8 {
        assert(agl_entry(343) == (spec_base_encoding_name(Encoding::Symbol, c), symbol_greek(c)->0));
    }
}

} // verus!
