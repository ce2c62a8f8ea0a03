//! Built-in metrics for the 14 standard fonts.
//!
//! A PDF may reference Helvetica, Times, Courier, Symbol or ZapfDingbats with no `/Widths` array
//! and no embedded program, on the understanding that every viewer knows their metrics. Only the
//! ASCII range is tabulated here — it is where essentially all text lives, and the alternative to
//! a partial table is a wrong advance for every glyph, which shifts an entire line.
//!
//! Widths are in glyph space, 1000 units per em. Courier is monospaced at 600 and needs no table.

use vstd::prelude::*;

use super::encoding::{glyph_name_to_unicode, glyph_unicode};
use crate::text::{chars_of, contains_chars, contains_str, last_segment, last_segment_of, lower_chars, to_lower_chars};

verus! {

#[derive(Debug, Clone, Copy, PartialEq, Eq, Structural)]
pub enum Family {
    Helvetica,
    HelveticaBold,
    TimesRoman,
    TimesBold,
    TimesItalic,
    TimesBoldItalic,
    Courier,
    /// Symbol and ZapfDingbats: no tabulated metrics, but they are never monospaced either.
    Other,
}

/// Standard-14 advance widths for codes 32..=126, one column per family 0..=5 (Helvetica,
/// Helvetica-Bold, Times-Roman, Times-Bold, Times-Italic, Times-BoldItalic).
pub open spec fn ascii_width(code: u8, column: int) -> u16 {
    match code {
        32u8 => if column == 0 { 278 } else if column == 1 { 278 } else if column == 2 { 250 } else if column == 3 { 250 } else if column == 4 { 250 } else { 250 },
        33u8 => if column == 0 { 278 } else if column == 1 { 333 } else if column == 2 { 333 } else if column == 3 { 333 } else if column == 4 { 333 } else { 389 },
        34u8 => if column == 0 { 355 } else if column == 1 { 474 } else if column == 2 { 408 } else if column == 3 { 555 } else if column == 4 { 420 } else { 555 },
        35u8 => if column == 0 { 556 } else if column == 1 { 556 } else if column == 2 { 500 } else if column == 3 { 500 } else if column == 4 { 500 } else { 500 },
        36u8 => if column == 0 { 556 } else if column == 1 { 556 } else if column == 2 { 500 } else if column == 3 { 500 } else if column == 4 { 500 } else { 500 },
        37u8 => if column == 0 { 889 } else if column == 1 { 889 } else if column == 2 { 833 } else if column == 3 { 1000 } else if column == 4 { 833 } else { 833 },
        38u8 => if column == 0 { 667 } else if column == 1 { 722 } else if column == 2 { 778 } else if column == 3 { 833 } else if column == 4 { 778 } else { 778 },
        39u8 => if column == 0 { 191 } else if column == 1 { 238 } else if column == 2 { 180 } else if column == 3 { 278 } else if column == 4 { 214 } else { 278 },
        40u8 => if column == 0 { 333 } else if column == 1 { 333 } else if column == 2 { 333 } else if column == 3 { 333 } else if column == 4 { 333 } else { 333 },
        41u8 => if column == 0 { 333 } else if column == 1 { 333 } else if column == 2 { 333 } else if column == 3 { 333 } else if column == 4 { 333 } else { 333 },
        42u8 => if column == 0 { 389 } else if column == 1 { 389 } else if column == 2 { 500 } else if column == 3 { 500 } else if column == 4 { 500 } else { 500 },
        43u8 => if column == 0 { 584 } else if column == 1 { 584 } else if column == 2 { 564 } else if column == 3 { 570 } else if column == 4 { 675 } else { 570 },
        44u8 => if column == 0 { 278 } else if column == 1 { 278 } else if column == 2 { 250 } else if column == 3 { 250 } else if column == 4 { 250 } else { 250 },
        45u8 => if column == 0 { 333 } else if column == 1 { 333 } else if column == 2 { 333 } else if column == 3 { 333 } else if column == 4 { 333 } else { 333 },
        46u8 => if column == 0 { 278 } else if column == 1 { 278 } else if column == 2 { 250 } else if column == 3 { 250 } else if column == 4 { 250 } else { 250 },
        47u8 => if column == 0 { 278 } else if column == 1 { 278 } else if column == 2 { 278 } else if column == 3 { 278 } else if column == 4 { 278 } else { 278 },
        48u8 => if column == 0 { 556 } else if column == 1 { 556 } else if column == 2 { 500 } else if column == 3 { 500 } else if column == 4 { 500 } else { 500 },
        49u8 => if column == 0 { 556 } else if column == 1 { 556 } else if column == 2 { 500 } else if column == 3 { 500 } else if column == 4 { 500 } else { 500 },
        50u8 => if column == 0 { 556 } else if column == 1 { 556 } else if column == 2 { 500 } else if column == 3 { 500 } else if column == 4 { 500 } else { 500 },
        51u8 => if column == 0 { 556 } else if column == 1 { 556 } else if column == 2 { 500 } else if column == 3 { 500 } else if column == 4 { 500 } else { 500 },
        52u8 => if column == 0 { 556 } else if column == 1 { 556 } else if column == 2 { 500 } else if column == 3 { 500 } else if column == 4 { 500 } else { 500 },
        53u8 => if column == 0 { 556 } else if column == 1 { 556 } else if column == 2 { 500 } else if column == 3 { 500 } else if column == 4 { 500 } else { 500 },
        54u8 => if column == 0 { 556 } else if column == 1 { 556 } else if column == 2 { 500 } else if column == 3 { 500 } else if column == 4 { 500 } else { 500 },
        55u8 => if column == 0 { 556 } else if column == 1 { 556 } else if column == 2 { 500 } else if column == 3 { 500 } else if column == 4 { 500 } else { 500 },
        56u8 => if column == 0 { 556 } else if column == 1 { 556 } else if column == 2 { 500 } else if column == 3 { 500 } else if column == 4 { 500 } else { 500 },
        57u8 => if column == 0 { 556 } else if column == 1 { 556 } else if column == 2 { 500 } else if column == 3 { 500 } else if column == 4 { 500 } else { 500 },
        58u8 => if column == 0 { 278 } else if column == 1 { 333 } else if column == 2 { 278 } else if column == 3 { 333 } else if column == 4 { 333 } else { 333 },
        59u8 => if column == 0 { 278 } else if column == 1 { 333 } else if column == 2 { 278 } else if column == 3 { 333 } else if column == 4 { 333 } else { 333 },
        60u8 => if column == 0 { 584 } else if column == 1 { 584 } else if column == 2 { 564 } else if column == 3 { 570 } else if column == 4 { 675 } else { 570 },
        61u8 => if column == 0 { 584 } else if column == 1 { 584 } else if column == 2 { 564 } else if column == 3 { 570 } else if column == 4 { 675 } else { 570 },
        62u8 => if column == 0 { 584 } else if column == 1 { 584 } else if column == 2 { 564 } else if column == 3 { 570 } else if column == 4 { 675 } else { 570 },
        63u8 => if column == 0 { 556 } else if column == 1 { 611 } else if column == 2 { 444 } else if column == 3 { 500 } else if column == 4 { 500 } else { 500 },
        64u8 => if column == 0 { 1015 } else if column == 1 { 975 } else if column == 2 { 921 } else if column == 3 { 930 } else if column == 4 { 920 } else { 832 },
        65u8 => if column == 0 { 667 } else if column == 1 { 722 } else if column == 2 { 722 } else if column == 3 { 722 } else if column == 4 { 611 } else { 667 },
        66u8 => if column == 0 { 667 } else if column == 1 { 722 } else if column == 2 { 667 } else if column == 3 { 667 } else if column == 4 { 611 } else { 667 },
        67u8 => if column == 0 { 722 } else if column == 1 { 722 } else if column == 2 { 667 } else if column == 3 { 722 } else if column == 4 { 667 } else { 667 },
        68u8 => if column == 0 { 722 } else if column == 1 { 722 } else if column == 2 { 722 } else if column == 3 { 722 } else if column == 4 { 722 } else { 722 },
        69u8 => if column == 0 { 667 } else if column == 1 { 667 } else if column == 2 { 611 } else if column == 3 { 667 } else if column == 4 { 611 } else { 667 },
        70u8 => if column == 0 { 611 } else if column == 1 { 611 } else if column == 2 { 556 } else if column == 3 { 611 } else if column == 4 { 611 } else { 667 },
        71u8 => if column == 0 { 778 } else if column == 1 { 778 } else if column == 2 { 722 } else if column == 3 { 778 } else if column == 4 { 722 } else { 722 },
        72u8 => if column == 0 { 722 } else if column == 1 { 722 } else if column == 2 { 722 } else if column == 3 { 778 } else if column == 4 { 722 } else { 778 },
        73u8 => if column == 0 { 278 } else if column == 1 { 278 } else if column == 2 { 333 } else if column == 3 { 389 } else if column == 4 { 333 } else { 389 },
        74u8 => if column == 0 { 500 } else if column == 1 { 556 } else if column == 2 { 389 } else if column == 3 { 500 } else if column == 4 { 444 } else { 500 },
        75u8 => if column == 0 { 667 } else if column == 1 { 722 } else if column == 2 { 722 } else if column == 3 { 778 } else if column == 4 { 667 } else { 667 },
        76u8 => if column == 0 { 556 } else if column == 1 { 611 } else if column == 2 { 611 } else if column == 3 { 667 } else if column == 4 { 556 } else { 611 },
        77u8 => if column == 0 { 833 } else if column == 1 { 833 } else if column == 2 { 889 } else if column == 3 { 944 } else if column == 4 { 833 } else { 889 },
        78u8 => if column == 0 { 722 } else if column == 1 { 722 } else if column == 2 { 722 } else if column == 3 { 722 } else if column == 4 { 667 } else { 722 },
        79u8 => if column == 0 { 778 } else if column == 1 { 778 } else if column == 2 { 722 } else if column == 3 { 778 } else if column == 4 { 722 } else { 722 },
        80u8 => if column == 0 { 667 } else if column == 1 { 667 } else if column == 2 { 556 } else if column == 3 { 611 } else if column == 4 { 611 } else { 611 },
        81u8 => if column == 0 { 778 } else if column == 1 { 778 } else if column == 2 { 722 } else if column == 3 { 778 } else if column == 4 { 722 } else { 722 },
        82u8 => if column == 0 { 722 } else if column == 1 { 722 } else if column == 2 { 667 } else if column == 3 { 722 } else if column == 4 { 611 } else { 667 },
        83u8 => if column == 0 { 667 } else if column == 1 { 667 } else if column == 2 { 556 } else if column == 3 { 556 } else if column == 4 { 500 } else { 556 },
        84u8 => if column == 0 { 611 } else if column == 1 { 611 } else if column == 2 { 611 } else if column == 3 { 667 } else if column == 4 { 556 } else { 611 },
        85u8 => if column == 0 { 722 } else if column == 1 { 722 } else if column == 2 { 722 } else if column == 3 { 722 } else if column == 4 { 722 } else { 722 },
        86u8 => if column == 0 { 667 } else if column == 1 { 667 } else if column == 2 { 722 } else if column == 3 { 722 } else if column == 4 { 611 } else { 667 },
        87u8 => if column == 0 { 944 } else if column == 1 { 944 } else if column == 2 { 944 } else if column == 3 { 1000 } else if column == 4 { 833 } else { 889 },
        88u8 => if column == 0 { 667 } else if column == 1 { 667 } else if column == 2 { 722 } else if column == 3 { 722 } else if column == 4 { 611 } else { 667 },
        89u8 => if column == 0 { 667 } else if column == 1 { 667 } else if column == 2 { 722 } else if column == 3 { 722 } else if column == 4 { 556 } else { 611 },
        90u8 => if column == 0 { 611 } else if column == 1 { 611 } else if column == 2 { 611 } else if column == 3 { 667 } else if column == 4 { 556 } else { 611 },
        91u8 => if column == 0 { 278 } else if column == 1 { 333 } else if column == 2 { 333 } else if column == 3 { 333 } else if column == 4 { 389 } else { 333 },
        92u8 => if column == 0 { 278 } else if column == 1 { 278 } else if column == 2 { 278 } else if column == 3 { 278 } else if column == 4 { 278 } else { 278 },
        93u8 => if column == 0 { 278 } else if column == 1 { 333 } else if column == 2 { 333 } else if column == 3 { 333 } else if column == 4 { 389 } else { 333 },
        94u8 => if column == 0 { 469 } else if column == 1 { 584 } else if column == 2 { 469 } else if column == 3 { 581 } else if column == 4 { 422 } else { 570 },
        95u8 => if column == 0 { 556 } else if column == 1 { 556 } else if column == 2 { 500 } else if column == 3 { 500 } else if column == 4 { 500 } else { 500 },
        96u8 => if column == 0 { 333 } else if column == 1 { 333 } else if column == 2 { 333 } else if column == 3 { 333 } else if column == 4 { 333 } else { 333 },
        97u8 => if column == 0 { 556 } else if column == 1 { 556 } else if column == 2 { 444 } else if column == 3 { 500 } else if column == 4 { 500 } else { 500 },
        98u8 => if column == 0 { 556 } else if column == 1 { 611 } else if column == 2 { 500 } else if column == 3 { 556 } else if column == 4 { 500 } else { 500 },
        99u8 => if column == 0 { 500 } else if column == 1 { 556 } else if column == 2 { 444 } else if column == 3 { 444 } else if column == 4 { 444 } else { 444 },
        100u8 => if column == 0 { 556 } else if column == 1 { 611 } else if column == 2 { 500 } else if column == 3 { 556 } else if column == 4 { 500 } else { 500 },
        101u8 => if column == 0 { 556 } else if column == 1 { 556 } else if column == 2 { 444 } else if column == 3 { 444 } else if column == 4 { 444 } else { 444 },
        102u8 => if column == 0 { 278 } else if column == 1 { 333 } else if column == 2 { 333 } else if column == 3 { 333 } else if column == 4 { 278 } else { 333 },
        103u8 => if column == 0 { 556 } else if column == 1 { 611 } else if column == 2 { 500 } else if column == 3 { 500 } else if column == 4 { 500 } else { 500 },
        104u8 => if column == 0 { 556 } else if column == 1 { 611 } else if column == 2 { 500 } else if column == 3 { 556 } else if column == 4 { 500 } else { 556 },
        105u8 => if column == 0 { 222 } else if column == 1 { 278 } else if column == 2 { 278 } else if column == 3 { 278 } else if column == 4 { 278 } else { 278 },
        106u8 => if column == 0 { 222 } else if column == 1 { 278 } else if column == 2 { 278 } else if column == 3 { 333 } else if column == 4 { 278 } else { 278 },
        107u8 => if column == 0 { 500 } else if column == 1 { 556 } else if column == 2 { 500 } else if column == 3 { 556 } else if column == 4 { 444 } else { 500 },
        108u8 => if column == 0 { 222 } else if column == 1 { 278 } else if column == 2 { 278 } else if column == 3 { 278 } else if column == 4 { 278 } else { 278 },
        109u8 => if column == 0 { 833 } else if column == 1 { 889 } else if column == 2 { 778 } else if column == 3 { 833 } else if column == 4 { 722 } else { 778 },
        110u8 => if column == 0 { 556 } else if column == 1 { 611 } else if column == 2 { 500 } else if column == 3 { 556 } else if column == 4 { 500 } else { 556 },
        111u8 => if column == 0 { 556 } else if column == 1 { 611 } else if column == 2 { 500 } else if column == 3 { 500 } else if column == 4 { 500 } else { 500 },
        112u8 => if column == 0 { 556 } else if column == 1 { 611 } else if column == 2 { 500 } else if column == 3 { 556 } else if column == 4 { 500 } else { 500 },
        113u8 => if column == 0 { 556 } else if column == 1 { 611 } else if column == 2 { 500 } else if column == 3 { 556 } else if column == 4 { 500 } else { 500 },
        114u8 => if column == 0 { 333 } else if column == 1 { 389 } else if column == 2 { 333 } else if column == 3 { 444 } else if column == 4 { 389 } else { 389 },
        115u8 => if column == 0 { 500 } else if column == 1 { 556 } else if column == 2 { 389 } else if column == 3 { 389 } else if column == 4 { 389 } else { 389 },
        116u8 => if column == 0 { 278 } else if column == 1 { 333 } else if column == 2 { 278 } else if column == 3 { 333 } else if column == 4 { 278 } else { 278 },
        117u8 => if column == 0 { 556 } else if column == 1 { 611 } else if column == 2 { 500 } else if column == 3 { 556 } else if column == 4 { 500 } else { 556 },
        118u8 => if column == 0 { 500 } else if column == 1 { 556 } else if column == 2 { 500 } else if column == 3 { 500 } else if column == 4 { 444 } else { 444 },
        119u8 => if column == 0 { 722 } else if column == 1 { 778 } else if column == 2 { 722 } else if column == 3 { 722 } else if column == 4 { 667 } else { 667 },
        120u8 => if column == 0 { 500 } else if column == 1 { 556 } else if column == 2 { 500 } else if column == 3 { 500 } else if column == 4 { 444 } else { 500 },
        121u8 => if column == 0 { 500 } else if column == 1 { 556 } else if column == 2 { 500 } else if column == 3 { 500 } else if column == 4 { 444 } else { 444 },
        122u8 => if column == 0 { 500 } else if column == 1 { 500 } else if column == 2 { 444 } else if column == 3 { 444 } else if column == 4 { 389 } else { 389 },
        123u8 => if column == 0 { 334 } else if column == 1 { 389 } else if column == 2 { 480 } else if column == 3 { 394 } else if column == 4 { 400 } else { 348 },
        124u8 => if column == 0 { 260 } else if column == 1 { 280 } else if column == 2 { 200 } else if column == 3 { 220 } else if column == 4 { 275 } else { 220 },
        125u8 => if column == 0 { 334 } else if column == 1 { 389 } else if column == 2 { 480 } else if column == 3 { 394 } else if column == 4 { 400 } else { 348 },
        126u8 => if column == 0 { 584 } else if column == 1 { 584 } else if column == 2 { 541 } else if column == 3 { 520 } else if column == 4 { 541 } else { 570 },
        _ => 0,
    }
}

fn ascii_width_at(code: u8, column: usize) -> (r: u16)
    ensures
        r == ascii_width(code, column as int),
{
    match code {
        32u8 => if column == 0 { 278 } else if column == 1 { 278 } else if column == 2 { 250 } else if column == 3 { 250 } else if column == 4 { 250 } else { 250 },
        33u8 => if column == 0 { 278 } else if column == 1 { 333 } else if column == 2 { 333 } else if column == 3 { 333 } else if column == 4 { 333 } else { 389 },
        34u8 => if column == 0 { 355 } else if column == 1 { 474 } else if column == 2 { 408 } else if column == 3 { 555 } else if column == 4 { 420 } else { 555 },
        35u8 => if column == 0 { 556 } else if column == 1 { 556 } else if column == 2 { 500 } else if column == 3 { 500 } else if column == 4 { 500 } else { 500 },
        36u8 => if column == 0 { 556 } else if column == 1 { 556 } else if column == 2 { 500 } else if column == 3 { 500 } else if column == 4 { 500 } else { 500 },
        37u8 => if column == 0 { 889 } else if column == 1 { 889 } else if column == 2 { 833 } else if column == 3 { 1000 } else if column == 4 { 833 } else { 833 },
        38u8 => if column == 0 { 667 } else if column == 1 { 722 } else if column == 2 { 778 } else if column == 3 { 833 } else if column == 4 { 778 } else { 778 },
        39u8 => if column == 0 { 191 } else if column == 1 { 238 } else if column == 2 { 180 } else if column == 3 { 278 } else if column == 4 { 214 } else { 278 },
        40u8 => if column == 0 { 333 } else if column == 1 { 333 } else if column == 2 { 333 } else if column == 3 { 333 } else if column == 4 { 333 } else { 333 },
        41u8 => if column == 0 { 333 } else if column == 1 { 333 } else if column == 2 { 333 } else if column == 3 { 333 } else if column == 4 { 333 } else { 333 },
        42u8 => if column == 0 { 389 } else if column == 1 { 389 } else if column == 2 { 500 } else if column == 3 { 500 } else if column == 4 { 500 } else { 500 },
        43u8 => if column == 0 { 584 } else if column == 1 { 584 } else if column == 2 { 564 } else if column == 3 { 570 } else if column == 4 { 675 } else { 570 },
        44u8 => if column == 0 { 278 } else if column == 1 { 278 } else if column == 2 { 250 } else if column == 3 { 250 } else if column == 4 { 250 } else { 250 },
        45u8 => if column == 0 { 333 } else if column == 1 { 333 } else if column == 2 { 333 } else if column == 3 { 333 } else if column == 4 { 333 } else { 333 },
        46u8 => if column == 0 { 278 } else if column == 1 { 278 } else if column == 2 { 250 } else if column == 3 { 250 } else if column == 4 { 250 } else { 250 },
        47u8 => if column == 0 { 278 } else if column == 1 { 278 } else if column == 2 { 278 } else if column == 3 { 278 } else if column == 4 { 278 } else { 278 },
        48u8 => if column == 0 { 556 } else if column == 1 { 556 } else if column == 2 { 500 } else if column == 3 { 500 } else if column == 4 { 500 } else { 500 },
        49u8 => if column == 0 { 556 } else if column == 1 { 556 } else if column == 2 { 500 } else if column == 3 { 500 } else if column == 4 { 500 } else { 500 },
        50u8 => if column == 0 { 556 } else if column == 1 { 556 } else if column == 2 { 500 } else if column == 3 { 500 } else if column == 4 { 500 } else { 500 },
        51u8 => if column == 0 { 556 } else if column == 1 { 556 } else if column == 2 { 500 } else if column == 3 { 500 } else if column == 4 { 500 } else { 500 },
        52u8 => if column == 0 { 556 } else if column == 1 { 556 } else if column == 2 { 500 } else if column == 3 { 500 } else if column == 4 { 500 } else { 500 },
        53u8 => if column == 0 { 556 } else if column == 1 { 556 } else if column == 2 { 500 } else if column == 3 { 500 } else if column == 4 { 500 } else { 500 },
        54u8 => if column == 0 { 556 } else if column == 1 { 556 } else if column == 2 { 500 } else if column == 3 { 500 } else if column == 4 { 500 } else { 500 },
        55u8 => if column == 0 { 556 } else if column == 1 { 556 } else if column == 2 { 500 } else if column == 3 { 500 } else if column == 4 { 500 } else { 500 },
        56u8 => if column == 0 { 556 } else if column == 1 { 556 } else if column == 2 { 500 } else if column == 3 { 500 } else if column == 4 { 500 } else { 500 },
        57u8 => if column == 0 { 556 } else if column == 1 { 556 } else if column == 2 { 500 } else if column == 3 { 500 } else if column == 4 { 500 } else { 500 },
        58u8 => if column == 0 { 278 } else if column == 1 { 333 } else if column == 2 { 278 } else if column == 3 { 333 } else if column == 4 { 333 } else { 333 },
        59u8 => if column == 0 { 278 } else if column == 1 { 333 } else if column == 2 { 278 } else if column == 3 { 333 } else if column == 4 { 333 } else { 333 },
        60u8 => if column == 0 { 584 } else if column == 1 { 584 } else if column == 2 { 564 } else if column == 3 { 570 } else if column == 4 { 675 } else { 570 },
        61u8 => if column == 0 { 584 } else if column == 1 { 584 } else if column == 2 { 564 } else if column == 3 { 570 } else if column == 4 { 675 } else { 570 },
        62u8 => if column == 0 { 584 } else if column == 1 { 584 } else if column == 2 { 564 } else if column == 3 { 570 } else if column == 4 { 675 } else { 570 },
        63u8 => if column == 0 { 556 } else if column == 1 { 611 } else if column == 2 { 444 } else if column == 3 { 500 } else if column == 4 { 500 } else { 500 },
        64u8 => if column == 0 { 1015 } else if column == 1 { 975 } else if column == 2 { 921 } else if column == 3 { 930 } else if column == 4 { 920 } else { 832 },
        65u8 => if column == 0 { 667 } else if column == 1 { 722 } else if column == 2 { 722 } else if column == 3 { 722 } else if column == 4 { 611 } else { 667 },
        66u8 => if column == 0 { 667 } else if column == 1 { 722 } else if column == 2 { 667 } else if column == 3 { 667 } else if column == 4 { 611 } else { 667 },
        67u8 => if column == 0 { 722 } else if column == 1 { 722 } else if column == 2 { 667 } else if column == 3 { 722 } else if column == 4 { 667 } else { 667 },
        68u8 => if column == 0 { 722 } else if column == 1 { 722 } else if column == 2 { 722 } else if column == 3 { 722 } else if column == 4 { 722 } else { 722 },
        69u8 => if column == 0 { 667 } else if column == 1 { 667 } else if column == 2 { 611 } else if column == 3 { 667 } else if column == 4 { 611 } else { 667 },
        70u8 => if column == 0 { 611 } else if column == 1 { 611 } else if column == 2 { 556 } else if column == 3 { 611 } else if column == 4 { 611 } else { 667 },
        71u8 => if column == 0 { 778 } else if column == 1 { 778 } else if column == 2 { 722 } else if column == 3 { 778 } else if column == 4 { 722 } else { 722 },
        72u8 => if column == 0 { 722 } else if column == 1 { 722 } else if column == 2 { 722 } else if column == 3 { 778 } else if column == 4 { 722 } else { 778 },
        73u8 => if column == 0 { 278 } else if column == 1 { 278 } else if column == 2 { 333 } else if column == 3 { 389 } else if column == 4 { 333 } else { 389 },
        74u8 => if column == 0 { 500 } else if column == 1 { 556 } else if column == 2 { 389 } else if column == 3 { 500 } else if column == 4 { 444 } else { 500 },
        75u8 => if column == 0 { 667 } else if column == 1 { 722 } else if column == 2 { 722 } else if column == 3 { 778 } else if column == 4 { 667 } else { 667 },
        76u8 => if column == 0 { 556 } else if column == 1 { 611 } else if column == 2 { 611 } else if column == 3 { 667 } else if column == 4 { 556 } else { 611 },
        77u8 => if column == 0 { 833 } else if column == 1 { 833 } else if column == 2 { 889 } else if column == 3 { 944 } else if column == 4 { 833 } else { 889 },
        78u8 => if column == 0 { 722 } else if column == 1 { 722 } else if column == 2 { 722 } else if column == 3 { 722 } else if column == 4 { 667 } else { 722 },
        79u8 => if column == 0 { 778 } else if column == 1 { 778 } else if column == 2 { 722 } else if column == 3 { 778 } else if column == 4 { 722 } else { 722 },
        80u8 => if column == 0 { 667 } else if column == 1 { 667 } else if column == 2 { 556 } else if column == 3 { 611 } else if column == 4 { 611 } else { 611 },
        81u8 => if column == 0 { 778 } else if column == 1 { 778 } else if column == 2 { 722 } else if column == 3 { 778 } else if column == 4 { 722 } else { 722 },
        82u8 => if column == 0 { 722 } else if column == 1 { 722 } else if column == 2 { 667 } else if column == 3 { 722 } else if column == 4 { 611 } else { 667 },
        83u8 => if column == 0 { 667 } else if column == 1 { 667 } else if column == 2 { 556 } else if column == 3 { 556 } else if column == 4 { 500 } else { 556 },
        84u8 => if column == 0 { 611 } else if column == 1 { 611 } else if column == 2 { 611 } else if column == 3 { 667 } else if column == 4 { 556 } else { 611 },
        85u8 => if column == 0 { 722 } else if column == 1 { 722 } else if column == 2 { 722 } else if column == 3 { 722 } else if column == 4 { 722 } else { 722 },
        86u8 => if column == 0 { 667 } else if column == 1 { 667 } else if column == 2 { 722 } else if column == 3 { 722 } else if column == 4 { 611 } else { 667 },
        87u8 => if column == 0 { 944 } else if column == 1 { 944 } else if column == 2 { 944 } else if column == 3 { 1000 } else if column == 4 { 833 } else { 889 },
        88u8 => if column == 0 { 667 } else if column == 1 { 667 } else if column == 2 { 722 } else if column == 3 { 722 } else if column == 4 { 611 } else { 667 },
        89u8 => if column == 0 { 667 } else if column == 1 { 667 } else if column == 2 { 722 } else if column == 3 { 722 } else if column == 4 { 556 } else { 611 },
        90u8 => if column == 0 { 611 } else if column == 1 { 611 } else if column == 2 { 611 } else if column == 3 { 667 } else if column == 4 { 556 } else { 611 },
        91u8 => if column == 0 { 278 } else if column == 1 { 333 } else if column == 2 { 333 } else if column == 3 { 333 } else if column == 4 { 389 } else { 333 },
        92u8 => if column == 0 { 278 } else if column == 1 { 278 } else if column == 2 { 278 } else if column == 3 { 278 } else if column == 4 { 278 } else { 278 },
        93u8 => if column == 0 { 278 } else if column == 1 { 333 } else if column == 2 { 333 } else if column == 3 { 333 } else if column == 4 { 389 } else { 333 },
        94u8 => if column == 0 { 469 } else if column == 1 { 584 } else if column == 2 { 469 } else if column == 3 { 581 } else if column == 4 { 422 } else { 570 },
        95u8 => if column == 0 { 556 } else if column == 1 { 556 } else if column == 2 { 500 } else if column == 3 { 500 } else if column == 4 { 500 } else { 500 },
        96u8 => if column == 0 { 333 } else if column == 1 { 333 } else if column == 2 { 333 } else if column == 3 { 333 } else if column == 4 { 333 } else { 333 },
        97u8 => if column == 0 { 556 } else if column == 1 { 556 } else if column == 2 { 444 } else if column == 3 { 500 } else if column == 4 { 500 } else { 500 },
        98u8 => if column == 0 { 556 } else if column == 1 { 611 } else if column == 2 { 500 } else if column == 3 { 556 } else if column == 4 { 500 } else { 500 },
        99u8 => if column == 0 { 500 } else if column == 1 { 556 } else if column == 2 { 444 } else if column == 3 { 444 } else if column == 4 { 444 } else { 444 },
        100u8 => if column == 0 { 556 } else if column == 1 { 611 } else if column == 2 { 500 } else if column == 3 { 556 } else if column == 4 { 500 } else { 500 },
        101u8 => if column == 0 { 556 } else if column == 1 { 556 } else if column == 2 { 444 } else if column == 3 { 444 } else if column == 4 { 444 } else { 444 },
        102u8 => if column == 0 { 278 } else if column == 1 { 333 } else if column == 2 { 333 } else if column == 3 { 333 } else if column == 4 { 278 } else { 333 },
        103u8 => if column == 0 { 556 } else if column == 1 { 611 } else if column == 2 { 500 } else if column == 3 { 500 } else if column == 4 { 500 } else { 500 },
        104u8 => if column == 0 { 556 } else if column == 1 { 611 } else if column == 2 { 500 } else if column == 3 { 556 } else if column == 4 { 500 } else { 556 },
        105u8 => if column == 0 { 222 } else if column == 1 { 278 } else if column == 2 { 278 } else if column == 3 { 278 } else if column == 4 { 278 } else { 278 },
        106u8 => if column == 0 { 222 } else if column == 1 { 278 } else if column == 2 { 278 } else if column == 3 { 333 } else if column == 4 { 278 } else { 278 },
        107u8 => if column == 0 { 500 } else if column == 1 { 556 } else if column == 2 { 500 } else if column == 3 { 556 } else if column == 4 { 444 } else { 500 },
        108u8 => if column == 0 { 222 } else if column == 1 { 278 } else if column == 2 { 278 } else if column == 3 { 278 } else if column == 4 { 278 } else { 278 },
        109u8 => if column == 0 { 833 } else if column == 1 { 889 } else if column == 2 { 778 } else if column == 3 { 833 } else if column == 4 { 722 } else { 778 },
        110u8 => if column == 0 { 556 } else if column == 1 { 611 } else if column == 2 { 500 } else if column == 3 { 556 } else if column == 4 { 500 } else { 556 },
        111u8 => if column == 0 { 556 } else if column == 1 { 611 } else if column == 2 { 500 } else if column == 3 { 500 } else if column == 4 { 500 } else { 500 },
        112u8 => if column == 0 { 556 } else if column == 1 { 611 } else if column == 2 { 500 } else if column == 3 { 556 } else if column == 4 { 500 } else { 500 },
        113u8 => if column == 0 { 556 } else if column == 1 { 611 } else if column == 2 { 500 } else if column == 3 { 556 } else if column == 4 { 500 } else { 500 },
        114u8 => if column == 0 { 333 } else if column == 1 { 389 } else if column == 2 { 333 } else if column == 3 { 444 } else if column == 4 { 389 } else { 389 },
        115u8 => if column == 0 { 500 } else if column == 1 { 556 } else if column == 2 { 389 } else if column == 3 { 389 } else if column == 4 { 389 } else { 389 },
        116u8 => if column == 0 { 278 } else if column == 1 { 333 } else if column == 2 { 278 } else if column == 3 { 333 } else if column == 4 { 278 } else { 278 },
        117u8 => if column == 0 { 556 } else if column == 1 { 611 } else if column == 2 { 500 } else if column == 3 { 556 } else if column == 4 { 500 } else { 556 },
        118u8 => if column == 0 { 500 } else if column == 1 { 556 } else if column == 2 { 500 } else if column == 3 { 500 } else if column == 4 { 444 } else { 444 },
        119u8 => if column == 0 { 722 } else if column == 1 { 778 } else if column == 2 { 722 } else if column == 3 { 722 } else if column == 4 { 667 } else { 667 },
        120u8 => if column == 0 { 500 } else if column == 1 { 556 } else if column == 2 { 500 } else if column == 3 { 500 } else if column == 4 { 444 } else { 500 },
        121u8 => if column == 0 { 500 } else if column == 1 { 556 } else if column == 2 { 500 } else if column == 3 { 500 } else if column == 4 { 444 } else { 444 },
        122u8 => if column == 0 { 500 } else if column == 1 { 500 } else if column == 2 { 444 } else if column == 3 { 444 } else if column == 4 { 389 } else { 389 },
        123u8 => if column == 0 { 334 } else if column == 1 { 389 } else if column == 2 { 480 } else if column == 3 { 394 } else if column == 4 { 400 } else { 348 },
        124u8 => if column == 0 { 260 } else if column == 1 { 280 } else if column == 2 { 200 } else if column == 3 { 220 } else if column == 4 { 275 } else { 220 },
        125u8 => if column == 0 { 334 } else if column == 1 { 389 } else if column == 2 { 480 } else if column == 3 { 394 } else if column == 4 { 400 } else { 348 },
        126u8 => if column == 0 { 584 } else if column == 1 { 584 } else if column == 2 { 541 } else if column == 3 { 520 } else if column == 4 { 541 } else { 570 },
        _ => 0,
    }
}

/// The lower-cased `/BaseFont` name without its subset prefix.
pub open spec fn plain_name(base_font: Seq<char>) -> Seq<char> {
    lower_chars(last_segment(base_font))
}

/// Classifies a `/BaseFont` name, tolerating subset prefixes (`ABCDEF+Helvetica`) and the
/// PostScript style suffixes producers use interchangeably (`,Bold` and `-Bold`).
pub open spec fn spec_family_of(base_font: Seq<char>) -> Family {
    let lower = plain_name(base_font);
    let bold = contains_chars(lower, "bold"@) || contains_chars(lower, "black"@) || contains_chars(
        lower,
        "heavy"@,
    );
    let italic = contains_chars(lower, "italic"@) || contains_chars(lower, "oblique"@);
    if contains_chars(lower, "courier"@) || contains_chars(lower, "mono"@) {
        Family::Courier
    } else if contains_chars(lower, "times"@) || contains_chars(lower, "serif"@) || contains_chars(
        lower,
        "roman"@,
    ) {
        if bold && italic {
            Family::TimesBoldItalic
        } else if bold {
            Family::TimesBold
        } else if italic {
            Family::TimesItalic
        } else {
            Family::TimesRoman
        }
    } else if contains_chars(lower, "symbol"@) || contains_chars(lower, "dingbat"@) || contains_chars(
        lower,
        "zapf"@,
    ) {
        Family::Other
    } else if bold {
        Family::HelveticaBold
    } else {
        Family::Helvetica
    }
}

pub fn family_of(base_font: &str) -> (r: Family)
    ensures
        r == spec_family_of(base_font@),
{
    let chars = chars_of(base_font);
    let seg = last_segment_of(chars.as_slice());
    let lower_v = to_lower_chars(seg);
    let lower = lower_v.as_slice();
    // Oblique and Italic share metrics with the upright face in the Helvetica and Courier
    // families, but not in Times, so the checks below are ordered per family.
    let bold = contains_str(lower, "bold") || contains_str(lower, "black") || contains_str(
        lower,
        "heavy",
    );
    let italic = contains_str(lower, "italic") || contains_str(lower, "oblique");
    if contains_str(lower, "courier") || contains_str(lower, "mono") {
        Family::Courier
    } else if contains_str(lower, "times") || contains_str(lower, "serif") || contains_str(
        lower,
        "roman",
    ) {
        if bold && italic {
            Family::TimesBoldItalic
        } else if bold {
            Family::TimesBold
        } else if italic {
            Family::TimesItalic
        } else {
            Family::TimesRoman
        }
    } else if contains_str(lower, "symbol") || contains_str(lower, "dingbat") || contains_str(
        lower,
        "zapf",
    ) {
        Family::Other
    } else if bold {
        Family::HelveticaBold
    } else {
        // Helvetica, Arial and anything unrecognised: Helvetica is the closest common default.
        Family::Helvetica
    }
}

/// The table column of a tabulated family.
pub open spec fn family_column(f: Family) -> int {
    match f {
        Family::Helvetica => 0,
        Family::HelveticaBold => 1,
        Family::TimesRoman => 2,
        Family::TimesBold => 3,
        Family::TimesItalic => 4,
        Family::TimesBoldItalic => 5,
        _ => 6,
    }
}

/// The standard-font advance of a glyph: 600 for Courier; otherwise, for a glyph whose text is
/// one character in 32..=126, the table entry; otherwise none.
pub open spec fn spec_base14_width(base_font: Seq<char>, glyph_name: Seq<char>) -> Option<u16> {
    let family = spec_family_of(base_font);
    if family == Family::Courier {
        Some(600)
    } else if family == Family::Other {
        None
    } else {
        match glyph_unicode(glyph_name) {
            Some(text) => if text.len() == 1 && 32 <= text[0] as u32 <= 126 {
                Some(ascii_width(text[0] as u32 as u8, family_column(family)))
            } else {
                None
            },
            None => None,
        }
    }
}

/// The standard-font advance for `glyph_name`, in glyph space (1000 units per em).
///
/// Returns `None` outside the tabulated ASCII range so callers can fall back to a font program's
/// own advance or a `/MissingWidth` before resorting to a guess.
pub fn base14_width(base_font: &str, glyph_name: &str) -> (r: Option<u16>)
    ensures
        r == spec_base14_width(base_font@, glyph_name@),
{
    let family = family_of(base_font);
    let column: usize = match family {
        Family::Courier => {
            return Some(600);
        },
        Family::Other => {
            return None;
        },
        Family::Helvetica => 0,
        Family::HelveticaBold => 1,
        Family::TimesRoman => 2,
        Family::TimesBold => 3,
        Family::TimesItalic => 4,
        Family::TimesBoldItalic => 5,
    };
    // Glyph names reach the table through Unicode so that `space`, `uni0041` and `A.sc` all land
    // on the same row without a second name table.
    let text = match glyph_name_to_unicode(glyph_name) {
        Some(t) => t,
        None => {
            return None;
        },
    };
    let chars = chars_of(text.as_str());
    if chars.len() != 1 {
        // A ligature or multi-character mapping has no single-glyph width.
        return None;
    }
    let code = chars[0] as u32;
    if !(32 <= code && code <= 126) {
        return None;
    }
    Some(ascii_width_at(code as u8, column))
}

/// Whether `base_font` names one of the 14 standard fonts, which may legally omit `/Widths`.
pub open spec fn spec_is_standard_font(base_font: Seq<char>) -> bool {
    let lower = plain_name(base_font);
    ||| contains_chars(lower, "helvetica"@)
    ||| contains_chars(lower, "courier"@)
    ||| contains_chars(lower, "times"@)
    ||| contains_chars(lower, "symbol"@)
    ||| contains_chars(lower, "zapfdingbats"@)
    ||| contains_chars(lower, "arial"@)
}

pub fn is_standard_font(base_font: &str) -> (r: bool)
    ensures
        r == spec_is_standard_font(base_font@),
{
    let chars = chars_of(base_font);
    let seg = last_segment_of(chars.as_slice());
    let lower_v = to_lower_chars(seg);
    let lower = lower_v.as_slice();
    contains_str(lower, "helvetica") || contains_str(lower, "courier") || contains_str(lower, "times")
        || contains_str(lower, "symbol") || contains_str(lower, "zapfdingbats") || contains_str(
        lower,
        "arial",
    )
}

} // verus!
