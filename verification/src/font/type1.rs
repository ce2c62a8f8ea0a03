//! Reading a Type1 font program's builtin encoding.
//!
//! A `/FontFile` program is PostScript, and only its charstrings are encrypted: the `/Encoding`
//! array sits in the cleartext header ahead of `eexec`, as plain
//!
//! ```text
//! /Encoding 256 array
//! 0 1 255 {1 index exch /.notdef put} for
//! dup 65 /A put
//! dup 97 /a put
//! readonly def
//! ```
//!
//! That matters because a symbolic simple font is entitled to omit `/Encoding` from its PDF font
//! dictionary entirely, and TeX's Computer Modern fonts do exactly that — `/Flags 4`, no
//! `/Encoding`, no `/ToUnicode`. The program's own table is then the *only* record of what each
//! code means, and without it every glyph on the page extracts as nothing at all.

use vstd::prelude::*;
use vstd::utf8::{decode_utf8, valid_utf8};

use crate::lexer::{
    all_digits, digits_value, find_first, first_occurrence, is_digit, is_regular, is_whitespace,
    lemma_first_occurrence_bounds, occurs_at, spec_is_regular, spec_is_whitespace, starts_with,
};
use crate::text::string_from_utf8;

verus! {

/// The encoding a Type1 program declares for itself.
#[derive(Debug, PartialEq, Eq)]
pub enum Builtin {
    /// `/Encoding StandardEncoding def` — defer to the standard table.
    Standard,
    /// An explicit array: 256 glyph names, empty where the slot is `.notdef`.
    Custom(Vec<String>),
}

/// The mathematical value of a [`Builtin`].
pub enum BuiltinView {
    Standard,
    Custom(Seq<Seq<char>>),
}

pub open spec fn names_view(names: Seq<String>) -> Seq<Seq<char>> {
    names.map_values(|s: String| s@)
}

pub open spec fn builtin_view(b: Builtin) -> BuiltinView {
    match b {
        Builtin::Standard => BuiltinView::Standard,
        Builtin::Custom(v) => BuiltinView::Custom(names_view(v@)),
    }
}

pub open spec fn kw_eexec() -> Seq<u8> {
    seq![101u8, 101, 120, 101, 99]
}

pub open spec fn kw_encoding() -> Seq<u8> {
    seq![47u8, 69, 110, 99, 111, 100, 105, 110, 103]
}

pub open spec fn kw_standard_encoding() -> Seq<u8> {
    seq![83u8, 116, 97, 110, 100, 97, 114, 100, 69, 110, 99, 111, 100, 105, 110, 103]
}

pub open spec fn kw_readonly_def() -> Seq<u8> {
    seq![114u8, 101, 97, 100, 111, 110, 108, 121, 32, 100, 101, 102]
}

pub open spec fn kw_space_def() -> Seq<u8> {
    seq![32u8, 100, 101, 102]
}

pub open spec fn kw_dup() -> Seq<u8> {
    seq![100u8, 117, 112]
}

pub open spec fn kw_put() -> Seq<u8> {
    seq![112u8, 117, 116]
}

pub open spec fn kw_notdef() -> Seq<u8> {
    seq![46u8, 110, 111, 116, 100, 101, 102]
}

/// The cleartext portion of a Type1 program: everything before `eexec`, after stepping over a
/// PFB segment header (`0x80 <type> <little-endian length>`) when there is one.
pub open spec fn spec_cleartext(data: Seq<u8>) -> Seq<u8> {
    let body = if data.len() >= 6 && data[0] == 0x80 {
        data.subrange(6, data.len() as int)
    } else {
        data
    };
    match first_occurrence(body, 0, kw_eexec()) {
        Some(e) => body.subrange(0, e),
        None => body,
    }
}

fn cleartext(data: &[u8]) -> (r: &[u8])
    ensures
        r@ == spec_cleartext(data@),
{
    let body = if data.len() >= 6 && data[0] == 0x80 {
        &data[6..data.len()]
    } else {
        data
    };
    let kw: &[u8] = &[101, 101, 120, 101, 99];
    assert(kw@ =~= kw_eexec());
    proof {
        lemma_first_occurrence_bounds(body@, 0, kw_eexec());
    }
    match find_first(body, 0, kw) {
        Some(end) => &body[0..end],
        None => body,
    }
}

/// The first position at or after `i` that is not whitespace.
pub open spec fn space_end(b: Seq<u8>, i: int) -> int
    decreases b.len() - i,
{
    if i < 0 || i >= b.len() || !spec_is_whitespace(b[i]) {
        i
    } else {
        space_end(b, i + 1)
    }
}

/// The end of the name starting at `i`: the first whitespace or delimiter.
pub open spec fn name_end(b: Seq<u8>, i: int) -> int
    decreases b.len() - i,
{
    if i < 0 || i >= b.len() || !spec_is_regular(b[i]) {
        i
    } else {
        name_end(b, i + 1)
    }
}

/// The end of the run of digits starting at `i`.
pub open spec fn digits_end(b: Seq<u8>, i: int) -> int
    decreases b.len() - i,
{
    if i < 0 || i >= b.len() || !is_digit(b[i]) {
        i
    } else {
        digits_end(b, i + 1)
    }
}

proof fn lemma_space_end(b: Seq<u8>, i: int)
    requires
        0 <= i <= b.len(),
    ensures
        i <= space_end(b, i) <= b.len(),
    decreases b.len() - i,
{
    if i < b.len() && spec_is_whitespace(b[i]) {
        lemma_space_end(b, i + 1);
    }
}

proof fn lemma_name_end(b: Seq<u8>, i: int)
    requires
        0 <= i <= b.len(),
    ensures
        i <= name_end(b, i) <= b.len(),
    decreases b.len() - i,
{
    if i < b.len() && spec_is_regular(b[i]) {
        lemma_name_end(b, i + 1);
    }
}

proof fn lemma_digits_end(b: Seq<u8>, i: int)
    requires
        0 <= i <= b.len(),
    ensures
        i <= digits_end(b, i) <= b.len(),
        all_digits(b.subrange(i, digits_end(b, i))),
    decreases b.len() - i,
{
    if i < b.len() && is_digit(b[i]) {
        lemma_digits_end(b, i + 1);
        let e = digits_end(b, i);
        assert forall|k: int| 0 <= k < e - i implies is_digit(#[trigger] b.subrange(i, e)[k]) by {
            if k > 0 {
                assert(b.subrange(i, e)[k] == b.subrange(i + 1, e)[k - 1]);
            }
        }
    }
}

/// A non-negative integer at or after `i` (after whitespace), in `i32` range, and the position
/// after it.
pub open spec fn spec_parse_int(body: Seq<u8>, i: int) -> Option<(i32, int)> {
    let start = space_end(body, i);
    let end = digits_end(body, start);
    if end == start {
        None
    } else {
        let v = digits_value(body.subrange(start, end));
        if v <= i32::MAX {
            Some((v as i32, end))
        } else {
            None
        }
    }
}

fn skip_spaces(body: &[u8], i: usize) -> (r: usize)
    requires
        i <= body@.len(),
    ensures
        r == space_end(body@, i as int),
        i <= r <= body@.len(),
{
    proof {
        lemma_space_end(body@, i as int);
    }
    let mut k = i;
    while k < body.len() && is_whitespace(body[k])
        invariant
            i <= k <= body@.len(),
            space_end(body@, k as int) == space_end(body@, i as int),
        decreases body@.len() - k,
    {
        k = k + 1;
    }
    k
}

/// Parses a non-negative integer starting at or after `i`, returning it and the position after.
fn parse_int(body: &[u8], i: usize) -> (r: Option<(i32, usize)>)
    requires
        i <= body@.len(),
    ensures
        match r {
            Some((v, e)) => spec_parse_int(body@, i as int) == Some((v, e as int)),
            None => spec_parse_int(body@, i as int) is None,
        },
{
    let start = skip_spaces(body, i);
    proof {
        lemma_digits_end(body@, start as int);
    }
    let mut k = start;
    while k < body.len() && 48 <= body[k] && body[k] <= 57
        invariant
            start <= k <= body@.len(),
            digits_end(body@, k as int) == digits_end(body@, start as int),
        decreases body@.len() - k,
    {
        k = k + 1;
    }
    if k == start {
        return None;
    }
    let ghost run = body@.subrange(start as int, k as int);
    let mut v: u64 = 0;
    let mut j = start;
    let mut over = false;
    while j < k
        invariant
            start <= j <= k,
            k <= body@.len(),
            run == body@.subrange(start as int, k as int),
            all_digits(run),
            !over ==> v == digits_value(run.subrange(0, j - start)) && v <= i32::MAX,
            over ==> digits_value(run.subrange(0, j - start)) > i32::MAX,
        decreases k - j,
    {
        proof {
            assert(run.subrange(0, j - start + 1).drop_last() =~= run.subrange(0, j - start));
            assert(run[j - start] == body@[j as int]);
            assert(is_digit(run[j - start]));
            lemma_digits_value_nonneg_prefix(run, j - start);
        }
        let d = (body[j] - 48) as u64;
        if !over {
            let n = v * 10 + d;
            if n > 2147483647 {
                over = true;
            } else {
                v = n;
            }
        }
        j = j + 1;
    }
    assert(run.subrange(0, k - start) =~= run);
    if over {
        None
    } else {
        Some((v as i32, k))
    }
}

proof fn lemma_digits_value_nonneg_prefix(s: Seq<u8>, n: int)
    requires
        0 <= n <= s.len(),
        all_digits(s),
    ensures
        digits_value(s.subrange(0, n)) >= 0,
    decreases n,
{
    if n > 0 {
        assert(s.subrange(0, n).drop_last() =~= s.subrange(0, n - 1));
        lemma_digits_value_nonneg_prefix(s, n - 1);
        assert(is_digit(s[n - 1]));
    }
}

/// Applies `dup <code> /<name> put` entries found in `body` from `i` onwards to `names`, and
/// whether any was applied. An entry applies when its code is in 0..256 and its name is
/// non-empty, not `.notdef`, and valid UTF-8. A `dup` not followed by that shape is skipped.
pub open spec fn dup_scan(body: Seq<u8>, i: int, names: Seq<Seq<char>>, found: bool) -> (Seq<
    Seq<char>,
>, bool)
    decreases body.len() - i,
{
    match first_occurrence(body, i, kw_dup()) {
        None => (names, found),
        Some(p) => {
            let j = p + 3;
            if j <= i || j > body.len() {
                (names, found)
            } else {
                match spec_parse_int(body, j) {
                    None => dup_scan(body, j, names, found),
                    Some((code, next)) => {
                        let k = space_end(body, next);
                        if !(j <= k < body.len()) || body[k] != 47 {
                            dup_scan(body, if j <= k <= body.len() {
                                k
                            } else {
                                j
                            }, names, found)
                        } else {
                            let start = k + 1;
                            let e = name_end(body, start);
                            let name = body.subrange(start, e);
                            let after = space_end(body, e);
                            if !(start <= after <= body.len()) {
                                (names, found)
                            } else if !(after + 3 <= body.len() && occurs_at(body, after, kw_put())) {
                                dup_scan(body, after, names, found)
                            } else if 0 <= code < 256 && name != kw_notdef() && name.len() > 0
                                && valid_utf8(name) {
                                dup_scan(body, after, names.update(code as int, decode_utf8(name)), true)
                            } else {
                                dup_scan(body, after, names, found)
                            }
                        }
                    },
                }
            }
        },
    }
}

/// The encoding a Type1 program declares in its cleartext header: `StandardEncoding`, or the
/// `dup ... put` entries of its `/Encoding` array up to the `def` that binds it, when one
/// applies.
pub open spec fn spec_builtin_encoding(data: Seq<u8>) -> Option<BuiltinView> {
    let clear = spec_cleartext(data);
    match first_occurrence(clear, 0, kw_encoding()) {
        None => None,
        Some(at) => {
            let rest = clear.subrange(at + 9, clear.len() as int);
            let head = space_end(rest, 0);
            if head >= rest.len() {
                None
            } else if occurs_at(rest, head, kw_standard_encoding()) {
                Some(BuiltinView::Standard)
            } else {
                let end = match first_occurrence(rest, 0, kw_readonly_def()) {
                    Some(e) => e,
                    None => match first_occurrence(rest, 0, kw_space_def()) {
                        Some(e) => e,
                        None => rest.len() as int,
                    },
                };
                let body = rest.subrange(0, end);
                let (names, found) = dup_scan(body, 0, Seq::new(256, |i: int| Seq::<char>::empty()), false);
                if found {
                    Some(BuiltinView::Custom(names))
                } else {
                    None
                }
            }
        },
    }
}


fn name_end_at(body: &[u8], i: usize) -> (r: usize)
    requires
        i <= body@.len(),
    ensures
        r == name_end(body@, i as int),
        i <= r <= body@.len(),
{
    proof {
        lemma_name_end(body@, i as int);
    }
    let mut k = i;
    while k < body.len() && is_regular(body[k])
        invariant
            i <= k <= body@.len(),
            name_end(body@, k as int) == name_end(body@, i as int),
        decreases body@.len() - k,
    {
        k = k + 1;
    }
    k
}

/// Extracts the encoding a Type1 program declares, if it declares one.
pub fn builtin_encoding(data: &[u8]) -> (r: Option<Builtin>)
    ensures
        match r {
            Some(b) => spec_builtin_encoding(data@) == Some(builtin_view(b)),
            None => spec_builtin_encoding(data@) is None,
        },
        r matches Some(Builtin::Custom(v)) ==> v@.len() == 256,
{
    let clear = cleartext(data);
    let kw_enc: &[u8] = &[47, 69, 110, 99, 111, 100, 105, 110, 103];
    assert(kw_enc@ =~= kw_encoding());
    proof {
        lemma_first_occurrence_bounds(clear@, 0, kw_encoding());
    }
    let at = match find_first(clear, 0, kw_enc) {
        Some(a) => a,
        None => {
            return None;
        },
    };
    let cl = clear.len();
    let rest = &clear[at + 9..cl];
    assert(rest@ =~= clear@.subrange(at + 9, clear@.len() as int));

    let head = skip_spaces(rest, 0);
    if head >= rest.len() {
        return None;
    }
    let std_kw: &[u8] = &[83, 116, 97, 110, 100, 97, 114, 100, 69, 110, 99, 111, 100, 105, 110, 103];
    assert(std_kw@ =~= kw_standard_encoding());
    let tail = &rest[head..rest.len()];
    assert(tail@ =~= rest@.subrange(head as int, rest@.len() as int));
    if starts_with(tail, std_kw) {
        assert(tail@.subrange(0, 16) =~= rest@.subrange(head as int, head + 16));
        return Some(Builtin::Standard);
    }
    assert(!occurs_at(rest@, head as int, kw_standard_encoding())) by {
        if occurs_at(rest@, head as int, kw_standard_encoding()) {
            assert(tail@.subrange(0, 16) =~= rest@.subrange(head as int, head + 16));
        }
    }

    // The array ends at the `def` that binds it. Bounding the scan matters: without it a font
    // whose `/Encoding` is `.notdef`-only would go on to collect `dup ... put` pairs out of the
    // Subrs and CharStrings that follow.
    let ro: &[u8] = &[114, 101, 97, 100, 111, 110, 108, 121, 32, 100, 101, 102];
    assert(ro@ =~= kw_readonly_def());
    let sd: &[u8] = &[32, 100, 101, 102];
    assert(sd@ =~= kw_space_def());
    proof {
        lemma_first_occurrence_bounds(rest@, 0, kw_readonly_def());
        lemma_first_occurrence_bounds(rest@, 0, kw_space_def());
    }
    let end = match find_first(rest, 0, ro) {
        Some(e) => e,
        None => match find_first(rest, 0, sd) {
            Some(e) => e,
            None => rest.len(),
        },
    };
    let body = &rest[0..end];
    let ghost b = body@;
    let bl = body.len();

    let mut names: Vec<String> = Vec::new();
    let mut n: usize = 0;
    while n < 256
        invariant
            n <= 256,
            names@.len() == n,
            forall|k: int| 0 <= k < n ==> #[trigger] names@[k]@ == Seq::<char>::empty(),
        decreases 256 - n,
    {
        names.push(String::new());
        n = n + 1;
    }
    assert(names_view(names@) =~= Seq::new(256, |i: int| Seq::<char>::empty()));
    let mut found = false;
    let mut i: usize = 0;
    let dup: &[u8] = &[100, 117, 112];
    assert(dup@ =~= kw_dup());
    let put: &[u8] = &[112, 117, 116];
    assert(put@ =~= kw_put());
    let notdef: &[u8] = &[46, 110, 111, 116, 100, 101, 102];
    assert(notdef@ =~= kw_notdef());

    loop
        invariant_except_break
            body@ == b,
            bl == b.len(),
            dup@ == kw_dup(),
            put@ == kw_put(),
            notdef@ == kw_notdef(),
            i <= b.len(),
            names@.len() == 256,
            dup_scan(b, i as int, names_view(names@), found) == dup_scan(
                b,
                0,
                Seq::new(256, |i: int| Seq::<char>::empty()),
                false,
            ),
        ensures
            names@.len() == 256,
            (names_view(names@), found) == dup_scan(
                b,
                0,
                Seq::new(256, |i: int| Seq::<char>::empty()),
                false,
            ),
        decreases b.len() - i,
    {
        proof {
            lemma_first_occurrence_bounds(b, i as int, kw_dup());
        }
        let p = match find_first(body, i, dup) {
            Some(p) => p,
            None => {
                break;
            },
        };
        i = p + 3;
        // `dup <code> /<name> put`. Anything that does not match that shape is not an encoding
        // entry — the `{1 index exch /.notdef put} for` initialiser has no `dup` and so never
        // reaches here, but a malformed program still must not derail the scan.
        let (code, next) = match parse_int(body, i) {
            Some(x) => x,
            None => {
                continue;
            },
        };
        proof {
            lemma_space_end(b, i as int);
            lemma_digits_end(b, space_end(b, i as int));
        }
        i = skip_spaces(body, next);
        if i >= body.len() || body[i] != 47 {
            continue;
        }
        i = i + 1;
        let start = i;
        i = name_end_at(body, i);
        let name = &body[start..i];
        i = skip_spaces(body, i);
        if !(i <= bl && bl - i >= 3 && crate::lexer::bytes_at(body, i, put)) {
            continue;
        }
        if 0 <= code && code < 256 && !crate::lexer::slice_eq(name, notdef) && name.len() > 0 {
            match string_from_utf8(name) {
                Some(s) => {
                    let ghost before = names@;
                    let ghost sv = s@;
                    names.set(code as usize, s);
                    assert(names_view(names@) =~= names_view(before).update(code as int, sv));
                    found = true;
                },
                None => {},
            }
        }
    }
    if found {
        Some(Builtin::Custom(names))
    } else {
        None
    }
}

} // verus!
