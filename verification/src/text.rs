//! Text helpers: comparing, building and decoding strings.
//!
//! Names, glyph names and Unicode results are `String`s; their contracts speak of the character
//! sequence `s@`.

use vstd::prelude::*;
use vstd::utf8::*;

verus! {

broadcast use vstd::utf8::group_utf8_lib;

/// Equality of two string slices by their characters.
pub fn str_eq(a: &str, b: &str) -> (r: bool)
    ensures
        r == (a@ == b@),
{
    let x = a.as_bytes();
    let y = b.as_bytes();
    proof {
        assert(decode_utf8(encode_utf8(a@)) == a@);
        assert(decode_utf8(encode_utf8(b@)) == b@);
    }
    if x.len() != y.len() {
        return false;
    }
    let mut i: usize = 0;
    while i < x.len()
        invariant
            x@ == encode_utf8(a@),
            y@ == encode_utf8(b@),
            x@.len() == y@.len(),
            i <= x@.len(),
            forall|k: int| 0 <= k < i ==> x@[k] == y@[k],
        decreases x@.len() - i,
    {
        if x[i] != y[i] {
            return false;
        }
        i = i + 1;
    }
    assert(x@ =~= y@);
    true
}

/// The characters `String::from_utf8_lossy` makes of `bytes`: the decoding of valid UTF-8, with
/// each maximal invalid sequence replaced by U+FFFD.
pub uninterp spec fn utf8_lossy(bytes: Seq<u8>) -> Seq<char>;

/// `String::from_utf8_lossy(bytes).into_owned()`. Its contract states what the standard
/// library documents: valid UTF-8 is decoded unchanged; of other input only the name says
/// what comes out.
#[verifier::external_body]
pub(crate) fn string_from_utf8_lossy(bytes: &[u8]) -> (r: String)
    ensures
        r@ == utf8_lossy(bytes@),
        valid_utf8(bytes@) ==> r@ == decode_utf8(bytes@),
{
    String::from_utf8_lossy(bytes).into_owned()
}

/// `String::push`: appends one character.
#[verifier::external_body]
pub(crate) fn string_push(s: &mut String, c: char)
    ensures
        final(s)@ == old(s)@.push(c),
{
    s.push(c)
}

/// The characters of `s`, in order.
pub fn chars_of(s: &str) -> (r: Vec<char>)
    ensures
        r@ == s@,
{
    let mut out: Vec<char> = Vec::new();
    let n = s.unicode_len();
    let mut i: usize = 0;
    while i < n
        invariant
            n == s@.len(),
            i <= n,
            out@ == s@.subrange(0, i as int),
        decreases n - i,
    {
        let c = s.get_char(i);
        out.push(c);
        i = i + 1;
        assert(out@ =~= s@.subrange(0, i as int));
    }
    assert(out@ =~= s@);
    out
}

/// A `String` holding exactly `chars`.
pub fn string_from_chars(chars: &[char]) -> (r: String)
    ensures
        r@ == chars@,
{
    let mut s = String::new();
    let mut i: usize = 0;
    while i < chars.len()
        invariant
            i <= chars@.len(),
            s@ == chars@.subrange(0, i as int),
        decreases chars@.len() - i,
    {
        string_push(&mut s, chars[i]);
        i = i + 1;
        assert(s@ =~= chars@.subrange(0, i as int));
    }
    assert(s@ =~= chars@);
    s
}

} // verus!

verus! {

/// The characters `String::from_utf16_lossy` makes of `units`: the decoding of valid UTF-16,
/// with each unpaired surrogate replaced by U+FFFD.
pub uninterp spec fn utf16_lossy(units: Seq<u16>) -> Seq<char>;

/// No unit is a surrogate: each unit is a character of its own.
pub open spec fn no_surrogates(units: Seq<u16>) -> bool {
    forall|i: int| 0 <= i < units.len() ==> !(0xD800 <= #[trigger] units[i] <= 0xDFFF)
}

/// `String::from_utf16_lossy(units)`. Its contract states what the standard library
/// documents: without surrogates each unit decodes to the character with its value, and every
/// unit yields at least one character; of other input only the name says what comes out.
#[verifier::external_body]
pub(crate) fn string_from_utf16_lossy(units: &[u16]) -> (r: String)
    ensures
        r@ == utf16_lossy(units@),
        no_surrogates(units@) ==> r@.len() == units@.len() && forall|i: int|
            0 <= i < units@.len() ==> #[trigger] r@[i] as u32 == units@[i] as u32,
        units@.len() > 0 ==> r@.len() > 0,
{
    String::from_utf16_lossy(units)
}

/// `char::from_u32`: the character with value `v`, unless `v` is a surrogate or past
/// U+10FFFF.
#[verifier::external_body]
pub(crate) fn char_from_u32(v: u32) -> (r: Option<char>)
    ensures
        r is Some <==> (v <= 0x10FFFF && !(0xD800 <= v <= 0xDFFF)),
        r matches Some(c) ==> c as u32 == v,
{
    char::from_u32(v)
}

/// A `String` holding the single character `c`.
pub fn string_of_char(c: char) -> (r: String)
    ensures
        r@ == seq![c],
{
    let mut s = String::new();
    string_push(&mut s, c);
    assert(s@ =~= seq![c]);
    s
}

/// The character of the decimal digit `d`.
pub open spec fn digit_char(d: nat) -> char {
    if d == 0 {
        '0'
    } else if d == 1 {
        '1'
    } else if d == 2 {
        '2'
    } else if d == 3 {
        '3'
    } else if d == 4 {
        '4'
    } else if d == 5 {
        '5'
    } else if d == 6 {
        '6'
    } else if d == 7 {
        '7'
    } else if d == 8 {
        '8'
    } else {
        '9'
    }
}

/// The decimal digits of `n`, without leading zeros (`0` for zero).
pub open spec fn decimal_chars(n: nat) -> Seq<char>
    decreases n,
{
    if n < 10 {
        seq![digit_char(n)]
    } else {
        decimal_chars(n / 10).push(digit_char(n % 10))
    }
}

fn digit_of(d: u64) -> (c: char)
    requires
        d < 10,
    ensures
        c == digit_char(d as nat),
{
    if d == 0 {
        '0'
    } else if d == 1 {
        '1'
    } else if d == 2 {
        '2'
    } else if d == 3 {
        '3'
    } else if d == 4 {
        '4'
    } else if d == 5 {
        '5'
    } else if d == 6 {
        '6'
    } else if d == 7 {
        '7'
    } else if d == 8 {
        '8'
    } else {
        '9'
    }
}

/// Appends the characters of `t` to `s`.
pub fn push_str_chars(s: &mut String, t: &str)
    ensures
        final(s)@ == old(s)@ + t@,
{
    let n = t.unicode_len();
    let mut i: usize = 0;
    while i < n
        invariant
            n == t@.len(),
            i <= n,
            s@ == old(s)@ + t@.subrange(0, i as int),
        decreases n - i,
    {
        let c = t.get_char(i);
        string_push(s, c);
        i = i + 1;
        assert(s@ =~= old(s)@ + t@.subrange(0, i as int));
    }
    assert(t@.subrange(0, n as int) =~= t@);
}

/// Appends the decimal digits of `n` to `s`.
pub fn push_decimal(s: &mut String, n: u64)
    ensures
        final(s)@ == old(s)@ + decimal_chars(n as nat),
    decreases n,
{
    if n >= 10 {
        push_decimal(s, n / 10);
    }
    string_push(s, digit_of(n % 10));
    assert(s@ =~= old(s)@ + decimal_chars(n as nat));
}

/// `prefix` followed by the decimal digits of `n`.
pub fn message_with_number(prefix: &str, n: u64) -> (r: String)
    ensures
        r@ == prefix@ + decimal_chars(n as nat),
{
    let mut s = String::new();
    push_str_chars(&mut s, prefix);
    push_decimal(&mut s, n);
    assert(s@ =~= prefix@ + decimal_chars(n as nat));
    s
}

/// `prefix` followed by `tail`.
pub fn message_with_text(prefix: &str, tail: &str) -> (r: String)
    ensures
        r@ == prefix@ + tail@,
{
    let mut s = String::new();
    push_str_chars(&mut s, prefix);
    push_str_chars(&mut s, tail);
    assert(s@ =~= prefix@ + tail@);
    s
}

/// `s` begins with `p`.
pub open spec fn seq_starts_with<T>(s: Seq<T>, p: Seq<T>) -> bool {
    p.len() <= s.len() && s.subrange(0, p.len() as int) == p
}

/// `s` ends with `p`.
pub open spec fn seq_ends_with<T>(s: Seq<T>, p: Seq<T>) -> bool {
    p.len() <= s.len() && s.subrange(s.len() - p.len(), s.len() as int) == p
}

pub fn chars_start_with(s: &[char], p: &[char]) -> (r: bool)
    ensures
        r == seq_starts_with(s@, p@),
{
    if p.len() > s.len() {
        return false;
    }
    let mut i: usize = 0;
    while i < p.len()
        invariant
            p@.len() <= s@.len(),
            i <= p@.len(),
            forall|k: int| 0 <= k < i ==> s@[k] == p@[k],
        decreases p@.len() - i,
    {
        if s[i] != p[i] {
            assert(s@.subrange(0, p@.len() as int)[i as int] != p@[i as int]);
            return false;
        }
        i = i + 1;
    }
    assert(s@.subrange(0, p@.len() as int) =~= p@);
    true
}

pub fn chars_end_with(s: &[char], p: &[char]) -> (r: bool)
    ensures
        r == seq_ends_with(s@, p@),
{
    if p.len() > s.len() {
        return false;
    }
    let sl = s.len();
    let off = sl - p.len();
    let mut i: usize = 0;
    while i < p.len()
        invariant
            sl == s@.len(),
            p@.len() <= s@.len(),
            off == s@.len() - p@.len(),
            i <= p@.len(),
            forall|k: int| 0 <= k < i ==> s@[off + k] == p@[k],
        decreases p@.len() - i,
    {
        if s[off + i] != p[i] {
            assert(s@.subrange(off as int, s@.len() as int)[i as int] != p@[i as int]);
            return false;
        }
        i = i + 1;
    }
    assert(s@.subrange(off as int, s@.len() as int) =~= p@);
    true
}

} // verus!

verus! {

/// `c` in ASCII lower case.
pub open spec fn lower_char(c: char) -> char {
    if 'A' <= c <= 'Z' {
        ((c as u32) + 32) as char
    } else {
        c
    }
}

/// `s` with ASCII letters lower-cased, as `str::to_ascii_lowercase` does.
pub open spec fn lower_chars(s: Seq<char>) -> Seq<char> {
    s.map_values(|c: char| lower_char(c))
}

/// The part of `s` after its last `+`, or all of `s` without one.
pub open spec fn last_segment(s: Seq<char>) -> Seq<char>
    decreases s.len(),
{
    if s.len() == 0 {
        s
    } else if s.last() == '+' {
        Seq::empty()
    } else {
        last_segment(s.drop_last()).push(s.last())
    }
}

/// `w` occurs somewhere in `s`.
pub open spec fn contains_chars(s: Seq<char>, w: Seq<char>) -> bool {
    exists|i: int| 0 <= i && i + w.len() <= s.len() && #[trigger] s.subrange(i, i + w.len()) == w
}

pub fn to_lower_chars(s: &[char]) -> (r: Vec<char>)
    ensures
        r@ == lower_chars(s@),
{
    let mut out: Vec<char> = Vec::new();
    let mut i: usize = 0;
    while i < s.len()
        invariant
            i <= s@.len(),
            out@ == lower_chars(s@.subrange(0, i as int)),
        decreases s@.len() - i,
    {
        let c = s[i];
        let l = if 'A' <= c && c <= 'Z' {
            let v = (c as u32) + 32;
            match char_from_u32(v) {
                Some(x) => x,
                None => c,
            }
        } else {
            c
        };
        proof {
            if 'A' <= c && c <= 'Z' {
                let v: u32 = ((c as u32) + 32) as u32;
                assert(v <= 0x10FFFF && !(0xD800 <= v <= 0xDFFF));
                vstd::utf8::char_u32_cast(l, v);
            }
        }
        out.push(l);
        i = i + 1;
        assert(out@ =~= lower_chars(s@.subrange(0, i as int)));
    }
    assert(s@.subrange(0, s@.len() as int) =~= s@);
    out
}

pub fn last_segment_of(s: &[char]) -> (r: &[char])
    ensures
        r@ == last_segment(s@),
{
    let mut j = s.len();
    assert(s@.subrange(0, j as int) =~= s@);
    assert(s@.subrange(j as int, s@.len() as int) =~= Seq::<char>::empty());
    while j > 0 && s[j - 1] != '+'
        invariant
            j <= s@.len(),
            last_segment(s@) == last_segment(s@.subrange(0, j as int)) + s@.subrange(j as int, s@.len() as int),
        decreases j,
    {
        assert(s@.subrange(0, j - 1) =~= s@.subrange(0, j as int).drop_last());
        assert(s@.subrange(j - 1, s@.len() as int) =~= seq![s@[j - 1]] + s@.subrange(j as int, s@.len() as int));
        j = j - 1;
    }
    if j > 0 {
        assert(last_segment(s@.subrange(0, j as int)) =~= Seq::<char>::empty());
    } else {
        assert(s@.subrange(0, 0) =~= Seq::<char>::empty());
    }
    let r = &s[j..s.len()];
    assert(last_segment(s@) =~= r@);
    r
}

pub fn chars_contain(s: &[char], w: &[char]) -> (r: bool)
    ensures
        r == contains_chars(s@, w@),
{
    if w.len() > s.len() {
        return false;
    }
    if w.len() == 0 {
        assert(s@.subrange(0int, 0int + w@.len()) =~= w@);
        return true;
    }
    let sl = s.len();
    let end = sl - w.len() + 1;
    let mut i: usize = 0;
    while i < end
        invariant
            sl == s@.len(),
            0 < w@.len() <= s@.len(),
            end == s@.len() - w@.len() + 1,
            i <= end,
            forall|k: int| 0 <= k < i ==> #[trigger] s@.subrange(k, k + w@.len()) != w@,
        decreases end - i,
    {
        let sub = &s[i..i + w.len()];
        assert(sub@.subrange(0, w@.len() as int) =~= s@.subrange(i as int, i + w@.len()));
        if chars_start_with(sub, w) {
            return true;
        }
        i = i + 1;
    }
    false
}

/// `s` holds `w` somewhere.
pub fn contains_str(s: &[char], w: &str) -> (r: bool)
    ensures
        r == contains_chars(s@, w@),
{
    let wc = chars_of(w);
    chars_contain(s, wc.as_slice())
}

} // verus!

verus! {

/// `std::str::from_utf8(bytes)` as an owned `String`: present exactly when the bytes are valid
/// UTF-8, and then their decoding, as the standard library documents.
#[verifier::external_body]
pub(crate) fn string_from_utf8(bytes: &[u8]) -> (r: Option<String>)
    ensures
        r is Some <==> valid_utf8(bytes@),
        r matches Some(s) ==> s@ == decode_utf8(bytes@),
{
    std::str::from_utf8(bytes).ok().map(|s| s.to_owned())
}

} // verus!
