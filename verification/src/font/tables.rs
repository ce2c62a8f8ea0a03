//! A simple font's code-to-glyph-name table, a composite font's CID-to-glyph map, the text a
//! code stands for, and the embedded font program.

use vstd::prelude::*;

use crate::document::dict_get;
use crate::font::cmap::{spec_unicode, CMap};
use crate::font::encoding::{
    base_encoding_name, glyph_name_to_unicode, glyph_unicode, spec_base_encoding_name, Encoding,
};
use crate::lexer::real_to_int_spec;
use crate::object::{dict_lookup, Dict, Object, ObjectView};
use crate::parser::PdfFile;
use crate::font::type1::{
    builtin_encoding, builtin_view, spec_builtin_encoding, Builtin, BuiltinView,
};
use crate::text::{chars_of, str_eq};

verus! {

// ---- the encoding --------------------------------------------------------------------------

/// The standard encoding a `/Encoding` or `/BaseEncoding` name stands for.
pub open spec fn spec_named_encoding(n: Seq<char>) -> Option<Encoding> {
    if n == "WinAnsiEncoding"@ {
        Some(Encoding::WinAnsi)
    } else if n == "MacRomanEncoding"@ {
        Some(Encoding::MacRoman)
    } else if n == "StandardEncoding"@ || n == "MacExpertEncoding"@ {
        Some(Encoding::Standard)
    } else {
        None
    }
}

fn named_encoding(n: &str) -> (r: Option<Encoding>)
    ensures
        r == spec_named_encoding(n@),
{
    if str_eq(n, "WinAnsiEncoding") {
        Some(Encoding::WinAnsi)
    } else if str_eq(n, "MacRomanEncoding") {
        Some(Encoding::MacRoman)
    } else if str_eq(n, "StandardEncoding") || str_eq(n, "MacExpertEncoding") {
        Some(Encoding::Standard)
    } else {
        None
    }
}

/// The value of `c` with ASCII upper case folded to lower case.
pub open spec fn ascii_lower_char(c: char) -> u32 {
    if 65 <= (c as u32) <= 90 {
        (c as u32 + 32) as u32
    } else {
        c as u32
    }
}

/// The word `symbol`, as character values.
pub open spec fn symbol_word() -> Seq<u32> {
    seq![115u32, 121, 109, 98, 111, 108]
}

/// `s` contains `symbol`, ignoring ASCII case, at `i`.
pub open spec fn symbol_at(s: Seq<char>, i: int) -> bool {
    0 <= i && i + 6 <= s.len() && forall|k: int|
        0 <= k < 6 ==> ascii_lower_char(#[trigger] s[i + k]) == symbol_word()[k]
}

/// The font name mentions `symbol`, in any ASCII case.
pub open spec fn mentions_symbol(s: Seq<char>) -> bool {
    exists|i: int| symbol_at(s, i)
}

fn lower_char(c: char) -> (r: u32)
    ensures
        r == ascii_lower_char(c),
{
    let v = c as u32;
    if 65 <= v && v <= 90 {
        v + 32
    } else {
        v
    }
}

fn has_symbol(s: &str) -> (r: bool)
    ensures
        r == mentions_symbol(s@),
{
    let n = s.unicode_len();
    if n < 6 {
        assert forall|i: int| !symbol_at(s@, i) by {}
        return false;
    }
    let word: [u32; 6] = [115, 121, 109, 98, 111, 108];
    assert(word@ =~= symbol_word());
    let mut i: usize = 0;
    while i <= n - 6
        invariant
            n == s@.len(),
            n >= 6,
            word@ == symbol_word(),
            forall|j: int| 0 <= j < i ==> !symbol_at(s@, j),
        decreases n - i,
    {
        let mut k: usize = 0;
        let mut all = true;
        while k < 6
            invariant
                n == s@.len(),
                i + 6 <= n,
                k <= 6,
                word@ == symbol_word(),
                all == forall|m: int| 0 <= m < k ==> ascii_lower_char(s@[i + m]) == symbol_word()[m],
            decreases 6 - k,
        {
            if lower_char(s.get_char(i + k)) != word[k] {
                all = false;
            }
            k = k + 1;
        }
        if all {
            assert(symbol_at(s@, i as int));
            return true;
        }
        i = i + 1;
    }
    assert forall|j: int| !symbol_at(s@, j) by {}
    false
}

/// The base encoding named by an `/Encoding` value: the name itself, or a dictionary's
/// `/BaseEncoding`.
pub open spec fn stated_encoding(enc: Option<ObjectView>) -> Option<Encoding> {
    match enc {
        Some(ObjectView::Name(n)) => spec_named_encoding(n),
        Some(ObjectView::Dict(es)) => match dict_lookup(es, "BaseEncoding"@) {
            Some(ObjectView::Name(n)) => spec_named_encoding(n),
            _ => None,
        },
        Some(ObjectView::Stream(es, _)) => match dict_lookup(es, "BaseEncoding"@) {
            Some(ObjectView::Name(n)) => spec_named_encoding(n),
            _ => None,
        },
        _ => None,
    }
}

/// The encoding a simple font's glyph names start from: the stated one; otherwise Symbol for
/// a font named like it, the standard encoding for a nonsymbolic font, and none for the rest.
pub open spec fn spec_base_encoding(stated: Option<Encoding>, base_font: Seq<char>, symbolic: bool) -> Option<Encoding> {
    match stated {
        Some(e) => Some(e),
        None => if mentions_symbol(base_font) {
            Some(Encoding::Symbol)
        } else if !symbolic {
            Some(Encoding::Standard)
        } else {
            None
        },
    }
}

/// The encoding a Type1 program declares, as a value.
pub open spec fn opt_builtin(b: Option<&Builtin>) -> Option<BuiltinView> {
    match b {
        Some(x) => Some(builtin_view(*x)),
        None => None,
    }
}

/// The 256 names a simple font's codes start from. A symbolic font that states no encoding
/// takes the one its embedded Type1 program declares, when it declares one; every other font
/// takes the names of [`spec_base_encoding`].
pub open spec fn spec_base_table(
    stated: Option<Encoding>,
    base_font: Seq<char>,
    symbolic: bool,
    builtin: Option<BuiltinView>,
) -> Seq<Seq<char>> {
    if stated is None && symbolic && builtin is Some {
        match builtin {
            Some(BuiltinView::Custom(ns)) => ns,
            _ => base_names(Some(Encoding::Standard)),
        }
    } else {
        base_names(spec_base_encoding(stated, base_font, symbolic))
    }
}

/// The 256 glyph names of a base encoding, all empty without one.
#[verifier::opaque]
pub open spec fn base_names(base: Option<Encoding>) -> Seq<Seq<char>> {
    Seq::new(
        256,
        |c: int|
            match base {
                Some(e) => spec_base_encoding_name(e, c as u8),
                None => Seq::empty(),
            },
    )
}

/// The code after `code`, wrapping at the end of the `i64` range.
pub open spec fn next_code(code: i64) -> i64 {
    if code == i64::MAX {
        i64::MIN
    } else {
        (code + 1) as i64
    }
}

/// `names` after the items of a `/Differences` array from `code` on: an integer (or a real,
/// truncated) restarts the code counter, and a name is assigned to the current code, when it
/// is one of the 256, and advances it.
pub open spec fn apply_differences(names: Seq<Seq<char>>, items: Seq<ObjectView>, code: i64) -> Seq<
    Seq<char>,
>
    decreases items.len(),
{
    if items.len() == 0 {
        names
    } else {
        let rest = items.drop_first();
        match items[0] {
            ObjectView::Int(i) => apply_differences(names, rest, i),
            ObjectView::Real(t) => apply_differences(names, rest, real_to_int_spec(t)),
            ObjectView::Name(n) => apply_differences(
                if 0 <= code < names.len() {
                    names.update(code as int, n)
                } else {
                    names
                },
                rest,
                next_code(code),
            ),
            _ => apply_differences(names, rest, code),
        }
    }
}

/// Names as `/Differences` items.
pub open spec fn name_items(ns: Seq<Seq<char>>) -> Seq<ObjectView> {
    Seq::new(ns.len(), |i: int| ObjectView::Name(ns[i]))
}

proof fn lemma_names_from(names: Seq<Seq<char>>, ns: Seq<Seq<char>>, code: i64)
    requires
        names.len() == 256,
        0 <= code,
        code + ns.len() <= 256,
    ensures
        apply_differences(names, name_items(ns), code).len() == 256,
        forall|j: int|
            0 <= j < 256 ==> #[trigger] apply_differences(names, name_items(ns), code)[j] == if code <= j
                < code + ns.len() {
                ns[j - code]
            } else {
                names[j]
            },
    decreases ns.len(),
{
    if ns.len() > 0 {
        let items = name_items(ns);
        let tail = ns.drop_first();
        assert(items.drop_first() =~= name_items(tail));
        let next = names.update(code as int, ns[0]);
        assert(next_code(code) == code + 1);
        lemma_names_from(next, tail, (code + 1) as i64);
    } else {
        assert(name_items(ns) =~= Seq::<ObjectView>::empty());
    }
}

/// `/Differences [c /n1 /n2 ... /nk]` gives `n1` to code `c`, `n2` to `c + 1`, and so on, and
/// leaves every other code with the name it had.
pub proof fn differences_name_consecutive_codes(names: Seq<Seq<char>>, c: i64, ns: Seq<Seq<char>>, j: int)
    requires
        names.len() == 256,
        0 <= c,
        c + ns.len() <= 256,
        0 <= j < 256,
    ensures
        apply_differences(names, seq![ObjectView::Int(c)] + name_items(ns), 0).len() == 256,
        apply_differences(names, seq![ObjectView::Int(c)] + name_items(ns), 0)[j] == if c <= j < c
            + ns.len() {
            ns[j - c]
        } else {
            names[j]
        },
{
    let items = seq![ObjectView::Int(c)] + name_items(ns);
    assert(items.drop_first() =~= name_items(ns));
    lemma_names_from(names, ns, c);
}

/// No item is a reference.
pub open spec fn direct_items(items: Seq<ObjectView>) -> bool {
    forall|i: int| 0 <= i < items.len() ==> !(#[trigger] items[i] is Ref)
}

/// An entry as [`dict_get`] reads it: absent when it is null.
pub open spec fn present(e: Option<ObjectView>) -> Option<ObjectView> {
    match e {
        Some(ObjectView::Null) => None,
        e => e,
    }
}

/// The glyph names an `/Encoding` value gives a simple font's 256 codes (with `builtin` the
/// encoding its Type1 program declares), when they follow from the value itself; `None` where a
/// reference has to be read through the file.
#[verifier::opaque]
pub open spec fn names_for(
    enc: Option<ObjectView>,
    base_font: Seq<char>,
    symbolic: bool,
    builtin: Option<BuiltinView>,
) -> Option<Seq<Seq<char>>> {
    let base = spec_base_table(stated_encoding(enc), base_font, symbolic, builtin);
    let table = match enc {
        Some(ObjectView::Dict(es)) => Some(es),
        Some(ObjectView::Stream(es, _)) => Some(es),
        _ => None,
    };
    if enc matches Some(ObjectView::Ref(_, _)) {
        None
    } else {
        match table {
            None => Some(base),
            Some(es) => match dict_lookup(es, "Differences"@) {
                Some(ObjectView::Ref(_, _)) => None,
                Some(ObjectView::Array(items)) => if direct_items(items) {
                    Some(apply_differences(base, items, 0))
                } else {
                    None
                },
                _ => Some(base),
            },
        }
    }
}

/// The glyph names a simple font's dictionary gives its 256 codes (with `builtin` the encoding
/// its Type1 program declares), when they follow from the dictionary itself; `None` where a
/// reference has to be read through the file.
pub open spec fn spec_encoding_names(
    dict: Seq<(Seq<char>, ObjectView)>,
    base_font: Seq<char>,
    symbolic: bool,
    builtin: Option<BuiltinView>,
) -> Option<Seq<Seq<char>>> {
    names_for(present(dict_lookup(dict, "Encoding"@)), base_font, symbolic, builtin)
}

/// The names of a base encoding, as strings.
fn base_name_table(base: Option<Encoding>) -> (r: Vec<String>)
    ensures
        r@.map_values(|s: String| s@) == base_names(base),
{
    reveal(base_names);
    let mut names: Vec<String> = Vec::new();
    let mut code: u32 = 0;
    while code < 256
        invariant
            code <= 256,
            names@.len() == code,
            forall|c: int| 0 <= c < code ==> (#[trigger] names@[c])@ == base_names(base)[c],
        decreases 256 - code,
    {
        reveal(base_names);
        let s = match base {
            Some(e) => base_encoding_name(e, code as u8).to_owned(),
            None => String::new(),
        };
        names.push(s);
        code = code + 1;
    }
    reveal(base_names);
    assert(names@.map_values(|s: String| s@) =~= base_names(base));
    names
}

/// Applies the items of a `/Differences` array, each read through the file.
fn apply_differences_exec(file: &PdfFile, names: &mut Vec<String>, items: &[Object])
    requires
        old(names)@.len() == 256,
    ensures
        final(names)@.len() == 256,
        direct_items(items@.map_values(|o: Object| o@)) ==> final(names)@.map_values(|s: String| s@)
            == apply_differences(
            old(names)@.map_values(|s: String| s@),
            items@.map_values(|o: Object| o@),
            0,
        ),
{
    let ghost iv = items@.map_values(|o: Object| o@);
    let ghost start = names@.map_values(|s: String| s@);
    let mut code: i64 = 0;
    let mut k: usize = 0;
    assert(iv.subrange(0, iv.len() as int) =~= iv);
    while k < items.len()
        invariant
            iv == items@.map_values(|o: Object| o@),
            start == old(names)@.map_values(|s: String| s@),
            k <= items@.len(),
            names@.len() == 256,
            direct_items(iv) ==> apply_differences(start, iv, 0) == apply_differences(
                names@.map_values(|s: String| s@),
                iv.subrange(k as int, iv.len() as int),
                code,
            ),
        decreases items@.len() - k,
    {
        let ghost before = names@.map_values(|s: String| s@);
        let ghost rest = iv.subrange(k as int, iv.len() as int);
        assert(rest.drop_first() =~= iv.subrange(k + 1, iv.len() as int));
        assert(rest[0] == items@[k as int]@);
        match file.resolve(&items[k]) {
            Object::Int(i) => {
                code = i;
            },
            Object::Real(t) => {
                code = crate::lexer::real_to_int(t.as_slice());
            },
            Object::Name(n) => {
                if 0 <= code && code < 256 {
                    names.set(code as usize, n);
                    assert(names@.map_values(|s: String| s@) =~= before.update(code as int, n@));
                }
                code = code.wrapping_add(1);
            },
            _ => {},
        }
        k = k + 1;
    }
    assert(iv.subrange(iv.len() as int, iv.len() as int) =~= Seq::<ObjectView>::empty());
}

/// Builds the 256-entry code to glyph-name table for a simple or Type3 font. `builtin` is the
/// encoding the font's embedded Type1 program declares, if any (see [`type1_encoding`]).
pub fn build_encoding(
    file: &PdfFile,
    dict: &Dict,
    base_font: &str,
    symbolic: bool,
    builtin: Option<&Builtin>,
) -> (r: Vec<String>)
    requires
        builtin matches Some(Builtin::Custom(v)) ==> v@.len() == 256,
    ensures
        r@.len() == 256,
        spec_encoding_names(dict@, base_font@, symbolic, opt_builtin(builtin)) matches Some(ns)
            ==> r@.map_values(|s: String| s@) == ns,
{
    let encoding_obj = dict_get(file, dict, "Encoding");
    proof {
        if present(dict_lookup(dict@, "Encoding"@)) matches Some(ObjectView::Ref(_, _)) {
            reveal(names_for);
        } else {
            assert(crate::lexer::opt_view(encoding_obj) == present(dict_lookup(dict@, "Encoding"@)));
        }
    }
    names_from(file, &encoding_obj, base_font, symbolic, builtin)
}

/// The glyph names an `/Encoding` value (already read through the file) gives the 256 codes.
fn names_from(
    file: &PdfFile,
    encoding_obj: &Option<Object>,
    base_font: &str,
    symbolic: bool,
    builtin: Option<&Builtin>,
) -> (r: Vec<String>)
    requires
        builtin matches Some(Builtin::Custom(v)) ==> v@.len() == 256,
    ensures
        r@.len() == 256,
        names_for(crate::lexer::opt_view(*encoding_obj), base_font@, symbolic, opt_builtin(builtin))
            matches Some(ns) ==> r@.map_values(|s: String| s@) == ns,
{
    let ghost enc = crate::lexer::opt_view(*encoding_obj);
    let ghost bv = opt_builtin(builtin);
    let mut names = base_table(encoding_obj, base_font, symbolic, builtin);
    // `/Differences` is a flat array where each integer restarts the code counter and each name
    // assigns the current code, then advances it.
    match encoding_obj {
        Some(Object::Dict(d)) => {
            proof {
                lemma_names_table(enc, d@, base_font@, symbolic, bv);
            }
            apply_dict_differences(file, &mut names, d);
        },
        Some(Object::Stream(st)) => {
            proof {
                lemma_names_table(enc, st.dict@, base_font@, symbolic, bv);
            }
            apply_dict_differences(file, &mut names, &st.dict);
        },
        _ => {
            proof {
                lemma_names_plain(enc, base_font@, symbolic, bv);
            }
        },
    }
    names
}

proof fn lemma_names_plain(enc: Option<ObjectView>, base_font: Seq<char>, symbolic: bool, bv: Option<BuiltinView>)
    requires
        !(enc matches Some(ObjectView::Dict(_))),
        !(enc matches Some(ObjectView::Stream(_, _))),
    ensures
        !(enc matches Some(ObjectView::Ref(_, _))) ==> names_for(enc, base_font, symbolic, bv) == Some(
            spec_base_table(stated_encoding(enc), base_font, symbolic, bv),
        ),
        enc matches Some(ObjectView::Ref(_, _)) ==> names_for(enc, base_font, symbolic, bv) is None,
{
    reveal(names_for);
}

proof fn lemma_names_table(
    enc: Option<ObjectView>,
    es: Seq<(Seq<char>, ObjectView)>,
    base_font: Seq<char>,
    symbolic: bool,
    bv: Option<BuiltinView>,
)
    requires
        enc == Some(ObjectView::Dict(es)) || exists|raw: Seq<u8>| enc == Some(ObjectView::Stream(es, raw)),
    ensures
        ({
            let base = spec_base_table(stated_encoding(enc), base_font, symbolic, bv);
            names_for(enc, base_font, symbolic, bv) == match dict_lookup(es, "Differences"@) {
                Some(ObjectView::Ref(_, _)) => None,
                Some(ObjectView::Array(items)) => if direct_items(items) {
                    Some(apply_differences(base, items, 0))
                } else {
                    None
                },
                _ => Some(base),
            }
        }),
{
    reveal(names_for);
}

/// The 256 names the codes start from, before `/Differences`.
fn base_table(enc: &Option<Object>, base_font: &str, symbolic: bool, builtin: Option<&Builtin>) -> (r:
    Vec<String>)
    requires
        builtin matches Some(Builtin::Custom(v)) ==> v@.len() == 256,
    ensures
        r@.len() == 256,
        r@.map_values(|s: String| s@) == spec_base_table(
            stated_encoding(crate::lexer::opt_view(*enc)),
            base_font@,
            symbolic,
            opt_builtin(builtin),
        ),
{
    let stated = match enc {
        Some(obj) => stated_of(obj),
        None => None,
    };
    if stated.is_none() && symbolic {
        match builtin {
            Some(Builtin::Custom(v)) => {
                let r = copy_names(v);
                assert(r@.len() == r@.map_values(|s: String| s@).len());
                return r;
            },
            Some(Builtin::Standard) => {
                let r = base_name_table(Some(Encoding::Standard));
                proof {
                    reveal(base_names);
                    assert(r@.len() == r@.map_values(|s: String| s@).len());
                }
                return r;
            },
            None => {},
        }
    }
    let r = base_name_table(base_encoding_of(enc, base_font, symbolic));
    proof {
        reveal(base_names);
        assert(r@.len() == r@.map_values(|s: String| s@).len());
    }
    r
}

/// A copy of a table of names.
fn copy_names(v: &Vec<String>) -> (r: Vec<String>)
    ensures
        r@.map_values(|s: String| s@) == v@.map_values(|s: String| s@),
{
    let mut out: Vec<String> = Vec::new();
    let mut i: usize = 0;
    while i < v.len()
        invariant
            i <= v@.len(),
            out@.len() == i,
            forall|k: int| 0 <= k < i ==> (#[trigger] out@[k])@ == v@[k]@,
        decreases v@.len() - i,
    {
        out.push(v[i].clone());
        i = i + 1;
    }
    assert(out@.map_values(|s: String| s@) =~= v@.map_values(|s: String| s@));
    out
}

/// The encoding the Type1 program under a font descriptor's `/FontFile` declares for itself.
pub fn type1_encoding(file: &PdfFile, descriptor: Option<&Dict>) -> (r: Option<Builtin>)
    ensures
        r matches Some(Builtin::Custom(v)) ==> v@.len() == 256,
        descriptor is None ==> r is None,
        descriptor matches Some(d) ==> (direct_font_file(d@, "FontFile"@) ==> match r {
            Some(b) => exists|data: Seq<u8>, t: bool|
                #[trigger] font_file_yields(d@, "FontFile"@, data, t) && spec_builtin_encoding(data)
                    == Some(builtin_view(b)),
            None => font_file_fails(d@, "FontFile"@) || exists|data: Seq<u8>, t: bool|
                #[trigger] font_file_yields(d@, "FontFile"@, data, t) && spec_builtin_encoding(data)
                    is None,
        }),
{
    let desc = match descriptor {
        Some(d) => d,
        None => {
            return None;
        },
    };
    match font_file(file, desc, "FontFile") {
        Some((data, t)) => {
            let r = builtin_encoding(data.as_slice());
            proof {
                if direct_font_file(desc@, "FontFile"@) {
                    assert(font_file_yields(desc@, "FontFile"@, data@, t));
                }
            }
            r
        },
        None => None,
    }
}

/// The base encoding for an `/Encoding` value (read through the file) and the font's name.
fn base_encoding_of(enc: &Option<Object>, base_font: &str, symbolic: bool) -> (r: Option<Encoding>)
    ensures
        r == spec_base_encoding(
            stated_encoding(
                match enc {
                    Some(o) => Some(o@),
                    None => None,
                },
            ),
            base_font@,
            symbolic,
        ),
{
    let stated = match enc {
        Some(obj) => stated_of(obj),
        None => None,
    };
    match stated {
        Some(e) => Some(e),
        None => if has_symbol(base_font) {
            Some(Encoding::Symbol)
        } else if !symbolic {
            // A nonsymbolic font with no stated encoding uses the standard one.
            Some(Encoding::Standard)
        } else {
            None
        },
    }
}

/// The base encoding an `/Encoding` value states.
#[verifier::rlimit(60)]
fn stated_of(obj: &Object) -> (r: Option<Encoding>)
    ensures
        r == stated_encoding(Some(obj@)),
{
    match obj {
        Object::Name(n) => named_encoding(n.as_str()),
        Object::Dict(d) => base_encoding_entry(d),
        Object::Stream(st) => base_encoding_entry(&st.dict),
        _ => None,
    }
}

/// The encoding a dictionary's `/BaseEncoding` names.
fn base_encoding_entry(d: &Dict) -> (r: Option<Encoding>)
    ensures
        r == match dict_lookup(d@, "BaseEncoding"@) {
            Some(ObjectView::Name(n)) => spec_named_encoding(n),
            _ => None,
        },
{
    match d.get("BaseEncoding") {
        Some(b) => match b.as_name() {
            Some(n) => named_encoding(n),
            None => None,
        },
        None => None,
    }
}

/// Applies an encoding dictionary's `/Differences`, when it has an array of them.
fn apply_dict_differences(file: &PdfFile, names: &mut Vec<String>, d: &Dict)
    requires
        old(names)@.len() == 256,
    ensures
        final(names)@.len() == 256,
        match dict_lookup(d@, "Differences"@) {
            Some(ObjectView::Ref(_, _)) => true,
            Some(ObjectView::Array(items)) => direct_items(items) ==> final(names)@.map_values(
                |s: String| s@,
            ) == apply_differences(old(names)@.map_values(|s: String| s@), items, 0),
            _ => final(names)@ == old(names)@,
        },
{
    if let Some(diffs) = dict_get(file, d, "Differences") {
        if let Some(items) = diffs.as_array() {
            proof {
                assert(items@.map_values(|o: Object| o@) =~= diffs@->Array_0);
            }
            apply_differences_exec(file, names, items);
        }
    }
}

// ---- codes, glyph names and text ---------------------------------------------------------------

/// The glyph name a simple font encodes `code` to, or `""`.
pub fn glyph_name(names: &Vec<String>, code: u32) -> (r: &str)
    ensures
        r@ == if code < names@.len() {
            names@[code as int]@
        } else {
            Seq::empty()
        },
{
    if (code as usize) < names.len() {
        names[code as usize].as_str()
    } else {
        proof {
            reveal_strlit("");
        }
        ""
    }
}

/// The glyph name at `code` in a 256-entry table, or the empty name.
pub open spec fn name_at(names: Seq<Seq<char>>, code: u32) -> Seq<char> {
    if code < names.len() {
        names[code as int]
    } else {
        Seq::empty()
    }
}

/// The slot a Microsoft symbol-font private-use text stands for: a text that is the single
/// code point U+F000 + slot, with slot below 256.
pub open spec fn symbol_slot(text: Seq<char>) -> Option<u32> {
    if text.len() == 1 && 0xF000 <= (text[0] as u32) && (text[0] as u32) <= 0xF0FF {
        Some(((text[0] as u32) - 0xF000) as u32)
    } else {
        None
    }
}

/// The text `/ToUnicode` gives a code, with a symbol-font private-use point replaced by what the
/// font's own encoding puts at that slot, where its glyph name has any.
pub open spec fn spec_mapped_text(text: Seq<char>, names: Seq<Seq<char>>) -> Seq<char> {
    match symbol_slot(text) {
        Some(slot) => match glyph_unicode(name_at(names, slot)) {
            Some(t) => t,
            None => text,
        },
        None => text,
    }
}

/// The text a code contributes: `/ToUnicode` first, then the glyph name it is encoded to.
pub fn unicode_for(to_unicode: Option<&CMap>, names: &Vec<String>, code: u32) -> (r: Option<String>)
    ensures
        ({
            let ns = names@.map_values(|s: String| s@);
            let from_map = match to_unicode {
                Some(m) => spec_unicode(m@, code),
                None => None,
            };
            match from_map {
                Some(s) => r matches Some(t) && t@ == spec_mapped_text(s, ns),
                None => match glyph_unicode(name_at(ns, code)) {
                    Some(s) => r matches Some(t) && t@ == s,
                    None => r is None,
                },
            }
        }),
{
    if let Some(map) = to_unicode {
        if let Some(s) = map.unicode(code) {
            return Some(symbol_text(s, names));
        }
    }
    glyph_name_to_unicode(glyph_name(names, code))
}

/// `text` with a symbol-font private-use point rewritten through the font's encoding.
fn symbol_text(text: String, names: &Vec<String>) -> (r: String)
    ensures
        r@ == spec_mapped_text(text@, names@.map_values(|s: String| s@)),
{
    let chars = chars_of(text.as_str());
    if chars.len() == 1 {
        let v = chars[0] as u32;
        if 0xF000 <= v && v <= 0xF0FF {
            let slot = v - 0xF000;
            if let Some(t) = glyph_name_to_unicode(glyph_name(names, slot)) {
                return t;
            }
        }
    }
    text
}

/// One character code decoded from a PDF string.
#[derive(Debug, Clone, Copy, PartialEq, Eq)]
pub struct CharCode {
    /// The raw character code, as assembled from one or more bytes.
    pub code: u32,
    /// The glyph selector: the code itself for simple fonts, the CID for composite ones.
    pub cid: u32,
    /// True only for a single-byte code 32, which is what `Tw` word spacing applies to.
    pub is_word_space: bool,
}

/// Splits a PDF string into character codes: one per byte for a simple font, by the
/// codespace of a composite font's CMap (`composite`) otherwise.
pub fn decode_codes(composite: Option<&CMap>, bytes: &[u8]) -> (r: Vec<CharCode>)
    ensures
        composite is None ==> r@.len() == bytes@.len() && forall|i: int|
            0 <= i < bytes@.len() ==> (#[trigger] r@[i]).code == bytes@[i] && r@[i].cid
                == bytes@[i] && r@[i].is_word_space == (bytes@[i] == 32),
        composite matches Some(m) ==> r@.len() == crate::font::cmap::spec_decode_codes(
            m@.codespace,
            bytes@,
        ).len() && forall|i: int|
            0 <= i < r@.len() ==> (#[trigger] r@[i]).code == crate::font::cmap::spec_decode_codes(
                m@.codespace,
                bytes@,
            )[i] && r@[i].cid == crate::font::cmap::spec_cid(m@, r@[i].code) && !r@[i].is_word_space,
{
    let mut out: Vec<CharCode> = Vec::new();
    match composite {
        Some(m) => {
            let pairs = m.codes_with_cids(bytes);
            let mut k: usize = 0;
            while k < pairs.len()
                invariant
                    k <= pairs@.len(),
                    out@.len() == k,
                    forall|i: int|
                        0 <= i < k ==> (#[trigger] out@[i]).code == pairs@[i].0 && out@[i].cid
                            == pairs@[i].1 && !out@[i].is_word_space,
                decreases pairs@.len() - k,
            {
                // Word spacing is defined only for single-byte code 32, which a composite
                // font's codespace does not produce in practice.
                out.push(CharCode { code: pairs[k].0, cid: pairs[k].1, is_word_space: false });
                k = k + 1;
            }
        },
        None => {
            let mut k: usize = 0;
            while k < bytes.len()
                invariant
                    k <= bytes@.len(),
                    out@.len() == k,
                    forall|i: int|
                        0 <= i < k ==> (#[trigger] out@[i]).code == bytes@[i] && out@[i].cid
                            == bytes@[i] && out@[i].is_word_space == (bytes@[i] == 32),
                decreases bytes@.len() - k,
            {
                let b = bytes[k];
                out.push(CharCode { code: b as u32, cid: b as u32, is_word_space: b == 32 });
                k = k + 1;
            }
        },
    }
    out
}

/// A composite font's CID to glyph id, through `/CIDToGIDMap` when one is present: two
/// big-endian bytes per CID, and glyph 0 past the end of the map.
pub fn composite_gid(cid_to_gid: Option<&[u8]>, cid: u32) -> (r: u16)
    ensures
        match cid_to_gid {
            None => r == cid % 0x10000,
            Some(map) => if 2 * cid + 1 < map@.len() {
                r == map@[2 * cid] * 256 + map@[2 * cid + 1]
            } else {
                r == 0
            },
        },
{
    let map = match cid_to_gid {
        Some(m) => m,
        None => {
            let g: u16 = #[verifier::truncate]
            (cid as u16);
            assert(g == cid % 0x10000) by (bit_vector)
                requires
                    g == #[verifier::truncate] (cid as u16),
            ;
            return g;
        },
    };
    let i: u64 = cid as u64 * 2;
    if i + 1 < map.len() as u64 {
        let hi = map[i as usize] as u16;
        let lo = map[(i + 1) as usize] as u16;
        hi * 256 + lo
    } else {
        // Past the end of the map means unmapped, which is glyph 0.
        0
    }
}

// ---- the embedded program --------------------------------------------------------------------

/// An embedded font program.
pub enum Program {
    /// TrueType or OpenType: anything with an sfnt table directory.
    Sfnt(Vec<u8>),
    /// A bare CFF program (`/FontFile3` with subtype `Type1C` or `CIDFontType0C`).
    Cff(Vec<u8>),
    /// No program, or one in a format whose charstrings are not interpreted (Type1 `/FontFile`).
    Empty,
}

/// The descriptor's entry `key` is absent, or a direct object, and a stream's dictionary holds
/// no reference.
pub open spec fn direct_font_file(d: Seq<(Seq<char>, ObjectView)>, key: Seq<char>) -> bool {
    match dict_lookup(d, key) {
        None => true,
        Some(v) => !(v is Ref) && (v matches ObjectView::Stream(es, _) ==> crate::parser::ref_free(
            ObjectView::Dict(es),
        )),
    }
}

/// The entry `key` is a stream whose filters decode to `data`, and `open_type` says whether
/// its `/Subtype` is `OpenType`.
pub open spec fn font_file_yields(
    d: Seq<(Seq<char>, ObjectView)>,
    key: Seq<char>,
    data: Seq<u8>,
    open_type: bool,
) -> bool {
    &&& dict_lookup(d, key) matches Some(ObjectView::Stream(es, raw))
    &&& open_type == (dict_lookup(es, "Subtype"@) == Some(ObjectView::Name("OpenType"@)))
    &&& exists|f: Option<Seq<char>>|
        crate::filters::spec_decode(es, raw, crate::filters::Direct)
            == crate::filters::DecodeOutcome::Done(data, f)
}

/// No program comes from the entry `key`: it is absent or not a stream, or a stream whose
/// filters fail.
pub open spec fn font_file_fails(d: Seq<(Seq<char>, ObjectView)>, key: Seq<char>) -> bool {
    match dict_lookup(d, key) {
        Some(ObjectView::Stream(es, raw)) => !(crate::filters::spec_decode(es, raw, crate::filters::Direct) is Done),
        _ => true,
    }
}

/// Picks the embedded program out of a font descriptor: the first of `/FontFile2`,
/// `/FontFile3` and `/FontFile` that is a stream and decodes. `/FontFile3` is an sfnt when its
/// subtype says `OpenType` and bare CFF otherwise; a Type1 `/FontFile` yields no program.
pub fn load_program(file: &PdfFile, descriptor: Option<&Dict>) -> (r: Program)
    ensures
        descriptor is None ==> r is Empty,
        descriptor matches Some(d) ==> (direct_font_file(d@, "FontFile2"@) && direct_font_file(
            d@,
            "FontFile3"@,
        ) ==> match r {
            Program::Sfnt(data) => (exists|t: bool| #[trigger] font_file_yields(d@, "FontFile2"@, data@, t))
                || (font_file_fails(d@, "FontFile2"@) && font_file_yields(
                d@,
                "FontFile3"@,
                data@,
                true,
            )),
            Program::Cff(data) => font_file_fails(d@, "FontFile2"@) && font_file_yields(
                d@,
                "FontFile3"@,
                data@,
                false,
            ),
            Program::Empty => font_file_fails(d@, "FontFile2"@) && font_file_fails(d@, "FontFile3"@),
        }),
{
    let desc = match descriptor {
        Some(d) => d,
        None => {
            return Program::Empty;
        },
    };
    if let Some((data, t)) = font_file(file, desc, "FontFile2") {
        proof {
            if direct_font_file(desc@, "FontFile2"@) {
                assert(font_file_yields(desc@, "FontFile2"@, data@, t));
                assert(exists|u: bool| #[trigger] font_file_yields(desc@, "FontFile2"@, data@, u));
            }
        }
        let r = Program::Sfnt(data);
        assert(r matches Program::Sfnt(x) && x@ == data@);
        return r;
    }
    if let Some((data, open_type)) = font_file(file, desc, "FontFile3") {
        proof {
            if direct_font_file(desc@, "FontFile2"@) && direct_font_file(desc@, "FontFile3"@) {
                assert(font_file_fails(desc@, "FontFile2"@));
                assert(font_file_yields(desc@, "FontFile3"@, data@, open_type));
            }
        }
        // An OpenType wrapper is a full sfnt; the bare CFF subtypes are not.
        return if open_type {
            Program::Sfnt(data)
        } else {
            Program::Cff(data)
        };
    }
    // `/FontFile` is Type1, whose eexec-encrypted charstrings are not interpreted here; its
    // metrics still come from `/Widths`, so text extraction is unaffected.
    Program::Empty
}

/// The decoded bytes of a descriptor's font-file stream under `key`, and whether its
/// `/Subtype` is `OpenType`.
#[verifier::rlimit(40)]
fn font_file(file: &PdfFile, desc: &Dict, key: &str) -> (r: Option<(Vec<u8>, bool)>)
    ensures
        direct_font_file(desc@, key@) ==> match r {
            Some((data, open_type)) => font_file_yields(desc@, key@, data@, open_type),
            None => font_file_fails(desc@, key@),
        },
{
    let obj = match dict_get(file, desc, key) {
        Some(o) => o,
        None => {
            return None;
        },
    };
    let stream = match obj.as_stream() {
        Some(s) => s,
        None => {
            return None;
        },
    };
    let open_type = typed_open_type(&stream.dict);
    let res = file.decode_stream(stream);
    proof {
        if direct_font_file(desc@, key@) {
            assert(dict_lookup(desc@, key@) == Some(ObjectView::Stream(stream.dict@, stream.raw@)));
            lemma_decode_outcome(stream.dict@, stream.raw@, res);
        }
    }
    match res {
        Ok(d) => Some((d.data, open_type)),
        Err(_) => None,
    }
}

/// What a filter chain's result says of the chain's outcomes.
pub(crate) proof fn lemma_decode_outcome(
    es: Seq<(Seq<char>, ObjectView)>,
    raw: Seq<u8>,
    res: Result<crate::filters::Decoded, crate::error::Error>,
)
    requires
        crate::filters::outcome_of(res) == crate::filters::spec_decode(es, raw, crate::filters::Direct),
    ensures
        res matches Ok(d) ==> exists|f: Option<Seq<char>>|
            crate::filters::spec_decode(es, raw, crate::filters::Direct)
                == crate::filters::DecodeOutcome::Done(d.data@, f),
        res is Err ==> !(crate::filters::spec_decode(es, raw, crate::filters::Direct) is Done),
{
    if res is Ok {
        let d = res->Ok_0;
        let f = match d.image_filter {
            Some(n) => Some(n@),
            None => None,
        };
        assert(crate::filters::spec_decode(es, raw, crate::filters::Direct)
            == crate::filters::DecodeOutcome::Done(d.data@, f));
    } else {
        assert(!(crate::filters::spec_decode(es, raw, crate::filters::Direct) is Done));
    }
}

/// The stream dictionary's `/Subtype` is `OpenType`.
fn typed_open_type(dict: &Dict) -> (r: bool)
    ensures
        r == (dict_lookup(dict@, "Subtype"@) == Some(ObjectView::Name("OpenType"@))),
{
    match dict.get("Subtype") {
        Some(s) => match s.as_name() {
            Some(n) => str_eq(n, "OpenType"),
            None => false,
        },
        None => false,
    }
}

/// The font's `/ToUnicode` CMap, when it maps any code to text.
#[verifier::spinoff_prover]
#[verifier::rlimit(60)]
pub fn load_to_unicode(file: &PdfFile, dict: &Dict) -> (r: Option<CMap>)
    ensures
        dict_lookup(dict@, "ToUnicode"@) is None ==> r is None,
        r matches Some(m) ==> crate::font::cmap::spec_has_unicode(m@),
        dict_lookup(dict@, "ToUnicode"@) matches Some(v) ==> (crate::document::direct_part(v)
            ==> exists|p: Option<Seq<u8>>| #[trigger] crate::document::stream_part(v, p) && to_unicode_from(p, r)),
{
    let obj = match dict_get(file, dict, "ToUnicode") {
        Some(o) => o,
        None => {
            proof {
                if dict_lookup(dict@, "ToUnicode"@) is Some {
                    let v = dict_lookup(dict@, "ToUnicode"@)->0;
                    if crate::document::direct_part(v) {
                        assert(crate::document::stream_part(v, None::<Seq<u8>>));
                    }
                }
            }
            return None;
        },
    };
    let stream = match obj.as_stream() {
        Some(s) => s,
        None => {
            proof {
                if dict_lookup(dict@, "ToUnicode"@) is Some {
                    let v = dict_lookup(dict@, "ToUnicode"@)->0;
                    if crate::document::direct_part(v) {
                        assert(crate::document::stream_part(v, None::<Seq<u8>>));
                    }
                }
            }
            return None;
        },
    };
    let res = file.decode_stream(stream);
    proof {
        if dict_lookup(dict@, "ToUnicode"@) is Some {
            let v = dict_lookup(dict@, "ToUnicode"@)->0;
            if crate::document::direct_part(v) {
                assert(v == ObjectView::Stream(stream.dict@, stream.raw@));
                lemma_decode_outcome(stream.dict@, stream.raw@, res);
            }
        }
    }
    let decoded = match res {
        Ok(d) => d,
        Err(_) => {
            proof {
                if dict_lookup(dict@, "ToUnicode"@) is Some {
                    let v = dict_lookup(dict@, "ToUnicode"@)->0;
                    if crate::document::direct_part(v) {
                        assert(crate::document::stream_part(v, None::<Seq<u8>>));
                    }
                }
            }
            return None;
        },
    };
    let map = CMap::parse(decoded.data.as_slice());
    let r = if map.has_unicode() {
        Some(map)
    } else {
        None
    };
    proof {
        if dict_lookup(dict@, "ToUnicode"@) is Some {
            let v = dict_lookup(dict@, "ToUnicode"@)->0;
            if crate::document::direct_part(v) {
                assert(crate::document::stream_part(v, Some(decoded.data@)));
                assert(to_unicode_from(Some(decoded.data@), r));
            }
        }
    }
    r
}

/// The ToUnicode map a decoding `p` of the stream gives: its parsed CMap when that maps some
/// code to text, none otherwise or when there is no decoding.
pub open spec fn to_unicode_from(p: Option<Seq<u8>>, r: Option<CMap>) -> bool {
    match p {
        Some(d) => if crate::font::cmap::spec_has_unicode(crate::font::cmap::spec_parse(d)) {
            r matches Some(m) && m@ == crate::font::cmap::spec_parse(d)
        } else {
            r is None
        },
        None => r is None,
    }
}

} // verus!

verus! {

// ---- advances --------------------------------------------------------------------------------

/// A simple font's declared advances: `/FirstChar`, the `/Widths` entries (read through the
/// file) and the descriptor's numeric `/MissingWidth`.
pub struct SimpleWidths {
    pub first: u32,
    pub widths: Vec<Object>,
    pub missing: Option<Object>,
}

/// Where a simple font's advance for a code comes from, in glyph units (1000 per em).
pub enum Advance {
    /// The `/Widths` entry for the code; a non-number counts as zero.
    Listed(Object),
    /// The standard-14 metrics.
    Builtin(u16),
    /// The descriptor's `/MissingWidth`, a number.
    Missing(Object),
    /// Nothing says: 500 units.
    Fallback,
}

/// `/FirstChar` clamped to the `u32` range; zero when absent.
pub open spec fn clamp_first(v: Option<i64>) -> u32 {
    match v {
        Some(i) => if i < 0 {
            0
        } else if i > u32::MAX {
            u32::MAX
        } else {
            i as u32
        },
        None => 0,
    }
}

/// A number object.
pub open spec fn is_number(o: ObjectView) -> bool {
    o is Int || o is Real
}

/// Reads a simple font's advances.
pub fn simple_widths(file: &PdfFile, dict: &Dict, descriptor: Option<&Dict>) -> (r: SimpleWidths)
    ensures
        dict_lookup(dict@, "FirstChar"@) is None ==> r.first == 0,
        dict_lookup(dict@, "FirstChar"@) matches Some(ObjectView::Int(i)) ==> r.first == clamp_first(
            Some(i),
        ),
        dict_lookup(dict@, "Widths"@) is None ==> r.widths@.len() == 0,
        match dict_lookup(dict@, "Widths"@) {
            Some(ObjectView::Array(items)) => r.widths@.len() == items.len() && forall|i: int|
                0 <= i < items.len() && !(items[i] is Ref) ==> (#[trigger] r.widths@[i])@
                    == items[i],
            _ => true,
        },
        descriptor is None ==> r.missing is None,
        r.missing matches Some(m) ==> is_number(m@),
{
    let first_raw = match dict_get(file, dict, "FirstChar") {
        Some(o) => o.as_int(),
        None => None,
    };
    let first: u32 = match first_raw {
        Some(i) => if i < 0 {
            0
        } else if i > 0xFFFF_FFFF {
            0xFFFF_FFFF
        } else {
            i as u32
        },
        None => 0,
    };
    let mut widths: Vec<Object> = Vec::new();
    if let Some(o) = dict_get(file, dict, "Widths") {
        if let Object::Array(items) = o {
            let mut k: usize = 0;
            while k < items.len()
                invariant
                    k <= items@.len(),
                    widths@.len() == k,
                    forall|i: int|
                        0 <= i < k && !(items@[i]@ is Ref) ==> (#[trigger] widths@[i])@ == items@[i]@,
                decreases items@.len() - k,
            {
                widths.push(file.resolve(&items[k]));
                k = k + 1;
            }
            proof {
                assert(o@->Array_0.len() == items@.len());
                assert forall|i: int|
                    0 <= i < o@->Array_0.len() && !(o@->Array_0[i] is Ref) implies (
                    #[trigger] widths@[i])@ == o@->Array_0[i] by {
                    assert(o@->Array_0[i] == items@[i]@);
                }
            }
        }
    }
    let missing = match descriptor {
        Some(d) => match dict_get(file, d, "MissingWidth") {
            Some(o) => match o {
                Object::Int(_) => Some(o),
                Object::Real(_) => Some(o),
                _ => None,
            },
            None => None,
        },
        None => None,
    };
    SimpleWidths { first, widths, missing }
}

/// Where the advance of `code` comes from: the `/Widths` entry when the array covers the code;
/// otherwise, for one of the standard 14 fonts, its built-in metrics; then `/MissingWidth`; then
/// the built-in metrics of a look-alike standard face; then 500.
pub open spec fn spec_advance_source(
    first: u32,
    count: int,
    missing: bool,
    standard: bool,
    builtin: Option<u16>,
    code: u32,
) -> int {
    if first <= code && code - first < count {
        0  // listed
    } else if standard && builtin is Some {
        1  // builtin
    } else if missing {
        2  // missing
    } else if builtin is Some {
        1  // builtin
    } else {
        3  // fallback
    }
}

/// The advance of `code` in a simple font, whose glyph for it is named `glyph_name`.
pub fn simple_advance(w: &SimpleWidths, base_font: &str, glyph_name: &str, code: u32) -> (r: Advance)
    ensures
        ({
            let builtin = crate::font::metrics::spec_base14_width(base_font@, glyph_name@);
            let src = spec_advance_source(
                w.first,
                w.widths@.len() as int,
                w.missing is Some,
                crate::font::metrics::spec_is_standard_font(base_font@),
                builtin,
                code,
            );
            &&& src == 0 ==> (r matches Advance::Listed(o) && o@ == w.widths@[code - w.first]@)
            &&& src == 1 ==> r == Advance::Builtin(builtin->0)
            &&& src == 2 ==> (r matches Advance::Missing(o) && o@ == w.missing->0@)
            &&& src == 3 ==> r is Fallback
        }),
{
    if code >= w.first && ((code - w.first) as usize) < w.widths.len() {
        // A zero width in the array is legitimate (combining marks), so it is only overridden
        // when the array does not cover the code.
        return Advance::Listed(w.widths[(code - w.first) as usize].clone());
    }
    // For one of the 14 standard fonts the built-in metrics are authoritative. For any other
    // font `/MissingWidth` is the descriptor's own answer and outranks a guess made from a
    // look-alike standard face.
    let builtin = crate::font::metrics::base14_width(base_font, glyph_name);
    if crate::font::metrics::is_standard_font(base_font) {
        if let Some(v) = builtin {
            return Advance::Builtin(v);
        }
    }
    match &w.missing {
        Some(m) => Advance::Missing(m.clone()),
        None => match builtin {
            Some(v) => Advance::Builtin(v),
            None => Advance::Fallback,
        },
    }
}

} // verus!

verus! {

// ---- composite fonts -------------------------------------------------------------------------

/// The entries of a dictionary or a stream's dictionary; none for anything else.
pub open spec fn entries_or_empty(v: ObjectView) -> Seq<(Seq<char>, ObjectView)> {
    match crate::document::node_dict(v) {
        Some(es) => es,
        None => Seq::empty(),
    }
}

/// The CMap that splits a Type0 font's strings into codes and CIDs: an embedded CMap stream
/// when `/Encoding` is one that decodes, and the identity mapping otherwise. A predefined
/// non-identity CMap needs Adobe's CMap files, which are not bundled; identity keeps the
/// codespace right for the two-byte majority.
pub fn composite_cmap(file: &PdfFile, dict: &Dict) -> (r: CMap)
    ensures
        dict_lookup(dict@, "Encoding"@) is None ==> r@ == crate::font::cmap::identity_cmap(),
        dict_lookup(dict@, "Encoding"@) matches Some(ObjectView::Name(_)) ==> r@
            == crate::font::cmap::identity_cmap(),
{
    match dict_get(file, dict, "Encoding") {
        Some(Object::Stream(s)) => match file.decode_stream(&s) {
            Ok(d) => CMap::parse(d.data.as_slice()),
            Err(_) => CMap::identity(),
        },
        _ => CMap::identity(),
    }
}

/// A Type0 font's descendant: the first entry of `/DescendantFonts` (or the entry itself when
/// it is not an array), read through the file; empty when it is not a dictionary.
pub fn descendant_font(file: &PdfFile, dict: &Dict) -> (r: Dict)
    ensures
        match dict_lookup(dict@, "DescendantFonts"@) {
            None => r@.len() == 0,
            Some(ObjectView::Array(items)) => (items.len() == 0 ==> r@.len() == 0) && (items.len() > 0
                && !(items[0] is Ref) ==> r@ == entries_or_empty(items[0])),
            Some(v) => !(v is Ref) ==> r@ == entries_or_empty(v),
        },
{
    let first = match dict_get(file, dict, "DescendantFonts") {
        Some(Object::Array(items)) => {
            if items.len() > 0 {
                Some(file.resolve(&items[0]))
            } else {
                None
            }
        },
        Some(other) => Some(other),
        None => None,
    };
    match first {
        Some(o) => match o.as_dict() {
            Some(d) => d.clone(),
            None => Dict::new(),
        },
        None => Dict::new(),
    }
}

/// A descendant font's `/CIDToGIDMap` stream, decoded; none for `/Identity`, an absent map, or
/// one that does not decode, where the CID is the glyph id.
#[verifier::spinoff_prover]
#[verifier::rlimit(60)]
pub fn cid_to_gid_map(file: &PdfFile, descendant: &Dict) -> (r: Option<Vec<u8>>)
    ensures
        dict_lookup(descendant@, "CIDToGIDMap"@) is None ==> r is None,
        dict_lookup(descendant@, "CIDToGIDMap"@) matches Some(ObjectView::Name(_)) ==> r is None,
        dict_lookup(descendant@, "CIDToGIDMap"@) matches Some(v) ==> (crate::document::direct_part(v)
            ==> exists|p: Option<Seq<u8>>| #[trigger] crate::document::stream_part(v, p) && match p {
            Some(d) => r matches Some(x) && x@ == d,
            None => r is None,
        }),
{
    let got = dict_get(file, descendant, "CIDToGIDMap");
    let ghost entry = dict_lookup(descendant@, "CIDToGIDMap"@);
    let ghost direct = entry is Some && crate::document::direct_part(entry->0);
    match got {
        Some(Object::Stream(s)) => {
            let res = file.decode_stream(&s);
            proof {
                if direct {
                    assert(entry->0 == ObjectView::Stream(s.dict@, s.raw@));
                    lemma_decode_outcome(s.dict@, s.raw@, res);
                }
            }
            match res {
                Ok(d) => {
                    proof {
                        if direct {
                            assert(crate::document::stream_part(entry->0, Some(d.data@)));
                        }
                    }
                    Some(d.data)
                },
                Err(_) => {
                    proof {
                        if direct {
                            assert(crate::document::stream_part(entry->0, None::<Seq<u8>>));
                        }
                    }
                    None
                },
            }
        },
        _ => {
            proof {
                if direct {
                    assert(crate::document::stream_part(entry->0, None::<Seq<u8>>));
                }
            }
            None
        },
    }
}

} // verus!
