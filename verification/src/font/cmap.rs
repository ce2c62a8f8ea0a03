//! CMap parsing: ToUnicode maps and CID encodings.
//!
//! CMap files are PostScript-flavoured, but their payload lines are plain COS objects between
//! `begin.../end...` keywords, so the content-stream tokenizer parses them directly: operands
//! accumulate and arrive attached to the `end...` operator.

use std::collections::HashMap;

use vstd::prelude::*;

use crate::font::encoding::{glyph_name_to_unicode, glyph_unicode};
use crate::content::{operations, operations_from, Operation, OperationView};
use crate::lexer::items_view;
use crate::object::{Object, ObjectView};
use crate::text::{
    chars_of, chars_start_with, seq_starts_with, str_eq, string_from_chars, string_from_utf16_lossy, utf16_lossy,
};

verus! {

broadcast use vstd::std_specs::hash::group_hash_axioms;

/// `256^k`.
pub open spec fn pow256(k: nat) -> int
    decreases k,
{
    if k == 0 {
        1
    } else {
        256 * pow256((k - 1) as nat)
    }
}

/// The value of `s` read as a big-endian number.
pub open spec fn be_value(s: Seq<u8>) -> int
    decreases s.len(),
{
    if s.len() == 0 {
        0
    } else {
        be_value(s.drop_last()) * 256 + s.last()
    }
}

/// The code of a byte string: its first four bytes (or fewer) read as a big-endian number.
pub open spec fn spec_be(b: Seq<u8>) -> u32 {
    be_value(b.subrange(0, if b.len() < 4 {
        b.len() as int
    } else {
        4
    })) as u32
}

/// The first four bytes (or fewer) of `bytes` read as a big-endian number.
pub fn be(bytes: &[u8]) -> (r: u32)
    ensures
        r == spec_be(bytes@),
        r == be_value(bytes@.subrange(0, if bytes@.len() < 4 {
            bytes@.len() as int
        } else {
            4
        })),
{
    let n: usize = if bytes.len() < 4 {
        bytes.len()
    } else {
        4
    };
    let mut v: u64 = 0;
    let mut k: usize = 0;
    while k < n
        invariant
            n <= 4,
            n <= bytes@.len(),
            k <= n,
            v == be_value(bytes@.subrange(0, k as int)),
            v < pow256(k as nat),
        decreases n - k,
    {
        assert(bytes@.subrange(0, k + 1).drop_last() =~= bytes@.subrange(0, k as int));
        proof {
            reveal_with_fuel(pow256, 5);
        }
        v = v * 256 + bytes[k] as u64;
        k = k + 1;
    }
    proof {
        reveal_with_fuel(pow256, 5);
    }
    v as u32
}

/// A code space: how many bytes one character code occupies, by range.
pub struct CodeSpace {
    /// `(low, high, byte length)`, where low/high are the range ends read as big-endian.
    ranges: Vec<(u32, u32, u8)>,
}

impl View for CodeSpace {
    type V = Seq<(u32, u32, u8)>;

    closed spec fn view(&self) -> Seq<(u32, u32, u8)> {
        self.ranges@
    }
}

/// A code length of a declared range: one to four bytes.
pub open spec fn length_ok(ranges: Seq<(u32, u32, u8)>) -> bool {
    forall|i: int| 0 <= i < ranges.len() ==> 1 <= (#[trigger] ranges[i]).2 <= 4
}

/// Some range of length `len` holds `code`.
pub open spec fn code_in_space(ranges: Seq<(u32, u32, u8)>, len: int, code: u32) -> bool {
    exists|k: int|
        0 <= k < ranges.len() && (#[trigger] ranges[k]).2 == len && ranges[k].0 <= code <= ranges[k].1
}

/// The first code length, from `len` up to 4 and as long as the bytes last, whose code at `i`
/// lies in a range of that length.
pub open spec fn matching_len(ranges: Seq<(u32, u32, u8)>, b: Seq<u8>, i: int, len: int) -> Option<int>
    decreases 5 - len,
{
    if len > 4 || len < 1 || i + len > b.len() {
        None
    } else if code_in_space(ranges, len, spec_be(b.subrange(i, i + len))) {
        Some(len)
    } else {
        matching_len(ranges, b, i, len + 1)
    }
}

/// The shortest declared code length (1 with no range).
pub open spec fn shortest_len(ranges: Seq<(u32, u32, u8)>) -> int
    decreases ranges.len(),
{
    if ranges.len() == 0 {
        1
    } else if ranges.len() == 1 {
        ranges[0].2 as int
    } else {
        let rest = shortest_len(ranges.drop_first());
        if (ranges[0].2 as int) < rest {
            ranges[0].2 as int
        } else {
            rest
        }
    }
}

/// The codes of `b` from `i`: greedily, the first length whose code lies in a range of that
/// length; with no match, the shortest declared length (or what is left) so that malformed
/// strings cannot stall. A code space never declares a zero length.
pub open spec fn codes_from(ranges: Seq<(u32, u32, u8)>, b: Seq<u8>, i: int) -> Seq<u32>
    decreases b.len() - i,
{
    if i < 0 || i >= b.len() {
        Seq::empty()
    } else {
        let len = match matching_len(ranges, b, i, 1) {
            Some(l) => l,
            None => {
                let s = shortest_len(ranges);
                if s < b.len() - i {
                    s
                } else {
                    b.len() - i
                }
            },
        };
        if len < 1 || i + len > b.len() {
            Seq::empty()
        } else {
            seq![spec_be(b.subrange(i, i + len))] + codes_from(ranges, b, i + len)
        }
    }
}

proof fn lemma_matching_len_is(ranges: Seq<(u32, u32, u8)>, b: Seq<u8>, i: int, len: int, from: int)
    requires
        0 <= i,
        1 <= from <= len <= 4,
        i + len <= b.len(),
        code_in_space(ranges, len, spec_be(b.subrange(i, i + len))),
        forall|l: int|
            from <= l < len ==> !code_in_space(ranges, l, #[trigger] spec_be(b.subrange(i, i + l))),
    ensures
        matching_len(ranges, b, i, from) == Some(len),
    decreases len - from,
{
    if from < len {
        lemma_matching_len_is(ranges, b, i, len, from + 1);
    }
}

/// Codes are read greedily by the code space: where the first `len` bytes from `i` make a code
/// in a declared range of that length, and no shorter length does, those bytes are the next
/// code, read big-endian, and reading goes on after them.
pub proof fn codes_take_the_shortest_declared_length(ranges: Seq<(u32, u32, u8)>, b: Seq<u8>, i: int, len: int)
    requires
        0 <= i,
        1 <= len <= 4,
        i + len <= b.len(),
        code_in_space(ranges, len, spec_be(b.subrange(i, i + len))),
        forall|l: int| 1 <= l < len ==> !code_in_space(ranges, l, #[trigger] spec_be(b.subrange(i, i + l))),
    ensures
        codes_from(ranges, b, i) == seq![spec_be(b.subrange(i, i + len))] + codes_from(ranges, b, i + len),
{
    lemma_matching_len_is(ranges, b, i, len, 1);
}

/// With no code space declared, every byte is one code.
pub proof fn without_a_code_space_each_byte_is_a_code(b: Seq<u8>, i: int)
    requires
        0 <= i < b.len(),
    ensures
        spec_decode_codes(Seq::empty(), b).len() == b.len(),
        spec_decode_codes(Seq::empty(), b)[i] == b[i] as u32,
{
}

/// The character codes of `b` under a code space: one code per byte when the space is empty.
pub open spec fn spec_decode_codes(ranges: Seq<(u32, u32, u8)>, b: Seq<u8>) -> Seq<u32> {
    if ranges.len() == 0 {
        b.map_values(|x: u8| x as u32)
    } else {
        codes_from(ranges, b, 0)
    }
}

proof fn lemma_shortest_len(ranges: Seq<(u32, u32, u8)>)
    requires
        length_ok(ranges),
    ensures
        1 <= shortest_len(ranges) <= 4,
        ranges.len() > 0 ==> exists|k: int| 0 <= k < ranges.len() && ranges[k].2 == shortest_len(ranges),
        forall|k: int| 0 <= k < ranges.len() ==> shortest_len(ranges) <= (#[trigger] ranges[k]).2,
    decreases ranges.len(),
{
    if ranges.len() > 1 {
        let rest = ranges.drop_first();
        assert(length_ok(rest)) by {
            assert forall|i: int| 0 <= i < rest.len() implies 1 <= (#[trigger] rest[i]).2 <= 4 by {
                assert(rest[i] == ranges[i + 1]);
            }
        }
        lemma_shortest_len(rest);
        assert forall|k: int| 0 <= k < ranges.len() implies shortest_len(ranges) <= (
        #[trigger] ranges[k]).2 by {
            if k > 0 {
                assert(ranges[k] == rest[k - 1]);
            }
        }
        if shortest_len(ranges) != ranges[0].2 {
            let k = choose|k: int| 0 <= k < rest.len() && rest[k].2 == shortest_len(rest);
            assert(ranges[k + 1] == rest[k]);
        }
    } else if ranges.len() == 1 {
        assert(ranges[0].2 == shortest_len(ranges));
    }
}

impl CodeSpace {
    /// Every declared code length is one to four bytes.
    #[verifier::type_invariant]
    closed spec fn lengths_valid(self) -> bool {
        length_ok(self.ranges@)
    }

    /// The two-byte identity code space: every code is two bytes.
    pub fn identity_two_byte() -> (r: Self)
        ensures
            r@ == seq![(0u32, 0xFFFFu32, 2u8)],
    {
        let mut ranges: Vec<(u32, u32, u8)> = Vec::new();
        ranges.push((0, 0xFFFF, 2));
        assert(ranges@ =~= seq![(0u32, 0xFFFFu32, 2u8)]);
        CodeSpace { ranges }
    }

    pub fn is_empty(&self) -> (r: bool)
        ensures
            r == (self@.len() == 0),
    {
        self.ranges.len() == 0
    }

    /// Declares the codes from `lo` to `hi`, as long as `lo` (one to four bytes).
    pub fn push(&mut self, lo: &[u8], hi: &[u8])
        ensures
            final(self)@ == old(self)@.push(
                (
                    spec_be(lo@),
                    spec_be(hi@),
                    (if lo@.len() < 1 {
                        1
                    } else if lo@.len() > 4 {
                        4
                    } else {
                        lo@.len()
                    }) as u8,
                ),
            ),
    {
        proof {
            use_type_invariant(&*self);
        }
        let n: u8 = if lo.len() < 1 {
            1
        } else if lo.len() > 4 {
            4
        } else {
            lo.len() as u8
        };
        let a = be(lo);
        let b = be(hi);
        let mut ranges: Vec<(u32, u32, u8)> = Vec::new();
        std::mem::swap(&mut ranges, &mut self.ranges);
        ranges.push((a, b, n));
        assert(length_ok(ranges@)) by {
            assert forall|i: int| 0 <= i < ranges@.len() implies 1 <= (#[trigger] ranges@[i]).2 <= 4 by {
                if i < ranges@.len() - 1 {
                    assert(ranges@[i] == old(self).ranges@[i]);
                }
            }
        }
        self.ranges = ranges;
    }

    fn in_space(&self, len: u8, code: u32) -> (r: bool)
        ensures
            r == code_in_space(self@, len as int, code),
    {
        let mut k: usize = 0;
        while k < self.ranges.len()
            invariant
                k <= self.ranges@.len(),
                forall|j: int|
                    0 <= j < k ==> !((#[trigger] self.ranges@[j]).2 == len && self.ranges@[j].0 <= code
                        <= self.ranges@[j].1),
            decreases self.ranges@.len() - k,
        {
            let (lo, hi, n) = self.ranges[k];
            if n == len && lo <= code && code <= hi {
                return true;
            }
            k = k + 1;
        }
        false
    }

    fn shortest(&self) -> (r: usize)
        ensures
            r == shortest_len(self@),
            1 <= r <= 4,
    {
        proof {
            use_type_invariant(self);
            lemma_shortest_len(self.ranges@);
        }
        let n = self.ranges.len();
        if n == 0 {
            return 1;
        }
        let mut best: usize = self.ranges[n - 1].2 as usize;
        let mut k: usize = n - 1;
        assert(self.ranges@.subrange(k as int, n as int) =~= seq![self.ranges@[k as int]]);
        while k > 0
            invariant
                0 <= k < n,
                n == self.ranges@.len(),
                best == shortest_len(self.ranges@.subrange(k as int, n as int)),
            decreases k,
        {
            k = k - 1;
            let c = self.ranges[k].2 as usize;
            let ghost sub = self.ranges@.subrange(k as int, n as int);
            assert(sub.drop_first() =~= self.ranges@.subrange(k + 1, n as int));
            if c < best {
                best = c;
            }
        }
        assert(self.ranges@.subrange(0, n as int) =~= self.ranges@);
        best
    }

    /// Splits `bytes` into character codes. Greedy: at each position the matching range wins;
    /// with no match, one byte is consumed so malformed strings cannot stall.
    pub fn decode(&self, bytes: &[u8]) -> (r: Vec<u32>)
        ensures
            r@ == spec_decode_codes(self@, bytes@),
    {
        let bl = bytes.len();
        if self.ranges.len() == 0 {
            let mut out: Vec<u32> = Vec::new();
            let mut k: usize = 0;
            while k < bl
                invariant
                    bl == bytes@.len(),
                    k <= bl,
                    out@ == bytes@.subrange(0, k as int).map_values(|x: u8| x as u32),
                decreases bl - k,
            {
                out.push(bytes[k] as u32);
                k = k + 1;
                assert(out@ =~= bytes@.subrange(0, k as int).map_values(|x: u8| x as u32));
            }
            assert(bytes@.subrange(0, bl as int) =~= bytes@);
            return out;
        }
        let shortest = self.shortest();
        let mut out: Vec<u32> = Vec::new();
        let mut i: usize = 0;
        while i < bl
            invariant
                bl == bytes@.len(),
                i <= bl,
                self@.len() > 0,
                1 <= shortest <= 4,
                shortest == shortest_len(self@),
                out@ + codes_from(self@, bytes@, i as int) == codes_from(self@, bytes@, 0),
            decreases bl - i,
        {
            let ghost before = out@;
            let mut len: usize = 1;
            let mut found = false;
            while len <= 4 && len <= bl - i && !found
                invariant
                    bl == bytes@.len(),
                    i < bl,
                    1 <= len <= 5,
                    found ==> len <= 4 && i + len <= bl && matching_len(self@, bytes@, i as int, 1)
                        == Some(len as int),
                    !found ==> matching_len(self@, bytes@, i as int, 1) == matching_len(
                        self@,
                        bytes@,
                        i as int,
                        len as int,
                    ),
                decreases 5 - len + (if found { 0int } else { 1int }),
            {
                let code = be(vstd::slice::slice_subrange(bytes, i, i + len));
                if self.in_space(len as u8, code) {
                    found = true;
                } else {
                    len = len + 1;
                }
            }
            if !found {
                assert(matching_len(self@, bytes@, i as int, len as int) is None);
                len = if shortest < bl - i {
                    shortest
                } else {
                    bl - i
                };
            }
            let code = be(vstd::slice::slice_subrange(bytes, i, i + len));
            out.push(code);
            i = i + len;
            assert(before + codes_from(self@, bytes@, (i - len) as int) =~= out@ + codes_from(
                self@,
                bytes@,
                i as int,
            ));
        }
        assert(out@ + codes_from(self@, bytes@, i as int) =~= out@);
        out
    }
}

impl Default for CodeSpace {
    /// The empty code space, in which every byte is one code.
    fn default() -> (r: Self)
        ensures
            r@ == Seq::<(u32, u32, u8)>::empty(),
    {
        let r = CodeSpace { ranges: Vec::new() };
        assert(r@ =~= Seq::<(u32, u32, u8)>::empty());
        r
    }
}

// ---- targets -------------------------------------------------------------------------------

/// The UTF-16 units of a byte string: big-endian pairs, a lone final byte standing alone.
pub open spec fn spec_utf16_units(b: Seq<u8>) -> Seq<u16> {
    Seq::new(
        ((b.len() + 1) / 2) as nat,
        |k: int|
            if 2 * k + 1 < b.len() {
                (b[2 * k] * 256 + b[2 * k + 1]) as u16
            } else {
                b[2 * k] as u16
            },
    )
}

/// The UTF-16 units of a byte string: big-endian pairs, a lone final byte standing alone.
pub fn utf16_units(bytes: &[u8]) -> (r: Vec<u16>)
    ensures
        r@ == spec_utf16_units(bytes@),
{
    let bl = bytes.len();
    let mut out: Vec<u16> = Vec::new();
    let mut k: usize = 0;
    while k < bl
        invariant
            bl == bytes@.len(),
            k <= bl,
            k % 2 == 0 || k == bl,
            out@.len() == (k + 1) / 2,
            forall|j: int| 0 <= j < out@.len() ==> #[trigger] out@[j] == spec_utf16_units(bytes@)[j],
        decreases bl - k,
    {
        if bl - k >= 2 {
            out.push((bytes[k] as u16) * 256 + bytes[k + 1] as u16);
            k = k + 2;
        } else {
            out.push(bytes[k] as u16);
            k = k + 1;
        }
    }
    assert(out@ =~= spec_utf16_units(bytes@));
    out
}

/// What a `bfchar` or `bfrange` destination maps to: a string is UTF-16BE text, a name a glyph
/// name.
pub open spec fn spec_unicode_target(o: ObjectView) -> Option<Seq<char>> {
    match o {
        ObjectView::Str(b) => Some(utf16_lossy(spec_utf16_units(b))),
        ObjectView::Name(n) => glyph_unicode(n),
        _ => None,
    }
}

pub fn unicode_target(obj: &Object) -> (r: Option<String>)
    ensures
        match r {
            Some(s) => spec_unicode_target(obj@) == Some(s@),
            None => spec_unicode_target(obj@) is None,
        },
{
    match obj {
        Object::String(bytes) => Some(string_from_utf16_lossy(utf16_units(bytes.as_slice()).as_slice())),
        Object::Name(n) => glyph_name_to_unicode(n.as_str()),
        _ => None,
    }
}

/// The targets among `items`, skipping those that map to nothing.
pub open spec fn targets_among(items: Seq<ObjectView>) -> Seq<Seq<char>>
    decreases items.len(),
{
    if items.len() == 0 {
        Seq::empty()
    } else {
        let rest = targets_among(items.drop_last());
        match spec_unicode_target(items.last()) {
            Some(s) => rest.push(s),
            None => rest,
        }
    }
}

/// `s` without its NUL and U+FFFD characters.
pub open spec fn without_nul(s: Seq<char>) -> Seq<char>
    decreases s.len(),
{
    if s.len() == 0 {
        s
    } else {
        let rest = without_nul(s.drop_last());
        if s.last() != '\0' && s.last() != '\u{FFFD}' {
            rest.push(s.last())
        } else {
            rest
        }
    }
}

/// A mapping with NUL and U+FFFD removed; empty means no mapping. Some producers map
/// unmappable glyphs to U+0000 or the empty string.
pub open spec fn spec_non_empty(s: Seq<char>) -> Option<Seq<char>> {
    let f = without_nul(s);
    if f.len() == 0 {
        None
    } else {
        Some(f)
    }
}

fn non_empty(s: &str) -> (r: Option<String>)
    ensures
        match r {
            Some(x) => spec_non_empty(s@) == Some(x@),
            None => spec_non_empty(s@) is None,
        },
{
    let cs = chars_of(s);
    let mut out: Vec<char> = Vec::new();
    let mut k: usize = 0;
    while k < cs.len()
        invariant
            cs@ == s@,
            k <= cs@.len(),
            out@ == without_nul(cs@.subrange(0, k as int)),
        decreases cs@.len() - k,
    {
        let c = cs[k];
        let ghost pre = cs@.subrange(0, k as int);
        assert(cs@.subrange(0, k + 1).drop_last() =~= pre);
        if c != '\0' && c != '\u{FFFD}' {
            out.push(c);
        }
        k = k + 1;
    }
    assert(cs@.subrange(0, k as int) =~= s@);
    if out.len() == 0 {
        None
    } else {
        Some(string_from_chars(out.as_slice()))
    }
}

// ---- the map -------------------------------------------------------------------------------

/// A parsed CMap: code → CID and/or code → Unicode.
pub struct CMap {
    codespace: CodeSpace,
    cid_singles: HashMap<u32, u32>,
    cid_ranges: Vec<(u32, u32, u32)>,
    uni_singles: HashMap<u32, String>,
    /// `(lo, hi, base)`: base's last UTF-16 unit increments with the code.
    uni_ranges: Vec<(u32, u32, Vec<u16>)>,
    /// `(lo, [dst...])` from the array form of bfrange.
    uni_arrays: Vec<(u32, Vec<String>)>,
    /// Whether the map is (or uses) the identity CID mapping.
    identity_cid: bool,
}

/// What a [`CMap`] holds.
pub struct CMapView {
    pub codespace: Seq<(u32, u32, u8)>,
    pub cid_singles: Map<u32, u32>,
    pub cid_ranges: Seq<(u32, u32, u32)>,
    pub uni_singles: Map<u32, Seq<char>>,
    pub uni_ranges: Seq<(u32, u32, Seq<u16>)>,
    pub uni_arrays: Seq<(u32, Seq<Seq<char>>)>,
    pub identity_cid: bool,
}

pub open spec fn strings_view(s: Seq<String>) -> Seq<Seq<char>> {
    s.map_values(|x: String| x@)
}

impl View for CMap {
    type V = CMapView;

    closed spec fn view(&self) -> CMapView {
        CMapView {
            codespace: self.codespace@,
            cid_singles: self.cid_singles@,
            cid_ranges: self.cid_ranges@,
            uni_singles: self.uni_singles@.map_values(|s: String| s@),
            uni_ranges: self.uni_ranges@.map_values(|t: (u32, u32, Vec<u16>)| (t.0, t.1, t.2@)),
            uni_arrays: self.uni_arrays@.map_values(
                |t: (u32, Vec<String>)| (t.0, strings_view(t.1@)),
            ),
            identity_cid: self.identity_cid,
        }
    }
}

/// The empty map.
pub open spec fn empty_cmap() -> CMapView {
    CMapView {
        codespace: Seq::empty(),
        cid_singles: Map::empty(),
        cid_ranges: Seq::empty(),
        uni_singles: Map::empty(),
        uni_ranges: Seq::empty(),
        uni_arrays: Seq::empty(),
        identity_cid: false,
    }
}

/// The first of `ranges` from `k` on that holds `code`.
pub open spec fn first_holding<T>(ranges: Seq<(u32, u32, T)>, code: u32, k: int) -> Option<int>
    decreases ranges.len() - k,
{
    if k < 0 || k >= ranges.len() {
        None
    } else if ranges[k].0 <= code <= ranges[k].1 {
        Some(k)
    } else {
        first_holding(ranges, code, k + 1)
    }
}

/// The first array mapping from `k` on whose destinations reach `code`.
pub open spec fn first_array(arrays: Seq<(u32, Seq<Seq<char>>)>, code: u32, k: int) -> Option<int>
    decreases arrays.len() - k,
{
    if k < 0 || k >= arrays.len() {
        None
    } else if code >= arrays[k].0 && code - arrays[k].0 < arrays[k].1.len() {
        Some(k)
    } else {
        first_array(arrays, code, k + 1)
    }
}

/// The CID of `code`: a single mapping first, then the first range holding it (its base plus
/// the offset, wrapping at 2^32), then the code itself under an identity map, else 0.
pub open spec fn spec_cid(m: CMapView, code: u32) -> u32 {
    if m.cid_singles.contains_key(code) {
        m.cid_singles[code]
    } else {
        match first_holding(m.cid_ranges, code, 0) {
            Some(k) => ((m.cid_ranges[k].2 + (code - m.cid_ranges[k].0)) % 0x1_0000_0000) as u32,
            None => if m.identity_cid {
                code
            } else {
                0
            },
        }
    }
}

/// The text of `code`: a single mapping first, then an array mapping, then the first range
/// holding it, whose base has its last UTF-16 unit advanced (wrapping) by the offset. Mappings
/// that are empty after removing NUL and U+FFFD count as none.
pub open spec fn spec_unicode(m: CMapView, code: u32) -> Option<Seq<char>> {
    if m.uni_singles.contains_key(code) {
        spec_non_empty(m.uni_singles[code])
    } else {
        match first_array(m.uni_arrays, code, 0) {
            Some(k) => spec_non_empty(m.uni_arrays[k].1[code - m.uni_arrays[k].0]),
            None => match first_holding(m.uni_ranges, code, 0) {
                Some(k) => {
                    let base = m.uni_ranges[k].2;
                    if base.len() == 0 {
                        None
                    } else {
                        let last = base.last();
                        let units = base.update(
                            base.len() - 1,
                            ((last + (code - m.uni_ranges[k].0) % 0x1_0000) % 0x1_0000) as u16,
                        );
                        spec_non_empty(utf16_lossy(units))
                    }
                },
                None => None,
            },
        }
    }
}

/// No range before `k` holds `code` and range `k` does: `k` is the first range holding it.
proof fn lemma_first_holding_is<T>(ranges: Seq<(u32, u32, T)>, code: u32, k: int, from: int)
    requires
        0 <= from <= k < ranges.len(),
        ranges[k].0 <= code <= ranges[k].1,
        forall|j: int| from <= j < k ==> !(#[trigger] ranges[j].0 <= code <= ranges[j].1),
    ensures
        first_holding(ranges, code, from) == Some(k),
    decreases k - from,
{
    if from < k {
        lemma_first_holding_is(ranges, code, k, from + 1);
    }
}

/// No array mapping from `from` on reaches `code`.
proof fn lemma_no_array(arrays: Seq<(u32, Seq<Seq<char>>)>, code: u32, from: int)
    requires
        0 <= from,
        forall|j: int|
            0 <= j < arrays.len() ==> !(code >= #[trigger] arrays[j].0 && code - arrays[j].0 < arrays[j].1.len()),
    ensures
        first_array(arrays, code, from) is None,
    decreases arrays.len() - from,
{
    if from < arrays.len() {
        lemma_no_array(arrays, code, from + 1);
    }
}

/// A `bfrange <lo> <hi> <base>` maps every code from `lo` to `hi`, both ends included, that no
/// single or array mapping claims and no earlier range holds: to `base` with its last UTF-16
/// unit advanced by `code - lo` (wrapping at 2^16), or to nothing when `base` is empty.
pub proof fn bfrange_codes_advance_the_base(m: CMapView, code: u32, k: int)
    requires
        !m.uni_singles.contains_key(code),
        forall|j: int|
            0 <= j < m.uni_arrays.len() ==> !(code >= #[trigger] m.uni_arrays[j].0 && code - m.uni_arrays[j].0
                < m.uni_arrays[j].1.len()),
        0 <= k < m.uni_ranges.len(),
        m.uni_ranges[k].0 <= code <= m.uni_ranges[k].1,
        forall|j: int| 0 <= j < k ==> !(#[trigger] m.uni_ranges[j].0 <= code <= m.uni_ranges[j].1),
    ensures
        ({
            let lo = m.uni_ranges[k].0;
            let base = m.uni_ranges[k].2;
            spec_unicode(m, code) == if base.len() == 0 {
                None
            } else {
                spec_non_empty(
                    utf16_lossy(
                        base.update(base.len() - 1, ((base.last() + (code - lo)) % 0x1_0000) as u16),
                    ),
                )
            }
        }),
{
    lemma_no_array(m.uni_arrays, code, 0);
    lemma_first_holding_is(m.uni_ranges, code, k, 0);
    let lo = m.uni_ranges[k].0;
    let base = m.uni_ranges[k].2;
    if base.len() > 0 {
        let a = base.last() as int;
        let b = (code - lo) as int;
        assert((a + b % 0x1_0000) % 0x1_0000 == (a + b) % 0x1_0000) by (nonlinear_arith)
            requires
                a >= 0,
                b >= 0,
        ;
    }
}

/// A code with a single (`bfchar`) mapping takes it, whatever ranges or arrays also hold it.
pub proof fn single_mappings_come_first(m: CMapView, code: u32)
    requires
        m.uni_singles.contains_key(code),
    ensures
        spec_unicode(m, code) == spec_non_empty(m.uni_singles[code]),
{
}

/// A code reached by an array destination `bfrange <lo> <hi> [d0 d1 ...]` (the first such array,
/// with no single mapping for the code) takes the destination at `code - lo`.
pub proof fn array_destinations_are_taken_in_order(m: CMapView, code: u32, k: int)
    requires
        !m.uni_singles.contains_key(code),
        0 <= k < m.uni_arrays.len(),
        code >= m.uni_arrays[k].0,
        code - m.uni_arrays[k].0 < m.uni_arrays[k].1.len(),
        forall|j: int|
            0 <= j < k ==> !(code >= #[trigger] m.uni_arrays[j].0 && code - m.uni_arrays[j].0
                < m.uni_arrays[j].1.len()),
    ensures
        spec_unicode(m, code) == spec_non_empty(m.uni_arrays[k].1[code - m.uni_arrays[k].0]),
{
    lemma_first_array_is(m.uni_arrays, code, k, 0);
}

proof fn lemma_first_array_is(arrays: Seq<(u32, Seq<Seq<char>>)>, code: u32, k: int, from: int)
    requires
        0 <= from <= k < arrays.len(),
        code >= arrays[k].0,
        code - arrays[k].0 < arrays[k].1.len(),
        forall|j: int|
            from <= j < k ==> !(code >= #[trigger] arrays[j].0 && code - arrays[j].0 < arrays[j].1.len()),
    ensures
        first_array(arrays, code, from) == Some(k),
    decreases k - from,
{
    if from < k {
        lemma_first_array_is(arrays, code, k, from + 1);
    }
}

/// The CID of a code with a single (`cidchar`) mapping is that mapping.
pub proof fn single_cids_come_first(m: CMapView, code: u32)
    requires
        m.cid_singles.contains_key(code),
    ensures
        spec_cid(m, code) == m.cid_singles[code],
{
}

/// A `cidrange <lo> <hi> <cid>` maps every code from `lo` to `hi`, both ends included, that no
/// single mapping claims and no earlier range holds, to `cid + (code - lo)` (wrapping at 2^32).
pub proof fn cidrange_codes_advance_the_base(m: CMapView, code: u32, k: int)
    requires
        !m.cid_singles.contains_key(code),
        0 <= k < m.cid_ranges.len(),
        m.cid_ranges[k].0 <= code <= m.cid_ranges[k].1,
        forall|j: int| 0 <= j < k ==> !(#[trigger] m.cid_ranges[j].0 <= code <= m.cid_ranges[j].1),
    ensures
        spec_cid(m, code) == (m.cid_ranges[k].2 + (code - m.cid_ranges[k].0)) % 0x1_0000_0000,
{
    lemma_first_holding_is(m.cid_ranges, code, k, 0);
}

// ---- parsing -------------------------------------------------------------------------------

pub open spec fn clamp_len(n: nat) -> u8 {
    (if n < 1 {
        1
    } else if n > 4 {
        4
    } else {
        n
    }) as u8
}

/// The first `k` operand pairs of `endcodespacerange` added to `cs`: each pair of strings
/// declares a range.
pub open spec fn codespace_fold(a: Seq<ObjectView>, cs: Seq<(u32, u32, u8)>, k: nat) -> Seq<
    (u32, u32, u8),
>
    decreases k,
{
    if k == 0 {
        cs
    } else {
        let prev = codespace_fold(a, cs, (k - 1) as nat);
        let j = 2 * (k - 1);
        match (a[j], a[j + 1]) {
            (ObjectView::Str(lo), ObjectView::Str(hi)) => prev.push(
                (spec_be(lo), spec_be(hi), clamp_len(lo.len())),
            ),
            _ => prev,
        }
    }
}

/// The first `k` operand pairs of `endbfchar` added to `singles`: a string source and a
/// destination with a target; later pairs replace earlier ones.
pub open spec fn bfchar_fold(a: Seq<ObjectView>, singles: Map<u32, Seq<char>>, k: nat) -> Map<
    u32,
    Seq<char>,
>
    decreases k,
{
    if k == 0 {
        singles
    } else {
        let prev = bfchar_fold(a, singles, (k - 1) as nat);
        let j = 2 * (k - 1);
        match a[j] {
            ObjectView::Str(src) => match spec_unicode_target(a[j + 1]) {
                Some(s) => prev.insert(spec_be(src), s),
                None => prev,
            },
            _ => prev,
        }
    }
}

/// The first `k` operand triples of `endbfrange` added: a string destination becomes a range
/// with a base, an array destination a list of targets.
pub open spec fn bfrange_fold(
    a: Seq<ObjectView>,
    ranges: Seq<(u32, u32, Seq<u16>)>,
    arrays: Seq<(u32, Seq<Seq<char>>)>,
    k: nat,
) -> (Seq<(u32, u32, Seq<u16>)>, Seq<(u32, Seq<Seq<char>>)>)
    decreases k,
{
    if k == 0 {
        (ranges, arrays)
    } else {
        let prev = bfrange_fold(a, ranges, arrays, (k - 1) as nat);
        let j = 3 * (k - 1);
        match (a[j], a[j + 1]) {
            (ObjectView::Str(lo), ObjectView::Str(hi)) => match a[j + 2] {
                ObjectView::Str(base) => (
                    prev.0.push((spec_be(lo), spec_be(hi), spec_utf16_units(base))),
                    prev.1,
                ),
                ObjectView::Array(items) => (prev.0, prev.1.push((spec_be(lo), targets_among(items)))),
                _ => prev,
            },
            _ => prev,
        }
    }
}

/// The first `k` operand pairs of `endcidchar` added: a string source and an integer CID
/// (taken modulo 2^32).
pub open spec fn cidchar_fold(a: Seq<ObjectView>, singles: Map<u32, u32>, k: nat) -> Map<u32, u32>
    decreases k,
{
    if k == 0 {
        singles
    } else {
        let prev = cidchar_fold(a, singles, (k - 1) as nat);
        let j = 2 * (k - 1);
        match (a[j], a[j + 1]) {
            (ObjectView::Str(src), ObjectView::Int(cid)) => prev.insert(spec_be(src), cid as u32),
            _ => prev,
        }
    }
}

/// The first `k` operand triples of `endcidrange` added: two strings and an integer base CID.
pub open spec fn cidrange_fold(a: Seq<ObjectView>, ranges: Seq<(u32, u32, u32)>, k: nat) -> Seq<
    (u32, u32, u32),
>
    decreases k,
{
    if k == 0 {
        ranges
    } else {
        let prev = cidrange_fold(a, ranges, (k - 1) as nat);
        let j = 3 * (k - 1);
        match (a[j], a[j + 1], a[j + 2]) {
            (ObjectView::Str(lo), ObjectView::Str(hi), ObjectView::Int(cid)) => prev.push(
                (spec_be(lo), spec_be(hi), cid as u32),
            ),
            _ => prev,
        }
    }
}

/// Some operand names an `Identity` parent map.
pub open spec fn uses_identity(a: Seq<ObjectView>) -> bool {
    exists|i: int| 0 <= i < a.len() && names_identity(#[trigger] a[i])
}

/// The object is a name that starts with `Identity`.
pub open spec fn names_identity(o: ObjectView) -> bool {
    o matches ObjectView::Name(n) && seq_starts_with(n, "Identity"@)
}

/// One operation of a CMap applied to the map read so far.
pub open spec fn apply_op(op: OperationView, m: CMapView) -> CMapView {
    let a = op.operands;
    if op.operator == "endcodespacerange"@ {
        CMapView { codespace: codespace_fold(a, m.codespace, a.len() / 2), ..m }
    } else if op.operator == "endbfchar"@ {
        CMapView { uni_singles: bfchar_fold(a, m.uni_singles, a.len() / 2), ..m }
    } else if op.operator == "endbfrange"@ {
        let r = bfrange_fold(a, m.uni_ranges, m.uni_arrays, a.len() / 3);
        CMapView { uni_ranges: r.0, uni_arrays: r.1, ..m }
    } else if op.operator == "endcidchar"@ {
        CMapView { cid_singles: cidchar_fold(a, m.cid_singles, a.len() / 2), ..m }
    } else if op.operator == "endcidrange"@ {
        CMapView { cid_ranges: cidrange_fold(a, m.cid_ranges, a.len() / 3), ..m }
    } else if op.operator == "usecmap"@ && uses_identity(a) {
        CMapView { identity_cid: true, ..m }
    } else {
        m
    }
}

/// Source codes are read big-endian: one byte is its value, and each further byte (up to four)
/// shifts what came before by eight bits.
pub proof fn source_codes_are_big_endian(s: Seq<u8>, b: u8)
    ensures
        spec_be(seq![b]) == b,
        s.len() < 4 ==> spec_be(s.push(b)) == spec_be(s) * 256 + b,
{
    assert(seq![b].subrange(0, 1) =~= seq![b]);
    assert(seq![b].drop_last() =~= Seq::<u8>::empty());
    assert(be_value(seq![b]) == be_value(Seq::<u8>::empty()) * 256 + b);
    if s.len() < 4 {
        let t = s.push(b);
        assert(t.subrange(0, t.len() as int) =~= t);
        assert(s.subrange(0, s.len() as int) =~= s);
        assert(t.drop_last() =~= s);
        lemma_be_value_bound(s);
        assert(pow256_int(s.len()) <= 16777216) by {
            reveal_with_fuel(pow256_int, 4);
        }
        assert(be_value(s) * 256 + b < 0x1_0000_0000) by (nonlinear_arith)
            requires
                be_value(s) < pow256_int(s.len()),
                pow256_int(s.len()) <= 16777216,
                b < 256,
        ;
    }
}

/// 256 to the `n`.
pub open spec fn pow256_int(n: nat) -> int
    decreases n,
{
    if n == 0 {
        1
    } else {
        256 * pow256_int((n - 1) as nat)
    }
}

proof fn lemma_be_value_bound(s: Seq<u8>)
    ensures
        0 <= be_value(s) < pow256_int(s.len()),
    decreases s.len(),
{
    if s.len() > 0 {
        lemma_be_value_bound(s.drop_last());
        let v = be_value(s.drop_last());
        let p = pow256_int(s.drop_last().len());
        assert(v * 256 + s.last() < 256 * p) by (nonlinear_arith)
            requires
                0 <= v < p,
                s.last() < 256,
        ;
    }
}

/// A `bfrange` entry with a string destination records its two ends as written (both are kept,
/// the range including `hi`) and its destination's UTF-16 units; nothing else changes.
pub proof fn bfrange_entries_are_recorded(op: OperationView, m: CMapView, lo: Seq<u8>, hi: Seq<u8>, base: Seq<u8>)
    requires
        op.operator == "endbfrange"@,
        op.operands == seq![ObjectView::Str(lo), ObjectView::Str(hi), ObjectView::Str(base)],
    ensures
        ({
            apply_op(op, m) == CMapView {
                uni_ranges: m.uni_ranges.push((spec_be(lo), spec_be(hi), spec_utf16_units(base))),
                ..m
            }
        }),
{
    reveal_strlit("endbfrange");
    reveal_strlit("endcodespacerange");
    reveal_strlit("endbfchar");
    let a = op.operands;
    assert("endbfrange"@.len() == 10 && "endcodespacerange"@.len() == 17 && "endbfchar"@.len() == 9);
    assert(a.len() / 3 == 1);
    assert(a[0] == ObjectView::Str(lo) && a[1] == ObjectView::Str(hi) && a[2] == ObjectView::Str(base));
    assert(bfrange_fold(a, m.uni_ranges, m.uni_arrays, 0) == (m.uni_ranges, m.uni_arrays));
    assert(bfrange_fold(a, m.uni_ranges, m.uni_arrays, 1) == (
        m.uni_ranges.push((spec_be(lo), spec_be(hi), spec_utf16_units(base))),
        m.uni_arrays,
    ));
}

/// A `cidrange` entry records its two ends as written (the range including `hi`) and its base
/// CID; nothing else changes.
pub proof fn cidrange_entries_are_recorded(op: OperationView, m: CMapView, lo: Seq<u8>, hi: Seq<u8>, cid: i64)
    requires
        op.operator == "endcidrange"@,
        op.operands == seq![ObjectView::Str(lo), ObjectView::Str(hi), ObjectView::Int(cid)],
    ensures
        ({
            apply_op(op, m) == CMapView { cid_ranges: m.cid_ranges.push((spec_be(lo), spec_be(hi), cid as u32)), ..m }
        }),
{
    reveal_strlit("endbfrange");
    reveal_strlit("endcodespacerange");
    reveal_strlit("endbfchar");
    reveal_strlit("endcidchar");
    reveal_strlit("endcidrange");
    let a = op.operands;
    assert("endcidrange"@.len() == 11 && "endcodespacerange"@.len() == 17 && "endbfchar"@.len() == 9
        && "endbfrange"@.len() == 10 && "endcidchar"@.len() == 10);
    assert("endcidrange"@[3] != "endbfrange"@[3]);
    assert("endcidrange"@[3] != "endcidchar"@[3] || "endcidrange"@.len() != "endcidchar"@.len());
    assert(a.len() / 3 == 1);
    assert(a[0] == ObjectView::Str(lo) && a[1] == ObjectView::Str(hi) && a[2] == ObjectView::Int(cid));
    assert(cidrange_fold(a, m.cid_ranges, 0) == m.cid_ranges);
    assert(cidrange_fold(a, m.cid_ranges, 1) == m.cid_ranges.push((spec_be(lo), spec_be(hi), cid as u32)));
}

/// A `bfchar` entry with a string destination maps its source code to the destination's text,
/// replacing any earlier single mapping of that code; nothing else changes.
pub proof fn bfchar_entries_are_recorded(op: OperationView, m: CMapView, src: Seq<u8>, dst: Seq<u8>)
    requires
        op.operator == "endbfchar"@,
        op.operands == seq![ObjectView::Str(src), ObjectView::Str(dst)],
    ensures
        ({
            apply_op(op, m) == CMapView {
                uni_singles: m.uni_singles.insert(spec_be(src), utf16_lossy(spec_utf16_units(dst))),
                ..m
            }
        }),
{
    reveal_strlit("endcodespacerange");
    reveal_strlit("endbfchar");
    let a = op.operands;
    assert("endbfchar"@.len() == 9 && "endcodespacerange"@.len() == 17);
    assert(a.len() / 2 == 1);
    assert(a[0] == ObjectView::Str(src) && a[1] == ObjectView::Str(dst));
    assert(spec_unicode_target(a[1]) == Some(utf16_lossy(spec_utf16_units(dst))));
    assert(bfchar_fold(a, m.uni_singles, 0) == m.uni_singles);
    assert(bfchar_fold(a, m.uni_singles, 1) == m.uni_singles.insert(spec_be(src), utf16_lossy(spec_utf16_units(dst))));
}

/// Destination strings are UTF-16 big-endian: each pair of bytes is one unit, the first byte
/// the high half.
pub proof fn destinations_are_utf16_big_endian(b: Seq<u8>, k: int)
    requires
        0 <= k,
        2 * k + 1 < b.len(),
    ensures
        spec_utf16_units(b).len() == (b.len() + 1) / 2,
        spec_utf16_units(b)[k] == b[2 * k] * 256 + b[2 * k + 1],
{
    assert(b[2 * k] * 256 + b[2 * k + 1] < 0x1_0000) by (nonlinear_arith)
        requires
            b[2 * k] < 256,
            b[2 * k + 1] < 256,
    ;
}

/// The map after the first `k` operations.
pub open spec fn parse_prefix(ops: Seq<OperationView>, k: nat) -> CMapView
    decreases k,
{
    if k == 0 {
        empty_cmap()
    } else {
        apply_op(ops[k - 1], parse_prefix(ops, (k - 1) as nat))
    }
}

/// Some single mapping or range reaches past one byte.
pub open spec fn has_wide_codes(m: CMapView) -> bool {
    ||| exists|c: u32| #[trigger] m.uni_singles.contains_key(c) && c > 0xFF
    ||| exists|i: int| 0 <= i < m.uni_ranges.len() && (#[trigger] m.uni_ranges[i]).1 > 0xFF
}

/// A ToUnicode map without codespace: the byte length inferred from the widest key.
pub open spec fn with_default_space(m: CMapView) -> CMapView {
    if m.codespace.len() == 0 {
        CMapView {
            codespace: seq![
                if has_wide_codes(m) {
                    (0u32, 0xFFFFu32, 2u8)
                } else {
                    (0u32, 0xFFu32, 1u8)
                },
            ],
            ..m
        }
    } else {
        m
    }
}

/// A CMap read from its text.
pub open spec fn spec_parse(d: Seq<u8>) -> CMapView {
    let ops = operations_from(d, 0, Seq::empty());
    with_default_space(parse_prefix(ops, ops.len()))
}

/// The identity map: two-byte codes that are their own CIDs.
pub open spec fn identity_cmap() -> CMapView {
    CMapView { codespace: seq![(0u32, 0xFFFFu32, 2u8)], identity_cid: true, ..empty_cmap() }
}

/// The map has some code-to-text mapping.
pub open spec fn spec_has_unicode(m: CMapView) -> bool {
    !m.uni_singles.is_empty() || m.uni_ranges.len() > 0 || m.uni_arrays.len() > 0
}

impl CodeSpace {
    fn push_range(&mut self, lo: u32, hi: u32, n: u8)
        requires
            1 <= n <= 4,
        ensures
            final(self)@ == old(self)@.push((lo, hi, n)),
    {
        proof {
            use_type_invariant(&*self);
        }
        let mut ranges: Vec<(u32, u32, u8)> = Vec::new();
        std::mem::swap(&mut ranges, &mut self.ranges);
        ranges.push((lo, hi, n));
        assert(length_ok(ranges@)) by {
            assert forall|i: int| 0 <= i < ranges@.len() implies 1 <= (#[trigger] ranges@[i]).2 <= 4 by {
                if i < ranges@.len() - 1 {
                    assert(ranges@[i] == old(self).ranges@[i]);
                }
            }
        }
        self.ranges = ranges;
    }
}

impl CMap {
    fn empty() -> (r: Self)
        ensures
            r@ == empty_cmap(),
    {
        let r = CMap {
            codespace: CodeSpace::default(),
            cid_singles: HashMap::new(),
            cid_ranges: Vec::new(),
            uni_singles: HashMap::new(),
            uni_ranges: Vec::new(),
            uni_arrays: Vec::new(),
            identity_cid: false,
        };
        assert(r@.uni_singles =~= Map::<u32, Seq<char>>::empty());
        assert(r@.uni_ranges =~= Seq::<(u32, u32, Seq<u16>)>::empty());
        assert(r@.uni_arrays =~= Seq::<(u32, Seq<Seq<char>>)>::empty());
        r
    }

    /// The identity map: two-byte codes that are their own CIDs.
    pub fn identity() -> (r: Self)
        ensures
            r@ == identity_cmap(),
    {
        let mut r = CMap::empty();
        r.codespace = CodeSpace::identity_two_byte();
        r.identity_cid = true;
        r
    }

    /// The CID of a character code.
    pub fn cid(&self, code: u32) -> (r: u32)
        ensures
            r == spec_cid(self@, code),
    {
        if let Some(c) = self.cid_singles.get(&code) {
            return *c;
        }
        let mut k: usize = 0;
        while k < self.cid_ranges.len()
            invariant
                k <= self.cid_ranges@.len(),
                !self@.cid_singles.contains_key(code),
                first_holding(self.cid_ranges@, code, 0) == first_holding(self.cid_ranges@, code, k as int),
            decreases self.cid_ranges@.len() - k,
        {
            let (lo, hi, base) = self.cid_ranges[k];
            if lo <= code && code <= hi {
                return ((base as u64 + (code - lo) as u64) % 0x1_0000_0000) as u32;
            }
            k = k + 1;
        }
        if self.identity_cid {
            code
        } else {
            0
        }
    }

    /// The text of a character code, if the map gives it any.
    pub fn unicode(&self, code: u32) -> (r: Option<String>)
        ensures
            match r {
                Some(s) => spec_unicode(self@, code) == Some(s@),
                None => spec_unicode(self@, code) is None,
            },
    {
        if let Some(s) = self.uni_singles.get(&code) {
            return non_empty(s.as_str());
        }
        let mut k: usize = 0;
        while k < self.uni_arrays.len()
            invariant
                k <= self.uni_arrays@.len(),
                !self@.uni_singles.contains_key(code),
                first_array(self@.uni_arrays, code, 0) == first_array(self@.uni_arrays, code, k as int),
            decreases self.uni_arrays@.len() - k,
        {
            let lo = self.uni_arrays[k].0;
            let n = self.uni_arrays[k].1.len();
            if code >= lo && ((code - lo) as usize) < n {
                let s = &self.uni_arrays[k].1[(code - lo) as usize];
                return non_empty(s.as_str());
            }
            k = k + 1;
        }
        let mut k: usize = 0;
        while k < self.uni_ranges.len()
            invariant
                k <= self.uni_ranges@.len(),
                !self@.uni_singles.contains_key(code),
                first_array(self@.uni_arrays, code, 0) is None,
                first_holding(self@.uni_ranges, code, 0) == first_holding(self@.uni_ranges, code, k as int),
            decreases self.uni_ranges@.len() - k,
        {
            let lo = self.uni_ranges[k].0;
            let hi = self.uni_ranges[k].1;
            if lo <= code && code <= hi {
                let base = &self.uni_ranges[k].2;
                let bl = base.len();
                if bl == 0 {
                    // An empty destination has no trailing unit to increment, so there is no
                    // mapping to build.
                    return None;
                }
                let mut units = vstd::slice::slice_to_vec(base.as_slice());
                let last = units[bl - 1];
                let off: u16 = ((code - lo) % 0x1_0000) as u16;
                units.set(bl - 1, ((last as u32 + off as u32) % 0x1_0000) as u16);
                let s = string_from_utf16_lossy(units.as_slice());
                return non_empty(s.as_str());
            }
            k = k + 1;
        }
        None
    }

    /// The codespace that splits strings into character codes.
    pub fn codespace(&self) -> (r: &CodeSpace)
        ensures
            r@ == self@.codespace,
    {
        &self.codespace
    }

    /// Splits a string into character codes by the codespace, each with its CID.
    pub fn codes_with_cids(&self, bytes: &[u8]) -> (r: Vec<(u32, u32)>)
        ensures
            r@.len() == spec_decode_codes(self@.codespace, bytes@).len(),
            forall|i: int|
                0 <= i < r@.len() ==> (#[trigger] r@[i]).0 == spec_decode_codes(
                    self@.codespace,
                    bytes@,
                )[i] && r@[i].1 == spec_cid(self@, r@[i].0),
    {
        let codes = self.codespace.decode(bytes);
        let mut out: Vec<(u32, u32)> = Vec::new();
        let mut k: usize = 0;
        while k < codes.len()
            invariant
                k <= codes@.len(),
                codes@ == spec_decode_codes(self@.codespace, bytes@),
                out@.len() == k,
                forall|i: int|
                    0 <= i < k ==> (#[trigger] out@[i]).0 == codes@[i] && out@[i].1 == spec_cid(
                        self@,
                        out@[i].0,
                    ),
            decreases codes@.len() - k,
        {
            let code = codes[k];
            out.push((code, self.cid(code)));
            k = k + 1;
        }
        out
    }

    /// Whether the map gives text for any code.
    pub fn has_unicode(&self) -> (r: bool)
        ensures
            r == spec_has_unicode(self@),
    {
        !self.uni_singles.is_empty() || self.uni_ranges.len() > 0 || self.uni_arrays.len() > 0
    }
}

impl Default for CMap {
    /// The empty map.
    fn default() -> (r: Self)
        ensures
            r@ == empty_cmap(),
    {
        CMap::empty()
    }
}

/// Some key of the single mappings is past one byte.
pub open spec fn wide_single(m: Map<u32, Seq<char>>) -> bool {
    exists|c: u32| #[trigger] m.contains_key(c) && c > 0xFF
}

fn names_identity_of(o: &Object) -> (r: bool)
    ensures
        r == names_identity(o@),
{
    match o {
        Object::Name(n) => {
            let nc = chars_of(n.as_str());
            let id = chars_of("Identity");
            chars_start_with(nc.as_slice(), id.as_slice())
        },
        _ => false,
    }
}

impl CMap {
    fn read_codespace(&mut self, a: &Vec<Object>)
        ensures
            final(self)@ == (CMapView {
                codespace: codespace_fold(items_view(a@), old(self)@.codespace, a@.len() / 2),
                ..old(self)@
            }),
    {
        let ghost av = items_view(a@);
        let al = a.len();
        let n = al / 2;
        let mut k: usize = 0;
        while k < n
            invariant
                al == a@.len(),
                n == a@.len() / 2,
                av == items_view(a@),
                k <= n,
                self@ == (CMapView { codespace: codespace_fold(av, old(self)@.codespace, k as nat), ..old(self)@ }),
            decreases n - k,
        {
            let j = 2 * k;
            match (&a[j], &a[j + 1]) {
                (Object::String(lo), Object::String(hi)) => {
                    self.codespace.push(lo.as_slice(), hi.as_slice());
                },
                _ => {},
            }
            k = k + 1;
        }
    }

    fn read_bfchar(&mut self, a: &Vec<Object>, wide: &mut bool)
        requires
            *old(wide) == wide_single(old(self)@.uni_singles),
        ensures
            final(self)@ == (CMapView {
                uni_singles: bfchar_fold(items_view(a@), old(self)@.uni_singles, a@.len() / 2),
                ..old(self)@
            }),
            *final(wide) == wide_single(final(self)@.uni_singles),
    {
        let ghost av = items_view(a@);
        let al = a.len();
        let n = al / 2;
        let mut k: usize = 0;
        while k < n
            invariant
                al == a@.len(),
                n == a@.len() / 2,
                av == items_view(a@),
                k <= n,
                self@ == (CMapView { uni_singles: bfchar_fold(av, old(self)@.uni_singles, k as nat), ..old(self)@ }),
                *wide == wide_single(self@.uni_singles),
            decreases n - k,
        {
            let j = 2 * k;
            let ghost before = self@;
            match &a[j] {
                Object::String(src) => {
                    match unicode_target(&a[j + 1]) {
                        Some(s) => {
                            let key = be(src.as_slice());
                            let ghost sv = s@;
                            self.uni_singles.insert(key, s);
                            assert(self@.uni_singles =~= before.uni_singles.insert(key, sv));
                            if key > 0xFF {
                                *wide = true;
                                assert(self@.uni_singles.contains_key(key));
                            } else {
                                proof {
                                    if wide_single(before.uni_singles) {
                                        let c = choose|c: u32| #[trigger] before.uni_singles.contains_key(c) && c > 0xFF;
                                        assert(self@.uni_singles.contains_key(c));
                                    }
                                    if wide_single(self@.uni_singles) {
                                        let c = choose|c: u32| #[trigger] self@.uni_singles.contains_key(c) && c > 0xFF;
                                        assert(before.uni_singles.contains_key(c));
                                    }
                                }
                            }
                        },
                        None => {},
                    }
                },
                _ => {},
            }
            k = k + 1;
        }
    }

    fn read_bfrange(&mut self, a: &Vec<Object>)
        ensures
            final(self)@ == (CMapView {
                uni_ranges: bfrange_fold(items_view(a@), old(self)@.uni_ranges, old(self)@.uni_arrays, a@.len() / 3).0,
                uni_arrays: bfrange_fold(items_view(a@), old(self)@.uni_ranges, old(self)@.uni_arrays, a@.len() / 3).1,
                ..old(self)@
            }),
    {
        let ghost av = items_view(a@);
        let al = a.len();
        let n = al / 3;
        let mut k: usize = 0;
        while k < n
            invariant
                al == a@.len(),
                n == a@.len() / 3,
                av == items_view(a@),
                k <= n,
                self@ == (CMapView {
                    uni_ranges: bfrange_fold(av, old(self)@.uni_ranges, old(self)@.uni_arrays, k as nat).0,
                    uni_arrays: bfrange_fold(av, old(self)@.uni_ranges, old(self)@.uni_arrays, k as nat).1,
                    ..old(self)@
                }),
            decreases n - k,
        {
            let j = 3 * k;
            let ghost before = self@;
            match (&a[j], &a[j + 1]) {
                (Object::String(lo), Object::String(hi)) => {
                    let l = be(lo.as_slice());
                    let h = be(hi.as_slice());
                    match &a[j + 2] {
                        Object::String(base) => {
                            let units = utf16_units(base.as_slice());
                            self.uni_ranges.push((l, h, units));
                            assert(self@.uni_ranges =~= before.uni_ranges.push((l, h, spec_utf16_units(base@))));
                        },
                        Object::Array(items) => {
                            let mut dsts: Vec<String> = Vec::new();
                            let mut q: usize = 0;
                            let ghost iv = items@.map_values(|o: Object| o@);
                            assert(a@[j + 2]@ == ObjectView::Array(iv)) by {
                                assert(a@[j + 2]@->Array_0 =~= iv);
                            }
                            while q < items.len()
                                invariant
                                    q <= items@.len(),
                                    iv == items@.map_values(|o: Object| o@),
                                    strings_view(dsts@) == targets_among(iv.subrange(0, q as int)),
                                decreases items@.len() - q,
                            {
                                let ghost pre = dsts@;
                                assert(iv.subrange(0, q + 1).drop_last() =~= iv.subrange(0, q as int));
                                match unicode_target(&items[q]) {
                                    Some(s) => {
                                        dsts.push(s);
                                        assert(strings_view(dsts@) =~= strings_view(pre).push(dsts@.last()@));
                                    },
                                    None => {},
                                }
                                q = q + 1;
                            }
                            assert(iv.subrange(0, items@.len() as int) =~= iv);
                            let ghost tv = strings_view(dsts@);
                            self.uni_arrays.push((l, dsts));
                            assert(self@.uni_arrays =~= before.uni_arrays.push((l, tv)));
                        },
                        _ => {},
                    }
                },
                _ => {},
            }
            k = k + 1;
        }
    }

    fn read_cidchar(&mut self, a: &Vec<Object>)
        ensures
            final(self)@ == (CMapView {
                cid_singles: cidchar_fold(items_view(a@), old(self)@.cid_singles, a@.len() / 2),
                ..old(self)@
            }),
    {
        let ghost av = items_view(a@);
        let al = a.len();
        let n = al / 2;
        let mut k: usize = 0;
        while k < n
            invariant
                al == a@.len(),
                n == a@.len() / 2,
                av == items_view(a@),
                k <= n,
                self@ == (CMapView { cid_singles: cidchar_fold(av, old(self)@.cid_singles, k as nat), ..old(self)@ }),
            decreases n - k,
        {
            let j = 2 * k;
            match (&a[j], &a[j + 1]) {
                (Object::String(src), Object::Int(cid)) => {
                    let key = be(src.as_slice());
                    self.cid_singles.insert(key, #[verifier::truncate] (*cid as u32));
                },
                _ => {},
            }
            k = k + 1;
        }
    }

    fn read_cidrange(&mut self, a: &Vec<Object>)
        ensures
            final(self)@ == (CMapView {
                cid_ranges: cidrange_fold(items_view(a@), old(self)@.cid_ranges, a@.len() / 3),
                ..old(self)@
            }),
    {
        let ghost av = items_view(a@);
        let al = a.len();
        let n = al / 3;
        let mut k: usize = 0;
        while k < n
            invariant
                al == a@.len(),
                n == a@.len() / 3,
                av == items_view(a@),
                k <= n,
                self@ == (CMapView { cid_ranges: cidrange_fold(av, old(self)@.cid_ranges, k as nat), ..old(self)@ }),
            decreases n - k,
        {
            let j = 3 * k;
            match (&a[j], &a[j + 1], &a[j + 2]) {
                (Object::String(lo), Object::String(hi), Object::Int(cid)) => {
                    let l = be(lo.as_slice());
                    let h = be(hi.as_slice());
                    self.cid_ranges.push((l, h, #[verifier::truncate] (*cid as u32)));
                },
                _ => {},
            }
            k = k + 1;
        }
    }

    fn any_identity(a: &Vec<Object>) -> (r: bool)
        ensures
            r == uses_identity(items_view(a@)),
    {
        let mut k: usize = 0;
        while k < a.len()
            invariant
                k <= a@.len(),
                forall|i: int| 0 <= i < k ==> !names_identity(#[trigger] items_view(a@)[i]),
            decreases a@.len() - k,
        {
            if names_identity_of(&a[k]) {
                assert(names_identity(items_view(a@)[k as int]));
                return true;
            }
            k = k + 1;
        }
        false
    }

    fn apply(&mut self, op: &Operation, wide: &mut bool)
        requires
            *old(wide) == wide_single(old(self)@.uni_singles),
        ensures
            final(self)@ == apply_op(op@, old(self)@),
            *final(wide) == wide_single(final(self)@.uni_singles),
    {
        let name = op.operator.as_str();
        if str_eq(name, "endcodespacerange") {
            self.read_codespace(&op.operands);
        } else if str_eq(name, "endbfchar") {
            self.read_bfchar(&op.operands, wide);
        } else if str_eq(name, "endbfrange") {
            self.read_bfrange(&op.operands);
        } else if str_eq(name, "endcidchar") {
            self.read_cidchar(&op.operands);
        } else if str_eq(name, "endcidrange") {
            self.read_cidrange(&op.operands);
        } else if str_eq(name, "usecmap") && CMap::any_identity(&op.operands) {
            // Only the identity parents matter in practice.
            self.identity_cid = true;
        }
    }

    /// Reads a CMap (a ToUnicode map or a CID encoding) from its text.
    pub fn parse(data: &[u8]) -> (r: Self)
        ensures
            r@ == spec_parse(data@),
    {
        let ops = operations(data);
        let ghost ov = ops@.map_values(|op: Operation| op@);
        let mut map = CMap::empty();
        let mut wide = false;
        assert(!wide_single(map@.uni_singles));
        let mut i: usize = 0;
        while i < ops.len()
            invariant
                i <= ops@.len(),
                ov == ops@.map_values(|op: Operation| op@),
                map@ == parse_prefix(ov, i as nat),
                wide == wide_single(map@.uni_singles),
            decreases ops@.len() - i,
        {
            map.apply(&ops[i], &mut wide);
            i = i + 1;
        }
        if map.codespace.is_empty() {
            // A ToUnicode map without codespace: infer byte length from the widest key.
            let mut w = wide;
            let mut k: usize = 0;
            while k < map.uni_ranges.len()
                invariant
                    k <= map@.uni_ranges.len(),
                    w == (wide_single(map@.uni_singles) || exists|q: int|
                        0 <= q < k && (#[trigger] map@.uni_ranges[q]).1 > 0xFF),
                decreases map@.uni_ranges.len() - k,
            {
                if map.uni_ranges[k].1 > 0xFF {
                    w = true;
                    assert(map@.uni_ranges[k as int].1 > 0xFF);
                }
                k = k + 1;
            }
            assert(w == has_wide_codes(map@));
            let ghost before = map@;
            if w {
                map.codespace.push_range(0, 0xFFFF, 2);
            } else {
                map.codespace.push_range(0, 0xFF, 1);
            }
            assert(map@.codespace =~= with_default_space(before).codespace);
            assert(map@ == with_default_space(before));
        }
        map
    }
}

} // verus!
