//! Content-stream tokenization: a flat sequence of `operands... operator`, with inline images
//! (`BI ... ID ... EI`) folded into single operations.

use vstd::prelude::*;

use crate::lexer::{
    find_first, first_occurrence, is_regular, is_whitespace, items_view, keyword_at,
    lemma_first_occurrence_bounds, lemma_name_scan_bounds, lemma_object_scan_bounds,
    lemma_regular_end_bounds, lemma_ws_end_bounds, name_scan, object_scan, regular_end,
    slice_eq, spec_is_regular, spec_is_whitespace, ws_end, Cursor,
};
use crate::object::{dict_insert, dict_lookup, Dict, Object, ObjectView};
use crate::text::{str_eq, utf8_lossy, string_from_utf8_lossy};

verus! {

pub struct Operation {
    pub operator: String,
    pub operands: Vec<Object>,
    /// Payload of an inline image (`ID` data); present only when `operator == "BI"`, in which
    /// case `operands` holds a single [`Object::Dict`] with the image parameters.
    pub inline_data: Option<Vec<u8>>,
}

/// The mathematical value of an [`Operation`].
pub struct OperationView {
    pub operator: Seq<char>,
    pub operands: Seq<ObjectView>,
    pub inline_data: Option<Seq<u8>>,
}

impl View for Operation {
    type V = OperationView;

    open spec fn view(&self) -> OperationView {
        OperationView {
            operator: self.operator@,
            operands: items_view(self.operands@),
            inline_data: match self.inline_data {
                Some(v) => Some(v@),
                None => None,
            },
        }
    }
}

/// The canonical name of an abbreviated inline-image key; other keys are kept.
pub open spec fn expanded_key(k: Seq<char>) -> Seq<char> {
    if k == "BPC"@ {
        "BitsPerComponent"@
    } else if k == "CS"@ {
        "ColorSpace"@
    } else if k == "D"@ {
        "Decode"@
    } else if k == "DP"@ {
        "DecodeParms"@
    } else if k == "F"@ {
        "Filter"@
    } else if k == "H"@ {
        "Height"@
    } else if k == "IM"@ {
        "ImageMask"@
    } else if k == "I"@ {
        "Interpolate"@
    } else if k == "W"@ {
        "Width"@
    } else {
        k
    }
}

/// Inline images abbreviate their dictionary keys; expand to the canonical names.
pub fn expand_inline_key(key: &str) -> (r: String)
    ensures
        r@ == expanded_key(key@),
{
    if str_eq(key, "BPC") {
        String::from_str("BitsPerComponent")
    } else if str_eq(key, "CS") {
        String::from_str("ColorSpace")
    } else if str_eq(key, "D") {
        String::from_str("Decode")
    } else if str_eq(key, "DP") {
        String::from_str("DecodeParms")
    } else if str_eq(key, "F") {
        String::from_str("Filter")
    } else if str_eq(key, "H") {
        String::from_str("Height")
    } else if str_eq(key, "IM") {
        String::from_str("ImageMask")
    } else if str_eq(key, "I") {
        String::from_str("Interpolate")
    } else if str_eq(key, "W") {
        String::from_str("Width")
    } else {
        String::from_str(key)
    }
}

/// `ID`.
pub open spec fn kw_id() -> Seq<u8> {
    seq![73u8, 68]
}

/// `EI`.
pub open spec fn kw_ei() -> Seq<u8> {
    seq![69u8, 73]
}

/// `BI`.
pub open spec fn kw_bi() -> Seq<u8> {
    seq![66u8, 73]
}

/// The inline image's parameter entries from `p` (after `BI`), added to `acc`, and where the
/// `ID` keyword ends. A key without a readable value maps to null; other bytes are skipped.
pub open spec fn inline_dict_scan(d: Seq<u8>, p: int, acc: Seq<(Seq<char>, ObjectView)>) -> (Seq<
    (Seq<char>, ObjectView),
>, int)
    decreases d.len() - p,
{
    if p < 0 || p > d.len() {
        (acc, p)
    } else {
        let q = ws_end(d, p, false);
        if q < p || q >= d.len() {
            (acc, q)
        } else if d[q] == 47 {
            let (k, e1) = name_scan(d, q + 1);
            let (o, e2) = object_scan(d, e1);
            let v = match o {
                Some(x) => x,
                None => ObjectView::Null,
            };
            let acc2 = dict_insert(acc, expanded_key(utf8_lossy(k)), v);
            if p < e2 <= d.len() {
                inline_dict_scan(d, e2, acc2)
            } else {
                (acc2, e2)
            }
        } else if keyword_at(d, q, kw_id()) {
            (acc, q + 2)
        } else {
            inline_dict_scan(d, q + 1, acc)
        }
    }
}

/// Where inline image data starting at `start` ends when scanning from `i`: just before the
/// whitespace that precedes the first `EI` standing alone, or at the end of data.
pub open spec fn ei_scan(d: Seq<u8>, i: int, start: int) -> int
    decreases d.len() + 1 - i,
{
    match first_occurrence(d, i, kw_ei()) {
        None => d.len() as int,
        Some(p) => {
            let before_ok = p == 0 || (p >= 1 && spec_is_whitespace(d[p - 1]));
            let after_ok = p + 2 >= d.len() || !spec_is_regular(d[p + 2]);
            if before_ok && after_ok {
                let b = if p >= 1 {
                    p - 1
                } else {
                    0
                };
                if b > start {
                    b
                } else {
                    start
                }
            } else if i <= p && p + 2 <= d.len() {
                ei_scan(d, p + 2, start)
            } else {
                d.len() as int
            }
        },
    }
}

/// The declared length of an inline image: `/Length`, else `/L`, when an integer.
pub open spec fn declared_length(entries: Seq<(Seq<char>, ObjectView)>) -> Option<i64> {
    let o = match dict_lookup(entries, "Length"@) {
        Some(x) => Some(x),
        None => dict_lookup(entries, "L"@),
    };
    match o {
        Some(ObjectView::Int(i)) => Some(i),
        _ => None,
    }
}

/// After the keyword `EI` that ends inline data at `end`, if it stands there.
pub open spec fn after_ei(d: Seq<u8>, end: int) -> int {
    let c = ws_end(d, end, false);
    if keyword_at(d, c, kw_ei()) {
        c + 2
    } else {
        c
    }
}

/// An inline image read from `p` (after `BI`): the operation and where reading ends. A
/// declared length is trusted only when `EI` follows it.
pub open spec fn inline_image_scan(d: Seq<u8>, p: int) -> (OperationView, int) {
    let (entries, q) = inline_dict_scan(d, p, Seq::empty());
    let start = if 0 <= q < d.len() && spec_is_whitespace(d[q]) {
        q + 1
    } else {
        q
    };
    let by_length = match declared_length(entries) {
        Some(l) => {
            let l2 = if l < 0 {
                0
            } else {
                l as int
            };
            let e = if start + l2 <= d.len() {
                start + l2
            } else {
                d.len() as int
            };
            if keyword_at(d, ws_end(d, e, false), kw_ei()) {
                Some(e)
            } else {
                None
            }
        },
        None => None,
    };
    let end = match by_length {
        Some(e) => e,
        None => ei_scan(d, start, start),
    };
    (
        OperationView {
            operator: "BI"@,
            operands: seq![ObjectView::Dict(entries)],
            inline_data: Some(d.subrange(start, end)),
        },
        after_ei(d, end),
    )
}

/// The next operation from `p`, with `pending` operands already read: objects accumulate as
/// operands until a keyword, which becomes the operator. Returns the operation (none at the end
/// of data), where reading stopped, and the operands still pending.
pub open spec fn operation_scan(d: Seq<u8>, p: int, pending: Seq<ObjectView>) -> (Option<
    OperationView,
>, int, Seq<ObjectView>)
    decreases d.len() - p,
{
    if p < 0 || p > d.len() {
        (None, p, pending)
    } else {
        let q = ws_end(d, p, false);
        if q < p || q >= d.len() {
            (None, q, pending)
        } else {
            let (o, e) = object_scan(d, q);
            match o {
                Some(x) => if p < e <= d.len() {
                    operation_scan(d, e, pending.push(x))
                } else {
                    (None, e, pending)
                },
                None => {
                    let t = regular_end(d, q);
                    if t <= q {
                        operation_scan(d, q + 1, pending)
                    } else {
                        let tok = d.subrange(q, t);
                        if tok == kw_bi() {
                            let (op, e2) = inline_image_scan(d, t);
                            (Some(op), e2, Seq::empty())
                        } else {
                            (
                                Some(
                                    OperationView {
                                        operator: utf8_lossy(tok),
                                        operands: pending,
                                        inline_data: None,
                                    },
                                ),
                                t,
                                Seq::empty(),
                            )
                        }
                    }
                }
            }
        }
    }
}

pub struct ContentParser<'a> {
    cursor: Cursor<'a>,
    pending: Vec<Object>,
}

impl<'a> ContentParser<'a> {
    pub closed spec fn data(&self) -> Seq<u8> {
        self.cursor.data@
    }

    pub closed spec fn pos(&self) -> int {
        self.cursor.pos as int
    }

    /// Operands read and not yet handed out with an operator.
    pub closed spec fn pending(&self) -> Seq<ObjectView> {
        items_view(self.pending@)
    }

    pub fn new(data: &'a [u8]) -> (r: Self)
        ensures
            r.data() == data@,
            r.pos() == 0,
            r.pending() == Seq::<ObjectView>::empty(),
    {
        let r = ContentParser { cursor: Cursor::new(data), pending: Vec::new() };
        assert(r.pending() =~= Seq::<ObjectView>::empty());
        r
    }
}

pub proof fn lemma_inline_dict_scan_bounds(d: Seq<u8>, p: int, acc: Seq<(Seq<char>, ObjectView)>)
    requires
        0 <= p <= d.len(),
    ensures
        p <= inline_dict_scan(d, p, acc).1 <= d.len(),
    decreases d.len() - p,
{
    lemma_ws_end_bounds(d, p, false);
    let q = ws_end(d, p, false);
    if q < d.len() {
        if d[q] == 47 {
            lemma_name_scan_bounds(d, q + 1);
            let (k, e1) = name_scan(d, q + 1);
            lemma_object_scan_bounds(d, e1);
            let (o, e2) = object_scan(d, e1);
            let v = match o {
                Some(x) => x,
                None => ObjectView::Null,
            };
            let acc2 = dict_insert(acc, expanded_key(utf8_lossy(k)), v);
            if p < e2 <= d.len() {
                lemma_inline_dict_scan_bounds(d, e2, acc2);
            }
        } else if !keyword_at(d, q, kw_id()) {
            lemma_inline_dict_scan_bounds(d, q + 1, acc);
        }
    }
}

pub proof fn lemma_ei_scan_bounds(d: Seq<u8>, i: int, start: int)
    requires
        0 <= start <= i <= d.len(),
    ensures
        start <= ei_scan(d, i, start) <= d.len(),
    decreases d.len() + 1 - i,
{
    lemma_first_occurrence_bounds(d, i, kw_ei());
    match first_occurrence(d, i, kw_ei()) {
        None => {},
        Some(p) => {
            let before_ok = p == 0 || (p >= 1 && spec_is_whitespace(d[p - 1]));
            let after_ok = p + 2 >= d.len() || !spec_is_regular(d[p + 2]);
            if !(before_ok && after_ok) && i <= p && p + 2 <= d.len() {
                lemma_ei_scan_bounds(d, p + 2, start);
            }
        },
    }
}

/// Where inline data starting at `start` ends when no usable length is declared.
fn scan_for_ei(data: &[u8], start: usize) -> (r: usize)
    requires
        start <= data@.len(),
    ensures
        r == ei_scan(data@, start as int, start as int),
        start <= r <= data@.len(),
{
    let ghost d = data@;
    let ei: &[u8] = &[69, 73];
    assert(ei@ =~= kw_ei());
    let mut i = start;
    proof {
        lemma_ei_scan_bounds(d, start as int, start as int);
    }
    loop
        invariant_except_break
            data@ == d,
            ei@ == kw_ei(),
            start <= i <= d.len(),
            ei_scan(d, i as int, start as int) == ei_scan(d, start as int, start as int),
        ensures
            i == ei_scan(d, start as int, start as int),
        decreases d.len() + 1 - i,
    {
        proof {
            lemma_first_occurrence_bounds(d, i as int, kw_ei());
        }
        match find_first(data, i, ei) {
            Some(p) => {
                let before_ok = p == 0 || is_whitespace(data[p - 1]);
                let after_ok = p + 2 >= data.len() || !is_regular(data[p + 2]);
                if before_ok && after_ok {
                    let b = if p >= 1 {
                        p - 1
                    } else {
                        0
                    };
                    i = if b > start {
                        b
                    } else {
                        start
                    };
                    break;
                }
                i = p + 2;
            },
            None => {
                i = data.len();
                break;
            },
        }
    }
    proof {
        lemma_ei_scan_bounds(d, start as int, start as int);
    }
    i
}

/// Where inline data starting at `start` ends given a declared length, if `EI` follows there.
fn end_by_length(data: &[u8], start: usize, l: i64) -> (r: Option<usize>)
    requires
        start <= data@.len(),
    ensures
        ({
            let l2 = if l < 0 {
                0
            } else {
                l as int
            };
            let e = if start + l2 <= data@.len() {
                start + l2
            } else {
                data@.len() as int
            };
            r == if keyword_at(data@, ws_end(data@, e, false), kw_ei()) {
                Some(e as usize)
            } else {
                None::<usize>
            }
        }),
{
    let ei: &[u8] = &[69, 73];
    assert(ei@ =~= kw_ei());
    let e = if l < 0 {
        start
    } else if (l as u128) > ((data.len() - start) as u128) {
        data.len()
    } else {
        start + (l as usize)
    };
    let mut c = Cursor::at(data, e);
    c.skip_ws();
    if c.eat_keyword(ei) {
        Some(e)
    } else {
        None
    }
}

impl<'a> ContentParser<'a> {
    /// Reads inline-image parameters, positioned just after `BI`, through the `ID` keyword.
    fn read_inline_dict(&mut self) -> (r: Dict)
        requires
            old(self).pos() <= old(self).data().len(),
        ensures
            final(self).data() == old(self).data(),
            final(self).pending() == old(self).pending(),
            (r@, final(self).pos()) == inline_dict_scan(old(self).data(), old(self).pos(), Seq::empty()),
            final(self).pos() <= final(self).data().len(),
    {
        let ghost d = self.data();
        let ghost p0 = self.pos();
        let mut dict = Dict::new();
        proof {
            lemma_inline_dict_scan_bounds(d, p0, Seq::empty());
        }
        loop
            invariant_except_break
                self.cursor.data@ == d,
                self.pending@ == old(self).pending@,
                p0 <= self.cursor.pos <= d.len(),
                inline_dict_scan(d, self.cursor.pos as int, dict@) == inline_dict_scan(d, p0, Seq::empty()),
            ensures
                self.cursor.data@ == d,
                self.pending@ == old(self).pending@,
                self.cursor.pos <= d.len(),
                (dict@, self.cursor.pos as int) == inline_dict_scan(d, p0, Seq::empty()),
            decreases d.len() - self.cursor.pos,
        {
            let ghost p = self.cursor.pos as int;
            proof {
                lemma_ws_end_bounds(d, p, false);
                lemma_inline_dict_scan_bounds(d, p, dict@);
            }
            self.cursor.skip_ws();
            let q = self.cursor.pos;
            if q >= self.cursor.data.len() {
                break;
            }
            if self.cursor.data[q] == 47 {
                self.cursor.pos = q + 1;
                proof {
                    lemma_name_scan_bounds(d, q + 1);
                }
                let key = self.cursor.read_name();
                proof {
                    lemma_object_scan_bounds(d, self.cursor.pos as int);
                }
                let value = match self.cursor.read_object() {
                    Some(v) => v,
                    None => Object::Null,
                };
                let k = expand_inline_key(key.as_str());
                dict.insert(k, value);
            } else {
                let kw: &[u8] = &[73, 68];
                assert(kw@ =~= kw_id());
                if self.cursor.eat_keyword(kw) {
                    break;
                }
                // Junk; skip a byte.
                self.cursor.pos = q + 1;
            }
        }
        dict
    }

    /// Parses an inline image, positioned just after `BI`.
    #[verifier::rlimit(50)]
    fn read_inline_image(&mut self) -> (r: Operation)
        requires
            old(self).pos() <= old(self).data().len(),
        ensures
            final(self).data() == old(self).data(),
            final(self).pending() == old(self).pending(),
            final(self).pos() <= final(self).data().len(),
            (r@, final(self).pos()) == inline_image_scan(old(self).data(), old(self).pos()),
    {
        let ghost d = self.data();
        let dict = self.read_inline_dict();
        // One whitespace byte separates `ID` from the data.
        if self.cursor.pos < self.cursor.data.len() && is_whitespace(self.cursor.data[self.cursor.pos]) {
            self.cursor.pos = self.cursor.pos + 1;
        }
        let start = self.cursor.pos;
        let data: &'a [u8] = self.cursor.data;

        // /L (length) makes the end exact; otherwise scan for whitespace-delimited `EI`.
        let declared = match dict.get("Length") {
            Some(o) => Some(o),
            None => dict.get("L"),
        };
        let length: Option<i64> = match declared {
            Some(Object::Int(i)) => Some(*i),
            _ => None,
        };
        let by_length: Option<usize> = match length {
            Some(l) => end_by_length(data, start, l),
            None => None,
        };
        let end = match by_length {
            Some(e) => e,
            None => scan_for_ei(data, start),
        };
        let payload = vstd::slice::slice_to_vec(&data[start..end]);
        let mut c = Cursor::at(data, end);
        proof {
            lemma_ws_end_bounds(d, end as int, false);
        }
        c.skip_ws();
        let ei: &[u8] = &[69, 73];
        assert(ei@ =~= kw_ei());
        c.eat_keyword(ei);
        self.cursor.pos = c.pos;

        let mut operands: Vec<Object> = Vec::new();
        let ghost dv = dict@;
        operands.push(Object::Dict(dict));
        let r = Operation { operator: String::from_str("BI"), operands, inline_data: Some(payload) };
        proof {
            assert(items_view(r.operands@) =~= seq![ObjectView::Dict(dv)]);
        }
        r
    }

    pub fn next(&mut self) -> (r: Option<Operation>)
        requires
            old(self).pos() <= old(self).data().len(),
        ensures
            final(self).data() == old(self).data(),
            final(self).pos() <= final(self).data().len(),
            (
                match r {
                    Some(op) => Some(op@),
                    None => None::<OperationView>,
                },
                final(self).pos(),
                final(self).pending(),
            ) == operation_scan(old(self).data(), old(self).pos(), old(self).pending()),
    {
        let ghost d = self.data();
        let ghost p0 = self.pos();
        let ghost pend0 = self.pending();
        loop
            invariant
                d == old(self).data(),
                p0 == old(self).pos(),
                pend0 == old(self).pending(),
                self.cursor.data@ == d,
                self.cursor.pos <= d.len(),
                operation_scan(d, self.pos(), self.pending()) == operation_scan(d, p0, pend0),
            decreases d.len() - self.cursor.pos,
        {
            let ghost p = self.pos();
            proof {
                lemma_ws_end_bounds(d, p, false);
            }
            self.cursor.skip_ws();
            if self.cursor.eof() {
                return None;
            }
            // Try an object first; anything the object grammar rejects is an operator keyword.
            let mark = self.cursor.pos;
            let dl = self.cursor.data.len();
            proof {
                lemma_object_scan_bounds(d, mark as int);
            }
            match self.cursor.read_object() {
                Some(obj) => {
                    let ghost ov = obj@;
                    let ghost before = self.pending@;
                    self.pending.push(obj);
                    assert(self.pending() =~= items_view(before).push(ov));
                    continue;
                },
                None => {},
            }
            self.cursor.pos = mark;
            proof {
                lemma_regular_end_bounds(d, mark as int);
            }
            let tok = self.cursor.read_regular();
            if tok.len() == 0 {
                // A stray delimiter (e.g. an unmatched `)`); skip it.
                assert(tok@.len() == self.cursor.pos - mark);
                self.cursor.pos = mark + 1;
                continue;
            }
            let bi: &[u8] = &[66, 73];
            assert(bi@ =~= kw_bi());
            if slice_eq(tok, bi) {
                self.pending.clear();
                assert(self.pending() =~= Seq::<ObjectView>::empty());
                let op = self.read_inline_image();
                return Some(op);
            }
            let operator = string_from_utf8_lossy(tok);
            let mut operands: Vec<Object> = Vec::new();
            std::mem::swap(&mut operands, &mut self.pending);
            assert(self.pending() =~= Seq::<ObjectView>::empty());
            return Some(Operation { operator, operands, inline_data: None });
        }
    }
}

#[verifier::rlimit(40)]
pub proof fn lemma_operation_scan_bounds(d: Seq<u8>, p: int, pending: Seq<ObjectView>)
    requires
        0 <= p <= d.len(),
    ensures
        p <= operation_scan(d, p, pending).1 <= d.len(),
        operation_scan(d, p, pending).0 is Some ==> p < operation_scan(d, p, pending).1,
    decreases d.len() - p,
{
    lemma_ws_end_bounds(d, p, false);
    let q = ws_end(d, p, false);
    if q < d.len() {
        lemma_object_scan_bounds(d, q);
        let (o, e) = object_scan(d, q);
        match o {
            Some(x) => if p < e <= d.len() {
                lemma_operation_scan_bounds(d, e, pending.push(x));
            },
            None => {
                lemma_regular_end_bounds(d, q);
                let t = regular_end(d, q);
                if t <= q {
                    lemma_operation_scan_bounds(d, q + 1, pending);
                } else if d.subrange(q, t) == kw_bi() {
                    lemma_inline_dict_scan_bounds(d, t, Seq::empty());
                    let (entries, q2) = inline_dict_scan(d, t, Seq::empty());
                    let start = if 0 <= q2 < d.len() && spec_is_whitespace(d[q2]) {
                        q2 + 1
                    } else {
                        q2
                    };
                    lemma_ei_scan_bounds(d, start, start);
                    let l = declared_length(entries);
                    if l is Some {
                        let l2 = if l->0 < 0 {
                            0
                        } else {
                            l->0 as int
                        };
                        let e = if start + l2 <= d.len() {
                            start + l2
                        } else {
                            d.len() as int
                        };
                        lemma_ws_end_bounds(d, e, false);
                    }
                    let (op, end2) = inline_image_scan(d, t);
                    let end = if op.inline_data is Some {
                        start + op.inline_data->0.len()
                    } else {
                        start
                    };
                    lemma_ws_end_bounds(d, end, false);
                }
            },
        }
    }
}

/// The operations of `d` from `p` onwards, with `pending` operands already read.
pub open spec fn operations_from(d: Seq<u8>, p: int, pending: Seq<ObjectView>) -> Seq<
    OperationView,
>
    decreases d.len() - p,
{
    match operation_scan(d, p, pending) {
        (Some(op), e, rest) => if p < e <= d.len() {
            seq![op] + operations_from(d, e, rest)
        } else {
            seq![op]
        },
        _ => Seq::empty(),
    }
}

/// Every operation of a content stream, in order.
pub fn operations(data: &[u8]) -> (r: Vec<Operation>)
    ensures
        r@.map_values(|op: Operation| op@) == operations_from(data@, 0, Seq::empty()),
{
    let mut parser = ContentParser::new(data);
    let mut out: Vec<Operation> = Vec::new();
    loop
        invariant_except_break
            parser.data() == data@,
            parser.pos() <= data@.len(),
            out@.map_values(|op: Operation| op@) + operations_from(data@, parser.pos(), parser.pending())
                == operations_from(data@, 0, Seq::empty()),
        ensures
            out@.map_values(|op: Operation| op@) == operations_from(data@, 0, Seq::empty()),
        decreases data@.len() - parser.pos(),
    {
        let ghost before = parser.pos();
        let ghost pend = parser.pending();
        proof {
            lemma_operation_scan_bounds(data@, before, pend);
        }
        match parser.next() {
            Some(op) => {
                let ghost ov = op@;
                let ghost prev = out@;
                out.push(op);
                assert(out@.map_values(|op: Operation| op@) =~= prev.map_values(|op: Operation| op@).push(ov));
                assert(operations_from(data@, before, pend) == seq![ov] + operations_from(data@, parser.pos(), parser.pending()));
                assert(out@.map_values(|op: Operation| op@) + operations_from(data@, parser.pos(), parser.pending())
                    =~= prev.map_values(|op: Operation| op@) + operations_from(data@, before, pend));
            },
            None => {
                assert(out@.map_values(|op: Operation| op@) =~= out@.map_values(|op: Operation| op@) + operations_from(data@, before, pend));
                break;
            },
        }
    }
    out
}

} // verus!
