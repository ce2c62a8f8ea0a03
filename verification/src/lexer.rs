//! A byte cursor and recursive-descent reader for COS syntax.
//!
//! Used in two places: the file body reader and the content-stream tokenizer. Both share the
//! object grammar, which lives here. Each reading function is specified by a recursive spec
//! function that states the grammar it accepts, byte by byte.

use vstd::prelude::*;

verus! {

/// PDF whitespace: NUL, tab, line feed, form feed, carriage return and space.
pub open spec fn spec_is_whitespace(b: u8) -> bool {
    b == 0 || b == 9 || b == 10 || b == 12 || b == 13 || b == 32
}

/// The ten PDF delimiter bytes `( ) < > [ ] { } / %`.
pub open spec fn spec_is_delimiter(b: u8) -> bool {
    b == 40 || b == 41 || b == 60 || b == 62 || b == 91 || b == 93 || b == 123 || b == 125
        || b == 47 || b == 37
}

/// Neither whitespace nor a delimiter: the bytes keywords, numbers and names are made of.
pub open spec fn spec_is_regular(b: u8) -> bool {
    !spec_is_whitespace(b) && !spec_is_delimiter(b)
}

#[verifier::when_used_as_spec(spec_is_whitespace)]
pub fn is_whitespace(b: u8) -> (r: bool)
    ensures
        r == spec_is_whitespace(b),
{
    b == 0 || b == 9 || b == 10 || b == 12 || b == 13 || b == 32
}

#[verifier::when_used_as_spec(spec_is_delimiter)]
pub fn is_delimiter(b: u8) -> (r: bool)
    ensures
        r == spec_is_delimiter(b),
{
    b == 40 || b == 41 || b == 60 || b == 62 || b == 91 || b == 93 || b == 123 || b == 125
        || b == 47 || b == 37
}

#[verifier::when_used_as_spec(spec_is_regular)]
pub fn is_regular(b: u8) -> (r: bool)
    ensures
        r == spec_is_regular(b),
{
    !is_whitespace(b) && !is_delimiter(b)
}

/// The value of a hexadecimal digit, either case.
pub open spec fn spec_hex_val(b: u8) -> Option<u8> {
    if 48 <= b <= 57 {
        Some((b - 48) as u8)
    } else if 97 <= b <= 102 {
        Some((b - 97 + 10) as u8)
    } else if 65 <= b <= 70 {
        Some((b - 65 + 10) as u8)
    } else {
        None
    }
}

#[verifier::when_used_as_spec(spec_hex_val)]
pub fn hex_val(b: u8) -> (r: Option<u8>)
    ensures
        r == spec_hex_val(b),
        r matches Some(v) ==> v < 16,
{
    if 48 <= b && b <= 57 {
        Some(b - 48)
    } else if 97 <= b && b <= 102 {
        Some(b - 97 + 10)
    } else if 65 <= b && b <= 70 {
        Some(b - 65 + 10)
    } else {
        None
    }
}

/// `needle` occurs in `data` starting at `p`.
pub open spec fn occurs_at(data: Seq<u8>, p: int, needle: Seq<u8>) -> bool {
    0 <= p && p + needle.len() <= data.len() && data.subrange(p, p + needle.len()) == needle
}

/// Compares `needle` against `data` at `p`, which must leave room for the whole needle.
pub fn bytes_at(data: &[u8], p: usize, needle: &[u8]) -> (r: bool)
    requires
        p + needle@.len() <= data@.len(),
    ensures
        r == occurs_at(data@, p as int, needle@),
{
    let dl = data.len();
    let mut i: usize = 0;
    while i < needle.len()
        invariant
            dl == data@.len(),
            i <= needle@.len(),
            p + needle@.len() <= data@.len(),
            forall|k: int| 0 <= k < i ==> data@[p + k] == needle@[k],
        decreases needle@.len() - i,
    {
        assert(p + i < data@.len());
        if data[p + i] != needle[i] {
            assert(data@.subrange(p as int, p + needle@.len())[i as int] != needle@[i as int]);
            return false;
        }
        i = i + 1;
    }
    assert(data@.subrange(p as int, p + needle@.len()) =~= needle@);
    true
}

/// Finds `needle` in `data` at or after `from`.
pub fn find(data: &[u8], from: usize, needle: &[u8]) -> (r: Option<usize>)
    ensures
        match r {
            Some(p) => {
                &&& from <= p
                &&& occurs_at(data@, p as int, needle@)
                &&& needle@.len() > 0
                &&& forall|q: int| from <= q < p ==> !occurs_at(data@, q, needle@)
            },
            None => needle@.len() == 0 || from >= data@.len() || forall|q: int|
                from <= q ==> !occurs_at(data@, q, needle@),
        },
{
    if needle.len() == 0 || from >= data.len() {
        return None;
    }
    if needle.len() > data.len() - from {
        return None;
    }
    let last = data.len() - needle.len();
    let dl = data.len();
    let mut p = from;
    while p <= last
        invariant
            dl == data@.len(),
            from <= p,
            last == data@.len() - needle@.len(),
            0 < needle@.len() <= data@.len(),
            forall|q: int| from <= q < p ==> !occurs_at(data@, q, needle@),
        decreases last + 1 - p,
    {
        if bytes_at(data, p, needle) {
            return Some(p);
        }
        p = p + 1;
    }
    None
}

/// Finds the last occurrence of `needle` in `data`.
pub fn rfind(data: &[u8], needle: &[u8]) -> (r: Option<usize>)
    ensures
        match r {
            Some(p) => {
                &&& occurs_at(data@, p as int, needle@)
                &&& needle@.len() > 0
                &&& forall|q: int| p < q ==> !occurs_at(data@, q, needle@)
            },
            None => needle@.len() == 0 || needle@.len() > data@.len() || forall|q: int|
                !occurs_at(data@, q, needle@),
        },
{
    if needle.len() == 0 || needle.len() > data.len() {
        return None;
    }
    let mut p = data.len() - needle.len() + 1;
    while p > 0
        invariant
            p <= data@.len() - needle@.len() + 1,
            0 < needle@.len() <= data@.len(),
            forall|q: int| p <= q ==> !occurs_at(data@, q, needle@),
        decreases p,
    {
        if bytes_at(data, p - 1, needle) {
            return Some(p - 1);
        }
        p = p - 1;
    }
    None
}

/// Where whitespace and `%` comments starting at `p` end. A comment runs up to, not through,
/// its end-of-line byte; that byte is whitespace and is skipped in turn.
pub open spec fn ws_end(data: Seq<u8>, p: int, in_comment: bool) -> int
    decreases data.len() - p,
{
    if p < 0 || p >= data.len() {
        p
    } else if in_comment {
        if data[p] == 10 || data[p] == 13 {
            ws_end(data, p + 1, false)
        } else {
            ws_end(data, p + 1, true)
        }
    } else if spec_is_whitespace(data[p]) {
        ws_end(data, p + 1, false)
    } else if data[p] == 37 {
        ws_end(data, p + 1, true)
    } else {
        p
    }
}

/// The end of the run of regular bytes starting at `p`.
pub open spec fn regular_end(data: Seq<u8>, p: int) -> int
    decreases data.len() - p,
{
    if p < 0 || p >= data.len() || !spec_is_regular(data[p]) {
        p
    } else {
        regular_end(data, p + 1)
    }
}

pub proof fn lemma_ws_end_bounds(data: Seq<u8>, p: int, c: bool)
    requires
        0 <= p <= data.len(),
    ensures
        p <= ws_end(data, p, c) <= data.len(),
    decreases data.len() - p,
{
    if p < data.len() {
        lemma_ws_end_bounds(data, p + 1, false);
        lemma_ws_end_bounds(data, p + 1, true);
    }
}

pub proof fn lemma_regular_end_bounds(data: Seq<u8>, p: int)
    requires
        0 <= p <= data.len(),
    ensures
        p <= regular_end(data, p) <= data.len(),
        forall|k: int| p <= k < regular_end(data, p) ==> spec_is_regular(#[trigger] data[k]),
        regular_end(data, p) < data.len() ==> !spec_is_regular(data[regular_end(data, p)]),
    decreases data.len() - p,
{
    if p < data.len() && spec_is_regular(data[p]) {
        lemma_regular_end_bounds(data, p + 1);
    }
}

/// `kw` stands at `p`, followed by the end of data or a byte that cannot continue a keyword.
pub open spec fn keyword_at(data: Seq<u8>, p: int, kw: Seq<u8>) -> bool {
    &&& occurs_at(data, p, kw)
    &&& (p + kw.len() == data.len() || !spec_is_regular(data[p + kw.len()]))
}

/// The bytes of a name starting at `p` (after its `/`) and where it ends. `#xx` stands for the
/// byte with hex value `xx`; a `#` not followed by two hex digits is kept literally, and what
/// follows it is read as usual.
pub open spec fn name_scan(data: Seq<u8>, p: int) -> (Seq<u8>, int)
    decreases data.len() - p,
{
    if p < 0 || p >= data.len() || !spec_is_regular(data[p]) {
        (Seq::empty(), p)
    } else if data[p] == 35 {
        if p + 1 < data.len() && spec_hex_val(data[p + 1]) is Some {
            if p + 2 < data.len() && spec_hex_val(data[p + 2]) is Some {
                let b = (spec_hex_val(data[p + 1])->0 * 16 + spec_hex_val(data[p + 2])->0) as u8;
                let rest = name_scan(data, p + 3);
                (seq![b] + rest.0, rest.1)
            } else {
                let rest = name_scan(data, p + 1);
                (seq![35u8] + rest.0, rest.1)
            }
        } else {
            let rest = name_scan(data, p + 1);
            (seq![35u8] + rest.0, rest.1)
        }
    } else {
        let rest = name_scan(data, p + 1);
        (seq![data[p]] + rest.0, rest.1)
    }
}

/// A literal string's bytes from `p` (after its opening parenthesis) at nesting `depth`, and
/// where reading stops: after the balancing `)`, or at the end of data.
pub open spec fn literal_scan(data: Seq<u8>, p: int, depth: nat) -> (Seq<u8>, int)
    decreases data.len() - p,
{
    if p < 0 || p >= data.len() {
        (Seq::empty(), p)
    } else {
        let b = data[p];
        if b == 40 {
            let rest = literal_scan(data, p + 1, depth + 1);
            (seq![b] + rest.0, rest.1)
        } else if b == 41 {
            if depth <= 1 {
                (Seq::empty(), p + 1)
            } else {
                let rest = literal_scan(data, p + 1, (depth - 1) as nat);
                (seq![b] + rest.0, rest.1)
            }
        } else if b == 92 {
            if p + 1 >= data.len() {
                (Seq::empty(), p + 1)
            } else {
                let e = data[p + 1];
                if e == 13 {
                    let next = if p + 2 < data.len() && data[p + 2] == 10 {
                        p + 3
                    } else {
                        p + 2
                    };
                    literal_scan(data, next, depth)
                } else if e == 10 {
                    literal_scan(data, p + 2, depth)
                } else if 48 <= e <= 55 {
                    let o1 = p + 2 < data.len() && 48 <= data[p + 2] <= 55;
                    let o2 = o1 && p + 3 < data.len() && 48 <= data[p + 3] <= 55;
                    let v = if o2 {
                        (e - 48) * 64 + (data[p + 2] - 48) * 8 + (data[p + 3] - 48)
                    } else if o1 {
                        (e - 48) * 8 + (data[p + 2] - 48)
                    } else {
                        e - 48
                    };
                    let q = if o2 {
                        p + 4
                    } else if o1 {
                        p + 3
                    } else {
                        p + 2
                    };
                    let rest = literal_scan(data, q, depth);
                    (seq![(v % 256) as u8] + rest.0, rest.1)
                } else {
                    let out: u8 = if e == 110 {
                        10
                    } else if e == 114 {
                        13
                    } else if e == 116 {
                        9
                    } else if e == 98 {
                        8
                    } else if e == 102 {
                        12
                    } else {
                        e
                    };
                    let rest = literal_scan(data, p + 2, depth);
                    (seq![out] + rest.0, rest.1)
                }
            }
        } else {
            let rest = literal_scan(data, p + 1, depth);
            (seq![b] + rest.0, rest.1)
        }
    }
}

/// A literal string read on from `p`, with `b` put in front of what it gives.
pub open spec fn literal_with(b: u8, data: Seq<u8>, p: int, depth: nat) -> (Seq<u8>, int) {
    (seq![b] + literal_scan(data, p, depth).0, literal_scan(data, p, depth).1)
}

/// The escapes of a literal string (PDF Table 3): a backslash followed by `n`, `r`, `t`, `b` or
/// `f` stands for line feed (10), carriage return (13), horizontal tab (9), backspace (8) or form
/// feed (12), and followed by `(`, `)` or `\` for that byte itself; the two bytes become the one
/// and reading goes on after them.
pub proof fn literal_escapes_stand_for_their_bytes(data: Seq<u8>, p: int, depth: nat)
    requires
        0 <= p,
        p + 1 < data.len(),
        data[p] == 92,
    ensures
        data[p + 1] == 110 ==> literal_scan(data, p, depth) == literal_with(10, data, p + 2, depth),
        data[p + 1] == 114 ==> literal_scan(data, p, depth) == literal_with(13, data, p + 2, depth),
        data[p + 1] == 116 ==> literal_scan(data, p, depth) == literal_with(9, data, p + 2, depth),
        data[p + 1] == 98 ==> literal_scan(data, p, depth) == literal_with(8, data, p + 2, depth),
        data[p + 1] == 102 ==> literal_scan(data, p, depth) == literal_with(12, data, p + 2, depth),
        data[p + 1] == 40 ==> literal_scan(data, p, depth) == literal_with(40, data, p + 2, depth),
        data[p + 1] == 41 ==> literal_scan(data, p, depth) == literal_with(41, data, p + 2, depth),
        data[p + 1] == 92 ==> literal_scan(data, p, depth) == literal_with(92, data, p + 2, depth),
{
}

/// A backslash and three octal digits in a literal string stand for the byte of that value
/// (modulo 256); a backslash at the end of a line (before LF, CR or CR LF) stands for nothing.
pub proof fn literal_octal_and_line_escapes(data: Seq<u8>, p: int, depth: nat)
    requires
        0 <= p,
        p + 1 < data.len(),
        data[p] == 92,
    ensures
        p + 3 < data.len() && 48 <= data[p + 1] <= 55 && 48 <= data[p + 2] <= 55 && 48 <= data[p + 3]
            <= 55 ==> literal_scan(data, p, depth) == literal_with(
            (((data[p + 1] - 48) * 64 + (data[p + 2] - 48) * 8 + (data[p + 3] - 48)) % 256) as u8,
            data,
            p + 4,
            depth,
        ),
        data[p + 1] == 10 ==> literal_scan(data, p, depth) == literal_scan(data, p + 2, depth),
        data[p + 1] == 13 && p + 2 < data.len() && data[p + 2] == 10 ==> literal_scan(data, p, depth)
            == literal_scan(data, p + 3, depth),
        data[p + 1] == 13 && !(p + 2 < data.len() && data[p + 2] == 10) ==> literal_scan(data, p, depth)
            == literal_scan(data, p + 2, depth),
{
}

/// Bytes other than parentheses and the backslash stand for themselves in a literal string.
pub proof fn literal_plain_bytes_stand_for_themselves(data: Seq<u8>, p: int, depth: nat)
    requires
        0 <= p < data.len(),
        data[p] != 40 && data[p] != 41 && data[p] != 92,
    ensures
        literal_scan(data, p, depth) == literal_with(data[p], data, p + 1, depth),
{
}

/// The byte an odd final hex digit stands for: the digit padded with zero.
pub open spec fn hex_pad(hi: Option<u8>) -> Seq<u8> {
    match hi {
        Some(h) => seq![(h * 16) as u8],
        None => Seq::empty(),
    }
}

/// A hex string's bytes from `p` (after its `<`), with `hi` a pending high digit, and where
/// reading stops: after the `>`, or at the end of data. Non-hex bytes are ignored and an odd
/// final digit is padded with zero.
pub open spec fn hex_scan(data: Seq<u8>, p: int, hi: Option<u8>) -> (Seq<u8>, int)
    decreases data.len() - p,
{
    if p < 0 || p >= data.len() || data[p] == 62 {
        let end = if 0 <= p < data.len() {
            p + 1
        } else {
            p
        };
        (hex_pad(hi), end)
    } else {
        match spec_hex_val(data[p]) {
            None => hex_scan(data, p + 1, hi),
            Some(v) => match hi {
                Some(h) => {
                    let rest = hex_scan(data, p + 1, None);
                    (seq![(h * 16 + v) as u8] + rest.0, rest.1)
                },
                None => hex_scan(data, p + 1, Some(v)),
            },
        }
    }
}

/// A position in a byte buffer.
#[derive(Clone, Copy)]
pub struct Cursor<'a> {
    pub data: &'a [u8],
    pub pos: usize,
}

impl<'a> Cursor<'a> {
    pub fn new(data: &'a [u8]) -> (r: Self)
        ensures
            r.data@ == data@,
            r.pos == 0,
    {
        Cursor { data, pos: 0 }
    }

    /// A cursor at `pos`, clamped to the end of the data.
    pub fn at(data: &'a [u8], pos: usize) -> (r: Self)
        ensures
            r.data@ == data@,
            r.pos == if pos <= data@.len() {
                pos
            } else {
                data@.len() as usize
            },
    {
        let p = if pos <= data.len() {
            pos
        } else {
            data.len()
        };
        Cursor { data, pos: p }
    }

    pub fn peek(&self) -> (r: Option<u8>)
        ensures
            r == if self.pos < self.data@.len() {
                Some(self.data@[self.pos as int])
            } else {
                None::<u8>
            },
    {
        if self.pos < self.data.len() {
            Some(self.data[self.pos])
        } else {
            None
        }
    }

    pub fn bump(&mut self) -> (r: Option<u8>)
        ensures
            final(self).data == old(self).data,
            old(self).pos < old(self).data@.len() ==> r == Some(old(self).data@[old(self).pos as int])
                && final(self).pos == old(self).pos + 1,
            old(self).pos >= old(self).data@.len() ==> r is None && final(self).pos == old(self).pos,
    {
        if self.pos < self.data.len() {
            let b = self.data[self.pos];
            self.pos = self.pos + 1;
            Some(b)
        } else {
            None
        }
    }

    pub fn eof(&self) -> (r: bool)
        ensures
            r == (self.pos >= self.data@.len()),
    {
        self.pos >= self.data.len()
    }

    /// Skips whitespace and `%` comments.
    pub fn skip_ws(&mut self)
        ensures
            final(self).data == old(self).data,
            final(self).pos == ws_end(old(self).data@, old(self).pos as int, false),
            old(self).pos <= old(self).data@.len() ==> old(self).pos <= final(self).pos
                <= old(self).data@.len(),
    {
        proof {
            if self.pos <= self.data@.len() {
                lemma_ws_end_bounds(self.data@, self.pos as int, false);
            }
        }
        let ghost d = self.data@;
        let ghost start = self.pos as int;
        while self.pos < self.data.len()
            invariant_except_break
                self.data@ == d,
                ws_end(d, self.pos as int, false) == ws_end(d, start, false),
            ensures
                self.data@ == d,
                self.pos == ws_end(d, start, false),
            decreases self.data@.len() - self.pos,
        {
            let b = self.data[self.pos];
            if is_whitespace(b) {
                self.pos = self.pos + 1;
            } else if b == 37 {
                let ghost before = self.pos;
                self.pos = self.pos + 1;
                while self.pos < self.data.len()
                    invariant_except_break
                        self.data@ == d,
                        0 < self.pos <= d.len(),
                        before < self.pos,
                        ws_end(d, self.pos as int, true) == ws_end(d, start, false),
                    ensures
                        before < self.pos,
                        self.data@ == d,
                        0 < self.pos <= d.len(),
                        self.pos < d.len() ==> (d[self.pos as int] == 10 || d[self.pos as int] == 13),
                        ws_end(d, self.pos as int, true) == ws_end(d, start, false),
                    decreases self.data@.len() - self.pos,
                {
                    let c = self.data[self.pos];
                    if c == 10 || c == 13 {
                        break;
                    }
                    self.pos = self.pos + 1;
                }
                if self.pos < self.data.len() {
                    // The end-of-line byte closes the comment; it is whitespace itself.
                    self.pos = self.pos + 1;
                }
            } else {
                break;
            }
        }
    }

    /// Reads a run of regular characters (a keyword, operator or number).
    pub fn read_regular(&mut self) -> (r: &'a [u8])
        requires
            old(self).pos <= old(self).data@.len(),
        ensures
            final(self).data == old(self).data,
            final(self).pos == regular_end(old(self).data@, old(self).pos as int),
            r@ == old(self).data@.subrange(old(self).pos as int, final(self).pos as int),
            old(self).pos <= final(self).pos <= old(self).data@.len(),
    {
        let ghost d = self.data@;
        let start = self.pos;
        while self.pos < self.data.len()
            invariant_except_break
                self.data@ == d,
                start <= self.pos <= d.len(),
                regular_end(d, self.pos as int) == regular_end(d, start as int),
            ensures
                self.data@ == d,
                start <= self.pos <= d.len(),
                self.pos == regular_end(d, start as int),
            decreases self.data@.len() - self.pos,
        {
            if is_regular(self.data[self.pos]) {
                self.pos = self.pos + 1;
            } else {
                break;
            }
        }
        let data: &'a [u8] = self.data;
        &data[start..self.pos]
    }

    /// True and consumed if the next bytes are exactly `kw` followed by a non-regular byte.
    pub fn eat_keyword(&mut self, kw: &[u8]) -> (r: bool)
        ensures
            final(self).data == old(self).data,
            r == keyword_at(old(self).data@, old(self).pos as int, kw@),
            final(self).pos == if r {
                old(self).pos + kw@.len()
            } else {
                old(self).pos as int
            },
    {
        if self.pos > self.data.len() || kw.len() > self.data.len() - self.pos {
            return false;
        }
        let end = self.pos + kw.len();
        if bytes_at(self.data, self.pos, kw) && (end == self.data.len() || !is_regular(
            self.data[end],
        )) {
            self.pos = end;
            true
        } else {
            false
        }
    }

    /// Parses a name, positioned after the `/`.
    pub fn read_name(&mut self) -> (r: String)
        ensures
            final(self).data == old(self).data,
            final(self).pos == name_scan(old(self).data@, old(self).pos as int).1,
            r@ == crate::text::utf8_lossy(name_scan(old(self).data@, old(self).pos as int).0),
    {
        let ghost d = self.data@;
        let ghost start = self.pos as int;
        let mut out: Vec<u8> = Vec::new();
        while self.pos < self.data.len()
            invariant_except_break
                self.data@ == d,
                out@ + name_scan(d, self.pos as int).0 == name_scan(d, start).0,
                name_scan(d, self.pos as int).1 == name_scan(d, start).1,
            ensures
                self.data@ == d,
                out@ == name_scan(d, start).0,
                self.pos == name_scan(d, start).1,
            decreases self.data@.len() - self.pos,
        {
            let ghost p = self.pos as int;
            let b = self.data[self.pos];
            if !is_regular(b) {
                assert(out@ =~= out@ + name_scan(d, p).0);
                break;
            }
            self.pos = self.pos + 1;
            if b == 35 {
                let hi = match self.peek() {
                    Some(x) => hex_val(x),
                    None => None,
                };
                if let Some(hi) = hi {
                    let lo = if self.pos + 1 < self.data.len() {
                        hex_val(self.data[self.pos + 1])
                    } else {
                        None
                    };
                    if let Some(lo) = lo {
                        self.pos = self.pos + 2;
                        out.push(hi * 16 + lo);
                        assert(out@ + name_scan(d, self.pos as int).0 =~= name_scan(d, start).0);
                        continue;
                    }
                }
                // A `#` not followed by two hex digits is kept literally, matching viewers.
                out.push(35);
                assert(out@ + name_scan(d, self.pos as int).0 =~= name_scan(d, start).0);
            } else {
                out.push(b);
                assert(out@ + name_scan(d, self.pos as int).0 =~= name_scan(d, start).0);
            }
        }
        proof {
            if self.pos >= d.len() {
                assert(out@ =~= out@ + name_scan(d, self.pos as int).0);
            }
        }
        crate::text::string_from_utf8_lossy(out.as_slice())
    }

    /// Parses a literal string, positioned after the `(`.
    pub fn read_literal_string(&mut self) -> (r: Vec<u8>)
        ensures
            final(self).data == old(self).data,
            final(self).pos == literal_scan(old(self).data@, old(self).pos as int, 1).1,
            r@ == literal_scan(old(self).data@, old(self).pos as int, 1).0,
    {
        let ghost d = self.data@;
        let ghost start = self.pos as int;
        let mut out: Vec<u8> = Vec::new();
        let mut depth: u128 = 1;
        while self.pos < self.data.len()
            invariant_except_break
                self.data@ == d,
                1 <= depth <= self.pos + 1,
                out@ + literal_scan(d, self.pos as int, depth as nat).0 == literal_scan(d, start, 1).0,
                literal_scan(d, self.pos as int, depth as nat).1 == literal_scan(d, start, 1).1,
            ensures
                self.data@ == d,
                out@ == literal_scan(d, start, 1).0,
                self.pos == literal_scan(d, start, 1).1,
            decreases self.data@.len() - self.pos,
        {
            let ghost p = self.pos as int;
            let b = self.data[self.pos];
            self.pos = self.pos + 1;
            if b == 40 {
                depth = depth + 1;
                out.push(b);
                assert(out@ + literal_scan(d, self.pos as int, depth as nat).0 =~= literal_scan(d, start, 1).0);
            } else if b == 41 {
                if depth <= 1 {
                    assert(out@ =~= out@ + literal_scan(d, p, depth as nat).0);
                    break;
                }
                depth = depth - 1;
                out.push(b);
                assert(out@ + literal_scan(d, self.pos as int, depth as nat).0 =~= literal_scan(d, start, 1).0);
            } else if b == 92 {
                if self.pos >= self.data.len() {
                    assert(out@ =~= out@ + literal_scan(d, p, depth as nat).0);
                    break;
                }
                let esc = self.data[self.pos];
                self.pos = self.pos + 1;
                if esc == 13 {
                    // Line continuation; \r\n counts as one break.
                    if self.pos < self.data.len() && self.data[self.pos] == 10 {
                        self.pos = self.pos + 1;
                    }
                } else if esc == 10 {
                } else if 48 <= esc && esc <= 55 {
                    let mut v: u32 = (esc - 48) as u32;
                    if self.pos < self.data.len() && 48 <= self.data[self.pos] && self.data[self.pos] <= 55 {
                        v = v * 8 + (self.data[self.pos] - 48) as u32;
                        self.pos = self.pos + 1;
                        if self.pos < self.data.len() && 48 <= self.data[self.pos] && self.data[self.pos] <= 55 {
                            v = v * 8 + (self.data[self.pos] - 48) as u32;
                            self.pos = self.pos + 1;
                        }
                    }
                    assert(v < 512);
                    out.push((v % 256) as u8);
                } else {
                    let o: u8 = if esc == 110 {
                        10
                    } else if esc == 114 {
                        13
                    } else if esc == 116 {
                        9
                    } else if esc == 98 {
                        8
                    } else if esc == 102 {
                        12
                    } else {
                        esc
                    };
                    out.push(o);
                }
                assert(out@ + literal_scan(d, self.pos as int, depth as nat).0 =~= literal_scan(d, start, 1).0);
            } else {
                out.push(b);
                assert(out@ + literal_scan(d, self.pos as int, depth as nat).0 =~= literal_scan(d, start, 1).0);
            }
        }
        proof {
            if self.pos >= d.len() && self.pos == literal_scan(d, self.pos as int, depth as nat).1 {
                assert(out@ =~= out@ + literal_scan(d, self.pos as int, depth as nat).0);
            }
        }
        out
    }

    /// Parses a hex string, positioned after the `<`.
    pub fn read_hex_string(&mut self) -> (r: Vec<u8>)
        ensures
            final(self).data == old(self).data,
            final(self).pos == hex_scan(old(self).data@, old(self).pos as int, None).1,
            r@ == hex_scan(old(self).data@, old(self).pos as int, None).0,
    {
        let ghost d = self.data@;
        let ghost start = self.pos as int;
        let mut out: Vec<u8> = Vec::new();
        let mut hi: Option<u8> = None;
        while self.pos < self.data.len()
            invariant_except_break
                self.data@ == d,
                hi matches Some(h) ==> h < 16,
                out@ + hex_scan(d, self.pos as int, hi).0 == hex_scan(d, start, None).0,
                hex_scan(d, self.pos as int, hi).1 == hex_scan(d, start, None).1,
            ensures
                self.data@ == d,
                hi matches Some(h) ==> h < 16,
                out@ + hex_pad(hi) == hex_scan(d, start, None).0,
                self.pos == hex_scan(d, start, None).1,
            decreases self.data@.len() - self.pos,
        {
            let b = self.data[self.pos];
            if b == 62 {
                assert(out@ + hex_pad(hi) == out@ + hex_scan(d, self.pos as int, hi).0);
                self.pos = self.pos + 1;
                break;
            }
            self.pos = self.pos + 1;
            match hex_val(b) {
                None => {},
                Some(v) => {
                    match hi {
                        Some(h) => {
                            out.push(h * 16 + v);
                            hi = None;
                            assert(out@ + hex_scan(d, self.pos as int, hi).0 =~= hex_scan(d, start, None).0);
                        },
                        None => {
                            hi = Some(v);
                        },
                    }
                },
            }
        }
        // An odd final digit is padded with zero.
        if let Some(h) = hi {
            out.push(h * 16);
        }
        assert(out@ =~= hex_scan(d, start, None).0);
        out
    }
}

} // verus!

verus! {

// ---- numbers ---------------------------------------------------------------------------------

pub open spec fn is_digit(b: u8) -> bool {
    48 <= b <= 57
}

pub open spec fn is_sign(b: u8) -> bool {
    b == 43 || b == 45
}

/// The value of a run of decimal digits.
pub open spec fn digits_value(s: Seq<u8>) -> int
    decreases s.len(),
{
    if s.len() == 0 {
        0
    } else {
        digits_value(s.drop_last()) * 10 + (s.last() - 48)
    }
}

pub open spec fn all_digits(s: Seq<u8>) -> bool {
    forall|i: int| 0 <= i < s.len() ==> is_digit(#[trigger] s[i])
}

/// `s` without one leading sign, if it has one.
pub open spec fn unsigned_part(s: Seq<u8>) -> Seq<u8> {
    if s.len() > 0 && is_sign(s[0]) {
        s.drop_first()
    } else {
        s
    }
}

/// What `i64::from_str` reads from `tok`: an optional sign and at least one digit, in range.
pub open spec fn int_token(tok: Seq<u8>) -> Option<i64> {
    let body = unsigned_part(tok);
    if body.len() > 0 && all_digits(body) {
        let v = if tok[0] == 45 {
            -digits_value(body)
        } else {
            digits_value(body)
        };
        if i64::MIN <= v <= i64::MAX {
            Some(v as i64)
        } else {
            None
        }
    } else {
        None
    }
}

/// The first position at or after `p` that is not a digit.
pub open spec fn digit_run_end(s: Seq<u8>, p: int) -> int
    decreases s.len() - p,
{
    if p < 0 || p >= s.len() || !is_digit(s[p]) {
        p
    } else {
        digit_run_end(s, p + 1)
    }
}

/// `s[k..]` is empty or an exponent: `e` or `E`, an optional sign, and at least one digit.
pub open spec fn exponent_ok(s: Seq<u8>, k: int) -> bool {
    ||| k == s.len()
    ||| (0 <= k < s.len() && (s[k] == 101 || s[k] == 69) && {
        let k2 = if k + 1 < s.len() && is_sign(s[k + 1]) {
            k + 2
        } else {
            k + 1
        };
        let k3 = digit_run_end(s, k2);
        k3 > k2 && k3 == s.len()
    })
}

/// The unsigned decimal grammar of `f64::from_str`: digits with at most one point and at
/// least one digit, then an optional exponent.
pub open spec fn decimal_number(s: Seq<u8>) -> bool {
    let i = digit_run_end(s, 0);
    if i < s.len() && s[i] == 46 {
        let j = digit_run_end(s, i + 1);
        (i > 0 || j > i + 1) && exponent_ok(s, j)
    } else {
        i > 0 && exponent_ok(s, i)
    }
}

pub open spec fn ascii_lower(b: u8) -> u8 {
    if 65 <= b <= 90 {
        (b + 32) as u8
    } else {
        b
    }
}

/// `s` equals the lower-case ASCII word `w`, ignoring case.
pub open spec fn eq_ignore_case(s: Seq<u8>, w: Seq<u8>) -> bool {
    s.len() == w.len() && forall|i: int| 0 <= i < s.len() ==> ascii_lower(#[trigger] s[i]) == w[i]
}

/// `inf`, `infinity` or `nan`, in any case: text `f64::from_str` reads to a non-finite value.
pub open spec fn non_finite_word(s: Seq<u8>) -> bool {
    ||| eq_ignore_case(s, seq![105u8, 110, 102])
    ||| eq_ignore_case(s, seq![105u8, 110, 102, 105, 110, 105, 116, 121])
    ||| eq_ignore_case(s, seq![110u8, 97, 110])
}

/// The broken-producer repair: the first sign is kept, later signs before any digit or point
/// are dropped, digits and points are kept, and anything else rejects the token.
pub open spec fn clean_from(s: Seq<u8>, i: int, seen: bool, acc: Seq<u8>) -> Option<Seq<u8>>
    decreases s.len() - i,
{
    if i < 0 || i >= s.len() {
        Some(acc)
    } else {
        let c = s[i];
        if is_sign(c) && i == 0 {
            clean_from(s, i + 1, seen, acc.push(c))
        } else if is_sign(c) && !seen {
            clean_from(s, i + 1, seen, acc)
        } else if is_digit(c) || c == 46 {
            clean_from(s, i + 1, true, acc.push(c))
        } else {
            None
        }
    }
}

/// The decimal text a real-number token stands for, or `None` when the token is no real
/// number. A token in the `f64` grammar stands for itself; `inf` and `nan` are rejected; other
/// tokens are repaired by [`clean_from`], and a repair left with no digit stands for zero.
pub open spec fn real_token(s: Seq<u8>) -> Option<Seq<u8>> {
    let body = unsigned_part(s);
    if decimal_number(body) {
        Some(s)
    } else if non_finite_word(body) {
        None
    } else {
        match clean_from(s, 0, false, Seq::empty()) {
            None => None,
            Some(c) => {
                let cb = unsigned_part(c);
                if cb.len() == 0 || (cb.len() == 1 && cb[0] == 46) {
                    Some(seq![48u8])
                } else if decimal_number(cb) {
                    Some(c)
                } else {
                    None
                }
            },
        }
    }
}

/// The token has a point or an exponent marker.
pub open spec fn has_real_marker(s: Seq<u8>) -> bool {
    exists|i: int| 0 <= i < s.len() && (s[i] == 46 || s[i] == 101 || s[i] == 69)
}

/// The number a token stands for: an integer when it has no point or exponent and fits in
/// `i64`, a real otherwise.
pub open spec fn number_token(s: Seq<u8>) -> Option<crate::object::ObjectView> {
    if s.len() == 0 {
        None
    } else if !has_real_marker(s) && int_token(s) is Some {
        Some(crate::object::ObjectView::Int(int_token(s)->0))
    } else {
        match real_token(s) {
            Some(t) => Some(crate::object::ObjectView::Real(t)),
            None => None,
        }
    }
}

pub proof fn lemma_digit_run_end(s: Seq<u8>, p: int)
    requires
        0 <= p <= s.len(),
    ensures
        p <= digit_run_end(s, p) <= s.len(),
        forall|k: int| p <= k < digit_run_end(s, p) ==> is_digit(#[trigger] s[k]),
        digit_run_end(s, p) < s.len() ==> !is_digit(s[digit_run_end(s, p)]),
    decreases s.len() - p,
{
    if p < s.len() && is_digit(s[p]) {
        lemma_digit_run_end(s, p + 1);
    }
}

proof fn lemma_digits_value_step(s: Seq<u8>, k: int)
    requires
        0 <= k < s.len(),
    ensures
        digits_value(s.subrange(0, k + 1)) == digits_value(s.subrange(0, k)) * 10 + (s[k] - 48),
{
    assert(s.subrange(0, k + 1).drop_last() =~= s.subrange(0, k));
}

proof fn lemma_digits_value_nonneg(s: Seq<u8>)
    requires
        all_digits(s),
    ensures
        digits_value(s) >= 0,
    decreases s.len(),
{
    if s.len() > 0 {
        assert(all_digits(s.drop_last())) by {
            assert forall|i: int| 0 <= i < s.drop_last().len() implies is_digit(
                #[trigger] s.drop_last()[i],
            ) by {
                assert(s.drop_last()[i] == s[i]);
            }
        }
        lemma_digits_value_nonneg(s.drop_last());
    }
}

/// Whether `b` begins with `w`.
pub fn starts_with(b: &[u8], w: &[u8]) -> (r: bool)
    ensures
        r == (w@.len() <= b@.len() && b@.subrange(0, w@.len() as int) == w@),
{
    if w.len() > b.len() {
        return false;
    }
    bytes_at(b, 0, w)
}

fn digit_end(s: &[u8], p: usize) -> (r: usize)
    requires
        p <= s@.len(),
    ensures
        r == digit_run_end(s@, p as int),
        p <= r <= s@.len(),
{
    proof {
        lemma_digit_run_end(s@, p as int);
    }
    let mut i = p;
    while i < s.len() && 48 <= s[i] && s[i] <= 57
        invariant
            p <= i <= s@.len(),
            digit_run_end(s@, i as int) == digit_run_end(s@, p as int),
        decreases s@.len() - i,
    {
        i = i + 1;
    }
    i
}

fn exponent_check(s: &[u8], k: usize) -> (r: bool)
    requires
        k <= s@.len(),
    ensures
        r == exponent_ok(s@, k as int),
{
    if k == s.len() {
        return true;
    }
    if !(s[k] == 101 || s[k] == 69) {
        return false;
    }
    let k2 = if k + 1 < s.len() && (s[k + 1] == 43 || s[k + 1] == 45) {
        k + 2
    } else {
        k + 1
    };
    let k3 = digit_end(s, k2);
    k3 > k2 && k3 == s.len()
}

fn decimal_check(s: &[u8]) -> (r: bool)
    ensures
        r == decimal_number(s@),
{
    let i = digit_end(s, 0);
    if i < s.len() && s[i] == 46 {
        let j = digit_end(s, i + 1);
        (i > 0 || j > i + 1) && exponent_check(s, j)
    } else {
        i > 0 && exponent_check(s, i)
    }
}

fn eq_ignore_case_check(s: &[u8], w: &[u8]) -> (r: bool)
    ensures
        r == eq_ignore_case(s@, w@),
{
    if s.len() != w.len() {
        return false;
    }
    let mut i: usize = 0;
    while i < s.len()
        invariant
            s@.len() == w@.len(),
            i <= s@.len(),
            forall|k: int| 0 <= k < i ==> ascii_lower(#[trigger] s@[k]) == w@[k],
        decreases s@.len() - i,
    {
        let c = s[i];
        let l = if 65 <= c && c <= 90 {
            c + 32
        } else {
            c
        };
        if l != w[i] {
            return false;
        }
        i = i + 1;
    }
    true
}

fn unsigned_slice(s: &[u8]) -> (r: &[u8])
    ensures
        r@ == unsigned_part(s@),
{
    if s.len() > 0 && (s[0] == 43 || s[0] == 45) {
        let r = &s[1..s.len()];
        assert(r@ =~= s@.drop_first());
        r
    } else {
        s
    }
}

fn int_parse(tok: &[u8]) -> (r: Option<i64>)
    ensures
        r == int_token(tok@),
{
    let body = unsigned_slice(tok);
    if body.len() == 0 {
        return None;
    }
    let limit: u128 = 9223372036854775808;
    let mut acc: u128 = 0;
    let mut big = false;
    let mut k: usize = 0;
    while k < body.len()
        invariant
            body@ == unsigned_part(tok@),
            limit == 9223372036854775808,
            k <= body@.len(),
            forall|i: int| 0 <= i < k ==> is_digit(#[trigger] body@[i]),
            acc <= limit,
            !big ==> acc == digits_value(body@.subrange(0, k as int)),
            big ==> digits_value(body@.subrange(0, k as int)) > limit,
        decreases body@.len() - k,
    {
        let c = body[k];
        if !(48 <= c && c <= 57) {
            assert(!is_digit(body@[k as int]));
            assert(!all_digits(body@));
            return None;
        }
        proof {
            lemma_digits_value_step(body@, k as int);
            assert(all_digits(body@.subrange(0, k as int))) by {
                assert forall|i: int| 0 <= i < k implies is_digit(
                    #[trigger] body@.subrange(0, k as int)[i],
                ) by {
                    assert(body@.subrange(0, k as int)[i] == body@[i]);
                }
            }
            lemma_digits_value_nonneg(body@.subrange(0, k as int));
        }
        if !big {
            assert(acc * 10 <= limit * 10) by (nonlinear_arith)
                requires
                    acc <= limit,
            ;
            let n = acc * 10 + (c - 48) as u128;
            if n > limit {
                big = true;
            } else {
                acc = n;
            }
        }
        k = k + 1;
    }
    assert(body@.subrange(0, body@.len() as int) =~= body@);
    assert(all_digits(body@));
    if big {
        return None;
    }
    if tok[0] == 45 {
        Some((0 - acc as i128) as i64)
    } else if acc < limit {
        Some(acc as i64)
    } else {
        None
    }
}

fn clean_token(s: &[u8]) -> (r: Option<Vec<u8>>)
    ensures
        match r {
            Some(v) => clean_from(s@, 0, false, Seq::empty()) == Some(v@),
            None => clean_from(s@, 0, false, Seq::empty()) is None,
        },
{
    let mut out: Vec<u8> = Vec::new();
    let mut seen = false;
    let mut i: usize = 0;
    while i < s.len()
        invariant
            i <= s@.len(),
            clean_from(s@, i as int, seen, out@) == clean_from(s@, 0, false, Seq::empty()),
        decreases s@.len() - i,
    {
        let c = s[i];
        if (c == 43 || c == 45) && i == 0 {
            out.push(c);
        } else if (c == 43 || c == 45) && !seen {
        } else if (48 <= c && c <= 57) || c == 46 {
            seen = true;
            out.push(c);
        } else {
            return None;
        }
        i = i + 1;
    }
    Some(out)
}

fn real_parse(s: &[u8]) -> (r: Option<Vec<u8>>)
    ensures
        match r {
            Some(v) => real_token(s@) == Some(v@),
            None => real_token(s@) is None,
        },
{
    let body = unsigned_slice(s);
    if decimal_check(body) {
        return Some(vstd::slice::slice_to_vec(s));
    }
    if eq_ignore_case_check(body, &[105, 110, 102]) || eq_ignore_case_check(
        body,
        &[105, 110, 102, 105, 110, 105, 116, 121],
    ) || eq_ignore_case_check(body, &[110, 97, 110]) {
        assert(non_finite_word(body@));
        return None;
    }
    assert(!non_finite_word(body@));
    match clean_token(s) {
        None => None,
        Some(c) => {
            let cb = unsigned_slice(c.as_slice());
            if cb.len() == 0 || (cb.len() == 1 && cb[0] == 46) {
                let mut z: Vec<u8> = Vec::new();
                z.push(48);
                assert(z@ =~= seq![48u8]);
                Some(z)
            } else if decimal_check(cb) {
                Some(c)
            } else {
                None
            }
        },
    }
}

/// Ten to the power `k`.
pub open spec fn pow10(k: nat) -> int
    decreases k,
{
    if k == 0 {
        1
    } else {
        10 * pow10((k - 1) as nat)
    }
}

/// The digits of the integer part of a number with digits `m` and `n` digits before its point:
/// the first `n` digits of `m`, padded with zeros past its end.
pub open spec fn shifted_digits(m: Seq<u8>, n: int) -> Seq<u8> {
    Seq::new(
        if n > 0 {
            n as nat
        } else {
            0
        },
        |q: int|
            if q < m.len() {
                m[q]
            } else {
                48u8
            },
    )
}

/// The exponent of a real's unsigned text `b` whose digits and point end at `k`: zero without
/// an exponent marker.
pub open spec fn real_exponent(b: Seq<u8>, k: int) -> int {
    if k < b.len() {
        let k2 = if k + 1 < b.len() && is_sign(b[k + 1]) {
            k + 2
        } else {
            k + 1
        };
        let ev = digits_value(b.subrange(k2, digit_run_end(b, k2)));
        if k2 == k + 2 && b[k + 1] == 45 {
            -ev
        } else {
            ev
        }
    } else {
        0
    }
}

/// A real's text taken apart: its sign, the digits of its mantissa, how many of them stand
/// before the point, and its exponent.
pub open spec fn real_parts(t: Seq<u8>) -> (bool, Seq<u8>, int, int) {
    let neg = t.len() > 0 && t[0] == 45;
    let b = unsigned_part(t);
    let i = digit_run_end(b, 0);
    if i < b.len() && b[i] == 46 {
        let j = digit_run_end(b, i + 1);
        (neg, b.subrange(0, i) + b.subrange(i + 1, j), i, real_exponent(b, j))
    } else {
        (neg, b.subrange(0, i), i, real_exponent(b, i))
    }
}

/// The integer a real number's text converts to: its value truncated toward zero and clamped
/// to the `i64` range.
pub open spec fn real_to_int_spec(t: Seq<u8>) -> i64 {
    let (neg, m, point, e) = real_parts(t);
    let mag = digits_value(shifted_digits(m, point + e));
    if neg {
        if mag >= 0x8000_0000_0000_0000 {
            i64::MIN
        } else {
            (-mag) as i64
        }
    } else {
        if mag > i64::MAX {
            i64::MAX
        } else {
            mag as i64
        }
    }
}

proof fn lemma_digits_concat(a: Seq<u8>, b: Seq<u8>)
    ensures
        digits_value(a + b) == digits_value(a) * pow10(b.len()) + digits_value(b),
    decreases b.len(),
{
    if b.len() == 0 {
        assert(a + b =~= a);
    } else {
        let b2 = b.drop_last();
        lemma_digits_concat(a, b2);
        assert((a + b).drop_last() =~= a + b2);
        let x = digits_value(a);
        let p = pow10(b2.len());
        let y = digits_value(b2);
        assert((x * p + y) * 10 == x * (10 * p) + y * 10) by (nonlinear_arith);
    }
}

proof fn lemma_zero_digits(n: nat)
    ensures
        digits_value(Seq::new(n, |q: int| 48u8)) == 0,
    decreases n,
{
    if n > 0 {
        assert(Seq::new(n, |q: int| 48u8).drop_last() =~= Seq::new((n - 1) as nat, |q: int| 48u8));
        lemma_zero_digits((n - 1) as nat);
    }
}

proof fn lemma_pow10_pos(k: nat)
    ensures
        pow10(k) >= 1,
    decreases k,
{
    if k > 0 {
        lemma_pow10_pos((k - 1) as nat);
    }
}

proof fn lemma_digit_seq_nonneg(s: Seq<u8>)
    requires
        forall|i: int| 0 <= i < s.len() ==> 48 <= #[trigger] s[i],
    ensures
        digits_value(s) >= 0,
    decreases s.len(),
{
    if s.len() > 0 {
        lemma_digit_seq_nonneg(s.drop_last());
    }
}

/// The `q`-th mantissa digit of an unsigned real text `b` whose integer digits end at `i`.
fn mantissa_digit(b: &[u8], i: usize, q: usize) -> (r: u8)
    requires
        q < i ==> q < b@.len(),
        q >= i ==> q + 1 < b@.len(),
    ensures
        r == (if q < i {
            b@[q as int]
        } else {
            b@[q + 1]
        }),
{
    let bl = b.len();
    if q < i {
        b[q]
    } else {
        b[q + 1]
    }
}

/// The integer value of a run of digits, saturated at `cap`.
fn saturating_digits(s: &[u8], from: usize, to: usize, cap: u128) -> (r: u128)
    requires
        from <= to <= s@.len(),
        forall|k: int| from <= k < to ==> is_digit(#[trigger] s@[k]),
        cap < 0x1_0000_0000_0000_0000_0000_0000,
    ensures
        r == (if digits_value(s@.subrange(from as int, to as int)) >= cap {
            cap as int
        } else {
            digits_value(s@.subrange(from as int, to as int))
        }),
{
    let mut v: u128 = 0;
    let mut k: usize = from;
    while k < to
        invariant
            from <= k <= to <= s@.len(),
            forall|j: int| from <= j < to ==> is_digit(#[trigger] s@[j]),
            cap < 0x1_0000_0000_0000_0000_0000_0000,
            v == (if digits_value(s@.subrange(from as int, k as int)) >= cap {
                cap as int
            } else {
                digits_value(s@.subrange(from as int, k as int))
            }),
        decreases to - k,
    {
        let ghost pre = s@.subrange(from as int, k as int);
        assert(s@.subrange(from as int, k + 1).drop_last() =~= pre);
        proof {
            lemma_digit_seq_nonneg(pre);
        }
        let d = (s[k] - 48) as u128;
        if v >= cap {
            assert(digits_value(s@.subrange(from as int, k + 1)) >= cap);
        } else {
            let n = v * 10 + d;
            v = if n >= cap {
                cap
            } else {
                n
            };
        }
        k = k + 1;
    }
    v
}

/// The exponent of the unsigned real text `b` whose mantissa ends at `j`, saturated at
/// `2^70` in magnitude.
fn real_exponent_sat(b: &[u8], j: usize) -> (e: i128)
    requires
        j <= b@.len(),
    ensures
        -0x40_0000_0000_0000_0000 <= e <= 0x40_0000_0000_0000_0000,
        e == real_exponent(b@, j as int) || (e == 0x40_0000_0000_0000_0000 && real_exponent(
            b@,
            j as int,
        ) >= 0x40_0000_0000_0000_0000) || (e == -0x40_0000_0000_0000_0000 && real_exponent(
            b@,
            j as int,
        ) <= -0x40_0000_0000_0000_0000),
{
    let bl = b.len();
    if j >= bl {
        return 0;
    }
    let signed = j + 1 < bl && (b[j + 1] == 43 || b[j + 1] == 45);
    let minus = signed && b[j + 1] == 45;
    let k2 = if signed {
        j + 2
    } else {
        j + 1
    };
    proof {
        lemma_digit_run_end(b@, k2 as int);
    }
    let k3 = digit_end(b, k2);
    let ev = saturating_digits(b, k2, k3, 0x40_0000_0000_0000_0000);
    proof {
        lemma_digit_seq_nonneg(b@.subrange(k2 as int, k3 as int));
    }
    if minus {
        0 - ev as i128
    } else {
        ev as i128
    }
}

/// `min(value of shifted_digits(m, n_true), 2^63)`, where the first `mlen` digits are those
/// of `m` read through [`mantissa_digit`] and `n` is `n_true` or, when the exponent
/// saturated, at least `2^70`.
fn shifted_value(
    b: &[u8],
    i: usize,
    mlen: usize,
    n: i128,
    Ghost(m): Ghost<Seq<u8>>,
    Ghost(n_true): Ghost<int>,
) -> (v: u128)
    requires
        mlen == m.len(),
        i <= b@.len(),
        mlen <= i || mlen + 1 <= b@.len(),
        forall|x: int| 0 <= x < mlen ==> is_digit(#[trigger] m[x]),
        forall|x: int| 0 <= x < mlen ==> #[trigger] m[x] == (if x < i {
            b@[x]
        } else {
            b@[x + 1]
        }),
        mlen <= i ==> mlen == i,
        n == n_true || (n >= 0x40_0000_0000_0000_0000 && n_true >= n) || (n <= 0 && n_true <= 0),
    ensures
        v == (if digits_value(shifted_digits(m, n_true)) >= 0x8000_0000_0000_0000 {
            0x8000_0000_0000_0000
        } else {
            digits_value(shifted_digits(m, n_true))
        }),
{
    let ghost full = shifted_digits(m, n_true);
    let bl = b.len();
    let cap: u128 = 0x8000_0000_0000_0000;
    if n <= 0 {
        assert(full =~= Seq::<u8>::empty());
        return 0;
    }
    assert(n == n_true || (n >= 0x40_0000_0000_0000_0000 && n_true >= n));
    let mut v: u128 = 0;
    let mut q: u128 = 0;
    proof {
        reveal_with_fuel(pow10, 20);
        assert(pow10(19) == 10_000_000_000_000_000_000);
    }
    loop
        invariant
            0 < n,
            q <= n,
            bl == b@.len(),
            n == n_true || (n >= 0x40_0000_0000_0000_0000 && n_true >= n),
            mlen == m.len(),
            i <= bl,
            mlen <= i || mlen + 1 <= bl,
            mlen <= i ==> mlen == i,
            forall|x: int| 0 <= x < mlen ==> is_digit(#[trigger] m[x]),
            forall|x: int| 0 <= x < mlen ==> #[trigger] m[x] == (if x < i {
                b@[x]
            } else {
                b@[x + 1]
            }),
            full == shifted_digits(m, n_true),
            cap == 0x8000_0000_0000_0000,
            pow10(19) == 10_000_000_000_000_000_000,
            v == (if digits_value(full.subrange(0, q as int)) >= cap {
                cap as int
            } else {
                digits_value(full.subrange(0, q as int))
            }),
            q >= mlen ==> (v == 0 || v >= cap || v >= pow10((q - mlen) as nat)),
        ensures
            v == (if digits_value(full) >= cap {
                cap as int
            } else {
                digits_value(full)
            }),
        decreases n - q,
    {
        let ghost pre = full.subrange(0, q as int);
        let ghost rest = full.subrange(q as int, full.len() as int);
        assert(forall|x: int| 0 <= x < full.len() ==> 48 <= #[trigger] full[x]);
        if v >= cap {
            proof {
                lemma_digits_concat(pre, rest);
                assert(pre + rest =~= full);
                lemma_digit_seq_nonneg(rest);
                lemma_digit_seq_nonneg(pre);
                lemma_pow10_pos(rest.len());
                assert(digits_value(pre) * pow10(rest.len()) >= digits_value(pre)) by (nonlinear_arith)
                    requires
                        digits_value(pre) >= 0,
                        pow10(rest.len()) >= 1,
                ;
            }
            return v;
        }
        if q >= mlen as u128 && v == 0 {
            proof {
                lemma_digits_concat(pre, rest);
                assert(pre + rest =~= full);
                assert(rest =~= Seq::new(rest.len(), |x: int| 48u8));
                lemma_zero_digits(rest.len());
            }
            return v;
        }
        if q == n as u128 {
            proof {
                if n != n_true {
                    assert(q >= mlen + 19);
                    lemma_pow10_mono(19, (q - mlen) as nat);
                    assert(false);
                }
                assert(full.subrange(0, q as int) =~= full);
            }
            return v;
        }
        let d: u8 = if q < mlen as u128 {
            mantissa_digit(b, i, q as usize)
        } else {
            48
        };
        assert(d == full[q as int]);
        assert(full.subrange(0, q + 1).drop_last() =~= pre);
        proof {
            lemma_digit_seq_nonneg(pre);
            if q >= mlen {
                if v > 0 {
                    assert(pow10((q + 1 - mlen) as nat) == 10 * pow10((q - mlen) as nat));
                }
            } else if q + 1 == mlen {
                lemma_pow10_pos(0);
            }
        }
        let nv = v * 10 + (d - 48) as u128;
        v = if nv >= cap {
            cap
        } else {
            nv
        };
        q = q + 1;
    }
}

/// The integer a real number's text converts to: truncated toward zero, clamped to `i64`.
pub fn real_to_int(t: &[u8]) -> (r: i64)
    ensures
        r == real_to_int_spec(t@),
{
    let neg = t.len() > 0 && t[0] == 45;
    let b = unsigned_slice(t);
    let bl = b.len();
    let i = digit_end(b, 0);
    proof {
        lemma_digit_run_end(b@, 0);
    }
    let has_point = i < bl && b[i] == 46;
    let j = if has_point {
        proof {
            lemma_digit_run_end(b@, i + 1);
        }
        digit_end(b, i + 1)
    } else {
        i
    };
    let mlen: usize = if has_point {
        j - 1
    } else {
        i
    };
    let ghost m: Seq<u8> = if has_point {
        b@.subrange(0, i as int) + b@.subrange(i + 1, j as int)
    } else {
        b@.subrange(0, i as int)
    };
    assert(m.len() == mlen);
    assert forall|x: int| 0 <= x < mlen implies is_digit(#[trigger] m[x]) && m[x] == (if x < i {
        b@[x]
    } else {
        b@[x + 1]
    }) by {
        if x < i {
            assert(m[x] == b@[x]);
        } else {
            assert(m[x] == b@[x + 1]);
        }
    }
    let e = real_exponent_sat(b, j);
    let n: i128 = i as i128 + e;
    let ghost n_true = i + real_exponent(b@, j as int);
    let v = shifted_value(b, i, mlen, n, Ghost(m), Ghost(n_true));
    proof {
        lemma_digit_seq_nonneg(shifted_digits(m, n_true));
    }
    if neg {
        if v >= 0x8000_0000_0000_0000 {
            i64::MIN
        } else {
            (0 - v as i128) as i64
        }
    } else {
        if v > 0x7fff_ffff_ffff_ffff {
            i64::MAX
        } else {
            v as i64
        }
    }
}

proof fn lemma_pow10_mono(a: nat, b: nat)
    requires
        a <= b,
    ensures
        pow10(a) <= pow10(b),
    decreases b,
{
    if a < b {
        lemma_pow10_mono(a, (b - 1) as nat);
        lemma_pow10_pos((b - 1) as nat);
    }
}

impl<'a> Cursor<'a> {
    /// Parses a number token from raw bytes.
    pub fn parse_number(tok: &[u8]) -> (r: Option<crate::object::Object>)
        ensures
            match r {
                Some(o) => number_token(tok@) == Some(o@),
                None => number_token(tok@) is None,
            },
    {
        if tok.len() == 0 {
            return None;
        }
        let mut marker = false;
        let mut i: usize = 0;
        while i < tok.len()
            invariant
                i <= tok@.len(),
                marker == exists|k: int| 0 <= k < i && (tok@[k] == 46 || tok@[k] == 101 || tok@[k] == 69),
            decreases tok@.len() - i,
        {
            if tok[i] == 46 || tok[i] == 101 || tok[i] == 69 {
                marker = true;
            }
            i = i + 1;
        }
        if !marker {
            if let Some(v) = int_parse(tok) {
                return Some(crate::object::Object::Int(v));
            }
        }
        // Real numbers in the wild include forms like `.5`, `4.`, `-.002` and `--0` (broken
        // producers); parse leniently.
        match real_parse(tok) {
            Some(t) => Some(crate::object::Object::Real(t)),
            None => None,
        }
    }
}

} // verus!

verus! {

// ---- objects ---------------------------------------------------------------------------------

use crate::object::{Object, ObjectView, Dict, ObjRef, dict_insert};

/// Byte-sequence equality.
pub fn slice_eq(a: &[u8], b: &[u8]) -> (r: bool)
    ensures
        r == (a@ == b@),
{
    if a.len() != b.len() {
        return false;
    }
    let r = bytes_at(a, 0, b);
    assert(a@.subrange(0, b@.len() as int) =~= a@);
    r
}

/// The object at `p` (after whitespace) and where reading it leaves the cursor. `None` at a
/// delimiter that cannot start an object (`]`, `>`, `)`, `}`), at an unknown keyword (the cursor
/// stays at its first byte), or at the end of data. `n g R` is read as one reference.
pub open spec fn object_scan(d: Seq<u8>, p: int) -> (Option<ObjectView>, int)
    decreases d.len() - p, 0int,
{
    if p < 0 || p > d.len() {
        (None, p)
    } else {
        let q = ws_end(d, p, false);
        if q < p || q >= d.len() {
            (None, q)
        } else {
            let b = d[q];
            if b == 47 {
                let (n, e) = name_scan(d, q + 1);
                (Some(ObjectView::Name(crate::text::utf8_lossy(n))), e)
            } else if b == 40 {
                let (s, e) = literal_scan(d, q + 1, 1);
                (Some(ObjectView::Str(s)), e)
            } else if b == 60 {
                if q + 1 < d.len() && d[q + 1] == 60 {
                    let (entries, e) = dict_scan(d, q + 2, Seq::empty());
                    (Some(ObjectView::Dict(entries)), e)
                } else {
                    let (s, e) = hex_scan(d, q + 1, None);
                    (Some(ObjectView::Str(s)), e)
                }
            } else if b == 91 {
                let (items, e) = array_scan(d, q + 1);
                (Some(ObjectView::Array(items)), e)
            } else if b == 93 || b == 62 || b == 41 || b == 125 {
                (None, q)
            } else if b == 123 {
                // PostScript procedure braces are not valid at object level; skipped.
                object_scan(d, q + 1)
            } else if regular_end(d, q) <= q {
                // A stray byte the grammar does not know; stepped over.
                object_scan(d, q + 1)
            } else {
                token_scan(d, q)
            }
        }
    }
}

/// A keyword or number token at `q` (which is regular), with reference backtracking.
pub open spec fn token_scan(d: Seq<u8>, q: int) -> (Option<ObjectView>, int) {
    let t = regular_end(d, q);
    let tok = d.subrange(q, t);
    if tok == seq![116u8, 114, 117, 101] {
        (Some(ObjectView::Bool(true)), t)
    } else if tok == seq![102u8, 97, 108, 115, 101] {
        (Some(ObjectView::Bool(false)), t)
    } else if tok == seq![110u8, 117, 108, 108] {
        (Some(ObjectView::Null), t)
    } else {
        match number_token(tok) {
            None => (None, q),
            Some(ObjectView::Int(n)) => {
                let g0 = ws_end(d, t, false);
                let ge = regular_end(d, g0);
                match number_token(d.subrange(g0, ge)) {
                    Some(ObjectView::Int(g)) => {
                        let r0 = ws_end(d, ge, false);
                        if keyword_at(d, r0, seq![82u8]) && 0 <= n <= u32::MAX && 0 <= g
                            <= u16::MAX {
                            (Some(ObjectView::Ref(n as u32, g as u16)), r0 + 1)
                        } else {
                            (Some(ObjectView::Int(n)), t)
                        }
                    },
                    _ => (Some(ObjectView::Int(n)), t),
                }
            },
            Some(num) => (Some(num), t),
        }
    }
}

/// The items of an array from `p` (after `[` or after earlier items) and where the array ends.
/// A byte that starts no object is stepped over.
pub open spec fn array_scan(d: Seq<u8>, p: int) -> (Seq<ObjectView>, int)
    decreases d.len() - p, 1int,
{
    if p < 0 || p > d.len() {
        (Seq::empty(), p)
    } else {
        let q = ws_end(d, p, false);
        if q < p || q > d.len() {
            (Seq::empty(), q)
        } else if q < d.len() && d[q] == 93 {
            (Seq::empty(), q + 1)
        } else {
            let (o, e) = object_scan(d, q);
            match o {
                Some(x) => if p < e <= d.len() {
                    let (rest, f) = array_scan(d, e);
                    (seq![x] + rest, f)
                } else {
                    (seq![x], e)
                },
                None => if p <= e < d.len() {
                    array_scan(d, e + 1)
                } else {
                    (Seq::empty(), e)
                },
            }
        }
    }
}

/// The entries of a dictionary from `p` (after `<<`), added to `acc`, and where it ends: after
/// `>>` (or a lone `>`), or at the end of data. A key whose value is missing is dropped and
/// bytes between entries that start no key are stepped over.
pub open spec fn dict_scan(d: Seq<u8>, p: int, acc: Seq<(Seq<char>, ObjectView)>) -> (Seq<
    (Seq<char>, ObjectView),
>, int)
    decreases d.len() - p, 1int,
{
    if p < 0 || p > d.len() {
        (acc, p)
    } else {
        let q = ws_end(d, p, false);
        if q < p || q >= d.len() {
            (acc, q)
        } else if d[q] == 62 {
            if q + 1 < d.len() && d[q + 1] == 62 {
                (acc, q + 2)
            } else {
                (acc, q + 1)
            }
        } else if d[q] == 47 {
            let (k, e1) = name_scan(d, q + 1);
            if e1 < p || e1 > d.len() {
                (acc, e1)
            } else {
                let (o, e2) = object_scan(d, e1);
                let acc2 = match o {
                    Some(v) => dict_insert(acc, crate::text::utf8_lossy(k), v),
                    None => acc,
                };
                if p < e2 <= d.len() {
                    dict_scan(d, e2, acc2)
                } else {
                    (acc2, e2)
                }
            }
        } else {
            dict_scan(d, q + 1, acc)
        }
    }
}

pub proof fn lemma_name_scan_bounds(d: Seq<u8>, p: int)
    requires
        0 <= p <= d.len(),
    ensures
        p <= name_scan(d, p).1 <= d.len(),
    decreases d.len() - p,
{
    if p < d.len() && spec_is_regular(d[p]) {
        lemma_name_scan_bounds(d, p + 1);
        if p + 1 < d.len() {
            lemma_name_scan_bounds(d, p + 2);
        }
        if p + 2 < d.len() {
            lemma_name_scan_bounds(d, p + 3);
        }
    }
}

pub proof fn lemma_literal_scan_bounds(d: Seq<u8>, p: int, depth: nat)
    requires
        0 <= p <= d.len(),
    ensures
        p <= literal_scan(d, p, depth).1 <= d.len(),
    decreases d.len() - p,
{
    if p < d.len() {
        lemma_literal_scan_bounds(d, p + 1, depth + 1);
        if depth > 1 {
            lemma_literal_scan_bounds(d, p + 1, (depth - 1) as nat);
        }
        lemma_literal_scan_bounds(d, p + 1, depth);
        if p + 2 <= d.len() {
            lemma_literal_scan_bounds(d, p + 2, depth);
        }
        if p + 3 <= d.len() {
            lemma_literal_scan_bounds(d, p + 3, depth);
        }
        if p + 4 <= d.len() {
            lemma_literal_scan_bounds(d, p + 4, depth);
        }
    }
}

pub proof fn lemma_hex_scan_bounds(d: Seq<u8>, p: int, hi: Option<u8>)
    requires
        0 <= p <= d.len(),
    ensures
        p <= hex_scan(d, p, hi).1 <= d.len(),
    decreases d.len() - p,
{
    if p < d.len() && d[p] != 62 {
        lemma_hex_scan_bounds(d, p + 1, hi);
        lemma_hex_scan_bounds(d, p + 1, None);
        if spec_hex_val(d[p]) is Some {
            lemma_hex_scan_bounds(d, p + 1, Some(spec_hex_val(d[p])->0));
        }
    }
}

/// Reading an object never moves backwards or past the end, and reading one moves forwards.
pub proof fn lemma_object_scan_bounds(d: Seq<u8>, p: int)
    requires
        0 <= p <= d.len(),
    ensures
        p <= object_scan(d, p).1 <= d.len(),
        object_scan(d, p).0 is Some ==> p < object_scan(d, p).1,
    decreases d.len() - p, 0int,
{
    lemma_ws_end_bounds(d, p, false);
    let q = ws_end(d, p, false);
    if q < d.len() {
        let b = d[q];
        if b == 47 {
            lemma_name_scan_bounds(d, q + 1);
        } else if b == 40 {
            lemma_literal_scan_bounds(d, q + 1, 1);
        } else if b == 60 {
            if q + 1 < d.len() && d[q + 1] == 60 {
                lemma_dict_scan_bounds(d, q + 2, Seq::empty());
            } else {
                lemma_hex_scan_bounds(d, q + 1, None);
            }
        } else if b == 91 {
            lemma_array_scan_bounds(d, q + 1);
        } else if b == 93 || b == 62 || b == 41 || b == 125 {
        } else if b == 123 {
            lemma_object_scan_bounds(d, q + 1);
        } else if regular_end(d, q) <= q {
            lemma_object_scan_bounds(d, q + 1);
        } else {
            lemma_token_scan_bounds(d, q);
        }
    }
}

pub proof fn lemma_token_scan_bounds(d: Seq<u8>, q: int)
    requires
        0 <= q < d.len(),
        regular_end(d, q) > q,
    ensures
        q <= token_scan(d, q).1 <= d.len(),
        token_scan(d, q).0 is Some ==> q < token_scan(d, q).1,
{
    lemma_regular_end_bounds(d, q);
    let t = regular_end(d, q);
    lemma_ws_end_bounds(d, t, false);
    let g0 = ws_end(d, t, false);
    lemma_regular_end_bounds(d, g0);
    let ge = regular_end(d, g0);
    lemma_ws_end_bounds(d, ge, false);
}

pub proof fn lemma_array_scan_bounds(d: Seq<u8>, p: int)
    requires
        0 <= p <= d.len(),
    ensures
        p <= array_scan(d, p).1 <= d.len(),
    decreases d.len() - p, 1int,
{
    lemma_ws_end_bounds(d, p, false);
    let q = ws_end(d, p, false);
    if !(q < d.len() && d[q] == 93) {
        lemma_object_scan_bounds(d, q);
        let (o, e) = object_scan(d, q);
        match o {
            Some(x) => if p < e <= d.len() {
                lemma_array_scan_bounds(d, e);
            },
            None => if p <= e < d.len() {
                lemma_array_scan_bounds(d, e + 1);
            },
        }
    }
}

pub proof fn lemma_dict_scan_bounds(d: Seq<u8>, p: int, acc: Seq<(Seq<char>, ObjectView)>)
    requires
        0 <= p <= d.len(),
    ensures
        p <= dict_scan(d, p, acc).1 <= d.len(),
    decreases d.len() - p, 1int,
{
    lemma_ws_end_bounds(d, p, false);
    let q = ws_end(d, p, false);
    if q < d.len() && d[q] != 62 {
        if d[q] == 47 {
            lemma_name_scan_bounds(d, q + 1);
            let (k, e1) = name_scan(d, q + 1);
            lemma_object_scan_bounds(d, e1);
            let (o, e2) = object_scan(d, e1);
            let acc2 = match o {
                Some(v) => dict_insert(acc, crate::text::utf8_lossy(k), v),
                None => acc,
            };
            if p < e2 <= d.len() {
                lemma_dict_scan_bounds(d, e2, acc2);
            }
        } else {
            lemma_dict_scan_bounds(d, q + 1, acc);
        }
    }
}

pub open spec fn opt_view(o: Option<Object>) -> Option<ObjectView> {
    match o {
        Some(x) => Some(x@),
        None => None,
    }
}

pub open spec fn items_view(items: Seq<Object>) -> Seq<ObjectView> {
    items.map_values(|o: Object| o@)
}

} // verus!

verus! {

impl<'a> Cursor<'a> {
    /// Parses one object. Returns `None` at a delimiter that cannot start an object (`]`, `>>`,
    /// `)`, `}`) or at EOF, without consuming it.
    ///
    /// Indirect references (`n g R`) are recognised here with backtracking, so callers see a
    /// single [`Object::Ref`].
    pub fn read_object(&mut self) -> (r: Option<Object>)
        ensures
            final(self).data == old(self).data,
            (opt_view(r), final(self).pos as int) == object_scan(old(self).data@, old(self).pos as int),
        decreases old(self).data@.len() - old(self).pos, 0int,
    {
        let ghost d = self.data@;
        let ghost p0 = self.pos as int;
        if self.pos > self.data.len() {
            return None;
        }
        proof {
            lemma_ws_end_bounds(d, p0, false);
        }
        self.skip_ws();
        let q = self.pos;
        if q >= self.data.len() {
            return None;
        }
        let b = self.data[q];
        if b == 47 {
            self.pos = q + 1;
            let n = self.read_name();
            return Some(Object::Name(n));
        } else if b == 40 {
            self.pos = q + 1;
            let s = self.read_literal_string();
            return Some(Object::String(s));
        } else if b == 60 {
            if q + 1 < self.data.len() && self.data[q + 1] == 60 {
                self.pos = q + 2;
                return self.read_dict_body();
            } else {
                self.pos = q + 1;
                let s = self.read_hex_string();
                return Some(Object::String(s));
            }
        } else if b == 91 {
            self.pos = q + 1;
            return self.read_array_body();
        } else if b == 93 || b == 62 || b == 41 || b == 125 {
            return None;
        } else if b == 123 {
            // PostScript-function procedure braces; not valid at object level. Skip.
            self.pos = q + 1;
            return self.read_object();
        }
        assert(self.pos == q && self.data@ == d);
        proof {
            lemma_regular_end_bounds(d, q as int);
        }
        let tok = self.read_regular();
        assert(self.pos == regular_end(d, q as int));
        assert(tok@ == d.subrange(q as int, self.pos as int));
        if tok.len() == 0 {
            // A stray delimiter we do not understand; consume so callers make progress.
            assert(regular_end(d, q as int) == q as int);
            assert(object_scan(d, p0) == object_scan(d, q + 1));
            self.pos = q + 1;
            return self.read_object();
        }
        proof {
            lemma_regular_end_bounds(d, q as int);
        }
        let t = self.pos;
        if slice_eq(tok, &[116, 114, 117, 101]) {
            return Some(Object::Bool(true));
        }
        if slice_eq(tok, &[102, 97, 108, 115, 101]) {
            return Some(Object::Bool(false));
        }
        if slice_eq(tok, &[110, 117, 108, 108]) {
            return Some(Object::Null);
        }
        assert(tok@ != seq![116u8, 114, 117, 101]);
        assert(tok@ != seq![102u8, 97, 108, 115, 101]);
        assert(tok@ != seq![110u8, 117, 108, 108]);
        match Self::parse_number(tok) {
            None => {
                // An unknown keyword: rewind so `eat_keyword` callers can see it.
                self.pos = q;
                None
            },
            Some(Object::Int(n)) => {
                // Try `n g R`.
                proof {
                    lemma_ws_end_bounds(d, t as int, false);
                }
                self.skip_ws();
                let g0 = self.pos;
                proof {
                    lemma_regular_end_bounds(d, g0 as int);
                }
                let gen_tok = self.read_regular();
                let ge = self.pos;
                if let Some(Object::Int(g)) = Self::parse_number(gen_tok) {
                    proof {
                        lemma_ws_end_bounds(d, ge as int, false);
                    }
                    self.skip_ws();
                    let kw_r: &[u8] = &[82];
                    assert(kw_r@ =~= seq![82u8]);
                    if self.eat_keyword(kw_r) && n >= 0 && n <= 4294967295 && 0 <= g && g <= 65535 {
                        return Some(Object::Ref(ObjRef::new(n as u32, g as u16)));
                    }
                }
                self.pos = t;
                Some(Object::Int(n))
            },
            Some(num) => Some(num),
        }
    }

    /// Parses array items, positioned after `[`. Consumes the closing `]`.
    fn read_array_body(&mut self) -> (r: Option<Object>)
        requires
            0 < old(self).pos <= old(self).data@.len(),
        ensures
            final(self).data == old(self).data,
            r matches Some(o) && o@ == ObjectView::Array(array_scan(old(self).data@, old(self).pos as int).0),
            final(self).pos == array_scan(old(self).data@, old(self).pos as int).1,
        decreases old(self).data@.len() - old(self).pos, 1int,
    {
        let ghost d = self.data@;
        let ghost start = self.pos as int;
        let mut items: Vec<Object> = Vec::new();
        proof {
            lemma_array_scan_bounds(d, start);
        }
        loop
            invariant_except_break
                self.data@ == d,
                old(self).data@ == d,
                old(self).pos == start,
                start <= self.pos <= d.len(),
                items_view(items@) + array_scan(d, self.pos as int).0 == array_scan(d, start).0,
                array_scan(d, self.pos as int).1 == array_scan(d, start).1,
            ensures
                self.data@ == d,
                items_view(items@) == array_scan(d, start).0,
                self.pos == array_scan(d, start).1,
            decreases d.len() - self.pos,
        {
            let ghost p = self.pos as int;
            proof {
                lemma_ws_end_bounds(d, p, false);
                lemma_array_scan_bounds(d, p);
            }
            self.skip_ws();
            if self.pos < self.data.len() && self.data[self.pos] == 93 {
                self.pos = self.pos + 1;
                assert(items_view(items@) =~= items_view(items@) + array_scan(d, p).0);
                break;
            }
            let ghost q = self.pos as int;
            proof {
                lemma_object_scan_bounds(d, q);
            }
            assert(start <= q <= d.len() && self.data@ == d);
            match self.read_object() {
                Some(o) => {
                    let ghost ov = o@;
                    let ghost before = items@;
                    items.push(o);
                    assert(items_view(items@) =~= items_view(before).push(ov));
                },
                None => {
                    if self.pos >= self.data.len() {
                        assert(items_view(items@) =~= items_view(items@) + array_scan(d, p).0);
                        break;
                    }
                    self.pos = self.pos + 1;
                },
            }
        }
        let ghost iv = items@;
        let r = Object::Array(items);
        proof {
            if let ObjectView::Array(sq) = r@ {
                assert(sq =~= items_view(iv));
            }
        }
        assert(r@ == ObjectView::Array(items_view(iv)));
        Some(r)
    }

    /// Parses dictionary entries, positioned after `<<`. Consumes the closing `>>`.
    fn read_dict_body(&mut self) -> (r: Option<Object>)
        requires
            0 < old(self).pos <= old(self).data@.len(),
        ensures
            final(self).data == old(self).data,
            r matches Some(o) && o@ == ObjectView::Dict(dict_scan(old(self).data@, old(self).pos as int, Seq::empty()).0),
            final(self).pos == dict_scan(old(self).data@, old(self).pos as int, Seq::empty()).1,
        decreases old(self).data@.len() - old(self).pos, 1int,
    {
        let ghost d = self.data@;
        let ghost start = self.pos as int;
        let mut dict = Dict::new();
        proof {
            lemma_dict_scan_bounds(d, start, Seq::empty());
        }
        loop
            invariant_except_break
                self.data@ == d,
                old(self).data@ == d,
                old(self).pos == start,
                start <= self.pos <= d.len(),
                dict_scan(d, self.pos as int, dict@) == dict_scan(d, start, Seq::empty()),
            ensures
                self.data@ == d,
                dict@ == dict_scan(d, start, Seq::empty()).0,
                self.pos == dict_scan(d, start, Seq::empty()).1,
            decreases d.len() - self.pos,
        {
            let ghost p = self.pos as int;
            proof {
                lemma_ws_end_bounds(d, p, false);
                lemma_dict_scan_bounds(d, p, dict@);
            }
            self.skip_ws();
            let q = self.pos;
            if q >= self.data.len() {
                break;
            }
            if self.data[q] == 62 {
                if q + 1 < self.data.len() && self.data[q + 1] == 62 {
                    self.pos = q + 2;
                } else {
                    self.pos = q + 1;
                }
                break;
            } else if self.data[q] == 47 {
                self.pos = q + 1;
                proof {
                    lemma_name_scan_bounds(d, q + 1);
                }
                let key = self.read_name();
                let ghost e1 = self.pos as int;
                proof {
                    lemma_object_scan_bounds(d, e1);
                }
                match self.read_object() {
                    Some(value) => dict.insert(key, value),
                    None => {
                        // `/Key >>`: a key with no value; drop the key.
                    },
                }
            } else {
                // Garbage between entries; skip a byte to make progress.
                self.pos = q + 1;
            }
        }
        Some(Object::Dict(dict))
    }
}

} // verus!

verus! {

/// Reading an object never yields a stream: a stream body only follows a dictionary in an
/// indirect object's definition, which is read apart.
pub proof fn scanned_objects_are_not_streams(d: Seq<u8>, p: int)
    ensures
        !(object_scan(d, p).0 matches Some(ObjectView::Stream(_, _))),
    decreases d.len() - p,
{
    if 0 <= p <= d.len() {
        let q = ws_end(d, p, false);
        if p <= q < d.len() {
            let b = d[q];
            if b == 123 || (!(b == 47 || b == 40 || b == 60 || b == 91 || b == 93 || b == 62 || b
                == 41) && regular_end(d, q) <= q) {
                scanned_objects_are_not_streams(d, q + 1);
            }
        }
    }
}

/// The first position at or after `from` where `needle` occurs.
pub open spec fn first_occurrence(d: Seq<u8>, from: int, needle: Seq<u8>) -> Option<int>
    decreases d.len() + 1 - from,
{
    if from < 0 || from + needle.len() > d.len() {
        None
    } else if occurs_at(d, from, needle) {
        Some(from)
    } else {
        first_occurrence(d, from + 1, needle)
    }
}

pub proof fn lemma_first_occurrence_none(d: Seq<u8>, from: int, needle: Seq<u8>)
    requires
        0 <= from,
        forall|q: int| from <= q ==> !occurs_at(d, q, needle),
    ensures
        first_occurrence(d, from, needle) is None,
    decreases d.len() + 1 - from,
{
    if from + needle.len() <= d.len() {
        lemma_first_occurrence_none(d, from + 1, needle);
    }
}

pub proof fn lemma_first_occurrence_some(d: Seq<u8>, from: int, needle: Seq<u8>, p: int)
    requires
        0 <= from <= p,
        occurs_at(d, p, needle),
        forall|q: int| from <= q < p ==> !occurs_at(d, q, needle),
    ensures
        first_occurrence(d, from, needle) == Some(p),
    decreases p - from,
{
    if from < p {
        lemma_first_occurrence_some(d, from + 1, needle, p);
    }
}

pub proof fn lemma_first_occurrence_bounds(d: Seq<u8>, from: int, needle: Seq<u8>)
    requires
        0 <= from,
    ensures
        first_occurrence(d, from, needle) matches Some(p) ==> from <= p && occurs_at(d, p, needle),
    decreases d.len() + 1 - from,
{
    if from + needle.len() <= d.len() && !occurs_at(d, from, needle) {
        lemma_first_occurrence_bounds(d, from + 1, needle);
    }
}

/// [`find`], stated through [`first_occurrence`]: for a non-empty needle the two agree.
pub fn find_first(data: &[u8], from: usize, needle: &[u8]) -> (r: Option<usize>)
    requires
        needle@.len() > 0,
    ensures
        match r {
            Some(p) => first_occurrence(data@, from as int, needle@) == Some(p as int),
            None => first_occurrence(data@, from as int, needle@) is None,
        },
{
    let r = find(data, from, needle);
    proof {
        match r {
            Some(p) => lemma_first_occurrence_some(data@, from as int, needle@, p as int),
            None => {
                if from < data@.len() {
                    lemma_first_occurrence_none(data@, from as int, needle@);
                } else {
                    assert forall|q: int| from <= q implies !occurs_at(data@, q, needle@) by {}
                    lemma_first_occurrence_none(data@, from as int, needle@);
                }
            },
        }
    }
    r
}

} // verus!

verus! {

// ---- stream bodies -------------------------------------------------------------------------

/// The keyword that ends a stream body.
pub open spec fn endstream_kw() -> Seq<u8> {
    seq![101u8, 110, 100, 115, 116, 114, 101, 97, 109]
}

/// Where a stream body starts after `stream` at `p`: past a CR LF, a lone CR or a LF.
pub open spec fn stream_start(d: Seq<u8>, p: int) -> int {
    if 0 <= p < d.len() && d[p] == 13 {
        if p + 1 < d.len() && d[p + 1] == 10 {
            p + 2
        } else {
            p + 1
        }
    } else if 0 <= p < d.len() && d[p] == 10 {
        p + 1
    } else {
        p
    }
}

/// Where a stream body starting at `start` ends: after `length` bytes when `endstream`
/// follows them (after whitespace); otherwise at the first `endstream`, less one LF and one
/// CR before it, or at the end of data.
pub open spec fn stream_end(d: Seq<u8>, start: int, length: Option<usize>) -> int {
    let trusted = match length {
        Some(len) => start + len <= d.len() && keyword_at(
            d,
            ws_end(d, start + len, false),
            endstream_kw(),
        ),
        None => false,
    };
    if trusted {
        start + length->0
    } else {
        match first_occurrence(d, start, endstream_kw()) {
            Some(e) => {
                let e1 = if e > start && d[e - 1] == 10 {
                    e - 1
                } else {
                    e
                };
                if e1 > start && d[e1 - 1] == 13 {
                    e1 - 1
                } else {
                    e1
                }
            },
            None => d.len() as int,
        }
    }
}

/// Where reading continues after a stream body ending at `end`: past `endstream` when it
/// follows (after whitespace).
pub open spec fn after_stream(d: Seq<u8>, end: int) -> int {
    let q = ws_end(d, end, false);
    if keyword_at(d, q, endstream_kw()) {
        q + 9
    } else {
        q
    }
}

impl<'a> Cursor<'a> {
    /// Parses `<< ... >> stream ... endstream` bodies given a just-parsed dict, using `length`
    /// when it is a plain integer and scanning for `endstream` otherwise.
    pub fn read_stream_data(&mut self, dict: Dict, length: Option<usize>) -> (r: Object)
        requires
            old(self).pos <= old(self).data@.len(),
        ensures
            final(self).data == old(self).data,
            ({
                let d = old(self).data@;
                let start = stream_start(d, old(self).pos as int);
                let end = stream_end(d, start, length);
                &&& r@ == ObjectView::Stream(dict@, d.subrange(start, end))
                &&& final(self).pos == after_stream(d, end)
            }),
    {
        let ghost d = self.data@;
        let dl = self.data.len();
        let kw: &[u8] = &[101, 110, 100, 115, 116, 114, 101, 97, 109];
        assert(kw@ =~= endstream_kw());
        // `stream` must be followed by CRLF or LF.
        match self.peek() {
            Some(13) => {
                self.pos = self.pos + 1;
                if self.peek() == Some(10) {
                    self.pos = self.pos + 1;
                }
            },
            Some(10) => {
                self.pos = self.pos + 1;
            },
            _ => {},
        }
        let start = self.pos;
        assert(start == stream_start(d, old(self).pos as int));
        let trusted = match length {
            Some(len) => {
                if len <= dl - start {
                    // Trust /Length only when `endstream` actually follows it (after optional
                    // EOL); broken producers write lengths that are off by the EOL convention
                    // or worse.
                    let mut c = Cursor::at(self.data, start + len);
                    c.skip_ws();
                    c.eat_keyword(kw)
                } else {
                    false
                }
            },
            None => false,
        };
        let end = if trusted {
            start + length.unwrap()
        } else {
            // Scan for the first `endstream`, backing off trailing EOL bytes.
            match find_first(self.data, start, kw) {
                Some(e0) => {
                    proof {
                        lemma_first_occurrence_bounds(d, start as int, kw@);
                    }
                    let mut e = e0;
                    if e > start && self.data[e - 1] == 10 {
                        e = e - 1;
                    }
                    if e > start && self.data[e - 1] == 13 {
                        e = e - 1;
                    }
                    e
                },
                None => dl,
            }
        };
        assert(end == stream_end(d, start as int, length));
        let raw = vstd::slice::slice_to_vec(vstd::slice::slice_subrange(self.data, start, end));
        // Position after `endstream` for the caller.
        let mut c = Cursor::at(self.data, end);
        c.skip_ws();
        c.eat_keyword(kw);
        self.pos = c.pos;
        let r = Object::Stream(crate::object::Stream { dict, raw });
        assert(r@ == ObjectView::Stream(dict@, d.subrange(start as int, end as int)));
        r
    }
}


// ---- what the lexer reads, stated over all inputs ----------------------------------------------

/// Hexadecimal digits: `0`-`9` are worth 0 to 9 and `a`-`f` 10 to 15, an upper-case letter is
/// worth what its lower-case form is, and no other byte is a digit.
pub proof fn hex_digits_have_their_values(b: u8, k: u8)
    ensures
        k < 10 ==> spec_hex_val((48 + k) as u8) == Some(k),
        k < 6 ==> spec_hex_val((97 + k) as u8) == Some((10 + k) as u8),
        k < 6 ==> spec_hex_val((65 + k) as u8) == spec_hex_val((97 + k) as u8),
        spec_hex_val(b) is Some <==> (48 <= b <= 57 || 97 <= b <= 102 || 65 <= b <= 70),
        spec_hex_val(b) matches Some(v) ==> v < 16,
{
}

/// In a hex string two digits make one byte, the first the high half; bytes that are not digits
/// are skipped; `>` ends the string, a pending single digit counting as its high half.
pub proof fn hex_strings_pair_their_digits(data: Seq<u8>, p: int, hi: Option<u8>)
    requires
        0 <= p < data.len(),
    ensures
        hi is None && data[p] != 62 && p + 1 < data.len() && data[p + 1] != 62 && spec_hex_val(data[p])
            is Some && spec_hex_val(data[p + 1]) is Some ==> hex_scan(data, p, None) == (
            seq![(spec_hex_val(data[p])->0 * 16 + spec_hex_val(data[p + 1])->0) as u8] + hex_scan(
                data,
                p + 2,
                None,
            ).0,
            hex_scan(data, p + 2, None).1,
        ),
        data[p] != 62 && spec_hex_val(data[p]) is None ==> hex_scan(data, p, hi) == hex_scan(data, p + 1, hi),
        data[p] == 62 ==> hex_scan(data, p, hi) == (
            match hi {
                Some(h) => seq![(h * 16) as u8],
                None => Seq::<u8>::empty(),
            },
            p + 1,
        ),
{
    if hi is None && data[p] != 62 && p + 1 < data.len() && data[p + 1] != 62 {
        if let (Some(a), Some(b)) = (spec_hex_val(data[p]), spec_hex_val(data[p + 1])) {
            assert(hex_scan(data, p, None) == hex_scan(data, p + 1, Some(a)));
        }
    }
}

/// In a name, `#` and two hex digits make the byte they spell; a `#` without two hex digits
/// after it is kept as it is; any other regular byte stands for itself; the name ends at the
/// first white-space or delimiter byte, or at the end of data.
pub proof fn names_decode_their_hex_escapes(data: Seq<u8>, p: int)
    requires
        0 <= p,
    ensures
        p + 2 < data.len() && data[p] == 35 && spec_hex_val(data[p + 1]) is Some && spec_hex_val(
            data[p + 2],
        ) is Some ==> name_scan(data, p) == (
            seq![(spec_hex_val(data[p + 1])->0 * 16 + spec_hex_val(data[p + 2])->0) as u8] + name_scan(
                data,
                p + 3,
            ).0,
            name_scan(data, p + 3).1,
        ),
        p < data.len() && data[p] == 35 && !(p + 2 < data.len() && spec_hex_val(data[p + 1]) is Some
            && spec_hex_val(data[p + 2]) is Some) ==> name_scan(data, p) == (
            seq![35u8] + name_scan(data, p + 1).0,
            name_scan(data, p + 1).1,
        ),
        p < data.len() && data[p] != 35 && spec_is_regular(data[p]) ==> name_scan(data, p) == (
            seq![data[p]] + name_scan(data, p + 1).0,
            name_scan(data, p + 1).1,
        ),
        p >= data.len() || !spec_is_regular(data[p]) ==> name_scan(data, p) == (Seq::<u8>::empty(), p),
{
}

/// Decimal integers read digit by digit: a single digit is its value, one more digit multiplies
/// by ten and adds it, and a leading `-` or `+` negates or keeps it (while it fits in 64 bits).
pub proof fn integers_read_digit_by_digit(s: Seq<u8>, d: u8)
    requires
        s.len() > 0,
        all_digits(s),
        48 <= d <= 57,
        digits_value(s.push(d)) <= i64::MAX,
    ensures
        number_token(seq![d]) == Some(crate::object::ObjectView::Int((d - 48) as i64)),
        number_token(s.push(d)) == Some(
            crate::object::ObjectView::Int((digits_value(s) * 10 + (d - 48)) as i64),
        ),
        number_token(seq![45u8] + s) == Some(crate::object::ObjectView::Int((-digits_value(s)) as i64)),
        number_token(seq![43u8] + s) == Some(crate::object::ObjectView::Int(digits_value(s) as i64)),
{
    lemma_digits_value_nonneg(s);
    let t = s.push(d);
    assert(t.drop_last() =~= s);
    assert(all_digits(t));
    assert(!has_real_marker(t)) by {
        if has_real_marker(t) {
            let i = choose|i: int| 0 <= i < t.len() && (t[i] == 46 || t[i] == 101 || t[i] == 69);
            assert(is_digit(t[i]));
        }
    }
    assert(unsigned_part(t) =~= t);
    let one = seq![d];
    assert(one.drop_last() =~= Seq::<u8>::empty());
    assert(all_digits(one));
    assert(!has_real_marker(one)) by {
        if has_real_marker(one) {
            let i = choose|i: int| 0 <= i < one.len() && (one[i] == 46 || one[i] == 101 || one[i] == 69);
        }
    }
    assert(unsigned_part(one) =~= one);
    assert(digits_value(one) == digits_value(Seq::<u8>::empty()) * 10 + (d - 48));
    assert(int_token(one) == Some((d - 48) as i64));
    let neg = seq![45u8] + s;
    let pos = seq![43u8] + s;
    assert(unsigned_part(neg) =~= s);
    assert(unsigned_part(pos) =~= s);
    assert(!has_real_marker(neg)) by {
        if has_real_marker(neg) {
            let i = choose|i: int| 0 <= i < neg.len() && (neg[i] == 46 || neg[i] == 101 || neg[i] == 69);
            if i > 0 {
                assert(neg[i] == s[i - 1]);
                assert(is_digit(s[i - 1]));
            }
        }
    }
    assert(!has_real_marker(pos)) by {
        if has_real_marker(pos) {
            let i = choose|i: int| 0 <= i < pos.len() && (pos[i] == 46 || pos[i] == 101 || pos[i] == 69);
            if i > 0 {
                assert(pos[i] == s[i - 1]);
                assert(is_digit(s[i - 1]));
            }
        }
    }
}


/// A run of regular bytes from `p` to `e`, followed by the end of data or a byte that is not
/// regular, is one token.
proof fn lemma_regular_run(d: Seq<u8>, p: int, e: int)
    requires
        0 <= p <= e <= d.len(),
        forall|k: int| p <= k < e ==> spec_is_regular(#[trigger] d[k]),
        e == d.len() || !spec_is_regular(d[e]),
    ensures
        regular_end(d, p) == e,
    decreases e - p,
{
    if p < e {
        lemma_regular_run(d, p + 1, e);
    }
}

/// A string of digits reads as its decimal value (while it fits in 64 bits).
pub proof fn digit_strings_are_decimal_integers(s: Seq<u8>)
    requires
        s.len() > 0,
        all_digits(s),
        digits_value(s) <= i64::MAX,
    ensures
        number_token(s) == Some(crate::object::ObjectView::Int(digits_value(s) as i64)),
{
    lemma_digits_value_nonneg(s);
    assert(unsigned_part(s) =~= s);
    assert(!has_real_marker(s)) by {
        if has_real_marker(s) {
            let i = choose|i: int| 0 <= i < s.len() && (s[i] == 46 || s[i] == 101 || s[i] == 69);
            assert(is_digit(s[i]));
        }
    }
}

/// `N G R`, two digit strings and `R` separated by single spaces and followed by the end of
/// data or a byte that is not regular, reads as a reference to object `N` generation `G` (when
/// `N` fits in 32 bits and `G` in 16), ending after the `R`.
pub proof fn references_read_as_references(nd: Seq<u8>, gd: Seq<u8>, rest: Seq<u8>)
    requires
        nd.len() > 0,
        gd.len() > 0,
        all_digits(nd),
        all_digits(gd),
        digits_value(nd) <= u32::MAX,
        digits_value(gd) <= u16::MAX,
        rest.len() == 0 || !spec_is_regular(rest[0]),
    ensures
        object_scan(nd + seq![32u8] + gd + seq![32u8, 82u8] + rest, 0) == (
            Some(ObjectView::Ref(digits_value(nd) as u32, digits_value(gd) as u16)),
            (nd.len() + gd.len() + 3) as int,
        ),
{
    let d = nd + seq![32u8] + gd + seq![32u8, 82u8] + rest;
    let t = nd.len() as int;
    let ge = t + 1 + gd.len();
    lemma_digits_value_nonneg(nd);
    lemma_digits_value_nonneg(gd);
    assert(d[0] == nd[0]);
    assert(is_digit(nd[0]));
    assert(ws_end(d, 0, false) == 0);
    assert forall|k: int| 0 <= k < t implies spec_is_regular(#[trigger] d[k]) by {
        assert(d[k] == nd[k]);
        assert(is_digit(nd[k]));
    }
    assert(d[t] == 32);
    lemma_regular_run(d, 0, t);
    assert(d.subrange(0, t) =~= nd);
    digit_strings_are_decimal_integers(nd);
    digit_strings_are_decimal_integers(gd);
    assert(d[t + 1] == gd[0]);
    assert(is_digit(gd[0]));
    assert(ws_end(d, t + 1, false) == t + 1);
    assert(ws_end(d, t, false) == t + 1);
    assert forall|k: int| t + 1 <= k < ge implies spec_is_regular(#[trigger] d[k]) by {
        assert(d[k] == gd[k - t - 1]);
        assert(is_digit(gd[k - t - 1]));
    }
    assert(d[ge] == 32);
    lemma_regular_run(d, t + 1, ge);
    assert(d.subrange(t + 1, ge) =~= gd);
    assert(d[ge + 1] == 82);
    assert(ws_end(d, ge + 1, false) == ge + 1);
    assert(ws_end(d, ge, false) == ge + 1);
    assert(d.subrange(ge + 1, ge + 2) =~= seq![82u8]);
    assert(ge + 2 == d.len() || d[ge + 2] == rest[0]);
    assert(keyword_at(d, ge + 1, seq![82u8]));
    assert(d.subrange(0, t) != seq![116u8, 114, 117, 101]) by {
        if t == 4 {
            assert(is_digit(d[0]));
        }
    }
    assert(d.subrange(0, t) != seq![102u8, 97, 108, 115, 101]) by {
        if t == 5 {
            assert(is_digit(d[0]));
        }
    }
    assert(d.subrange(0, t) != seq![110u8, 117, 108, 108]) by {
        if t == 4 {
            assert(is_digit(d[0]));
        }
    }
}

} // verus!
