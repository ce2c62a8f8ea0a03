//! File structure: header, cross-reference tables and streams, object streams, trailer chain,
//! and a brute-force recovery scan for files whose xref is wrong — which is common enough that
//! every serious reader has one.

use std::collections::HashMap;

use vstd::prelude::*;
use vstd::string::StringSliceAdditionalSpecFns;

use crate::crypt::{spec_decrypt, Decryptor, DecryptorView};
use crate::error::Error;
use crate::filters::{self, Decoded, Direct};
use crate::lexer::{
    find, keyword_at, number_token, object_scan, regular_end, rfind, stream_end, stream_start, ws_end,
    Cursor,
};
use crate::object::{dict_insert, dict_lookup, Dict, ObjRef, Object, ObjectView, Stream};
use crate::text::str_eq;

verus! {

broadcast use vstd::std_specs::hash::group_hash_axioms;

/// Where an object lives.
#[derive(Debug, Clone, Copy, PartialEq, Eq, Structural)]
pub enum XrefEntry {
    /// Byte offset of `n g obj` from the start of the (header-adjusted) buffer.
    Offset { offset: usize, gen: u16 },
    /// Object lives inside an object stream.
    InStream { stream_num: u32, index: u32 },
}

/// `into` with the entries of `from` whose keys it lacks, in order: the first trailer wins for
/// the keys that matter, since the chain is walked newest first.
pub open spec fn spec_merge_trailer(
    into: Seq<(Seq<char>, ObjectView)>,
    from: Seq<(Seq<char>, ObjectView)>,
) -> Seq<(Seq<char>, ObjectView)>
    decreases from.len(),
{
    if from.len() == 0 {
        into
    } else {
        let next = if dict_lookup(into, from[0].0) is Some {
            into
        } else {
            dict_insert(into, from[0].0, from[0].1)
        };
        spec_merge_trailer(next, from.drop_first())
    }
}

/// First trailer wins for the keys that matter; the chain is walked newest-first.
pub fn merge_trailer(into: &mut Dict, from: Dict)
    ensures
        final(into)@ == spec_merge_trailer(old(into)@, from@),
{
    let ghost fv = from@;
    let n = from.0.len();
    let mut i: usize = 0;
    while i < n
        invariant
            n == from.0@.len(),
            fv == from@,
            i <= n,
            into@ == spec_merge_trailer(old(into)@, fv.subrange(0, i as int)),
        decreases n - i,
    {
        proof {
            lemma_merge_step(old(into)@, fv, i as int);
        }
        let key = &from.0[i].0;
        assert(key@ == fv[i as int].0);
        if !into.contains(key.as_str()) {
            into.insert(key.clone(), from.0[i].1.clone());
        }
        i = i + 1;
    }
    assert(fv.subrange(0, n as int) =~= fv);
}

proof fn lemma_merge_step(
    into: Seq<(Seq<char>, ObjectView)>,
    from: Seq<(Seq<char>, ObjectView)>,
    k: int,
)
    requires
        0 <= k < from.len(),
    ensures
        spec_merge_trailer(into, from.subrange(0, k + 1)) == ({
            let m = spec_merge_trailer(into, from.subrange(0, k));
            if dict_lookup(m, from[k].0) is Some {
                m
            } else {
                dict_insert(m, from[k].0, from[k].1)
            }
        }),
    decreases k,
{
    let next = if dict_lookup(into, from[0].0) is Some {
        into
    } else {
        dict_insert(into, from[0].0, from[0].1)
    };
    let tail = from.drop_first();
    assert(from.subrange(0, k + 1).drop_first() =~= tail.subrange(0, k));
    assert(spec_merge_trailer(into, from.subrange(0, k + 1)) == spec_merge_trailer(
        next,
        tail.subrange(0, k),
    ));
    if k > 0 {
        lemma_merge_step(next, tail, k - 1);
        assert(from.subrange(0, k).drop_first() =~= tail.subrange(0, k - 1));
        assert(spec_merge_trailer(into, from.subrange(0, k)) == spec_merge_trailer(
            next,
            tail.subrange(0, k - 1),
        ));
    } else {
        assert(from.subrange(0, 0) =~= Seq::<(Seq<char>, ObjectView)>::empty());
        assert(tail.subrange(0, 0) =~= Seq::<(Seq<char>, ObjectView)>::empty());
    }
}

/// Merging never changes a key the receiving trailer already has: the first trailer wins.
pub proof fn merge_keeps_existing(
    into: Seq<(Seq<char>, ObjectView)>,
    from: Seq<(Seq<char>, ObjectView)>,
    key: Seq<char>,
)
    requires
        dict_lookup(into, key) is Some,
    ensures
        dict_lookup(spec_merge_trailer(into, from), key) == dict_lookup(into, key),
    decreases from.len(),
{
    if from.len() > 0 {
        let next = if dict_lookup(into, from[0].0) is Some {
            into
        } else {
            dict_insert(into, from[0].0, from[0].1)
        };
        if dict_lookup(into, from[0].0) is None {
            crate::object::insert_keeps_other_keys(into, from[0].0, from[0].1, key);
        }
        merge_keeps_existing(next, from.drop_first(), key);
    }
}

/// A key the receiving trailer lacks takes its value from the first entry of the merged
/// trailer that has it, and stays absent when neither has it.
pub proof fn merge_adds_missing(
    into: Seq<(Seq<char>, ObjectView)>,
    from: Seq<(Seq<char>, ObjectView)>,
    key: Seq<char>,
)
    requires
        dict_lookup(into, key) is None,
    ensures
        dict_lookup(spec_merge_trailer(into, from), key) == dict_lookup(from, key),
    decreases from.len(),
{
    if from.len() == 0 {
        assert(crate::object::key_index(from, key) is None);
    } else if from[0].0 == key {
        let next = dict_insert(into, key, from[0].1);
        crate::object::insert_then_lookup(into, key, from[0].1);
        merge_keeps_existing(next, from.drop_first(), key);
        crate::object::lemma_lookup_first(from);
    } else {
        let next = if dict_lookup(into, from[0].0) is Some {
            into
        } else {
            dict_insert(into, from[0].0, from[0].1)
        };
        if dict_lookup(into, from[0].0) is None {
            crate::object::insert_keeps_other_keys(into, from[0].0, from[0].1, key);
        }
        merge_adds_missing(next, from.drop_first(), key);
        crate::object::lemma_lookup_skip_first(from, key);
    }
}

/// `after` keeps every entry of `before`: entries are only ever added where absent.
pub open spec fn extends(before: Map<u32, XrefEntry>, after: Map<u32, XrefEntry>) -> bool {
    forall|k: u32| before.contains_key(k) ==> #[trigger] after.contains_key(k) && after[k] == before[k]
}

/// Extending is transitive.
proof fn lemma_extends_trans(a: Map<u32, XrefEntry>, b: Map<u32, XrefEntry>, c: Map<u32, XrefEntry>)
    requires
        extends(a, b),
        extends(b, c),
    ensures
        extends(a, c),
{
    assert forall|k: u32| a.contains_key(k) implies #[trigger] c.contains_key(k) && c[k] == a[k] by {
        assert(a.dom().contains(k));
        assert(b.dom().contains(k));
        assert(c.dom().contains(k));
    }
}

/// Adds `k -> e` unless `k` already has an entry.
fn or_insert(xref: &mut HashMap<u32, XrefEntry>, k: u32, e: XrefEntry)
    ensures
        final(xref)@ == if old(xref)@.contains_key(k) {
            old(xref)@
        } else {
            old(xref)@.insert(k, e)
        },
        extends(old(xref)@, final(xref)@),
{
    if !xref.contains_key(&k) {
        xref.insert(k, e);
    }
}

/// A parse error with message `m`.
fn parse_err<T>(m: &str) -> (r: Result<T, Error>)
    ensures
        r matches Err(e) && e.is_parse_with(m@),
{
    Err(Error::Parse(m.to_owned()))
}

/// The integer a number token stands for, if it is an integer at all.
fn int_token_of(tok: &[u8]) -> (r: Option<i64>)
    ensures
        r == match crate::lexer::number_token(tok@) {
            Some(ObjectView::Int(i)) => Some(i),
            _ => None::<i64>,
        },
{
    match Cursor::parse_number(tok) {
        Some(Object::Int(i)) => Some(i),
        _ => None,
    }
}

/// The integer a number token stands for, reals truncated, if it is a number.
fn number_value_of(tok: &[u8]) -> (r: Option<i64>)
    ensures
        r == match crate::lexer::number_token(tok@) {
            Some(o) => crate::object::spec_as_int(o),
            None => None::<i64>,
        },
{
    match Cursor::parse_number(tok) {
        Some(o) => o.as_int(),
        None => None,
    }
}

/// The integer a token stands for, as [`number_value_of`] reads it.
pub open spec fn token_number(t: Seq<u8>) -> Option<i64> {
    match crate::lexer::number_token(t) {
        Some(o) => crate::object::spec_as_int(o),
        None => None::<i64>,
    }
}

/// A count read from an integer entry: negatives are zero, and a non-integer is zero.
pub open spec fn count_value(o: ObjectView) -> usize {
    match crate::object::spec_as_int(o) {
        Some(i) => if i < 0 {
            0
        } else {
            i as usize
        },
        None => 0,
    }
}

/// A count entry of a dictionary, zero when absent.
pub open spec fn count_entry(es: Seq<(Seq<char>, ObjectView)>, key: Seq<char>) -> usize {
    match dict_lookup(es, key) {
        Some(o) => count_value(o),
        None => 0,
    }
}

/// The first string of a trailer's /ID array; nothing when there is none.
pub open spec fn trailer_id(t: Seq<(Seq<char>, ObjectView)>) -> Seq<u8> {
    match dict_lookup(t, "ID"@) {
        Some(ObjectView::Array(items)) => if items.len() > 0 {
            match items[0] {
                ObjectView::Str(b) => b,
                _ => Seq::empty(),
            }
        } else {
            Seq::empty()
        },
        _ => Seq::empty(),
    }
}

/// The trailer's /Encrypt dictionary and /ID are written out in it, with no reference inside.
pub open spec fn direct_encryption(t: Seq<(Seq<char>, ObjectView)>) -> bool {
    &&& dict_lookup(t, "Encrypt"@) matches Some(ObjectView::Dict(es))
    &&& ref_free(ObjectView::Dict(encrypt_entries(t)))
    &&& dict_lookup(t, "ID"@) matches Some(v) ==> !(v is Ref)
}

/// The entries of the trailer's /Encrypt dictionary, when it is written out as one.
pub open spec fn encrypt_entries(t: Seq<(Seq<char>, ObjectView)>) -> Seq<(Seq<char>, ObjectView)> {
    match dict_lookup(t, "Encrypt"@) {
        Some(ObjectView::Dict(es)) => es,
        _ => Seq::empty(),
    }
}

/// The bytes of a password; none when there is none.
pub open spec fn password_bytes(p: Option<&str>) -> Seq<u8> {
    match p {
        Some(s) => s.spec_bytes(),
        None => Seq::empty(),
    }
}

/// What loading object `n` can give, by its cross-reference entry.
pub open spec fn loaded_as(f: PdfFileView, n: u32, c: ObjectView) -> bool {
    f.xref.contains_key(n) && match f.xref[n] {
        XrefEntry::Offset { offset, gen } => offset_result(f, n, gen, offset as int, c),
        XrefEntry::InStream { .. } => !(c is Stream),
    }
}

/// The object stream `sn` reads as `data`, with header pairs `pairs`: its container is loaded as
/// a stream, and when the stream's dictionary holds no reference, `data` is the decoding of
/// it and `pairs` its header under its /N and /First.
pub open spec fn objstm_read(f: PdfFileView, sn: u32, data: Seq<u8>, pairs: Seq<(u32, usize)>) -> bool {
    exists|c: ObjectView| #[trigger] loaded_as(f, sn, c) && stream_reads_as(c, data, pairs)
}

/// The stream `c` decodes to `data` with header pairs `pairs`, when its dictionary holds no
/// reference.
#[verifier::opaque]
pub open spec fn stream_reads_as(c: ObjectView, data: Seq<u8>, pairs: Seq<(u32, usize)>) -> bool {
    match c {
        ObjectView::Stream(es, raw) => ref_free(ObjectView::Dict(es)) ==> (exists|fl: Option<Seq<char>>|
            filters::spec_decode(es, raw, Direct) == filters::DecodeOutcome::Done(data, fl))
            && pairs == header_pairs(data, 0, count_entry(es, "N"@) as nat, count_entry(es, "First"@)),
        _ => false,
    }
}

/// The offset of member `expect` among an object stream's header pairs: the pair at `index`
/// when it names the member, else the first pair that does.
pub open spec fn member_offset(pairs: Seq<(u32, usize)>, index: u32, expect: u32) -> Option<usize> {
    if (index as int) < pairs.len() && pairs[index as int].0 == expect {
        Some(pairs[index as int].1)
    } else {
        first_member(pairs, expect, 0)
    }
}

/// The offset of the first pair from the `i`-th on that names member `expect`.
pub open spec fn first_member(pairs: Seq<(u32, usize)>, expect: u32, i: int) -> Option<usize>
    decreases pairs.len() - i,
{
    if i < 0 || i >= pairs.len() {
        None
    } else if pairs[i].0 == expect {
        Some(pairs[i].1)
    } else {
        first_member(pairs, expect, i + 1)
    }
}

/// The object read at `off` in an object stream's decoded data (an offset past the end reads
/// at the end); null when nothing reads there.
pub open spec fn member_at(data: Seq<u8>, off: usize) -> ObjectView {
    let p = if off <= data.len() {
        off as int
    } else {
        data.len() as int
    };
    match crate::lexer::object_scan(data, p).0 {
        Some(o) => o,
        None => ObjectView::Null,
    }
}

/// Object stream `sn` may fail to read: it is not in the file, or it loads as no stream, or as
/// a stream whose filters fail (when its dictionary holds no reference).
pub open spec fn objstm_fails(f: PdfFileView, sn: u32) -> bool {
    !f.xref.contains_key(sn) || exists|c: ObjectView| #[trigger] loaded_as(f, sn, c) && stream_fails(c)
}

/// The loaded object `c` is no stream, or a stream whose filters fail.
pub open spec fn stream_fails(c: ObjectView) -> bool {
    match c {
        ObjectView::Stream(es, raw) => ref_free(ObjectView::Dict(es)) ==> !(filters::spec_decode(es, raw, Direct) is Done),
        _ => true,
    }
}

/// `v` is what member `num` of object stream `sn`, listed at `index`, can read as: null, or the
/// object at the member's offset in the decoding of the stream.
pub open spec fn objstm_member(f: PdfFileView, sn: u32, index: u32, num: u32, v: ObjectView) -> bool {
    v is Null || exists|data: Seq<u8>, pairs: Seq<(u32, usize)>|
        #[trigger] objstm_read(f, sn, data, pairs) && member_offset(pairs, index, num) is Some && v
            == member_at(data, member_offset(pairs, index, num)->0)
}

/// A container that loads as something failing makes the object stream fail.
proof fn lemma_objstm_fails(f: PdfFileView, sn: u32, c: ObjectView)
    requires
        loaded_as(f, sn, c),
        stream_fails(c),
    ensures
        objstm_fails(f, sn),
{
}

/// A container whose filter chain failed makes the object stream fail.
proof fn lemma_objstm_decode_fails(
    f: PdfFileView,
    sn: u32,
    cv: ObjectView,
    es: Seq<(Seq<char>, ObjectView)>,
    raw: Seq<u8>,
    resolved: Seq<(Seq<char>, ObjectView)>,
    res: Result<filters::Decoded, Error>,
)
    requires
        loaded_as(f, sn, cv),
        cv == ObjectView::Stream(es, raw),
        ref_free(ObjectView::Dict(es)) ==> resolved == es,
        filters::outcome_of(res) == filters::spec_decode(resolved, raw, Direct),
        res is Err,
    ensures
        objstm_fails(f, sn),
{
    if ref_free(ObjectView::Dict(es)) {
        crate::font::tables::lemma_decode_outcome(es, raw, res);
    }
    assert(stream_fails(cv));
}

/// Puts together what an object stream's container, its decoding and its header counts say.
proof fn lemma_objstm_read(
    f: PdfFileView,
    sn: u32,
    cv: ObjectView,
    es: Seq<(Seq<char>, ObjectView)>,
    raw: Seq<u8>,
    resolved: Seq<(Seq<char>, ObjectView)>,
    dec: filters::Decoded,
    n: usize,
    first: usize,
    pairs: Seq<(u32, usize)>,
)
    requires
        loaded_as(f, sn, cv),
        cv == ObjectView::Stream(es, raw),
        ref_free(ObjectView::Dict(es)) ==> resolved == es,
        filters::outcome_of(Ok::<filters::Decoded, Error>(dec)) == filters::spec_decode(
                resolved,
                raw,
                Direct),
        match dict_lookup(resolved, "N"@) {
            Some(o) => !(o is Ref) ==> n == count_value(o),
            None => n == 0,
        },
        match dict_lookup(resolved, "First"@) {
            Some(o) => !(o is Ref) ==> first == count_value(o),
            None => first == 0,
        },
        ref_free(ObjectView::Dict(es)) ==> (dict_lookup(es, "N"@) matches Some(v) ==> ref_free(v)),
        ref_free(ObjectView::Dict(es)) ==> (dict_lookup(es, "First"@) matches Some(v) ==> ref_free(v)),
        pairs == header_pairs(dec.data@, 0, n as nat, first),
    ensures
        objstm_read(f, sn, dec.data@, pairs),
{
    if ref_free(ObjectView::Dict(es)) {
        lemma_count_entry(es, "N"@, n);
        lemma_count_entry(es, "First"@, first);
        lemma_decoded(es, raw, dec);
    }
    reveal(stream_reads_as);
    assert(stream_reads_as(cv, dec.data@, pairs));
}

/// A count read from a reference-free entry is the entry's count.
proof fn lemma_count_entry(es: Seq<(Seq<char>, ObjectView)>, key: Seq<char>, v: usize)
    requires
        match dict_lookup(es, key) {
            Some(o) => !(o is Ref) ==> v == count_value(o),
            None => v == 0,
        },
        dict_lookup(es, key) matches Some(o) ==> ref_free(o),
    ensures
        v == count_entry(es, key),
{
}

/// A successful decoding is the filter chain's outcome.
proof fn lemma_decoded(es: Seq<(Seq<char>, ObjectView)>, raw: Seq<u8>, dec: filters::Decoded)
    requires
        filters::outcome_of(Ok::<filters::Decoded, Error>(dec)) == filters::spec_decode(es, raw, Direct),
    ensures
        exists|fl: Option<Seq<char>>|
            filters::spec_decode(es, raw, Direct) == filters::DecodeOutcome::Done(dec.data@, fl),
{
    assert(filters::spec_decode(es, raw, Direct) == filters::outcome_of(
        Ok::<filters::Decoded, Error>(dec),
    ));
}

/// An object stream's header number after white space from `p`, and where its token ends.
pub open spec fn header_number(d: Seq<u8>, p: int) -> (Option<i64>, int) {
    let q = crate::lexer::ws_end(d, p, false);
    let e = crate::lexer::regular_end(d, q);
    (token_number(d.subrange(q, e)), e)
}

/// The (member, offset) pairs of an object stream's header: up to `k` pairs of integers read
/// from `p`, each offset counted from `first`. Reading stops at the first pair that is not two
/// integers; a pair with a negative number is skipped.
#[verifier::opaque]
pub open spec fn header_pairs(d: Seq<u8>, p: int, k: nat, first: usize) -> Seq<(u32, usize)>
    decreases k,
{
    if k == 0 {
        Seq::empty()
    } else {
        let (num, p1) = header_number(d, p);
        let (off, p2) = header_number(d, p1);
        if num is Some && off is Some {
            let rest = header_pairs(d, p2, (k - 1) as nat, first);
            if num->0 >= 0 && off->0 >= 0 {
                seq![(num->0 as u32, first.wrapping_add(off->0 as usize))] + rest
            } else {
                rest
            }
        } else {
            Seq::empty()
        }
    }
}

/// Where member `expect` sits among the header pairs, as [`member_offset`] says.
fn member_slot(pairs: &Vec<(u32, usize)>, index: u32, expect: u32) -> (r: Option<usize>)
    ensures
        r == member_offset(pairs@, index, expect),
{
    let ix = index as usize;
    if ix < pairs.len() && pairs[ix].0 == expect {
        return Some(pairs[ix].1);
    }
    let mut i: usize = 0;
    while i < pairs.len()
        invariant
            i <= pairs@.len(),
            !((index as int) < pairs@.len() && pairs@[index as int].0 == expect),
            first_member(pairs@, expect, 0) == first_member(pairs@, expect, i as int),
        decreases pairs@.len() - i,
    {
        if pairs[i].0 == expect {
            return Some(pairs[i].1);
        }
        i = i + 1;
    }
    None
}

/// The (member, offset) pairs of an object stream's header, read from the decoded `data`.
fn read_header(data: &Vec<u8>, n: usize, first: usize) -> (pairs: Vec<(u32, usize)>)
    ensures
        pairs@ == header_pairs(data@, 0, n as nat, first),
{
    reveal(header_pairs);
    let mut pairs: Vec<(u32, usize)> = Vec::new();
    let mut c = Cursor::new(data.as_slice());
    let ghost dv = data@;
    let mut k: usize = 0;
    while k < n
        invariant_except_break
            pairs@ + header_pairs(dv, c.pos as int, (n - k) as nat, first) == header_pairs(
                dv,
                0,
                n as nat,
                first,
            ),
        invariant
            c.data@ == dv,
            c.pos <= dv.len(),
            k <= n,
            forall|q: int| #[trigger] header_pairs(dv, q, 0, first) == Seq::<(u32, usize)>::empty(),
        ensures
            pairs@ == header_pairs(dv, 0, n as nat, first),
        decreases n - k,
    {
        proof {
            reveal(header_pairs);
        }
        let ghost p = c.pos as int;
        let ghost before = pairs@;
        proof {
            crate::lexer::lemma_ws_end_bounds(dv, c.pos as int, false);
        }
        c.skip_ws();
        let num = number_value_of(c.read_regular());
        proof {
            crate::lexer::lemma_ws_end_bounds(dv, c.pos as int, false);
        }
        c.skip_ws();
        let off = number_value_of(c.read_regular());
        proof {
            assert(header_number(dv, p) == (num, header_number(dv, p).1));
            assert(header_number(dv, header_number(dv, p).1) == (off, c.pos as int));
        }
        match (num, off) {
            (Some(nv), Some(ov)) => {
                if nv >= 0 && ov >= 0 {
                    let member: u32 = #[verifier::truncate]
                    (nv as u32);
                    let at: usize = first.wrapping_add(
                        #[verifier::truncate]
                        (ov as usize),
                    );
                    pairs.push((member, at));
                    proof {
                        assert(pairs@ + header_pairs(dv, c.pos as int, (n - k - 1) as nat, first)
                            =~= before + header_pairs(dv, p, (n - k) as nat, first));
                    }
                } else {
                    proof {
                        assert(pairs@ + header_pairs(dv, c.pos as int, (n - k - 1) as nat, first)
                            =~= before + header_pairs(dv, p, (n - k) as nat, first));
                    }
                }
            },
            _ => {
                proof {
                    assert(header_pairs(dv, p, (n - k) as nat, first) =~= Seq::<(u32, usize)>::empty());
                    assert(pairs@ =~= before + header_pairs(dv, p, (n - k) as nat, first));
                }
                break;
            },
        }
        k = k + 1;
    }
    pairs
}

/// An integer token: the integer a number token is, when it is one.
pub open spec fn int_token(t: Seq<u8>) -> Option<i64> {
    match crate::lexer::number_token(t) {
        Some(ObjectView::Int(i)) => Some(i),
        _ => None::<i64>,
    }
}

/// A generation number clamped to `0..=65535`.
pub open spec fn clamp_gen(g: i64) -> u16 {
    if g < 0 {
        0
    } else if g > 65535 {
        65535
    } else {
        g as u16
    }
}

/// Reading entries `i..count` of a table subsection starting at object `start`, from `p`:
/// whether every entry had two numbers, the map with in-use (`n`) entries added where absent,
/// and where reading stopped.
pub open spec fn table_entries(
    d: Seq<u8>,
    p: int,
    start: u32,
    count: u32,
    i: int,
    m: Map<u32, XrefEntry>,
) -> (bool, Map<u32, XrefEntry>, int)
    decreases count - i,
{
    if i >= count {
        (true, m, p)
    } else {
        let q1 = crate::lexer::ws_end(d, p, false);
        let e1 = crate::lexer::regular_end(d, q1);
        let q2 = crate::lexer::ws_end(d, e1, false);
        let e2 = crate::lexer::regular_end(d, q2);
        let q3 = crate::lexer::ws_end(d, e2, false);
        let e3 = crate::lexer::regular_end(d, q3);
        let f1 = token_number(d.subrange(q1, e1));
        let f2 = token_number(d.subrange(q2, e2));
        if f1 is None || f2 is None {
            (false, m, e3)
        } else {
            let m2 = if d.subrange(q3, e3) == seq![110u8] {
                map_or_insert(
                    m,
                    ((start + i) % 0x1_0000_0000) as u32,
                    XrefEntry::Offset { offset: f1->0 as usize, gen: clamp_gen(f2->0) },
                )
            } else {
                m
            };
            table_entries(d, e3, start, count, i + 1, m2)
        }
    }
}

/// Reading a classic cross-reference table from `p` (after `xref`) into `m`: its trailer
/// dictionary or the error met, and the map with the entries read until then.
pub open spec fn table_scan(d: Seq<u8>, p: int, m: Map<u32, XrefEntry>) -> (
    Result<Seq<(Seq<char>, ObjectView)>, Seq<char>>,
    Map<u32, XrefEntry>,
)
    decreases d.len() - p,
{
    let p1 = crate::lexer::ws_end(d, p, false);
    if crate::lexer::keyword_at(d, p1, seq![116u8, 114, 97, 105, 108, 101, 114]) {
        let q = crate::lexer::ws_end(d, p1 + 7, false);
        match crate::lexer::object_scan(d, q).0 {
            Some(ObjectView::Dict(es)) => (Ok(es), m),
            _ => (Err("xref table without trailer dict"@), m),
        }
    } else {
        let p2 = crate::lexer::regular_end(d, p1);
        match int_token(d.subrange(p1, p2)) {
            Some(a) => if a < 0 {
                (Err("bad xref subsection"@), m)
            } else {
                let p3 = crate::lexer::ws_end(d, p2, false);
                let p4 = crate::lexer::regular_end(d, p3);
                match int_token(d.subrange(p3, p4)) {
                    Some(b) => if b < 0 {
                        (Err("bad xref subsection count"@), m)
                    } else {
                        let (ok, m2, q) = table_entries(d, p4, a as u32, b as u32, 0, m);
                        if !ok {
                            (Err("bad xref entry"@), m2)
                        } else if p < q <= d.len() {
                            table_scan(d, q, m2)
                        } else {
                            (Err("bad xref entry"@), m2)
                        }
                    },
                    None => (Err("bad xref subsection count"@), m),
                }
            },
            None => (Err("bad xref subsection"@), m),
        }
    }
}

/// Reads a classic cross-reference table after its `xref` keyword, up to and including its
/// trailer dictionary. In-use (`n`) entries are added where the object has no entry yet, so
/// a newer section read first wins; free entries are skipped.
#[verifier::spinoff_prover]
#[verifier::rlimit(80)]
fn read_xref_table(c: &mut Cursor, xref: &mut HashMap<u32, XrefEntry>) -> (r: Result<Dict, Error>)
    requires
        old(c).pos <= old(c).data@.len(),
    ensures
        final(c).data@ == old(c).data@,
        final(c).pos <= final(c).data@.len(),
        extends(old(xref)@, final(xref)@),
        r matches Err(e) ==> e.is_parse_with("xref table without trailer dict"@) || e.is_parse_with(
            "bad xref subsection"@,
        ) || e.is_parse_with("bad xref subsection count"@) || e.is_parse_with("bad xref entry"@),
        final(xref)@ == table_scan(old(c).data@, old(c).pos as int, old(xref)@).1,
        match table_scan(old(c).data@, old(c).pos as int, old(xref)@).0 {
            Ok(es) => r matches Ok(t) && t@ == es,
            Err(m) => r matches Err(e) && e.is_parse_with(m),
        },
{
    let ghost d = c.data@;
    let ghost total = table_scan(d, c.pos as int, xref@);
    loop
        invariant
            c.data@ == d,
            d == old(c).data@,
            c.pos <= d.len(),
            extends(old(xref)@, xref@),
            total == table_scan(old(c).data@, old(c).pos as int, old(xref)@),
            table_scan(d, c.pos as int, xref@) == total,
        decreases d.len() - c.pos,
    {
        let ghost p = c.pos as int;
        let ghost m = xref@;
        c.skip_ws();
        let trailer_kw: &[u8] = &[116, 114, 97, 105, 108, 101, 114];
        assert(trailer_kw@ =~= seq![116u8, 114, 97, 105, 108, 101, 114]);
        if c.eat_keyword(trailer_kw) {
            c.skip_ws();
            proof {
                crate::lexer::lemma_object_scan_bounds(d, c.pos as int);
                crate::lexer::scanned_objects_are_not_streams(d, c.pos as int);
            }
            return match c.read_object() {
                Some(o) => match o.as_dict() {
                    Some(t) => Ok(t.clone()),
                    None => parse_err("xref table without trailer dict"),
                },
                None => parse_err("xref table without trailer dict"),
            };
        }
        let ghost p0 = c.pos;
        // Subsection header: `start count`.
        let start: u32 = match int_token_of(c.read_regular()) {
            Some(i) => {
                if i >= 0 {
                    #[verifier::truncate]
                    (i as u32)
                } else {
                    return parse_err("bad xref subsection");
                }
            },
            None => {
                return parse_err("bad xref subsection");
            },
        };
        assert(c.pos > p0) by {
            crate::lexer::lemma_regular_end_bounds(d, p0 as int);
        }
        c.skip_ws();
        let count: u32 = match int_token_of(c.read_regular()) {
            Some(i) => {
                if i >= 0 {
                    #[verifier::truncate]
                    (i as u32)
                } else {
                    return parse_err("bad xref subsection count");
                }
            },
            None => {
                return parse_err("bad xref subsection count");
            },
        };
        let ghost p4 = c.pos as int;
        let ghost entries = table_entries(d, p4, start, count, 0, m);
        assert(table_scan(d, p, m) == if !entries.0 {
            (Err("bad xref entry"@), entries.1)
        } else if p < entries.2 <= d.len() {
            table_scan(d, entries.2, entries.1)
        } else {
            (Err("bad xref entry"@), entries.1)
        });
        assert(!entries.0 ==> total == (Err::<Seq<(Seq<char>, ObjectView)>, Seq<char>>("bad xref entry"@), entries.1));
        let mut i: u32 = 0;
        while i < count
            invariant
                c.data@ == d,
                d == old(c).data@,
                p0 < c.pos <= d.len(),
                p <= p0,
                extends(old(xref)@, xref@),
                table_entries(d, c.pos as int, start, count, i as int, xref@) == entries,
                !entries.0 ==> total == (Err::<Seq<(Seq<char>, ObjectView)>, Seq<char>>("bad xref entry"@), entries.1),
                total == table_scan(old(c).data@, old(c).pos as int, old(xref)@),
            decreases count - i,
        {
            let ghost before = xref@;
            let ghost ps = c.pos as int;
            c.skip_ws();
            let f1 = number_value_of(c.read_regular());
            c.skip_ws();
            let f2 = number_value_of(c.read_regular());
            c.skip_ws();
            let kind = c.read_regular();
            let (offset, gen) = match (f1, f2) {
                (Some(a), Some(b)) => (a, b),
                _ => {
                    proof {
                        assert(table_entries(d, ps, start, count, i as int, before) == (
                            false,
                            before,
                            c.pos as int,
                        ));
                    }
                    return parse_err("bad xref entry");
                },
            };
            if kind.len() == 1 && kind[0] == 110 {
                assert(kind@ =~= seq![110u8]);
                let g: u16 = if gen < 0 {
                    0
                } else if gen > 65535 {
                    65535
                } else {
                    gen as u16
                };
                let num: u32 = ((start as u64 + i as u64) % 0x1_0000_0000) as u32;
                or_insert(
                    xref,
                    num,
                    XrefEntry::Offset {
                        offset: #[verifier::truncate]
                        (offset as usize),
                        gen: g,
                    },
                );
                proof {
                    lemma_extends_trans(old(xref)@, before, xref@);
                }
            }
            i = i + 1;
        }
    }
}

/// The big-endian value of a field, wrapping at 2^64.
pub open spec fn field_value(b: Seq<u8>) -> int
    decreases b.len(),
{
    if b.len() == 0 {
        0
    } else {
        (field_value(b.drop_last()) * 256 + b.last()) % 0x1_0000_0000_0000_0000
    }
}

fn read_field(b: &[u8]) -> (v: u64)
    ensures
        v == field_value(b@),
{
    let mut acc: u64 = 0;
    let mut k: usize = 0;
    while k < b.len()
        invariant
            k <= b@.len(),
            acc == field_value(b@.subrange(0, k as int)),
        decreases b@.len() - k,
    {
        assert(b@.subrange(0, k + 1).drop_last() =~= b@.subrange(0, k as int));
        acc = ((acc as u128 * 256 + b[k] as u128) % 0x1_0000_0000_0000_0000) as u64;
        k = k + 1;
    }
    assert(b@.subrange(0, k as int) =~= b@);
    acc
}

/// `k -> e` added unless `k` already has an entry.
pub open spec fn map_or_insert(m: Map<u32, XrefEntry>, k: u32, e: XrefEntry) -> Map<u32, XrefEntry> {
    if m.contains_key(k) {
        m
    } else {
        m.insert(k, e)
    }
}

/// The entry the cross-reference stream row at `base` describes, with field widths `w0`,
/// `w1`, `w2`: type 1 an offset, type 2 a place in an object stream, anything else none. A
/// zero-wide type field means type 1.
pub open spec fn row_entry(content: Seq<u8>, base: int, w0: int, w1: int, w2: int) -> Option<XrefEntry> {
    let t = if w0 == 0 {
        1
    } else {
        field_value(content.subrange(base, base + w0))
    };
    let f2 = field_value(content.subrange(base + w0, base + w0 + w1));
    let f3 = field_value(content.subrange(base + w0 + w1, base + w0 + w1 + w2));
    if t == 1 {
        Some(XrefEntry::Offset { offset: f2 as usize, gen: if f3 > 65535 {
            65535
        } else {
            f3 as u16
        } })
    } else if t == 2 {
        Some(XrefEntry::InStream { stream_num: f2 as u32, index: f3 as u32 })
    } else {
        None
    }
}

/// The map after the rows from `ri` on are given to objects `start + i`, `start + i + 1`, ...,
/// while fewer than `count` are numbered and rows remain; and the next unused row.
pub open spec fn apply_rows(
    m: Map<u32, XrefEntry>,
    content: Seq<u8>,
    w: Seq<usize>,
    row: int,
    nrows: int,
    start: i64,
    count: i64,
    i: int,
    ri: int,
) -> (Map<u32, XrefEntry>, int)
    decreases nrows - ri,
{
    if i < count && 0 <= ri < nrows {
        let m2 = match row_entry(content, ri * row, w[0] as int, w[1] as int, w[2] as int) {
            Some(e) => map_or_insert(m, (start + i) as u32, e),
            None => m,
        };
        apply_rows(m2, content, w, row, nrows, start, count, i + 1, ri + 1)
    } else {
        (m, ri)
    }
}

/// The map after the `(first, count)` pairs of `index` from the `k`-th on number the rows from
/// `ri` on, entries added only where absent.
pub open spec fn apply_pairs(
    m: Map<u32, XrefEntry>,
    content: Seq<u8>,
    w: Seq<usize>,
    row: int,
    nrows: int,
    index: Seq<i64>,
    k: int,
    ri: int,
) -> Map<u32, XrefEntry>
    decreases index.len() / 2 - k,
{
    if 0 <= k < index.len() / 2 {
        let (m2, ri2) = apply_rows(m, content, w, row, nrows, index[2 * k], index[2 * k + 1], 0, ri);
        apply_pairs(m2, content, w, row, nrows, index, k + 1, ri2)
    } else {
        m
    }
}

/// Adds the entries of a decoded cross-reference stream: rows of `w[0] + w[1] + ...` bytes,
/// numbered by the `(first, count)` pairs of `index`. A row's type is its first field (1 when
/// that field is zero-wide): 1 is an object at an offset, 2 an object in an object stream,
/// anything else free. Entries are added only where absent.
fn add_stream_entries(content: &[u8], w: &Vec<usize>, row: usize, index: &Vec<i64>, xref: &mut HashMap<u32, XrefEntry>)
    requires
        w@.len() >= 3,
        row >= 1,
        w@[0] + w@[1] + w@[2] <= row,
    ensures
        extends(old(xref)@, final(xref)@),
        final(xref)@ == apply_pairs(
            old(xref)@,
            content@,
            w@,
            row as int,
            (content@.len() as int) / (row as int),
            index@,
            0,
            0,
        ),
{
    let ghost m0 = xref@;
    let cl = content.len();
    let nrows = cl / row;
    let w0 = w[0];
    let w1 = w[1];
    let w2 = w[2];
    let mut ri: usize = 0;
    let il = index.len();
    let npairs = il / 2;
    let mut k: usize = 0;
    while k < npairs
        invariant
            il == index@.len(),
            npairs == index@.len() / 2,
            k <= npairs,
            ri <= nrows,
            nrows == cl / row,
            cl == content@.len(),
            row >= 1,
            w0 + w1 + w2 <= row,
            extends(old(xref)@, xref@),
            w0 == w@[0] && w1 == w@[1] && w2 == w@[2],
            apply_pairs(m0, content@, w@, row as int, nrows as int, index@, 0, 0) == apply_pairs(
                xref@,
                content@,
                w@,
                row as int,
                nrows as int,
                index@,
                k as int,
                ri as int,
            ),
        decreases npairs - k,
    {
        let start = index[2 * k];
        let count = index[2 * k + 1];
        let ghost mk = xref@;
        let ghost rk = ri as int;
        let mut i: i64 = 0;
        while i < count && ri < nrows
            invariant
                ri <= nrows,
                nrows == cl / row,
                cl == content@.len(),
                row >= 1,
                w0 + w1 + w2 <= row,
                0 <= i,
                extends(old(xref)@, xref@),
                w0 == w@[0] && w1 == w@[1] && w2 == w@[2],
                apply_rows(mk, content@, w@, row as int, nrows as int, start, count, 0, rk)
                    == apply_rows(
                    xref@,
                    content@,
                    w@,
                    row as int,
                    nrows as int,
                    start,
                    count,
                    i as int,
                    ri as int,
                ),
            decreases nrows - ri,
        {
            let ghost before = xref@;
            assert(ri * row + row <= nrows * row) by (nonlinear_arith)
                requires
                    ri < nrows,
                    row >= 1,
            ;
            assert(nrows * row <= cl) by (nonlinear_arith)
                requires
                    nrows == cl / row,
                    row >= 1,
            ;
            let base = ri * row;
            let t = if w0 == 0 {
                1
            } else {
                read_field(vstd::slice::slice_subrange(content, base, base + w0))
            };
            let f2 = read_field(vstd::slice::slice_subrange(content, base + w0, base + w0 + w1));
            let f3 = read_field(
                vstd::slice::slice_subrange(content, base + w0 + w1, base + w0 + w1 + w2),
            );
            let num: u32 = #[verifier::truncate]
            ((start as i128 + i as i128) as u32);
            if t == 1 {
                or_insert(
                    xref,
                    num,
                    XrefEntry::Offset {
                        offset: #[verifier::truncate]
                        (f2 as usize),
                        gen: if f3 > 65535 {
                            65535
                        } else {
                            f3 as u16
                        },
                    },
                );
            } else if t == 2 {
                or_insert(
                    xref,
                    num,
                    XrefEntry::InStream {
                        stream_num: #[verifier::truncate]
                        (f2 as u32),
                        index: #[verifier::truncate]
                        (f3 as u32),
                    },
                );
            }
            // 0 = free; anything else per spec is a null reference.
            proof {
                if xref@ != before {
                    lemma_extends_trans(old(xref)@, before, xref@);
                }
            }
            ri = ri + 1;
            i = i + 1;
        }
        k = k + 1;
    }
}

/// The non-negative integer a dictionary entry holds, or none.
fn dict_int(d: &Dict, key: &str) -> (r: Option<i64>)
    ensures
        r == match dict_lookup(d@, key@) {
            Some(o) => crate::object::spec_as_int(o),
            None => None::<i64>,
        },
{
    match d.get(key) {
        Some(o) => o.as_int(),
        None => None,
    }
}

/// The integers among the values `items`, in order; a real counts as its integer part.
pub open spec fn spec_ints_among(items: Seq<ObjectView>) -> Seq<i64>
    decreases items.len(),
{
    if items.len() == 0 {
        Seq::empty()
    } else {
        let rest = spec_ints_among(items.drop_last());
        match crate::object::spec_as_int(items.last()) {
            Some(v) => rest.push(v),
            None => rest,
        }
    }
}

/// The integers among an array's items, in order.
fn ints_among(items: &[Object]) -> (r: Vec<i64>)
    ensures
        r@ == spec_ints_among(items@.map_values(|o: Object| o@)),
{
    let ghost iv = items@.map_values(|o: Object| o@);
    let mut out: Vec<i64> = Vec::new();
    let mut k: usize = 0;
    while k < items.len()
        invariant
            k <= items@.len(),
            iv == items@.map_values(|o: Object| o@),
            out@ == spec_ints_among(iv.subrange(0, k as int)),
        decreases items@.len() - k,
    {
        assert(iv.subrange(0, k + 1).drop_last() =~= iv.subrange(0, k as int));
        if let Some(v) = items[k].as_int() {
            out.push(v);
        }
        k = k + 1;
    }
    assert(iv.subrange(0, k as int) =~= iv);
    out
}

/// Where a cross-reference stream's dictionary starts: after `n g obj` read from `off` (an
/// offset past the end reads at the end); none when the `obj` keyword is missing.
pub open spec fn xref_obj_body(d: Seq<u8>, off: int) -> Option<int> {
    let p0 = if off <= d.len() {
        off
    } else {
        d.len() as int
    };
    let p1 = crate::lexer::ws_end(d, p0, false);
    let p2 = crate::lexer::regular_end(d, p1);
    let p3 = crate::lexer::ws_end(d, p2, false);
    let p4 = crate::lexer::regular_end(d, p3);
    let p5 = crate::lexer::ws_end(d, p4, false);
    if crate::lexer::keyword_at(d, p5, seq![111u8, 98, 106]) {
        Some(p5 + 3)
    } else {
        None
    }
}

/// The `/Length` a stream's bytes are read with: the entry as an integer, negatives zero.
pub open spec fn declared_length(es: Seq<(Seq<char>, ObjectView)>) -> Option<usize> {
    match dict_lookup(es, "Length"@) {
        Some(o) => match crate::object::spec_as_int(o) {
            Some(l) => Some(if l < 0 {
                0usize
            } else {
                l as usize
            }),
            None => None,
        },
        None => None,
    }
}

/// The dictionary and raw bytes of the cross-reference stream object at `off`; none when
/// `n g obj`, a dictionary or the `stream` keyword is missing.
#[verifier::opaque]
pub open spec fn xref_stream_scan(d: Seq<u8>, off: int) -> Option<(Seq<(Seq<char>, ObjectView)>, Seq<u8>)> {
    match xref_obj_body(d, off) {
        None => None,
        Some(p) => {
            let (o, q) = crate::lexer::object_scan(d, p);
            match o {
                Some(ObjectView::Dict(es)) => {
                    let q2 = crate::lexer::ws_end(d, q, false);
                    if crate::lexer::keyword_at(d, q2, seq![115u8, 116, 114, 101, 97, 109]) {
                        let start = crate::lexer::stream_start(d, q2 + 6);
                        let end = crate::lexer::stream_end(d, start, declared_length(es));
                        Some((es, d.subrange(start, end)))
                    } else {
                        None
                    }
                },
                _ => None,
            }
        },
    }
}

/// The integers of an array entry; none when the entry is no array.
pub open spec fn array_ints(es: Seq<(Seq<char>, ObjectView)>, key: Seq<char>) -> Option<Seq<i64>> {
    match dict_lookup(es, key) {
        Some(ObjectView::Array(items)) => Some(spec_ints_among(items)),
        _ => None,
    }
}

/// A field width from a /W integer: negatives are zero.
pub open spec fn width_of(v: i64) -> usize {
    if v < 0 {
        0
    } else {
        v as usize
    }
}

/// The field widths of a cross-reference stream.
pub open spec fn stream_widths(es: Seq<(Seq<char>, ObjectView)>) -> Seq<usize> {
    match array_ints(es, "W"@) {
        Some(v) => v.map_values(|x: i64| width_of(x)),
        None => Seq::empty(),
    }
}

/// The `(first, count)` pairs of a cross-reference stream: its /Index, or `0` and its /Size.
pub open spec fn stream_index(es: Seq<(Seq<char>, ObjectView)>) -> Seq<i64> {
    match array_ints(es, "Index"@) {
        Some(v) => v,
        None => seq![
            0i64,
            match dict_lookup(es, "Size"@) {
                Some(o) => match crate::object::spec_as_int(o) {
                    Some(n) => n,
                    None => 0,
                },
                None => 0,
            },
        ],
    }
}

/// The map after a cross-reference stream with dictionary `es` and decoded rows `content`
/// adds its entries: none are added when the rows are shorter than one row.
#[verifier::opaque]
pub open spec fn stream_entries(
    m: Map<u32, XrefEntry>,
    content: Seq<u8>,
    es: Seq<(Seq<char>, ObjectView)>,
) -> Map<u32, XrefEntry> {
    let w = stream_widths(es);
    let row = sum_widths(w);
    if row <= content.len() {
        apply_pairs(m, content, w, row, (content.len() as int) / row, stream_index(es), 0, 0)
    } else {
        m
    }
}

/// Reading the cross-reference stream at `off` gives dictionary `t` and turns `m0` into `m`:
/// the stream is there, its widths are usable, and `m` is `m0` with the entries of its
/// decoding added.
pub open spec fn xref_stream_read(
    d: Seq<u8>,
    off: int,
    t: Seq<(Seq<char>, ObjectView)>,
    m0: Map<u32, XrefEntry>,
    m: Map<u32, XrefEntry>,
) -> bool {
    &&& xref_stream_scan(d, off) is Some
    &&& t == scanned_dict(d, off)
    &&& widths_usable(t)
    &&& exists|c: Seq<u8>| #[trigger] decodes_to(t, scanned_raw(d, off), c) && m == stream_entries(m0, c, t)
}

/// The dictionary of the cross-reference stream at `off`.
pub open spec fn scanned_dict(d: Seq<u8>, off: int) -> Seq<(Seq<char>, ObjectView)> {
    match xref_stream_scan(d, off) {
        Some((es, _)) => es,
        None => Seq::empty(),
    }
}

/// The raw bytes of the cross-reference stream at `off`.
pub open spec fn scanned_raw(d: Seq<u8>, off: int) -> Seq<u8> {
    match xref_stream_scan(d, off) {
        Some((_, raw)) => raw,
        None => Seq::empty(),
    }
}

/// The widths of a cross-reference stream can be used: at least three, not all zero.
pub open spec fn widths_usable(es: Seq<(Seq<char>, ObjectView)>) -> bool {
    stream_widths(es).len() >= 3 && sum_widths(stream_widths(es)) != 0
}

/// Reads a cross-reference stream object at `off`: its entries are added where absent, and its
/// dictionary (which doubles as the trailer) is returned.
#[verifier::spinoff_prover]
#[verifier::rlimit(80)]
fn read_xref_stream(data: &[u8], off: usize, xref: &mut HashMap<u32, XrefEntry>) -> (r: Result<Dict, Error>)
    ensures
        extends(old(xref)@, final(xref)@),
        r is Err ==> final(xref)@ == old(xref)@,
        r matches Ok(t) ==> xref_stream_read(data@, off as int, t@, old(xref)@, final(xref)@),
        r is Err && xref_stream_scan(data@, off as int) is Some ==> !widths_usable(
            scanned_dict(data@, off as int),
        ) || may_fail(scanned_dict(data@, off as int), scanned_raw(data@, off as int)),
{
    let ghost m0 = xref@;
    let stream = match scan_xref_stream(data, off) {
        Ok(st) => st,
        Err(e) => {
            return Err(e);
        },
    };
    let ghost es = stream.dict@;
    let ghost raw = stream.raw@;
    // Xref streams are never encrypted, so plain filter decode is correct here.
    let res = filters::decode(&stream.dict, stream.raw.as_slice(), &Direct);
    proof {
        lemma_decode_result(es, raw, res);
    }
    let decoded = match res {
        Ok(d) => d,
        Err(e) => {
            return Err(e);
        },
    };
    let ghost content_v = decoded.data@;
    let content = decoded.data;
    let (w, row) = widths_of(&stream.dict);
    if w.len() < 3 {
        return parse_err("xref stream missing /W");
    }
    if row == 0 {
        return parse_err("xref stream /W is all zero");
    }
    let index = index_of(&stream.dict);
    if row <= content.len() as u128 {
        proof {
            lemma_sum_widths_prefix(w@);
        }
        add_stream_entries(content.as_slice(), &w, row as usize, &index, xref);
    }
    proof {
        lemma_stream_entries(m0, content_v, es, w@, row as int, index@, xref@);
        assert(decodes_to(es, raw, content_v));
        assert(xref_stream_scan(data@, off as int) == Some((es, raw)));
        assert(widths_usable(es));
        assert(xref@ == stream_entries(m0, content_v, es));
        assert(scanned_raw(data@, off as int) == raw && scanned_dict(data@, off as int) == es);
        assert(xref_stream_read(data@, off as int, es, m0, xref@));
    }
    Ok(stream.dict)
}

/// The filters of a stream with entries `es` and bytes `raw` decode to `content`.
#[verifier::opaque]
pub open spec fn decodes_to(es: Seq<(Seq<char>, ObjectView)>, raw: Seq<u8>, content: Seq<u8>) -> bool {
    exists|fl: Option<Seq<char>>|
        filters::spec_decode(es, raw, Direct) == filters::DecodeOutcome::Done(content, fl)
}

/// The filters of a stream with entries `es` and bytes `raw` fail.
#[verifier::opaque]
pub open spec fn may_fail(es: Seq<(Seq<char>, ObjectView)>, raw: Seq<u8>) -> bool {
    !(filters::spec_decode(es, raw, Direct) is Done)
}

/// What a filter chain's result says, in terms of [`decodes_to`] and [`may_fail`].
proof fn lemma_decode_result(es: Seq<(Seq<char>, ObjectView)>, raw: Seq<u8>, res: Result<filters::Decoded, Error>)
    requires
        filters::outcome_of(res) == filters::spec_decode(es, raw, Direct),
    ensures
        res matches Ok(d) ==> decodes_to(es, raw, d.data@),
        res is Err ==> may_fail(es, raw),
{
    reveal(decodes_to);
    reveal(may_fail);
    crate::font::tables::lemma_decode_outcome(es, raw, res);
}

/// The entries added from the stream's widths and index are [`stream_entries`].
proof fn lemma_stream_entries(
    m0: Map<u32, XrefEntry>,
    content: Seq<u8>,
    es: Seq<(Seq<char>, ObjectView)>,
    w: Seq<usize>,
    row: int,
    index: Seq<i64>,
    m: Map<u32, XrefEntry>,
)
    requires
        w == stream_widths(es),
        row == sum_widths(w),
        index == stream_index(es),
        row <= content.len() ==> m == apply_pairs(m0, content, w, row, (content.len() as int) / row, index, 0, 0),
        row > content.len() ==> m == m0,
    ensures
        m == stream_entries(m0, content, es),
{
    reveal(stream_entries);
}

/// The dictionary and raw bytes of the cross-reference stream object at `off`.
#[verifier::spinoff_prover]
fn scan_xref_stream(data: &[u8], off: usize) -> (r: Result<Stream, Error>)
    ensures
        r matches Ok(st) ==> xref_stream_scan(data@, off as int) == Some((st.dict@, st.raw@)),
        r is Err ==> xref_stream_scan(data@, off as int) is None,
{
    reveal(xref_stream_scan);
    let ghost d = data@;
    let mut c = Cursor::at(data, off);
    c.skip_ws();
    // `n g obj`
    let _num = c.read_regular();
    c.skip_ws();
    let _gen = c.read_regular();
    c.skip_ws();
    let obj_kw: &[u8] = &[111, 98, 106];
    assert(obj_kw@ =~= seq![111u8, 98, 106]);
    if !c.eat_keyword(obj_kw) {
        return parse_err("startxref points at neither table nor stream");
    }
    let ghost p = c.pos as int;
    assert(xref_obj_body(d, off as int) == Some(p));
    proof {
        crate::lexer::lemma_object_scan_bounds(data@, c.pos as int);
    }
    let obj = match c.read_object() {
        Some(o) => o,
        None => {
            return parse_err("empty xref stream object");
        },
    };
    let dict = match obj {
        Object::Dict(d) => d,
        _ => {
            return parse_err("xref stream object is not a stream");
        },
    };
    let ghost es = dict@;
    c.skip_ws();
    let stream_kw: &[u8] = &[115, 116, 114, 101, 97, 109];
    assert(stream_kw@ =~= seq![115u8, 116, 114, 101, 97, 109]);
    if !c.eat_keyword(stream_kw) {
        return parse_err("xref stream without stream body");
    }
    let length: Option<usize> = match dict_int(&dict, "Length") {
        Some(l) => Some(if l < 0 {
            0
        } else {
            #[verifier::truncate]
            (l as usize)
        }),
        None => None,
    };
    assert(length == declared_length(es));
    match c.read_stream_data(dict, length) {
        Object::Stream(st) => Ok(st),
        _ => parse_err("xref stream object is not a stream"),
    }
}

/// The field widths of a cross-reference stream's /W, and their sum.
#[verifier::spinoff_prover]
fn widths_of(dict: &Dict) -> (r: (Vec<usize>, u128))
    ensures
        r.0@ == stream_widths(dict@),
        r.1 == sum_widths(r.0@),
{
    let w_ints: Vec<i64> = match dict.get("W") {
        Some(o) => match o.as_array() {
            Some(a) => {
                proof {
                    assert(a@.map_values(|x: Object| x@) =~= o@->Array_0);
                }
                ints_among(a)
            },
            None => Vec::new(),
        },
        None => Vec::new(),
    };
    assert(w_ints@.map_values(|x: i64| width_of(x)) =~= stream_widths(dict@));
    let mut w: Vec<usize> = Vec::new();
    let mut row: u128 = 0;
    let mut k: usize = 0;
    while k < w_ints.len()
        invariant
            k <= w_ints@.len(),
            w@.len() == k,
            w@ == w_ints@.subrange(0, k as int).map_values(|x: i64| width_of(x)),
            row == crate::parser::sum_widths(w@),
            row <= k * 0x1_0000_0000_0000_0000,
        decreases w_ints@.len() - k,
    {
        let v = w_ints[k];
        let u: usize = if v < 0 {
            0
        } else {
            #[verifier::truncate]
            (v as usize)
        };
        assert(w@.push(u).drop_last() =~= w@);
        w.push(u);
        assert(w@ =~= w_ints@.subrange(0, k + 1).map_values(|x: i64| width_of(x)));
        row = row + u as u128;
        k = k + 1;
    }
    assert(w_ints@.subrange(0, k as int) =~= w_ints@);
    (w, row)
}

/// The `(first, count)` pairs of a cross-reference stream.
#[verifier::spinoff_prover]
#[verifier::rlimit(40)]
fn index_of(dict: &Dict) -> (r: Vec<i64>)
    ensures
        r@ == stream_index(dict@),
{
    let size = match dict_int(dict, "Size") {
        Some(s) => s,
        None => 0,
    };
    let index: Vec<i64> = match dict.get("Index") {
        Some(o) => match o.as_array() {
            Some(a) => {
                proof {
                    assert(a@.map_values(|x: Object| x@) =~= o@->Array_0);
                }
                ints_among(a)
            },
            None => {
                let mut v = Vec::new();
                v.push(0);
                v.push(size);
                v
            },
        },
        None => {
            let mut v = Vec::new();
            v.push(0);
            v.push(size);
            assert(v@ =~= seq![0i64, size]);
            v
        },
    };
    assert(index@ =~= stream_index(dict@));
    index
}

/// The sum of the field widths.
pub open spec fn sum_widths(w: Seq<usize>) -> int
    decreases w.len(),
{
    if w.len() == 0 {
        0
    } else {
        sum_widths(w.drop_last()) + w.last()
    }
}

proof fn lemma_sum_widths_prefix(w: Seq<usize>)
    requires
        w.len() >= 3,
    ensures
        w[0] + w[1] + w[2] <= sum_widths(w),
    decreases w.len(),
{
    if w.len() > 3 {
        lemma_sum_widths_prefix(w.drop_last());
        assert(w.drop_last()[0] == w[0] && w.drop_last()[1] == w[1] && w.drop_last()[2] == w[2]);
    } else {
        reveal_with_fuel(sum_widths, 4);
        assert(w.drop_last().drop_last().drop_last() =~= Seq::<usize>::empty());
    }
}

} // verus!

verus! {

// ---- the file and its model ----------------------------------------------------------------

/// The parsed file: bytes plus the object map. All access is by object number.
pub struct PdfFile {
    data: Vec<u8>,
    xref: HashMap<u32, XrefEntry>,
    pub trailer: Dict,
    pub decryptor: Option<Decryptor>,
    /// The /Encrypt dictionary's own ref: its strings are not encrypted.
    encrypt_ref: Option<ObjRef>,
}

/// What a [`PdfFile`] holds: the bytes from the header on, the object map, the trailer, the
/// decryptor if the document is encrypted, and the number of the /Encrypt dictionary.
pub struct PdfFileView {
    pub data: Seq<u8>,
    pub xref: Map<u32, XrefEntry>,
    pub trailer: Seq<(Seq<char>, ObjectView)>,
    pub decryptor: Option<DecryptorView>,
    pub encrypt_ref: Option<(u32, u16)>,
}

impl View for PdfFile {
    type V = PdfFileView;

    closed spec fn view(&self) -> PdfFileView {
        PdfFileView {
            data: self.data@,
            xref: self.xref@,
            trailer: self.trailer@,
            decryptor: match self.decryptor {
                Some(d) => Some(d@),
                None => None,
            },
            encrypt_ref: match self.encrypt_ref {
                Some(r) => Some((r.num, r.gen)),
                None => None,
            },
        }
    }
}

pub open spec fn obj_kw() -> Seq<u8> {
    seq![111u8, 98, 106]
}

pub open spec fn stream_kw() -> Seq<u8> {
    seq![115u8, 116, 114, 101, 97, 109]
}

/// Where the body of object `num` starts when its header `num gen obj` stands at `offset`
/// (after whitespace); none when the header is missing or names another object.
#[verifier::opaque]
pub open spec fn body_start(d: Seq<u8>, num: u32, offset: int) -> Option<int> {
    let p1 = ws_end(d, offset, false);
    let e1 = regular_end(d, p1);
    let p2 = ws_end(d, e1, false);
    let e2 = regular_end(d, p2);
    let p3 = ws_end(d, e2, false);
    if 0 <= offset < d.len() && keyword_at(d, p3, obj_kw()) && number_token(d.subrange(p1, e1))
        == Some(ObjectView::Int(num as i64)) {
        Some(p3 + 3)
    } else {
        None
    }
}

/// What a direct `/Length` entry says of a stream body's length: `Some(len)` when the entry
/// decides it, `None` when it is a reference and must be read through the file.
pub open spec fn direct_length(es: Seq<(Seq<char>, ObjectView)>) -> Option<Option<usize>> {
    match dict_lookup(es, "Length"@) {
        Some(ObjectView::Int(i)) => Some(Some(clamp_len(i))),
        Some(ObjectView::Ref(_, _)) => None,
        _ => Some(None),
    }
}

/// A length value, negative ones read as zero.
pub open spec fn clamp_len(i: i64) -> usize {
    if i < 0 {
        0
    } else {
        i as usize
    }
}

/// The object whose header stands at `offset`, before decryption, reading a stream body with
/// `length` as its declared length: `Null` when the header is wrong or no object follows it.
#[verifier::opaque]
pub open spec fn plain_object(d: Seq<u8>, num: u32, offset: int, length: Option<usize>) -> ObjectView {
    match body_start(d, num, offset) {
        None => ObjectView::Null,
        Some(b) => {
            let (o, p) = object_scan(d, b);
            match o {
                None => ObjectView::Null,
                Some(ObjectView::Dict(es)) => {
                    let q = ws_end(d, p, false);
                    if keyword_at(d, q, stream_kw()) {
                        let start = stream_start(d, q + 6);
                        ObjectView::Stream(es, d.subrange(start, stream_end(d, start, length)))
                    } else {
                        ObjectView::Dict(es)
                    }
                },
                Some(v) => v,
            }
        },
    }
}

/// The length rule for the object at `offset`: `Some(len)` when its dictionary decides the
/// stream length directly (or it is no stream), `None` when `/Length` is a reference.
#[verifier::opaque]
pub open spec fn length_rule(d: Seq<u8>, num: u32, offset: int) -> Option<Option<usize>> {
    match body_start(d, num, offset) {
        Some(b) => match object_scan(d, b).0 {
            Some(ObjectView::Dict(es)) => direct_length(es),
            _ => Some(None),
        },
        None => Some(None),
    }
}

/// An object with its strings and stream bodies decrypted for object `num`, `gen`. Strings
/// use the string cipher and streams the stream cipher, except cross-reference streams and
/// metadata the document keeps in the clear.
pub open spec fn decrypt_view(dec: DecryptorView, num: u32, gen: u16, o: ObjectView) -> ObjectView
    decreases o,
{
    match o {
        ObjectView::Str(s) => ObjectView::Str(spec_decrypt(dec, dec.string_cipher, num, gen, s)),
        ObjectView::Array(items) => ObjectView::Array(
            Seq::new(
                items.len(),
                |i: int|
                    if 0 <= i < items.len() {
                        decrypt_view(dec, num, gen, items[i])
                    } else {
                        ObjectView::Null
                    },
            ),
        ),
        ObjectView::Dict(es) => ObjectView::Dict(
            Seq::new(
                es.len(),
                |i: int|
                    if 0 <= i < es.len() {
                        (es[i].0, decrypt_view(dec, num, gen, es[i].1))
                    } else {
                        (Seq::empty(), ObjectView::Null)
                    },
            ),
        ),
        ObjectView::Stream(es, raw) => {
            let des = Seq::new(
                es.len(),
                |i: int|
                    if 0 <= i < es.len() {
                        (es[i].0, decrypt_view(dec, num, gen, es[i].1))
                    } else {
                        (Seq::empty(), ObjectView::Null)
                    },
            );
            let ty = match dict_lookup(des, "Type"@) {
                Some(ObjectView::Name(n)) => Some(n),
                _ => None,
            };
            let clear = ty == Some("XRef"@) || (ty == Some("Metadata"@) && !dec.encrypt_metadata);
            ObjectView::Stream(
                des,
                if clear {
                    raw
                } else {
                    spec_decrypt(dec, dec.stream_cipher, num, gen, raw)
                },
            )
        },
        _ => o,
    }
}

/// Object `num`, `gen` as the file serves it: decrypted, unless the document is not encrypted
/// or the object is the /Encrypt dictionary itself.
pub open spec fn sealed(f: PdfFileView, num: u32, gen: u16, o: ObjectView) -> ObjectView {
    match f.decryptor {
        Some(dec) => if f.encrypt_ref matches Some((n, _)) && n == num {
            o
        } else {
            decrypt_view(dec, num, gen, o)
        },
        None => o,
    }
}

/// A document without encryption serves every object as it is parsed.
pub proof fn unencrypted_objects_are_served_as_parsed(f: PdfFileView, num: u32, gen: u16, o: ObjectView)
    requires
        f.decryptor is None,
    ensures
        sealed(f, num, gen, o) == o,
{
}

/// The /Encrypt dictionary itself is never decrypted.
pub proof fn the_encrypt_dictionary_is_served_as_parsed(
    f: PdfFileView,
    num: u32,
    gen: u16,
    o: ObjectView,
)
    requires
        f.encrypt_ref matches Some((n, _)) && n == num,
    ensures
        sealed(f, num, gen, o) == o,
{
}

/// `v` is what object `num` at `offset` comes to, for a stream length that its direct
/// `/Length` decides when there is one.
#[verifier::opaque]
pub open spec fn offset_result(f: PdfFileView, num: u32, gen: u16, offset: int, v: ObjectView) -> bool {
    exists|len: Option<usize>|
        (length_rule(f.data, num, offset) matches Some(l) ==> len == l) && v == sealed(
            f,
            num,
            gen,
            #[trigger] plain_object(f.data, num, offset, len),
        )
}

/// Object `n` is defined at an offset by something other than a reference, so reading it once
/// reaches a direct object.
pub open spec fn direct_hop(f: PdfFileView, n: u32) -> bool {
    f.xref.contains_key(n) && match f.xref[n] {
        XrefEntry::Offset { offset, gen } => !(plain_object(f.data, n, offset as int, None) is Ref),
        XrefEntry::InStream { .. } => false,
    }
}

/// When object `n` is defined directly at an offset, `v` is what reading it there comes to.
pub open spec fn one_hop(f: PdfFileView, n: u32, v: ObjectView) -> bool {
    direct_hop(f, n) ==> match f.xref[n] {
        XrefEntry::Offset { offset, gen } => offset_result(f, n, gen, offset as int, v),
        XrefEntry::InStream { .. } => true,
    }
}

proof fn lemma_one_hop_is_direct(f: PdfFileView, n: u32, v: ObjectView)
    requires
        direct_hop(f, n),
        one_hop(f, n, v),
    ensures
        !(v is Ref),
{
    match f.xref[n] {
        XrefEntry::Offset { offset, gen } => {
            reveal(offset_result);
            let len = choose|len: Option<usize>|
                (length_rule(f.data, n, offset as int) matches Some(l) ==> len == l) && v == sealed(
                    f,
                    n,
                    gen,
                    #[trigger] plain_object(f.data, n, offset as int, len),
                );
            lemma_plain_ref_independent(f.data, n, offset as int, len);
            lemma_sealed_keeps_refs(f, n, gen, plain_object(f.data, n, offset as int, len));
        },
        XrefEntry::InStream { .. } => {},
    }
}

proof fn lemma_plain_ref_independent(d: Seq<u8>, num: u32, offset: int, len: Option<usize>)
    ensures
        (plain_object(d, num, offset, len) is Ref) == (plain_object(d, num, offset, None) is Ref),
{
    reveal(plain_object);
}

proof fn lemma_sealed_keeps_refs(f: PdfFileView, num: u32, gen: u16, o: ObjectView)
    ensures
        (sealed(f, num, gen, o) is Ref) == (o is Ref),
{
}

#[verifier::spinoff_prover]
fn decrypt_object(o: &Object, dec: &Decryptor, num: u32, gen: u16) -> (r: Object)
    ensures
        r@ == decrypt_view(dec@, num, gen, o@),
    decreases o,
{
    match o {
        Object::String(s) => Object::String(dec.decrypt_string(num, gen, s.as_slice())),
        Object::Array(items) => {
            let c = decrypt_items(items, dec, num, gen);
            let r = Object::Array(c);
            assert(r@->Array_0 =~= decrypt_view(dec@, num, gen, o@)->Array_0);
            r
        },
        Object::Dict(d) => {
            let es = decrypt_entries(&d.0, dec, num, gen);
            proof {
                lemma_decrypted_entries(es@, d.0@, dec@, num, gen);
            }
            Object::Dict(Dict(es))
        },
        Object::Stream(st) => {
            let es = decrypt_entries(&st.dict.0, dec, num, gen);
            proof {
                lemma_decrypted_entries(es@, st.dict.0@, dec@, num, gen);
            }
            let dict = Dict(es);
            let ty = match dict.get("Type") {
                Some(t) => t.as_name(),
                None => None,
            };
            let is_xref = match ty {
                Some(t) => str_eq(t, "XRef"),
                None => false,
            };
            let raw = if !is_xref && dec.stream_needs_decrypt(ty) {
                dec.decrypt_stream(num, gen, st.raw.as_slice())
            } else {
                vstd::slice::slice_to_vec(st.raw.as_slice())
            };
            Object::Stream(Stream { dict, raw })
        },
        _ => o.clone(),
    }
}

proof fn lemma_decrypted_entries(
    out: Seq<(String, Object)>,
    entries: Seq<(String, Object)>,
    dec: DecryptorView,
    num: u32,
    gen: u16,
)
    requires
        out.len() == entries.len(),
        forall|i: int|
            0 <= i < entries.len() ==> (#[trigger] out[i]).0@ == entries[i].0@ && out[i].1@
                == decrypt_view(dec, num, gen, entries[i].1@),
    ensures
        crate::object::entries_view(out) == decrypt_view(
            dec,
            num,
            gen,
            ObjectView::Dict(crate::object::entries_view(entries)),
        )->Dict_0,
        crate::object::entries_view(out) == decrypt_view(
            dec,
            num,
            gen,
            ObjectView::Stream(crate::object::entries_view(entries), Seq::empty()),
        )->Stream_0,
{
    let ev = crate::object::entries_view(entries);
    let ov = crate::object::entries_view(out);
    assert(ov =~= decrypt_view(dec, num, gen, ObjectView::Dict(ev))->Dict_0);
    assert(ov =~= decrypt_view(dec, num, gen, ObjectView::Stream(ev, Seq::empty()))->Stream_0);
}

fn decrypt_items(items: &Vec<Object>, dec: &Decryptor, num: u32, gen: u16) -> (r: Vec<Object>)
    ensures
        r@.len() == items@.len(),
        forall|i: int|
            0 <= i < items@.len() ==> (#[trigger] r@[i])@ == decrypt_view(dec@, num, gen, items@[i]@),
    decreases items,
{
    let mut out: Vec<Object> = Vec::new();
    let mut i: usize = 0;
    while i < items.len()
        invariant
            i <= items@.len(),
            out@.len() == i,
            forall|k: int|
                0 <= k < i ==> (#[trigger] out@[k])@ == decrypt_view(dec@, num, gen, items@[k]@),
        decreases items@.len() - i,
    {
        assert(decreases_to!(items => items@[i as int]));
        out.push(decrypt_object(&items[i], dec, num, gen));
        i = i + 1;
    }
    out
}

fn decrypt_entries(entries: &Vec<(String, Object)>, dec: &Decryptor, num: u32, gen: u16) -> (r: Vec<
    (String, Object),
>)
    ensures
        r@.len() == entries@.len(),
        forall|i: int|
            0 <= i < entries@.len() ==> (#[trigger] r@[i]).0@ == entries@[i].0@ && r@[i].1@
                == decrypt_view(dec@, num, gen, entries@[i].1@),
    decreases entries,
{
    let mut out: Vec<(String, Object)> = Vec::new();
    let mut i: usize = 0;
    while i < entries.len()
        invariant
            i <= entries@.len(),
            out@.len() == i,
            forall|k: int|
                0 <= k < i ==> (#[trigger] out@[k]).0@ == entries@[k].0@ && out@[k].1@
                    == decrypt_view(dec@, num, gen, entries@[k].1@),
        decreases entries@.len() - i,
    {
        assert(decreases_to!(entries => entries@[i as int].1));
        let v = decrypt_object(&entries[i].1, dec, num, gen);
        out.push((entries[i].0.clone(), v));
        i = i + 1;
    }
    out
}

/// An object with no reference anywhere inside it.
pub open spec fn ref_free(o: ObjectView) -> bool
    decreases o,
{
    match o {
        ObjectView::Ref(_, _) => false,
        ObjectView::Array(items) => forall|i: int|
            0 <= i < items.len() ==> ref_free(#[trigger] items[i]),
        ObjectView::Dict(es) => forall|i: int| 0 <= i < es.len() ==> ref_free(#[trigger] es[i].1),
        ObjectView::Stream(es, _) => forall|i: int|
            0 <= i < es.len() ==> ref_free(#[trigger] es[i].1),
        _ => true,
    }
}

/// Each value of a reference-free dictionary is reference-free.
pub(crate) proof fn lemma_ref_free_entry(es: Seq<(Seq<char>, ObjectView)>, i: int)
    requires
        ref_free(ObjectView::Dict(es)),
        0 <= i < es.len(),
    ensures
        ref_free(es[i].1),
{
    assert(ObjectView::Dict(es)->Dict_0 == es);
    assert(forall|j: int| 0 <= j < es.len() ==> ref_free(#[trigger] es[j].1));
}

/// The dictionary of a reference-free stream is reference-free.
pub(crate) proof fn lemma_ref_free_stream_dict(es: Seq<(Seq<char>, ObjectView)>, raw: Seq<u8>)
    requires
        ref_free(ObjectView::Stream(es, raw)),
    ensures
        ref_free(ObjectView::Dict(es)),
{
    assert(ObjectView::Stream(es, raw)->Stream_0 == es);
    assert(forall|j: int| 0 <= j < es.len() ==> ref_free(#[trigger] es[j].1));
}

/// A value looked up in a reference-free dictionary is reference-free.
pub(crate) proof fn lemma_lookup_ref_free(es: Seq<(Seq<char>, ObjectView)>, k: Seq<char>)
    requires
        ref_free(ObjectView::Dict(es)),
    ensures
        dict_lookup(es, k) matches Some(v) ==> ref_free(v),
{
    if dict_lookup(es, k) is Some {
        crate::object::lemma_key_index_found(es, k);
        let i = crate::object::key_index(es, k)->0;
        lemma_ref_free_entry(es, i);
    }
}

/// Each item of a reference-free array is reference-free.
pub(crate) proof fn lemma_ref_free_item(items: Seq<ObjectView>, i: int)
    requires
        ref_free(ObjectView::Array(items)),
        0 <= i < items.len(),
    ensures
        ref_free(items[i]),
{
    assert(ObjectView::Array(items)->Array_0 == items);
    assert(forall|j: int| 0 <= j < items.len() ==> ref_free(#[trigger] items[j]));
}

/// `v` holds `x`.
fn holds(v: &Vec<u32>, x: u32) -> (r: bool)
    ensures
        r == v@.contains(x),
{
    let mut i: usize = 0;
    while i < v.len()
        invariant
            i <= v@.len(),
            forall|k: int| 0 <= k < i ==> v@[k] != x,
        decreases v@.len() - i,
    {
        if v[i] == x {
            return true;
        }
        i = i + 1;
    }
    false
}

proof fn lemma_plain_none(d: Seq<u8>, num: u32, offset: int, len: Option<usize>)
    requires
        body_start(d, num, offset) matches Some(b) ==> object_scan(d, b).0 is None,
    ensures
        plain_object(d, num, offset, len) == ObjectView::Null,
        length_rule(d, num, offset) == Some(None::<usize>),
{
    reveal(plain_object);
    reveal(length_rule);
}

proof fn lemma_plain_stream(
    d: Seq<u8>,
    num: u32,
    offset: int,
    b: int,
    p: int,
    es: Seq<(Seq<char>, ObjectView)>,
    len: Option<usize>,
)
    requires
        body_start(d, num, offset) == Some(b),
        object_scan(d, b) == (Some(ObjectView::Dict(es)), p),
        keyword_at(d, ws_end(d, p, false), stream_kw()),
    ensures
        ({
            let start = stream_start(d, ws_end(d, p, false) + 6);
            plain_object(d, num, offset, len) == ObjectView::Stream(
                es,
                d.subrange(start, stream_end(d, start, len)),
            )
        }),
        length_rule(d, num, offset) == direct_length(es),
{
    reveal(plain_object);
    reveal(length_rule);
}

proof fn lemma_plain_direct(
    d: Seq<u8>,
    num: u32,
    offset: int,
    b: int,
    p: int,
    v: ObjectView,
    len: Option<usize>,
)
    requires
        body_start(d, num, offset) == Some(b),
        object_scan(d, b) == (Some(v), p),
        v is Dict ==> !keyword_at(d, ws_end(d, p, false), stream_kw()),
    ensures
        plain_object(d, num, offset, len) == v,
{
    reveal(plain_object);
}

proof fn lemma_offset_witness(
    f: PdfFileView,
    num: u32,
    gen: u16,
    offset: int,
    len: Option<usize>,
    v: ObjectView,
)
    requires
        length_rule(f.data, num, offset) matches Some(l) ==> len == l,
        v == sealed(f, num, gen, plain_object(f.data, num, offset, len)),
    ensures
        offset_result(f, num, gen, offset, v),
{
    reveal(offset_result);
}

proof fn lemma_same_entries(a: Seq<(String, Object)>, b: Seq<(String, Object)>)
    requires
        a.len() == b.len(),
        forall|k: int| 0 <= k < a.len() ==> (#[trigger] a[k]).0@ == b[k].0@,
        forall|k: int| 0 <= k < a.len() ==> (#[trigger] a[k]).1@ == b[k].1@,
    ensures
        crate::object::entries_view(a) == crate::object::entries_view(b),
{
    assert(crate::object::entries_view(a) =~= crate::object::entries_view(b));
}

/// Where the body of object `num` starts when its header stands at `offset`.
fn body_at(d: &[u8], num: u32, offset: usize) -> (r: Option<usize>)
    ensures
        match r {
            Some(b) => body_start(d@, num, offset as int) == Some(b as int) && b <= d@.len(),
            None => body_start(d@, num, offset as int) is None,
        },
{
    let ghost dv = d@;
    reveal(body_start);
    if offset >= d.len() {
        return None;
    }
    let mut c = Cursor::at(d, offset);
    proof {
        crate::lexer::lemma_ws_end_bounds(dv, offset as int, false);
    }
    c.skip_ws();
    let n_tok = c.read_regular();
    proof {
        crate::lexer::lemma_ws_end_bounds(dv, c.pos as int, false);
    }
    c.skip_ws();
    let _g = c.read_regular();
    proof {
        crate::lexer::lemma_ws_end_bounds(dv, c.pos as int, false);
    }
    c.skip_ws();
    let obj_kw_bytes: &[u8] = &[111, 98, 106];
    assert(obj_kw_bytes@ =~= obj_kw());
    if !c.eat_keyword(obj_kw_bytes) {
        return None;
    }
    // An xref that points at the wrong object is a damaged file; serving the wrong object
    // corrupts everything downstream, so verify the number.
    let matches_num = match Cursor::parse_number(n_tok) {
        Some(Object::Int(n)) => n == num as i64,
        _ => false,
    };
    if !matches_num {
        return None;
    }
    Some(c.pos)
}

impl PdfFile {
    /// The bytes of the file, from its `%PDF-` header on.
    pub fn data(&self) -> (r: &[u8])
        ensures
            r@ == self@.data,
    {
        self.data.as_slice()
    }

    /// The trailer dictionary.
    pub fn trailer(&self) -> (r: &Dict)
        ensures
            r@ == self@.trailer,
    {
        &self.trailer
    }

    /// `obj` as the file serves object `num`, `gen`.
    fn seal(&self, obj: Object, num: u32, gen: u16) -> (r: Object)
        ensures
            r@ == sealed(self@, num, gen, obj@),
    {
        match &self.decryptor {
            None => obj,
            Some(dec) => {
                if let Some(er) = self.encrypt_ref {
                    if er.num == num {
                        return obj;
                    }
                }
                decrypt_object(&obj, dec, num, gen)
            },
        }
    }

    /// Fetches object `num`. Returns `Object::Null` for anything missing or malformed: a
    /// dangling reference is data-level damage, not a hard error.
    pub fn get(&self, num: u32) -> (r: Object)
        ensures
            get_result(self@, num, r@),
    {
        let mut in_flight: Vec<u32> = Vec::new();
        self.load_object(num, &mut in_flight)
    }

    /// Resolves an object: a `Ref` becomes its target (following chains of references up to
    /// a limit, past which it is `Null`); everything else is cloned.
    pub fn resolve(&self, obj: &Object) -> (r: Object)
        ensures
            resolves_to(self@, obj@, r@),
    {
        let mut in_flight: Vec<u32> = Vec::new();
        self.resolve_in(obj, &mut in_flight)
    }

    /// Loads object `num` while the objects in `in_flight` are being loaded: one of those
    /// again is a reference cycle and comes out as `Null`.
    fn load_object(&self, num: u32, in_flight: &mut Vec<u32>) -> (r: Object)
        ensures
            final(in_flight)@ == old(in_flight)@,
            !self@.xref.contains_key(num) ==> r@ == ObjectView::Null,
            old(in_flight)@.contains(num) ==> r@ == ObjectView::Null,
            old(in_flight)@.len() == usize::MAX ==> r@ == ObjectView::Null,
            self@.xref.contains_key(num) && !old(in_flight)@.contains(num) && old(in_flight)@.len()
                < usize::MAX ==> match self@.xref[num] {
                XrefEntry::Offset { offset, gen } => offset_result(self@, num, gen, offset as int, r@),
                XrefEntry::InStream { stream_num, index } => !(r@ is Stream) && objstm_member(
                    self@,
                    stream_num,
                    index,
                    num,
                    r@,
                ),
            },
        decreases usize::MAX - old(in_flight)@.len(), 0int, 0int,
    {
        if holds(in_flight, num) {
            return Object::Null;  // Reference cycle in /Length or an object stream.
        }
        let entry = match self.xref.get(&num) {
            Some(e) => *e,
            None => {
                return Object::Null;
            },
        };
        if in_flight.len() == usize::MAX {
            return Object::Null;  // No room to load one level deeper.
        }
        let ghost before = in_flight@;
        in_flight.push(num);
        let obj = match entry {
            XrefEntry::Offset { offset, gen } => self.load_at_offset(num, gen, offset, in_flight),
            XrefEntry::InStream { stream_num, index } => self.load_from_objstm(
                stream_num,
                index,
                num,
                in_flight,
            ),
        };
        in_flight.pop();
        assert(in_flight@ =~= before);
        obj
    }

    #[verifier::spinoff_prover]
    fn load_at_offset(&self, num: u32, gen: u16, offset: usize, in_flight: &mut Vec<u32>) -> (r: Object)
        ensures
            final(in_flight)@ == old(in_flight)@,
            offset_result(self@, num, gen, offset as int, r@),
        decreases usize::MAX - old(in_flight)@.len(), 2int, 0int,
    {
        let d = self.data.as_slice();
        let ghost dv = d@;
        let b = match body_at(d, num, offset) {
            Some(b) => b,
            None => {
                proof {
                    lemma_plain_none(dv, num, offset as int, None);
                    lemma_offset_witness(self@, num, gen, offset as int, None, ObjectView::Null);
                }
                return Object::Null;
            },
        };
        let mut c = Cursor::at(d, b);
        let obj = match c.read_object() {
            Some(o) => o,
            None => {
                proof {
                    lemma_plain_none(dv, num, offset as int, None);
                    lemma_offset_witness(self@, num, gen, offset as int, None, ObjectView::Null);
                }
                return Object::Null;
            },
        };
        let ghost p = c.pos as int;
        let ghost ov = obj@;
        let obj = match obj {
            Object::Dict(dict) => {
                c.skip_ws();
                let stream_kw_bytes: &[u8] = &[115, 116, 114, 101, 97, 109];
                assert(stream_kw_bytes@ =~= stream_kw());
                if c.eat_keyword(stream_kw_bytes) {
                    let length = self.stream_length(&dict, in_flight);
                    proof {
                        lemma_plain_stream(dv, num, offset as int, b as int, p, dict@, length);
                    }
                    let s = c.read_stream_data(dict, length);
                    let r = self.seal(s, num, gen);
                    proof {
                        lemma_offset_witness(self@, num, gen, offset as int, length, r@);
                    }
                    return r;
                } else {
                    Object::Dict(dict)
                }
            },
            o => o,
        };
        let ghost len0 = match length_rule(dv, num, offset as int) {
            Some(l) => l,
            None => None,
        };
        proof {
            lemma_plain_direct(dv, num, offset as int, b as int, p, ov, len0);
        }
        let r = self.seal(obj, num, gen);
        proof {
            lemma_offset_witness(self@, num, gen, offset as int, len0, r@);
        }
        r
    }

    /// A stream body's declared length: `/Length` read directly, or through the file when it
    /// is a reference; negative lengths count as zero.
    fn stream_length(&self, dict: &Dict, in_flight: &mut Vec<u32>) -> (r: Option<usize>)
        ensures
            final(in_flight)@ == old(in_flight)@,
            direct_length(dict@) matches Some(l) ==> r == l,
        decreases usize::MAX - old(in_flight)@.len(), 1int, 0int,
    {
        let v = match dict.get("Length") {
            Some(len_obj) => match len_obj {
                Object::Int(i) => Some(*i),
                Object::Ref(lr) => self.load_object(lr.num, in_flight).as_int(),
                _ => None,
            },
            None => None,
        };
        match v {
            Some(i) => Some(
                if i < 0 {
                    0
                } else {
                    #[verifier::truncate]
                    (i as usize)
                },
            ),
            None => None,
        }
    }

    /// Follows `o` through references while `in_flight` is being loaded.
    fn resolve_in(&self, o: &Object, in_flight: &mut Vec<u32>) -> (r: Object)
        ensures
            final(in_flight)@ == old(in_flight)@,
            !(o@ is Ref) ==> r@ == o@,
            !(r@ is Ref),
            o@ matches ObjectView::Ref(n, _) && !self@.xref.contains_key(n) ==> r@ == ObjectView::Null,
            match o@ {
                ObjectView::Ref(n, _) => !old(in_flight)@.contains(n) && old(in_flight)@.len()
                    < usize::MAX ==> one_hop(self@, n, r@),
                _ => true,
            },
        decreases usize::MAX - old(in_flight)@.len(), 1int, 0int,
    {
        let mut current = o.clone();
        let mut hops: u32 = 0;
        let ghost first_load = o@ matches ObjectView::Ref(n, _) && !old(in_flight)@.contains(n)
            && old(in_flight)@.len() < usize::MAX;
        loop
            invariant
                in_flight@ == old(in_flight)@,
                first_load == (o@ matches ObjectView::Ref(n, _) && !old(in_flight)@.contains(n)
                    && old(in_flight)@.len() < usize::MAX),
                hops <= 33,
                hops == 0 ==> current@ == o@,
                !(o@ is Ref) ==> hops == 0,
                o@ matches ObjectView::Ref(n, _) && !self@.xref.contains_key(n) && hops > 0
                    ==> current@ == ObjectView::Null,
                first_load && hops >= 1 ==> match o@ {
                    ObjectView::Ref(n, _) => direct_hop(self@, n) ==> hops == 1 && one_hop(
                        self@,
                        n,
                        current@,
                    ),
                    _ => true,
                },
            decreases 33 - hops,
        {
            match current {
                Object::Ref(r) => {
                    if hops > 32 {
                        return Object::Null;
                    }
                    proof {
                        if first_load && hops >= 1 {
                            let n = o@->Ref_0;
                            if direct_hop(self@, n) {
                                lemma_one_hop_is_direct(self@, n, current@);
                            }
                        }
                    }
                    hops = hops + 1;
                    current = self.load_object(r.num, in_flight);
                },
                _ => {
                    return current;
                },
            }
        }
    }

    /// `o` with references resolved down to `depth` levels of arrays and dictionaries.
    fn resolve_deep(&self, o: &Object, depth: u32, in_flight: &mut Vec<u32>) -> (r: Object)
        ensures
            final(in_flight)@ == old(in_flight)@,
            ref_free(o@) ==> r@ == o@,
        decreases usize::MAX - old(in_flight)@.len(), 2int, depth,
    {
        let v = self.resolve_in(o, in_flight);
        if depth == 0 {
            return v;
        }
        match v {
            Object::Array(items) => {
                let mut out: Vec<Object> = Vec::new();
                let mut i: usize = 0;
                while i < items.len()
                    invariant
                        in_flight@ == old(in_flight)@,
                        depth > 0,
                        i <= items@.len(),
                        out@.len() == i,
                        ref_free(o@) ==> o@ == Object::Array(items)@,
                        ref_free(o@) ==> forall|k: int|
                            0 <= k < i ==> (#[trigger] out@[k])@ == items@[k]@,
                    decreases items@.len() - i,
                {
                    proof {
                        if ref_free(o@) {
                            assert(ref_free(Object::Array(items)@->Array_0[i as int]));
                        }
                    }
                    let x = self.resolve_deep(&items[i], depth - 1, in_flight);
                    out.push(x);
                    i = i + 1;
                }
                let r = Object::Array(out);
                proof {
                    if ref_free(o@) {
                        assert(r@->Array_0 =~= o@->Array_0);
                    }
                }
                r
            },
            Object::Dict(d) => {
                let mut out: Vec<(String, Object)> = Vec::new();
                let mut i: usize = 0;
                while i < d.0.len()
                    invariant
                        in_flight@ == old(in_flight)@,
                        depth > 0,
                        i <= d.0@.len(),
                        out@.len() == i,
                        ref_free(o@) ==> o@ == Object::Dict(d)@,
                        forall|k: int| 0 <= k < i ==> (#[trigger] out@[k]).0@ == d.0@[k].0@,
                        ref_free(o@) ==> forall|k: int|
                            0 <= k < i ==> (#[trigger] out@[k]).1@ == d.0@[k].1@,
                    decreases d.0@.len() - i,
                {
                    proof {
                        if ref_free(o@) {
                            assert(ref_free(ObjectView::Dict(d@)));
                            assert(d@[i as int].1 == d.0@[i as int].1@);
                            assert(ref_free(d@[i as int].1));
                        }
                    }
                    let x = self.resolve_deep(&d.0[i].1, depth - 1, in_flight);
                    out.push((d.0[i].0.clone(), x));
                    i = i + 1;
                }
                let r = Object::Dict(Dict(out));
                proof {
                    if ref_free(o@) {
                        assert(o@ == ObjectView::Dict(d@));
                        lemma_same_entries(out@, d.0@);
                    }
                }
                r
            },
            other => other,
        }
    }

    /// The `(object number, byte offset)` index of an object stream's members, and the
    /// stream's decoded bytes, which the offsets point into.
    #[verifier::spinoff_prover]
    #[verifier::rlimit(50)]
    fn objstm_index(&self, stream_num: u32, in_flight: &mut Vec<u32>) -> (r: Result<
        (Vec<(u32, usize)>, Vec<u8>),
        Error,
    >)
        ensures
            final(in_flight)@ == old(in_flight)@,
            r matches Ok((pairs, data)) ==> objstm_read(self@, stream_num, data@, pairs@),
            r is Err && !old(in_flight)@.contains(stream_num) && old(in_flight)@.len() < usize::MAX
                ==> objstm_fails(self@, stream_num),
        decreases usize::MAX - old(in_flight)@.len(), 3int, 0int,
    {
        let ghost fl0 = in_flight@;
        let loading = in_flight.len();
        let container = self.load_object(stream_num, in_flight);
        let ghost cv = container@;
        proof {
            if cv is Stream {
                assert(self@.xref.contains_key(stream_num));
                assert(!fl0.contains(stream_num));
                assert(fl0.len() == loading);
                assert(fl0.len() < usize::MAX);
                assert(loaded_as(self@, stream_num, cv));
            }
        }
        let (dict, raw) = match container {
            Object::Stream(st) => (st.dict, st.raw),
            _ => {
                proof {
                    if self@.xref.contains_key(stream_num) && !fl0.contains(stream_num) && fl0.len()
                        < usize::MAX {
                        assert(loaded_as(self@, stream_num, cv));
                        lemma_objstm_fails(self@, stream_num, cv);
                    }
                }
                let mut m = crate::text::message_with_number("object stream ", stream_num as u64);
                crate::text::push_str_chars(&mut m, " missing");
                return Err(Error::Parse(m));
            },
        };
        // The filter chain's entries may be references: resolve them first, deep enough for
        // /DecodeParms arrays of dictionaries.
        let resolved = match self.resolve_deep(&Object::Dict(dict), 4, in_flight) {
            Object::Dict(d) => d,
            _ => Dict::new(),
        };
        let res = filters::decode(&resolved, raw.as_slice(), &Direct);
        let decoded = match res {
            Ok(d) => d,
            Err(e) => {
                proof {
                    lemma_objstm_decode_fails(self@, stream_num, cv, dict@, raw@, resolved@, res);
                }
                return Err(e);
            },
        };
        let ghost dec = decoded;
        let data = decoded.data;
        let n = self.dict_count(&resolved, "N", in_flight);
        let first = self.dict_count(&resolved, "First", in_flight);
        let pairs = read_header(&data, n, first);
        proof {
            if ref_free(ObjectView::Dict(dict@)) {
                lemma_lookup_ref_free(dict@, "N"@);
                lemma_lookup_ref_free(dict@, "First"@);
            }
            lemma_objstm_read(self@, stream_num, cv, dict@, raw@, resolved@, dec, n, first, pairs@);
        }
        Ok((pairs, data))
    }

    /// A non-negative count from a (resolved) dictionary entry, zero when absent.
    fn dict_count(&self, d: &Dict, key: &str, in_flight: &mut Vec<u32>) -> (r: usize)
        ensures
            final(in_flight)@ == old(in_flight)@,
            match dict_lookup(d@, key@) {
                Some(o) => !(o is Ref) ==> r == count_value(o),
                None => r == 0,
            },
        decreases usize::MAX - old(in_flight)@.len(), 2int, 0int,
    {
        let v = match d.get(key) {
            Some(o) => self.resolve_in(o, in_flight).as_int(),
            None => None,
        };
        match v {
            Some(i) => if i < 0 {
                0
            } else {
                #[verifier::truncate]
                (i as usize)
            },
            None => 0,
        }
    }

    fn load_from_objstm(
        &self,
        stream_num: u32,
        index: u32,
        expect_num: u32,
        in_flight: &mut Vec<u32>,
    ) -> (r: Object)
        ensures
            final(in_flight)@ == old(in_flight)@,
            !(r@ is Stream),
            objstm_member(self@, stream_num, index, expect_num, r@),
            r@ is Null && !old(in_flight)@.contains(stream_num) && old(in_flight)@.len() < usize::MAX
                ==> objstm_fails(self@, stream_num) || exists|data: Seq<u8>, pairs: Seq<(u32, usize)>|
                #[trigger] objstm_read(self@, stream_num, data, pairs) && (member_offset(
                pairs,
                index,
                expect_num,
            ) is None || member_at(data, member_offset(pairs, index, expect_num)->0) is Null),
        decreases usize::MAX - old(in_flight)@.len(), 4int, 0int,
    {
        let (pairs, data) = match self.objstm_index(stream_num, in_flight) {
            Ok(x) => x,
            Err(_) => {
                return Object::Null;
            },
        };
        // The xref's index is authoritative, but scan-recovered files may have it wrong, so
        // fall back to searching by object number.
        let slot = member_slot(&pairs, index, expect_num);
        proof {
            assert(objstm_read(self@, stream_num, data@, pairs@));
        }
        match slot {
            None => Object::Null,
            Some(offset) => {
                // Members of an object stream are never streams themselves and are not
                // individually encrypted: the container already was.
                let mut c = Cursor::at(data.as_slice(), offset);
                proof {
                    crate::lexer::scanned_objects_are_not_streams(data@, c.pos as int);
                }
                let r = match c.read_object() {
                    Some(o) => o,
                    None => Object::Null,
                };
                proof {
                    assert(r@ == member_at(data@, offset));
                    assert(objstm_read(self@, stream_num, data@, pairs@));
                }
                r
            },
        }
    }

    /// Decodes a stream's filter chain (after any decryption, which happened at load). Entries
    /// of its dictionary that are references are read through the file first.
    pub fn decode_stream(&self, stream: &Stream) -> (r: Result<Decoded, Error>)
        ensures
            ref_free(ObjectView::Dict(stream.dict@)) ==> filters::outcome_of(r) == filters::spec_decode(
                    stream.dict@,
                    stream.raw@,
                    Direct),
    {
        let mut in_flight: Vec<u32> = Vec::new();
        let resolved = match self.resolve_deep(&Object::Dict(stream.dict.clone()), 4, &mut in_flight) {
            Object::Dict(d) => d,
            _ => Dict::new(),
        };
        let ghost same = ref_free(ObjectView::Dict(stream.dict@)) ==> resolved@ == stream.dict@;
        assert(same);
        let r = filters::decode(&resolved, stream.raw.as_slice(), &Direct);
        proof {
            if ref_free(ObjectView::Dict(stream.dict@)) {
                assert(resolved@ == stream.dict@);
            }
        }
        r
    }
}

} // verus!

verus! {

// ---- the cross-reference chain -------------------------------------------------------------

/// Where the walk over cross-reference sections stands: the offsets still to read (the last
/// one next), the offsets already read, the object map and the trailer so far.
pub struct ChainState {
    pub queue: Seq<usize>,
    pub visited: Set<usize>,
    pub xref: Map<u32, XrefEntry>,
    pub trailer: Seq<(Seq<char>, ObjectView)>,
}

/// The integer under `key`, as [`crate::object::spec_as_int`] reads it.
pub open spec fn entry_int(es: Seq<(Seq<char>, ObjectView)>, key: Seq<char>) -> Option<i64> {
    match dict_lookup(es, key) {
        Some(o) => crate::object::spec_as_int(o),
        None => None,
    }
}

/// `queue` with the section's /Prev put first, to be read last.
pub open spec fn with_prev(queue: Seq<usize>, es: Seq<(Seq<char>, ObjectView)>) -> Seq<usize> {
    match entry_int(es, "Prev"@) {
        Some(v) => seq![v as usize] + queue,
        None => queue,
    }
}

/// Reads the section at `off` (in the file), with `queue` the offsets left: a table (`xref`
/// keyword) adds its entries where absent, queues its /Prev to be read last and its /XRefStm
/// next; a cross-reference stream adds the entries of its decoding and queues its /Prev.
/// Either merges its dictionary into the trailer. `None` when the section cannot be read.
#[verifier::opaque]
pub open spec fn section_read(
    d: Seq<u8>,
    off: usize,
    queue: Seq<usize>,
    m0: Map<u32, XrefEntry>,
    t0: Seq<(Seq<char>, ObjectView)>,
) -> Option<(Seq<usize>, Map<u32, XrefEntry>, Seq<(Seq<char>, ObjectView)>)> {
    let p = crate::lexer::ws_end(d, off as int, false);
    if crate::lexer::keyword_at(d, p, seq![120u8, 114, 101, 102]) {
        match table_scan(d, p + 4, m0) {
            (Ok(es), m) => {
                let q = with_prev(queue, es);
                let q2 = match entry_int(es, "XRefStm"@) {
                    Some(v) => q.push(v as usize),
                    None => q,
                };
                Some((q2, m, spec_merge_trailer(t0, es)))
            },
            (Err(_), _) => None,
        }
    } else {
        match xref_stream_scan(d, off as int) {
            Some((es, raw)) => if widths_usable(es) {
                match filters::spec_decode(es, raw, Direct) {
                    filters::DecodeOutcome::Done(c, _) => Some(
                        (with_prev(queue, es), stream_entries(m0, c, es), spec_merge_trailer(t0, es)),
                    ),
                    _ => None,
                }
            } else {
                None
            },
            None => None,
        }
    }
}

/// Reads the next offset: one past the end or already read is dropped, any other is read as a
/// section (see [`section_read`]). `None` when the section cannot be read.
#[verifier::opaque]
pub open spec fn chain_step(d: Seq<u8>, st: ChainState) -> Option<ChainState> {
    let off = st.queue.last();
    let rest = st.queue.drop_last();
    if off >= d.len() || st.visited.contains(off) {
        Some(ChainState { queue: rest, ..st })
    } else {
        match section_read(d, off, rest, st.xref, st.trailer) {
            Some((q, m, t)) => Some(ChainState { queue: q, visited: st.visited.insert(off), xref: m, trailer: t }),
            None => None,
        }
    }
}

/// The walk from `st` with at most `fuel` sections read: the object map and trailer once no
/// offset is left, `None` when a section cannot be read or the fuel runs out.
#[verifier::opaque]
pub open spec fn chain_run(d: Seq<u8>, st: ChainState, fuel: nat) -> Option<
    (Map<u32, XrefEntry>, Seq<(Seq<char>, ObjectView)>),
>
    decreases fuel,
{
    if st.queue.len() == 0 {
        Some((st.xref, st.trailer))
    } else if fuel == 0 {
        None
    } else {
        match chain_step(d, st) {
            Some(st2) => chain_run(d, st2, (fuel - 1) as nat),
            None => None,
        }
    }
}

/// Where the last `startxref` of the file's tail is, counted in the tail.
pub open spec fn last_startxref(d: Seq<u8>) -> int {
    choose|p: int|
        crate::lexer::occurs_at(file_tail(d), p, startxref_kw()) && forall|q: int|
            p < q ==> !crate::lexer::occurs_at(file_tail(d), q, startxref_kw())
}

/// The offset the last `startxref` names: the integer token after it.
pub open spec fn startxref_number(d: Seq<u8>) -> Option<i64> {
    let s = (d.len() - file_tail(d).len()) + last_startxref(d) + 9;
    let q = crate::lexer::ws_end(d, s, false);
    match crate::lexer::number_token(d.subrange(q, crate::lexer::regular_end(d, q))) {
        Some(ObjectView::Int(i)) => Some(i),
        _ => None,
    }
}

/// The object map and trailer the cross-reference chain gives: read from the offset the last
/// `startxref` names, with enough fuel for every offset of the file; `None` without a
/// `startxref`, with a bad offset, or where a section cannot be read.
#[verifier::opaque]
pub open spec fn chain_result(d: Seq<u8>) -> Option<(Map<u32, XrefEntry>, Seq<(Seq<char>, ObjectView)>)> {
    if forall|q: int| !crate::lexer::occurs_at(file_tail(d), q, startxref_kw()) {
        None
    } else {
        match startxref_number(d) {
            Some(i) => if i >= 0 {
                chain_run(
                    d,
                    ChainState { queue: seq![i as usize], visited: Set::empty(), xref: Map::empty(), trailer: Seq::empty() },
                    (2 * d.len() + 2) as nat,
                )
            } else {
                None
            },
            None => None,
        }
    }
}

/// One step of the walk, unfolded.
proof fn lemma_chain_unfold(d: Seq<u8>, st: ChainState, fuel: nat)
    requires
        st.queue.len() > 0,
        fuel > 0,
    ensures
        chain_run(d, st, fuel) == match chain_step(d, st) {
            Some(st2) => chain_run(d, st2, (fuel - 1) as nat),
            None => None,
        },
        chain_step(d, st) == ({
            let off = st.queue.last();
            let rest = st.queue.drop_last();
            if off >= d.len() || st.visited.contains(off) {
                Some(ChainState { queue: rest, ..st })
            } else {
                match section_read(d, off, rest, st.xref, st.trailer) {
                    Some((q, m, t)) => Some(ChainState { queue: q, visited: st.visited.insert(off), xref: m, trailer: t }),
                    None => None,
                }
            }
        }),
{
    reveal(chain_run);
    reveal(chain_step);
}

/// The walk ends where no offset is left.
proof fn lemma_chain_done(d: Seq<u8>, st: ChainState, fuel: nat)
    requires
        st.queue.len() == 0,
    ensures
        chain_run(d, st, fuel) == Some((st.xref, st.trailer)),
{
    reveal(chain_run);
}

/// Reads the section at `off`, with `queue` the offsets left after it.
#[verifier::rlimit(40)]
#[verifier::spinoff_prover]
fn read_section(
    data: &[u8],
    off: usize,
    xref: &mut HashMap<u32, XrefEntry>,
    trailer: &mut Dict,
    queue: &mut Vec<usize>,
) -> (r: Result<(), Error>)
    requires
        off < data@.len(),
    ensures
        match section_read(data@, off, old(queue)@, old(xref)@, old(trailer)@) {
            Some((q, m, t)) => r is Ok && final(queue)@ == q && final(xref)@ == m && final(trailer)@ == t,
            None => r is Err,
        },
        r is Ok ==> final(queue)@.len() <= old(queue)@.len() + 2,
{
    reveal(section_read);
    let mut c = Cursor::at(data, off);
    proof {
        crate::lexer::lemma_ws_end_bounds(data@, off as int, false);
    }
    c.skip_ws();
    let xref_kw: &[u8] = &[120, 114, 101, 102];
    assert(xref_kw@ =~= seq![120u8, 114, 101, 102]);
    if c.eat_keyword(xref_kw) {
        read_table_section(&mut c, xref, trailer, queue)
    } else {
        read_stream_section(data, off, xref, trailer, queue)
    }
}

/// Reads a cross-reference table from the cursor (just after its `xref` keyword).
#[verifier::rlimit(40)]
fn read_table_section(
    c: &mut Cursor,
    xref: &mut HashMap<u32, XrefEntry>,
    trailer: &mut Dict,
    queue: &mut Vec<usize>,
) -> (r: Result<(), Error>)
    requires
        old(c).pos <= old(c).data@.len(),
    ensures
        match table_scan(old(c).data@, old(c).pos as int, old(xref)@) {
            (Ok(es), m) => {
                let q = with_prev(old(queue)@, es);
                let q2 = match entry_int(es, "XRefStm"@) {
                    Some(v) => q.push(v as usize),
                    None => q,
                };
                r is Ok && final(queue)@ == q2 && final(xref)@ == m && final(trailer)@
                    == spec_merge_trailer(old(trailer)@, es)
            },
            (Err(_), _) => r is Err,
        },
        r is Ok ==> final(queue)@.len() <= old(queue)@.len() + 2,
{
    let ghost q0 = queue@;
    let section_trailer = match read_xref_table(c, xref) {
        Ok(t) => t,
        Err(e) => {
            return Err(e);
        },
    };
    // Hybrid files put newer entries in an /XRefStm; those must win over the table they
    // accompany but lose to entries already seen, which insert-if-absent gives us as long as
    // the stream is processed before /Prev. Push order: Prev first.
    if let Some(prev) = dict_int(&section_trailer, "Prev") {
        queue.insert(
            0,
            #[verifier::truncate]
            (prev as usize),
        );
        assert(queue@ =~= with_prev(q0, section_trailer@));
    }
    if let Some(x) = dict_int(&section_trailer, "XRefStm") {
        queue.push(
            #[verifier::truncate]
            (x as usize),
        );
    }
    merge_trailer(trailer, section_trailer);
    Ok(())
}

/// Reads a cross-reference stream at `off`.
#[verifier::rlimit(40)]
fn read_stream_section(
    data: &[u8],
    off: usize,
    xref: &mut HashMap<u32, XrefEntry>,
    trailer: &mut Dict,
    queue: &mut Vec<usize>,
) -> (r: Result<(), Error>)
    ensures
        match xref_stream_scan(data@, off as int) {
            Some((es, raw)) => if widths_usable(es) {
                match filters::spec_decode(es, raw, Direct) {
                    filters::DecodeOutcome::Done(c, _) => r is Ok && final(queue)@ == with_prev(
                        old(queue)@,
                        es,
                    ) && final(xref)@ == stream_entries(old(xref)@, c, es) && final(trailer)@
                        == spec_merge_trailer(old(trailer)@, es),
                    _ => r is Err,
                }
            } else {
                r is Err
            },
            None => r is Err,
        },
        r is Ok ==> final(queue)@.len() <= old(queue)@.len() + 1,
{
    let ghost q0 = queue@;
    let dict = match read_xref_stream(data, off, xref) {
        Ok(d) => d,
        Err(e) => {
            proof {
                reveal(may_fail);
            }
            return Err(e);
        },
    };
    proof {
        reveal(decodes_to);
    }
    if let Some(prev) = dict_int(&dict, "Prev") {
        queue.insert(
            0,
            #[verifier::truncate]
            (prev as usize),
        );
        assert(queue@ =~= with_prev(q0, dict@));
    }
    merge_trailer(trailer, dict);
    Ok(())
}

/// Reads the cross-reference chain from the last `startxref` in the final 2048 bytes: tables
/// and streams, newest first. Each section's entries are added where absent and its trailer is
/// merged in; every offset is read at most once, so a looping /Prev chain ends.
#[verifier::rlimit(60)]
#[verifier::spinoff_prover]
fn read_xref_chain(data: &[u8]) -> (r: Result<(HashMap<u32, XrefEntry>, Dict), Error>)
    ensures
        (forall|q: int| !crate::lexer::occurs_at(file_tail(data@), q, startxref_kw())) ==> (r matches Err(
            e,
        ) && e.is_parse_with("no startxref"@)),
        match chain_result(data@) {
            Some((m, t)) => r matches Ok((x, tt)) && x@ == m && tt@ == t,
            None => r is Err,
        },
{
    proof {
        reveal(chain_result);
    }
    let dl = data.len();
    let tail_start = if dl > 2048 {
        dl - 2048
    } else {
        0
    };
    let tail = vstd::slice::slice_subrange(data, tail_start, dl);
    let startxref: &[u8] = &[115, 116, 97, 114, 116, 120, 114, 101, 102];
    assert(startxref@ =~= startxref_kw());
    assert(tail@ == file_tail(data@));
    let sx = match rfind(tail, startxref) {
        Some(p) => {
            assert(crate::lexer::occurs_at(file_tail(data@), p as int, startxref_kw()));
            p + tail_start
        },
        None => {
            return parse_err("no startxref");
        },
    };
    let ghost found = (sx - tail_start) as int;
    assert(crate::lexer::occurs_at(file_tail(data@), found, startxref_kw()));
    assert(last_startxref(data@) == found) by {
        let l = last_startxref(data@);
        assert(crate::lexer::occurs_at(file_tail(data@), l, startxref_kw()));
        if l < found {
        } else if l > found {
        }
    }
    assert(!(forall|q: int| !crate::lexer::occurs_at(file_tail(data@), q, startxref_kw())));
    let mut c = Cursor::at(data, sx + 9);
    proof {
        crate::lexer::lemma_ws_end_bounds(data@, c.pos as int, false);
    }
    c.skip_ws();
    let tok = c.read_regular();
    let num = int_token_of(tok);
    assert(file_tail(data@).len() == dl - tail_start);
    assert(num == startxref_number(data@));
    let offset: usize = match num {
        Some(i) => {
            if i >= 0 {
                #[verifier::truncate]
                (i as usize)
            } else {
                return parse_err("bad startxref offset");
            }
        },
        None => {
            return parse_err("bad startxref offset");
        },
    };
    let mut xref: HashMap<u32, XrefEntry> = HashMap::new();
    let mut trailer = Dict::new();
    let mut visited: std::collections::HashSet<usize> = std::collections::HashSet::new();
    let mut queue: Vec<usize> = Vec::new();
    queue.push(offset);
    let ghost full = Set::<usize>::range(0, dl);
    let ghost fuel: nat = (2 * dl + 2) as nat;
    let ghost mut k: nat = 0;
    let ghost start = ChainState {
        queue: queue@,
        visited: Set::empty(),
        xref: Map::empty(),
        trailer: Seq::empty(),
    };
    proof {
        <usize as vstd::set_lib::FiniteRange>::range_properties(0, dl);
        assert(visited@ =~= Set::<usize>::empty());
        assert(xref@ =~= Map::<u32, XrefEntry>::empty());
        assert(queue@ =~= seq![offset]);
        assert(chain_result(data@) == chain_run(data@, start, fuel));
    }
    while queue.len() > 0
        invariant
            dl == data@.len(),
            full == Set::<usize>::range(0, dl),
            full.finite(),
            full.len() == dl,
            visited@.subset_of(full),
            crate::lexer::occurs_at(file_tail(data@), found, startxref_kw()),
            fuel == 2 * dl + 2,
            k + queue@.len() <= 1 + 2 * visited@.len(),
            chain_result(data@) == chain_run(
                data@,
                ChainState { queue: queue@, visited: visited@, xref: xref@, trailer: trailer@ },
                (fuel - k) as nat,
            ),
        decreases dl - visited@.len(), queue@.len(),
    {
        proof {
            vstd::set_lib::lemma_len_subset(visited@, full);
        }
        let ghost st = ChainState { queue: queue@, visited: visited@, xref: xref@, trailer: trailer@ };
        let off = queue.pop().unwrap();
        proof {
            assert(off == st.queue.last());
            assert(queue@ =~= st.queue.drop_last());
            lemma_chain_unfold(data@, st, (fuel - k) as nat);
            k = k + 1;
        }
        if off >= dl {
            continue;
        }
        let fresh = visited.insert(off);
        if !fresh {
            assert(visited@ =~= st.visited);
            continue;
        }
        proof {
            vstd::set_lib::lemma_len_subset(visited@, full);
        }
        match read_section(data, off, &mut xref, &mut trailer, &mut queue) {
            Ok(()) => {},
            Err(e) => {
                return Err(e);
            },
        }
    }
    proof {
        lemma_chain_done(
            data@,
            ChainState { queue: queue@, visited: visited@, xref: xref@, trailer: trailer@ },
            (fuel - k) as nat,
        );
    }
    Ok((xref, trailer))
}

/// The last 2048 bytes of a file, where its `startxref` is looked for.
pub open spec fn file_tail(d: Seq<u8>) -> Seq<u8> {
    d.subrange(if d.len() > 2048 { d.len() - 2048 } else { 0 }, d.len() as int)
}

pub open spec fn startxref_kw() -> Seq<u8> {
    seq![115u8, 116, 97, 114, 116, 120, 114, 101, 102]
}

} // verus!

verus! {

// ---- recovery ------------------------------------------------------------------------------

/// The value of a run of ASCII digits, when it fits in 64 bits.
fn digits_u64(s: &[u8]) -> (r: Option<u64>)
    requires
        crate::lexer::all_digits(s@),
    ensures
        match r {
            Some(v) => v == crate::lexer::digits_value(s@),
            None => crate::lexer::digits_value(s@) > u64::MAX,
        },
{
    let mut acc: u64 = 0;
    let mut k: usize = 0;
    while k < s.len()
        invariant
            k <= s@.len(),
            crate::lexer::all_digits(s@),
            acc == crate::lexer::digits_value(s@.subrange(0, k as int)),
        decreases s@.len() - k,
    {
        assert(s@.subrange(0, k + 1).drop_last() =~= s@.subrange(0, k as int));
        assert(crate::lexer::is_digit(s@[k as int]));
        let d = (s[k] - 48) as u64;
        let next = match acc.checked_mul(10) {
            Some(m) => m.checked_add(d),
            None => None,
        };
        match next {
            Some(v) => {
                acc = v;
            },
            None => {
                proof {
                    lemma_digits_prefix_bound(s@, k + 1);
                }
                return None;
            },
        }
        k = k + 1;
    }
    assert(s@.subrange(0, k as int) =~= s@);
    Some(acc)
}

/// A run of digits is worth at least as much as any prefix of it.
proof fn lemma_digits_prefix_bound(s: Seq<u8>, k: int)
    requires
        crate::lexer::all_digits(s),
        0 <= k <= s.len(),
    ensures
        crate::lexer::digits_value(s.subrange(0, k)) <= crate::lexer::digits_value(s),
    decreases s.len() - k,
{
    if k < s.len() {
        lemma_digits_prefix_bound(s, k + 1);
        let p = s.subrange(0, k + 1);
        assert(p.drop_last() =~= s.subrange(0, k));
        assert(crate::lexer::is_digit(s[k]));
        lemma_digits_value_nonneg(s.subrange(0, k));
    } else {
        assert(s.subrange(0, k) =~= s);
    }
}

proof fn lemma_digits_value_nonneg(s: Seq<u8>)
    requires
        crate::lexer::all_digits(s),
    ensures
        crate::lexer::digits_value(s) >= 0,
    decreases s.len(),
{
    if s.len() > 0 {
        assert(crate::lexer::all_digits(s.drop_last()));
        assert(crate::lexer::is_digit(s.last()));
        lemma_digits_value_nonneg(s.drop_last());
    }
}

/// Where a backward walk over whitespace from `i` stops.
pub open spec fn ws_back(d: Seq<u8>, i: int) -> int
    decreases i,
{
    if 0 < i <= d.len() && crate::lexer::spec_is_whitespace(d[i - 1]) {
        ws_back(d, i - 1)
    } else {
        i
    }
}

/// Where a backward walk over ASCII digits from `i` stops.
pub open spec fn digits_back(d: Seq<u8>, i: int) -> int
    decreases i,
{
    if 0 < i <= d.len() && crate::lexer::is_digit(d[i - 1]) {
        digits_back(d, i - 1)
    } else {
        i
    }
}

/// The run of digits before `i` (after whitespace): where it starts and its value; none when
/// there is no run or its value does not fit in 64 bits.
pub open spec fn spec_step_back(d: Seq<u8>, i: int) -> Option<(int, int)> {
    let end = ws_back(d, i);
    let start = digits_back(d, end);
    if start == end || crate::lexer::digits_value(d.subrange(start, end)) > u64::MAX {
        None
    } else {
        Some((start, crate::lexer::digits_value(d.subrange(start, end))))
    }
}

proof fn lemma_ws_back(d: Seq<u8>, i: int)
    requires
        0 <= i <= d.len(),
    ensures
        0 <= ws_back(d, i) <= i,
    decreases i,
{
    if 0 < i && crate::lexer::spec_is_whitespace(d[i - 1]) {
        lemma_ws_back(d, i - 1);
    }
}

proof fn lemma_digits_back(d: Seq<u8>, i: int)
    requires
        0 <= i <= d.len(),
    ensures
        0 <= digits_back(d, i) <= i,
        forall|k: int| digits_back(d, i) <= k < i ==> crate::lexer::is_digit(#[trigger] d[k]),
    decreases i,
{
    if 0 < i && crate::lexer::is_digit(d[i - 1]) {
        lemma_digits_back(d, i - 1);
    }
}

/// What the object-header scan records for an `obj` keyword at `hit`: the object number and
/// where its header starts, when `obj` stands alone after `num gen` with both in range.
pub open spec fn scan_entry(d: Seq<u8>, hit: int) -> Option<(u32, XrefEntry)> {
    if hit + 3 < d.len() && crate::lexer::spec_is_regular(d[hit + 3]) {
        None
    } else {
        match spec_step_back(d, hit) {
            None => None,
            Some((gi, gen)) => match spec_step_back(d, gi) {
                None => None,
                Some((ni, num)) => if num > u32::MAX || gen > u16::MAX {
                    None
                } else {
                    Some((num as u32, XrefEntry::Offset { offset: ni as usize, gen: gen as u16 }))
                },
            },
        }
    }
}

/// The object map the recovery scan builds from `pos` on, over `m`: every `obj` header in file
/// order, a later definition of a number replacing an earlier one.
pub open spec fn scan_defs(d: Seq<u8>, pos: int, m: Map<u32, XrefEntry>) -> Map<u32, XrefEntry>
    decreases d.len() + 1 - pos,
{
    match crate::lexer::first_occurrence(d, pos, obj_kw()) {
        Some(hit) => if pos <= hit && hit + 3 <= d.len() {
            scan_defs(
                d,
                hit + 3,
                match scan_entry(d, hit) {
                    Some((k, e)) => m.insert(k, e),
                    None => m,
                },
            )
        } else {
            m
        },
        None => m,
    }
}

/// Steps back from `i` over whitespace, then over a run of digits: where the run starts and
/// its value. None when there is no run or its value does not fit in 64 bits.
fn step_back_digits(data: &[u8], from: usize) -> (r: Option<(usize, u64)>)
    requires
        from <= data@.len(),
    ensures
        match spec_step_back(data@, from as int) {
            Some((p, v)) => r matches Some((rp, rv)) && rp == p && rv == v,
            None => r is None,
        },
        r matches Some((p, _)) ==> p < from,
{
    let ghost d = data@;
    let mut i = from;
    while i > 0 && crate::lexer::is_whitespace(data[i - 1])
        invariant
            d == data@,
            i <= from <= data@.len(),
            ws_back(d, i as int) == ws_back(d, from as int),
        decreases i,
    {
        i = i - 1;
    }
    let end = i;
    assert(end as int == ws_back(d, from as int));
    proof {
        lemma_ws_back(d, from as int);
    }
    while i > 0 && data[i - 1] >= 48 && data[i - 1] <= 57
        invariant
            d == data@,
            i <= end <= from <= data@.len(),
            digits_back(d, i as int) == digits_back(d, end as int),
            forall|k: int| i <= k < end ==> crate::lexer::is_digit(#[trigger] data@[k]),
        decreases i,
    {
        i = i - 1;
    }
    assert(i as int == digits_back(d, end as int));
    if i == end {
        return None;
    }
    let run = vstd::slice::slice_subrange(data, i, end);
    assert(crate::lexer::all_digits(run@));
    match digits_u64(run) {
        Some(v) => Some((i, v)),
        None => None,
    }
}

/// The dictionary has `/Type /<t>`.
fn has_type(d: &Dict, t: &str) -> (r: bool)
    ensures
        r == (dict_lookup(d@, "Type"@) == Some(ObjectView::Name(t@))),
{
    match d.get("Type") {
        Some(o) => match o.as_name() {
            Some(n) => str_eq(n, t),
            None => false,
        },
        None => false,
    }
}

/// `slice::sort_unstable` on object numbers. Claimed, as the standard library documents: the
/// numbers afterwards are the same numbers, in ascending order.
#[verifier::external_body]
fn sort_numbers(v: &mut Vec<u32>)
    ensures
        final(v)@.to_multiset() == old(v)@.to_multiset(),
        forall|i: int, j: int| 0 <= i <= j < final(v)@.len() ==> final(v)@[i] <= final(v)@[j],
{
    v.sort_unstable();
}

/// The `trailer` keyword.
pub open spec fn trailer_kw() -> Seq<u8> {
    seq![116u8, 114, 97, 105, 108, 101, 114]
}

/// The dictionary after the last `trailer` keyword at or after `from` that one follows (after
/// white space); `found` when no later one does.
pub open spec fn last_trailer_dict(d: Seq<u8>, from: int, found: Option<Seq<(Seq<char>, ObjectView)>>) -> Option<
    Seq<(Seq<char>, ObjectView)>,
>
    decreases d.len() + 1 - from,
{
    match crate::lexer::first_occurrence(d, from, trailer_kw()) {
        None => found,
        Some(h) => if h < from || h + 7 > d.len() {
            found
        } else {
            let next = match crate::lexer::object_scan(d, crate::lexer::ws_end(d, h + 7, false)).0 {
                Some(ObjectView::Dict(es)) => Some(es),
                _ => found,
            };
            last_trailer_dict(d, h + 7, next)
        },
    }
}

/// The file a recovery scan reads objects from: the scanned map over the data, with no trailer
/// and no decryption.
pub open spec fn scan_view(d: Seq<u8>, x: Map<u32, XrefEntry>) -> PdfFileView {
    PdfFileView { data: d, xref: x, trailer: Seq::empty(), decryptor: None, encrypt_ref: None }
}

/// An object that names itself a catalog.
pub open spec fn is_catalog(v: ObjectView) -> bool {
    match v {
        ObjectView::Dict(es) => dict_lookup(es, "Type"@) == Some(ObjectView::Name("Catalog"@)),
        ObjectView::Stream(es, _) => dict_lookup(es, "Type"@) == Some(ObjectView::Name("Catalog"@)),
        _ => false,
    }
}

/// The trailer a recovery scan of `d` gives, with the scanned map `x`: the last `trailer`
/// dictionary (its entries, first of each key kept), and where that has no /Root, either
/// nothing more or a /Root referring to a scanned object that reads as a catalog.
pub open spec fn recovered_trailer(d: Seq<u8>, x: Map<u32, XrefEntry>, t: Seq<(Seq<char>, ObjectView)>) -> bool {
    let base = last_trailer_of(d);
    ||| t == base
    ||| dict_lookup(base, "Root"@) is None && exists|num: u32, v: ObjectView|
        #[trigger] get_result(scan_view(d, x), num, v) && x.contains_key(num) && is_catalog(v) && t
            == dict_insert(base, "Root"@, ObjectView::Ref(num, 0))
}

/// Rebuilds the object map by scanning the whole file for `n g obj`, taking the *last*
/// definition of each object (later definitions supersede in incremental updates), and
/// hunting for a trailer or catalog.
#[verifier::spinoff_prover]
#[verifier::rlimit(40)]
fn rebuild_by_scan(data: &[u8]) -> (r: Result<(HashMap<u32, XrefEntry>, Dict), Error>)
    ensures
        r matches Err(e) ==> e.is_parse_with("no objects found in scan"@),
        (r is Err) == (scan_defs(data@, 0, Map::empty()).len() == 0),
        r matches Ok((x, _)) ==> extends(scan_defs(data@, 0, Map::empty()), x@),
        r matches Ok((x, t)) ==> recovered_trailer(data@, x@, t@),
{
    let dl = data.len();
    let mut xref: HashMap<u32, XrefEntry> = HashMap::new();
    let mut nums: Vec<u32> = Vec::new();
    let mut objstms: Vec<u32> = Vec::new();
    let mut pos: usize = 0;
    let obj_kw_bytes: &[u8] = &[111, 98, 106];
    assert(obj_kw_bytes@ =~= obj_kw());
    loop
        invariant
            dl == data@.len(),
            obj_kw_bytes@ == obj_kw(),
            pos <= dl + 1,
            scan_defs(data@, 0, Map::empty()) == scan_defs(data@, pos as int, xref@),
        ensures
            scan_defs(data@, 0, Map::empty()) == xref@,
        decreases dl + 1 - pos,
    {
        let ghost m0 = xref@;
        let ghost p0 = pos as int;
        let hit = match crate::lexer::find_first(data, pos, obj_kw_bytes) {
            Some(h) => h,
            None => {
                break;
            },
        };
        proof {
            crate::lexer::lemma_first_occurrence_bounds(data@, pos as int, obj_kw());
            assert(scan_defs(data@, p0, m0) == scan_defs(
                data@,
                hit + 3,
                match scan_entry(data@, hit as int) {
                    Some((k, e)) => m0.insert(k, e),
                    None => m0,
                },
            ));
        }
        pos = hit + 3;
        // `obj` must be a standalone keyword.
        if hit + 3 < dl && crate::lexer::is_regular(data[hit + 3]) {
            continue;
        }
        // Walk backwards over ws, generation digits, ws, object digits.
        let (gi, gen) = match step_back_digits(data, hit) {
            Some(x) => x,
            None => {
                continue;
            },
        };
        let (ni, num) = match step_back_digits(data, gi) {
            Some(x) => x,
            None => {
                continue;
            },
        };
        if num > 0xFFFF_FFFF || gen > 0xFFFF {
            continue;
        }
        let n = num as u32;
        assert(scan_entry(data@, hit as int) == Some((n, XrefEntry::Offset { offset: ni, gen: gen as u16 })));
        xref.insert(n, XrefEntry::Offset { offset: ni, gen: gen as u16 });
        nums.push(n);
        // Remember object streams so their members can be indexed afterwards.
        let mut c = Cursor::at(data, hit + 3);
        c.skip_ws();
        if let Some(Object::Dict(d)) = c.read_object() {
            if has_type(&d, "ObjStm") {
                objstms.push(n);
            }
        }
    }
    let ghost scanned = xref@;
    if xref.len() == 0 {
        return parse_err("no objects found in scan");
    }
    // Index object-stream members: any member not already defined at top level.
    let mut probe = PdfFile {
        data: vstd::slice::slice_to_vec(data),
        xref: xref.clone(),
        trailer: Dict::new(),
        decryptor: None,
        encrypt_ref: None,
    };
    let mut s: usize = 0;
    while s < objstms.len()
        invariant
            s <= objstms@.len(),
            extends(scanned, xref@),
        decreases objstms@.len() - s,
    {
        let sn = objstms[s];
        let mut in_flight: Vec<u32> = Vec::new();
        if let Ok((members, _)) = probe.objstm_index(sn, &mut in_flight) {
            let mut i: usize = 0;
            while i < members.len()
                invariant
                    i <= members@.len(),
                    extends(scanned, xref@),
                decreases members@.len() - i,
            {
                let member = members[i].0;
                let ghost before = xref@;
                or_insert(
                    &mut xref,
                    member,
                    XrefEntry::InStream {
                        stream_num: sn,
                        index: #[verifier::truncate]
                        (i as u32),
                    },
                );
                assert(extends(scanned, xref@)) by {
                    assert forall|k: u32| scanned.contains_key(k) implies #[trigger] xref@.contains_key(k)
                        && xref@[k] == scanned[k] by {
                        assert(before.contains_key(k));
                    }
                }
                nums.push(member);
                i = i + 1;
            }
        }
        s = s + 1;
    }
    // Prefer the last real trailer dict; otherwise find a /Type /Catalog object.
    let mut trailer = Dict::new();
    let mut tpos: usize = 0;
    let mut last_trailer: Option<Dict> = None;
    let trailer_bytes: &[u8] = &[116, 114, 97, 105, 108, 101, 114];
    assert(trailer_bytes@ =~= trailer_kw());
    loop
        invariant
            dl == data@.len(),
            trailer_bytes@ == trailer_kw(),
            tpos <= dl + 1,
            last_trailer_dict(data@, 0, None) == last_trailer_dict(
                data@,
                tpos as int,
                match last_trailer {
                    Some(t) => Some(t@),
                    None => None,
                },
            ),
        ensures
            last_trailer_dict(data@, 0, None) == match last_trailer {
                Some(t) => Some(t@),
                None => None,
            },
        decreases dl + 1 - tpos,
    {
        proof {
            crate::lexer::lemma_first_occurrence_bounds(data@, tpos as int, trailer_kw());
        }
        let hit = match crate::lexer::find_first(data, tpos, trailer_bytes) {
            Some(h) => h,
            None => {
                break;
            },
        };
        proof {
            assert(hit + 7 <= dl) by {
                assert(crate::lexer::occurs_at(data@, hit as int, trailer_kw()));
            }
        }
        tpos = hit + 7;
        let mut c = Cursor::at(data, tpos);
        proof {
            crate::lexer::lemma_ws_end_bounds(data@, c.pos as int, false);
        }
        c.skip_ws();
        if let Some(Object::Dict(d)) = c.read_object() {
            last_trailer = Some(d);
        }
    }
    if let Some(t) = last_trailer {
        merge_trailer(&mut trailer, t);
    }
    let ghost base = trailer@;
    probe.xref = xref.clone();
    assert(probe@ == scan_view(data@, xref@));
    if !trailer.contains("Root") {
        sort_numbers(&mut nums);
        let mut k: usize = 0;
        while k < nums.len()
            invariant_except_break
                trailer@ == base,
            invariant
                k <= nums@.len(),
                probe@ == scan_view(data@, xref@),
                dict_lookup(base, "Root"@) is None,
            ensures
                trailer@ == base || exists|n: u32, v: ObjectView|
                    #[trigger] get_result(scan_view(data@, xref@), n, v) && xref@.contains_key(n)
                        && is_catalog(v) && trailer@ == dict_insert(base, "Root"@, ObjectView::Ref(n, 0)),
            decreases nums@.len() - k,
        {
            let num = nums[k];
            let got = probe.get(num);
            let catalog = match &got {
                Object::Dict(d) => has_type(d, "Catalog"),
                Object::Stream(st) => has_type(&st.dict, "Catalog"),
                _ => false,
            };
            if catalog {
                proof {
                    assert(get_result(scan_view(data@, xref@), num, got@));
                    assert(xref@.contains_key(num)) by {
                        if !xref@.contains_key(num) {
                            assert(got@ == ObjectView::Null);
                        }
                    }
                }
                trailer.insert("Root".to_owned(), Object::Ref(ObjRef::new(num, 0)));
                proof {
                    reveal_strlit("Root");
                    assert(is_catalog(got@));
                }
                break;
            }
            k = k + 1;
        }
    }
    Ok((xref, trailer))
}

} // verus!

verus! {

/// What `o` resolves to in `f`: itself when it is no reference; for a reference, a direct
/// object, null when the referenced object is not in the file, and what reading it at its
/// offset gives when it is defined there directly.
pub open spec fn resolves_to(f: PdfFileView, o: ObjectView, v: ObjectView) -> bool {
    &&& (!(o is Ref) ==> v == o)
    &&& !(v is Ref)
    &&& (o matches ObjectView::Ref(n, _) && !f.xref.contains_key(n) ==> v == ObjectView::Null)
    &&& (o matches ObjectView::Ref(n, _) ==> one_hop(f, n, v))
}

/// What object `num` of `f` reads as: null when it is not in the file, else what its
/// cross-reference entry leads to.
pub open spec fn get_result(f: PdfFileView, num: u32, v: ObjectView) -> bool {
    &&& !f.xref.contains_key(num) ==> v == ObjectView::Null
    &&& f.xref.contains_key(num) ==> match f.xref[num] {
        XrefEntry::Offset { offset, gen } => offset_result(f, num, gen, offset as int, v),
        XrefEntry::InStream { stream_num, index } => !(v is Stream) && objstm_member(
            f,
            stream_num,
            index,
            num,
            v,
        ),
    }
}

/// The trailer the last `trailer` dictionary of `d` gives, its entries merged with the first of
/// each key kept; empty without one.
pub open spec fn last_trailer_of(d: Seq<u8>) -> Seq<(Seq<char>, ObjectView)> {
    match last_trailer_dict(d, 0, None) {
        Some(es) => spec_merge_trailer(Seq::empty(), es),
        None => Seq::empty(),
    }
}

/// Data from its header on whose cross-reference chain reads through to a trailer with a
/// /Root.
pub open spec fn chain_opens(d: Seq<u8>) -> bool {
    chain_result(d) matches Some((_, t)) && dict_lookup(t, "Root"@) is Some
}

/// Data from its header on that a recovery scan opens: its chain does not open it, and it
/// has some object definition and a last `trailer` dictionary with a /Root.
pub open spec fn scan_opens(d: Seq<u8>) -> bool {
    &&& !chain_opens(d)
    &&& scan_defs(d, 0, Map::empty()).len() > 0
    &&& dict_lookup(last_trailer_of(d), "Root"@) is Some
}

/// The trailer that decides whether `d` is encrypted: the chain's where it opens the file, the
/// last `trailer` dictionary's otherwise.
pub open spec fn opening_trailer(d: Seq<u8>) -> Seq<(Seq<char>, ObjectView)> {
    match chain_result(d) {
        Some((_, t)) => if dict_lookup(t, "Root"@) is Some {
            t
        } else {
            last_trailer_of(d)
        },
        None => last_trailer_of(d),
    }
}

/// The data names no /Encrypt in the trailer that opens it.
pub open spec fn plain_trailer(d: Seq<u8>) -> bool {
    dict_lookup(opening_trailer(d), "Encrypt"@) is None
}

/// The bytes a PDF header starts with.
pub open spec fn pdf_header() -> Seq<u8> {
    seq![37u8, 80, 68, 70, 45]
}

/// Junk before the header changes nothing: when the first header of `junk + d` is where `d`
/// starts, and `d` starts with one, loading either keeps the same bytes from the header on, the
/// only bytes the clauses of [`PdfFile::load`] speak of; so the chain gives both the same object
/// map and trailer, and whether the chain or the scan opens them is the same.
pub proof fn junk_before_the_header(junk: Seq<u8>, d: Seq<u8>)
    requires
        crate::lexer::occurs_at(d, 0, pdf_header()),
        crate::lexer::first_occurrence(junk + d, 0, pdf_header()) == Some(junk.len() as int),
    ensures
        crate::lexer::first_occurrence(d, 0, pdf_header()) == Some(0int),
        (junk + d).subrange(junk.len() as int, (junk + d).len() as int) == d.subrange(0, d.len() as int),
        chain_result((junk + d).subrange(junk.len() as int, (junk + d).len() as int)) == chain_result(
            d.subrange(0, d.len() as int),
        ),
        chain_opens((junk + d).subrange(junk.len() as int, (junk + d).len() as int)) == chain_opens(
            d.subrange(0, d.len() as int),
        ),
        scan_opens((junk + d).subrange(junk.len() as int, (junk + d).len() as int)) == scan_opens(
            d.subrange(0, d.len() as int),
        ),
        plain_trailer((junk + d).subrange(junk.len() as int, (junk + d).len() as int)) == plain_trailer(
            d.subrange(0, d.len() as int),
        ),
{
    assert((junk + d).subrange(junk.len() as int, (junk + d).len() as int) =~= d.subrange(0, d.len() as int));
}

impl PdfFile {
    /// Parses a file: finds the `%PDF-` header (anything before it is dropped and offsets
    /// count from it), reads the cross-reference chain or, when that fails or yields no /Root,
    /// rebuilds the object map by scanning, and opens the decryptor when the trailer has an
    /// /Encrypt entry.
    pub fn load(data: Vec<u8>, password: Option<&str>) -> (r: Result<PdfFile, Error>)
        ensures
            crate::lexer::first_occurrence(data@, 0, pdf_header()) is None ==> (r matches Err(e)
                && e.is_parse_with("no %PDF header"@)),
            crate::lexer::first_occurrence(data@, 0, pdf_header()) matches Some(h) ==> ((chain_opens(
                data@.subrange(h, data@.len() as int),
            ) || scan_opens(data@.subrange(h, data@.len() as int))) && plain_trailer(
                data@.subrange(h, data@.len() as int),
            ) ==> r is Ok),
            r matches Ok(f) ==> {
                &&& crate::lexer::first_occurrence(data@, 0, pdf_header()) matches Some(h)
                &&& f@.data == data@.subrange(h, data@.len() as int)
                &&& dict_lookup(f@.trailer, "Root"@) is Some
                &&& dict_lookup(f@.trailer, "Encrypt"@) is None ==> f@.decryptor is None
                &&& dict_lookup(f@.trailer, "Encrypt"@) matches Some(ObjectView::Ref(n, g))
                    ==> f@.encrypt_ref == Some((n, g))
                &&& direct_encryption(f@.trailer) ==> ({
                    let opened = crate::crypt::spec_open(
                        encrypt_entries(f@.trailer),
                        trailer_id(f@.trailer),
                        password_bytes(password),
                        Direct,
                    );
                    opened is Ok && f@.decryptor == Some(opened->Ok_0)
                })
                &&& chain_opens(f@.data) ==> chain_result(f@.data) == Some((f@.xref, f@.trailer))
                &&& !chain_opens(f@.data) ==> extends(scan_defs(f@.data, 0, Map::empty()), f@.xref)
                    && recovered_trailer(f@.data, f@.xref, f@.trailer)
            },
    {
        let (data, xref, trailer) = match Self::locate(data) {
            Ok(x) => x,
            Err(e) => {
                return Err(e);
            },
        };
        let mut file = PdfFile { data, xref, trailer, decryptor: None, encrypt_ref: None };
        match file.attach_decryptor(password) {
            Ok(()) => Ok(file),
            Err(e) => Err(e),
        }
    }

    /// The bytes from the header on, the object map and the trailer: from the cross-reference
    /// chain, or from a scan when the chain fails or has no /Root.
    fn locate(data: Vec<u8>) -> (r: Result<(Vec<u8>, HashMap<u32, XrefEntry>, Dict), Error>)
        ensures
            crate::lexer::first_occurrence(data@, 0, pdf_header()) is None ==> (r matches Err(e)
                && e.is_parse_with("no %PDF header"@)),
            r matches Ok((d, x, t)) ==> {
                &&& crate::lexer::first_occurrence(data@, 0, pdf_header()) matches Some(h)
                &&& d@ == data@.subrange(h, data@.len() as int)
                &&& dict_lookup(t@, "Root"@) is Some
                &&& chain_opens(d@) ==> chain_result(d@) == Some((x@, t@))
                &&& !chain_opens(d@) ==> extends(scan_defs(d@, 0, Map::empty()), x@)
                    && recovered_trailer(d@, x@, t@)
            },
            crate::lexer::first_occurrence(data@, 0, pdf_header()) matches Some(h) ==> (chain_opens(
                data@.subrange(h, data@.len() as int),
            ) || scan_opens(data@.subrange(h, data@.len() as int)) ==> r is Ok),
    {
        // The header may be preceded by junk; all offsets are then relative to `%PDF`.
        let header_bytes: &[u8] = &[37, 80, 68, 70, 45];
        assert(header_bytes@ =~= pdf_header());
        let header = match crate::lexer::find_first(data.as_slice(), 0, header_bytes) {
            Some(h) => h,
            None => {
                return parse_err("no %PDF header");
            },
        };
        proof {
            crate::lexer::lemma_first_occurrence_bounds(data@, 0, pdf_header());
        }
        let data = if header > 0 {
            vstd::slice::slice_to_vec(
                vstd::slice::slice_subrange(data.as_slice(), header, data.len()),
            )
        } else {
            assert(data@.subrange(0, data@.len() as int) =~= data@);
            data
        };
        let (xref, trailer) = match read_xref_chain(data.as_slice()) {
            Ok((x, t)) => {
                if t.contains("Root") {
                    (x, t)
                } else {
                    match rebuild_by_scan(data.as_slice()) {
                        Ok(ok) => ok,
                        Err(e) => {
                            return Err(e);
                        },
                    }
                }
            },
            Err(_) => match rebuild_by_scan(data.as_slice()) {
                Ok(ok) => ok,
                Err(e) => {
                    return Err(e);
                },
            },
        };
        // A rebuilt xref can still miss /Root if the catalog hides in an object stream that the
        // scan indexed; that resolves through the normal path, so only a missing entry is
        // fatal here.
        if !trailer.contains("Root") {
            return parse_err("trailer has no /Root");
        }
        Ok((data, xref, trailer))
    }

    /// Opens the decryptor when the trailer has an /Encrypt entry.
    #[verifier::spinoff_prover]
    #[verifier::rlimit(80)]
    fn attach_decryptor(&mut self, password: Option<&str>) -> (r: Result<(), Error>)
        requires
            old(self)@.decryptor is None,
        ensures
            final(self)@.data == old(self)@.data,
            final(self)@.xref == old(self)@.xref,
            final(self)@.trailer == old(self)@.trailer,
            dict_lookup(old(self)@.trailer, "Encrypt"@) is None ==> final(self)@.decryptor is None
                && r is Ok,
            dict_lookup(old(self)@.trailer, "Encrypt"@) matches Some(ObjectView::Ref(n, g))
                ==> final(self)@.encrypt_ref == Some((n, g)),
            direct_encryption(old(self)@.trailer) ==> match crate::crypt::spec_open(
                encrypt_entries(old(self)@.trailer),
                trailer_id(old(self)@.trailer),
                password_bytes(password),
                Direct,
            ) {
                Ok(v) => r is Ok && final(self)@.decryptor == Some(v),
                Err(crate::crypt::OpenFailure::Unsupported(m)) => r matches Err(e) && e.is_unsupported_with(m),
                Err(crate::crypt::OpenFailure::Password) => r matches Err(e) && e is Password,
            },
    {
        let enc = match self.trailer.get("Encrypt") {
            Some(e) => e.clone(),
            None => {
                return Ok(());
            },
        };
        self.encrypt_ref = enc.as_ref_id();
        let res = self.open_decryptor(&enc, password);
        proof {
            if direct_encryption(self@.trailer) {
                assert(enc@ == ObjectView::Dict(encrypt_entries(self@.trailer)));
                assert(crate::crypt::open_matches(
                    res,
                    crate::crypt::spec_open(
                        encrypt_entries(self@.trailer),
                        trailer_id(self@.trailer),
                        password_bytes(password),
                        Direct,
                    ),
                ));
            }
        }
        let dec = match res {
            Ok(d) => d,
            Err(e) => {
                return Err(e);
            },
        };
        self.decryptor = Some(dec);
        Ok(())
    }

    /// The decryptor the /Encrypt entry `enc` describes, opened with `password`.
    #[verifier::spinoff_prover]
    fn open_decryptor(&self, enc: &Object, password: Option<&str>) -> (r: Result<Decryptor, Error>)
        ensures
            enc@ is Dict && ref_free(enc@) && (dict_lookup(self@.trailer, "ID"@) matches Some(v) ==> !(
            v is Ref)) ==> crate::crypt::open_matches(
                r,
                crate::crypt::spec_open(
                    enc@->Dict_0,
                    trailer_id(self@.trailer),
                    password_bytes(password),
                    Direct,
                ),
            ),
    {
        let target = self.resolve(enc);
        let enc_dict = match target.as_dict() {
            Some(d) => d.clone(),
            None => {
                return parse_err("encrypt entry is not a dictionary");
            },
        };
        let ghost direct = enc@ is Dict && ref_free(enc@);
        proof {
            if direct {
                assert(target@ == enc@);
                assert(enc_dict@ == enc@->Dict_0);
                assert(ref_free(Object::Dict(enc_dict)@));
            }
        }
        // Entries of the /Encrypt dictionary may be references; read them through the file
        // before the decryptor exists, as the dictionary itself is never encrypted.
        let mut in_flight: Vec<u32> = Vec::new();
        let enc_dict = match self.resolve_deep(&Object::Dict(enc_dict), 4, &mut in_flight) {
            Object::Dict(d) => d,
            _ => Dict::new(),
        };
        proof {
            if direct {
                assert(enc_dict@ == enc@->Dict_0);
            }
        }
        let ids = self.first_id();
        Decryptor::new(&enc_dict, ids.as_slice(), password, &Direct)
    }

    /// The first string of the trailer's /ID array, or nothing.
    fn first_id(&self) -> (r: Vec<u8>)
        ensures
            (dict_lookup(self@.trailer, "ID"@) matches Some(v) ==> !(v is Ref)) ==> r@ == trailer_id(
                self@.trailer,
            ),
    {
        match self.trailer.get("ID") {
            Some(o) => match self.resolve(o) {
                Object::Array(items) => {
                    if items.len() > 0 {
                        match items[0].as_string() {
                            Some(b) => vstd::slice::slice_to_vec(b),
                            None => Vec::new(),
                        }
                    } else {
                        Vec::new()
                    }
                },
                _ => Vec::new(),
            },
            None => Vec::new(),
        }
    }
}

} // verus!
