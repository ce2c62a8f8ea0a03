//! The COS object model: everything a PDF body is made of.
//!
//! Contracts speak of an object through its view, [`ObjectView`], in which names are character
//! sequences and arrays, dictionaries and strings are sequences.

use vstd::prelude::*;

use crate::lexer::{real_to_int, real_to_int_spec};
use crate::text::str_eq;

verus! {

/// An indirect object reference: object number and generation.
#[derive(Debug, Clone, Copy, PartialEq, Eq, Hash, Structural)]
pub struct ObjRef {
    pub num: u32,
    pub gen: u16,
}

impl ObjRef {
    pub fn new(num: u32, gen: u16) -> (r: Self)
        ensures
            r.num == num,
            r.gen == gen,
    {
        ObjRef { num, gen }
    }
}

/// A dictionary: entries in insertion order. Keys are names with the leading `/` and `#xx`
/// escapes already resolved. [`Dict::insert`] replaces the value of a key already present, so a
/// dictionary built through it never holds a key twice.
#[derive(Debug, Default, PartialEq)]
pub struct Dict(pub Vec<(String, Object)>);

/// A stream: its dictionary plus the raw (still filtered, possibly encrypted) bytes.
#[derive(Debug, PartialEq)]
pub struct Stream {
    pub dict: Dict,
    pub raw: Vec<u8>,
}

#[derive(Debug, PartialEq)]
pub enum Object {
    Null,
    Bool(bool),
    Int(i64),
    /// A real number, as the ASCII text of a decimal that `str::parse::<f64>` reads to its
    /// value. The text is the token itself when it is already well formed, and the token with
    /// stray signs removed otherwise.
    Real(Vec<u8>),
    /// A string's decoded bytes. Interpretation (PDFDocEncoding, UTF-16BE) is the caller's.
    String(Vec<u8>),
    Name(String),
    Array(Vec<Object>),
    Dict(Dict),
    Stream(Stream),
    Ref(ObjRef),
}

/// The mathematical value of an [`Object`].
pub enum ObjectView {
    Null,
    Bool(bool),
    Int(i64),
    Real(Seq<u8>),
    Str(Seq<u8>),
    Name(Seq<char>),
    Array(Seq<ObjectView>),
    Dict(Seq<(Seq<char>, ObjectView)>),
    Stream(Seq<(Seq<char>, ObjectView)>, Seq<u8>),
    Ref(u32, u16),
}

pub open spec fn entries_view(entries: Seq<(String, Object)>) -> Seq<(Seq<char>, ObjectView)>
    decreases entries,
{
    Seq::new(
        entries.len(),
        |i: int|
            if 0 <= i < entries.len() {
                (entries[i].0@, object_view(entries[i].1))
            } else {
                (Seq::empty(), ObjectView::Null)
            },
    )
}

pub open spec fn object_view(o: Object) -> ObjectView
    decreases o,
{
    match o {
        Object::Null => ObjectView::Null,
        Object::Bool(b) => ObjectView::Bool(b),
        Object::Int(i) => ObjectView::Int(i),
        Object::Real(t) => ObjectView::Real(t@),
        Object::String(s) => ObjectView::Str(s@),
        Object::Name(n) => ObjectView::Name(n@),
        Object::Array(items) => ObjectView::Array(
            Seq::new(
                items@.len(),
                |i: int|
                    if 0 <= i < items@.len() {
                        object_view(items@[i])
                    } else {
                        ObjectView::Null
                    },
            ),
        ),
        Object::Dict(d) => ObjectView::Dict(entries_view(d.0@)),
        Object::Stream(s) => ObjectView::Stream(entries_view(s.dict.0@), s.raw@),
        Object::Ref(r) => ObjectView::Ref(r.num, r.gen),
    }
}

impl View for Object {
    type V = ObjectView;

    open spec fn view(&self) -> ObjectView {
        object_view(*self)
    }
}

impl View for Dict {
    type V = Seq<(Seq<char>, ObjectView)>;

    open spec fn view(&self) -> Seq<(Seq<char>, ObjectView)> {
        entries_view(self.0@)
    }
}

/// The index of the first entry with key `key`.
pub open spec fn key_index(entries: Seq<(Seq<char>, ObjectView)>, key: Seq<char>) -> Option<int> {
    if exists|i: int| 0 <= i < entries.len() && entries[i].0 == key {
        let i = choose|i: int|
            0 <= i < entries.len() && entries[i].0 == key && forall|j: int|
                0 <= j < i ==> entries[j].0 != key;
        Some(i)
    } else {
        None
    }
}

/// The value `key` maps to: that of the first entry with the key.
pub open spec fn dict_lookup(entries: Seq<(Seq<char>, ObjectView)>, key: Seq<char>) -> Option<
    ObjectView,
> {
    match key_index(entries, key) {
        Some(i) => Some(entries[i].1),
        None => None,
    }
}

/// Entries after inserting `key -> value`: the first entry with the key takes the new value,
/// or the pair is appended when the key is new.
pub open spec fn dict_insert(
    entries: Seq<(Seq<char>, ObjectView)>,
    key: Seq<char>,
    value: ObjectView,
) -> Seq<(Seq<char>, ObjectView)> {
    match key_index(entries, key) {
        Some(i) => entries.update(i, (key, value)),
        None => entries.push((key, value)),
    }
}

proof fn lemma_key_index(entries: Seq<(Seq<char>, ObjectView)>, key: Seq<char>, i: int)
    requires
        0 <= i < entries.len(),
        entries[i].0 == key,
        forall|j: int| 0 <= j < i ==> entries[j].0 != key,
    ensures
        key_index(entries, key) == Some(i),
{
    let k = choose|k: int|
        0 <= k < entries.len() && entries[k].0 == key && forall|j: int|
            0 <= j < k ==> entries[j].0 != key;
    if k < i {
        assert(entries[k].0 != key);
    } else if k > i {
        assert(entries[i].0 != key);
    }
}

/// Looking up a key right after inserting it gives the inserted value.
pub proof fn insert_then_lookup(entries: Seq<(Seq<char>, ObjectView)>, key: Seq<char>, value: ObjectView)
    ensures
        dict_lookup(dict_insert(entries, key, value), key) == Some(value),
{
    let after = dict_insert(entries, key, value);
    match key_index(entries, key) {
        Some(i) => {
            lemma_key_index_found(entries, key);
            assert forall|j: int| 0 <= j < i implies after[j].0 != key by {
                assert(after[j] == entries[j]);
            }
            lemma_key_index(after, key, i);
        },
        None => {
            lemma_key_index_absent(entries, key);
            let i = entries.len() as int;
            assert forall|j: int| 0 <= j < i implies after[j].0 != key by {
                assert(after[j] == entries[j]);
            }
            lemma_key_index(after, key, i);
        },
    }
}

/// Inserting a key leaves the value of every other key as it was.
pub proof fn insert_keeps_other_keys(
    entries: Seq<(Seq<char>, ObjectView)>,
    key: Seq<char>,
    value: ObjectView,
    other: Seq<char>,
)
    requires
        other != key,
    ensures
        dict_lookup(dict_insert(entries, key, value), other) == dict_lookup(entries, other),
{
    let after = dict_insert(entries, key, value);
    if key_index(entries, key) is Some {
        lemma_key_index_found(entries, key);
    }
    assert(after.len() >= entries.len());
    assert forall|j: int| 0 <= j < entries.len() implies (#[trigger] after[j]).0 == other
        <==> entries[j].0 == other by {
        if key_index(entries, key) is Some {
            lemma_key_index_found(entries, key);
        }
    }
    match key_index(entries, other) {
        Some(i) => {
            lemma_key_index_found(entries, other);
            match key_index(entries, key) {
                Some(ik) => {
                    lemma_key_index_found(entries, key);
                    assert(i != ik);
                },
                None => {},
            }
            assert(after[i] == entries[i]);
            lemma_key_index(after, other, i);
        },
        None => {
            lemma_key_index_absent(entries, other);
            if exists|j: int| 0 <= j < after.len() && after[j].0 == other {
                let j = choose|j: int| 0 <= j < after.len() && after[j].0 == other;
                if j < entries.len() {
                    assert(entries[j].0 == other);
                } else {
                    assert(after[j].0 == key);
                }
            }
        },
    }
}

/// The first entry's key looks up to the first entry's value.
pub(crate) proof fn lemma_lookup_first(entries: Seq<(Seq<char>, ObjectView)>)
    requires
        entries.len() > 0,
    ensures
        dict_lookup(entries, entries[0].0) == Some(entries[0].1),
{
    lemma_key_index(entries, entries[0].0, 0);
}

/// A key other than the first entry's looks up as it does in the entries after the first.
pub(crate) proof fn lemma_lookup_skip_first(entries: Seq<(Seq<char>, ObjectView)>, key: Seq<char>)
    requires
        entries.len() > 0,
        entries[0].0 != key,
    ensures
        dict_lookup(entries, key) == dict_lookup(entries.drop_first(), key),
{
    let tail = entries.drop_first();
    match key_index(tail, key) {
        Some(i) => {
            lemma_key_index_found(tail, key);
            assert forall|j: int| 0 <= j < i + 1 implies entries[j].0 != key by {
                if j > 0 {
                    assert(entries[j] == tail[j - 1]);
                }
            }
            lemma_key_index(entries, key, i + 1);
        },
        None => {
            lemma_key_index_absent(tail, key);
            assert forall|j: int| 0 <= j < entries.len() implies entries[j].0 != key by {
                if j > 0 {
                    assert(entries[j] == tail[j - 1]);
                }
            }
        },
    }
}

pub(crate) proof fn lemma_key_index_found(entries: Seq<(Seq<char>, ObjectView)>, key: Seq<char>)
    requires
        key_index(entries, key) is Some,
    ensures
        ({
            let i = key_index(entries, key)->0;
            &&& 0 <= i < entries.len()
            &&& entries[i].0 == key
            &&& forall|j: int| 0 <= j < i ==> entries[j].0 != key
        }),
{
    let w = choose|i: int| 0 <= i < entries.len() && entries[i].0 == key;
    lemma_first_exists(entries, key, w);
}

proof fn lemma_first_exists(entries: Seq<(Seq<char>, ObjectView)>, key: Seq<char>, w: int)
    requires
        0 <= w < entries.len(),
        entries[w].0 == key,
    ensures
        exists|i: int|
            0 <= i < entries.len() && entries[i].0 == key && forall|j: int|
                0 <= j < i ==> entries[j].0 != key,
    decreases w,
{
    if exists|j: int| 0 <= j < w && entries[j].0 == key {
        let j = choose|j: int| 0 <= j < w && entries[j].0 == key;
        lemma_first_exists(entries, key, j);
    }
}

proof fn lemma_key_index_absent(entries: Seq<(Seq<char>, ObjectView)>, key: Seq<char>)
    requires
        key_index(entries, key) is None,
    ensures
        forall|j: int| 0 <= j < entries.len() ==> entries[j].0 != key,
{
}

impl Dict {
    pub fn new() -> (r: Self)
        ensures
            r@ == Seq::<(Seq<char>, ObjectView)>::empty(),
    {
        let r = Dict(Vec::new());
        assert(r@ =~= Seq::<(Seq<char>, ObjectView)>::empty());
        r
    }

    fn position(&self, key: &str) -> (r: Option<usize>)
        ensures
            match r {
                Some(i) => key_index(self@, key@) == Some(i as int) && i < self.0@.len(),
                None => key_index(self@, key@) is None,
            },
    {
        let mut i: usize = 0;
        while i < self.0.len()
            invariant
                i <= self.0@.len(),
                self@.len() == self.0@.len(),
                forall|j: int| 0 <= j < i ==> self@[j].0 != key@,
            decreases self.0@.len() - i,
        {
            if str_eq(self.0[i].0.as_str(), key) {
                proof {
                    lemma_key_index(self@, key@, i as int);
                }
                return Some(i);
            }
            i = i + 1;
        }
        None
    }

    pub fn get(&self, key: &str) -> (r: Option<&Object>)
        ensures
            match r {
                Some(o) => dict_lookup(self@, key@) == Some(o@),
                None => dict_lookup(self@, key@) is None,
            },
    {
        match self.position(key) {
            Some(i) => Some(&self.0[i].1),
            None => None,
        }
    }

    pub fn contains(&self, key: &str) -> (r: bool)
        ensures
            r == (dict_lookup(self@, key@) is Some),
    {
        self.position(key).is_some()
    }

    pub fn insert(&mut self, key: String, value: Object)
        ensures
            final(self)@ == dict_insert(old(self)@, key@, value@),
    {
        let ghost kv = key@;
        let ghost vv = value@;
        match self.position(key.as_str()) {
            Some(i) => {
                self.0.set(i, (key, value));
                assert(self@ =~= dict_insert(old(self)@, kv, vv));
            },
            None => {
                self.0.push((key, value));
                assert(self@ =~= dict_insert(old(self)@, kv, vv));
            },
        }
    }
}

/// The integer an object stands for: an integer itself, or a real truncated toward zero and
/// clamped to the `i64` range.
pub open spec fn spec_as_int(o: ObjectView) -> Option<i64> {
    match o {
        ObjectView::Int(i) => Some(i),
        ObjectView::Real(t) => Some(real_to_int_spec(t)),
        _ => None,
    }
}

fn clone_object(o: &Object) -> (r: Object)
    ensures
        r@ == o@,
    decreases o,
{
    match o {
        Object::Null => Object::Null,
        Object::Bool(b) => Object::Bool(*b),
        Object::Int(i) => Object::Int(*i),
        Object::Real(t) => Object::Real(vstd::slice::slice_to_vec(t.as_slice())),
        Object::String(t) => Object::String(vstd::slice::slice_to_vec(t.as_slice())),
        Object::Name(n) => Object::Name(n.clone()),
        Object::Array(items) => {
            let c = clone_items(items);
            let r = Object::Array(c);
            assert(r@->Array_0 =~= o@->Array_0);
            r
        },
        Object::Dict(d) => {
            let r = Object::Dict(Dict(clone_entries(&d.0)));
            assert(r@ == o@);
            r
        },
        Object::Stream(st) => {
            let r = Object::Stream(
                Stream {
                    dict: Dict(clone_entries(&st.dict.0)),
                    raw: vstd::slice::slice_to_vec(st.raw.as_slice()),
                },
            );
            assert(r@ == o@);
            r
        },
        Object::Ref(x) => Object::Ref(*x),
    }
}

fn clone_items(items: &Vec<Object>) -> (r: Vec<Object>)
    ensures
        r@.len() == items@.len(),
        forall|i: int| 0 <= i < items@.len() ==> (#[trigger] r@[i])@ == items@[i]@,
    decreases items,
{
    let mut out: Vec<Object> = Vec::new();
    let mut i: usize = 0;
    while i < items.len()
        invariant
            i <= items@.len(),
            out@.len() == i,
            forall|k: int| 0 <= k < i ==> (#[trigger] out@[k])@ == items@[k]@,
        decreases items@.len() - i,
    {
        assert(decreases_to!(items => items@[i as int]));
        out.push(clone_object(&items[i]));
        i = i + 1;
    }
    out
}

fn clone_entries(entries: &Vec<(String, Object)>) -> (r: Vec<(String, Object)>)
    ensures
        entries_view(r@) == entries_view(entries@),
    decreases entries,
{
    let mut out: Vec<(String, Object)> = Vec::new();
    let mut i: usize = 0;
    while i < entries.len()
        invariant
            i <= entries@.len(),
            out@.len() == i,
            forall|k: int| 0 <= k < i ==> (#[trigger] out@[k]).0@ == entries@[k].0@ && out@[k].1@ == entries@[k].1@,
        decreases entries@.len() - i,
    {
        assert(decreases_to!(entries => entries@[i as int].1));
        let v = clone_object(&entries[i].1);
        out.push((entries[i].0.clone(), v));
        i = i + 1;
    }
    assert(entries_view(out@) =~= entries_view(entries@));
    out
}

impl Clone for Object {
    fn clone(&self) -> (r: Self)
        ensures
            r@ == self@,
    {
        clone_object(self)
    }
}

impl Clone for Dict {
    fn clone(&self) -> (r: Self)
        ensures
            r@ == self@,
    {
        Dict(clone_entries(&self.0))
    }
}

impl Object {
    pub fn as_int(&self) -> (r: Option<i64>)
        ensures
            r == spec_as_int(self@),
    {
        match self {
            Object::Int(i) => Some(*i),
            Object::Real(t) => Some(real_to_int(t.as_slice())),
            _ => None,
        }
    }

    pub fn as_bool(&self) -> (r: Option<bool>)
        ensures
            r == match self@ {
                ObjectView::Bool(b) => Some(b),
                _ => None::<bool>,
            },
    {
        match self {
            Object::Bool(b) => Some(*b),
            _ => None,
        }
    }

    pub fn as_name(&self) -> (r: Option<&str>)
        ensures
            match self@ {
                ObjectView::Name(n) => r matches Some(s) && s@ == n,
                _ => r is None,
            },
    {
        match self {
            Object::Name(n) => Some(n.as_str()),
            _ => None,
        }
    }

    pub fn as_string(&self) -> (r: Option<&[u8]>)
        ensures
            match self@ {
                ObjectView::Str(s) => r matches Some(b) && b@ == s,
                _ => r is None,
            },
    {
        match self {
            Object::String(s) => Some(s.as_slice()),
            _ => None,
        }
    }

    pub fn as_array(&self) -> (r: Option<&[Object]>)
        ensures
            match *self {
                Object::Array(items) => r matches Some(a) && a@ == items@,
                _ => r is None,
            },
    {
        match self {
            Object::Array(a) => Some(a.as_slice()),
            _ => None,
        }
    }

    /// The dictionary of a dict *or* a stream: many entries (`/Resources`, `/Font`) may be
    /// either, and callers almost never care which.
    pub fn as_dict(&self) -> (r: Option<&Dict>)
        ensures
            match *self {
                Object::Dict(d) => r == Some(&d),
                Object::Stream(s) => r == Some(&s.dict),
                _ => r is None,
            },
    {
        match self {
            Object::Dict(d) => Some(d),
            Object::Stream(s) => Some(&s.dict),
            _ => None,
        }
    }

    pub fn as_stream(&self) -> (r: Option<&Stream>)
        ensures
            match *self {
                Object::Stream(s) => r == Some(&s),
                _ => r is None,
            },
    {
        match self {
            Object::Stream(s) => Some(s),
            _ => None,
        }
    }

    pub fn as_ref_id(&self) -> (r: Option<ObjRef>)
        ensures
            match *self {
                Object::Ref(x) => r == Some(x),
                _ => r is None,
            },
    {
        match self {
            Object::Ref(x) => Some(*x),
            _ => None,
        }
    }

    pub fn is_null(&self) -> (r: bool)
        ensures
            r == (self@ is Null),
    {
        match self {
            Object::Null => true,
            _ => false,
        }
    }
}

} // verus!
