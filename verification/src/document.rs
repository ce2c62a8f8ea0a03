//! The document: catalog and page tree.
//!
//! Page boxes are rectangles of reals; the walk hands them on as the objects it met, root
//! first, and the caller that measures them picks the last well-formed one, which is the one a
//! page inherits.

use std::collections::HashSet;

use vstd::prelude::*;

use crate::error::Error;
use crate::object::{dict_lookup, Dict, Object, ObjectView};
use crate::parser::PdfFile;

verus! {

broadcast use vstd::std_specs::hash::group_hash_axioms;

/// The most pages a document yields.
pub const MAX_PAGES: usize = 100000;

/// The deepest page-tree node that is visited.
pub const MAX_DEPTH: usize = 64;

/// One leaf of the page tree, with what it inherits from its ancestors.
pub struct PageNode {
    pub dict: Dict,
    /// The inherited /Resources dictionary, resolved; empty when there is none.
    pub resources: Dict,
    /// Every /MediaBox on the path from the root to this leaf, resolved, root first. The page's
    /// box is the last of them that is a well-formed rectangle.
    pub media_boxes: Vec<Object>,
    /// Every /CropBox on the path, in the same way.
    pub crop_boxes: Vec<Object>,
    /// Clockwise display rotation in degrees: 0, 90, 180 or 270.
    pub rotation: i32,
}

/// What a node hands down to its kids.
struct Inherited {
    resources: Option<Object>,
    media_boxes: Vec<Object>,
    crop_boxes: Vec<Object>,
    rotate: Option<i64>,
}

/// The display rotation for an inherited /Rotate: reduced to `0..360` and floored to a
/// multiple of 90.
pub open spec fn spec_rotation(rotate: Option<i64>) -> int {
    let r = match rotate {
        Some(r) => r as int,
        None => 0,
    };
    (r % 360) / 90 * 90
}

/// A rotation the page model accepts.
pub open spec fn quarter_turn(r: int) -> bool {
    r == 0 || r == 90 || r == 180 || r == 270
}

/// A full turn more or less does not change a page's rotation.
pub proof fn rotation_ignores_full_turns(r: i64)
    requires
        r + 360 <= i64::MAX,
    ensures
        spec_rotation(Some(r)) == spec_rotation(Some((r + 360) as i64)),
{
    assert((r + 360) % 360 == r % 360) by (nonlinear_arith);
}

/// The display rotation for an inherited /Rotate.
pub fn rotation_of(rotate: Option<i64>) -> (r: i32)
    ensures
        r == spec_rotation(rotate),
        quarter_turn(r as int),
{
    let v: i64 = match rotate {
        Some(x) => x,
        None => 0,
    };
    let m: i64 = match v.checked_rem_euclid(360) {
        Some(m) => m,
        None => 0,
    };
    assert(0 <= m < 360);
    let q = (m / 90) * 90;
    assert(q == 0 || q == 90 || q == 180 || q == 270);
    q as i32
}

fn clone_objects(v: &Vec<Object>) -> (r: Vec<Object>)
    ensures
        r@.len() == v@.len(),
        forall|i: int| 0 <= i < v@.len() ==> (#[trigger] r@[i])@ == v@[i]@,
{
    let mut out: Vec<Object> = Vec::new();
    let mut i: usize = 0;
    while i < v.len()
        invariant
            i <= v@.len(),
            out@.len() == i,
            forall|k: int| 0 <= k < i ==> (#[trigger] out@[k])@ == v@[k]@,
        decreases v@.len() - i,
    {
        out.push(v[i].clone());
        i = i + 1;
    }
    out
}

impl Inherited {
    fn copy(&self) -> (r: Inherited)
        ensures
            inh_view(r) == inh_view(*self),
    {
        let r = Inherited {
            resources: match &self.resources {
                Some(o) => Some(o.clone()),
                None => None,
            },
            media_boxes: clone_objects(&self.media_boxes),
            crop_boxes: clone_objects(&self.crop_boxes),
            rotate: self.rotate,
        };
        assert(objects_view(r.media_boxes@) =~= objects_view(self.media_boxes@));
        assert(objects_view(r.crop_boxes@) =~= objects_view(self.crop_boxes@));
        r
    }
}

/// The inherited resources, if any, are not a reference.
spec fn inh_direct(i: InheritedView) -> bool {
    i.resources matches Some(r) ==> !(r is Ref)
}


/// What a node with dictionary `dict` hands down to its kids.
#[verifier::spinoff_prover]
fn inherit_from(file: &PdfFile, inherited: &Inherited, dict: &Dict) -> (r: Inherited)
    ensures
        crate::parser::ref_free(ObjectView::Dict(dict@)) && inh_direct(inh_view(*inherited)) ==> inh_view(
            r,
        ) == spec_inherit(inh_view(*inherited), dict@) && inh_direct(inh_view(r)),
{
    let mut inh = inherited.copy();
    proof {
        if crate::parser::ref_free(ObjectView::Dict(dict@)) {
            crate::parser::lemma_lookup_ref_free(dict@, "Resources"@);
            crate::parser::lemma_lookup_ref_free(dict@, "MediaBox"@);
            crate::parser::lemma_lookup_ref_free(dict@, "CropBox"@);
            crate::parser::lemma_lookup_ref_free(dict@, "Rotate"@);
        }
    }
    if let Some(r) = dict.get("Resources") {
        inh.resources = Some(r.clone());
    }
    if let Some(b) = dict.get("MediaBox") {
        let ghost before = inh.media_boxes@;
        inh.media_boxes.push(file.resolve(b));
        assert(objects_view(inh.media_boxes@) =~= objects_view(before).push(inh.media_boxes@.last()@));
    }
    if let Some(b) = dict.get("CropBox") {
        let ghost before = inh.crop_boxes@;
        inh.crop_boxes.push(file.resolve(b));
        assert(objects_view(inh.crop_boxes@) =~= objects_view(before).push(inh.crop_boxes@.last()@));
    }
    if let Some(r) = dict.get("Rotate") {
        if let Some(v) = file.resolve(r).as_int() {
            inh.rotate = Some(v);
        }
    }
    inh
}

/// The page a leaf with dictionary `dict` becomes, with what it inherits (its own included).
fn leaf_of(file: &PdfFile, dict: &Dict, inh: Inherited) -> (r: PageNode)
    ensures
        quarter_turn(r.rotation as int),
        inh_direct(inh_view(inh)) ==> page_view(r) == leaf_page(dict@, inh_view(inh)),
{
    let resources = match &inh.resources {
        Some(o) => match file.resolve(o).as_dict() {
            Some(d) => d.clone(),
            None => Dict::new(),
        },
        None => Dict::new(),
    };
    PageNode {
        dict: dict.clone(),
        resources,
        media_boxes: inh.media_boxes,
        crop_boxes: inh.crop_boxes,
        rotation: rotation_of(inh.rotate),
    }
}

/// Every entry of the walk's output is a page the model accepts.
pub open spec fn well_formed_pages(pages: Seq<PageNode>) -> bool {
    &&& pages.len() <= MAX_PAGES
    &&& forall|i: int| 0 <= i < pages.len() ==> quarter_turn(#[trigger] pages[i].rotation as int)
}

/// What a node hands down to its kids, as values.
pub struct InheritedView {
    pub resources: Option<ObjectView>,
    pub media_boxes: Seq<ObjectView>,
    pub crop_boxes: Seq<ObjectView>,
    pub rotate: Option<i64>,
}

/// A page, as values.
pub struct PageView {
    pub dict: Seq<(Seq<char>, ObjectView)>,
    pub resources: Seq<(Seq<char>, ObjectView)>,
    pub media_boxes: Seq<ObjectView>,
    pub crop_boxes: Seq<ObjectView>,
    pub rotation: int,
}

pub open spec fn objects_view(v: Seq<Object>) -> Seq<ObjectView> {
    v.map_values(|o: Object| o@)
}

pub open spec fn page_view(p: PageNode) -> PageView {
    PageView {
        dict: p.dict@,
        resources: p.resources@,
        media_boxes: objects_view(p.media_boxes@),
        crop_boxes: objects_view(p.crop_boxes@),
        rotation: p.rotation as int,
    }
}

pub open spec fn pages_view(ps: Seq<PageNode>) -> Seq<PageView> {
    ps.map_values(|p: PageNode| page_view(p))
}

spec fn inh_view(i: Inherited) -> InheritedView {
    InheritedView {
        resources: crate::lexer::opt_view(i.resources),
        media_boxes: objects_view(i.media_boxes@),
        crop_boxes: objects_view(i.crop_boxes@),
        rotate: i.rotate,
    }
}

/// The entries of a dictionary or a stream's dictionary.
pub open spec fn node_dict(v: ObjectView) -> Option<Seq<(Seq<char>, ObjectView)>> {
    match v {
        ObjectView::Dict(es) => Some(es),
        ObjectView::Stream(es, _) => Some(es),
        _ => None,
    }
}

/// What a node with entries `es` hands down: its own /Resources, its boxes after the
/// inherited ones, and its /Rotate when that is a number.
pub open spec fn spec_inherit(inh: InheritedView, es: Seq<(Seq<char>, ObjectView)>) -> InheritedView {
    InheritedView {
        resources: match dict_lookup(es, "Resources"@) {
            Some(r) => Some(r),
            None => inh.resources,
        },
        media_boxes: match dict_lookup(es, "MediaBox"@) {
            Some(b) => inh.media_boxes.push(b),
            None => inh.media_boxes,
        },
        crop_boxes: match dict_lookup(es, "CropBox"@) {
            Some(b) => inh.crop_boxes.push(b),
            None => inh.crop_boxes,
        },
        rotate: match dict_lookup(es, "Rotate"@) {
            Some(r) => match crate::object::spec_as_int(r) {
                Some(v) => Some(v),
                None => inh.rotate,
            },
            None => inh.rotate,
        },
    }
}

/// The page a leaf with entries `es` and inheritance `inh` (its own included) becomes.
pub open spec fn leaf_page(es: Seq<(Seq<char>, ObjectView)>, inh: InheritedView) -> PageView {
    PageView {
        dict: es,
        resources: match inh.resources {
            Some(o) => match node_dict(o) {
                Some(x) => x,
                None => Seq::empty(),
            },
            None => Seq::empty(),
        },
        media_boxes: inh.media_boxes,
        crop_boxes: inh.crop_boxes,
        rotation: spec_rotation(inh.rotate),
    }
}

/// The node is an internal node of the tree: typed /Pages, or holding a /Kids array.
pub open spec fn is_internal(es: Seq<(Seq<char>, ObjectView)>) -> bool {
    dict_lookup(es, "Type"@) == Some(ObjectView::Name("Pages"@)) || dict_lookup(es, "Kids"@) matches Some(
        ObjectView::Array(_),
    )
}

/// The pages of the subtree at `node` (at `depth`, inheriting `inh`) appended to `acc`, in
/// document order, and whether the walk stopped: at the page limit or below the deepest level.
pub open spec fn spec_walk(node: ObjectView, inh: InheritedView, depth: int, acc: Seq<PageView>) -> (
    Seq<PageView>,
    bool,
)
    decreases MAX_DEPTH + 2 - depth, 0int, 0int,
{
    if acc.len() >= MAX_PAGES || depth > MAX_DEPTH {
        (acc, true)
    } else {
        match node_dict(node) {
            None => (acc, false),
            Some(es) => {
                let inh2 = spec_inherit(inh, es);
                if is_internal(es) {
                    match dict_lookup(es, "Kids"@) {
                        Some(ObjectView::Array(items)) => spec_walk_items(items, 0, inh2, depth + 1, acc),
                        _ => (acc, false),
                    }
                } else {
                    (acc.push(leaf_page(es, inh2)), false)
                }
            },
        }
    }
}

/// The kids from the `i`-th on, walked in order until one stops the walk.
pub open spec fn spec_walk_items(
    items: Seq<ObjectView>,
    i: int,
    inh: InheritedView,
    depth: int,
    acc: Seq<PageView>,
) -> (Seq<PageView>, bool)
    decreases MAX_DEPTH + 2 - depth, 1int, items.len() - i,
{
    if i < 0 || i >= items.len() {
        (acc, false)
    } else {
        let (acc2, stop) = spec_walk(items[i], inh, depth, acc);
        if stop {
            (acc2, true)
        } else {
            spec_walk_items(items, i + 1, inh, depth, acc2)
        }
    }
}

/// The node is typed /Pages.
fn typed_pages(dict: &Dict) -> (r: bool)
    ensures
        r == (dict_lookup(dict@, "Type"@) == Some(ObjectView::Name("Pages"@))),
{
    match dict.get("Type") {
        Some(t) => match t.as_name() {
            Some(n) => crate::text::str_eq(n, "Pages"),
            None => false,
        },
        None => false,
    }
}

/// Whether the node with dictionary `dict` is internal, and its /Kids, resolved. Anything
/// with a /Kids array counts as internal: some producers mislabel /Type.
fn node_kind(file: &PdfFile, dict: &Dict) -> (r: (bool, Option<Object>))
    ensures
        crate::parser::ref_free(ObjectView::Dict(dict@)) ==> r.0 == is_internal(dict@)
            && crate::lexer::opt_view(r.1) == dict_lookup(dict@, "Kids"@),
{
    proof {
        if crate::parser::ref_free(ObjectView::Dict(dict@)) {
            crate::parser::lemma_lookup_ref_free(dict@, "Kids"@);
        }
    }
    let is_pages = typed_pages(dict);
    let kids = match dict.get("Kids") {
        Some(k) => Some(file.resolve(k)),
        None => None,
    };
    let kids_array = match &kids {
        Some(Object::Array(items)) => true,
        _ => false,
    };
    (is_pages || kids_array, kids)
}

/// The values of the kids of a node.
pub open spec fn kids_view(items: Seq<Object>) -> Seq<ObjectView> {
    Seq::new(items.len(), |i: int| items[i]@)
}

/// Walks the kids `items` (at `depth`) in order, appending their leaves to `out`, until one
/// of them stops the walk.
fn walk_kids(
    file: &PdfFile,
    items: &Vec<Object>,
    inh: &Inherited,
    depth: usize,
    visited: &mut HashSet<u32>,
    out: &mut Vec<PageNode>,
) -> (stop: bool)
    requires
        1 <= depth <= MAX_DEPTH + 1,
        well_formed_pages(old(out)@),
    ensures
        well_formed_pages(final(out)@),
        final(out)@.len() >= old(out)@.len(),
        final(out)@.subrange(0, old(out)@.len() as int) == old(out)@,
        crate::parser::ref_free(ObjectView::Array(kids_view(items@))) && inh_direct(inh_view(*inh))
            ==> (pages_view(final(out)@), stop) == spec_walk_items(
            kids_view(items@),
            0,
            inh_view(*inh),
            depth as int,
            pages_view(old(out)@),
        ),
    decreases MAX_DEPTH + 1 - depth, 1int,
{
    let ghost start = out@;
    let ghost iv = kids_view(items@);
    let ghost inh2 = inh_view(*inh);
    let ghost direct = crate::parser::ref_free(ObjectView::Array(iv)) && inh_direct(inh2);
    let mut i: usize = 0;
    while i < items.len()
        invariant
            1 <= depth <= MAX_DEPTH + 1,
            i <= items@.len(),
            start == old(out)@,
            well_formed_pages(out@),
            out@.len() >= start.len(),
            out@.subrange(0, start.len() as int) == start,
            iv == kids_view(items@),
            inh2 == inh_view(*inh),
            direct == (crate::parser::ref_free(ObjectView::Array(iv)) && inh_direct(inh2)),
            direct ==> spec_walk_items(iv, 0, inh2, depth as int, pages_view(start))
                == spec_walk_items(iv, i as int, inh2, depth as int, pages_view(out@)),
        decreases items@.len() - i,
    {
        let ghost before = out@;
        proof {
            if direct {
                crate::parser::lemma_ref_free_item(iv, i as int);
            }
        }
        let stop = walk(file, &items[i], inh, depth, visited, out);
        assert(out@.subrange(0, start.len() as int) =~= before.subrange(0, start.len() as int));
        if stop {
            return true;
        }
        i = i + 1;
    }
    false
}

/// Walks the subtree at `node_ref` in document order, appending its leaves to `out`. Returns
/// true when the walk must stop altogether: the page limit was reached or a node lies deeper
/// than [`MAX_DEPTH`].
#[verifier::rlimit(60)]
#[verifier::spinoff_prover]
fn walk(
    file: &PdfFile,
    node_ref: &Object,
    inherited: &Inherited,
    depth: usize,
    visited: &mut HashSet<u32>,
    out: &mut Vec<PageNode>,
) -> (stop: bool)
    requires
        depth <= MAX_DEPTH + 1,
        well_formed_pages(old(out)@),
    ensures
        well_formed_pages(final(out)@),
        final(out)@.len() >= old(out)@.len(),
        final(out)@.subrange(0, old(out)@.len() as int) == old(out)@,
        crate::parser::ref_free(node_ref@) && inh_direct(inh_view(*inherited)) ==> (pages_view(
            final(out)@,
        ), stop) == spec_walk(node_ref@, inh_view(*inherited), depth as int, pages_view(old(out)@)),
    decreases MAX_DEPTH + 1 - depth, 0int,
{
    if out.len() >= MAX_PAGES || depth > MAX_DEPTH {
        return true;
    }
    // Cycle guard keyed on object identity where available.
    if let Object::Ref(r) = node_ref {
        if !visited.insert(r.num) {
            return false;
        }
    }
    let node = file.resolve(node_ref);
    let dict = match node.as_dict() {
        Some(d) => d,
        None => {
            return false;
        },
    };
    let ghost es = dict@;
    proof {
        if crate::parser::ref_free(node_ref@) {
            assert(node_dict(node_ref@) == Some(es));
            if let ObjectView::Stream(e2, raw) = node_ref@ {
                crate::parser::lemma_ref_free_stream_dict(e2, raw);
            }
            assert(crate::parser::ref_free(ObjectView::Dict(es)));
            crate::parser::lemma_lookup_ref_free(es, "Kids"@);
        }
    }
    let inh = inherit_from(file, inherited, dict);
    let (internal, kids) = node_kind(file, dict);
    if internal {
        if let Some(Object::Array(items)) = kids {
            proof {
                assert(Object::Array(items)@->Array_0 =~= kids_view(items@));
            }
            return walk_kids(file, &items, &inh, depth + 1, visited, out);
        }
        false
    } else {
        // A leaf.
        let ghost before = out@;
        let page = leaf_of(file, dict, inh);
        out.push(page);
        assert(out@.subrange(0, before.len() as int) =~= before);
        assert(pages_view(out@) =~= pages_view(before).push(page_view(page)));
        false
    }
}

/// Nothing inherited yet: the state at the root of the page tree.
pub open spec fn no_inheritance() -> InheritedView {
    InheritedView { resources: None, media_boxes: Seq::empty(), crop_boxes: Seq::empty(), rotate: None }
}

/// The pages under the page-tree node `pages`, in document order.
pub fn page_tree(file: &PdfFile, pages: &Object) -> (r: Vec<PageNode>)
    ensures
        well_formed_pages(r@),
        crate::parser::ref_free(pages@) ==> pages_view(r@) == spec_walk(
            pages@,
            no_inheritance(),
            0,
            Seq::empty(),
        ).0,
{
    let mut out: Vec<PageNode> = Vec::new();
    let mut visited: HashSet<u32> = HashSet::new();
    let start = Inherited {
        resources: None,
        media_boxes: Vec::new(),
        crop_boxes: Vec::new(),
        rotate: None,
    };
    proof {
        assert(pages_view(out@) =~= Seq::<PageView>::empty());
        assert(inh_view(start) == no_inheritance()) by {
            assert(objects_view(start.media_boxes@) =~= Seq::<ObjectView>::empty());
            assert(objects_view(start.crop_boxes@) =~= Seq::<ObjectView>::empty());
        }
    }
    walk(file, pages, &start, 0, &mut visited, &mut out);
    out
}

/// The pages of the document in order, from the catalog's /Pages tree.
pub fn collect_pages(file: &PdfFile) -> (r: Result<Vec<PageNode>, Error>)
    ensures
        r matches Ok(pages) ==> well_formed_pages(pages@),
        r matches Err(e) ==> e.is_parse_with("catalog missing"@) || e.is_parse_with(
            "catalog has no /Pages"@,
        ),
        match dict_lookup(file@.trailer, "Root"@) {
            None => r matches Err(e) && e.is_parse_with("catalog missing"@),
            Some(o) => exists|v: ObjectView|
                #[trigger] crate::parser::resolves_to(file@, o, v) && match node_dict(v) {
                    None => r matches Err(e) && e.is_parse_with("catalog missing"@),
                    Some(root) => match dict_lookup(root, "Pages"@) {
                        None => r matches Err(e) && e.is_parse_with("catalog has no /Pages"@),
                        Some(p) => r is Ok && (crate::parser::ref_free(p) ==> (r matches Ok(pages)
                            && pages_view(pages@) == spec_walk(p, no_inheritance(), 0, Seq::empty()).0)),
                    },
                },
        },
{
    let root_obj = match file.trailer().get("Root") {
        Some(o) => file.resolve(o),
        None => {
            return Err(Error::Parse("catalog missing".to_owned()));
        },
    };
    let root = match root_obj.as_dict() {
        Some(d) => d,
        None => {
            return Err(Error::Parse("catalog missing".to_owned()));
        },
    };
    let pages_obj = match root.get("Pages") {
        Some(o) => file.resolve(o),
        None => {
            return Err(Error::Parse("catalog has no /Pages".to_owned()));
        },
    };
    let r = Ok(page_tree(file, &pages_obj));
    proof {
        let o = dict_lookup(file@.trailer, "Root"@)->0;
        assert(crate::parser::resolves_to(file@, o, root_obj@));
    }
    r
}

/// The resolved value of `key` in `dict`, unless it is absent or null.
pub fn dict_get(file: &PdfFile, dict: &Dict, key: &str) -> (r: Option<Object>)
    ensures
        r matches Some(o) ==> !(o@ is Null) && !(o@ is Ref),
        match dict_lookup(dict@, key@) {
            Some(v) => !(v is Ref) ==> crate::lexer::opt_view(r) == (if v is Null {
                None::<ObjectView>
            } else {
                Some(v)
            }),
            None => r is None,
        },
{
    match dict.get(key) {
        Some(o) => {
            let v = file.resolve(o);
            if v.is_null() {
                None
            } else {
                Some(v)
            }
        },
        None => None,
    }
}

/// `part` appended to `acc`, after a newline when `acc` already holds something.
pub open spec fn joined(acc: Seq<u8>, part: Seq<u8>) -> Seq<u8> {
    if acc.len() > 0 {
        acc.push(10) + part
    } else {
        part
    }
}

/// The decoded parts joined in order; a part that is `None` (no stream, or one whose filters
/// failed) adds nothing.
pub open spec fn join_parts(parts: Seq<Option<Seq<u8>>>) -> Seq<u8>
    decreases parts.len(),
{
    if parts.len() == 0 {
        Seq::empty()
    } else {
        let acc = join_parts(parts.drop_last());
        match parts.last() {
            Some(d) => joined(acc, d),
            None => acc,
        }
    }
}

/// `part` is what the filters of the stream `v` come to: `Some` of the decoding, or `None`
/// when they fail or `v` is no stream.
pub open spec fn stream_part(v: ObjectView, part: Option<Seq<u8>>) -> bool {
    match v {
        ObjectView::Stream(es, raw) => match part {
            Some(d) => exists|f: Option<Seq<char>>|
                crate::filters::spec_decode(es, raw, crate::filters::Direct)
                    == crate::filters::DecodeOutcome::Done(d, f),
            None => !(crate::filters::spec_decode(es, raw, crate::filters::Direct) is Done),
        },
        _ => part is None,
    }
}

/// A content entry that reads without the file: not a reference, and a stream's dictionary
/// holds none.
pub open spec fn direct_part(v: ObjectView) -> bool {
    &&& !(v is Ref)
    &&& v matches ObjectView::Stream(es, _) ==> crate::parser::ref_free(ObjectView::Dict(es))
}

/// The streams a page's /Contents names: the items of an array, the value itself otherwise.
pub open spec fn content_items(v: ObjectView) -> Seq<ObjectView> {
    match v {
        ObjectView::Array(items) => items,
        ObjectView::Null => Seq::empty(),
        _ => seq![v],
    }
}

/// A page's content streams, decoded and joined with newlines. Streams that are missing or
/// fail to decode are left out.
pub fn page_content(file: &PdfFile, page: &Dict) -> (r: Vec<u8>)
    ensures
        dict_lookup(page@, "Contents"@) is None ==> r@.len() == 0,
        dict_lookup(page@, "Contents"@) matches Some(v) ==> (!(v is Ref) && (forall|i: int|
            0 <= i < content_items(v).len() ==> direct_part(#[trigger] content_items(v)[i])) ==> exists|
            parts: Seq<Option<Seq<u8>>>,
        |
            parts.len() == content_items(v).len() && (forall|i: int|
                0 <= i < parts.len() ==> stream_part(content_items(v)[i], #[trigger] parts[i]))
                && r@ == join_parts(parts)),
{
    let contents = match dict_get(file, page, "Contents") {
        Some(c) => c,
        None => {
            let r: Vec<u8> = Vec::new();
            proof {
                let parts = Seq::<Option<Seq<u8>>>::empty();
                assert(join_parts(parts) =~= r@);
                if dict_lookup(page@, "Contents"@) is Some {
                    let v = dict_lookup(page@, "Contents"@)->0;
                    if !(v is Ref) {
                        assert(v is Null);
                        assert(content_items(v).len() == 0);
                        assert(parts.len() == content_items(v).len() && (forall|i: int|
                            0 <= i < parts.len() ==> stream_part(content_items(v)[i], #[trigger] parts[i]))
                            && r@ == join_parts(parts));
                    }
                }
            }
            return r;
        },
    };
    let mut out: Vec<u8> = Vec::new();
    let ghost items = content_items(contents@);
    let ghost direct = !(contents@ is Ref) && forall|i: int|
        0 <= i < items.len() ==> direct_part(#[trigger] items[i]);
    let ghost mut parts: Seq<Option<Seq<u8>>> = Seq::empty();
    proof {
        assert(join_parts(parts) =~= out@);
    }
    match &contents {
        Object::Array(items_exec) => {
            let mut i: usize = 0;
            while i < items_exec.len()
                invariant
                    i <= items_exec@.len(),
                    items == content_items(contents@),
                    contents@ == Object::Array(*items_exec)@,
                    direct == (!(contents@ is Ref) && forall|k: int|
                        0 <= k < items.len() ==> direct_part(#[trigger] items[k])),
                    direct ==> parts.len() == i && (forall|k: int|
                        0 <= k < i ==> stream_part(items[k], #[trigger] parts[k]))
                        && out@ == join_parts(parts),
                decreases items_exec@.len() - i,
            {
                proof {
                    assert(items[i as int] == items_exec@[i as int]@);
                }
                let ghost before = out@;
                push_stream(file, &items_exec[i], &mut out);
                proof {
                    if direct {
                        assert(direct_part(items[i as int]));
                        let p = choose|p: Option<Seq<u8>>|
                            stream_part(items[i as int], p) && out@ == (match p {
                                Some(d) => joined(before, d),
                                None => before,
                            });
                        let old_parts = parts;
                        parts = parts.push(p);
                        assert(parts.drop_last() =~= old_parts);
                        assert forall|k: int| 0 <= k < i + 1 implies stream_part(
                            items[k],
                            #[trigger] parts[k],
                        ) by {
                            if k < i {
                                assert(parts[k] == old_parts[k]);
                            }
                        }
                    }
                }
                i = i + 1;
            }
        },
        other => {
            let ghost before = out@;
            push_stream(file, other, &mut out);
            proof {
                if direct && !(contents@ is Null) {
                    assert(items[0] == contents@);
                    assert(direct_part(items[0]));
                    let p = choose|p: Option<Seq<u8>>|
                        stream_part(contents@, p) && out@ == (match p {
                            Some(d) => joined(before, d),
                            None => before,
                        });
                    parts = seq![p];
                    assert(parts.drop_last() =~= Seq::<Option<Seq<u8>>>::empty());
                }
            }
        },
    }
    proof {
        if direct {
            assert(parts.len() == items.len() && (forall|k: int|
                0 <= k < parts.len() ==> stream_part(items[k], #[trigger] parts[k])) && out@
                == join_parts(parts));
        }
    }
    out
}

/// Appends `part` to `out`, after a newline when `out` already holds something.
fn append_part(out: &mut Vec<u8>, part: &Vec<u8>)
    ensures
        final(out)@ == joined(old(out)@, part@),
{
    let ghost before = out@;
    if out.len() > 0 {
        out.push(10);
    }
    let ghost mid = out@;
    let mut k: usize = 0;
    while k < part.len()
        invariant
            k <= part@.len(),
            out@ == mid + part@.subrange(0, k as int),
        decreases part@.len() - k,
    {
        out.push(part[k]);
        k = k + 1;
        assert(out@ =~= mid + part@.subrange(0, k as int));
    }
    assert(out@ =~= joined(before, part@));
}

/// Appends the decoded data of the stream `obj` stands for, after a newline when `out`
/// already holds something.
#[verifier::spinoff_prover]
#[verifier::rlimit(40)]
fn push_stream(file: &PdfFile, obj: &Object, out: &mut Vec<u8>)
    ensures
        direct_part(obj@) ==> exists|p: Option<Seq<u8>>|
            stream_part(obj@, p) && final(out)@ == (match p {
                Some(d) => joined(old(out)@, d),
                None => old(out)@,
            }),
{
    let ghost before = out@;
    let resolved = file.resolve(obj);
    if let Some(stream) = resolved.as_stream() {
        let res = file.decode_stream(stream);
        proof {
            if direct_part(obj@) {
                assert(obj@ == ObjectView::Stream(stream.dict@, stream.raw@));
                crate::font::tables::lemma_decode_outcome(stream.dict@, stream.raw@, res);
            }
        }
        if let Ok(decoded) = res {
            append_part(out, &decoded.data);
            proof {
                if direct_part(obj@) {
                    assert(stream_part(obj@, Some(decoded.data@)));
                }
            }
        } else {
            proof {
                if direct_part(obj@) {
                    assert(stream_part(obj@, None::<Seq<u8>>));
                }
            }
        }
    } else {
        proof {
            if direct_part(obj@) {
                assert(stream_part(obj@, None::<Seq<u8>>));
            }
        }
    }
}

} // verus!
