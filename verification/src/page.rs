//! Images on a page: what their dictionaries declare, how many colour components their
//! colour space has, and their pixel payload as far as the byte filters take it.

use vstd::prelude::*;

use crate::document::{dict_get, node_dict};
use crate::error::Error;
use crate::filters::{self, Decoded};
use crate::object::{dict_lookup, Dict, ObjRef, Object, ObjectView};
use crate::parser::PdfFile;
use crate::text::str_eq;

verus! {

/// The pixel payload of an image, as far as the byte-level filters could take it.
#[derive(Debug, Clone)]
pub enum ImageData {
    /// Fully decoded samples, row-major, `bits_per_component` per component.
    Raw { bits_per_component: u8, components: u8, data: Vec<u8> },
    /// A codec payload the byte filters do not decode (`DCTDecode`, `JPXDecode`, the fax and
    /// JBIG2 filters); `data` is that codec's own bitstream.
    Encoded { filter: String, data: Vec<u8> },
}

/// The payload a filter chain's result comes to: the codec's bitstream when the chain stopped
/// at an image codec, the samples otherwise.
pub fn image_data(decoded: Decoded, bits_per_component: u8, components: u8) -> (r: ImageData)
    ensures
        match decoded.image_filter {
            Some(f) => r matches ImageData::Encoded { filter, data } && filter@ == f@ && data@
                == decoded.data@,
            None => r matches ImageData::Raw { bits_per_component: b, components: c, data } && b
                == bits_per_component && c == components && data@ == decoded.data@,
        },
{
    match decoded.image_filter {
        Some(filter) => ImageData::Encoded { filter, data: decoded.data },
        None => ImageData::Raw { bits_per_component, components, data: decoded.data },
    }
}

/// How many components a colour space named `n` has when the name alone decides it.
pub open spec fn named_space_components(n: Seq<char>) -> int {
    if n == "DeviceRGB"@ || n == "CalRGB"@ || n == "Lab"@ {
        3
    } else if n == "DeviceCMYK"@ {
        4
    } else {
        1
    }
}

/// How many components a colour space named by an operand has when the name alone decides it:
/// the device spaces and their abbreviations, and `Pattern`, which takes none.
pub open spec fn device_space_components(n: Seq<char>) -> Option<int> {
    if n == "DeviceGray"@ || n == "CalGray"@ || n == "G"@ {
        Some(1)
    } else if n == "DeviceRGB"@ || n == "CalRGB"@ || n == "Lab"@ || n == "RGB"@ {
        Some(3)
    } else if n == "DeviceCMYK"@ || n == "CMYK"@ {
        Some(4)
    } else if n == "Pattern"@ {
        Some(0)
    } else {
        None
    }
}

/// How many components a colour space array with head name `head` has when the head alone
/// decides it.
pub open spec fn head_components(head: Seq<char>) -> Option<int> {
    if head == "Indexed"@ || head == "I"@ || head == "Separation"@ {
        Some(1)
    } else if head == "CalRGB"@ || head == "Lab"@ {
        Some(3)
    } else if head == "CalGray"@ {
        Some(1)
    } else if head == "Pattern"@ {
        Some(0)
    } else {
        None
    }
}

/// The head name of a colour space array, empty when it has none.
pub open spec fn space_head(items: Seq<ObjectView>) -> Seq<char> {
    if items.len() > 0 {
        match items[0] {
            ObjectView::Name(n) => n,
            _ => Seq::empty(),
        }
    } else {
        Seq::empty()
    }
}

/// `N` of an ICC profile stream's dictionary, clamped to 1 through 4; 3 when it has none.
pub open spec fn icc_components(es: Seq<(Seq<char>, ObjectView)>) -> int {
    match dict_lookup(es, "N"@) {
        Some(nv) => match crate::object::spec_as_int(nv) {
            Some(k) => if k < 1 {
                1
            } else if k > 4 {
                4
            } else {
                k as int
            },
            None => 3,
        },
        None => 3,
    }
}

/// How many components the colour space `space` has, when that follows from the object
/// itself; `None` where a reference inside it has to be read through the file (the component
/// array of `DeviceN`, the stream of `ICCBased`). Nesting deeper than four levels counts as one
/// component.
pub open spec fn components_rule(space: ObjectView, depth: nat) -> Option<int>
    decreases 5 - depth,
{
    if depth > 4 {
        Some(1)
    } else {
        match space {
            ObjectView::Name(n) => Some(named_space_components(n)),
            ObjectView::Array(items) => {
                let head = space_head(items);
                if head_components(head) is Some {
                    head_components(head)
                } else if head == "DeviceN"@ {
                    if items.len() < 2 {
                        Some(1)
                    } else {
                        match items[1] {
                            ObjectView::Ref(_, _) => None,
                            ObjectView::Array(names) => Some(names.len() as int),
                            _ => Some(1),
                        }
                    }
                } else if head == "ICCBased"@ {
                    if items.len() < 2 {
                        Some(3)
                    } else {
                        match items[1] {
                            ObjectView::Ref(_, _) => None,
                            ObjectView::Dict(es) => Some(icc_components(es)),
                            ObjectView::Stream(es, _) => Some(icc_components(es)),
                            _ => Some(3),
                        }
                    }
                } else {
                    components_rule(
                        if items.len() > 0 {
                            items[0]
                        } else {
                            ObjectView::Null
                        },
                        depth + 1,
                    )
                }
            },
            _ => Some(1),
        }
    }
}

fn head_components_of(head: &str) -> (r: Option<usize>)
    ensures
        match head_components(head@) {
            Some(k) => r == Some(k as usize),
            None => r is None,
        },
{
    if str_eq(head, "Indexed") || str_eq(head, "I") || str_eq(head, "Separation") {
        // Indexed and separation spaces take a single index or tint value.
        Some(1)
    } else if str_eq(head, "CalRGB") || str_eq(head, "Lab") {
        Some(3)
    } else if str_eq(head, "CalGray") {
        Some(1)
    } else if str_eq(head, "Pattern") {
        Some(0)
    } else {
        None
    }
}

fn named_components_of(n: &str) -> (r: usize)
    ensures
        r == named_space_components(n@),
{
    if str_eq(n, "DeviceRGB") || str_eq(n, "CalRGB") || str_eq(n, "Lab") {
        3
    } else if str_eq(n, "DeviceCMYK") {
        4
    } else {
        1
    }
}

/// The components of a `DeviceN` space: as many as its component-name array has.
fn device_n_components(file: &PdfFile, items: &Vec<Object>) -> (r: usize)
    ensures
        items@.len() < 2 ==> r == 1,
        items@.len() >= 2 ==> match items@[1]@ {
            ObjectView::Ref(_, _) => true,
            ObjectView::Array(names) => r == names.len(),
            _ => r == 1,
        },
{
    if items.len() < 2 {
        return 1;
    }
    match file.resolve(&items[1]).as_array() {
        Some(a) => a.len(),
        None => 1,
    }
}

/// The components of an `ICCBased` space: its profile's `N`.
fn icc_based_components(file: &PdfFile, items: &Vec<Object>) -> (r: usize)
    ensures
        items@.len() < 2 ==> r == 3,
        items@.len() >= 2 ==> match items@[1]@ {
            ObjectView::Ref(_, _) => true,
            ObjectView::Dict(es) => r == icc_components(es),
            ObjectView::Stream(es, _) => r == icc_components(es),
            _ => r == 3,
        },
{
    if items.len() < 2 {
        return 3;
    }
    match file.resolve(&items[1]).as_dict() {
        Some(d) => icc_n(d),
        None => 3,
    }
}

/// `N` of an ICC profile's dictionary, clamped to 1 through 4; 3 when it has none.
fn icc_n(d: &Dict) -> (r: usize)
    ensures
        r == icc_components(d@),
{
    let n = match d.get("N") {
        Some(v) => v.as_int(),
        None => None,
    };
    match n {
        Some(k) => if k < 1 {
            1
        } else if k > 4 {
            4
        } else {
            k as usize
        },
        None => 3,
    }
}

fn name_is(o: &Object, n: &str) -> (r: bool)
    ensures
        r == (o@ == ObjectView::Name(n@)),
{
    match o.as_name() {
        Some(x) => str_eq(x, n),
        None => false,
    }
}

/// How many components the colour space `space` has.
pub fn components_of(file: &PdfFile, space: &Object, depth: usize) -> (r: usize)
    ensures
        components_rule(space@, depth as nat) matches Some(k) ==> r == k,
    decreases 5 - depth,
{
    if depth > 4 {
        return 1;
    }
    match space {
        Object::Name(n) => named_components_of(n.as_str()),
        Object::Array(items) => {
            let head: &str = if items.len() > 0 {
                match items[0].as_name() {
                    Some(h) => h,
                    None => "",
                }
            } else {
                ""
            };
            proof {
                reveal_strlit("");
                assert(""@ =~= Seq::<char>::empty());
                assert(head@ == space_head(space@->Array_0));
            }
            if let Some(k) = head_components_of(head) {
                k
            } else if str_eq(head, "DeviceN") {
                device_n_components(file, items)
            } else if str_eq(head, "ICCBased") {
                icc_based_components(file, items)
            } else {
                let first = if items.len() > 0 {
                    items[0].clone()
                } else {
                    Object::Null
                };
                components_of(file, &first, depth + 1)
            }
        },
        _ => 1,
    }
}

/// How many components the colour space named by the first operand has: a device or
/// calibrated name decides it, other names are looked up in the resources' /ColorSpace.
pub fn colorspace_components(file: &PdfFile, resources: &Dict, operands: &[Object]) -> (r: usize)
    ensures
        operands@.len() == 0 ==> r == 1,
        operands@.len() > 0 && !(operands@[0]@ is Name) ==> r == 1,
        operands@.len() > 0 ==> (operands@[0]@ matches ObjectView::Name(n) ==> match device_space_components(n) {
            Some(k) => r == k,
            None => match dict_lookup(resources@, "ColorSpace"@) {
                None => r == 1,
                Some(ObjectView::Dict(spaces)) => match dict_lookup(spaces, n) {
                    None => r == 1,
                    Some(space) => !(space is Ref) && components_rule(space, 0) is Some ==> r
                        == components_rule(space, 0)->0,
                },
                Some(v) => !(v is Ref) && node_dict(v) is None ==> r == 1,
            },
        }),
{
    if operands.len() == 0 {
        return 1;
    }
    let name = match operands[0].as_name() {
        Some(n) => n,
        None => {
            return 1;
        },
    };
    match device_components(name) {
        Some(k) => k,
        None => resource_space_components(file, resources, name),
    }
}

/// The component count the name alone decides, as [`device_space_components`] says.
fn device_components(name: &str) -> (r: Option<usize>)
    ensures
        match device_space_components(name@) {
            Some(k) => r == Some(k as usize),
            None => r is None,
        },
{
    if str_eq(name, "DeviceGray") || str_eq(name, "CalGray") || str_eq(name, "G") {
        Some(1)
    } else if str_eq(name, "DeviceRGB") || str_eq(name, "CalRGB") || str_eq(name, "Lab") || str_eq(
        name,
        "RGB",
    ) {
        Some(3)
    } else if str_eq(name, "DeviceCMYK") || str_eq(name, "CMYK") {
        Some(4)
    } else if str_eq(name, "Pattern") {
        Some(0)
    } else {
        None
    }
}

/// The component count of the colour space that the resources' /ColorSpace names `name`; one
/// when there is none.
#[verifier::rlimit(40)]
fn resource_space_components(file: &PdfFile, resources: &Dict, name: &str) -> (r: usize)
    ensures
        match dict_lookup(resources@, "ColorSpace"@) {
            None => r == 1,
            Some(ObjectView::Dict(spaces)) => match dict_lookup(spaces, name@) {
                None => r == 1,
                Some(space) => !(space is Ref) && components_rule(space, 0) is Some ==> r
                    == components_rule(space, 0)->0,
            },
            Some(v) => !(v is Ref) && node_dict(v) is None ==> r == 1,
        },
{
    // A named space resolves through the resource dictionary.
    let space = match dict_get(file, resources, "ColorSpace") {
        Some(o) => match o.as_dict() {
            Some(d) => match d.get(name) {
                Some(s) => file.resolve(s),
                None => {
                    return 1;
                },
            },
            None => {
                return 1;
            },
        },
        None => {
            return 1;
        },
    };
    components_of(file, &space, 0)
}

/// What an image dictionary declares, known without touching the pixels.
#[derive(Debug, Clone, Copy, PartialEq, Eq)]
pub struct ImageHeader {
    pub width: u32,
    pub height: u32,
    /// True for a stencil mask (`/ImageMask`), which paints the fill colour through 1-bit data.
    pub is_mask: bool,
    pub bits_per_component: u8,
    pub components: u8,
}

/// The entry `key` is absent or not a reference.
pub open spec fn direct_key(es: Seq<(Seq<char>, ObjectView)>, key: Seq<char>) -> bool {
    dict_lookup(es, key) matches Some(o) ==> !(o is Ref)
}

/// An entry read as an integer (reals truncated); none when absent or not a number.
pub open spec fn entry_int(es: Seq<(Seq<char>, ObjectView)>, key: Seq<char>) -> Option<i64> {
    match dict_lookup(es, key) {
        Some(o) => crate::object::spec_as_int(o),
        None => None,
    }
}

/// A pixel dimension: negative or absent is zero, larger values keep their low 32 bits.
pub open spec fn spec_dimension(v: Option<i64>) -> u32 {
    match v {
        Some(i) => if i < 0 {
            0
        } else {
            i as u32
        },
        None => 0,
    }
}

/// Bits per component: the entry clamped to `1..=16`; one for a mask and eight otherwise when
/// absent.
pub open spec fn spec_bpc(raw: Option<i64>, is_mask: bool) -> u8 {
    let v: i64 = match raw {
        Some(b) => b,
        None => if is_mask {
            1
        } else {
            8
        },
    };
    if v < 1 {
        1
    } else if v > 16 {
        16
    } else {
        v as u8
    }
}

/// The entries an image header is read from are all absent or direct.
pub open spec fn basics_direct(es: Seq<(Seq<char>, ObjectView)>) -> bool {
    &&& direct_key(es, "Width"@)
    &&& direct_key(es, "Height"@)
    &&& direct_key(es, "ImageMask"@)
    &&& direct_key(es, "BitsPerComponent"@)
}

/// The header an image dictionary declares before its colour space is counted; none when it
/// has no pixels.
pub open spec fn spec_header_basics(es: Seq<(Seq<char>, ObjectView)>) -> Option<ImageHeader> {
    let width = spec_dimension(entry_int(es, "Width"@));
    let height = spec_dimension(entry_int(es, "Height"@));
    let is_mask = match dict_lookup(es, "ImageMask"@) {
        Some(ObjectView::Bool(b)) => b,
        _ => false,
    };
    if width == 0 || height == 0 {
        None
    } else {
        Some(
            ImageHeader {
                width,
                height,
                is_mask,
                bits_per_component: spec_bpc(entry_int(es, "BitsPerComponent"@), is_mask),
                components: 1,
            },
        )
    }
}

/// Two headers agree on everything but the component count.
pub open spec fn same_basics(h: ImageHeader, b: ImageHeader) -> bool {
    h.width == b.width && h.height == b.height && h.is_mask == b.is_mask && h.bits_per_component
        == b.bits_per_component
}

/// The colour space entry of an image dictionary; null when absent.
pub open spec fn space_entry(es: Seq<(Seq<char>, ObjectView)>) -> ObjectView {
    match dict_lookup(es, "ColorSpace"@) {
        Some(o) => o,
        None => ObjectView::Null,
    }
}

/// The component count an image XObject declares: mask images have one; otherwise the colour
/// space's count, at least one, in a byte.
pub open spec fn xobject_components(es: Seq<(Seq<char>, ObjectView)>, is_mask: bool) -> Option<u8> {
    if is_mask {
        Some(1)
    } else {
        match components_rule(space_entry(es), 0) {
            Some(k) => Some((if k < 1 {
                1
            } else {
                k
            }) as u8),
            None => None,
        }
    }
}

/// The colour-space count of an inline image: a name goes through the device names and the
/// page's /ColorSpace resources, anything else is counted directly, and absent is one. None
/// where a reference stands in the way.
pub open spec fn inline_space_count(
    es: Seq<(Seq<char>, ObjectView)>,
    resources: Seq<(Seq<char>, ObjectView)>,
) -> Option<int> {
    match dict_lookup(es, "ColorSpace"@) {
        None => Some(1),
        Some(ObjectView::Null) => Some(1),
        Some(ObjectView::Name(n)) => match device_space_components(n) {
            Some(k) => Some(k),
            None => match dict_lookup(resources, "ColorSpace"@) {
                None => Some(1),
                Some(ObjectView::Dict(spaces)) => match dict_lookup(spaces, n) {
                    None => Some(1),
                    Some(space) => if space is Ref {
                        None
                    } else {
                        components_rule(space, 0)
                    },
                },
                Some(v) => if !(v is Ref) && node_dict(v) is None {
                    Some(1)
                } else {
                    None
                },
            },
        },
        Some(o) => components_rule(o, 0),
    }
}

/// The component count an inline image declares: mask images have one; otherwise the colour
/// space's count in a byte, at least one.
pub open spec fn inline_components(
    es: Seq<(Seq<char>, ObjectView)>,
    resources: Seq<(Seq<char>, ObjectView)>,
    is_mask: bool,
) -> Option<u8> {
    if is_mask {
        Some(1)
    } else {
        match inline_space_count(es, resources) {
            Some(k) => {
                let c = k as u8;
                Some(if c < 1 {
                    1
                } else {
                    c
                })
            },
            None => None,
        }
    }
}

/// An integer entry of an image dictionary, read through the file.
fn int_entry(file: &PdfFile, dict: &Dict, key: &str) -> (r: Option<i64>)
    ensures
        dict_lookup(dict@, key@) is None ==> r is None,
        dict_lookup(dict@, key@) matches Some(ObjectView::Int(i)) ==> r == Some(i),
        direct_key(dict@, key@) ==> r == entry_int(dict@, key@),
{
    match dict_get(file, dict, key) {
        Some(o) => o.as_int(),
        None => None,
    }
}

/// A pixel dimension: negative or absent is zero, larger values keep their low 32 bits.
fn dimension(v: Option<i64>) -> (r: u32)
    ensures
        match v {
            Some(i) => (i <= 0 ==> r == 0) && (0 < i <= u32::MAX ==> r == i),
            None => r == 0,
        },
        r == spec_dimension(v),
{
    match v {
        Some(i) => if i < 0 {
            0
        } else {
            #[verifier::truncate]
            (i as u32)
        },
        None => 0,
    }
}

/// The width, height, mask flag and bits per component of an image dictionary; none for an
/// image with no pixels. The component count is left at one.
fn header_basics(file: &PdfFile, dict: &Dict) -> (r: Option<ImageHeader>)
    ensures
        dict_lookup(dict@, "Width"@) is None ==> r is None,
        dict_lookup(dict@, "Height"@) is None ==> r is None,
        r matches Some(h) ==> h.width > 0 && h.height > 0 && 1 <= h.bits_per_component <= 16
            && h.components == 1,
        match (r, dict_lookup(dict@, "Width"@), dict_lookup(dict@, "Height"@)) {
            (Some(h), Some(ObjectView::Int(w)), Some(ObjectView::Int(v))) => (w <= u32::MAX
                ==> h.width == w) && (v <= u32::MAX ==> h.height == v),
            _ => true,
        },
        basics_direct(dict@) ==> r == spec_header_basics(dict@),
{
    let width = dimension(int_entry(file, dict, "Width"));
    let height = dimension(int_entry(file, dict, "Height"));
    if width == 0 || height == 0 {
        return None;
    }
    let is_mask = match dict_get(file, dict, "ImageMask") {
        Some(o) => match o.as_bool() {
            Some(b) => b,
            None => false,
        },
        None => false,
    };
    let bpc_raw = match int_entry(file, dict, "BitsPerComponent") {
        Some(b) => b,
        None => if is_mask {
            1
        } else {
            8
        },
    };
    let bpc: u8 = if bpc_raw < 1 {
        1
    } else if bpc_raw > 16 {
        16
    } else {
        bpc_raw as u8
    };
    Some(ImageHeader { width, height, is_mask, bits_per_component: bpc, components: 1 })
}

/// What an image XObject's dictionary declares; none when it has no pixels. A stencil mask
/// has one component; otherwise the colour space decides, and at least one is counted.
pub fn image_header(file: &PdfFile, dict: &Dict) -> (r: Option<ImageHeader>)
    ensures
        dict_lookup(dict@, "Width"@) is None ==> r is None,
        dict_lookup(dict@, "Height"@) is None ==> r is None,
        r matches Some(h) ==> h.width > 0 && h.height > 0 && 1 <= h.bits_per_component <= 16,
        match r {
            Some(h) => (h.is_mask ==> h.components == 1) && (!h.is_mask ==> match dict_lookup(
                dict@,
                "ColorSpace"@,
            ) {
                Some(ObjectView::Name(n)) => h.components == named_space_components(n),
                _ => true,
            }),
            None => true,
        },
        basics_direct(dict@) && direct_key(dict@, "ColorSpace"@) ==> (r is None <==> spec_header_basics(
            dict@,
        ) is None),
        basics_direct(dict@) && direct_key(dict@, "ColorSpace"@) ==> (r matches Some(h) ==> (
        same_basics(h, spec_header_basics(dict@)->0) && (xobject_components(dict@, h.is_mask) matches Some(
            c,
        ) ==> h.components == c))),
{
    let mut h = match header_basics(file, dict) {
        Some(h) => h,
        None => {
            return None;
        },
    };
    if !h.is_mask {
        h.components = xobject_space_components(file, dict);
    }
    Some(h)
}

/// The component count of an image XObject's colour space, at least one, in a byte.
fn xobject_space_components(file: &PdfFile, dict: &Dict) -> (r: u8)
    ensures
        dict_lookup(dict@, "ColorSpace"@) matches Some(ObjectView::Name(n)) ==> r
            == named_space_components(n),
        direct_key(dict@, "ColorSpace"@) ==> (xobject_components(dict@, false) matches Some(c) ==> r
            == c),
{
    let space = match dict_get(file, dict, "ColorSpace") {
        Some(o) => o,
        None => Object::Null,
    };
    let n = components_of(file, &space, 0);
    let n = if n < 1 {
        1
    } else {
        n
    };
    #[verifier::truncate]
    (n as u8)
}

/// What an inline image's dictionary declares; none when it has no pixels. Its colour space
/// may name an entry in the page's /ColorSpace resources.
pub fn inline_image_header(file: &PdfFile, dict: &Dict, resources: &Dict) -> (r: Option<ImageHeader>)
    ensures
        dict_lookup(dict@, "Width"@) is None ==> r is None,
        dict_lookup(dict@, "Height"@) is None ==> r is None,
        r matches Some(h) ==> h.width > 0 && h.height > 0 && 1 <= h.bits_per_component <= 16
            && h.components >= 1,
        r matches Some(h) ==> (h.is_mask ==> h.components == 1),
        basics_direct(dict@) && direct_key(dict@, "ColorSpace"@) ==> (r is None <==> spec_header_basics(
            dict@,
        ) is None),
        basics_direct(dict@) && direct_key(dict@, "ColorSpace"@) ==> (r matches Some(h) ==> (
        same_basics(h, spec_header_basics(dict@)->0) && (inline_components(
            dict@,
            resources@,
            h.is_mask,
        ) matches Some(c) ==> h.components == c))),
{
    let mut h = match header_basics(file, dict) {
        Some(h) => h,
        None => {
            return None;
        },
    };
    if !h.is_mask {
        h.components = inline_space_components(file, dict, resources);
    }
    Some(h)
}

/// The component count of an inline image's colour space in a byte, at least one.
fn inline_space_components(file: &PdfFile, dict: &Dict, resources: &Dict) -> (r: u8)
    ensures
        r >= 1,
        direct_key(dict@, "ColorSpace"@) ==> (inline_components(dict@, resources@, false) matches Some(
            c,
        ) ==> r == c),
{
    let n: usize = match dict_get(file, dict, "ColorSpace") {
        Some(o) => match o {
            Object::Name(nm) => {
                let ops = vec![Object::Name(nm)];
                colorspace_components(file, resources, ops.as_slice())
            },
            other => components_of(file, &other, 0),
        },
        None => 1,
    };
    let c: u8 = #[verifier::truncate]
    (n as u8);
    if c < 1 {
        1
    } else {
        c
    }
}

/// The byte at `i` of `data`, or 0 past its end.
pub open spec fn byte_or_zero(data: Seq<u8>, i: int) -> u8 {
    if 0 <= i < data.len() {
        data[i]
    } else {
        0
    }
}

/// One image sample of `bits` width, `bit_offset` bits into the row at `row_start`, scaled to a
/// byte: 8- and 16-bit samples are their (first) byte; 1-, 2- and 4-bit samples are the field
/// read most significant bit first, scaled so that the largest value becomes 255; any other
/// width reads as 0.
pub open spec fn spec_sample(data: Seq<u8>, row_start: int, bit_offset: int, bits: int) -> u8 {
    let byte = byte_or_zero(data, row_start + bit_offset / 8);
    if bits == 8 || bits == 16 {
        byte
    } else if bits == 1 || bits == 2 || bits == 4 {
        let shift = 8 - bits - bit_offset % 8;
        let max = (1u8 << (bits as u8)) - 1;
        let field = (byte >> (shift as u8)) & (max as u8);
        (field * 255 / max) as u8
    } else {
        0
    }
}

/// Reads one sample of `bits` width starting `bit_offset` bits into the row at `row_start`,
/// scaled up to a full byte. A small sample lies within one byte.
pub fn sample(data: &[u8], row_start: usize, bit_offset: usize, bits: usize) -> (r: u8)
    requires
        row_start + bit_offset / 8 <= usize::MAX,
        bits == 1 || bits == 2 || bits == 4 ==> bit_offset % bits == 0,
    ensures
        r == spec_sample(data@, row_start as int, bit_offset as int, bits as int),
{
    let at = row_start + bit_offset / 8;
    let byte: u8 = if at < data.len() {
        data[at]
    } else {
        0
    };
    if bits == 8 || bits == 16 {
        byte
    } else if bits == 1 || bits == 2 || bits == 4 {
        let b = bits as u8;
        let off = (bit_offset % 8) as u8;
        assert(off % b == 0) by {
            assert((bit_offset % 8) % bits == 0) by (nonlinear_arith)
                requires
                    bit_offset % bits == 0,
                    bits == 1 || bits == 2 || bits == 4,
            ;
        }
        assert(off + b <= 8) by (bit_vector)
            requires
                off < 8,
                off % b == 0,
                b == 1 || b == 2 || b == 4,
        ;
        let shift: u8 = 8 - b - off;
        let top: u8 = 1u8 << b;
        assert(2 <= top && top <= 16) by (bit_vector)
            requires
                b == 1 || b == 2 || b == 4,
                top == 1u8 << b,
        ;
        let max: u8 = top - 1;
        let field: u8 = (byte >> shift) & max;
        assert(field <= max) by (bit_vector)
            requires
                field == (byte >> shift) & max,
        ;
        let scaled: u16 = (field as u16 * 255) / max as u16;
        assert(scaled == field as int * 255 / (max as int) && scaled <= 255) by (nonlinear_arith)
            requires
                scaled == (field as int * 255) / (max as int),
                field <= max,
                1 <= max,
        ;
        scaled as u8
    } else {
        0
    }
}

/// Decodes the pixels of the image XObject `r`.
#[verifier::spinoff_prover]
#[verifier::rlimit(40)]
pub fn decode_image_object(file: &PdfFile, r: ObjRef, bits_per_component: u8, components: u8) -> (res:
    Result<ImageData, Error>)
    ensures
        !file@.xref.contains_key(r.num) ==> (res matches Err(e) && e.is_parse_with(
            "image object "@ + crate::text::decimal_chars(r.num as nat) + " is not a stream"@,
        )),
        file@.xref.contains_key(r.num) ==> exists|o: ObjectView|
            #[trigger] crate::parser::one_hop(file@, r.num, o) && !(o is Ref) && match o {
                ObjectView::Stream(es, raw) => crate::parser::ref_free(ObjectView::Dict(es)) ==> image_outcome(
                    es,
                    raw,
                    res,
                    bits_per_component,
                    components,
                ),
                _ => res matches Err(e) && e.is_parse_with(
                    "image object "@ + crate::text::decimal_chars(r.num as nat) + " is not a stream"@,
                ),
            },
{
    let obj = file.resolve(&Object::Ref(r));
    let stream = match obj.as_stream() {
        Some(s) => s,
        None => {
            let mut m = crate::text::message_with_number("image object ", r.num as u64);
            crate::text::push_str_chars(&mut m, " is not a stream");
            return Err(Error::Parse(m));
        },
    };
    let decoded = file.decode_stream(stream);
    let ghost dec = decoded;
    let res = match decoded {
        Ok(d) => {
            let ghost data = d.data@;
            let ghost codec: Option<Seq<char>> = if d.image_filter is Some {
                Some(d.image_filter->0@)
            } else {
                None
            };
            let img = image_data(d, bits_per_component, components);
            assert(payload_is(img, data, codec, bits_per_component, components));
            Ok(img)
        },
        Err(e) => Err(e),
    };
    proof {
        if crate::parser::ref_free(ObjectView::Dict(stream.dict@)) {
            assert(obj@ == ObjectView::Stream(stream.dict@, stream.raw@));
            lemma_image_outcome(stream.dict@, stream.raw@, dec, res, bits_per_component, components);
        }
        if file@.xref.contains_key(r.num) {
            assert(crate::parser::one_hop(file@, r.num, obj@));
        }
    }
    res
}

/// The image payload made from a filter chain's result is the chain's outcome.
proof fn lemma_image_outcome(
    es: Seq<(Seq<char>, ObjectView)>,
    raw: Seq<u8>,
    dec: Result<Decoded, Error>,
    res: Result<ImageData, Error>,
    bpc: u8,
    comps: u8,
)
    requires
        filters::outcome_of(dec) == filters::spec_decode(es, raw, filters::Direct),
        dec is Err ==> res is Err,
        dec matches Ok(d) ==> (res matches Ok(img) && payload_is(
            img,
            d.data@,
            filters::outcome_of(dec)->Done_1,
            bpc,
            comps,
        )),
    ensures
        image_outcome(es, raw, res, bpc, comps),
{
    if dec is Ok {
        let d = dec->Ok_0;
        let img = res->Ok_0;
        let codec = filters::outcome_of(dec)->Done_1;
        assert(filters::spec_decode(es, raw, filters::Direct) == filters::DecodeOutcome::Done(d.data@, codec));
        assert(payload_is(img, d.data@, codec, bpc, comps));
    } else {
        assert(!(filters::spec_decode(es, raw, filters::Direct) is Done));
    }
}

/// What an image payload looks like in terms of a filter chain's outcome: the codec and its
/// bytes, or raw samples with the header's layout.
pub open spec fn payload_matches(img: ImageData, data: Seq<u8>, codec: Option<Seq<char>>, header: ImageHeader) -> bool {
    payload_is(img, data, codec, header.bits_per_component, header.components)
}

/// An image payload holding `data`: the codec's bitstream when the filter chain stopped at
/// codec `codec`, raw samples of the given layout otherwise.
pub open spec fn payload_is(img: ImageData, data: Seq<u8>, codec: Option<Seq<char>>, bpc: u8, comps: u8) -> bool {
    match codec {
        Some(f) => img matches ImageData::Encoded { filter, data: d } && filter@ == f && d@ == data,
        None => img matches ImageData::Raw { bits_per_component: b, components: c, data: d } && b
            == bpc && c == comps && d@ == data,
    }
}

/// What decoding the image stream with entries `es` and bytes `raw` gives: a payload of the
/// filter chain's decoding, or an error when the chain fails.
pub open spec fn image_outcome(
    es: Seq<(Seq<char>, ObjectView)>,
    raw: Seq<u8>,
    res: Result<ImageData, Error>,
    bpc: u8,
    comps: u8,
) -> bool {
    match res {
        Ok(img) => exists|data: Seq<u8>, codec: Option<Seq<char>>|
            #![trigger payload_is(img, data, codec, bpc, comps)]
            filters::spec_decode(es, raw, filters::Direct) == filters::DecodeOutcome::Done(data, codec)
                && payload_is(img, data, codec, bpc, comps),
        Err(_) => !(filters::spec_decode(es, raw, filters::Direct) is Done),
    }
}

/// Decodes an inline image's bytes through its own filter chain; none when the chain fails.
pub fn decode_inline_image(file: &PdfFile, dict: &Dict, raw: &[u8], header: &ImageHeader) -> (r:
    Option<ImageData>)
    ensures
        crate::parser::ref_free(ObjectView::Dict(dict@)) ==> match #[trigger] filters::spec_decode(dict@, raw@, filters::Direct) {
                filters::DecodeOutcome::Done(data, codec) => r matches Some(img) && payload_matches(
                    img,
                    data,
                    codec,
                    *header,
                ),
                _ => r is None,
            },
{
    let stream = crate::object::Stream { dict: dict.clone(), raw: vstd::slice::slice_to_vec(raw) };
    match file.decode_stream(&stream) {
        Ok(d) => Some(image_data(d, header.bits_per_component, header.components)),
        Err(_) => None,
    }
}

} // verus!
