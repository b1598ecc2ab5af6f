//! A self-contained document tree for JSON-like data. Parsed text from
//! either supported format is converted into this shape, and all decoding
//! logic is stated and verified over it.

use vstd::prelude::*;
use crate::text::str_eq;

verus! {

broadcast use vstd::std_specs::vec::group_vec_axioms, vstd::seq::group_seq_axioms;

/// One node of a parsed document. Numbers carry no payload: no modeled field
/// decodes from a number, so only the shape of a number matters.
#[derive(Debug, PartialEq)]
pub enum Node {
    Null,
    Bool(bool),
    Num,
    Str(String),
    Arr(Vec<Node>),
    Obj(Vec<(String, Node)>),
}

/// The mathematical model of a document node.
pub enum JVal {
    Null,
    Bool(bool),
    Num,
    Str(Seq<char>),
    Arr(Seq<JVal>),
    Obj(Seq<(Seq<char>, JVal)>),
}

/// The model of a node: the same tree with every text as a `Seq<char>`.
pub open spec fn node_view(n: Node) -> JVal
    decreases n, 0int,
    via node_view_decreases
{
    match n {
        Node::Null => JVal::Null,
        Node::Bool(b) => JVal::Bool(b),
        Node::Num => JVal::Num,
        Node::Str(s) => JVal::Str(s@),
        Node::Arr(items) => JVal::Arr(items_view(items@, 0)),
        Node::Obj(fields) => JVal::Obj(fields_view(fields@, 0)),
    }
}

/// Models of the elements of `items` from position `i` on.
pub open spec fn items_view(items: Seq<Node>, i: int) -> Seq<JVal>
    decreases items, items.len() - i,
    via items_view_decreases
{
    if 0 <= i < items.len() {
        seq![node_view(items[i])] + items_view(items, i + 1)
    } else {
        Seq::empty()
    }
}

/// Models of the bindings of `fields` from position `i` on.
pub open spec fn fields_view(fields: Seq<(String, Node)>, i: int) -> Seq<(Seq<char>, JVal)>
    decreases fields, fields.len() - i,
    via fields_view_decreases
{
    if 0 <= i < fields.len() {
        seq![(fields[i].0@, node_view(fields[i].1))] + fields_view(fields, i + 1)
    } else {
        Seq::empty()
    }
}

#[via_fn]
proof fn node_view_decreases(n: Node) {
    match n {
        Node::Arr(items) => {
            assert(decreases_to!(n => items));
            assert(decreases_to!(items => items@));
        },
        Node::Obj(fields) => {
            assert(decreases_to!(n => fields));
            assert(decreases_to!(fields => fields@));
        },
        _ => {},
    }
}

#[via_fn]
proof fn items_view_decreases(items: Seq<Node>, i: int) {
    if 0 <= i < items.len() {
        assert(decreases_to!(items => items[i]));
    }
}

#[via_fn]
proof fn fields_view_decreases(fields: Seq<(String, Node)>, i: int) {
    if 0 <= i < fields.len() {
        assert(decreases_to!(fields => fields[i]));
        assert(decreases_to!(fields[i] => fields[i].1));
    }
}

impl DeepView for Node {
    type V = JVal;

    open spec fn deep_view(&self) -> JVal {
        node_view(*self)
    }
}

/// `items_view(items, i)` lists the models of `items[i..]` in order.
pub proof fn lemma_items_view(items: Seq<Node>, i: int)
    requires
        0 <= i <= items.len(),
    ensures
        items_view(items, i).len() == items.len() - i,
        forall|k: int|
            0 <= k < items.len() - i ==> items_view(items, i)[k] == node_view(items[i + k]),
    decreases items.len() - i,
{
    if i < items.len() {
        lemma_items_view(items, i + 1);
        assert forall|k: int|
            0 <= k < items.len() - i implies items_view(items, i)[k] == node_view(
            items[i + k],
        ) by {
            if k > 0 {
                assert(items_view(items, i)[k] == items_view(items, i + 1)[k - 1]);
            }
        }
    }
}

/// `fields_view(fields, i)` lists the models of `fields[i..]` in order.
pub proof fn lemma_fields_view(fields: Seq<(String, Node)>, i: int)
    requires
        0 <= i <= fields.len(),
    ensures
        fields_view(fields, i).len() == fields.len() - i,
        forall|k: int|
            0 <= k < fields.len() - i ==> fields_view(fields, i)[k] == (
            fields[i + k].0@,
            node_view(fields[i + k].1),
            ),
    decreases fields.len() - i,
{
    if i < fields.len() {
        lemma_fields_view(fields, i + 1);
        assert forall|k: int|
            0 <= k < fields.len() - i implies fields_view(fields, i)[k] == (
            fields[i + k].0@,
            node_view(fields[i + k].1),
        ) by {
            if k > 0 {
                assert(fields_view(fields, i)[k] == fields_view(fields, i + 1)[k - 1]);
            }
        }
    }
}

/// Strict lexicographic order on texts by character code. For the ASCII keys
/// the encoder emits this coincides with the byte order of their UTF-8 forms.
pub open spec fn lex_lt(a: Seq<char>, b: Seq<char>) -> bool
    decreases a.len(),
{
    if b.len() == 0 {
        false
    } else if a.len() == 0 {
        true
    } else if (a[0] as u32) < (b[0] as u32) {
        true
    } else if (a[0] as u32) > (b[0] as u32) {
        false
    } else {
        lex_lt(a.skip(1), b.skip(1))
    }
}

/// A document model is canonical when every object lists its keys in strictly
/// ascending order. Canonical documents survive a write-then-parse round trip
/// through the JSON writer, which stores object fields sorted by key.
pub open spec fn canonical(v: JVal) -> bool
    decreases v, 0int,
    via canonical_decreases
{
    match v {
        JVal::Null => true,
        JVal::Bool(_) => true,
        JVal::Num => true,
        JVal::Str(_) => true,
        JVal::Arr(items) => canonical_items(items, 0),
        JVal::Obj(fs) => (forall|j: int|
            0 <= j && j + 1 < fs.len() ==> #[trigger] lex_lt(fs[j].0, fs[j + 1].0))
            && canonical_fields(fs, 0),
    }
}

/// Canonicality of the elements of an array, from position `i` on.
pub open spec fn canonical_items(items: Seq<JVal>, i: int) -> bool
    decreases items, items.len() - i,
    via canonical_items_decreases
{
    if 0 <= i < items.len() {
        canonical(items[i]) && canonical_items(items, i + 1)
    } else {
        true
    }
}

/// Canonicality of the values bound in an object, from position `i` on.
pub open spec fn canonical_fields(fs: Seq<(Seq<char>, JVal)>, i: int) -> bool
    decreases fs, fs.len() - i,
    via canonical_fields_decreases
{
    if 0 <= i < fs.len() {
        canonical(fs[i].1) && canonical_fields(fs, i + 1)
    } else {
        true
    }
}

/// Whether a document model nests containers at most `d` levels deep: a
/// scalar needs one level, an array or object one more than its contents.
/// The JSON reader refuses texts nested beyond a fixed limit, so the writer
/// only promises a round trip for trees of bounded depth.
pub open spec fn depth_le(v: JVal, d: int) -> bool
    decreases v, 0int,
    via depth_le_decreases
{
    match v {
        JVal::Null => 1 <= d,
        JVal::Bool(_) => 1 <= d,
        JVal::Num => 1 <= d,
        JVal::Str(_) => 1 <= d,
        JVal::Arr(items) => 1 <= d && depth_le_items(items, 0, d - 1),
        JVal::Obj(fs) => 1 <= d && depth_le_fields(fs, 0, d - 1),
    }
}

/// Depth bound on the elements of an array, from position `i` on.
pub open spec fn depth_le_items(items: Seq<JVal>, i: int, d: int) -> bool
    decreases items, items.len() - i,
    via depth_le_items_decreases
{
    if 0 <= i < items.len() {
        depth_le(items[i], d) && depth_le_items(items, i + 1, d)
    } else {
        true
    }
}

/// Depth bound on the values bound in an object, from position `i` on.
pub open spec fn depth_le_fields(fs: Seq<(Seq<char>, JVal)>, i: int, d: int) -> bool
    decreases fs, fs.len() - i,
    via depth_le_fields_decreases
{
    if 0 <= i < fs.len() {
        depth_le(fs[i].1, d) && depth_le_fields(fs, i + 1, d)
    } else {
        true
    }
}

#[via_fn]
proof fn depth_le_decreases(v: JVal, d: int) {
    match v {
        JVal::Arr(items) => {
            assert(decreases_to!(v => items));
        },
        JVal::Obj(fs) => {
            assert(decreases_to!(v => fs));
        },
        _ => {},
    }
}

#[via_fn]
proof fn depth_le_items_decreases(items: Seq<JVal>, i: int, d: int) {
    if 0 <= i < items.len() {
        assert(decreases_to!(items => items[i]));
    }
}

#[via_fn]
proof fn depth_le_fields_decreases(fs: Seq<(Seq<char>, JVal)>, i: int, d: int) {
    if 0 <= i < fs.len() {
        assert(decreases_to!(fs => fs[i]));
        assert(decreases_to!(fs[i] => fs[i].1));
    }
}

#[via_fn]
proof fn canonical_decreases(v: JVal) {
    match v {
        JVal::Arr(items) => {
            assert(decreases_to!(v => items));
        },
        JVal::Obj(fs) => {
            assert(decreases_to!(v => fs));
        },
        _ => {},
    }
}

#[via_fn]
proof fn canonical_items_decreases(items: Seq<JVal>, i: int) {
    if 0 <= i < items.len() {
        assert(decreases_to!(items => items[i]));
    }
}

#[via_fn]
proof fn canonical_fields_decreases(fs: Seq<(Seq<char>, JVal)>, i: int) {
    if 0 <= i < fs.len() {
        assert(decreases_to!(fs => fs[i]));
        assert(decreases_to!(fs[i] => fs[i].1));
    }
}

/// First binding of `key` in an object's field list, searching from `i`.
pub open spec fn jv_lookup_from(fields: Seq<(Seq<char>, JVal)>, key: Seq<char>, i: int) -> Option<
    JVal,
>
    decreases fields.len() - i,
{
    if i < 0 || i >= fields.len() {
        None
    } else if fields[i].0 == key {
        Some(fields[i].1)
    } else {
        jv_lookup_from(fields, key, i + 1)
    }
}

/// First binding of `key` in an object's field list.
pub open spec fn jv_lookup(fields: Seq<(Seq<char>, JVal)>, key: Seq<char>) -> Option<JVal> {
    jv_lookup_from(fields, key, 0)
}

proof fn lemma_jv_lookup_at_from(fs: Seq<(Seq<char>, JVal)>, key: Seq<char>, i: int, p: int)
    requires
        0 <= i <= p < fs.len(),
        fs[p].0 == key,
        forall|j: int| i <= j < p ==> (#[trigger] fs[j].0) != key,
    ensures
        jv_lookup_from(fs, key, i) == Some(fs[p].1),
    decreases p - i,
{
    if i < p {
        lemma_jv_lookup_at_from(fs, key, i + 1, p);
    }
}

/// Looking up a key bound at position `p` and nowhere earlier finds exactly
/// that binding.
pub proof fn lemma_jv_lookup_at(fs: Seq<(Seq<char>, JVal)>, key: Seq<char>, p: int)
    requires
        0 <= p < fs.len(),
        fs[p].0 == key,
        forall|j: int| 0 <= j < p ==> (#[trigger] fs[j].0) != key,
    ensures
        jv_lookup(fs, key) == Some(fs[p].1),
{
    lemma_jv_lookup_at_from(fs, key, 0, p);
}

/// Looks up the first binding of `key` in an object's field list.
pub fn obj_get<'a>(fields: &'a Vec<(String, Node)>, key: &str) -> (r: Option<&'a Node>)
    ensures
        match r {
            Some(n) => jv_lookup(fields_view(fields@, 0), key@) == Some(node_view(*n)),
            None => jv_lookup(fields_view(fields@, 0), key@) is None,
        },
{
    let ghost fv = fields_view(fields@, 0);
    proof {
        lemma_fields_view(fields@, 0);
    }
    let mut i: usize = 0;
    while i < fields.len()
        invariant
            fv == fields_view(fields@, 0),
            fv.len() == fields@.len(),
            forall|k: int|
                0 <= k < fields@.len() ==> fv[k] == (fields@[k].0@, node_view(fields@[k].1)),
            i <= fields@.len(),
            jv_lookup_from(fv, key@, 0) == jv_lookup_from(fv, key@, i as int),
        decreases fields@.len() - i,
    {
        if str_eq(fields[i].0.as_str(), key) {
            return Some(&fields[i].1);
        }
        i += 1;
    }
    None
}

} // verus!
