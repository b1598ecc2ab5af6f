//! Canonical re-encoding of a record as a document tree. The encoder emits
//! every modeled field (absent ones as `null`), object keys in strictly
//! ascending order, and nothing else: writing a record is a cleansing step
//! that drops whatever the source document held beyond the model.

use vstd::prelude::*;
use crate::model::{
    ChannelEntry, ConfigModel, DeclarativeConfig, EntryModel, ImageModel, Property, PropertyModel,
    RelatedImage, Value, ValueModel,
};
use crate::node::{
    canonical, canonical_fields, canonical_items, depth_le, depth_le_fields, depth_le_items,
    fields_view, items_view, lemma_fields_view, lemma_items_view, lex_lt, node_view, JVal, Node,
};
use vstd::string::StringExecFns;
use crate::format::{json_of, node_to_json};

verus! {

broadcast use vstd::std_specs::vec::group_vec_axioms, vstd::seq::group_seq_axioms, vstd::string::group_string_axioms;

/// An optional text encodes as the text or as `null`.
pub open spec fn enc_opt(o: Option<Seq<char>>) -> JVal {
    match o {
        Option::None => JVal::Null,
        Option::Some(s) => JVal::Str(s),
    }
}

/// An optional list of texts encodes as an array of strings or as `null`.
pub open spec fn enc_skips(o: Option<Seq<Seq<char>>>) -> JVal {
    match o {
        Option::None => JVal::Null,
        Option::Some(ss) => JVal::Arr(Seq::new(ss.len(), |i: int| JVal::Str(ss[i]))),
    }
}

/// A property value encodes as an object naming all four fields.
pub open spec fn enc_value(v: ValueModel) -> JVal {
    JVal::Obj(
        seq![
            ("group"@, enc_opt(v.group)),
            ("kind"@, enc_opt(v.kind)),
            ("packageName"@, enc_opt(v.package_name)),
            ("version"@, enc_opt(v.version)),
        ],
    )
}

/// A channel entry encodes as an object naming all four fields.
pub open spec fn enc_entry(m: EntryModel) -> JVal {
    JVal::Obj(
        seq![
            ("name"@, JVal::Str(m.name)),
            ("replaces"@, enc_opt(m.replaces)),
            ("skipRange"@, enc_opt(m.skip_range)),
            ("skips"@, enc_skips(m.skips)),
        ],
    )
}

/// The optional entry list of a record.
pub open spec fn enc_entries(o: Option<Seq<EntryModel>>) -> JVal {
    match o {
        Option::None => JVal::Null,
        Option::Some(es) => JVal::Arr(Seq::new(es.len(), |i: int| enc_entry(es[i]))),
    }
}

/// A property encodes as an object with its tag and value.
pub open spec fn enc_property(m: PropertyModel) -> JVal {
    JVal::Obj(seq![("type"@, JVal::Str(m.type_prop)), ("value"@, enc_value(m.value))])
}

/// The optional property list of a record.
pub open spec fn enc_properties(o: Option<Seq<PropertyModel>>) -> JVal {
    match o {
        Option::None => JVal::Null,
        Option::Some(ps) => JVal::Arr(Seq::new(ps.len(), |i: int| enc_property(ps[i]))),
    }
}

/// A related image encodes as an object with both texts.
pub open spec fn enc_image(m: ImageModel) -> JVal {
    JVal::Obj(seq![("image"@, JVal::Str(m.image)), ("name"@, JVal::Str(m.name))])
}

/// The optional related-image list of a record.
pub open spec fn enc_images(o: Option<Seq<ImageModel>>) -> JVal {
    match o {
        Option::None => JVal::Null,
        Option::Some(ms) => JVal::Arr(Seq::new(ms.len(), |i: int| enc_image(ms[i]))),
    }
}

/// A whole record encodes as an object naming all nine modeled fields.
pub open spec fn enc_record(m: ConfigModel) -> JVal {
    JVal::Obj(
        seq![
            ("defaultChannel"@, enc_opt(m.default_channel)),
            ("description"@, enc_opt(m.description)),
            ("entries"@, enc_entries(m.entries)),
            ("image"@, enc_opt(m.image)),
            ("name"@, enc_opt(m.name)),
            ("package"@, enc_opt(m.package)),
            ("properties"@, enc_properties(m.properties)),
            ("relatedImages"@, enc_images(m.related_images)),
            ("schema"@, enc_opt(m.schema)),
        ],
    )
}

/// An encoded optional text is canonical.
proof fn lemma_canon_opt(o: Option<Seq<char>>)
    ensures
        canonical(enc_opt(o)),
{
}

/// An array whose elements are all canonical is canonical from `i` on.
proof fn lemma_canon_items_all(items: Seq<JVal>, i: int)
    requires
        0 <= i <= items.len(),
        forall|k: int| i <= k < items.len() ==> canonical(#[trigger] items[k]),
    ensures
        canonical_items(items, i),
    decreases items.len() - i,
{
    if i < items.len() {
        lemma_canon_items_all(items, i + 1);
    }
}

/// An object whose values are all canonical has canonical fields from `i` on.
proof fn lemma_canon_fields_all(fs: Seq<(Seq<char>, JVal)>, i: int)
    requires
        0 <= i <= fs.len(),
        forall|k: int| i <= k < fs.len() ==> canonical(#[trigger] fs[k].1),
    ensures
        canonical_fields(fs, i),
    decreases fs.len() - i,
{
    if i < fs.len() {
        lemma_canon_fields_all(fs, i + 1);
    }
}

/// An encoded optional list of texts is canonical.
proof fn lemma_canon_skips(o: Option<Seq<Seq<char>>>)
    ensures
        canonical(enc_skips(o)),
{
    match o {
        Option::None => {},
        Option::Some(ss) => {
            let items = enc_skips(o)->Arr_0;
            assert forall|k: int| 0 <= k < items.len() implies canonical(#[trigger] items[k]) by {
                assert(items[k] == JVal::Str(ss[k]));
            }
            lemma_canon_items_all(items, 0);
        },
    }
}

/// An encoded property value is canonical.
proof fn lemma_canon_value(v: ValueModel)
    ensures
        canonical(enc_value(v)),
{
    reveal_strlit("group");
    reveal_strlit("kind");
    reveal_strlit("packageName");
    reveal_strlit("version");
    reveal_with_fuel(lex_lt, 3);
    let fs = enc_value(v)->Obj_0;
    assert(lex_lt(fs[0].0, fs[1].0));
    assert(lex_lt(fs[1].0, fs[2].0));
    assert(lex_lt(fs[2].0, fs[3].0));
    assert forall|k: int| 0 <= k < fs.len() implies canonical(#[trigger] fs[k].1) by {
        lemma_canon_opt(v.group);
        lemma_canon_opt(v.kind);
        lemma_canon_opt(v.package_name);
        lemma_canon_opt(v.version);
    }
    lemma_canon_fields_all(fs, 0);
}

/// An encoded channel entry is canonical.
proof fn lemma_canon_entry(m: EntryModel)
    ensures
        canonical(enc_entry(m)),
{
    reveal_strlit("name");
    reveal_strlit("replaces");
    reveal_strlit("skipRange");
    reveal_strlit("skips");
    reveal_with_fuel(lex_lt, 7);
    let fs = enc_entry(m)->Obj_0;
    assert(lex_lt(fs[0].0, fs[1].0));
    assert(lex_lt(fs[1].0, fs[2].0));
    assert(lex_lt(fs[2].0, fs[3].0));
    assert forall|k: int| 0 <= k < fs.len() implies canonical(#[trigger] fs[k].1) by {
        lemma_canon_opt(m.replaces);
        lemma_canon_opt(m.skip_range);
        lemma_canon_skips(m.skips);
    }
    lemma_canon_fields_all(fs, 0);
}

/// An encoded property is canonical.
proof fn lemma_canon_property(m: PropertyModel)
    ensures
        canonical(enc_property(m)),
{
    reveal_strlit("type");
    reveal_strlit("value");
    reveal_with_fuel(lex_lt, 2);
    let fs = enc_property(m)->Obj_0;
    assert(lex_lt(fs[0].0, fs[1].0));
    assert forall|k: int| 0 <= k < fs.len() implies canonical(#[trigger] fs[k].1) by {
        lemma_canon_value(m.value);
    }
    lemma_canon_fields_all(fs, 0);
}

/// An encoded related image is canonical.
proof fn lemma_canon_image(m: ImageModel)
    ensures
        canonical(enc_image(m)),
{
    reveal_strlit("image");
    reveal_strlit("name");
    reveal_with_fuel(lex_lt, 2);
    let fs = enc_image(m)->Obj_0;
    assert(lex_lt(fs[0].0, fs[1].0));
    assert forall|k: int| 0 <= k < fs.len() implies canonical(#[trigger] fs[k].1) by {
    }
    lemma_canon_fields_all(fs, 0);
}

/// The encoding of any record is canonical: its objects list their keys in
/// strictly ascending order, so it survives a write-then-parse round trip
/// through the JSON writer.
pub proof fn lemma_canon_record(m: ConfigModel)
    ensures
        canonical(enc_record(m)),
{
    reveal_strlit("defaultChannel");
    reveal_strlit("description");
    reveal_strlit("entries");
    reveal_strlit("image");
    reveal_strlit("name");
    reveal_strlit("package");
    reveal_strlit("properties");
    reveal_strlit("relatedImages");
    reveal_strlit("schema");
    reveal_with_fuel(lex_lt, 4);
    let fs = enc_record(m)->Obj_0;
    assert(lex_lt(fs[0].0, fs[1].0));
    assert(lex_lt(fs[1].0, fs[2].0));
    assert(lex_lt(fs[2].0, fs[3].0));
    assert(lex_lt(fs[3].0, fs[4].0));
    assert(lex_lt(fs[4].0, fs[5].0));
    assert(lex_lt(fs[5].0, fs[6].0));
    assert(lex_lt(fs[6].0, fs[7].0));
    assert(lex_lt(fs[7].0, fs[8].0));
    assert forall|k: int| 0 <= k < fs.len() implies canonical(#[trigger] fs[k].1) by {
        lemma_canon_opt(m.default_channel);
        lemma_canon_opt(m.description);
        match m.entries {
            Option::None => {},
            Option::Some(es) => {
                let items = enc_entries(m.entries)->Arr_0;
                assert forall|t: int| 0 <= t < items.len() implies canonical(
                    #[trigger] items[t],
                ) by {
                    lemma_canon_entry(es[t]);
                }
                lemma_canon_items_all(items, 0);
            },
        }
        lemma_canon_opt(m.image);
        lemma_canon_opt(m.name);
        lemma_canon_opt(m.package);
        match m.properties {
            Option::None => {},
            Option::Some(ps) => {
                let items = enc_properties(m.properties)->Arr_0;
                assert forall|t: int| 0 <= t < items.len() implies canonical(
                    #[trigger] items[t],
                ) by {
                    lemma_canon_property(ps[t]);
                }
                lemma_canon_items_all(items, 0);
            },
        }
        match m.related_images {
            Option::None => {},
            Option::Some(ms) => {
                let items = enc_images(m.related_images)->Arr_0;
                assert forall|t: int| 0 <= t < items.len() implies canonical(
                    #[trigger] items[t],
                ) by {
                    lemma_canon_image(ms[t]);
                }
                lemma_canon_items_all(items, 0);
            },
        }
        lemma_canon_opt(m.schema);
    }
    lemma_canon_fields_all(fs, 0);
}

/// An array whose elements all stay within `d` does so from `i` on.
proof fn lemma_depth_items_all(items: Seq<JVal>, i: int, d: int)
    requires
        0 <= i <= items.len(),
        forall|k: int| i <= k < items.len() ==> depth_le(#[trigger] items[k], d),
    ensures
        depth_le_items(items, i, d),
    decreases items.len() - i,
{
    if i < items.len() {
        lemma_depth_items_all(items, i + 1, d);
    }
}

/// An object whose values all stay within `d` does so from `i` on.
proof fn lemma_depth_fields_all(fs: Seq<(Seq<char>, JVal)>, i: int, d: int)
    requires
        0 <= i <= fs.len(),
        forall|k: int| i <= k < fs.len() ==> depth_le(#[trigger] fs[k].1, d),
    ensures
        depth_le_fields(fs, i, d),
    decreases fs.len() - i,
{
    if i < fs.len() {
        lemma_depth_fields_all(fs, i + 1, d);
    }
}

/// An encoded optional list of texts nests at most two levels.
proof fn lemma_depth_skips(o: Option<Seq<Seq<char>>>, d: int)
    requires
        d >= 2,
    ensures
        depth_le(enc_skips(o), d),
{
    match o {
        Option::None => {},
        Option::Some(ss) => {
            let items = enc_skips(o)->Arr_0;
            assert forall|k: int| 0 <= k < items.len() implies depth_le(
                #[trigger] items[k],
                d - 1,
            ) by {
                assert(items[k] == JVal::Str(ss[k]));
            }
            lemma_depth_items_all(items, 0, d - 1);
        },
    }
}

/// An encoded property value nests at most two levels.
proof fn lemma_depth_value(v: ValueModel, d: int)
    requires
        d >= 2,
    ensures
        depth_le(enc_value(v), d),
{
    let fs = enc_value(v)->Obj_0;
    assert forall|k: int| 0 <= k < fs.len() implies depth_le(#[trigger] fs[k].1, d - 1) by {}
    lemma_depth_fields_all(fs, 0, d - 1);
}

/// An encoded channel entry nests at most three levels.
proof fn lemma_depth_entry(m: EntryModel, d: int)
    requires
        d >= 3,
    ensures
        depth_le(enc_entry(m), d),
{
    let fs = enc_entry(m)->Obj_0;
    assert forall|k: int| 0 <= k < fs.len() implies depth_le(#[trigger] fs[k].1, d - 1) by {
        lemma_depth_skips(m.skips, d - 1);
    }
    lemma_depth_fields_all(fs, 0, d - 1);
}

/// An encoded property nests at most three levels.
proof fn lemma_depth_property(m: PropertyModel, d: int)
    requires
        d >= 3,
    ensures
        depth_le(enc_property(m), d),
{
    let fs = enc_property(m)->Obj_0;
    assert forall|k: int| 0 <= k < fs.len() implies depth_le(#[trigger] fs[k].1, d - 1) by {
        lemma_depth_value(m.value, d - 1);
    }
    lemma_depth_fields_all(fs, 0, d - 1);
}

/// An encoded related image nests at most two levels.
proof fn lemma_depth_image(m: ImageModel, d: int)
    requires
        d >= 2,
    ensures
        depth_le(enc_image(m), d),
{
    let fs = enc_image(m)->Obj_0;
    assert forall|k: int| 0 <= k < fs.len() implies depth_le(#[trigger] fs[k].1, d - 1) by {}
    lemma_depth_fields_all(fs, 0, d - 1);
}

/// The encoding of any record nests at most five levels, far below the
/// reader's recursion limit: the round-trip promise of the JSON writer
/// applies to every encoded record.
pub proof fn lemma_depth_record(m: ConfigModel, d: int)
    requires
        d >= 5,
    ensures
        depth_le(enc_record(m), d),
{
    let fs = enc_record(m)->Obj_0;
    assert forall|k: int| 0 <= k < fs.len() implies depth_le(#[trigger] fs[k].1, d - 1) by {
        match m.entries {
            Option::None => {},
            Option::Some(es) => {
                let items = enc_entries(m.entries)->Arr_0;
                assert forall|t: int| 0 <= t < items.len() implies depth_le(
                    #[trigger] items[t],
                    d - 2,
                ) by {
                    lemma_depth_entry(es[t], d - 2);
                }
                lemma_depth_items_all(items, 0, d - 2);
            },
        }
        match m.properties {
            Option::None => {},
            Option::Some(ps) => {
                let items = enc_properties(m.properties)->Arr_0;
                assert forall|t: int| 0 <= t < items.len() implies depth_le(
                    #[trigger] items[t],
                    d - 2,
                ) by {
                    lemma_depth_property(ps[t], d - 2);
                }
                lemma_depth_items_all(items, 0, d - 2);
            },
        }
        match m.related_images {
            Option::None => {},
            Option::Some(ms) => {
                let items = enc_images(m.related_images)->Arr_0;
                assert forall|t: int| 0 <= t < items.len() implies depth_le(
                    #[trigger] items[t],
                    d - 2,
                ) by {
                    lemma_depth_image(ms[t], d - 2);
                }
                lemma_depth_items_all(items, 0, d - 2);
            },
        }
    }
    lemma_depth_fields_all(fs, 0, d - 1);
}

/// Builds the node of an optional text field.
fn opt_to_node(o: &Option<String>) -> (n: Node)
    ensures
        node_view(n) == enc_opt(o.deep_view()),
{
    match o {
        Option::None => Node::Null,
        Option::Some(s) => Node::Str(s.clone()),
    }
}

/// Builds the node of an optional list of texts.
fn skips_to_node(o: &Option<Vec<String>>) -> (n: Node)
    ensures
        node_view(n) == enc_skips(o.deep_view()),
{
    match o {
        Option::None => Node::Null,
        Option::Some(ss) => {
            let mut items: Vec<Node> = Vec::new();
            let mut i: usize = 0;
            while i < ss.len()
                invariant
                    i <= ss@.len(),
                    items@.len() == i,
                    forall|k: int|
                        0 <= k < i ==> node_view(items@[k]) == JVal::Str(ss.deep_view()[k]),
                decreases ss@.len() - i,
            {
                items.push(Node::Str(ss[i].clone()));
                i += 1;
            }
            let ghost gitems = items@;
            let n = Node::Arr(items);
            proof {
                lemma_items_view(gitems, 0);
                assert(items_view(gitems, 0) =~~= Seq::new(
                    ss.deep_view().len(),
                    |k: int| JVal::Str(ss.deep_view()[k]),
                ));
            }
            n
        },
    }
}

/// Builds the node of a property value.
pub fn value_to_node(v: &Value) -> (n: Node)
    ensures
        node_view(n) == enc_value(v.deep_view()),
{
    let mut fs: Vec<(String, Node)> = Vec::new();
    fs.push((String::from_str("group"), opt_to_node(&v.group)));
    fs.push((String::from_str("kind"), opt_to_node(&v.kind)));
    fs.push((String::from_str("packageName"), opt_to_node(&v.package_name)));
    fs.push((String::from_str("version"), opt_to_node(&v.version)));
    let ghost gfs = fs@;
    let n = Node::Obj(fs);
    proof {
        lemma_fields_view(gfs, 0);
        assert(fields_view(gfs, 0) =~~= seq![
            ("group"@, enc_opt(v.group.deep_view())),
            ("kind"@, enc_opt(v.kind.deep_view())),
            ("packageName"@, enc_opt(v.package_name.deep_view())),
            ("version"@, enc_opt(v.version.deep_view())),
        ]);
    }
    n
}

/// Builds the node of one channel entry.
pub fn entry_to_node(e: &ChannelEntry) -> (n: Node)
    ensures
        node_view(n) == enc_entry(e.deep_view()),
{
    let mut fs: Vec<(String, Node)> = Vec::new();
    fs.push((String::from_str("name"), Node::Str(e.name.clone())));
    fs.push((String::from_str("replaces"), opt_to_node(&e.replaces)));
    fs.push((String::from_str("skipRange"), opt_to_node(&e.skip_range)));
    fs.push((String::from_str("skips"), skips_to_node(&e.skips)));
    let ghost gfs = fs@;
    let n = Node::Obj(fs);
    proof {
        lemma_fields_view(gfs, 0);
        assert(fields_view(gfs, 0) =~~= seq![
            ("name"@, JVal::Str(e.name@)),
            ("replaces"@, enc_opt(e.replaces.deep_view())),
            ("skipRange"@, enc_opt(e.skip_range.deep_view())),
            ("skips"@, enc_skips(e.skips.deep_view())),
        ]);
    }
    n
}

/// Builds the node of one property.
pub fn property_to_node(p: &Property) -> (n: Node)
    ensures
        node_view(n) == enc_property(p.deep_view()),
{
    let mut fs: Vec<(String, Node)> = Vec::new();
    fs.push((String::from_str("type"), Node::Str(p.type_prop.clone())));
    fs.push((String::from_str("value"), value_to_node(&p.value)));
    let ghost gfs = fs@;
    let n = Node::Obj(fs);
    proof {
        lemma_fields_view(gfs, 0);
        assert(fields_view(gfs, 0) =~~= seq![
            ("type"@, JVal::Str(p.type_prop@)),
            ("value"@, enc_value(p.value.deep_view())),
        ]);
    }
    n
}

/// Builds the node of one related image.
pub fn image_to_node(m: &RelatedImage) -> (n: Node)
    ensures
        node_view(n) == enc_image(m.deep_view()),
{
    let mut fs: Vec<(String, Node)> = Vec::new();
    fs.push((String::from_str("image"), Node::Str(m.image.clone())));
    fs.push((String::from_str("name"), Node::Str(m.name.clone())));
    let ghost gfs = fs@;
    let n = Node::Obj(fs);
    proof {
        lemma_fields_view(gfs, 0);
        assert(fields_view(gfs, 0) =~~= seq![
            ("image"@, JVal::Str(m.image@)),
            ("name"@, JVal::Str(m.name@)),
        ]);
    }
    n
}

/// Builds the node of the optional entry list.
fn entries_to_node(o: &Option<Vec<ChannelEntry>>) -> (n: Node)
    ensures
        node_view(n) == enc_entries(o.deep_view()),
{
    match o {
        Option::None => Node::Null,
        Option::Some(es) => {
            let mut items: Vec<Node> = Vec::new();
            let mut i: usize = 0;
            while i < es.len()
                invariant
                    i <= es@.len(),
                    items@.len() == i,
                    forall|k: int|
                        0 <= k < i ==> node_view(items@[k]) == enc_entry(es.deep_view()[k]),
                decreases es@.len() - i,
            {
                let child = entry_to_node(&es[i]);
                items.push(child);
                i += 1;
            }
            let ghost gitems = items@;
            let n = Node::Arr(items);
            proof {
                lemma_items_view(gitems, 0);
                assert(items_view(gitems, 0) =~~= Seq::new(
                    es.deep_view().len(),
                    |k: int| enc_entry(es.deep_view()[k]),
                ));
            }
            n
        },
    }
}

/// Builds the node of the optional property list.
fn properties_to_node(o: &Option<Vec<Property>>) -> (n: Node)
    ensures
        node_view(n) == enc_properties(o.deep_view()),
{
    match o {
        Option::None => Node::Null,
        Option::Some(ps) => {
            let mut items: Vec<Node> = Vec::new();
            let mut i: usize = 0;
            while i < ps.len()
                invariant
                    i <= ps@.len(),
                    items@.len() == i,
                    forall|k: int|
                        0 <= k < i ==> node_view(items@[k]) == enc_property(ps.deep_view()[k]),
                decreases ps@.len() - i,
            {
                let child = property_to_node(&ps[i]);
                items.push(child);
                i += 1;
            }
            let ghost gitems = items@;
            let n = Node::Arr(items);
            proof {
                lemma_items_view(gitems, 0);
                assert(items_view(gitems, 0) =~~= Seq::new(
                    ps.deep_view().len(),
                    |k: int| enc_property(ps.deep_view()[k]),
                ));
            }
            n
        },
    }
}

/// Builds the node of the optional related-image list.
fn images_to_node(o: &Option<Vec<RelatedImage>>) -> (n: Node)
    ensures
        node_view(n) == enc_images(o.deep_view()),
{
    match o {
        Option::None => Node::Null,
        Option::Some(ms) => {
            let mut items: Vec<Node> = Vec::new();
            let mut i: usize = 0;
            while i < ms.len()
                invariant
                    i <= ms@.len(),
                    items@.len() == i,
                    forall|k: int|
                        0 <= k < i ==> node_view(items@[k]) == enc_image(ms.deep_view()[k]),
                decreases ms@.len() - i,
            {
                let child = image_to_node(&ms[i]);
                items.push(child);
                i += 1;
            }
            let ghost gitems = items@;
            let n = Node::Arr(items);
            proof {
                lemma_items_view(gitems, 0);
                assert(items_view(gitems, 0) =~~= Seq::new(
                    ms.deep_view().len(),
                    |k: int| enc_image(ms.deep_view()[k]),
                ));
            }
            n
        },
    }
}

/// Builds the canonical document tree of a record.
pub fn record_to_node(rec: &DeclarativeConfig) -> (n: Node)
    ensures
        node_view(n) == enc_record(rec.deep_view()),
{
    let mut fs: Vec<(String, Node)> = Vec::new();
    fs.push((String::from_str("defaultChannel"), opt_to_node(&rec.default_channel)));
    fs.push((String::from_str("description"), opt_to_node(&rec.description)));
    fs.push((String::from_str("entries"), entries_to_node(&rec.entries)));
    fs.push((String::from_str("image"), opt_to_node(&rec.image)));
    fs.push((String::from_str("name"), opt_to_node(&rec.name)));
    fs.push((String::from_str("package"), opt_to_node(&rec.package)));
    fs.push((String::from_str("properties"), properties_to_node(&rec.properties)));
    fs.push((String::from_str("relatedImages"), images_to_node(&rec.related_images)));
    fs.push((String::from_str("schema"), opt_to_node(&rec.schema)));
    let ghost gfs = fs@;
    let n = Node::Obj(fs);
    proof {
        lemma_fields_view(gfs, 0);
        assert(fields_view(gfs, 0) =~~= seq![
            ("defaultChannel"@, enc_opt(rec.default_channel.deep_view())),
            ("description"@, enc_opt(rec.description.deep_view())),
            ("entries"@, enc_entries(rec.entries.deep_view())),
            ("image"@, enc_opt(rec.image.deep_view())),
            ("name"@, enc_opt(rec.name.deep_view())),
            ("package"@, enc_opt(rec.package.deep_view())),
            ("properties"@, enc_properties(rec.properties.deep_view())),
            ("relatedImages"@, enc_images(rec.related_images.deep_view())),
            ("schema"@, enc_opt(rec.schema.deep_view())),
        ]);
    }
    n
}

/// Re-encodes a record as its canonical JSON text: parsing the text back
/// yields exactly the record's encoding, nothing more and nothing less, and
/// the text opens with `{`, so the format-sniffing reader takes it as JSON.
pub fn encode_record(rec: &DeclarativeConfig) -> (r: String)
    ensures
        json_of(r@) == Some(enc_record(rec.deep_view())),
        r@.len() >= 1 && r@[0] == '{',
{
    let n = record_to_node(rec);
    proof {
        lemma_canon_record(rec.deep_view());
        lemma_depth_record(rec.deep_view(), 64);
    }
    node_to_json(&n)
}

} // verus!
