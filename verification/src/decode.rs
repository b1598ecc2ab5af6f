//! Decoding a parsed document into a typed catalog record.
//!
//! Every decoding rule is stated as a spec function over document models
//! (`JVal`) and record models, and each executable decoder is proved to
//! return exactly what its spec function says.

use vstd::prelude::*;
use crate::model::{
    ChannelEntry, ConfigModel, DeclarativeConfig, DecodeError, EntryModel, ImageModel, Property,
    PropertyModel, RelatedImage, Value, ValueModel,
};
use crate::node::{
    fields_view, items_view, jv_lookup, lemma_items_view, node_view, obj_get, JVal, Node,
};

verus! {

broadcast use vstd::std_specs::vec::group_vec_axioms, vstd::seq::group_seq_axioms;

/// The model of a decode result: the payload replaced by its model.
pub open spec fn res_view<T: DeepView>(r: Result<T, DecodeError>) -> Result<
    T::V,
    DecodeError,
> {
    match r {
        Ok(t) => Ok(t.deep_view()),
        Err(e) => Err(e),
    }
}

/// An optional text field: absent or `null` is `None`; a string is itself;
/// any other shape is a type error.
pub open spec fn dec_opt_str(fields: Seq<(Seq<char>, JVal)>, key: Seq<char>) -> Result<
    Option<Seq<char>>,
    DecodeError,
> {
    match jv_lookup(fields, key) {
        Option::None => Ok(Option::None),
        Option::Some(JVal::Null) => Ok(Option::None),
        Option::Some(JVal::Str(s)) => Ok(Option::Some(s)),
        Option::Some(_) => Err(DecodeError::WrongType),
    }
}

/// A required text field: absent is an error, as is any non-string shape.
pub open spec fn dec_req_str(fields: Seq<(Seq<char>, JVal)>, key: Seq<char>) -> Result<
    Seq<char>,
    DecodeError,
> {
    match jv_lookup(fields, key) {
        Option::None => Err(DecodeError::MissingField),
        Option::Some(JVal::Str(s)) => Ok(s),
        Option::Some(_) => Err(DecodeError::WrongType),
    }
}

/// Flexible decoding of a property value: a bare string `s` is broadcast
/// into every field of the structured shape; an object is decoded field by
/// field; every other shape is a type error.
pub open spec fn dec_value(v: JVal) -> Result<ValueModel, DecodeError> {
    match v {
        JVal::Str(s) => Ok(
            ValueModel {
                group: Some(s),
                kind: Some(s),
                version: Some(s),
                package_name: Some(s),
            },
        ),
        JVal::Obj(fs) => dec_value_obj(fs),
        _ => Err(DecodeError::WrongType),
    }
}

/// Field-by-field decoding of a structured property value.
pub open spec fn dec_value_obj(fs: Seq<(Seq<char>, JVal)>) -> Result<ValueModel, DecodeError> {
    match dec_opt_str(fs, "group"@) {
        Err(e) => Err(e),
        Ok(group) => match dec_opt_str(fs, "kind"@) {
            Err(e) => Err(e),
            Ok(kind) => match dec_opt_str(fs, "version"@) {
                Err(e) => Err(e),
                Ok(version) => match dec_opt_str(fs, "packageName"@) {
                    Err(e) => Err(e),
                    Ok(package_name) => Ok(ValueModel { group, kind, version, package_name }),
                },
            },
        },
    }
}

/// Prepends an already-decoded prefix to the outcome of decoding a rest.
pub open spec fn cat_ok<T>(prefix: Seq<T>, r: Result<Seq<T>, DecodeError>) -> Result<
    Seq<T>,
    DecodeError,
> {
    match r {
        Ok(s) => Ok(prefix + s),
        Err(e) => Err(e),
    }
}

/// Growing the decoded prefix one element at a time agrees with `cat_ok`.
proof fn lemma_cat_ok_push<T>(a: Seq<T>, x: T, r: Result<Seq<T>, DecodeError>)
    ensures
        cat_ok(a, cat_ok(seq![x], r)) == cat_ok(a.push(x), r),
{
    match r {
        Ok(s) => {
            assert(a + (seq![x] + s) =~= a.push(x) + s);
        },
        Err(_) => {},
    }
}

/// The elements of an array of strings, from position `i` on; any element of
/// another shape is a type error.
pub open spec fn dec_str_items(items: Seq<JVal>, i: int) -> Result<Seq<Seq<char>>, DecodeError>
    decreases items.len() - i,
{
    if i < 0 || i >= items.len() {
        Ok(Seq::empty())
    } else {
        match items[i] {
            JVal::Str(s) => cat_ok(seq![s], dec_str_items(items, i + 1)),
            _ => Err(DecodeError::WrongType),
        }
    }
}

/// The optional `skips` field: absent or `null` is `None`; an array of
/// strings is itself; anything else is a type error.
pub open spec fn dec_skips(fs: Seq<(Seq<char>, JVal)>) -> Result<
    Option<Seq<Seq<char>>>,
    DecodeError,
> {
    match jv_lookup(fs, "skips"@) {
        Option::None => Ok(Option::None),
        Option::Some(JVal::Null) => Ok(Option::None),
        Option::Some(JVal::Arr(items)) => match dec_str_items(items, 0) {
            Err(e) => Err(e),
            Ok(ss) => Ok(Option::Some(ss)),
        },
        Option::Some(_) => Err(DecodeError::WrongType),
    }
}

/// One channel entry: an object with a required `name` and optional
/// `replaces`, `skips` and `skipRange`.
pub open spec fn dec_entry(v: JVal) -> Result<EntryModel, DecodeError> {
    match v {
        JVal::Obj(fs) => match dec_req_str(fs, "name"@) {
            Err(e) => Err(e),
            Ok(name) => match dec_opt_str(fs, "replaces"@) {
                Err(e) => Err(e),
                Ok(replaces) => match dec_skips(fs) {
                    Err(e) => Err(e),
                    Ok(skips) => match dec_opt_str(fs, "skipRange"@) {
                        Err(e) => Err(e),
                        Ok(skip_range) => Ok(EntryModel { name, replaces, skips, skip_range }),
                    },
                },
            },
        },
        _ => Err(DecodeError::WrongType),
    }
}

/// The channel entries of an array, from position `i` on.
pub open spec fn dec_entry_items(items: Seq<JVal>, i: int) -> Result<Seq<EntryModel>, DecodeError>
    decreases items.len() - i,
{
    if i < 0 || i >= items.len() {
        Ok(Seq::empty())
    } else {
        match dec_entry(items[i]) {
            Err(e) => Err(e),
            Ok(m) => cat_ok(seq![m], dec_entry_items(items, i + 1)),
        }
    }
}

/// The optional `entries` field.
pub open spec fn dec_entries_field(fs: Seq<(Seq<char>, JVal)>) -> Result<
    Option<Seq<EntryModel>>,
    DecodeError,
> {
    match jv_lookup(fs, "entries"@) {
        Option::None => Ok(Option::None),
        Option::Some(JVal::Null) => Ok(Option::None),
        Option::Some(JVal::Arr(items)) => match dec_entry_items(items, 0) {
            Err(e) => Err(e),
            Ok(ms) => Ok(Option::Some(ms)),
        },
        Option::Some(_) => Err(DecodeError::WrongType),
    }
}

/// One property: an object with a required `type` and a required `value`,
/// the latter decoded flexibly.
pub open spec fn dec_property(v: JVal) -> Result<PropertyModel, DecodeError> {
    match v {
        JVal::Obj(fs) => match dec_req_str(fs, "type"@) {
            Err(e) => Err(e),
            Ok(type_prop) => match jv_lookup(fs, "value"@) {
                Option::None => Err(DecodeError::MissingField),
                Option::Some(vv) => match dec_value(vv) {
                    Err(e) => Err(e),
                    Ok(value) => Ok(PropertyModel { type_prop, value }),
                },
            },
        },
        _ => Err(DecodeError::WrongType),
    }
}

/// The properties of an array, from position `i` on.
pub open spec fn dec_property_items(items: Seq<JVal>, i: int) -> Result<
    Seq<PropertyModel>,
    DecodeError,
>
    decreases items.len() - i,
{
    if i < 0 || i >= items.len() {
        Ok(Seq::empty())
    } else {
        match dec_property(items[i]) {
            Err(e) => Err(e),
            Ok(m) => cat_ok(seq![m], dec_property_items(items, i + 1)),
        }
    }
}

/// The optional `properties` field.
pub open spec fn dec_properties_field(fs: Seq<(Seq<char>, JVal)>) -> Result<
    Option<Seq<PropertyModel>>,
    DecodeError,
> {
    match jv_lookup(fs, "properties"@) {
        Option::None => Ok(Option::None),
        Option::Some(JVal::Null) => Ok(Option::None),
        Option::Some(JVal::Arr(items)) => match dec_property_items(items, 0) {
            Err(e) => Err(e),
            Ok(ms) => Ok(Option::Some(ms)),
        },
        Option::Some(_) => Err(DecodeError::WrongType),
    }
}

/// One related image: an object with required `name` and `image`.
pub open spec fn dec_image(v: JVal) -> Result<ImageModel, DecodeError> {
    match v {
        JVal::Obj(fs) => match dec_req_str(fs, "name"@) {
            Err(e) => Err(e),
            Ok(name) => match dec_req_str(fs, "image"@) {
                Err(e) => Err(e),
                Ok(image) => Ok(ImageModel { name, image }),
            },
        },
        _ => Err(DecodeError::WrongType),
    }
}

/// The related images of an array, from position `i` on.
pub open spec fn dec_image_items(items: Seq<JVal>, i: int) -> Result<Seq<ImageModel>, DecodeError>
    decreases items.len() - i,
{
    if i < 0 || i >= items.len() {
        Ok(Seq::empty())
    } else {
        match dec_image(items[i]) {
            Err(e) => Err(e),
            Ok(m) => cat_ok(seq![m], dec_image_items(items, i + 1)),
        }
    }
}

/// The optional `relatedImages` field.
pub open spec fn dec_images_field(fs: Seq<(Seq<char>, JVal)>) -> Result<
    Option<Seq<ImageModel>>,
    DecodeError,
> {
    match jv_lookup(fs, "relatedImages"@) {
        Option::None => Ok(Option::None),
        Option::Some(JVal::Null) => Ok(Option::None),
        Option::Some(JVal::Arr(items)) => match dec_image_items(items, 0) {
            Err(e) => Err(e),
            Ok(ms) => Ok(Option::Some(ms)),
        },
        Option::Some(_) => Err(DecodeError::WrongType),
    }
}

/// A whole record read from an object's fields.
pub open spec fn dec_record_obj(fs: Seq<(Seq<char>, JVal)>) -> Result<ConfigModel, DecodeError> {
    match dec_opt_str(fs, "schema"@) {
        Err(e) => Err(e),
        Ok(schema) => match dec_opt_str(fs, "name"@) {
            Err(e) => Err(e),
            Ok(name) => match dec_opt_str(fs, "defaultChannel"@) {
                Err(e) => Err(e),
                Ok(default_channel) => match dec_opt_str(fs, "description"@) {
                    Err(e) => Err(e),
                    Ok(description) => match dec_opt_str(fs, "package"@) {
                        Err(e) => Err(e),
                        Ok(package) => match dec_entries_field(fs) {
                            Err(e) => Err(e),
                            Ok(entries) => match dec_properties_field(fs) {
                                Err(e) => Err(e),
                                Ok(properties) => match dec_opt_str(fs, "image"@) {
                                    Err(e) => Err(e),
                                    Ok(image) => match dec_images_field(fs) {
                                        Err(e) => Err(e),
                                        Ok(related_images) => Ok(
                                            ConfigModel {
                                                schema,
                                                name,
                                                default_channel,
                                                description,
                                                package,
                                                entries,
                                                properties,
                                                image,
                                                related_images,
                                            },
                                        ),
                                    },
                                },
                            },
                        },
                    },
                },
            },
        },
    }
}

/// A whole record: the document must be an object.
pub open spec fn dec_record(v: JVal) -> Result<ConfigModel, DecodeError> {
    match v {
        JVal::Obj(fs) => dec_record_obj(fs),
        _ => Err(DecodeError::NotAnObject),
    }
}

/// Reads an optional text field of an object.
pub fn get_opt_str(fields: &Vec<(String, Node)>, key: &str) -> (r: Result<
    Option<String>,
    DecodeError,
>)
    ensures
        res_view(r) == dec_opt_str(fields_view(fields@, 0), key@),
{
    match obj_get(fields, key) {
        Option::None => Ok(Option::None),
        Option::Some(n) => match n {
            Node::Null => Ok(Option::None),
            Node::Str(s) => Ok(Option::Some(s.clone())),
            Node::Bool(_) => Err(DecodeError::WrongType),
            Node::Num => Err(DecodeError::WrongType),
            Node::Arr(_) => Err(DecodeError::WrongType),
            Node::Obj(_) => Err(DecodeError::WrongType),
        },
    }
}

/// Reads a required text field of an object.
pub fn get_req_str(fields: &Vec<(String, Node)>, key: &str) -> (r: Result<String, DecodeError>)
    ensures
        res_view(r) == dec_req_str(fields_view(fields@, 0), key@),
{
    match obj_get(fields, key) {
        Option::None => Err(DecodeError::MissingField),
        Option::Some(n) => match n {
            Node::Str(s) => Ok(s.clone()),
            Node::Null => Err(DecodeError::WrongType),
            Node::Bool(_) => Err(DecodeError::WrongType),
            Node::Num => Err(DecodeError::WrongType),
            Node::Arr(_) => Err(DecodeError::WrongType),
            Node::Obj(_) => Err(DecodeError::WrongType),
        },
    }
}

/// Decodes one property value, accepting a bare string or an object.
pub fn decode_value(n: &Node) -> (r: Result<Value, DecodeError>)
    ensures
        res_view(r) == dec_value(node_view(*n)),
{
    match n {
        Node::Str(s) => Ok(
            Value {
                group: Some(s.clone()),
                kind: Some(s.clone()),
                version: Some(s.clone()),
                package_name: Some(s.clone()),
            },
        ),
        Node::Obj(fields) => {
            let group = match get_opt_str(fields, "group") {
                Ok(v) => v,
                Err(e) => return Err(e),
            };
            let kind = match get_opt_str(fields, "kind") {
                Ok(v) => v,
                Err(e) => return Err(e),
            };
            let version = match get_opt_str(fields, "version") {
                Ok(v) => v,
                Err(e) => return Err(e),
            };
            let package_name = match get_opt_str(fields, "packageName") {
                Ok(v) => v,
                Err(e) => return Err(e),
            };
            Ok(Value { group, kind, version, package_name })
        },
        Node::Null => Err(DecodeError::WrongType),
        Node::Bool(_) => Err(DecodeError::WrongType),
        Node::Num => Err(DecodeError::WrongType),
        Node::Arr(_) => Err(DecodeError::WrongType),
    }
}

/// Decodes an array whose elements must all be strings.
pub fn decode_string_list(items: &Vec<Node>) -> (r: Result<Vec<String>, DecodeError>)
    ensures
        res_view(r) == dec_str_items(items_view(items@, 0), 0),
{
    let ghost ivs = items_view(items@, 0);
    proof {
        lemma_items_view(items@, 0);
    }
    let mut out: Vec<String> = Vec::new();
    let mut i: usize = 0;
    proof {
        assert(out.deep_view() =~= Seq::<Seq<char>>::empty());
    }
    while i < items.len()
        invariant
            ivs == items_view(items@, 0),
            ivs.len() == items@.len(),
            forall|k: int| 0 <= k < items@.len() ==> ivs[k] == node_view(items@[k]),
            i <= items@.len(),
            cat_ok(out.deep_view(), dec_str_items(ivs, i as int)) == dec_str_items(ivs, 0),
        decreases items@.len() - i,
    {
        let ghost pre = out.deep_view();
        match &items[i] {
            Node::Str(s) => {
                out.push(s.clone());
                proof {
                    assert(out.deep_view() =~= pre.push(s@));
                    lemma_cat_ok_push(pre, s@, dec_str_items(ivs, i + 1));
                }
            },
            Node::Null => return Err(DecodeError::WrongType),
            Node::Bool(_) => return Err(DecodeError::WrongType),
            Node::Num => return Err(DecodeError::WrongType),
            Node::Arr(_) => return Err(DecodeError::WrongType),
            Node::Obj(_) => return Err(DecodeError::WrongType),
        }
        i += 1;
    }
    proof {
        assert(out.deep_view() + Seq::<Seq<char>>::empty() =~= out.deep_view());
    }
    Ok(out)
}

/// Reads the optional `skips` field of an entry object.
pub fn decode_skips(fields: &Vec<(String, Node)>) -> (r: Result<Option<Vec<String>>, DecodeError>)
    ensures
        res_view(r) == dec_skips(fields_view(fields@, 0)),
{
    match obj_get(fields, "skips") {
        Option::None => Ok(Option::None),
        Option::Some(n) => match n {
            Node::Null => Ok(Option::None),
            Node::Arr(items) => match decode_string_list(items) {
                Ok(v) => Ok(Option::Some(v)),
                Err(e) => Err(e),
            },
            Node::Str(_) => Err(DecodeError::WrongType),
            Node::Bool(_) => Err(DecodeError::WrongType),
            Node::Num => Err(DecodeError::WrongType),
            Node::Obj(_) => Err(DecodeError::WrongType),
        },
    }
}

/// Decodes one channel entry.
pub fn decode_entry(n: &Node) -> (r: Result<ChannelEntry, DecodeError>)
    ensures
        res_view(r) == dec_entry(node_view(*n)),
{
    match n {
        Node::Obj(fields) => {
            let name = match get_req_str(fields, "name") {
                Ok(v) => v,
                Err(e) => return Err(e),
            };
            let replaces = match get_opt_str(fields, "replaces") {
                Ok(v) => v,
                Err(e) => return Err(e),
            };
            let skips = match decode_skips(fields) {
                Ok(v) => v,
                Err(e) => return Err(e),
            };
            let skip_range = match get_opt_str(fields, "skipRange") {
                Ok(v) => v,
                Err(e) => return Err(e),
            };
            Ok(ChannelEntry { name, replaces, skips, skip_range })
        },
        Node::Null => Err(DecodeError::WrongType),
        Node::Bool(_) => Err(DecodeError::WrongType),
        Node::Num => Err(DecodeError::WrongType),
        Node::Str(_) => Err(DecodeError::WrongType),
        Node::Arr(_) => Err(DecodeError::WrongType),
    }
}

/// Decodes an array of channel entries.
pub fn decode_entry_list(items: &Vec<Node>) -> (r: Result<Vec<ChannelEntry>, DecodeError>)
    ensures
        res_view(r) == dec_entry_items(items_view(items@, 0), 0),
{
    let ghost ivs = items_view(items@, 0);
    proof {
        lemma_items_view(items@, 0);
    }
    let mut out: Vec<ChannelEntry> = Vec::new();
    let mut i: usize = 0;
    proof {
        assert(out.deep_view() =~= Seq::<EntryModel>::empty());
    }
    while i < items.len()
        invariant
            ivs == items_view(items@, 0),
            ivs.len() == items@.len(),
            forall|k: int| 0 <= k < items@.len() ==> ivs[k] == node_view(items@[k]),
            i <= items@.len(),
            cat_ok(out.deep_view(), dec_entry_items(ivs, i as int)) == dec_entry_items(ivs, 0),
        decreases items@.len() - i,
    {
        let ghost pre = out.deep_view();
        match decode_entry(&items[i]) {
            Ok(entry) => {
                let ghost m = entry.deep_view();
                out.push(entry);
                proof {
                    assert(out.deep_view() =~= pre.push(m));
                    lemma_cat_ok_push(pre, m, dec_entry_items(ivs, i + 1));
                }
            },
            Err(e) => return Err(e),
        }
        i += 1;
    }
    proof {
        assert(out.deep_view() + Seq::<EntryModel>::empty() =~= out.deep_view());
    }
    Ok(out)
}

/// Reads the optional `entries` field of a record object.
pub fn decode_entries_field(fields: &Vec<(String, Node)>) -> (r: Result<
    Option<Vec<ChannelEntry>>,
    DecodeError,
>)
    ensures
        res_view(r) == dec_entries_field(fields_view(fields@, 0)),
{
    match obj_get(fields, "entries") {
        Option::None => Ok(Option::None),
        Option::Some(n) => match n {
            Node::Null => Ok(Option::None),
            Node::Arr(items) => match decode_entry_list(items) {
                Ok(v) => Ok(Option::Some(v)),
                Err(e) => Err(e),
            },
            Node::Str(_) => Err(DecodeError::WrongType),
            Node::Bool(_) => Err(DecodeError::WrongType),
            Node::Num => Err(DecodeError::WrongType),
            Node::Obj(_) => Err(DecodeError::WrongType),
        },
    }
}

/// Decodes one property.
pub fn decode_property(n: &Node) -> (r: Result<Property, DecodeError>)
    ensures
        res_view(r) == dec_property(node_view(*n)),
{
    match n {
        Node::Obj(fields) => {
            let type_prop = match get_req_str(fields, "type") {
                Ok(v) => v,
                Err(e) => return Err(e),
            };
            let value = match obj_get(fields, "value") {
                Option::None => return Err(DecodeError::MissingField),
                Option::Some(vn) => match decode_value(vn) {
                    Ok(v) => v,
                    Err(e) => return Err(e),
                },
            };
            Ok(Property { type_prop, value })
        },
        Node::Null => Err(DecodeError::WrongType),
        Node::Bool(_) => Err(DecodeError::WrongType),
        Node::Num => Err(DecodeError::WrongType),
        Node::Str(_) => Err(DecodeError::WrongType),
        Node::Arr(_) => Err(DecodeError::WrongType),
    }
}

/// Decodes an array of properties.
pub fn decode_property_list(items: &Vec<Node>) -> (r: Result<Vec<Property>, DecodeError>)
    ensures
        res_view(r) == dec_property_items(items_view(items@, 0), 0),
{
    let ghost ivs = items_view(items@, 0);
    proof {
        lemma_items_view(items@, 0);
    }
    let mut out: Vec<Property> = Vec::new();
    let mut i: usize = 0;
    proof {
        assert(out.deep_view() =~= Seq::<PropertyModel>::empty());
    }
    while i < items.len()
        invariant
            ivs == items_view(items@, 0),
            ivs.len() == items@.len(),
            forall|k: int| 0 <= k < items@.len() ==> ivs[k] == node_view(items@[k]),
            i <= items@.len(),
            cat_ok(out.deep_view(), dec_property_items(ivs, i as int)) == dec_property_items(
                ivs,
                0,
            ),
        decreases items@.len() - i,
    {
        let ghost pre = out.deep_view();
        match decode_property(&items[i]) {
            Ok(p) => {
                let ghost m = p.deep_view();
                out.push(p);
                proof {
                    assert(out.deep_view() =~= pre.push(m));
                    lemma_cat_ok_push(pre, m, dec_property_items(ivs, i + 1));
                }
            },
            Err(e) => return Err(e),
        }
        i += 1;
    }
    proof {
        assert(out.deep_view() + Seq::<PropertyModel>::empty() =~= out.deep_view());
    }
    Ok(out)
}

/// Reads the optional `properties` field of a record object.
pub fn decode_properties_field(fields: &Vec<(String, Node)>) -> (r: Result<
    Option<Vec<Property>>,
    DecodeError,
>)
    ensures
        res_view(r) == dec_properties_field(fields_view(fields@, 0)),
{
    match obj_get(fields, "properties") {
        Option::None => Ok(Option::None),
        Option::Some(n) => match n {
            Node::Null => Ok(Option::None),
            Node::Arr(items) => match decode_property_list(items) {
                Ok(v) => Ok(Option::Some(v)),
                Err(e) => Err(e),
            },
            Node::Str(_) => Err(DecodeError::WrongType),
            Node::Bool(_) => Err(DecodeError::WrongType),
            Node::Num => Err(DecodeError::WrongType),
            Node::Obj(_) => Err(DecodeError::WrongType),
        },
    }
}

/// Decodes one related image.
pub fn decode_image(n: &Node) -> (r: Result<RelatedImage, DecodeError>)
    ensures
        res_view(r) == dec_image(node_view(*n)),
{
    match n {
        Node::Obj(fields) => {
            let name = match get_req_str(fields, "name") {
                Ok(v) => v,
                Err(e) => return Err(e),
            };
            let image = match get_req_str(fields, "image") {
                Ok(v) => v,
                Err(e) => return Err(e),
            };
            Ok(RelatedImage { name, image })
        },
        Node::Null => Err(DecodeError::WrongType),
        Node::Bool(_) => Err(DecodeError::WrongType),
        Node::Num => Err(DecodeError::WrongType),
        Node::Str(_) => Err(DecodeError::WrongType),
        Node::Arr(_) => Err(DecodeError::WrongType),
    }
}

/// Decodes an array of related images.
pub fn decode_image_list(items: &Vec<Node>) -> (r: Result<Vec<RelatedImage>, DecodeError>)
    ensures
        res_view(r) == dec_image_items(items_view(items@, 0), 0),
{
    let ghost ivs = items_view(items@, 0);
    proof {
        lemma_items_view(items@, 0);
    }
    let mut out: Vec<RelatedImage> = Vec::new();
    let mut i: usize = 0;
    proof {
        assert(out.deep_view() =~= Seq::<ImageModel>::empty());
    }
    while i < items.len()
        invariant
            ivs == items_view(items@, 0),
            ivs.len() == items@.len(),
            forall|k: int| 0 <= k < items@.len() ==> ivs[k] == node_view(items@[k]),
            i <= items@.len(),
            cat_ok(out.deep_view(), dec_image_items(ivs, i as int)) == dec_image_items(ivs, 0),
        decreases items@.len() - i,
    {
        let ghost pre = out.deep_view();
        match decode_image(&items[i]) {
            Ok(im) => {
                let ghost m = im.deep_view();
                out.push(im);
                proof {
                    assert(out.deep_view() =~= pre.push(m));
                    lemma_cat_ok_push(pre, m, dec_image_items(ivs, i + 1));
                }
            },
            Err(e) => return Err(e),
        }
        i += 1;
    }
    proof {
        assert(out.deep_view() + Seq::<ImageModel>::empty() =~= out.deep_view());
    }
    Ok(out)
}

/// Reads the optional `relatedImages` field of a record object.
pub fn decode_images_field(fields: &Vec<(String, Node)>) -> (r: Result<
    Option<Vec<RelatedImage>>,
    DecodeError,
>)
    ensures
        res_view(r) == dec_images_field(fields_view(fields@, 0)),
{
    match obj_get(fields, "relatedImages") {
        Option::None => Ok(Option::None),
        Option::Some(n) => match n {
            Node::Null => Ok(Option::None),
            Node::Arr(items) => match decode_image_list(items) {
                Ok(v) => Ok(Option::Some(v)),
                Err(e) => Err(e),
            },
            Node::Str(_) => Err(DecodeError::WrongType),
            Node::Bool(_) => Err(DecodeError::WrongType),
            Node::Num => Err(DecodeError::WrongType),
            Node::Obj(_) => Err(DecodeError::WrongType),
        },
    }
}

/// Decodes a record from an object's fields.
pub fn decode_record_obj(fields: &Vec<(String, Node)>) -> (r: Result<
    DeclarativeConfig,
    DecodeError,
>)
    ensures
        res_view(r) == dec_record_obj(fields_view(fields@, 0)),
{
    let schema = match get_opt_str(fields, "schema") {
        Ok(v) => v,
        Err(e) => return Err(e),
    };
    let name = match get_opt_str(fields, "name") {
        Ok(v) => v,
        Err(e) => return Err(e),
    };
    let default_channel = match get_opt_str(fields, "defaultChannel") {
        Ok(v) => v,
        Err(e) => return Err(e),
    };
    let description = match get_opt_str(fields, "description") {
        Ok(v) => v,
        Err(e) => return Err(e),
    };
    let package = match get_opt_str(fields, "package") {
        Ok(v) => v,
        Err(e) => return Err(e),
    };
    let entries = match decode_entries_field(fields) {
        Ok(v) => v,
        Err(e) => return Err(e),
    };
    let properties = match decode_properties_field(fields) {
        Ok(v) => v,
        Err(e) => return Err(e),
    };
    let image = match get_opt_str(fields, "image") {
        Ok(v) => v,
        Err(e) => return Err(e),
    };
    let related_images = match decode_images_field(fields) {
        Ok(v) => v,
        Err(e) => return Err(e),
    };
    Ok(
        DeclarativeConfig {
            schema,
            name,
            default_channel,
            description,
            package,
            entries,
            properties,
            image,
            related_images,
        },
    )
}

/// Decodes a whole document into a record.
pub fn decode_record(n: &Node) -> (r: Result<DeclarativeConfig, DecodeError>)
    ensures
        res_view(r) == dec_record(node_view(*n)),
{
    match n {
        Node::Obj(fields) => decode_record_obj(fields),
        Node::Null => Err(DecodeError::NotAnObject),
        Node::Bool(_) => Err(DecodeError::NotAnObject),
        Node::Num => Err(DecodeError::NotAnObject),
        Node::Str(_) => Err(DecodeError::NotAnObject),
        Node::Arr(_) => Err(DecodeError::NotAnObject),
    }
}

} // verus!
