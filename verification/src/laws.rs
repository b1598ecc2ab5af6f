//! Laws relating the decoder and the encoder.

use vstd::prelude::*;
use crate::decode::{
    dec_entry, dec_entry_items, dec_image, dec_image_items, dec_property, dec_property_items,
    dec_record, dec_str_items, dec_value,
};
use crate::encode::{
    enc_entries, enc_entry, enc_image, enc_images, enc_opt, enc_properties, enc_property,
    enc_record, enc_skips, enc_value,
};
use crate::model::{ConfigModel, EntryModel, ImageModel, PropertyModel, ValueModel};
use crate::node::{jv_lookup, lemma_jv_lookup_at, JVal};

verus! {

broadcast use vstd::seq::group_seq_axioms, vstd::string::group_string_axioms;

/// Decoding an array of encoded texts gives the texts back.
proof fn lemma_rt_str_items(arr: Seq<JVal>, ss: Seq<Seq<char>>, i: int)
    requires
        0 <= i <= ss.len(),
        arr.len() == ss.len(),
        forall|k: int| 0 <= k < ss.len() ==> arr[k] == JVal::Str(ss[k]),
    ensures
        dec_str_items(arr, i) == Ok::<_, crate::model::DecodeError>(ss.skip(i)),
    decreases ss.len() - i,
{
    if i < ss.len() {
        lemma_rt_str_items(arr, ss, i + 1);
        assert(seq![ss[i]] + ss.skip(i + 1) =~= ss.skip(i));
    } else {
        assert(ss.skip(i) =~= Seq::<Seq<char>>::empty());
    }
}

/// Decoding an encoded property value gives the value back.
proof fn lemma_rt_value(v: ValueModel)
    ensures
        dec_value(enc_value(v)) == Ok::<_, crate::model::DecodeError>(v),
{
    reveal_strlit("group");
    reveal_strlit("kind");
    reveal_strlit("packageName");
    reveal_strlit("version");
    let fs = enc_value(v)->Obj_0;
    assert(fs[0].0 == "group"@);
    assert("group"@.len() == 5);
    assert(fs[1].0 == "kind"@);
    assert("kind"@.len() == 4);
    assert(fs[2].0 == "packageName"@);
    assert("packageName"@.len() == 11);
    assert(fs[3].0 == "version"@);
    assert("version"@.len() == 7);
    lemma_jv_lookup_at(fs, "group"@, 0);
    assert(fs[0].0 != "kind"@);
    lemma_jv_lookup_at(fs, "kind"@, 1);
    assert(fs[0].0 != "packageName"@);
    assert(fs[1].0 != "packageName"@);
    lemma_jv_lookup_at(fs, "packageName"@, 2);
    assert(fs[0].0 != "version"@);
    assert(fs[1].0 != "version"@);
    assert(fs[2].0 != "version"@);
    lemma_jv_lookup_at(fs, "version"@, 3);
}

/// Decoding an encoded channel entry gives the entry back.
proof fn lemma_rt_entry(m: EntryModel)
    ensures
        dec_entry(enc_entry(m)) == Ok::<_, crate::model::DecodeError>(m),
{
    reveal_strlit("name");
    reveal_strlit("replaces");
    reveal_strlit("skipRange");
    reveal_strlit("skips");
    let fs = enc_entry(m)->Obj_0;
    assert(fs[0].0 == "name"@);
    assert("name"@.len() == 4);
    assert(fs[1].0 == "replaces"@);
    assert("replaces"@.len() == 8);
    assert(fs[2].0 == "skipRange"@);
    assert("skipRange"@.len() == 9);
    assert(fs[3].0 == "skips"@);
    assert("skips"@.len() == 5);
    lemma_jv_lookup_at(fs, "name"@, 0);
    assert(fs[0].0 != "replaces"@);
    lemma_jv_lookup_at(fs, "replaces"@, 1);
    assert(fs[0].0 != "skips"@);
    assert(fs[1].0 != "skips"@);
    assert(fs[2].0 != "skips"@);
    lemma_jv_lookup_at(fs, "skips"@, 3);
    assert(fs[0].0 != "skipRange"@);
    assert(fs[1].0 != "skipRange"@);
    lemma_jv_lookup_at(fs, "skipRange"@, 2);
    match m.skips {
        Option::None => {},
        Option::Some(ss) => {
            let arr = enc_skips(m.skips)->Arr_0;
            lemma_rt_str_items(arr, ss, 0);
            assert(ss.skip(0) =~= ss);
        },
    }
}

/// Decoding encoded channel entries gives the entries back.
proof fn lemma_rt_entry_items(arr: Seq<JVal>, es: Seq<EntryModel>, i: int)
    requires
        0 <= i <= es.len(),
        arr.len() == es.len(),
        forall|k: int| 0 <= k < es.len() ==> arr[k] == enc_entry(es[k]),
    ensures
        dec_entry_items(arr, i) == Ok::<_, crate::model::DecodeError>(es.skip(i)),
    decreases es.len() - i,
{
    if i < es.len() {
        lemma_rt_entry(es[i]);
        lemma_rt_entry_items(arr, es, i + 1);
        assert(seq![es[i]] + es.skip(i + 1) =~= es.skip(i));
    } else {
        assert(es.skip(i) =~= Seq::<EntryModel>::empty());
    }
}

/// Decoding an encoded property gives the property back.
proof fn lemma_rt_property(m: PropertyModel)
    ensures
        dec_property(enc_property(m)) == Ok::<_, crate::model::DecodeError>(m),
{
    reveal_strlit("type");
    reveal_strlit("value");
    let fs = enc_property(m)->Obj_0;
    assert(fs[0].0 == "type"@);
    assert("type"@.len() == 4);
    assert(fs[1].0 == "value"@);
    assert("value"@.len() == 5);
    lemma_jv_lookup_at(fs, "type"@, 0);
    assert(fs[0].0 != "value"@);
    lemma_jv_lookup_at(fs, "value"@, 1);
    lemma_rt_value(m.value);
}

/// Decoding encoded properties gives the properties back.
proof fn lemma_rt_property_items(arr: Seq<JVal>, ps: Seq<PropertyModel>, i: int)
    requires
        0 <= i <= ps.len(),
        arr.len() == ps.len(),
        forall|k: int| 0 <= k < ps.len() ==> arr[k] == enc_property(ps[k]),
    ensures
        dec_property_items(arr, i) == Ok::<_, crate::model::DecodeError>(ps.skip(i)),
    decreases ps.len() - i,
{
    if i < ps.len() {
        lemma_rt_property(ps[i]);
        lemma_rt_property_items(arr, ps, i + 1);
        assert(seq![ps[i]] + ps.skip(i + 1) =~= ps.skip(i));
    } else {
        assert(ps.skip(i) =~= Seq::<PropertyModel>::empty());
    }
}

/// Decoding an encoded related image gives the image back.
proof fn lemma_rt_image(m: ImageModel)
    ensures
        dec_image(enc_image(m)) == Ok::<_, crate::model::DecodeError>(m),
{
    reveal_strlit("image");
    reveal_strlit("name");
    let fs = enc_image(m)->Obj_0;
    assert(fs[0].0 == "image"@);
    assert("image"@.len() == 5);
    assert(fs[1].0 == "name"@);
    assert("name"@.len() == 4);
    assert(fs[0].0 != "name"@);
    lemma_jv_lookup_at(fs, "name"@, 1);
    lemma_jv_lookup_at(fs, "image"@, 0);
}

/// Decoding encoded related images gives the images back.
proof fn lemma_rt_image_items(arr: Seq<JVal>, ms: Seq<ImageModel>, i: int)
    requires
        0 <= i <= ms.len(),
        arr.len() == ms.len(),
        forall|k: int| 0 <= k < ms.len() ==> arr[k] == enc_image(ms[k]),
    ensures
        dec_image_items(arr, i) == Ok::<_, crate::model::DecodeError>(ms.skip(i)),
    decreases ms.len() - i,
{
    if i < ms.len() {
        lemma_rt_image(ms[i]);
        lemma_rt_image_items(arr, ms, i + 1);
        assert(seq![ms[i]] + ms.skip(i + 1) =~= ms.skip(i));
    } else {
        assert(ms.skip(i) =~= Seq::<ImageModel>::empty());
    }
}

/// Decode-then-reencode is idempotent on the modeled field set: decoding the
/// canonical encoding of any record model gives exactly that model back. In
/// particular a record decoded from any source document re-encodes to a text
/// that decodes to the same record.
pub proof fn lemma_record_round_trip(m: ConfigModel)
    ensures
        dec_record(enc_record(m)) == Ok::<_, crate::model::DecodeError>(m),
{
    reveal_strlit("defaultChannel");
    reveal_strlit("description");
    reveal_strlit("entries");
    reveal_strlit("image");
    reveal_strlit("name");
    reveal_strlit("package");
    reveal_strlit("properties");
    reveal_strlit("relatedImages");
    reveal_strlit("schema");
    let fs = enc_record(m)->Obj_0;
    assert(fs[0].0 == "defaultChannel"@);
    assert("defaultChannel"@.len() == 14);
    assert(fs[1].0 == "description"@);
    assert("description"@.len() == 11);
    assert(fs[2].0 == "entries"@);
    assert("entries"@.len() == 7);
    assert(fs[3].0 == "image"@);
    assert("image"@.len() == 5);
    assert(fs[4].0 == "name"@);
    assert("name"@.len() == 4);
    assert(fs[5].0 == "package"@);
    assert("package"@.len() == 7);
    assert(fs[6].0 == "properties"@);
    assert("properties"@.len() == 10);
    assert(fs[7].0 == "relatedImages"@);
    assert("relatedImages"@.len() == 13);
    assert(fs[8].0 == "schema"@);
    assert("schema"@.len() == 6);
    assert("entries"@[0] == 'e');
    assert("package"@[0] == 'p');
    assert(fs[0].0 != "schema"@);
    assert(fs[1].0 != "schema"@);
    assert(fs[2].0 != "schema"@);
    assert(fs[3].0 != "schema"@);
    assert(fs[4].0 != "schema"@);
    assert(fs[5].0 != "schema"@);
    assert(fs[6].0 != "schema"@);
    assert(fs[7].0 != "schema"@);
    lemma_jv_lookup_at(fs, "schema"@, 8);
    assert(fs[0].0 != "name"@);
    assert(fs[1].0 != "name"@);
    assert(fs[2].0 != "name"@);
    assert(fs[3].0 != "name"@);
    lemma_jv_lookup_at(fs, "name"@, 4);
    lemma_jv_lookup_at(fs, "defaultChannel"@, 0);
    assert(fs[0].0 != "description"@);
    lemma_jv_lookup_at(fs, "description"@, 1);
    assert(fs[0].0 != "package"@);
    assert(fs[1].0 != "package"@);
    assert(fs[2].0 != "package"@);
    assert(fs[3].0 != "package"@);
    assert(fs[4].0 != "package"@);
    lemma_jv_lookup_at(fs, "package"@, 5);
    assert(fs[0].0 != "entries"@);
    assert(fs[1].0 != "entries"@);
    lemma_jv_lookup_at(fs, "entries"@, 2);
    assert(fs[0].0 != "properties"@);
    assert(fs[1].0 != "properties"@);
    assert(fs[2].0 != "properties"@);
    assert(fs[3].0 != "properties"@);
    assert(fs[4].0 != "properties"@);
    assert(fs[5].0 != "properties"@);
    lemma_jv_lookup_at(fs, "properties"@, 6);
    assert(fs[0].0 != "image"@);
    assert(fs[1].0 != "image"@);
    assert(fs[2].0 != "image"@);
    lemma_jv_lookup_at(fs, "image"@, 3);
    assert(fs[0].0 != "relatedImages"@);
    assert(fs[1].0 != "relatedImages"@);
    assert(fs[2].0 != "relatedImages"@);
    assert(fs[3].0 != "relatedImages"@);
    assert(fs[4].0 != "relatedImages"@);
    assert(fs[5].0 != "relatedImages"@);
    assert(fs[6].0 != "relatedImages"@);
    lemma_jv_lookup_at(fs, "relatedImages"@, 7);
    match m.entries {
        Option::None => {},
        Option::Some(es) => {
            lemma_rt_entry_items(enc_entries(m.entries)->Arr_0, es, 0);
            assert(es.skip(0) =~= es);
        },
    }
    match m.properties {
        Option::None => {},
        Option::Some(ps) => {
            lemma_rt_property_items(enc_properties(m.properties)->Arr_0, ps, 0);
            assert(ps.skip(0) =~= ps);
        },
    }
    match m.related_images {
        Option::None => {},
        Option::Some(ms) => {
            lemma_rt_image_items(enc_images(m.related_images)->Arr_0, ms, 0);
            assert(ms.skip(0) =~= ms);
        },
    }
}

} // verus!
