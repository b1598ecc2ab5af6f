use declcat::index::{index_key, CatalogIndex};
use declcat::model::{DeclarativeConfig, DecodeError, Value};
use declcat::node::Node;
use declcat::normalize::{decode_catalog_text, is_catalog_file, normalize_blob, ChunkOutcome};
use declcat::repair::repair_values;
use declcat::splitter::split_catalog_blob;
use declcat::text::{contains_brace, str_eq};
use declcat::decode::decode_value;
use declcat::encode::encode_record;

fn record(schema: &str, name: &str) -> DeclarativeConfig {
    DeclarativeConfig {
        schema: Some(schema.to_owned()),
        name: Some(name.to_owned()),
        default_channel: None,
        description: None,
        package: None,
        entries: None,
        properties: None,
        image: None,
        related_images: None,
    }
}

#[test]
fn split_two_objects_newline_boundary() {
    let blob = "{\"schema\":\"olm.package\",\"name\":\"pkgA\"}\n{\"schema\":\"olm.channel\",\"name\":\"stable\"}";
    let parts = split_catalog_blob(blob);
    assert_eq!(parts.len(), 2);
    assert_eq!(parts[0], "{\"schema\":\"olm.package\",\"name\":\"pkgA\"}");
    assert_eq!(parts[1], "{\"schema\":\"olm.channel\",\"name\":\"stable\"}");
}

#[test]
fn split_three_objects_newline_boundary() {
    let blob = "{\"name\":\"a\"}\n{\"name\":\"b\"}\n{\"name\":\"c\"}";
    let parts = split_catalog_blob(blob);
    assert_eq!(parts.len(), 3);
    assert_eq!(parts[0], "{\"name\":\"a\"}");
    assert_eq!(parts[1], "{\"name\":\"b\"}");
    assert_eq!(parts[2], "{\"name\":\"c\"}");
}

#[test]
fn split_single_object_is_identity() {
    let blob = "{\"schema\":\"olm.package\",\"name\":\"pkgA\"}";
    let parts = split_catalog_blob(blob);
    assert_eq!(parts.len(), 1);
    assert_eq!(parts[0], blob);
}

#[test]
fn split_falls_back_to_plain_boundary() {
    let blob = "{\"name\":\"a\"}{\"name\":\"b\"}";
    let parts = split_catalog_blob(blob);
    assert_eq!(parts.len(), 2);
    assert_eq!(parts[0], "{\"name\":\"a\"}");
    assert_eq!(parts[1], "{\"name\":\"b\"}");
}

#[test]
fn repair_bare_number() {
    let out = repair_values("{\"type\":\"t\",\"value\": 3.14}");
    assert_eq!(out, "{\"type\":\"t\",\"value\": {\"group\":\"\"}}");
}

#[test]
fn repair_quoted_number() {
    let out = repair_values("{\"value\": \"3.14\"}");
    assert_eq!(out, "{\"value\": {\"group\":\"\"}}");
}

#[test]
fn repair_null() {
    let out = repair_values("{\"value\": null}");
    assert_eq!(out, "{\"value\": {\"group\":\"\"}}");
}

#[test]
fn repair_replaces_every_occurrence() {
    let text = "{\"value\": 1.0} {\"value\": \"2\"} {\"value\": null}";
    let out = repair_values(text);
    assert_eq!(
        out,
        "{\"value\": {\"group\":\"\"}} {\"value\": {\"group\":\"\"}} {\"value\": {\"group\":\"\"}}"
    );
}

#[test]
fn repair_leaves_structured_values_alone() {
    let text = "{\"value\": {\"group\":\"g\",\"kind\":\"k\"}}";
    assert_eq!(repair_values(text), text);
}

#[test]
fn repair_leaves_plain_text_alone() {
    let text = "{\"schema\":\"olm.package\",\"name\":\"pkgA\"}";
    assert_eq!(repair_values(text), text);
}

#[test]
fn flexible_value_decoder_broadcasts_string() {
    let r = decode_value(&Node::Str("foo".to_owned())).expect("a string decodes");
    assert_eq!(
        r,
        Value {
            group: Some("foo".to_owned()),
            kind: Some("foo".to_owned()),
            version: Some("foo".to_owned()),
            package_name: Some("foo".to_owned()),
        }
    );
}

#[test]
fn flexible_value_decoder_through_full_text() {
    let text = "{\"schema\":\"s\",\"name\":\"n\",\"properties\":[{\"type\":\"t\",\"value\":\"foo\"}]}";
    let rec = decode_catalog_text(text).expect("decodes");
    let props = rec.properties.expect("properties present");
    assert_eq!(props.len(), 1);
    assert_eq!(props[0].type_prop, "t");
    assert_eq!(props[0].value.group, Some("foo".to_owned()));
    assert_eq!(props[0].value.kind, Some("foo".to_owned()));
    assert_eq!(props[0].value.version, Some("foo".to_owned()));
    assert_eq!(props[0].value.package_name, Some("foo".to_owned()));
}

#[test]
fn encode_writes_canonical_sorted_json() {
    let rec = record("olm.package", "pkgA");
    let text = encode_record(&rec);
    assert_eq!(
        text,
        "{\"defaultChannel\":null,\"description\":null,\"entries\":null,\"image\":null,\
         \"name\":\"pkgA\",\"package\":null,\"properties\":null,\"relatedImages\":null,\
         \"schema\":\"olm.package\"}"
    );
}

#[test]
fn decode_then_reencode_is_idempotent() {
    let text = "{\"schema\":\"olm.channel\",\"name\":\"stable\",\"package\":\"pkgA\",\
                \"entries\":[{\"name\":\"v1\",\"replaces\":\"v0\",\"skips\":[\"v0a\"],\
                \"skipRange\":\"<1.0\"}]}";
    let first = decode_catalog_text(text).expect("decodes");
    let encoded = encode_record(&first);
    let second = decode_catalog_text(encoded.as_str()).expect("re-decodes");
    assert_eq!(first, second);
    let reencoded = encode_record(&second);
    assert_eq!(encoded, reencoded);
}

#[test]
fn decode_drops_unmodeled_fields() {
    let text = "{\"schema\":\"s\",\"name\":\"n\",\"xyz\":12}";
    let rec = decode_catalog_text(text).expect("decodes");
    let out = encode_record(&rec);
    assert!(!out.contains("xyz"));
    assert!(out.contains("\"name\":\"n\""));
}

#[test]
fn normalize_two_concatenated_objects() {
    let blob = "{\"schema\":\"olm.package\",\"name\":\"pkgA\"}\n{\"schema\":\"olm.channel\",\"name\":\"stable\"}";
    let outs = normalize_blob(blob);
    assert_eq!(outs.len(), 2);
    match &outs[0] {
        ChunkOutcome::Output { name, text } => {
            assert_eq!(name, "pkgA");
            let rec = decode_catalog_text(text.as_str()).expect("output decodes");
            assert_eq!(rec.schema, Some("olm.package".to_owned()));
            assert_eq!(rec.name, Some("pkgA".to_owned()));
        }
        other => panic!("first chunk should produce output, got {:?}", other),
    }
    match &outs[1] {
        ChunkOutcome::Output { name, text } => {
            assert_eq!(name, "stable");
            let rec = decode_catalog_text(text.as_str()).expect("output decodes");
            assert_eq!(rec.schema, Some("olm.channel".to_owned()));
        }
        other => panic!("second chunk should produce output, got {:?}", other),
    }
}

#[test]
fn normalize_repairs_malformed_values() {
    let blob = "{\"schema\":\"s\",\"name\":\"n\",\"properties\":[{\"type\":\"t\",\"value\": null}]}";
    let outs = normalize_blob(blob);
    assert_eq!(outs.len(), 1);
    match &outs[0] {
        ChunkOutcome::Output { name, text } => {
            assert_eq!(name, "n");
            let rec = decode_catalog_text(text.as_str()).expect("output decodes");
            let props = rec.properties.expect("properties present");
            assert_eq!(props[0].value.group, Some("".to_owned()));
        }
        other => panic!("chunk should produce output, got {:?}", other),
    }
}

#[test]
fn one_bad_chunk_does_not_stop_the_rest() {
    let blob = "{\"schema\":\"a\",\"name\":\"one\"}\n{\"schema\":\"b\",\"name\":}\n{\"schema\":\"c\",\"name\":\"three\"}";
    let outs = normalize_blob(blob);
    assert_eq!(outs.len(), 3);
    assert!(matches!(&outs[0], ChunkOutcome::Output { .. }));
    assert!(matches!(&outs[1], ChunkOutcome::Undecodable(DecodeError::Syntax)));
    assert!(matches!(&outs[2], ChunkOutcome::Output { .. }));
}

#[test]
fn nameless_record_gets_distinct_outcome() {
    let blob = "{\"schema\":\"olm.package\"}";
    let outs = normalize_blob(blob);
    assert_eq!(outs.len(), 1);
    assert!(matches!(&outs[0], ChunkOutcome::MissingName));
}

#[test]
fn decode_yaml_without_brace() {
    let text = "schema: olm.package\nname: pkgA\n";
    let rec = decode_catalog_text(text).expect("yaml decodes");
    assert_eq!(rec.schema, Some("olm.package".to_owned()));
    assert_eq!(rec.name, Some("pkgA".to_owned()));
}

#[test]
fn decode_errors_by_kind() {
    assert_eq!(decode_catalog_text("{\"unclosed"), Err(DecodeError::Syntax));
    assert_eq!(decode_catalog_text("{\"schema\": 5}"), Err(DecodeError::WrongType));
    assert_eq!(
        decode_catalog_text("{\"entries\":[{\"replaces\":\"x\"}]}"),
        Err(DecodeError::MissingField)
    );
    assert_eq!(decode_catalog_text("[{\"a\":1}]"), Err(DecodeError::NotAnObject));
}

#[test]
fn index_last_write_wins() {
    let mut idx = CatalogIndex::new();
    let mut first = record("y", "x");
    first.description = Some("first".to_owned());
    let mut second = record("y", "x");
    second.description = Some("second".to_owned());
    assert!(idx.insert(first));
    assert!(idx.insert(second));
    let got = idx.get("x=y").expect("key present");
    assert_eq!(got.description, Some("second".to_owned()));
}

#[test]
fn index_refuses_invalid_record() {
    let mut idx = CatalogIndex::new();
    let mut rec = record("y", "x");
    rec.schema = None;
    assert!(!idx.insert(rec));
    assert!(idx.get("x=y").is_none());
}

#[test]
fn index_key_joins_name_and_schema() {
    assert_eq!(index_key("pkgA", "olm.package"), "pkgA=olm.package");
}

#[test]
fn catalog_files_recognized_by_path() {
    assert!(is_catalog_file("configs/pkgA/catalog.json"));
    assert!(is_catalog_file("configs/pkgA/index.json"));
    assert!(!is_catalog_file("configs/pkgA/other.json"));
}

#[test]
fn empty_input_edge_cases() {
    let parts = split_catalog_blob("");
    assert_eq!(parts.len(), 1);
    assert_eq!(parts[0], "");
    assert_eq!(repair_values(""), "");
    assert!(!contains_brace(""));
    assert!(decode_catalog_text("").is_err());
}

#[test]
fn brace_detection_and_string_equality() {
    assert!(contains_brace("a { b"));
    assert!(!contains_brace("plain: yaml"));
    assert!(str_eq("abc", "abc"));
    assert!(!str_eq("abc", "abd"));
    assert!(!str_eq("abc", "ab"));
}
