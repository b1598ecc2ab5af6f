//! The per-file and per-chunk normalization pipeline, free of I/O: the
//! caller walks the tree, reads each file and hands the text here; it gets
//! back, for every chunk, either the output file's name and content or the
//! reason the chunk produced none. A failing chunk never affects its
//! siblings: every chunk gets exactly one outcome.

use vstd::prelude::*;
use crate::decode::{dec_record, decode_record, res_view};
use crate::encode::{enc_record, encode_record};
use crate::format::{json_of, parse_json, parse_yaml, yaml_of};
use crate::model::{ConfigModel, DeclarativeConfig, DecodeError};
use crate::splitter::{split_catalog_blob, split_catalog_spec};
use crate::text::{contains_brace, contains_seq, contains_str, has_brace};

verus! {

broadcast use vstd::std_specs::vec::group_vec_axioms, vstd::seq::group_seq_axioms;

/// What one chunk of a catalog blob produced.
#[derive(Debug, PartialEq)]
pub enum ChunkOutcome {
    /// The chunk decoded to a named record: write `text` to `<name>.json`.
    Output { name: String, text: String },
    /// The chunk decoded, but without a `name`; nothing is written.
    MissingName,
    /// The chunk failed to parse or decode; nothing is written.
    Undecodable(DecodeError),
}

/// What decoding one repaired chunk yields: the record model, or the reason
/// there is none.
pub open spec fn chunk_decision(c: Seq<char>) -> Result<ConfigModel, DecodeError> {
    match json_of(crate::repair::repair_spec(c, 0)) {
        Option::None => Err(DecodeError::Syntax),
        Option::Some(v) => dec_record(v),
    }
}

/// The outcome a chunk owes: an output exactly when the repaired chunk
/// decodes to a record with a name, the output named after the record and
/// holding its canonical re-encoding; a distinct diagnostic for a nameless
/// record; the decode error otherwise.
pub open spec fn chunk_outcome_ok(c: Seq<char>, r: ChunkOutcome) -> bool {
    match r {
        ChunkOutcome::Output { name, text } => chunk_decision(c) matches Ok(m) && m.name == Some(
            name@,
        ) && json_of(text@) == Some(enc_record(m)),
        ChunkOutcome::MissingName => chunk_decision(c) matches Ok(m) && m.name is None,
        ChunkOutcome::Undecodable(e) => chunk_decision(c) == Err::<ConfigModel, _>(e),
    }
}

/// Repairs one chunk, decodes it, and re-encodes the record canonically.
pub fn normalize_chunk(c: &str) -> (r: ChunkOutcome)
    ensures
        chunk_outcome_ok(c@, r),
{
    let repaired = crate::repair::repair_values(c);
    match parse_json(repaired.as_str()) {
        Option::None => ChunkOutcome::Undecodable(DecodeError::Syntax),
        Option::Some(node) => match decode_record(&node) {
            Err(e) => ChunkOutcome::Undecodable(e),
            Ok(rec) => match &rec.name {
                Option::Some(nm) => {
                    let name = nm.clone();
                    let text = encode_record(&rec);
                    ChunkOutcome::Output { name, text }
                },
                Option::None => ChunkOutcome::MissingName,
            },
        },
    }
}

/// Splits a catalog blob and normalizes every chunk: one outcome per chunk,
/// in order. A chunk that fails only yields its own diagnostic outcome; all
/// other chunks are still processed.
pub fn normalize_blob(s: &str) -> (outs: Vec<ChunkOutcome>)
    ensures
        outs@.len() == split_catalog_spec(s@).len(),
        forall|k: int|
            0 <= k < outs@.len() ==> chunk_outcome_ok(split_catalog_spec(s@)[k], outs@[k]),
{
    let parts = split_catalog_blob(s);
    let ghost pv = split_catalog_spec(s@);
    let mut outs: Vec<ChunkOutcome> = Vec::new();
    let mut k: usize = 0;
    while k < parts.len()
        invariant
            parts.deep_view() == pv,
            parts@.len() == pv.len(),
            k <= parts@.len(),
            outs@.len() == k,
            forall|t: int| 0 <= t < k ==> chunk_outcome_ok(pv[t], outs@[t]),
        decreases parts@.len() - k,
    {
        proof {
            assert(parts@[k as int]@ == pv[k as int]);
        }
        let o = normalize_chunk(parts[k].as_str());
        outs.push(o);
        k += 1;
    }
    outs
}

/// Whether a file's path names a multi-object catalog blob.
pub open spec fn is_catalog_path(path: Seq<char>) -> bool {
    contains_seq(path, "catalog.json"@) || contains_seq(path, "index.json"@)
}

/// Recognizes the files the normalizer splits, by their path.
pub fn is_catalog_file(path: &str) -> (r: bool)
    ensures
        r == is_catalog_path(path@),
{
    contains_str(path, "catalog.json") || contains_str(path, "index.json")
}

/// Handles one file of the tree: content without any opening brace is not
/// JSON-bearing and is skipped, as is every file not recognized as a catalog
/// blob by name; anything else is split and normalized chunk by chunk.
pub fn process_file(path: &str, content: &str) -> (r: Option<Vec<ChunkOutcome>>)
    ensures
        r is Some <==> has_brace(content@) && is_catalog_path(path@),
        match r {
            Option::Some(outs) => outs@.len() == split_catalog_spec(content@).len() && (forall|
                k: int,
            |
                0 <= k < outs@.len() ==> chunk_outcome_ok(
                    split_catalog_spec(content@)[k],
                    outs@[k],
                )),
            Option::None => true,
        },
{
    if contains_brace(content) && is_catalog_file(path) {
        Some(normalize_blob(content))
    } else {
        None
    }
}

/// What decoding a whole single-record document yields: JSON when the text
/// holds an opening brace, YAML otherwise.
pub open spec fn decode_text_spec(s: Seq<char>) -> Result<ConfigModel, DecodeError> {
    let parsed = if has_brace(s) {
        json_of(s)
    } else {
        yaml_of(s)
    };
    match parsed {
        Option::None => Err(DecodeError::Syntax),
        Option::Some(v) => dec_record(v),
    }
}

/// A record's canonical re-encoding decodes back to the record through the
/// format-sniffing reader: the text opens with `{`, so it is read as JSON,
/// and yields the same record model. Together with the contract of
/// `encode_record` this closes the decode-then-reencode loop over whole
/// texts, not only over document trees.
pub proof fn lemma_reencoded_text_decodes(m: ConfigModel, t: Seq<char>)
    requires
        json_of(t) == Some(enc_record(m)),
        t.len() >= 1,
        t[0] == '{',
    ensures
        decode_text_spec(t) == Ok::<_, DecodeError>(m),
{
    assert(has_brace(t)) by {
        assert(0 <= 0 < t.len() && t[0] == '{');
    }
    crate::laws::lemma_record_round_trip(m);
}

/// Decodes one document as a single catalog record, detecting the format by
/// the presence of an opening brace: JSON if one occurs, YAML otherwise.
pub fn decode_catalog_text(s: &str) -> (r: Result<DeclarativeConfig, DecodeError>)
    ensures
        res_view(r) == decode_text_spec(s@),
{
    let parsed = if contains_brace(s) {
        parse_json(s)
    } else {
        parse_yaml(s)
    };
    match parsed {
        Option::None => Err(DecodeError::Syntax),
        Option::Some(node) => decode_record(&node),
    }
}

} // verus!
