//! The persisted form of the index: one JSON object whose keys are the staged
//! paths and whose values are their digests.
//!
//! Reading and writing JSON is left to `serde_json`. What is written is read
//! back before it is handed out, so that an index is never persisted in a form
//! from which it could not be loaded again.

use crate::error::StoreError;
use crate::index::{ascending, map_of, texts, Index};
use std::collections::BTreeMap;
use vstd::prelude::*;

verus! {

/// `serde_json::Error`: why a text was rejected or could not be written.
/// Nothing is read from it: any such error is reported as a [`StoreError`].
#[verifier::external_type_specification]
#[verifier::external_body]
pub struct ExJsonError(serde_json::Error);

/// The mapping that `serde_json::from_slice` reads from `text` as a map from
/// strings to strings, or `None` where it rejects the text.
pub uninterp spec fn json_object(text: Seq<u8>) -> Option<Map<Seq<char>, Seq<char>>>;

/// The text that `serde_json::to_vec_pretty` writes for a map from strings to
/// strings whose keys are in ascending order, or `None` where it fails.
pub uninterp spec fn json_text(object: Map<Seq<char>, Seq<char>>) -> Option<Seq<u8>>;

/// Calls `serde_json::from_slice` for a `BTreeMap<String, String>` and hands
/// out the pairs of that map.
///
/// Trusted: whether the text is accepted, and the mapping read from it, depend
/// on the text alone.
#[verifier::external_body]
fn read_object(text: &[u8]) -> (read: Result<Vec<(String, String)>, serde_json::Error>)
    ensures
        match read {
            Ok(entries) => json_object(text@) == Some(map_of(texts(entries@))),
            Err(_) => json_object(text@) is None,
        },
{
    match serde_json::from_slice::<BTreeMap<String, String>>(text) {
        Ok(object) => Ok(object.into_iter().collect()),
        Err(e) => Err(e),
    }
}

/// Hands the pairs to a `BTreeMap` and calls `serde_json::to_vec_pretty` on
/// it. The pairs come in ascending order of path, each path once, which is how
/// the map keeps them.
///
/// Trusted: whether writing succeeds, and the text written, depend on the
/// pairs alone.
#[verifier::external_body]
fn write_object(entries: &Vec<(String, String)>) -> (written: Result<Vec<u8>, serde_json::Error>)
    requires
        ascending(texts(entries@)),
    ensures
        match written {
            Ok(text) => json_text(map_of(texts(entries@))) == Some(text@),
            Err(_) => json_text(map_of(texts(entries@))) is None,
        },
{
    let object: BTreeMap<&String, &String> = entries.iter().map(|e| (&e.0, &e.1)).collect();
    serde_json::to_vec_pretty(&object)
}

/// The bytes of a file, if there is one.
pub open spec fn content(persisted: Option<&[u8]>) -> Option<Seq<u8>> {
    match persisted {
        Some(text) => Some(text@),
        None => None,
    }
}

/// What loading yields: the empty index where nothing is persisted, the
/// mapping read from the persisted text where it is a JSON object of strings,
/// and a parse error otherwise.
pub open spec fn loaded(persisted: Option<Seq<u8>>) -> Result<Map<Seq<char>, Seq<char>>, StoreError> {
    match persisted {
        None => Ok(Map::empty()),
        Some(text) => match json_object(text) {
            Some(object) => Ok(object),
            None => Err(StoreError::Parse),
        },
    }
}

/// What saving yields: the JSON text of the mapping, provided that there is
/// one and that it reads back as the same mapping.
pub open spec fn saved(index: Map<Seq<char>, Seq<char>>) -> Result<Seq<u8>, StoreError> {
    match json_text(index) {
        Some(text) => if json_object(text) == Some(index) {
            Ok(text)
        } else {
            Err(StoreError::Serialize)
        },
        None => Err(StoreError::Serialize),
    }
}

/// Whatever is saved loads back as the index it was saved from.
pub proof fn lemma_saved_index_loads_back(index: Map<Seq<char>, Seq<char>>, text: Seq<u8>)
    requires
        saved(index) == Ok::<Seq<u8>, StoreError>(text),
    ensures
        loaded(Some(text)) == Ok::<Map<Seq<char>, Seq<char>>, StoreError>(index),
{
}

/// Loads the index from the bytes of the index file, or from the absence of
/// that file.
///
/// A repository that has no index file yet has an empty index. An index file
/// that is not a JSON object with string values is a parse error.
pub fn load_index(persisted: Option<&[u8]>) -> (outcome: Result<Index, StoreError>)
    ensures
        match outcome {
            Ok(index) => loaded(content(persisted)) == Ok::<Map<Seq<char>, Seq<char>>, StoreError>(
                index@,
            ),
            Err(e) => loaded(content(persisted)) == Err::<Map<Seq<char>, Seq<char>>, StoreError>(e),
        },
{
    match persisted {
        None => Ok(Index::new()),
        Some(text) => match read_object(text) {
            Ok(entries) => Ok(Index::from_entries(&entries)),
            Err(_) => Err(StoreError::Parse),
        },
    }
}

/// Writes the whole index out as pretty-printed JSON, paths in ascending
/// order, and confirms that the text loads back as the same index.
///
/// The caller persists the text by replacing the index file with it in full.
pub fn save_index(index: &Index) -> (outcome: Result<Vec<u8>, StoreError>)
    ensures
        match outcome {
            Ok(text) => saved(index@) == Ok::<Seq<u8>, StoreError>(text@) && loaded(Some(text@))
                == Ok::<Map<Seq<char>, Seq<char>>, StoreError>(index@),
            Err(e) => saved(index@) == Err::<Seq<u8>, StoreError>(e),
        },
{
    let entries = index.to_entries();
    match write_object(&entries) {
        Err(_) => Err(StoreError::Serialize),
        Ok(text) => match read_object(text.as_slice()) {
            Err(_) => Err(StoreError::Serialize),
            Ok(reread) => {
                let again = Index::from_entries(&reread);
                if again == *index {
                    Ok(text)
                } else {
                    Err(StoreError::Serialize)
                }
            },
        },
    }
}

} // verus!
