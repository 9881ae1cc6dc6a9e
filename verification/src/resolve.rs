//! From the evaluator's output to the snapshot's tree.
//!
//! The evaluator is a process outside this library. It loads the frozen
//! snapshot and writes it to its standard output as one JSON document. What
//! comes back from it, whether it succeeded and the bytes it wrote, is
//! turned into a tree here, or into the reason why there is none.

use crate::snapshot::{SnapshotField, SnapshotValue, Tree};
use vstd::prelude::*;

verus! {

/// A decoded JSON document of `serde_json`, which is handed on unread.
#[verifier::external_type_specification]
#[verifier::external_body]
pub struct ExJsonValue(serde_json::Value);

/// The error with which `serde_json` refuses bytes that are no JSON
/// document.
#[verifier::external_type_specification]
#[verifier::external_body]
pub struct ExJsonError(serde_json::Error);

/// The tree of the JSON document that `bytes` hold, or `None` where they hold
/// none: what `serde_json::from_slice` decodes them to. The fields of an
/// object come in the order in which `serde_json` keeps them, a name that the
/// document gives twice keeps its last value, and a number is held as the
/// decimal text that `serde_json` prints it with.
pub uninterp spec fn json_tree(bytes: Seq<u8>) -> Option<Tree>;

/// Why a snapshot could not be resolved.
#[derive(Debug, Clone, Copy, PartialEq, Eq, Structural)]
pub enum ResolveError {
    /// The evaluator did not end with success.
    EvaluatorFailed,
    /// The evaluator's output is no JSON document.
    Undecodable,
}

/// Copies a document of `serde_json` into a tree of this library, variant by
/// variant: `Value::Null`, `Value::Bool`, `Value::Number` (as the text of
/// `Number::to_string`), `Value::String`, `Value::Array` (item by item) and
/// `Value::Object` (field by field, in the order of `Map::iter`).
#[verifier::external_body]
fn tree_of(value: &serde_json::Value) -> SnapshotValue {
    match value {
        serde_json::Value::Null => SnapshotValue::Null,
        serde_json::Value::Bool(b) => SnapshotValue::Bool(*b),
        serde_json::Value::Number(n) => SnapshotValue::Number(n.to_string()),
        serde_json::Value::String(s) => SnapshotValue::Text(s.clone()),
        serde_json::Value::Array(items) => SnapshotValue::List(items.iter().map(tree_of).collect()),
        serde_json::Value::Object(fields) => SnapshotValue::Table(
            fields
                .iter()
                .map(|(name, value)| SnapshotField { name: name.clone(), value: tree_of(value) })
                .collect(),
        ),
    }
}

/// `serde_json::from_slice`, to a `serde_json::Value` that is then copied
/// into a tree. The contract names the result: the same bytes decode to the
/// same tree, and are refused exactly when they hold no JSON document.
#[verifier::external_body]
fn decode_json(bytes: &[u8]) -> (decoded: Result<SnapshotValue, serde_json::Error>)
    ensures
        match decoded {
            Ok(value) => json_tree(bytes@) == Some(value@),
            Err(_) => json_tree(bytes@) is None,
        },
{
    match serde_json::from_slice::<serde_json::Value>(bytes) {
        Ok(value) => Ok(tree_of(&value)),
        Err(error) => Err(error),
    }
}

/// What resolving gives for a decoded output: the tree, or the error for an
/// output that is no JSON document.
pub open spec fn resolved(decoded: Option<Tree>) -> Result<Tree, ResolveError> {
    match decoded {
        Some(tree) => Ok(tree),
        None => Err(ResolveError::Undecodable),
    }
}

/// The views of the two sides of a resolver's result.
pub open spec fn result_view(result: Result<SnapshotValue, ResolveError>) -> Result<
    Tree,
    ResolveError,
> {
    match result {
        Ok(value) => Ok(value@),
        Err(error) => Err(error),
    }
}

/// Decodes the bytes of a JSON document into a snapshot.
pub fn decode_snapshot(bytes: &[u8]) -> (result: Result<SnapshotValue, ResolveError>)
    ensures
        result_view(result) == resolved(json_tree(bytes@)),
{
    match decode_json(bytes) {
        Ok(value) => Ok(value),
        Err(_) => Err(ResolveError::Undecodable),
    }
}

/// Resolves the snapshot from what the evaluator left: an evaluator that
/// did not end with success gives `EvaluatorFailed`, whatever it wrote;
/// otherwise its output is decoded.
pub fn resolve_output(succeeded: bool, output: &[u8]) -> (result: Result<
    SnapshotValue,
    ResolveError,
>)
    ensures
        !succeeded ==> result == Err::<SnapshotValue, ResolveError>(ResolveError::EvaluatorFailed),
        succeeded ==> result_view(result) == resolved(json_tree(output@)),
{
    if !succeeded {
        Err(ResolveError::EvaluatorFailed)
    } else {
        decode_snapshot(output)
    }
}

} // verus!
