//! Detects drift between an environment-definition file and a frozen
//! configuration snapshot.
//!
//! The crate joins three inputs: the key/value pairs of the environment file,
//! an index that tells which configuration section reads which environment
//! key, and the snapshot's resolved value tree. Every function carries a
//! contract over character sequences, which Verus proves of its body.

pub mod env;
pub mod index;
pub mod reconcile;
pub mod resolve;
pub mod snapshot;
pub mod string_map;
pub mod text;
