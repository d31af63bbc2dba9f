//! Discovery of installed Steam games.
//!
//! The crate locates the libraries of a Steam installation and the games
//! installed in them.  Everything that computes is here and verified: the
//! brace-delimited key/value text format that Steam uses for its state files,
//! the extraction of application manifests, the deduplication of library
//! folders, and the composition of the final list of games.  Reading the
//! registry, the descriptor file and the manifest files from disk is left to
//! the embedding application, which hands the raw text and the existence of
//! the computed paths to the functions of this crate as plain values.

pub mod discover;
pub mod kv;
pub mod scan;
