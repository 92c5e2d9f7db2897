//! A keystore kept as files in a directory: one file per encrypted account
//! key, an optional split of the root into named vaults, and the rules that
//! decide which files are keys, what new files are called, when a write is
//! kept and which file a removal deletes. The filesystem itself is driven by
//! the caller, which hands these rules the directory's entries and the
//! outcomes of its writes.
//!
//! Also here: the lookup of a query-string parameter and the responses of the
//! content gateway to failed lookups.
pub mod directory;
pub mod filename;
pub mod gateway;
pub mod ident;
pub mod query;
pub mod record;
