//! A schema registry for table-structured game data.
//!
//! The registry keeps, per game, a list of named table definition sets; each
//! set keeps one field layout (`TableDefinition`) per table version.  A
//! binary table decoder looks a layout up by `(table name, version)` and walks
//! its ordered field list to interpret the bytes of a record, so field order
//! is part of the contract.  Layouts are produced either by hand or by the
//! assembly-kit importer, which translates a vendor-exported table description
//! into the internal field model, applying the documented per-game quirks.
//! The whole registry can be rendered to, and parsed back from, a structured
//! text document; rendering and parsing invert each other.

pub mod codec;
pub mod import;
pub mod schema;
mod text;
