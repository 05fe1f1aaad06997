//! A verified core for a columnar-file inspection tool.
//!
//! The library unifies many physical data files under one logical dataset,
//! resolves a requested column subset against a file's schema, applies
//! per-field regular-expression predicates to a row stream, and renders the
//! surviving rows as tabular text, vertical key/value blocks, or comma-joined
//! lines with adaptive column sizing and exact-width truncation.

pub mod error;
pub mod strutil;
pub mod width;
pub mod fields;
pub mod filters;
pub mod output;
pub mod args;
pub mod paths;
pub mod reader;
pub mod sample;
pub mod freq;
pub mod commands;
