//! A plain-text journal store with temporal queries and projections.
//!
//! The journal is one flat text document organized into day sections, each
//! introduced by a `# YYYY/MM/DD` header line.  This crate provides the
//! storage engine for that format: parsing and serializing typed entry
//! lines, locating and mutating a single day's block without disturbing the
//! rest of the document, resolving absolute and natural-language dates,
//! projecting deferred and recurring entries onto a target date, and a
//! small filter-query language over all entries.

pub mod config;
pub mod cursor;
pub mod dates;
pub mod document;
pub mod entries;
pub mod filter;
pub mod journal;
pub mod laws;
pub mod locations;
pub mod projection;
pub mod resolver;
pub mod scroll;
pub mod shortcuts;
pub mod text;
