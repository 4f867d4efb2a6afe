//! Extraction of failed-dependency records from a build farm's status pages.
//!
//! The library holds the verified core: parsing the per-evaluation input
//! cache, walking a build page's element tree for failed or cached steps,
//! deduplicating records by store path, serializing record lines, and the
//! cache-directory purge decision. Network and file I/O live outside.

pub mod dom;
pub mod extract;
pub mod input;
pub mod output;
pub mod schedule;
pub mod text;
