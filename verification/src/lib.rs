//! Persistence and retrieval core of a quick-launch note tool: the store of
//! notes and settings, the search that answers a query in three stages, the
//! snippets with their highlights, and the cleaning of note text.
//!
//! The store is plain data with verified operations; reading and writing
//! the index and the files on disk is left to the program around it, which
//! gets from here what to write and what the names of the files are.

pub mod text;
pub mod fuzzy;
pub mod sanitize;
pub mod highlight;
pub mod snippet;
pub mod index_query;
pub mod models;
pub mod store;
pub mod ranking;
pub mod search;
pub mod persist;
pub mod mirror;
pub mod paths;
pub mod backend;
pub mod laws;
