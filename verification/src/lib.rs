//! A small line-search library: split text into lines and return the lines
//! that contain a query string, case-sensitively or case-insensitively.
//!
//! Every executable function is verified against a sequence-level model:
//! `matching::contains_substring` models substring containment,
//! `lines::spec_lines` models line splitting, and `scan::spec_search` /
//! `scan::spec_search_ci` model the two search variants.

pub mod config;
pub mod fold;
pub mod lines;
pub mod matching;
pub mod scan;

pub use config::Config;
pub use config::ConfigError;
pub use lines::split_lines;
pub use scan::matching_lines;
pub use scan::search;
pub use scan::search_case_insensitive;
