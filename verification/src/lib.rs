//! Core logic of a markdown-native task manager: the filename of a task file
//! is the single source of truth for its id, priority, status and slug.
//!
//! This crate holds the verified decisions: the filename grammar, slug
//! derivation, id allocation, validation and the planning of fixes. The
//! filesystem and process work around them is done by the caller, which
//! hands the library plain values (directory listings, file contents) and
//! performs the steps it returns.

pub mod constants;
pub mod create;
pub mod date;
pub mod discover;
pub mod error;
pub mod filename;
pub mod fix;
pub mod frontmatter;
pub mod ids;
pub mod init;
pub mod order;
pub mod tasks;
pub mod text;
pub mod tiebreak;
pub mod util;
pub mod validate;
