//! Plumbing for a disconnected multi-site git sync: the decisions, parsers and
//! file formats behind the pack and lfs export, import and inspect tools.

pub mod text;
pub mod shared;
pub mod git;
pub mod lfs;
pub mod codec;
pub mod assoc;
pub mod refs;
pub mod select;
pub mod walk;
pub mod scan;
pub mod import;
pub mod filter;
pub mod order;
pub mod listing;
pub mod manifest;
pub mod lfs_export;
