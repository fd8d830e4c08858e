//! Normalisation of diffs and static-analysis output into a line-addressable model.
//!
//! The library turns unified diffs into per-file records of added lines and hunk
//! spans, parses clang-tidy's diagnostic stream, and places clang-format's byte
//! offsets at line and column positions.
pub mod comment;
pub mod common_fs;
pub mod text;
pub mod clang_format;
pub mod cli;
pub mod clang_tidy;
pub mod git;
