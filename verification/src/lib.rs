//! The core of a terminal tool for reviewing code changes: diffs are parsed, selected, coloured and
//! laid out here, and the choice of a version control backend is made.

pub mod backend;
pub mod batch;
pub mod batch_laws;
pub mod coloring;
pub mod coloring_laws;
pub mod contents;
pub mod decimal;
pub mod diff_laws;
pub mod diff_parser;
pub mod error;
pub mod fault_laws;
pub mod full_file;
pub mod full_file_laws;
pub mod git;
pub mod git_backend;
pub mod git_laws;
pub mod git_patch;
pub mod git_patch_laws;
pub mod header_laws;
pub mod layout;
pub mod layout_laws;
pub mod loader;
pub mod model;
pub mod patch_laws;
pub mod paths;
pub mod record;
pub mod syntax;
pub mod syntax_laws;
pub mod text;
pub mod text_laws;
pub mod vcs;
pub mod vcs_laws;
pub mod viewport_laws;
pub mod whitespace;
pub mod whitespace_laws;
pub mod words;
