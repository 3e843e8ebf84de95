//! The library's data model: error codes, lints, sets of lints and problems.
pub mod code;
pub mod lint;
pub mod lints;
pub mod problem;
pub mod toml_output;
