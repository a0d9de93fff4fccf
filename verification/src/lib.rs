//! quakers launcher core.
//!
//! Mirrors a content-addressed manifest onto disk: fetch manifest -> diff against local files ->
//! resumable parallel download -> verify by hash -> repair. Everything here decides and computes;
//! reading, writing and drawing is up to the front-end.

pub mod config;
pub mod confirm;
pub mod download;
pub mod hashing;
pub mod install;
pub mod manifest;
pub mod measure;
pub mod number;
pub mod paths;
pub mod plan;
pub mod report;
pub mod run;
pub mod settings;
pub mod state;
pub mod string_map;
pub mod text;
pub mod ui;
