//! Finds translation strings whose value is duplicated across the packages of
//! a source tree, and says for each duplicate where the other copies live.
//!
//! The walk over the tree and the reading of files stay with the caller: this
//! library decides which directories to list and which files to keep, turns
//! file contents into records, indexes them and classifies the duplicates.

pub mod analyse_project_duplication;
pub mod cli;
pub mod commands;
pub mod entities;
pub mod get_translation_for_project;
pub mod index;
pub mod load_translations;
pub mod map_translations_by_key;
pub mod map_translations_by_project;
pub mod outside;
pub mod search_recursive_regex;
pub mod settings;
pub mod text;

pub use commands::detailed_report::detailed_report_for_project;
pub use commands::global_report::{global_report_all, global_report_for_project};
pub use settings::Settings;
