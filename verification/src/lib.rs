//! Counting lines of source code: language detection, per-line
//! classification into code, comment and blank, and aggregation by language.
//!
//! The library works on values: paths are strings and files are bytes.
//! Finding the files and reading them is left to the caller.

pub mod analysis;
pub mod archive;
pub mod cli;
pub mod counter;
pub mod custom_langs;
pub mod diff;
pub mod error;
pub mod index;
pub mod languages;
pub mod output;
pub mod paths;
pub mod render;
pub mod stats;
pub mod strip;
pub mod tables;
pub mod text;
pub mod walker;

pub use analysis::{
    analyze_files, config_to_walker, summary_to_analysis, Analysis, AnalyzeConfig,
    LanguageBreakdown, LoadedFile,
};
pub use error::Error;
pub use languages::{detect_language, list_extensions, list_languages, Language};
pub use tables::LANGUAGES;
