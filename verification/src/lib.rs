//! Seekr: capture, index and recall terminal commands.
//!
//! This crate holds the verified core: command normalization, privacy
//! filtering, duplicate collapsing, fuzzy ranking, zsh history parsing,
//! search planning and the rendering of textual reports.

pub mod cli;
pub mod config;
pub mod db;
pub mod error;
pub mod fuzzy;
pub mod history;
pub mod ingest;
pub mod privacy;
pub mod report;
pub mod stats;
pub mod text;
pub mod tui;

pub use cli::{
    dispatch, shell_hook, CaptureArgs, Cli, Command, Dispatch, HookShell, InitArgs, SearchArgs,
};
pub use error::ErrorKind;
pub use history::{parse_zsh_history, HistoryEntry, ParsedHistoryEntry};
pub use ingest::{plan_capture, plan_import, ImportPlan};
pub use report::{
    format_relative_timestamp_at, import_summary, render_collapsed_records, search_empty_message,
};
