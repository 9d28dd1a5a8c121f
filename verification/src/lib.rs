//! detox-mac: the decisions behind a macOS maintenance tool — what to clean,
//! what to protect, how to read what the system reports — with their contracts.

pub mod cli;
pub mod config;
pub mod format;
pub mod glob;
pub mod modules;
pub mod sys;
pub mod task;
pub mod text;
pub mod ui;
