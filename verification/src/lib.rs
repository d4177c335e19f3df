//! A verified core for finding a past Codex thread and resuming it in a new terminal.

pub mod app_server;
pub mod commands;
pub mod config;
pub mod db;
pub mod doctor;
pub mod hook;
pub mod json;
pub mod laws;
pub mod paths;
pub mod screen;
pub mod setup;
pub mod summary;
pub mod sync;
pub mod table;
pub mod terminal;
pub mod text;
pub mod tui;

use vstd::prelude::*;

verus! {

pub const APP_NAME: &'static str = "codex-resume-tracker";

pub const VERSION: &'static str = "0.1.0";

} // verus!
