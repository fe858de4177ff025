//! Project discovery and session launch engine for a tmuxinator launcher.

pub mod action;
pub mod config;
pub mod expand;
pub mod findings;
pub mod launch;
pub mod matching;
pub mod name;
pub mod order;
pub mod path;
pub mod project;
pub mod scan;
pub mod selection;
pub mod sessions;
pub mod text;
