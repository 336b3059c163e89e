//! kit: track, install and manage command-line tools.
//!
//! The verified core of the tool: configuration model, PATH scanning
//! decisions, shell rc injection and alias files, and update planning.

pub mod commands;
pub mod config;
pub mod json;
pub mod text;
pub mod paths;
pub mod scanner;
pub mod shell;
pub mod sources;
pub mod system;
