//! Core logic of `box`, a manager of sandboxed git workspaces: the mux wire
//! protocol, command-line grammar, name rules, metadata encodings and the
//! decision logic of the workspace commands and of the terminal front ends.

pub mod protocol;
pub mod text;
pub mod cli;
pub mod fields;
pub mod paths;
pub mod session;
pub mod edit;
pub mod repo;
pub mod strset;
pub mod parallel;
pub mod workspace;
pub mod removal;
pub mod git;
pub mod preset;
pub mod config;
pub mod commands;
pub mod terminal;
pub mod sidebar;
pub mod tui;
pub mod screens;
pub mod create;
pub mod prefix;
pub mod server;
pub mod client;
