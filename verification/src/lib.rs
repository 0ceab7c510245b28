//! Verified core of the helyos command-line client.
pub mod text;
pub mod ctxmap;
pub mod config;
pub mod login;
pub mod context;
pub mod style;
pub mod panel;
pub mod api;
pub mod paths;
pub mod template;
pub mod age;
pub mod nodes;
pub mod table;
pub mod deploy;
pub mod tui;
pub mod stream;
pub mod cli;
pub mod status;
pub mod cni;
pub mod laws;
pub mod config_laws;
