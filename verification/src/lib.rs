//! Verified core of the Android sidecar that stands in for Tauri.

mod text;
pub mod naming;
pub mod command;
pub mod static_site;
pub mod startup;
pub mod rpc;
pub mod bridge;
pub mod host;
pub mod auto_launch;
pub mod updater;
pub mod clipboard;
pub mod state;
pub mod commands;
pub mod store;
