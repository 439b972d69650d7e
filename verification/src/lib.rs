//! Address-to-rule synchronisation.
pub mod app;
pub mod bytes;
pub mod cli;
pub mod config;
pub mod control;
pub mod daemon;
pub mod error;
pub mod fx;
pub mod ip_key;
pub mod ip_set;
pub mod kernel;
pub mod laws;
pub mod logger;
pub mod netlink;
pub mod path;
pub mod sys;
pub mod text;
pub mod toml;
