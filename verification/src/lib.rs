//! Verified core of a network scanning service: target and output parsing,
//! the nuclei-style template engine, workflow and task bookkeeping.
pub mod client;
pub mod commands;
pub mod config;
pub mod config_file;
pub mod domain;
pub mod engine;
pub mod ids;
pub mod json;
pub mod records;
pub mod tasks;
pub mod templates;
pub mod text;
pub mod wire;
pub mod worker;
