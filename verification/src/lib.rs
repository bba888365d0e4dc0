//! Verified core of the Drasi server: configuration models and their rules,
//! plugin reference matching, registries and the persisted-config layout.

pub mod builder;
pub mod config;
pub mod config_value;
pub mod factories;
pub mod instance_registry;
pub mod json;
pub mod loader;
pub mod keyed;
pub mod models;
pub mod persistence;
pub mod plugin_cli;
pub mod plugin_registry;
pub mod prompts;
pub mod reaction;
pub mod resolve;
pub mod roundtrip;
pub mod responses;
pub mod server;
pub mod settings;
pub mod state_store;
pub mod text;
pub mod validation;
pub mod version;
pub mod wildcard;
pub mod writer;
pub mod yaml;
