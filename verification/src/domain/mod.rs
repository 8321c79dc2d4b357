//! Domain layer: data model, classification, layout and organize planning.
pub mod categorize;
pub mod layout;
pub mod organize;
pub mod config;
pub mod config_store;
pub mod desktop;
