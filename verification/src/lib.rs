//! Desktop organizer library: classification rules, grid layout, the
//! one-click organize planner and the configuration model, with their
//! contracts proved by Verus.
pub mod text;
pub mod domain;
pub mod paths;
pub mod infra;
pub mod ui;
