//! Freshness checks for the dependencies a package manifest declares.

pub mod constraint;
pub mod dependency;
pub mod engine;
pub mod manifest;
pub mod paint;
pub mod pool;
pub mod registry;
pub mod report;
pub mod select_menu;
pub mod status;
pub mod text;
pub mod utils;
pub mod version;
