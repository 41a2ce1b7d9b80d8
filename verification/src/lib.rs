//! Maps the monitors attached to an X server onto stored display profiles.

pub mod apply;
pub mod assignment;
pub mod config;
pub mod descriptors;
pub mod displays;
pub mod log_level;
pub mod monitor;
pub mod ordering;
pub mod plan;
pub mod screen;
pub mod search;
pub mod text;
