//! Simulation of paginated "fetch recent items" sessions over a synthetic
//! population of users, with per-scenario and cross-run statistics.

pub mod batch;
pub mod generate;
pub mod model;
pub mod scenario;
pub mod stats;
