//! A LAN speed test's server-side logic and its guest provisioning.

pub mod text;
pub mod ip;
pub mod netid;
pub mod config;
pub mod timestamp;
pub mod metrics;
pub mod routes;
pub mod payload;
pub mod history;
pub mod provision;
