//! Idempotent provisioning of the speed test guest on a Proxmox node: the
//! configuration, the commands, and the decisions taken on their results.

pub mod config;
pub mod runner;
pub mod proxmox;
pub mod setup;
pub mod flow;
