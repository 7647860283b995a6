//! Per-database size quotas for a PostgreSQL connection proxy.

pub mod admin;
pub mod classify;
pub mod config;
pub mod connect;
pub mod hooks;
pub mod metrics;
pub mod monitor;
pub mod names;
pub mod quota;
pub mod targets;
pub mod text;
