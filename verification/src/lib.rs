//! Scheduled collection engine of a database metrics exporter.
//!
//! A configuration names databases and, for each, the metrics to compute.
//! Every (database, metric) pair becomes a job with its own period. The
//! scheduler decides, event by event, which job may query its database; the
//! registry keeps the latest value of every metric; the exporter renders a
//! registry snapshot as exposition text.

pub mod error;
pub mod frequency;
pub mod registry;
pub mod config;
pub mod model;
pub mod laws;
pub mod scheduler;
pub mod exporter;
