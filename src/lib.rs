//! Workload engine for exercising a merge queue: a deterministic weighted
//! sampler of dependency counts, request pacing, conflict cadence, simulated
//! test outcomes and reconciliation of outstanding pull requests.

pub mod distribution;
pub mod pacing;
pub mod conflict;
pub mod outcome;
mod bridge;
pub mod text;
pub mod reconcile;
pub mod config;
pub mod github;
pub mod trunk;
pub mod cli;
pub mod edit;
pub mod generator;
pub mod config_error;
pub mod request;
