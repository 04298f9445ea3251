//! Reconciliation engine of a sidecar that keeps the hosts files of dependent
//! containers pointed at the current address of a target service.

pub mod container;
pub mod dictionary;
pub mod engine;
pub mod error;
pub mod event;
pub mod hosts;
pub mod patch;
pub mod reconcile;
pub mod schedule;
pub mod snapshot;
pub mod stack;
pub mod string_vec;
pub mod text;
