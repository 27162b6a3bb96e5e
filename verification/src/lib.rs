//! Verified core of a terminal dashboard for per-core CPU utilization on
//! multi-die, multi-socket processors.
//!
//! The crate infers a hierarchical topology (cores, core-complex dies, NUMA
//! nodes, NUMA-per-socket nodes) from a plain arena model of the hardware
//! tree, aggregates per-core utilization samples into per-group statistics,
//! and computes the scrollable grid layout that places every visible group
//! member on a character-cell screen.
//!
//! Utilization is represented in hundredths of a percent (0..=10000)
//! throughout, so that all statistics are exact integer arithmetic.

pub mod aggregate;
pub mod app;
pub mod detect;
pub mod event;
pub mod fmt;
pub mod grouping;
pub mod hwtree;
pub mod layout;
pub mod stats;
pub mod topology;
pub mod widgets;
pub mod zen;
