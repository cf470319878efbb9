//! Core library of the Zinko transparency agent: the dashboard state with its
//! bounded telemetry history, and the interpretation of the hardware
//! identifiers that Windows Management Instrumentation reports.

pub mod app;
pub mod telemetry;
pub mod text;

pub use app::{Tab, ZinkoApp};
