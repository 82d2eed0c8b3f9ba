//! Verified core of a sqllogictest runner for DuckDB.

pub mod decimal;
pub mod driver;
pub mod extensions;
pub mod orchestrator;
pub mod ordering;
pub mod pathing;
pub mod preprocessor;
pub mod reporting;
pub mod temporal;
pub mod runtime;
pub mod text;
pub mod values;
