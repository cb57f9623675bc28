//! Decisions of an energy and carbon monitor for running applications.

pub mod capture;
pub mod clock;
pub mod config;
pub mod console;
pub mod database;
pub mod execution_modes;
pub mod execution_plan;
pub mod graph;
pub mod ordering;
pub mod records;
pub mod runner;
pub mod text;

pub use capture::cleanup_stdout_stderr;
pub use database::db_connect;
pub use graph::{topological_sort, topological_sort_processes};
pub use runner::run;
