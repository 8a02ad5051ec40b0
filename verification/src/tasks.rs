//! Work in the background.
pub mod columns;
pub mod import;
pub mod reconcile;
pub mod task_laws;
