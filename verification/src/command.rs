//! Reversible edits, and the manager that keeps their history.

pub mod command_manager;
pub mod commands;
