//! A local task tracker: a store of named tasks with a description and a
//! status, the commands that act on it, and the ordering used to list it.

pub mod status;
pub mod content;
pub mod result;
pub mod handler;
pub mod commands;
