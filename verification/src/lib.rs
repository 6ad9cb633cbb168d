//! Host-monitoring core: interval parsing, host records, schedules and views.

pub mod text;
pub mod json;
pub mod records;
pub mod config;
pub mod net;
pub mod hoststate;
pub mod order;
pub mod view;
pub mod registry;
pub mod update;
pub mod release;
pub mod history;
pub mod footer;
pub mod keys;
pub mod session;
pub mod cli;
pub mod theme;
pub mod once;
