//! Backend logic for a host-maintenance console: reachability decisions,
//! shell-command construction for SSH sessions and remote shutdown, and a
//! parser that turns the text emitted by a remote diagnostic run into a
//! structured report.

pub mod chars;
pub mod commands;
pub mod connect;
pub mod parser;
pub mod report;
pub mod strip;
pub mod text;
