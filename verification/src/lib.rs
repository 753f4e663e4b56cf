//! A Content Security Policy editor: the policy model, its parser and
//! printer, the value validator, and the editor state machine.

pub mod text;
pub mod csp;
pub mod pattern;
pub mod app;
pub mod keys;
