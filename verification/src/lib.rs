//! AsQu: an asynchronous question queue for coding agents.
//!
//! The library holds the question store (sessions, questions, answers and
//! their life cycle), the decisions of the blocking wait, the request
//! dispatcher and the text handling of the command-line client. Everything
//! that talks to the outside world (pipes, windows, the clock's consumers,
//! the environment) lives in the application crate around it.
pub mod text;
pub mod types;
pub mod state;
pub mod question_store;
pub mod ipc;
pub mod ui;
pub mod cli;
pub mod laws;
