//! Verified core of the `sqlite3_rsync` command-line front end: argument
//! parsing, shell quoting of the remote command line, and the decisions of
//! the remote-session retry loop.

pub mod text;
pub mod paths;
pub mod shell;
pub mod numbers;
pub mod args;
pub mod commands;
pub mod session;
