//! The verified core of a small runner for continuous integration.
//!
//! A run takes the pipelines of a project, each a named list of commands
//! with an optional condition, and the variables of the run. The library
//! decides which pipelines run, puts the variables into each command, splits
//! it into a program and its arguments, and says which command is to be
//! started next; it takes the output and the exit status of each command and
//! works out the result of the run. Starting processes, reading files and
//! sending mail are left to the caller.
//!
//! Besides the run itself the library holds the codec of the secrets file,
//! the readers of the configuration files, and the text of the mail that
//! reports a failure.

pub mod capture;
pub mod command;
pub mod config;
pub mod crypto;
pub mod dashboard;
pub mod document;
pub mod execution;
pub mod gate;
pub mod mail;
pub mod parser;
pub mod pipeline;
pub mod substitution;
pub mod text;
pub mod variables;
pub mod vcs;
