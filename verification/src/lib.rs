//! `quickcommand` (`qc`): turns a natural-language task into a shell command
//! with a local Ollama model, and shows, emits or runs it.
pub mod app;
pub mod backend;
pub mod cli;
pub mod config;
pub mod console;
pub mod error;
pub mod exec;
pub mod model;
pub mod path;
pub mod prompt;
pub mod safety;
pub mod shell_integration;
pub mod text;

pub use error::{QuickcommandError, Result};
