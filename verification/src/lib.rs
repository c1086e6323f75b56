use vstd::prelude::*;

pub mod text;
pub mod env_name;
pub mod shell_quote;
pub mod unix_path;
pub mod allow_paths;
pub mod error;
pub mod paths;
pub mod profile;
pub mod config;
pub mod sandbox_exec;
pub mod cli;
pub mod app;
pub mod test_support;
