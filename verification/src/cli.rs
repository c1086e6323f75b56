//! The command line, as plain values: the options that apply to every
//! subcommand, and the subcommand.
use vstd::prelude::*;

use crate::env_name::EnvName;

verus! {

/// The parsed command line.
#[derive(Debug, PartialEq, Eq)]
pub struct Cli {
    /// `--allow-env NAME`, in the order given.
    pub allow_env: Vec<EnvName>,
    /// `--allow-read PATH`, in the order given.
    pub allow_read: Vec<Vec<u8>>,
    /// `--allow-write PATH`, in the order given.
    pub allow_write: Vec<Vec<u8>>,
    /// `--config NAME_OR_PATH`.
    pub config: Option<Vec<u8>>,
    /// `--profile PATH`.
    pub profile: Option<Vec<u8>>,
    pub command: Command,
}

/// The subcommand.
#[derive(Debug, PartialEq, Eq)]
pub enum Command {
    /// Print the sandbox profile that would be loaded.
    PrintProfile,
    /// Run a command inside the sandbox.
    Run(RunArgs),
}

/// The arguments of `run`.
#[derive(Debug, PartialEq, Eq)]
pub struct RunArgs {
    /// Print the final `sandbox-exec` command instead of executing it.
    pub dry_run: bool,
    /// The command to run, and its arguments.
    pub command: Vec<Vec<u8>>,
}

} // verus!
