//! The command line: global flags and subcommands, and the rule on flags
//! that cannot be given together.
use vstd::prelude::*;

verus! {

/// forja: collapses repetitive git/GitHub sequences into single, safe,
/// predictable commands.
#[derive(Debug, Clone, PartialEq, Eq)]
pub struct Cli {
    /// Path to the config file.
    pub config: String,
    /// Show the execution plan without running anything.
    pub dry_run: bool,
    /// Skip interactive confirmations.
    pub yes: bool,
    /// Log every external command executed, with its arguments.
    pub verbose: bool,
    /// Suppress non-essential output.
    pub quiet: bool,
    /// Emit structured JSON output instead of prose.
    pub json: bool,
    pub command: Command,
}

#[derive(Debug, Clone, PartialEq, Eq)]
pub enum Command {
    /// Display the loaded, normalized config. Read-only.
    Show,
    /// Generate a commented forja.toml scaffold.
    Init {
        /// Overwrite the file if it already exists.
        force: bool,
    },
    /// Check that git and gh are installed and ready to use.
    Doctor,
    /// Apply the [git] section of the config via `git config --global`.
    Setup,
    /// Fetch, integrate the base branch, and push.
    Sync,
    /// Delete local branches already merged and removed on the remote.
    Cleanup,
}

impl Cli {
    /// Flags that do not make sense together: `--quiet` and `--verbose`
    /// are mutually exclusive.
    pub fn validate_flag_combinations(&self) -> (res: Result<(), String>)
        ensures
            match res {
                Ok(_) => !(self.verbose && self.quiet),
                Err(m) => self.verbose && self.quiet && m@ == "--verbose and --quiet are mutually exclusive"@,
            },
    {
        if self.verbose && self.quiet {
            return Err("--verbose and --quiet are mutually exclusive".to_owned());
        }
        Ok(())
    }
}

} // verus!
