//! Command-line arguments.

use crate::runtime::RuntimeOptions;
use vstd::prelude::*;

verus! {

/// Default window title.
pub const DEFAULT_WINDOW_TITLE: &'static str = "Ratty";

/// Command-line arguments of the terminal.
#[derive(Debug)]
pub struct Cli {
    /// Enable the authenticated local control socket.
    pub mcp: bool,
    /// Specify an alternative configuration file.
    pub config_file: Option<String>,
    /// Command and args to execute.
    pub command: Option<Vec<String>>,
    /// Defines the window title.
    pub title: String,
}

impl Cli {
    /// What the arguments say of the command to run.
    pub fn runtime_options(self, working_dir: Option<String>) -> (r: RuntimeOptions)
        ensures
            r.command == self.command,
            r.working_dir == working_dir,
    {
        RuntimeOptions { command: self.command, working_dir }
    }
}

} // verus!
