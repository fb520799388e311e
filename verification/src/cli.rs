//! What the command line asks the program to do.

use vstd::prelude::*;

verus! {

/// A command of the program.
#[derive(Debug, Clone, PartialEq, Eq)]
pub enum Commands {
    /// The interactive interface.
    Run,
    /// A screenshot of the interface that a configuration describes.
    Screenshot { config: String, output: Option<String>, width: u16, height: u16 },
    /// A command run against a configuration, and the resulting one.
    Execute { config: String, command: String, output: Option<String>, screenshot: bool, width: u16, height: u16 },
    /// The current state written as a configuration.
    SaveState { output: Option<String> },
    /// A test script run without a terminal.
    Test { script: String, config: Option<String>, settle_timeout: u64, verbose: bool, overwrite: bool },
}

/// The parsed command line.
#[derive(Debug)]
pub struct Cli {
    pub command: Option<Commands>,
}

impl Cli {
    /// The command to run: the one given, else the interactive interface.
    pub fn into_command(self) -> (r: Commands)
        ensures
            r == match self.command {
                Some(c) => c,
                None => Commands::Run,
            },
    {
        match self.command {
            Some(c) => c,
            None => Commands::Run,
        }
    }
}

} // verus!
