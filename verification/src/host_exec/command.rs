use vstd::prelude::*;

use crate::error::Error;

verus! {

/// A command to run on the host: a shell command line, or a program and its arguments.
pub enum HostCmd {
    Shell(String),
    Exec(Vec<String>),
}

/// The host the tool runs commands on.
pub trait Host {
    fn run_group(&mut self, cmds: &[HostCmd], label: &str) -> Result<bool, Error>;

    fn copy_dir(&mut self, src: &str, dest: &str) -> Result<bool, Error>;
}

} // verus!
