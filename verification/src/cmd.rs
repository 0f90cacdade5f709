//! thegarii commands

use vstd::prelude::*;

verus! {

/// The arguments of `get`: the height of the block to get.
#[derive(Debug, Clone, Copy, PartialEq, Eq, Structural)]
pub struct GetArgs {
    pub height: u64,
}

/// The arguments of `poll`: the heights to poll, from `start` up to, but not including, `end`.
#[derive(Debug, Clone, Copy, PartialEq, Eq, Structural)]
pub struct PollArgs {
    pub start: u64,
    pub end: u64,
}

#[derive(Debug, Clone, Copy, PartialEq, Eq, Structural)]
pub enum Command {
    /// Get a block from database or fetch it
    Get(GetArgs),
    /// Dry-run random polling with time estimate
    Poll(PollArgs),
}

#[derive(Debug, Clone, Copy, PartialEq, Eq, Structural)]
pub struct Opt {
    /// Activate debug mode
    pub debug: bool,
    /// commands
    pub command: Option<Command>,
}

impl Opt {
    /// The default log filter: everything of this crate in debug mode, else `info`.
    pub fn log_filter(&self) -> (res: &'static str)
        ensures
            self.debug ==> res@ == "thegarii"@,
            !self.debug ==> res@ == "info"@,
    {
        if self.debug {
            "thegarii"
        } else {
            "info"
        }
    }
}

} // verus!
