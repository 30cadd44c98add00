//! The command line as the library sees it, and the entry point that starts
//! the command it names.
use vstd::prelude::*;
use crate::session::{opt_view, start_spec, string_views, wf, BranchSession, Output};

verus! {

/// A parsed command line.
#[derive(Debug)]
pub struct Cli {
    pub command: Command,
}

/// The commands that Canopy offers.
#[derive(Debug)]
pub enum Command {
    /// Create (or, with `force`, replace) `target_branch` by merging `tips` into
    /// `base`, or into the default branch when no base is given.
    Branch { force: bool, base: Option<String>, target_branch: String, tips: Vec<String> },
}

/// Starts the command that the command line names; its workflow then goes on
/// through [`BranchSession::step`].
pub fn run(cli: Cli) -> (res: (BranchSession, Output))
    ensures
        match cli.command {
            Command::Branch { force, base, target_branch, tips } => (res.0@, res.1@) == start_spec(
                force,
                opt_view(base),
                target_branch@,
                string_views(tips@),
            ),
        },
        wf(res.0@),
{
    match cli.command {
        Command::Branch { force, base, target_branch, tips } => BranchSession::start(
            force,
            base,
            target_branch,
            tips,
        ),
    }
}

} // verus!
