//! The binaries that the `update` command can update.
use crate::update::revela::RevelaUpdateTool;
use vstd::prelude::*;

verus! {

/// Update the binaries that the command line tool depends on.
///
/// This is useful for a tool that was installed by downloading its binary
/// directly, where no package manager keeps it up to date.
#[derive(Debug)]
pub enum UpdateTool {
    Revela(RevelaUpdateTool),
}

} // verus!
