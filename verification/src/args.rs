//! Options that steer one reconciliation run.
//!
//! The command-line front end parses flags into its own mirror of these
//! types and converts; the library only ever sees the plain values.
use vstd::prelude::*;

verus! {

/// Options accepted by one run.
pub struct Args {
    /// Upgrade every outdated package after reporting.
    pub upgrade: bool,
    /// Restrict the report to outdated packages.
    pub outdated: bool,
    /// Do not exempt packages installed from a local path.
    pub no_ignore_local: bool,
    /// Package names excluded from comparison and upgrade.
    pub ignore: Vec<String>,
    /// Emit detailed progress information.
    pub verbose: bool,
}

/// The one subcommand under which the tool is invoked.
pub enum Command {
    Installed(Args),
}

} // verus!
