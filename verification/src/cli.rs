//! The commands of the command line.
use vstd::prelude::*;

verus! {

/// The parsed command line: a subcommand, or none for the interactive view.
#[derive(Debug, Clone)]
pub struct Cli {
    pub command: Option<Command>,
}

/// A subcommand.
#[derive(Debug, Clone)]
pub enum Command {
    /// Scan system hardware and current configuration.
    Scan,
    /// Apply an optimization profile (`developer` unless named), or only show
    /// what would change.
    Apply { profile: String, dry_run: bool },
    /// Roll back to the snapshot stored at the given path.
    Rollback { snapshot: String },
    /// List the available profiles.
    List,
}

} // verus!
