//! A Linux system tuner: hardware detection from the contents of kernel
//! interfaces, workload profiles that resolve to sysctl changes, snapshots for
//! rollback, and the state machine of the interactive view.
use vstd::prelude::*;

pub mod cli;
pub mod text;
pub mod probe;
pub mod detect;
pub mod optimize;
pub mod profile;
pub mod state;
pub mod tui;

verus! {
} // verus!
