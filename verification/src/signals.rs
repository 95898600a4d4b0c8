//! The zero-payload messages that the workers exchange.

use vstd::prelude::*;

verus! {

/// A message passed between two workers.
#[derive(Debug, Clone, Copy, PartialEq, Eq, Structural)]
pub enum Signal {
    /// The watched tree differs from the snapshot that was accepted last.
    FsMod,
    /// The supervised process may be spawned, for the first time or again.
    ProcProceed,
}

} // verus!
