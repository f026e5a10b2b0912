//! Action slots and the error an action reports.

use vstd::prelude::*;

verus! {

/// The three actions a unit holds.
#[derive(Clone, Copy, Debug, PartialEq, Eq, Structural)]
pub enum Slot {
    /// The forward action.
    Execute,
    /// The secondary action, run right after `Execute` succeeds.
    Script,
    /// The compensating action, which undoes `Execute`.
    Rollback,
}

impl Slot {
    /// Whether the slot belongs to the forward phase.
    pub open spec fn is_forward(self) -> bool {
        self != Slot::Rollback
    }
}

/// What an action yields: success, or the cause of its failure.
pub type Outcome = Result<(), String>;

/// The failure of an action, tagged with the slot it was invoked from.
#[derive(Debug, PartialEq, Eq)]
pub struct ActionError {
    pub slot: Slot,
    pub cause: String,
}

} // verus!
