//! Script actions for units that have nothing to run after their forward
//! action. A unit always holds a script, so such a unit is given one of these.

use vstd::prelude::*;
use crate::action::Outcome;

verus! {

/// The script of the file-copy unit: there is nothing to run once the file is
/// copied, so it succeeds.
pub fn run_script_task() -> (outcome: Outcome)
    ensures
        outcome == Ok::<(), String>(()),
{
    Ok(())
}

/// The script of the create-directory unit: there is nothing to run once the
/// directory exists, so it succeeds.
pub fn create_run_script_task() -> (outcome: Outcome)
    ensures
        outcome == Ok::<(), String>(()),
{
    Ok(())
}

} // verus!
