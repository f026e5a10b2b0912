//! A transactional task runner.
//!
//! A [`Pipeline`] owns an ordered sequence of [`Transaction`] units. Each unit
//! pairs a forward `execute` action with a compensating `rollback` action and
//! a `script` action that runs right after `execute` succeeds. The pipeline
//! runs the units in order; on the first failure it stops and rolls back the
//! units whose `execute` had been applied, newest first, best effort.
//!
//! Actions are caller-supplied, single-use callables. What they do is opaque
//! to the library: every contract is stated over the outcomes they yield.

pub mod action;
pub mod laws;
pub mod pipeline;
pub mod report;
pub mod scripts;
pub mod transaction;

pub use action::{ActionError, Outcome, Slot};
pub use pipeline::Pipeline;
pub use report::{Failure, Report, Step, Terminal};
pub use scripts::{create_run_script_task, run_script_task};
pub use transaction::Transaction;
