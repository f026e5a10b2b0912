//! What holds of every run, proved from the contract of [`Pipeline::run`].
//!
//! Each law takes the report of a run, and where it speaks of the units, the
//! units as they were before the run and as they are after it. Its
//! hypotheses are the clauses that `run` ensures.
//!
//! [`Pipeline::run`]: crate::pipeline::Pipeline::run

use vstd::prelude::*;
use crate::action::{Outcome, Slot};
use crate::pipeline::{consumed_by, yielded_by};
use crate::report::{
    calls, forward_order, halted_forward_order, lemma_forward_order_contains,
    lemma_rolled_back_order_contains, lemma_run_step_by_step, sweep_order, Failure, Report,
    Terminal,
};
use crate::transaction::Transaction;

verus! {

/// The action in `slot` of `unit`, whenever it is invoked, succeeds.
pub open spec fn always_succeeds<E, R, S>(unit: Transaction<E, R, S>, slot: Slot) -> bool where
    E: FnOnce() -> Outcome,
    R: FnOnce() -> Outcome,
    S: FnOnce() -> Outcome,
 {
    forall|outcome: Outcome| unit.may_yield(slot, outcome) ==> outcome is Ok
}

/// A step of the forward phase that failed is the failure that the report
/// names and the last step of the forward phase, and the run is rolled back.
pub proof fn law_forward_failure_is_reported(report: Report, n: nat, i: int)
    requires
        report.describes_run(n),
        0 <= i < report.steps@.len(),
        report.steps@[i].slot.is_forward(),
        report.steps@[i].outcome is Err,
    ensures
        report.state == Terminal::RolledBack,
        report.failure == Some(
            Failure { unit: report.steps@[i].unit, slot: report.steps@[i].slot },
        ),
        i == halted_forward_order(report.steps@[i].unit as int, report.steps@[i].slot).len() - 1,
{
    lemma_run_step_by_step(report, n);
    let steps = report.steps@;
    let f = report.failure->0;
    let head = halted_forward_order(f.unit as int, f.slot).len();
    if i >= head {
        assert(calls(steps)[head + (i - head)].1 == Slot::Rollback);
    }
}

/// If `execute` and `script` of every unit succeed, the run is committed:
/// the forward phase goes through every unit, no rollback is invoked, and
/// every unit still holds its rollback action.
pub proof fn law_success_commits<E, R, S>(
    before: Seq<Transaction<E, R, S>>,
    after: Seq<Transaction<E, R, S>>,
    report: Report,
) where E: FnOnce() -> Outcome, R: FnOnce() -> Outcome, S: FnOnce() -> Outcome
    requires
        report.describes_run(before.len()),
        yielded_by(before, report.steps@),
        consumed_by(before, after, calls(report.steps@)),
        forall|u: int|
            0 <= u < before.len() ==> always_succeeds(#[trigger] before[u], Slot::Execute)
                && always_succeeds(before[u], Slot::Script),
    ensures
        report.state == Terminal::Committed,
        report.failure is None,
        calls(report.steps@) == forward_order(before.len() as int),
        forall|i: int| 0 <= i < report.steps@.len() ==> (#[trigger] report.steps@[i]).slot.is_forward(),
        forall|u: int|
            0 <= u < before.len() ==> (#[trigger] after[u]).rollback_action()
                == before[u].rollback_action(),
{
    let steps = report.steps@;
    let n = before.len() as int;
    lemma_run_step_by_step(report, before.len());
    if report.failure is Some {
        let f = report.failure->0;
        let last = halted_forward_order(f.unit as int, f.slot).len() - 1;
        assert(before[steps[last].unit as int].may_yield(steps[last].slot, steps[last].outcome));
    }
    assert forall|u: int| 0 <= u < before.len() implies (#[trigger] after[u]).rollback_action()
        == before[u].rollback_action() by {
        lemma_forward_order_contains(n, (u, Slot::Rollback));
    }
}

/// If `execute` of unit `k` fails, the run is rolled back. The forward phase
/// ends with that step; the sweep then invokes `rollback` of unit `k - 1`,
/// of unit `k - 2`, and so on down to unit 0. `rollback` of unit `k` is not
/// invoked, and no action of a unit after `k` is.
pub proof fn law_execute_failure<E, R, S>(
    before: Seq<Transaction<E, R, S>>,
    after: Seq<Transaction<E, R, S>>,
    report: Report,
    i: int,
) where E: FnOnce() -> Outcome, R: FnOnce() -> Outcome, S: FnOnce() -> Outcome
    requires
        report.describes_run(before.len()),
        consumed_by(before, after, calls(report.steps@)),
        0 <= i < report.steps@.len(),
        report.steps@[i].slot == Slot::Execute,
        report.steps@[i].outcome is Err,
    ensures
        report.state == Terminal::RolledBack,
        report.failure == Some(Failure { unit: report.steps@[i].unit, slot: Slot::Execute }),
        ({
            let k = report.steps@[i].unit as int;
            &&& 0 <= k < before.len()
            &&& i == 2 * k
            &&& calls(report.steps@) == forward_order(k).push((k, Slot::Execute)) + sweep_order(k)
            &&& report.steps@.len() == 3 * k + 1
            &&& forall|j: int|
                0 <= j < k ==> (#[trigger] report.steps@[2 * k + 1 + j]).unit == k - 1 - j
                    && report.steps@[2 * k + 1 + j].slot == Slot::Rollback
            &&& after[k].rollback_action() == before[k].rollback_action()
            &&& after[k].script_action() == before[k].script_action()
            &&& forall|u: int|
                k < u < before.len() ==> (#[trigger] after[u]).is_after(
                    &before[u],
                    false,
                    false,
                    false,
                )
        }),
{
    let steps = report.steps@;
    let k = steps[i].unit as int;
    law_forward_failure_is_reported(report, before.len(), i);
    lemma_run_step_by_step(report, before.len());
    assert forall|j: int| 0 <= j < k implies (#[trigger] steps[2 * k + 1 + j]).unit == k - 1 - j
        && steps[2 * k + 1 + j].slot == Slot::Rollback by {
        assert(calls(steps)[2 * k + 1 + j] == (k - 1 - j, Slot::Rollback));
    }
    lemma_rolled_back_order_contains(k, Slot::Execute, (k, Slot::Rollback));
    lemma_rolled_back_order_contains(k, Slot::Execute, (k, Slot::Script));
    assert forall|u: int| k < u < before.len() implies (#[trigger] after[u]).is_after(
        &before[u],
        false,
        false,
        false,
    ) by {
        lemma_rolled_back_order_contains(k, Slot::Execute, (u, Slot::Execute));
        lemma_rolled_back_order_contains(k, Slot::Execute, (u, Slot::Script));
        lemma_rolled_back_order_contains(k, Slot::Execute, (u, Slot::Rollback));
    }
}

/// If `script` of unit `k` fails, the run is rolled back, and the sweep
/// starts with unit `k` itself: it invokes `rollback` of unit `k`, of unit
/// `k - 1`, and so on down to unit 0. No action of a unit after `k` is
/// invoked.
pub proof fn law_script_failure<E, R, S>(
    before: Seq<Transaction<E, R, S>>,
    after: Seq<Transaction<E, R, S>>,
    report: Report,
    i: int,
) where E: FnOnce() -> Outcome, R: FnOnce() -> Outcome, S: FnOnce() -> Outcome
    requires
        report.describes_run(before.len()),
        consumed_by(before, after, calls(report.steps@)),
        0 <= i < report.steps@.len(),
        report.steps@[i].slot == Slot::Script,
        report.steps@[i].outcome is Err,
    ensures
        report.state == Terminal::RolledBack,
        report.failure == Some(Failure { unit: report.steps@[i].unit, slot: Slot::Script }),
        ({
            let k = report.steps@[i].unit as int;
            &&& 0 <= k < before.len()
            &&& i == 2 * k + 1
            &&& calls(report.steps@) == forward_order(k + 1) + sweep_order(k + 1)
            &&& report.steps@.len() == 3 * k + 3
            &&& forall|j: int|
                0 <= j <= k ==> (#[trigger] report.steps@[2 * k + 2 + j]).unit == k - j
                    && report.steps@[2 * k + 2 + j].slot == Slot::Rollback
            &&& after[k].rollback_action() is None
            &&& forall|u: int|
                k < u < before.len() ==> (#[trigger] after[u]).is_after(
                    &before[u],
                    false,
                    false,
                    false,
                )
        }),
{
    let steps = report.steps@;
    let k = steps[i].unit as int;
    law_forward_failure_is_reported(report, before.len(), i);
    lemma_run_step_by_step(report, before.len());
    assert forall|j: int| 0 <= j <= k implies (#[trigger] steps[2 * k + 2 + j]).unit == k - j
        && steps[2 * k + 2 + j].slot == Slot::Rollback by {
        assert(calls(steps)[2 * k + 2 + j] == (k - j, Slot::Rollback));
    }
    lemma_rolled_back_order_contains(k, Slot::Script, (k, Slot::Rollback));
    assert forall|u: int| k < u < before.len() implies (#[trigger] after[u]).is_after(
        &before[u],
        false,
        false,
        false,
    ) by {
        lemma_rolled_back_order_contains(k, Slot::Script, (u, Slot::Execute));
        lemma_rolled_back_order_contains(k, Slot::Script, (u, Slot::Script));
        lemma_rolled_back_order_contains(k, Slot::Script, (u, Slot::Rollback));
    }
}

/// The sweep is complete: whatever the rollback of a unit yields, the
/// rollback of every unit below it is still invoked, after it and in
/// decreasing order of the units.
pub proof fn law_sweep_goes_on(report: Report, n: nat, i: int, u: int)
    requires
        report.describes_run(n),
        0 <= i < report.steps@.len(),
        report.steps@[i].slot == Slot::Rollback,
        0 <= u < report.steps@[i].unit,
    ensures
        i + (report.steps@[i].unit - u) < report.steps@.len(),
        report.steps@[i + (report.steps@[i].unit - u)].unit == u,
        report.steps@[i + (report.steps@[i].unit - u)].slot == Slot::Rollback,
{
    lemma_run_step_by_step(report, n);
    let steps = report.steps@;
    let later = i + (steps[i].unit - u);
    if report.failure is Some {
        let f = report.failure->0;
        let head = halted_forward_order(f.unit as int, f.slot).len();
        if i >= head {
            assert(calls(steps)[head + (i - head)].1 == Slot::Rollback);
            assert(calls(steps)[head + (later - head)].1 == Slot::Rollback);
        }
    }
}

} // verus!
