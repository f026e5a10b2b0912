//! The runner: forward phase, then, after a failure, the rollback sweep.

use vstd::prelude::*;
use crate::action::{Outcome, Slot};
use crate::report::{
    calls, forward_order, halted_forward_order, lemma_calls_push, lemma_forward_order_contains,
    lemma_forward_order_next, lemma_rolled_back_order_contains, sweep_len, sweep_order, Failure,
    Report, Step, Terminal,
};
use crate::transaction::Transaction;

verus! {

/// An ordered sequence of units, and the flag that tells whether the last run
/// had to roll back.
pub struct Pipeline<E, R, S> {
    units: Vec<Transaction<E, R, S>>,
    rollback_required: bool,
}

/// Every step names a unit of `units`, and its outcome is one that the action
/// in its slot can yield.
pub open spec fn yielded_by<E, R, S>(units: Seq<Transaction<E, R, S>>, steps: Seq<Step>) -> bool where
    E: FnOnce() -> Outcome,
    R: FnOnce() -> Outcome,
    S: FnOnce() -> Outcome,
 {
    forall|i: int|
        0 <= i < steps.len() ==> {
            let s = #[trigger] steps[i];
            0 <= s.unit < units.len() && units[s.unit as int].may_yield(s.slot, s.outcome)
        }
}

/// `after` is `before` with exactly the slots emptied whose action is among
/// `invoked`; every other slot still holds its action.
pub open spec fn consumed_by<E, R, S>(
    before: Seq<Transaction<E, R, S>>,
    after: Seq<Transaction<E, R, S>>,
    invoked: Seq<(int, Slot)>,
) -> bool where E: FnOnce() -> Outcome, R: FnOnce() -> Outcome, S: FnOnce() -> Outcome {
    &&& after.len() == before.len()
    &&& forall|u: int|
        0 <= u < before.len() ==> (#[trigger] after[u]).is_after(
            &before[u],
            invoked.contains((u, Slot::Execute)),
            invoked.contains((u, Slot::Script)),
            invoked.contains((u, Slot::Rollback)),
        )
}

impl<E, R, S> Pipeline<E, R, S> where
    E: FnOnce() -> Outcome,
    R: FnOnce() -> Outcome,
    S: FnOnce() -> Outcome,
 {
    /// The units, in order.
    pub closed spec fn units(&self) -> Seq<Transaction<E, R, S>> {
        self.units@
    }

    /// Whether the last run had to roll back.
    pub closed spec fn flagged(&self) -> bool {
        self.rollback_required
    }

    /// No action of any unit has been invoked.
    pub open spec fn fresh(&self) -> bool {
        forall|u: int| 0 <= u < self.units().len() ==> (#[trigger] self.units()[u]).fresh()
    }

    /// Every action still held by a unit may be invoked.
    pub open spec fn callable(&self) -> bool {
        forall|u: int| 0 <= u < self.units().len() ==> (#[trigger] self.units()[u]).callable()
    }

    /// A pipeline over `units`, in the order given.
    pub fn new(units: Vec<Transaction<E, R, S>>) -> (pipeline: Self)
        ensures
            pipeline.units() == units@,
            !pipeline.flagged(),
    {
        Pipeline { units, rollback_required: false }
    }

    /// The number of units.
    pub fn len(&self) -> (n: usize)
        ensures
            n == self.units().len(),
    {
        self.units.len()
    }

    /// The unit at `index`.
    pub fn unit(&self, index: usize) -> (unit: &Transaction<E, R, S>)
        requires
            index < self.units().len(),
        ensures
            *unit == self.units()[index as int],
    {
        &self.units[index]
    }

    /// Whether the last run had to roll back.
    pub fn rollback_required(&self) -> (required: bool)
        ensures
            required == self.flagged(),
    {
        self.rollback_required
    }

    /// Whether no action of any unit has been invoked yet, which is what
    /// [`Pipeline::run`] asks for.
    pub fn is_fresh(&self) -> (fresh: bool)
        ensures
            fresh == self.fresh(),
    {
        let mut i: usize = 0;
        while i < self.units.len()
            invariant
                i <= self.units@.len(),
                forall|u: int| 0 <= u < i ==> (#[trigger] self.units@[u]).fresh(),
            decreases self.units@.len() - i,
        {
            if !self.units[i].is_fresh() {
                assert(!self.units()[i as int].fresh());
                return false;
            }
            i += 1;
        }
        true
    }

    /// The forward phase: `execute`, then `script`, of each unit in turn, up
    /// to the first failure. Appends one step per action invoked and returns
    /// the failure, if there was one.
    fn forward(&mut self, steps: &mut Vec<Step>) -> (failure: Option<Failure>)
        requires
            old(steps)@.len() == 0,
            old(self).fresh(),
            old(self).callable(),
        ensures
            final(self).flagged() == old(self).flagged(),
            final(self).units().len() == old(self).units().len() <= usize::MAX,
            yielded_by(old(self).units(), final(steps)@),
            match failure {
                None => {
                    &&& calls(final(steps)@) == forward_order(old(self).units().len() as int)
                    &&& forall|i: int|
                        0 <= i < final(steps)@.len() ==> (#[trigger] final(steps)@[i]).outcome is Ok
                    &&& forall|u: int|
                        0 <= u < old(self).units().len() ==> (#[trigger] final(self).units()[u]).is_after(
                            &old(self).units()[u],
                            true,
                            true,
                            false,
                        )
                },
                Some(f) => {
                    let order = halted_forward_order(f.unit as int, f.slot);
                    &&& 0 <= f.unit < old(self).units().len()
                    &&& f.slot.is_forward()
                    &&& calls(final(steps)@) == order
                    &&& forall|i: int|
                        0 <= i < order.len() - 1 ==> (#[trigger] final(steps)@[i]).outcome is Ok
                    &&& final(steps)@[order.len() - 1].outcome is Err
                    &&& forall|u: int|
                        0 <= u < old(self).units().len() ==> (#[trigger] final(self).units()[u]).is_after(
                            &old(self).units()[u],
                            u <= f.unit,
                            u < sweep_len(f.unit as int, f.slot),
                            false,
                        )
                },
            },
    {
        let ghost before = self.units@;
        let n: usize = self.units.len();
        let mut i: usize = 0;
        while i < n
            invariant
                before == old(self).units@,
                n == before.len(),
                self.units@.len() == n,
                self.rollback_required == old(self).rollback_required,
                i <= n,
                steps@.len() == 2 * i,
                calls(steps@) == forward_order(i as int),
                forall|t: int| 0 <= t < steps@.len() ==> (#[trigger] steps@[t]).outcome is Ok,
                yielded_by(before, steps@),
                forall|u: int|
                    0 <= u < i ==> (#[trigger] self.units@[u]).is_after(&before[u], true, true, false),
                forall|u: int| i <= u < n ==> self.units@[u] == before[u],
                forall|u: int| 0 <= u < n ==> (#[trigger] before[u]).fresh() && before[u].callable(),
            decreases n - i,
        {
            assert(before[i as int].fresh());
            let executed = match self.units[i].execute_fn() {
                Ok(()) => Step { unit: i, slot: Slot::Execute, outcome: Ok(()) },
                Err(e) => Step { unit: i, slot: Slot::Execute, outcome: Err(e.cause) },
            };
            let failed = executed.outcome.is_err();
            proof {
                lemma_calls_push(steps@, executed);
            }
            steps.push(executed);
            if failed {
                return Some(Failure { unit: i, slot: Slot::Execute });
            }
            let scripted = match self.units[i].script_fn() {
                Ok(()) => Step { unit: i, slot: Slot::Script, outcome: Ok(()) },
                Err(e) => Step { unit: i, slot: Slot::Script, outcome: Err(e.cause) },
            };
            let failed = scripted.outcome.is_err();
            proof {
                lemma_calls_push(steps@, scripted);
                lemma_forward_order_next(i as int);
            }
            steps.push(scripted);
            if failed {
                return Some(Failure { unit: i, slot: Slot::Script });
            }
            i += 1;
        }
        None
    }

    /// The rollback sweep: `rollback` of unit `from - 1`, then of each unit
    /// below it, down to unit 0. Appends one step per unit. A rollback that
    /// fails is recorded like one that succeeds, and the sweep goes on.
    fn sweep(&mut self, from: usize, steps: &mut Vec<Step>)
        requires
            from <= old(self).units().len(),
            forall|u: int|
                0 <= u < from ==> (#[trigger] old(self).units()[u]).pending(Slot::Rollback)
                    && old(self).units()[u].callable(),
        ensures
            final(self).flagged() == old(self).flagged(),
            final(self).units().len() == old(self).units().len(),
            final(steps)@.len() == old(steps)@.len() + from,
            final(steps)@.subrange(0, old(steps)@.len() as int) == old(steps)@,
            calls(final(steps)@) == calls(old(steps)@) + sweep_order(from as int),
            forall|j: int|
                0 <= j < from ==> old(self).units()[from - 1 - j].may_yield(
                    Slot::Rollback,
                    (#[trigger] final(steps)@[old(steps)@.len() + j]).outcome,
                ),
            forall|u: int|
                0 <= u < old(self).units().len() ==> (#[trigger] final(self).units()[u]).is_after(
                    &old(self).units()[u],
                    false,
                    false,
                    u < from,
                ),
    {
        let ghost before = self.units@;
        let ghost base = steps@;
        let mut j: usize = from;
        while j > 0
            invariant
                before == old(self).units@,
                base == old(steps)@,
                self.units@.len() == before.len(),
                self.rollback_required == old(self).rollback_required,
                j <= from <= before.len(),
                steps@.len() == base.len() + (from - j),
                steps@.subrange(0, base.len() as int) == base,
                calls(steps@) == calls(base) + sweep_order(from as int).subrange(0, from - j),
                forall|t: int|
                    0 <= t < from - j ==> before[from - 1 - t].may_yield(
                        Slot::Rollback,
                        (#[trigger] steps@[base.len() + t]).outcome,
                    ),
                forall|u: int|
                    0 <= u < before.len() ==> (#[trigger] self.units@[u]).is_after(
                        &before[u],
                        false,
                        false,
                        j <= u < from,
                    ),
                forall|u: int|
                    0 <= u < from ==> (#[trigger] before[u]).pending(Slot::Rollback)
                        && before[u].callable(),
            decreases j,
        {
            j -= 1;
            assert(before[j as int].pending(Slot::Rollback));
            let undone = match self.units[j].rollback_fn() {
                Ok(()) => Step { unit: j, slot: Slot::Rollback, outcome: Ok(()) },
                Err(e) => Step { unit: j, slot: Slot::Rollback, outcome: Err(e.cause) },
            };
            proof {
                lemma_calls_push(steps@, undone);
                assert(calls(steps@).push((j as int, Slot::Rollback)) =~= calls(base) + sweep_order(
                    from as int,
                ).subrange(0, from - j));
                assert(steps@.push(undone).subrange(0, base.len() as int) =~= steps@.subrange(
                    0,
                    base.len() as int,
                ));
            }
            steps.push(undone);
        }
        assert(sweep_order(from as int).subrange(0, from as int) =~= sweep_order(from as int));
    }

    /// Runs the pipeline once.
    ///
    /// The forward phase invokes `execute`, then `script`, of each unit in
    /// order. If every action succeeds the run is committed and no rollback
    /// is invoked. At the first failure the forward phase stops and the
    /// rollback sweep runs, newest unit first: after a failed `execute` of
    /// unit `k` over the units below `k`, after a failed `script` of unit `k`
    /// over unit `k` and the units below it. A rollback that fails is reported
    /// and the sweep goes on.
    ///
    /// The report lists every action invoked, in order, with what it yielded.
    /// Afterwards a slot is empty exactly if its action was invoked.
    ///
    /// No action of any unit may have been invoked before: an action runs
    /// once.
    pub fn run(&mut self) -> (report: Report)
        requires
            old(self).fresh(),
            old(self).callable(),
        ensures
            report.describes_run(old(self).units().len()),
            yielded_by(old(self).units(), report.steps@),
            consumed_by(old(self).units(), final(self).units(), calls(report.steps@)),
            final(self).flagged() == (report.state == Terminal::RolledBack),
    {
        let ghost before = self.units@;
        let mut steps: Vec<Step> = Vec::new();
        self.rollback_required = false;
        assert(self.units@ == before);
        let failure = self.forward(&mut steps);
        let ghost forwarded = steps@;
        let ghost halted = self.units@;
        if let Some(f) = failure {
            self.rollback_required = true;
            assert(self.units@ == halted);
            let from: usize = match f.slot {
                Slot::Execute => f.unit,
                _ => f.unit + 1,
            };
            self.sweep(from, &mut steps);
            proof {
                assert forall|i: int| 0 <= i < steps@.len() implies {
                    let s = #[trigger] steps@[i];
                    0 <= s.unit < before.len() && before[s.unit as int].may_yield(s.slot, s.outcome)
                } by {
                    if i < forwarded.len() {
                        assert(steps@[i] == steps@.subrange(0, forwarded.len() as int)[i]);
                    } else {
                        let j = i - forwarded.len();
                        assert(calls(steps@)[i] == sweep_order(from as int)[j]);
                        assert(halted[from - 1 - j].may_yield(
                            Slot::Rollback,
                            steps@[forwarded.len() + j].outcome,
                        ));
                    }
                }
                assert(forwarded.len() == calls(forwarded).len());
                assert forall|i: int| 0 <= i < forwarded.len() - 1 implies (#[trigger] steps@[i]).outcome is Ok by {
                    assert(steps@[i] == steps@.subrange(0, forwarded.len() as int)[i]);
                    assert(forwarded[i].outcome is Ok);
                }
                assert(steps@[forwarded.len() - 1] == steps@.subrange(0, forwarded.len() as int)[
                    forwarded.len() - 1
                ]);
                assert forall|u: int| 0 <= u < before.len() implies (#[trigger] self.units@[u]).is_after(
                    &before[u],
                    calls(steps@).contains((u, Slot::Execute)),
                    calls(steps@).contains((u, Slot::Script)),
                    calls(steps@).contains((u, Slot::Rollback)),
                ) by {
                    lemma_rolled_back_order_contains(f.unit as int, f.slot, (u, Slot::Execute));
                    lemma_rolled_back_order_contains(f.unit as int, f.slot, (u, Slot::Script));
                    lemma_rolled_back_order_contains(f.unit as int, f.slot, (u, Slot::Rollback));
                    assert(self.units@[u].is_after(&halted[u], false, false, u < from));
                    assert(halted[u].is_after(
                        &before[u],
                        u <= f.unit,
                        u < sweep_len(f.unit as int, f.slot),
                        false,
                    ));
                }
            }
            Report { steps, failure, state: Terminal::RolledBack }
        } else {
            proof {
                assert forall|u: int| 0 <= u < before.len() implies (#[trigger] self.units@[u]).is_after(
                    &before[u],
                    calls(steps@).contains((u, Slot::Execute)),
                    calls(steps@).contains((u, Slot::Script)),
                    calls(steps@).contains((u, Slot::Rollback)),
                ) by {
                    lemma_forward_order_contains(before.len() as int, (u, Slot::Execute));
                    lemma_forward_order_contains(before.len() as int, (u, Slot::Script));
                    lemma_forward_order_contains(before.len() as int, (u, Slot::Rollback));
                }
            }
            Report { steps, failure, state: Terminal::Committed }
        }
    }
}

} // verus!
