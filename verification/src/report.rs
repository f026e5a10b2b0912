//! What a run of a pipeline reports, and the shape every such report has.

use vstd::prelude::*;
use crate::action::{Outcome, Slot};

verus! {

/// One invocation of an action: which unit, which slot, and what it yielded.
#[derive(Debug, PartialEq, Eq)]
pub struct Step {
    pub unit: usize,
    pub slot: Slot,
    pub outcome: Outcome,
}

/// The forward action that stopped the forward phase.
#[derive(Clone, Copy, Debug, PartialEq, Eq, Structural)]
pub struct Failure {
    pub unit: usize,
    pub slot: Slot,
}

/// How a run ended.
#[derive(Clone, Copy, Debug, PartialEq, Eq, Structural)]
pub enum Terminal {
    /// Every unit's `execute` and `script` succeeded.
    Committed,
    /// A forward action failed and the rollback sweep has run.
    RolledBack,
}

/// The report of one run: every action invoked, in the order of invocation,
/// the forward action that failed, if one did, and the terminal state.
#[derive(Debug, PartialEq, Eq)]
pub struct Report {
    pub steps: Vec<Step>,
    pub failure: Option<Failure>,
    pub state: Terminal,
}

/// An action of a pipeline: the index of its unit, and its slot.
pub type Call = (int, Slot);

/// The forward phase over the first `k` units: `execute`, then `script`, of
/// unit 0, then of unit 1, and so on.
pub open spec fn forward_order(k: int) -> Seq<Call> {
    Seq::new(
        (2 * k) as nat,
        |i: int|
            (
                i / 2,
                if i % 2 == 0 {
                    Slot::Execute
                } else {
                    Slot::Script
                },
            ),
    )
}

/// The rollback sweep over the first `k` units: `rollback` of unit `k - 1`,
/// then of unit `k - 2`, down to unit 0.
pub open spec fn sweep_order(k: int) -> Seq<Call> {
    Seq::new(k as nat, |i: int| (k - 1 - i, Slot::Rollback))
}

/// The number of units that the sweep covers after the forward action `slot`
/// of unit `unit` has failed. A failed `execute` was not applied, so its unit
/// is left out; a failed `script` follows an applied `execute`, so its unit is
/// included.
pub open spec fn sweep_len(unit: int, slot: Slot) -> int {
    match slot {
        Slot::Execute => unit,
        _ => unit + 1,
    }
}

/// The forward phase that ends with the failure of `slot` in unit `unit`.
pub open spec fn halted_forward_order(unit: int, slot: Slot) -> Seq<Call> {
    match slot {
        Slot::Execute => forward_order(unit).push((unit, Slot::Execute)),
        _ => forward_order(unit + 1),
    }
}

/// Every action invoked by a run in which `slot` of unit `unit` fails: the
/// forward phase up to the failure, then the sweep.
pub open spec fn rolled_back_order(unit: int, slot: Slot) -> Seq<Call> {
    halted_forward_order(unit, slot) + sweep_order(sweep_len(unit, slot))
}

/// The actions that `steps` records, in order.
pub open spec fn calls(steps: Seq<Step>) -> Seq<Call> {
    steps.map_values(|s: Step| (s.unit as int, s.slot))
}

/// One more unit in the forward phase adds its `execute` and its `script`.
pub proof fn lemma_forward_order_next(k: int)
    requires
        0 <= k,
    ensures
        forward_order(k + 1) == forward_order(k).push((k, Slot::Execute)).push((k, Slot::Script)),
{
    let longer = forward_order(k).push((k, Slot::Execute)).push((k, Slot::Script));
    assert(forward_order(k + 1).len() == longer.len());
    assert forall|i: int| 0 <= i < longer.len() implies forward_order(k + 1)[i] == longer[i] by {
        if i == 2 * k {
            assert(i / 2 == k && i % 2 == 0);
        } else if i == 2 * k + 1 {
            assert(i / 2 == k && i % 2 == 1);
        } else {
            assert(longer[i] == forward_order(k)[i]);
        }
    }
    assert(forward_order(k + 1) =~= longer);
}

/// Recording one more step adds its call to the calls recorded.
pub proof fn lemma_calls_push(steps: Seq<Step>, step: Step)
    ensures
        calls(steps.push(step)) == calls(steps).push((step.unit as int, step.slot)),
{
    assert(calls(steps.push(step)) =~= calls(steps).push((step.unit as int, step.slot)));
}

/// The forward phase over `k` units invokes `execute` and `script` of each of
/// them, and nothing else.
pub proof fn lemma_forward_order_contains(k: int, call: Call)
    requires
        0 <= k,
    ensures
        forward_order(k).contains(call) <==> 0 <= call.0 < k && call.1.is_forward(),
{
    let order = forward_order(k);
    if 0 <= call.0 < k && call.1.is_forward() {
        let at = if call.1 == Slot::Execute {
            2 * call.0
        } else {
            2 * call.0 + 1
        };
        assert(at / 2 == call.0 && at % 2 == at - 2 * call.0);
        assert(order[at] == call);
    }
    if order.contains(call) {
        let at = choose|i: int| 0 <= i < order.len() && order[i] == call;
        assert(0 <= at / 2 < k);
    }
}

/// The sweep over `k` units invokes `rollback` of each of them, and nothing
/// else.
pub proof fn lemma_sweep_order_contains(k: int, call: Call)
    requires
        0 <= k,
    ensures
        sweep_order(k).contains(call) <==> 0 <= call.0 < k && call.1 == Slot::Rollback,
{
    let order = sweep_order(k);
    if 0 <= call.0 < k && call.1 == Slot::Rollback {
        assert(order[k - 1 - call.0] == call);
    }
}

/// Which actions a rolled-back run invokes: `execute` of every unit up to the
/// failing one, and `script` and `rollback` of every unit that the sweep
/// covers.
pub proof fn lemma_rolled_back_order_contains(unit: int, slot: Slot, call: Call)
    requires
        0 <= unit,
        slot.is_forward(),
    ensures
        rolled_back_order(unit, slot).contains(call) <==> match call.1 {
            Slot::Execute => 0 <= call.0 <= unit,
            _ => 0 <= call.0 < sweep_len(unit, slot),
        },
{
    let head = halted_forward_order(unit, slot);
    let tail = sweep_order(sweep_len(unit, slot));
    let all = rolled_back_order(unit, slot);
    lemma_sweep_order_contains(sweep_len(unit, slot), call);
    lemma_forward_order_contains(unit, call);
    lemma_forward_order_contains(unit + 1, call);
    if head.contains(call) {
        let at = choose|i: int| 0 <= i < head.len() && head[i] == call;
        assert(all[at] == call);
        if slot == Slot::Execute && at < head.len() - 1 {
            assert(forward_order(unit)[at] == call);
        }
    }
    if tail.contains(call) {
        let at = choose|i: int| 0 <= i < tail.len() && tail[i] == call;
        assert(all[head.len() + at] == call);
    }
    if all.contains(call) {
        let at = choose|i: int| 0 <= i < all.len() && all[i] == call;
        if at < head.len() {
            assert(head[at] == call);
        } else {
            assert(tail[at - head.len()] == call);
        }
    }
    if slot == Slot::Execute {
        assert(head[head.len() - 1] == (unit, Slot::Execute));
        if forward_order(unit).contains(call) {
            let at = choose|i: int| 0 <= i < forward_order(unit).len() && forward_order(unit)[i] == call;
            assert(head[at] == call);
        }
    }
}

/// The call at position `i` of the forward phase.
pub open spec fn forward_call(i: int) -> Call {
    (
        i / 2,
        if i % 2 == 0 {
            Slot::Execute
        } else {
            Slot::Script
        },
    )
}

/// A report that describes a run, step by step: the forward steps come first,
/// unit by unit, and the rollback steps follow, newest unit first.
pub proof fn lemma_run_step_by_step(report: Report, n: nat)
    requires
        report.describes_run(n),
    ensures
        calls(report.steps@).len() == report.steps@.len(),
        forall|i: int|
            0 <= i < report.steps@.len() ==> calls(report.steps@)[i] == (
                (#[trigger] report.steps@[i]).unit as int,
                report.steps@[i].slot,
            ),
        match report.failure {
            None => {
                &&& report.steps@.len() == 2 * n
                &&& forall|i: int| 0 <= i < 2 * n ==> #[trigger] calls(report.steps@)[i] == forward_call(i)
            },
            Some(f) => {
                let head = halted_forward_order(f.unit as int, f.slot).len();
                let tail = sweep_len(f.unit as int, f.slot);
                &&& head == (if f.slot == Slot::Execute { 2 * f.unit + 1 } else { 2 * f.unit + 2 })
                &&& report.steps@.len() == head + tail
                &&& calls(report.steps@)[head - 1] == (f.unit as int, f.slot)
                &&& forall|i: int| 0 <= i < head ==> #[trigger] calls(report.steps@)[i] == forward_call(i)
                &&& forall|j: int|
                    0 <= j < tail ==> #[trigger] calls(report.steps@)[head + j] == (
                        tail - 1 - j,
                        Slot::Rollback,
                    )
            },
        },
{
    let steps = report.steps@;
    let order = calls(steps);
    assert(order.len() == steps.len());
    match report.failure {
        None => {
            assert forall|i: int| 0 <= i < 2 * n implies #[trigger] order[i] == forward_call(i) by {
                assert(order[i] == forward_order(n as int)[i]);
            }
        },
        Some(f) => {
            let head = halted_forward_order(f.unit as int, f.slot);
            let tail = sweep_order(sweep_len(f.unit as int, f.slot));
            assert(order.len() == head.len() + tail.len());
            assert forall|i: int| 0 <= i < head.len() implies #[trigger] order[i] == forward_call(
                i,
            ) by {
                assert(order[i] == head[i]);
                if f.slot == Slot::Execute && i < head.len() - 1 {
                    assert(head[i] == forward_order(f.unit as int)[i]);
                }
            }
            assert forall|j: int| 0 <= j < tail.len() implies #[trigger] order[head.len() + j] == (
                tail.len() - 1 - j,
                Slot::Rollback,
            ) by {
                assert(order[head.len() + j] == tail[j]);
            }
            assert(order[head.len() - 1] == head[head.len() - 1]);
        },
    }
}

impl Report {
    /// The report has the shape of a run over `n` units.
    ///
    /// With no failure the run is committed, went through the whole forward
    /// phase, and every step succeeded. With a failure the run is rolled
    /// back: the failing step is the last of the forward phase and the only
    /// forward step that failed, and the sweep follows it. What the rollback
    /// actions yielded is not constrained: the sweep goes on whatever they
    /// yield.
    pub open spec fn describes_run(&self, n: nat) -> bool {
        match self.failure {
            None => {
                &&& self.state == Terminal::Committed
                &&& calls(self.steps@) == forward_order(n as int)
                &&& forall|i: int| 0 <= i < self.steps@.len() ==> (#[trigger] self.steps@[i]).outcome is Ok
            },
            Some(f) => {
                let last = halted_forward_order(f.unit as int, f.slot).len() - 1;
                &&& self.state == Terminal::RolledBack
                &&& 0 <= f.unit < n
                &&& f.slot.is_forward()
                &&& calls(self.steps@) == rolled_back_order(f.unit as int, f.slot)
                &&& forall|i: int| 0 <= i < last ==> (#[trigger] self.steps@[i]).outcome is Ok
                &&& self.steps@[last].outcome is Err
            },
        }
    }
}

} // verus!
