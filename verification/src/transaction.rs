//! A unit of work: a forward action, its compensation, and a script.

use vstd::prelude::*;
use crate::action::{ActionError, Outcome, Slot};

verus! {

/// One unit of a pipeline. Each of its three actions sits in a slot of its own
/// and can be invoked once: invoking it empties the slot.
pub struct Transaction<E, R, S> {
    execute_fn: Option<E>,
    rollback_fn: Option<R>,
    script_fn: Option<S>,
}

impl<E, R, S> Transaction<E, R, S> where
    E: FnOnce() -> Outcome,
    R: FnOnce() -> Outcome,
    S: FnOnce() -> Outcome,
 {
    /// The forward action, while it has not been invoked.
    pub closed spec fn execute_action(&self) -> Option<E> {
        self.execute_fn
    }

    /// The compensating action, while it has not been invoked.
    pub closed spec fn rollback_action(&self) -> Option<R> {
        self.rollback_fn
    }

    /// The script action, while it has not been invoked.
    pub closed spec fn script_action(&self) -> Option<S> {
        self.script_fn
    }

    /// Whether the action in `slot` has not been invoked yet.
    pub open spec fn pending(&self, slot: Slot) -> bool {
        match slot {
            Slot::Execute => self.execute_action() is Some,
            Slot::Script => self.script_action() is Some,
            Slot::Rollback => self.rollback_action() is Some,
        }
    }

    /// No action of the unit has been invoked.
    pub open spec fn fresh(&self) -> bool {
        self.pending(Slot::Execute) && self.pending(Slot::Script) && self.pending(Slot::Rollback)
    }

    /// Every action still held may be invoked.
    pub open spec fn callable(&self) -> bool {
        &&& self.execute_action() matches Some(f) ==> call_requires(f, ())
        &&& self.script_action() matches Some(f) ==> call_requires(f, ())
        &&& self.rollback_action() matches Some(f) ==> call_requires(f, ())
    }

    /// The action in `slot` is still held and `outcome` is something it can yield.
    pub open spec fn may_yield(&self, slot: Slot, outcome: Outcome) -> bool {
        match slot {
            Slot::Execute => self.execute_action() matches Some(f) && call_ensures(f, (), outcome),
            Slot::Script => self.script_action() matches Some(f) && call_ensures(f, (), outcome),
            Slot::Rollback => self.rollback_action() matches Some(f) && call_ensures(
                f,
                (),
                outcome,
            ),
        }
    }

    /// `self` is `before` with exactly the flagged slots emptied; the others
    /// hold the action they held in `before`.
    pub open spec fn is_after(&self, before: &Self, execute: bool, script: bool, rollback: bool) -> bool {
        &&& self.execute_action() == if execute { None } else { before.execute_action() }
        &&& self.script_action() == if script { None } else { before.script_action() }
        &&& self.rollback_action() == if rollback { None } else { before.rollback_action() }
    }

    /// A unit holding the three actions, none of them invoked.
    pub fn new(execute_fn: E, rollback_fn: R, script_fn: S) -> (unit: Self)
        ensures
            unit.execute_action() == Some(execute_fn),
            unit.rollback_action() == Some(rollback_fn),
            unit.script_action() == Some(script_fn),
    {
        Transaction {
            execute_fn: Some(execute_fn),
            rollback_fn: Some(rollback_fn),
            script_fn: Some(script_fn),
        }
    }

    /// Whether the action in `slot` has not been invoked yet.
    pub fn is_pending(&self, slot: Slot) -> (pending: bool)
        ensures
            pending == self.pending(slot),
    {
        match slot {
            Slot::Execute => self.execute_fn.is_some(),
            Slot::Script => self.script_fn.is_some(),
            Slot::Rollback => self.rollback_fn.is_some(),
        }
    }

    /// Whether no action of the unit has been invoked yet.
    pub fn is_fresh(&self) -> (fresh: bool)
        ensures
            fresh == self.fresh(),
    {
        self.execute_fn.is_some() && self.script_fn.is_some() && self.rollback_fn.is_some()
    }

    /// Invokes the forward action and empties its slot. A failure of the
    /// action comes back tagged with [`Slot::Execute`].
    ///
    /// The slot must still hold its action: an action runs once.
    pub fn execute_fn(&mut self) -> (res: Result<(), ActionError>)
        requires
            old(self).pending(Slot::Execute),
            old(self).callable(),
        ensures
            !final(self).pending(Slot::Execute),
            final(self).is_after(old(self), true, false, false),
            match res {
                Ok(_) => old(self).may_yield(Slot::Execute, Ok(())),
                Err(e) => e.slot == Slot::Execute && old(self).may_yield(
                    Slot::Execute,
                    Err(e.cause),
                ),
            },
    {
        let action = self.execute_fn.take().expect("execute action already invoked");
        let outcome = action();
        assert(outcome is Ok ==> outcome->Ok_0 == ());
        match outcome {
            Ok(()) => Ok(()),
            Err(cause) => Err(ActionError { slot: Slot::Execute, cause }),
        }
    }

    /// Invokes the script action and empties its slot. A failure of the
    /// action comes back tagged with [`Slot::Script`].
    ///
    /// The slot must still hold its action: an action runs once.
    pub fn script_fn(&mut self) -> (res: Result<(), ActionError>)
        requires
            old(self).pending(Slot::Script),
            old(self).callable(),
        ensures
            !final(self).pending(Slot::Script),
            final(self).is_after(old(self), false, true, false),
            match res {
                Ok(_) => old(self).may_yield(Slot::Script, Ok(())),
                Err(e) => e.slot == Slot::Script && old(self).may_yield(Slot::Script, Err(e.cause)),
            },
    {
        let action = self.script_fn.take().expect("script action already invoked");
        let outcome = action();
        assert(outcome is Ok ==> outcome->Ok_0 == ());
        match outcome {
            Ok(()) => Ok(()),
            Err(cause) => Err(ActionError { slot: Slot::Script, cause }),
        }
    }

    /// Invokes the compensating action and empties its slot. A failure of the
    /// action comes back tagged with [`Slot::Rollback`].
    ///
    /// The slot must still hold its action: an action runs once.
    pub fn rollback_fn(&mut self) -> (res: Result<(), ActionError>)
        requires
            old(self).pending(Slot::Rollback),
            old(self).callable(),
        ensures
            !final(self).pending(Slot::Rollback),
            final(self).is_after(old(self), false, false, true),
            match res {
                Ok(_) => old(self).may_yield(Slot::Rollback, Ok(())),
                Err(e) => e.slot == Slot::Rollback && old(self).may_yield(
                    Slot::Rollback,
                    Err(e.cause),
                ),
            },
    {
        let action = self.rollback_fn.take().expect("rollback action already invoked");
        let outcome = action();
        assert(outcome is Ok ==> outcome->Ok_0 == ());
        match outcome {
            Ok(()) => Ok(()),
            Err(cause) => Err(ActionError { slot: Slot::Rollback, cause }),
        }
    }
}

} // verus!
