use std::cell::RefCell;
use std::rc::Rc;

use transaction_pipeline::{ActionError, Outcome, Slot, Transaction};

type Action = Box<dyn FnOnce() -> Outcome>;

type Log = Rc<RefCell<Vec<String>>>;

fn action(log: &Log, name: &str, outcome: Outcome) -> Action {
    let log = Rc::clone(log);
    let name = name.to_string();
    Box::new(move || {
        log.borrow_mut().push(name);
        outcome
    })
}

fn unit(log: &Log, execute: Outcome, rollback: Outcome, script: Outcome) -> Transaction<Action, Action, Action> {
    Transaction::new(
        action(log, "execute", execute),
        action(log, "rollback", rollback),
        action(log, "script", script),
    )
}

fn entries(log: &Log) -> Vec<String> {
    log.borrow().clone()
}

#[test]
fn new_unit_holds_three_pending_actions() {
    let log: Log = Rc::new(RefCell::new(Vec::new()));
    let t = unit(&log, Ok(()), Ok(()), Ok(()));
    assert!(t.is_fresh());
    assert!(t.is_pending(Slot::Execute));
    assert!(t.is_pending(Slot::Script));
    assert!(t.is_pending(Slot::Rollback));
    assert!(entries(&log).is_empty());
}

#[test]
fn execute_fn_invokes_only_the_forward_action() {
    let log: Log = Rc::new(RefCell::new(Vec::new()));
    let mut t = unit(&log, Ok(()), Ok(()), Ok(()));
    assert_eq!(t.execute_fn(), Ok(()));
    assert_eq!(entries(&log), vec!["execute".to_string()]);
    assert!(!t.is_pending(Slot::Execute));
    assert!(t.is_pending(Slot::Script));
    assert!(t.is_pending(Slot::Rollback));
    assert!(!t.is_fresh());
}

#[test]
fn script_fn_invokes_only_the_script_action() {
    let log: Log = Rc::new(RefCell::new(Vec::new()));
    let mut t = unit(&log, Ok(()), Ok(()), Ok(()));
    assert_eq!(t.script_fn(), Ok(()));
    assert_eq!(entries(&log), vec!["script".to_string()]);
    assert!(t.is_pending(Slot::Execute));
    assert!(!t.is_pending(Slot::Script));
    assert!(t.is_pending(Slot::Rollback));
}

#[test]
fn rollback_fn_invokes_only_the_compensating_action() {
    let log: Log = Rc::new(RefCell::new(Vec::new()));
    let mut t = unit(&log, Ok(()), Ok(()), Ok(()));
    assert_eq!(t.rollback_fn(), Ok(()));
    assert_eq!(entries(&log), vec!["rollback".to_string()]);
    assert!(t.is_pending(Slot::Execute));
    assert!(t.is_pending(Slot::Script));
    assert!(!t.is_pending(Slot::Rollback));
}

#[test]
fn execute_failure_is_tagged_with_its_slot() {
    let log: Log = Rc::new(RefCell::new(Vec::new()));
    let mut t = unit(&log, Err("disk full".to_string()), Ok(()), Ok(()));
    assert_eq!(
        t.execute_fn(),
        Err(ActionError { slot: Slot::Execute, cause: "disk full".to_string() })
    );
    assert!(!t.is_pending(Slot::Execute));
}

#[test]
fn script_failure_is_tagged_with_its_slot() {
    let log: Log = Rc::new(RefCell::new(Vec::new()));
    let mut t = unit(&log, Ok(()), Ok(()), Err("exit 3".to_string()));
    assert_eq!(
        t.script_fn(),
        Err(ActionError { slot: Slot::Script, cause: "exit 3".to_string() })
    );
    assert!(!t.is_pending(Slot::Script));
}

#[test]
fn rollback_failure_is_tagged_with_its_slot() {
    let log: Log = Rc::new(RefCell::new(Vec::new()));
    let mut t = unit(&log, Ok(()), Err("busy".to_string()), Ok(()));
    assert_eq!(
        t.rollback_fn(),
        Err(ActionError { slot: Slot::Rollback, cause: "busy".to_string() })
    );
    assert!(!t.is_pending(Slot::Rollback));
}

#[test]
fn each_action_runs_once_and_all_slots_end_empty() {
    let log: Log = Rc::new(RefCell::new(Vec::new()));
    let mut t = unit(&log, Ok(()), Ok(()), Ok(()));
    assert!(t.execute_fn().is_ok());
    assert!(t.script_fn().is_ok());
    assert!(t.rollback_fn().is_ok());
    assert_eq!(
        entries(&log),
        vec!["execute".to_string(), "script".to_string(), "rollback".to_string()]
    );
    assert!(!t.is_pending(Slot::Execute));
    assert!(!t.is_pending(Slot::Script));
    assert!(!t.is_pending(Slot::Rollback));
}

#[test]
fn dropped_unit_never_invokes_its_actions() {
    let log: Log = Rc::new(RefCell::new(Vec::new()));
    let t = unit(&log, Ok(()), Ok(()), Ok(()));
    drop(t);
    assert!(entries(&log).is_empty());
}
