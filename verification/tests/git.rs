use std::path::PathBuf;

use that_tools::git::{
    restore_failure, restore_plan, safety_branch_name, stash_was_made, CheckpointAction,
    CheckpointEvent, CheckpointState, GitCheckpoint, RestoreStep, STASH_MESSAGE,
};

/// Runs a checkpoint to its end with scripted outcomes of the outside work:
/// the stash run, the clock and the checkout.
fn run(
    create_branch: bool,
    is_dirty: bool,
    stash: (bool, &str),
    secs: u64,
    checkout_ok: bool,
) -> (GitCheckpoint, Vec<String>) {
    let mut state = CheckpointState::new(create_branch);
    let mut event = CheckpointEvent::Inspected {
        repo_path: PathBuf::from("/work/repo"),
        head: Some("main".to_string()),
        is_dirty,
    };
    let mut log = Vec::new();
    loop {
        assert!(state.accepts(&event));
        let (next, action) = state.step(event).unwrap();
        state = next;
        event = match action {
            CheckpointAction::Stash => {
                log.push("stash".to_string());
                CheckpointEvent::StashRan { success: stash.0, stdout: stash.1.to_string() }
            }
            CheckpointAction::ReadClock => {
                log.push("clock".to_string());
                CheckpointEvent::ClockRead { secs }
            }
            CheckpointAction::CreateBranch { name } => {
                log.push(format!("checkout -b {}", name));
                CheckpointEvent::CheckoutRan { success: checkout_ok }
            }
            CheckpointAction::Finish(cp) => {
                assert!(matches!(state, CheckpointState::Finished));
                return (cp, log);
            }
        };
    }
}

#[test]
fn clean_tree_without_branch_finishes_at_once() {
    let (cp, log) = run(false, false, (true, ""), 0, true);
    assert!(log.is_empty());
    assert!(!cp.stash_created, "clean repo should not create stash");
    assert_eq!(cp.original_branch, "main");
    assert_eq!(cp.repo_path, PathBuf::from("/work/repo"));
    assert!(cp.safety_branch.is_none());
}

#[test]
fn dirty_tree_is_stashed() {
    let (cp, log) = run(false, true, (true, "Saved working directory and index state On main: x"), 0, true);
    assert_eq!(log, vec!["stash"]);
    assert!(cp.stash_created, "dirty repo should create stash");
}

#[test]
fn stash_reporting_no_changes_or_failing_leaves_no_stash() {
    let (cp, _) = run(false, true, (true, "No local changes to save\n"), 0, true);
    assert!(!cp.stash_created);
    let (cp2, _) = run(false, true, (false, "Saved working directory"), 0, true);
    assert!(!cp2.stash_created);
}

#[test]
fn safety_branch_is_named_by_the_clock() {
    let (cp, log) = run(true, false, (true, ""), 1_700_000_000, true);
    assert_eq!(log, vec!["clock", "checkout -b anvil/edit-1700000000"]);
    let b = cp.safety_branch.as_ref().expect("should create safety branch");
    assert!(b.starts_with("anvil/edit-"));
    assert_eq!(b, "anvil/edit-1700000000");
}

#[test]
fn failed_checkout_records_no_safety_branch() {
    let (cp, log) = run(true, true, (true, "Saved"), 42, false);
    assert_eq!(log, vec!["stash", "clock", "checkout -b anvil/edit-42"]);
    assert!(cp.stash_created);
    assert!(cp.safety_branch.is_none());
}

#[test]
fn detached_head_is_recorded_as_head() {
    let state = CheckpointState::new(false);
    let event = CheckpointEvent::Inspected { repo_path: PathBuf::from("/r"), head: None, is_dirty: false };
    match state.step(event) {
        Some((_, CheckpointAction::Finish(cp))) => assert_eq!(cp.original_branch, "HEAD"),
        _ => panic!("a clean tree without a branch finishes"),
    }
}

#[test]
fn unexpected_events_are_refused() {
    let state = CheckpointState::new(true);
    let e = CheckpointEvent::ClockRead { secs: 1 };
    assert!(!state.accepts(&e));
    assert!(state.step(e).is_none());
    let done = CheckpointState::Finished;
    assert!(done.step(CheckpointEvent::CheckoutRan { success: true }).is_none());
}

#[test]
fn stash_decision_and_names() {
    assert!(stash_was_made(true, "Saved working directory"));
    assert!(!stash_was_made(true, "No local changes to save"));
    assert!(!stash_was_made(false, ""));
    assert_eq!(safety_branch_name(0), "anvil/edit-0");
    assert_eq!(safety_branch_name(u64::MAX), format!("anvil/edit-{}", u64::MAX));
    assert_eq!(STASH_MESSAGE, "anvil: pre-edit safety stash");
}

#[test]
fn restore_plan_pops_then_goes_back_and_drops_the_branch() {
    let cp = GitCheckpoint {
        repo_path: PathBuf::from("/r"),
        original_branch: "main".to_string(),
        stash_created: true,
        safety_branch: Some("anvil/edit-5".to_string()),
    };
    let plan = restore_plan(&cp);
    assert_eq!(plan.len(), 3);
    assert!(matches!(plan[0], RestoreStep::PopStash));
    assert!(matches!(&plan[1], RestoreStep::CheckoutOriginal { branch } if branch == "main"));
    assert!(matches!(&plan[2], RestoreStep::DeleteBranch { branch } if branch == "anvil/edit-5"));
}

#[test]
fn restore_plan_of_a_plain_checkpoint_is_empty() {
    let cp = GitCheckpoint {
        repo_path: PathBuf::from("/r"),
        original_branch: "main".to_string(),
        stash_created: false,
        safety_branch: None,
    };
    assert!(restore_plan(&cp).is_empty());
    let stash_only = GitCheckpoint { stash_created: true, ..cp };
    let plan = restore_plan(&stash_only);
    assert_eq!(plan.len(), 1);
    assert!(matches!(plan[0], RestoreStep::PopStash));
}

#[test]
fn restore_failures_and_their_messages() {
    assert_eq!(restore_failure(&RestoreStep::PopStash, "conflict").as_deref(), Some("stash pop failed: conflict"));
    assert_eq!(
        restore_failure(&RestoreStep::CheckoutOriginal { branch: "main".into() }, "oops").as_deref(),
        Some("checkout back to main failed: oops")
    );
    assert_eq!(restore_failure(&RestoreStep::DeleteBranch { branch: "b".into() }, "x"), None);
}
