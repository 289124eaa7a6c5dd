//! Git safety checkpoints around edits: the decisions of creating one (stash
//! a dirty tree, optionally switch to a safety branch) and of restoring it.
//! The repository reads and the git commands are made by the caller, which
//! hands each outcome back as an event.
use vstd::prelude::*;
use vstd::string::StringExecFns;
use crate::text::{contains, contains_str, dec, dec_u64, owned};

verus! {

/// Declares std's `PathBuf` to the verifier as an opaque type: checkpoints
/// carry the repository's path without looking inside it.
#[verifier::external_type_specification]
#[verifier::external_body]
pub struct ExPathBuf(std::path::PathBuf);

/// The message of the stash made before an edit.
pub const STASH_MESSAGE: &'static str = "anvil: pre-edit safety stash";

/// A snapshot of git state that can be restored on failure.
pub struct GitCheckpoint {
    pub repo_path: std::path::PathBuf,
    pub original_branch: String,
    pub stash_created: bool,
    pub safety_branch: Option<String>,
}

// ------------------------------------------------------------------
// Creating a checkpoint
// ------------------------------------------------------------------

/// Where the creation of a checkpoint stands.
pub enum CheckpointState {
    /// Waiting for the repository to be inspected.
    Inspecting { create_branch: bool },
    /// The tree was dirty: waiting for `git stash push`.
    Stashing { create_branch: bool, repo_path: std::path::PathBuf, original_branch: String },
    /// A safety branch is wanted: waiting for the clock.
    ReadingClock { repo_path: std::path::PathBuf, original_branch: String, stash_created: bool },
    /// Waiting for `git checkout -b` of the safety branch.
    Branching {
        repo_path: std::path::PathBuf,
        original_branch: String,
        stash_created: bool,
        branch: String,
    },
    /// The checkpoint was handed out.
    Finished,
}

/// An outcome of outside work, handed back by the caller.
pub enum CheckpointEvent {
    /// The repository was found: its working directory, the short name of
    /// `HEAD` (if it has one), and whether the tree (untracked files
    /// included) has changes.
    Inspected { repo_path: std::path::PathBuf, head: Option<String>, is_dirty: bool },
    /// `git stash push -m STASH_MESSAGE` ran.
    StashRan { success: bool, stdout: String },
    /// The clock was read: seconds since the Unix epoch.
    ClockRead { secs: u64 },
    /// `git checkout -b <branch>` ran.
    CheckoutRan { success: bool },
}

/// What the caller is to do next.
pub enum CheckpointAction {
    /// Run `git stash push -m STASH_MESSAGE` in the repository.
    Stash,
    /// Read the clock.
    ReadClock,
    /// Run `git checkout -b <name>` in the repository.
    CreateBranch { name: String },
    /// The checkpoint is complete.
    Finish(GitCheckpoint),
}

/// The branch recorded as original: the short name of `HEAD`, or `HEAD`.
pub open spec fn branch_name_of(head: Option<String>) -> Seq<char> {
    match head {
        Some(s) => s@,
        None => "HEAD"@,
    }
}

/// Whether a stash run left a stash: it succeeded and did not report that
/// there were no local changes.
pub open spec fn stash_made(success: bool, stdout: Seq<char>) -> bool {
    success && !contains(stdout, "No local changes"@)
}

/// The name of the safety branch made at `secs` seconds since the epoch.
pub open spec fn safety_branch_for(secs: u64) -> Seq<char> {
    "anvil/edit-"@ + dec(secs as nat)
}

/// Whether the event is the one the state waits for.
pub open spec fn accepts(s: CheckpointState, e: CheckpointEvent) -> bool {
    match s {
        CheckpointState::Inspecting { .. } => e is Inspected,
        CheckpointState::Stashing { .. } => e is StashRan,
        CheckpointState::ReadingClock { .. } => e is ClockRead,
        CheckpointState::Branching { .. } => e is CheckoutRan,
        CheckpointState::Finished => false,
    }
}

/// The state after the stash step (or after inspecting a clean tree): read
/// the clock when a safety branch is wanted, else finish.
pub open spec fn after_stash(
    r: (CheckpointState, CheckpointAction),
    create_branch: bool,
    repo_path: std::path::PathBuf,
    original_branch: Seq<char>,
    stash_created: bool,
) -> bool {
    if create_branch {
        &&& r.0 matches CheckpointState::ReadingClock { repo_path: p, original_branch: o, stash_created: c }
            && p == repo_path && o@ == original_branch && c == stash_created
        &&& r.1 is ReadClock
    } else {
        &&& r.0 is Finished
        &&& r.1 matches CheckpointAction::Finish(cp) && cp.repo_path == repo_path
            && cp.original_branch@ == original_branch && cp.stash_created == stash_created
            && cp.safety_branch is None
    }
}

/// One step of creating a checkpoint: `None` when the event is not the one
/// the state waits for; else the next state and what to do.
pub open spec fn is_step(s: CheckpointState, e: CheckpointEvent, r: (CheckpointState, CheckpointAction)) -> bool {
    match (s, e) {
        (
            CheckpointState::Inspecting { create_branch },
            CheckpointEvent::Inspected { repo_path, head, is_dirty },
        ) => if is_dirty {
            &&& r.0 matches CheckpointState::Stashing { create_branch: b, repo_path: p, original_branch: o }
                && b == create_branch && p == repo_path && o@ == branch_name_of(head)
            &&& r.1 is Stash
        } else {
            after_stash(r, create_branch, repo_path, branch_name_of(head), false)
        },
        (
            CheckpointState::Stashing { create_branch, repo_path, original_branch },
            CheckpointEvent::StashRan { success, stdout },
        ) => after_stash(r, create_branch, repo_path, original_branch@, stash_made(success, stdout@)),
        (
            CheckpointState::ReadingClock { repo_path, original_branch, stash_created },
            CheckpointEvent::ClockRead { secs },
        ) => {
            &&& r.0 matches CheckpointState::Branching { repo_path: p, original_branch: o, stash_created: c, branch: b }
                && p == repo_path && o@ == original_branch@ && c == stash_created && b@
                == safety_branch_for(secs)
            &&& r.1 matches CheckpointAction::CreateBranch { name } && name@ == safety_branch_for(secs)
        },
        (
            CheckpointState::Branching { repo_path, original_branch, stash_created, branch },
            CheckpointEvent::CheckoutRan { success },
        ) => {
            &&& r.0 is Finished
            &&& r.1 matches CheckpointAction::Finish(cp) && cp.repo_path == repo_path
                && cp.original_branch@ == original_branch@ && cp.stash_created == stash_created
                && if success {
                cp.safety_branch matches Some(b) && b@ == branch@
            } else {
                cp.safety_branch is None
            }
        },
        _ => false,
    }
}

/// The name of the safety branch made at `secs` seconds since the epoch.
pub fn safety_branch_name(secs: u64) -> (r: String)
    ensures
        r@ == safety_branch_for(secs),
{
    let mut r = owned("anvil/edit-");
    let d = dec_u64(secs);
    r.append(d.as_str());
    r
}

/// Whether a stash run left a stash (see [`stash_made`]).
pub fn stash_was_made(success: bool, stdout: &str) -> (r: bool)
    ensures
        r == stash_made(success, stdout@),
{
    success && !contains_str(stdout, "No local changes")
}

fn finish_stash(
    create_branch: bool,
    repo_path: std::path::PathBuf,
    original_branch: String,
    stash_created: bool,
) -> (r: (CheckpointState, CheckpointAction))
    ensures
        after_stash(r, create_branch, repo_path, original_branch@, stash_created),
{
    if create_branch {
        (
            CheckpointState::ReadingClock { repo_path, original_branch, stash_created },
            CheckpointAction::ReadClock,
        )
    } else {
        (
            CheckpointState::Finished,
            CheckpointAction::Finish(
                GitCheckpoint { repo_path, original_branch, stash_created, safety_branch: None },
            ),
        )
    }
}

impl CheckpointState {
    /// The state a checkpoint starts in.
    pub fn new(create_branch: bool) -> (r: CheckpointState)
        ensures
            r matches CheckpointState::Inspecting { create_branch: b } && b == create_branch,
    {
        CheckpointState::Inspecting { create_branch }
    }

    /// Whether the event is the one the state waits for.
    pub fn accepts(&self, e: &CheckpointEvent) -> (r: bool)
        ensures
            r == accepts(*self, *e),
    {
        match self {
            CheckpointState::Inspecting { .. } => matches!(e, CheckpointEvent::Inspected { .. }),
            CheckpointState::Stashing { .. } => matches!(e, CheckpointEvent::StashRan { .. }),
            CheckpointState::ReadingClock { .. } => matches!(e, CheckpointEvent::ClockRead { .. }),
            CheckpointState::Branching { .. } => matches!(e, CheckpointEvent::CheckoutRan { .. }),
            CheckpointState::Finished => false,
        }
    }

    /// Take one step: `None` when the event is not the one the state waits
    /// for, else the next state and what the caller is to do (see
    /// [`is_step`]).
    pub fn step(self, e: CheckpointEvent) -> (r: Option<(CheckpointState, CheckpointAction)>)
        ensures
            match r {
                Some(x) => accepts(self, e) && is_step(self, e, x),
                None => !accepts(self, e),
            },
    {
        match self {
            CheckpointState::Inspecting { create_branch } => match e {
                CheckpointEvent::Inspected { repo_path, head, is_dirty } => {
                    let original_branch = match head {
                        Some(h) => h,
                        None => owned("HEAD"),
                    };
                    if is_dirty {
                        Some(
                            (
                                CheckpointState::Stashing { create_branch, repo_path, original_branch },
                                CheckpointAction::Stash,
                            ),
                        )
                    } else {
                        Some(finish_stash(create_branch, repo_path, original_branch, false))
                    }
                },
                _ => None,
            },
            CheckpointState::Stashing { create_branch, repo_path, original_branch } => match e {
                CheckpointEvent::StashRan { success, stdout } => {
                    let made = stash_was_made(success, stdout.as_str());
                    Some(finish_stash(create_branch, repo_path, original_branch, made))
                },
                _ => None,
            },
            CheckpointState::ReadingClock { repo_path, original_branch, stash_created } => match e {
                CheckpointEvent::ClockRead { secs } => {
                    let branch = safety_branch_name(secs);
                    let name = safety_branch_name(secs);
                    Some(
                        (
                            CheckpointState::Branching { repo_path, original_branch, stash_created, branch },
                            CheckpointAction::CreateBranch { name },
                        ),
                    )
                },
                _ => None,
            },
            CheckpointState::Branching { repo_path, original_branch, stash_created, branch } => match e {
                CheckpointEvent::CheckoutRan { success } => {
                    let safety_branch = if success {
                        Some(branch)
                    } else {
                        None
                    };
                    Some(
                        (
                            CheckpointState::Finished,
                            CheckpointAction::Finish(
                                GitCheckpoint { repo_path, original_branch, stash_created, safety_branch },
                            ),
                        ),
                    )
                },
                _ => None,
            },
            CheckpointState::Finished => None,
        }
    }
}

// ------------------------------------------------------------------
// Restoring a checkpoint
// ------------------------------------------------------------------

/// One git command of a restore, in the repository of the checkpoint.
#[derive(Debug)]
pub enum RestoreStep {
    /// `git stash pop`.
    PopStash,
    /// `git checkout <branch>`, back to the original branch.
    CheckoutOriginal { branch: String },
    /// `git branch -D <branch>`, dropping the safety branch.
    DeleteBranch { branch: String },
}

/// The commands that restore the checkpoint, in order: pop the stash if one
/// was made; then, if a safety branch was made, check out the original
/// branch and delete the safety branch.
pub fn restore_plan(cp: &GitCheckpoint) -> (r: Vec<RestoreStep>)
    ensures
        r@.len() == (if cp.stash_created {
            1int
        } else {
            0int
        }) + (if cp.safety_branch is Some {
            2int
        } else {
            0int
        }),
        cp.stash_created ==> r@[0] is PopStash,
        match cp.safety_branch {
            Some(b) => {
                let k = if cp.stash_created {
                    1int
                } else {
                    0int
                };
                &&& r@[k] matches RestoreStep::CheckoutOriginal { branch } && branch@
                    == cp.original_branch@
                &&& r@[k + 1] matches RestoreStep::DeleteBranch { branch } && branch@ == b@
            },
            None => true,
        },
{
    let mut r: Vec<RestoreStep> = Vec::new();
    if cp.stash_created {
        r.push(RestoreStep::PopStash);
    }
    match &cp.safety_branch {
        Some(b) => {
            r.push(RestoreStep::CheckoutOriginal { branch: cp.original_branch.clone() });
            r.push(RestoreStep::DeleteBranch { branch: b.clone() });
        },
        None => {},
    }
    r
}

/// What a failed restore command means: the error message for popping the
/// stash and for checking out the original branch, and `None` for deleting
/// the safety branch, whose failure is ignored.
pub fn restore_failure(step: &RestoreStep, stderr: &str) -> (r: Option<String>)
    ensures
        match step {
            RestoreStep::PopStash => r matches Some(m) && m@ == "stash pop failed: "@ + stderr@,
            RestoreStep::CheckoutOriginal { branch } => r matches Some(m) && m@ == "checkout back to "@
                + branch@ + " failed: "@ + stderr@,
            RestoreStep::DeleteBranch { .. } => r is None,
        },
{
    match step {
        RestoreStep::PopStash => {
            let mut m = owned("stash pop failed: ");
            m.append(stderr);
            Some(m)
        },
        RestoreStep::CheckoutOriginal { branch } => {
            let mut m = owned("checkout back to ");
            m.append(branch.as_str());
            m.append(" failed: ");
            m.append(stderr);
            Some(m)
        },
        RestoreStep::DeleteBranch { .. } => None,
    }
}

} // verus!
