//! What the worktree manager's git operations report back to the
//! coordinator, and the derivation of a branch's status from commit counts.
//!
//! The git work itself happens outside the engine; the coordinator receives
//! its outcome as a value and is verified for every outcome it could be.

use vstd::prelude::*;

verus! {

use crate::model::{BranchStatus, BranchStatusKind};

/// How a merge of an attempt's branch into its base ended.
#[derive(Clone, Debug)]
pub enum MergeOutcome {
    /// Merged; the resulting commit identifier.
    Merged { merge_commit: String },
    /// Conflict or other failure; the repository was left unchanged.
    Failed { message: String },
}

/// How a rebase of an attempt's branch ended.
#[derive(Clone, Debug)]
pub enum RebaseOutcome {
    /// Rebased onto the requested base.
    Rebased,
    /// Conflict; the rebase was aborted and nothing moved.
    Conflict { message: String },
}

/// How deleting a tracked file from the worktree ended.
#[derive(Clone, Debug)]
pub enum DeleteFileOutcome {
    /// Removed and committed; the new commit identifier.
    Deleted { commit: String },
    /// The path was outside the worktree, untracked, or git failed.
    Failed { message: String },
}

/// The status a branch has against its base, given how many commits each
/// side is ahead of their merge base, and whether the base still exists.
pub open spec fn spec_branch_status(ahead: u64, behind: u64, base_exists: bool) -> BranchStatusKind {
    if !base_exists {
        BranchStatusKind::BaseMissing
    } else if ahead == 0 && behind == 0 {
        BranchStatusKind::UpToDate
    } else if ahead > 0 && behind == 0 {
        BranchStatusKind::Ahead
    } else if ahead == 0 && behind > 0 {
        BranchStatusKind::Behind
    } else {
        BranchStatusKind::Diverged
    }
}

/// Derive a branch's status from the commit counts git reported.
pub fn derive_branch_status(ahead: u64, behind: u64, base_exists: bool) -> (r: BranchStatus)
    ensures
        r.kind == spec_branch_status(ahead, behind, base_exists),
        r.commits_ahead == ahead,
        r.commits_behind == behind,
{
    let kind = if !base_exists {
        BranchStatusKind::BaseMissing
    } else if ahead == 0 && behind == 0 {
        BranchStatusKind::UpToDate
    } else if ahead > 0 && behind == 0 {
        BranchStatusKind::Ahead
    } else if ahead == 0 && behind > 0 {
        BranchStatusKind::Behind
    } else {
        BranchStatusKind::Diverged
    };
    BranchStatus { kind, commits_ahead: ahead, commits_behind: behind }
}

} // verus!
