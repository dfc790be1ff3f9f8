//! Task-attempt lifecycle engine.
//!
//! The library models the state of a task-attempt system — tasks, attempts,
//! executor processes with their captured output, and the supervisor's live
//! kill handles — and verifies the decisions the coordinator makes over that
//! state: spawning and stopping processes, the project-wide dev-server
//! singleton, follow-up forking when a worktree is gone, plan approval, merge
//! and rebase bookkeeping, and the normalization of captured logs into an
//! ordered conversation.

use vstd::prelude::*;

pub mod coordinator;
pub mod editor;
pub mod git;
pub mod host;
pub mod json;
pub mod model;
pub mod normalize;
pub mod plan;
pub mod pr;
pub mod store;
pub mod supervisor;
pub mod surface;
pub mod text;

verus! {

/// An identifier for a task, attempt, process or session.
///
/// Identifiers are carried as the 128-bit value of a UUID; the store never
/// assigns them itself, callers supply fresh ones.
pub type Id = u128;

} // verus!
