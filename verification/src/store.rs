//! The attempt store: the durable records of tasks, attempts, executor
//! processes and sessions, held in creation order, with the query and update
//! operations the coordinator relies on.
//!
//! Identifier uniqueness, referential integrity and worktree-path uniqueness
//! are captured by [`Store::wf`]; every operation preserves it. Completion
//! updates are idempotent: a process leaves `Running` at most once.

use vstd::prelude::*;

verus! {

use crate::Id;
use crate::model::{
    Task, TaskView, TaskAttempt, TaskAttemptView, ExecutionProcess, ExecutionProcessView,
    ExecutorSession, ExecutorSessionView, ExecutionProcessStatus, TaskStatus, EngineError,
    is_terminal,
};

/// The first index of `s` satisfying `p`, or `s.len()` if none does.
pub open spec fn find_idx<T>(s: Seq<T>, p: spec_fn(T) -> bool) -> int
    decreases s.len(),
{
    if s.len() == 0 {
        0
    } else if p(s[0]) {
        0
    } else {
        1 + find_idx(s.skip(1), p)
    }
}

/// The first element of `s` satisfying `p`, if any.
pub open spec fn find_by<T>(s: Seq<T>, p: spec_fn(T) -> bool) -> Option<T> {
    if find_idx(s, p) < s.len() {
        Option::Some(s[find_idx(s, p)])
    } else {
        Option::None
    }
}

/// `find_idx` is in range, lands on a match, and skips no earlier match.
pub proof fn lemma_find_idx<T>(s: Seq<T>, p: spec_fn(T) -> bool)
    ensures
        0 <= find_idx(s, p) <= s.len(),
        find_idx(s, p) < s.len() ==> p(s[find_idx(s, p)]),
        forall|j: int| 0 <= j < find_idx(s, p) ==> !p(s[j]),
    decreases s.len(),
{
    if s.len() > 0 && !p(s[0]) {
        lemma_find_idx(s.skip(1), p);
        assert forall|j: int| 0 <= j < find_idx(s, p) implies !p(s[j]) by {
            if j > 0 {
                assert(s.skip(1)[j - 1] == s[j]);
            }
        }
    }
}

/// When `i` is the first match, `find_by` returns the element at `i`.
pub proof fn lemma_find_at<T>(s: Seq<T>, p: spec_fn(T) -> bool, i: int)
    requires
        0 <= i < s.len(),
        p(s[i]),
        forall|j: int| 0 <= j < i ==> !p(s[j]),
    ensures
        find_idx(s, p) == i,
        find_by(s, p) == Option::Some(s[i]),
{
    lemma_find_idx(s, p);
    if find_idx(s, p) < i {
        assert(p(s[find_idx(s, p)]));
    }
}

/// When nothing matches, `find_by` returns `None`.
pub proof fn lemma_find_none<T>(s: Seq<T>, p: spec_fn(T) -> bool)
    requires
        forall|j: int| 0 <= j < s.len() ==> !p(s[j]),
    ensures
        find_idx(s, p) == s.len(),
        find_by(s, p) == Option::<T>::None,
{
    lemma_find_idx(s, p);
    if find_idx(s, p) < s.len() {
        assert(p(s[find_idx(s, p)]));
    }
}

/// No two elements of `s` share a key.
pub open spec fn distinct_keys<T, K>(s: Seq<T>, key: spec_fn(T) -> K) -> bool {
    forall|i: int, j: int| 0 <= i < j < s.len() ==> key(s[i]) != key(s[j])
}

/// Some element of `s` has key `k`.
pub open spec fn has_key<T, K>(s: Seq<T>, key: spec_fn(T) -> K, k: K) -> bool {
    exists|i: int| 0 <= i < s.len() && key(s[i]) == k
}

/// Produce the index of an element with key `k`.
pub proof fn lemma_has_key_witness<T, K>(s: Seq<T>, key: spec_fn(T) -> K, k: K) -> (i: int)
    requires
        has_key(s, key, k),
    ensures
        0 <= i < s.len() && key(s[i]) == k,
{
    choose|i: int| 0 <= i < s.len() && key(s[i]) == k
}

/// An element in range witnesses its own key's membership.
pub proof fn lemma_has_key_intro<T, K>(s: Seq<T>, key: spec_fn(T) -> K, i: int)
    requires
        0 <= i < s.len(),
    ensures
        has_key(s, key, key(s[i])),
{
}

/// Membership of a key survives appending an element.
pub proof fn lemma_has_key_push<T, K>(s: Seq<T>, key: spec_fn(T) -> K, k: K, x: T)
    requires
        has_key(s, key, k),
    ensures
        has_key(s.push(x), key, k),
{
    let i = lemma_has_key_witness(s, key, k);
    assert(s.push(x)[i] == s[i]);
}

/// Membership of a key survives a key-preserving replacement.
pub proof fn lemma_has_key_update<T, K>(s: Seq<T>, key: spec_fn(T) -> K, k: K, i: int, x: T)
    requires
        has_key(s, key, k),
        0 <= i < s.len(),
        key(x) == key(s[i]),
    ensures
        has_key(s.update(i, x), key, k),
{
    let w = lemma_has_key_witness(s, key, k);
    if w == i {
        assert(s.update(i, x)[i] == x);
    } else {
        assert(s.update(i, x)[w] == s[w]);
    }
}

/// Uniqueness of keys survives a key-preserving replacement.
pub proof fn lemma_distinct_update<T, K>(s: Seq<T>, key: spec_fn(T) -> K, i: int, x: T)
    requires
        distinct_keys(s, key),
        0 <= i < s.len(),
        key(x) == key(s[i]),
    ensures
        distinct_keys(s.update(i, x), key),
{
}

/// The durable record set of the engine.
pub struct Store {
    pub tasks: Vec<Task>,
    pub attempts: Vec<TaskAttempt>,
    pub processes: Vec<ExecutionProcess>,
    pub sessions: Vec<ExecutorSession>,
}

impl Store {
    /// View of the task table, in creation order.
    pub open spec fn tasks_v(self) -> Seq<TaskView> {
        self.tasks@.map_values(|t: Task| t@)
    }

    /// View of the attempt table, in creation order.
    pub open spec fn attempts_v(self) -> Seq<TaskAttemptView> {
        self.attempts@.map_values(|a: TaskAttempt| a@)
    }

    /// View of the process table, in creation order.
    pub open spec fn processes_v(self) -> Seq<ExecutionProcessView> {
        self.processes@.map_values(|p: ExecutionProcess| p@)
    }

    /// View of the session table, in creation order.
    pub open spec fn sessions_v(self) -> Seq<ExecutorSessionView> {
        self.sessions@.map_values(|s: ExecutorSession| s@)
    }

    /// The task with identifier `id`, if any.
    pub open spec fn task_of(self, id: Id) -> Option<TaskView> {
        find_by(self.tasks_v(), |t: TaskView| t.id == id)
    }

    /// The attempt with identifier `id`, if any.
    pub open spec fn attempt_of(self, id: Id) -> Option<TaskAttemptView> {
        find_by(self.attempts_v(), |a: TaskAttemptView| a.id == id)
    }

    /// The process with identifier `id`, if any.
    pub open spec fn process_of(self, id: Id) -> Option<ExecutionProcessView> {
        find_by(self.processes_v(), |p: ExecutionProcessView| p.id == id)
    }

    /// The index of the process with identifier `id` (or the table length).
    pub open spec fn process_idx(self, id: Id) -> int {
        find_idx(self.processes_v(), |p: ExecutionProcessView| p.id == id)
    }

    /// The session attached to process `pid`, if any.
    pub open spec fn session_of(self, pid: Id) -> Option<ExecutorSessionView> {
        find_by(self.sessions_v(), |s: ExecutorSessionView| s.execution_process_id == pid)
    }

    /// A task with identifier `id` exists.
    pub open spec fn has_task(self, id: Id) -> bool {
        has_key(self.tasks_v(), |t: TaskView| t.id, id)
    }

    /// An attempt with identifier `id` exists.
    pub open spec fn has_attempt(self, id: Id) -> bool {
        has_key(self.attempts_v(), |a: TaskAttemptView| a.id, id)
    }

    /// A process with identifier `id` exists.
    pub open spec fn has_process(self, id: Id) -> bool {
        has_key(self.processes_v(), |p: ExecutionProcessView| p.id, id)
    }

    /// A session keyed by process `pid` exists.
    pub open spec fn has_session(self, pid: Id) -> bool {
        has_key(self.sessions_v(), |s: ExecutorSessionView| s.execution_process_id, pid)
    }

    /// An attempt already occupies worktree path `path`.
    pub open spec fn has_worktree(self, path: Seq<char>) -> bool {
        has_key(self.attempts_v(), |a: TaskAttemptView| a.worktree_path, path)
    }

    /// Well-formedness: identifiers and worktree paths are unique, and every
    /// reference names an existing record.
    pub open spec fn wf(self) -> bool {
        &&& distinct_keys(self.tasks_v(), |t: TaskView| t.id)
        &&& distinct_keys(self.attempts_v(), |a: TaskAttemptView| a.id)
        &&& distinct_keys(self.attempts_v(), |a: TaskAttemptView| a.worktree_path)
        &&& distinct_keys(self.processes_v(), |p: ExecutionProcessView| p.id)
        &&& distinct_keys(self.sessions_v(), |s: ExecutorSessionView| s.execution_process_id)
        &&& forall|i: int|
            0 <= i < self.attempts_v().len() ==> self.has_task(
                #[trigger] self.attempts_v()[i].task_id,
            )
        &&& forall|i: int|
            0 <= i < self.processes_v().len() ==> self.has_attempt(
                #[trigger] self.processes_v()[i].task_attempt_id,
            )
        &&& forall|i: int|
            0 <= i < self.sessions_v().len() ==> self.has_process(
                #[trigger] self.sessions_v()[i].execution_process_id,
            )
        &&& forall|i: int|
            0 <= i < self.tasks_v().len() ==> match #[trigger] self.tasks_v()[i].parent_task_attempt {
                Option::Some(a) => self.has_attempt(a),
                Option::None => true,
            }
    }

    /// The four tables of `self` and `other` are equal.
    pub open spec fn same_as(self, other: Store) -> bool {
        &&& self.tasks_v() == other.tasks_v()
        &&& self.attempts_v() == other.attempts_v()
        &&& self.processes_v() == other.processes_v()
        &&& self.sessions_v() == other.sessions_v()
    }

    /// The task `task_id` exists and belongs to project `project_id`.
    pub open spec fn task_in_project(self, task_id: Id, project_id: Id) -> bool {
        match self.task_of(task_id) {
            Option::Some(t) => t.project_id == project_id,
            Option::None => false,
        }
    }

    /// The `(project, task, attempt)` triple is consistent: the attempt
    /// exists, belongs to the task, and the task belongs to the project.
    pub open spec fn triple_ok(self, project_id: Id, task_id: Id, attempt_id: Id) -> bool {
        match self.attempt_of(attempt_id) {
            Option::Some(a) => a.task_id == task_id && self.task_in_project(task_id, project_id),
            Option::None => false,
        }
    }

    /// The project an attempt's task belongs to, if the chain resolves.
    pub open spec fn attempt_project(self, attempt_id: Id) -> Option<Id> {
        match self.attempt_of(attempt_id) {
            Option::Some(a) => match self.task_of(a.task_id) {
                Option::Some(t) => Option::Some(t.project_id),
                Option::None => Option::None,
            },
            Option::None => Option::None,
        }
    }

    /// An empty store.
    pub fn new() -> (s: Store)
        ensures
            s.wf(),
            s.tasks_v() == Seq::<TaskView>::empty(),
            s.attempts_v() == Seq::<TaskAttemptView>::empty(),
            s.processes_v() == Seq::<ExecutionProcessView>::empty(),
            s.sessions_v() == Seq::<ExecutorSessionView>::empty(),
    {
        let s = Store { tasks: Vec::new(), attempts: Vec::new(), processes: Vec::new(), sessions: Vec::new() };
        proof {
            assert(s.tasks_v() =~= Seq::<TaskView>::empty());
            assert(s.attempts_v() =~= Seq::<TaskAttemptView>::empty());
            assert(s.processes_v() =~= Seq::<ExecutionProcessView>::empty());
            assert(s.sessions_v() =~= Seq::<ExecutorSessionView>::empty());
        }
        s
    }

    /// Look up a task by identifier.
    pub fn find_task(&self, id: Id) -> (r: Option<&Task>)
        ensures
            match r {
                Option::Some(t) => self.task_of(id) == Option::Some(t@),
                Option::None => self.task_of(id) is None,
            },
    {
        let n: usize = self.tasks.len();
        let mut i: usize = 0;
        while i < n
            invariant
                n == self.tasks.len(),
                0 <= i <= n,
                forall|j: int| 0 <= j < i ==> self.tasks_v()[j].id != id,
            decreases n - i,
        {
            if self.tasks[i].id == id {
                proof {
                    lemma_find_at(self.tasks_v(), |t: TaskView| t.id == id, i as int);
                }
                return Option::Some(&self.tasks[i]);
            }
            i = i + 1;
        }
        proof {
            lemma_find_none(self.tasks_v(), |t: TaskView| t.id == id);
        }
        Option::None
    }

    /// Look up an attempt by identifier.
    pub fn find_attempt(&self, id: Id) -> (r: Option<&TaskAttempt>)
        ensures
            match r {
                Option::Some(a) => self.attempt_of(id) == Option::Some(a@),
                Option::None => self.attempt_of(id) is None,
            },
    {
        let n: usize = self.attempts.len();
        let mut i: usize = 0;
        while i < n
            invariant
                n == self.attempts.len(),
                0 <= i <= n,
                forall|j: int| 0 <= j < i ==> self.attempts_v()[j].id != id,
            decreases n - i,
        {
            if self.attempts[i].id == id {
                proof {
                    lemma_find_at(self.attempts_v(), |a: TaskAttemptView| a.id == id, i as int);
                }
                return Option::Some(&self.attempts[i]);
            }
            i = i + 1;
        }
        proof {
            lemma_find_none(self.attempts_v(), |a: TaskAttemptView| a.id == id);
        }
        Option::None
    }

    /// Look up a process by identifier.
    pub fn find_process(&self, id: Id) -> (r: Option<&ExecutionProcess>)
        ensures
            match r {
                Option::Some(p) => self.process_of(id) == Option::Some(p@),
                Option::None => self.process_of(id) is None,
            },
    {
        let n: usize = self.processes.len();
        let mut i: usize = 0;
        while i < n
            invariant
                n == self.processes.len(),
                0 <= i <= n,
                forall|j: int| 0 <= j < i ==> self.processes_v()[j].id != id,
            decreases n - i,
        {
            if self.processes[i].id == id {
                proof {
                    lemma_find_at(self.processes_v(), |p: ExecutionProcessView| p.id == id, i as int);
                }
                return Option::Some(&self.processes[i]);
            }
            i = i + 1;
        }
        proof {
            lemma_find_none(self.processes_v(), |p: ExecutionProcessView| p.id == id);
        }
        Option::None
    }

    /// Look up the session attached to process `pid`.
    pub fn find_session_by_process(&self, pid: Id) -> (r: Option<&ExecutorSession>)
        ensures
            match r {
                Option::Some(s) => self.session_of(pid) == Option::Some(s@),
                Option::None => self.session_of(pid) is None,
            },
    {
        let n: usize = self.sessions.len();
        let mut i: usize = 0;
        while i < n
            invariant
                n == self.sessions.len(),
                0 <= i <= n,
                forall|j: int| 0 <= j < i ==> self.sessions_v()[j].execution_process_id != pid,
            decreases n - i,
        {
            if self.sessions[i].execution_process_id == pid {
                proof {
                    lemma_find_at(
                        self.sessions_v(),
                        |s: ExecutorSessionView| s.execution_process_id == pid,
                        i as int,
                    );
                }
                return Option::Some(&self.sessions[i]);
            }
            i = i + 1;
        }
        proof {
            lemma_find_none(
                self.sessions_v(),
                |s: ExecutorSessionView| s.execution_process_id == pid,
            );
        }
        Option::None
    }

    /// The task exists and belongs to the project.
    pub fn task_exists(&self, task_id: Id, project_id: Id) -> (r: bool)
        ensures
            r == self.task_in_project(task_id, project_id),
    {
        match self.find_task(task_id) {
            Option::Some(t) => t.project_id == project_id,
            Option::None => false,
        }
    }

    /// Validate the `(project, task, attempt)` triple.
    pub fn exists_for_task(&self, attempt_id: Id, task_id: Id, project_id: Id) -> (r: bool)
        ensures
            r == self.triple_ok(project_id, task_id, attempt_id),
    {
        match self.find_attempt(attempt_id) {
            Option::Some(a) => {
                if a.task_id != task_id {
                    false
                } else {
                    self.task_exists(task_id, project_id)
                }
            },
            Option::None => false,
        }
    }

    /// Insert a new task row. Fails `IdTaken` on an identifier collision and
    /// `NotFound` when the parent attempt reference dangles.
    pub fn create_task(&mut self, t: Task) -> (r: Result<(), EngineError>)
        requires
            old(self).wf(),
        ensures
            final(self).wf(),
            match r {
                Result::Ok(()) => {
                    &&& !old(self).has_task(t@.id)
                    &&& (t@.parent_task_attempt matches Option::Some(a) ==> old(self).has_attempt(a))
                    &&& final(self).tasks_v() == old(self).tasks_v().push(t@)
                    &&& final(self).attempts_v() == old(self).attempts_v()
                    &&& final(self).processes_v() == old(self).processes_v()
                    &&& final(self).sessions_v() == old(self).sessions_v()
                },
                Result::Err(EngineError::IdTaken) => old(self).has_task(t@.id) && final(self).same_as(
                    *old(self),
                ),
                Result::Err(EngineError::NotFound) => {
                    &&& !old(self).has_task(t@.id)
                    &&& t@.parent_task_attempt matches Option::Some(a) && !old(self).has_attempt(a)
                    &&& final(self).same_as(*old(self))
                },
                _ => false,
            },
    {
        proof {
            lemma_find_idx(self.tasks_v(), |x: TaskView| x.id == t@.id);
        }
        if self.find_task(t.id).is_some() {
            return Result::Err(EngineError::IdTaken);
        }
        match &t.parent_task_attempt {
            Option::Some(a) => {
                proof {
                    lemma_find_idx(self.attempts_v(), |x: TaskAttemptView| x.id == t@.parent_task_attempt->Some_0);
                }
                if self.find_attempt(*a).is_none() {
                    return Result::Err(EngineError::NotFound);
                }
            },
            Option::None => {},
        }
        let ghost s0 = *self;
        self.tasks.push(t);
        proof {
            assert(self.tasks_v() =~= s0.tasks_v().push(self.tasks@.last()@));
            lemma_store_push_task_wf(s0, *self);
        }
        Result::Ok(())
    }

    /// Insert a new attempt row. Fails `NotFound` when the task is missing,
    /// `IdTaken` on an identifier collision, and `WorktreeInUse` when another
    /// attempt already occupies the worktree path.
    pub fn create_attempt(&mut self, a: TaskAttempt) -> (r: Result<(), EngineError>)
        requires
            old(self).wf(),
        ensures
            final(self).wf(),
            match r {
                Result::Ok(()) => {
                    &&& old(self).has_task(a@.task_id)
                    &&& !old(self).has_attempt(a@.id)
                    &&& !old(self).has_worktree(a@.worktree_path)
                    &&& final(self).attempts_v() == old(self).attempts_v().push(a@)
                    &&& final(self).tasks_v() == old(self).tasks_v()
                    &&& final(self).processes_v() == old(self).processes_v()
                    &&& final(self).sessions_v() == old(self).sessions_v()
                },
                Result::Err(EngineError::NotFound) => !old(self).has_task(a@.task_id)
                    && final(self).same_as(*old(self)),
                Result::Err(EngineError::IdTaken) => old(self).has_task(a@.task_id) && old(
                    self,
                ).has_attempt(a@.id) && final(self).same_as(*old(self)),
                Result::Err(EngineError::WorktreeInUse) => {
                    &&& old(self).has_task(a@.task_id)
                    &&& !old(self).has_attempt(a@.id)
                    &&& old(self).has_worktree(a@.worktree_path)
                    &&& final(self).same_as(*old(self))
                },
                _ => false,
            },
    {
        proof {
            lemma_find_idx(self.tasks_v(), |x: TaskView| x.id == a@.task_id);
            lemma_find_idx(self.attempts_v(), |x: TaskAttemptView| x.id == a@.id);
        }
        if self.find_task(a.task_id).is_none() {
            return Result::Err(EngineError::NotFound);
        }
        if self.find_attempt(a.id).is_some() {
            return Result::Err(EngineError::IdTaken);
        }
        if self.worktree_taken(&a.worktree_path) {
            return Result::Err(EngineError::WorktreeInUse);
        }
        let ghost s0 = *self;
        self.attempts.push(a);
        proof {
            assert(self.attempts_v() =~= s0.attempts_v().push(self.attempts@.last()@));
            lemma_store_push_attempt_wf(s0, *self);
        }
        Result::Ok(())
    }

    /// Is some attempt already at worktree path `path`?
    pub fn worktree_taken(&self, path: &String) -> (r: bool)
        ensures
            r == self.has_worktree(path@),
    {
        let n: usize = self.attempts.len();
        let mut i: usize = 0;
        while i < n
            invariant
                n == self.attempts.len(),
                0 <= i <= n,
                forall|j: int| 0 <= j < i ==> self.attempts_v()[j].worktree_path != path@,
            decreases n - i,
        {
            if crate::text::str_eq(self.attempts[i].worktree_path.as_str(), path.as_str()) {
                proof {
                    lemma_has_key_intro(
                        self.attempts_v(),
                        |a: TaskAttemptView| a.worktree_path,
                        i as int,
                    );
                }
                return true;
            }
            i = i + 1;
        }
        false
    }

    /// Insert a new process row. Fails `NotFound` when the attempt is
    /// missing and `IdTaken` on an identifier collision.
    pub fn create_process(&mut self, p: ExecutionProcess) -> (r: Result<(), EngineError>)
        requires
            old(self).wf(),
        ensures
            final(self).wf(),
            match r {
                Result::Ok(()) => {
                    &&& old(self).has_attempt(p@.task_attempt_id)
                    &&& !old(self).has_process(p@.id)
                    &&& final(self).processes_v() == old(self).processes_v().push(p@)
                    &&& final(self).tasks_v() == old(self).tasks_v()
                    &&& final(self).attempts_v() == old(self).attempts_v()
                    &&& final(self).sessions_v() == old(self).sessions_v()
                },
                Result::Err(EngineError::NotFound) => !old(self).has_attempt(p@.task_attempt_id)
                    && final(self).same_as(*old(self)),
                Result::Err(EngineError::IdTaken) => old(self).has_attempt(p@.task_attempt_id)
                    && old(self).has_process(p@.id) && final(self).same_as(*old(self)),
                _ => false,
            },
    {
        proof {
            lemma_find_idx(self.attempts_v(), |x: TaskAttemptView| x.id == p@.task_attempt_id);
            lemma_find_idx(self.processes_v(), |x: ExecutionProcessView| x.id == p@.id);
        }
        if self.find_attempt(p.task_attempt_id).is_none() {
            return Result::Err(EngineError::NotFound);
        }
        if self.find_process(p.id).is_some() {
            return Result::Err(EngineError::IdTaken);
        }
        let ghost s0 = *self;
        self.processes.push(p);
        proof {
            assert(self.processes_v() =~= s0.processes_v().push(self.processes@.last()@));
            lemma_store_push_process_wf(s0, *self);
        }
        Result::Ok(())
    }

    /// Insert a new session row. Fails `NotFound` when the process is
    /// missing and `IdTaken` when the process already has a session.
    pub fn create_session(&mut self, s: ExecutorSession) -> (r: Result<(), EngineError>)
        requires
            old(self).wf(),
        ensures
            final(self).wf(),
            match r {
                Result::Ok(()) => {
                    &&& old(self).has_process(s@.execution_process_id)
                    &&& !old(self).has_session(s@.execution_process_id)
                    &&& final(self).sessions_v() == old(self).sessions_v().push(s@)
                    &&& final(self).tasks_v() == old(self).tasks_v()
                    &&& final(self).attempts_v() == old(self).attempts_v()
                    &&& final(self).processes_v() == old(self).processes_v()
                },
                Result::Err(EngineError::NotFound) => !old(self).has_process(
                    s@.execution_process_id,
                ) && final(self).same_as(*old(self)),
                Result::Err(EngineError::IdTaken) => old(self).has_process(
                    s@.execution_process_id,
                ) && old(self).has_session(s@.execution_process_id) && final(self).same_as(*old(self)),
                _ => false,
            },
    {
        proof {
            lemma_find_idx(self.processes_v(), |x: ExecutionProcessView| x.id == s@.execution_process_id);
            lemma_find_idx(
                self.sessions_v(),
                |x: ExecutorSessionView| x.execution_process_id == s@.execution_process_id,
            );
        }
        if self.find_process(s.execution_process_id).is_none() {
            return Result::Err(EngineError::NotFound);
        }
        if self.find_session_by_process(s.execution_process_id).is_some() {
            return Result::Err(EngineError::IdTaken);
        }
        let ghost s0 = *self;
        self.sessions.push(s);
        proof {
            assert(self.sessions_v() =~= s0.sessions_v().push(self.sessions@.last()@));
            lemma_store_push_session_wf(s0, *self);
        }
        Result::Ok(())
    }

    /// Record a terminal status for a process: the single terminal transition
    /// of its lifecycle. Idempotent: on a process already terminal nothing
    /// changes and the prior status is reported; `None` when no such process
    /// exists.
    pub fn update_completion(
        &mut self,
        id: Id,
        status: ExecutionProcessStatus,
        exit_code: Option<i64>,
        now: &str,
    ) -> (r: Option<ExecutionProcessStatus>)
        requires
            old(self).wf(),
            is_terminal(status),
        ensures
            final(self).wf(),
            final(self).processes_v() == spec_update_completion(
                old(self).processes_v(),
                id,
                status,
                exit_code,
                now@,
            ).0,
            r == spec_update_completion(old(self).processes_v(), id, status, exit_code, now@).1,
            final(self).tasks_v() == old(self).tasks_v(),
            final(self).attempts_v() == old(self).attempts_v(),
            final(self).sessions_v() == old(self).sessions_v(),
    {
        let n: usize = self.processes.len();
        let mut i: usize = 0;
        while i < n
            invariant
                *self == *old(self),
                old(self).wf(),
                n == self.processes.len(),
                0 <= i <= n,
                forall|j: int| 0 <= j < i ==> self.processes_v()[j].id != id,
            decreases n - i,
        {
            if self.processes[i].id == id {
                proof {
                    lemma_find_at(self.processes_v(), |p: ExecutionProcessView| p.id == id, i as int);
                }
                let prior = self.processes[i].status;
                if prior != ExecutionProcessStatus::Running {
                    return Option::Some(prior);
                }
                let ghost s0 = *self;
                let mut p = self.processes.remove(i);
                p.status = status;
                p.exit_code = exit_code;
                p.ended_at = Option::Some(String::from_str(now));
                self.processes.insert(i, p);
                proof {
                    assert(self.processes_v() =~= s0.processes_v().update(
                        i as int,
                        completed_view(s0.processes_v()[i as int], status, exit_code, now@),
                    ));
                    lemma_store_update_process_wf(s0, *self, i as int);
                }
                return Option::Some(prior);
            }
            i = i + 1;
        }
        proof {
            lemma_find_none(self.processes_v(), |p: ExecutionProcessView| p.id == id);
        }
        Option::None
    }

    /// Append a chunk of captured standard output to a process, verbatim.
    pub fn append_stdout(&mut self, id: Id, data: &str) -> (ok: bool)
        requires
            old(self).wf(),
        ensures
            final(self).wf(),
            match old(self).process_of(id) {
                Option::None => !ok && final(self).same_as(*old(self)),
                Option::Some(p) => {
                    &&& ok
                    &&& final(self).processes_v() == old(self).processes_v().update(
                        old(self).process_idx(id),
                        stdout_appended(p, data@),
                    )
                    &&& final(self).tasks_v() == old(self).tasks_v()
                    &&& final(self).attempts_v() == old(self).attempts_v()
                    &&& final(self).sessions_v() == old(self).sessions_v()
                },
            },
    {
        let n: usize = self.processes.len();
        let mut i: usize = 0;
        while i < n
            invariant
                *self == *old(self),
                old(self).wf(),
                *self == *old(self),
                old(self).wf(),
                n == self.processes.len(),
                0 <= i <= n,
                forall|j: int| 0 <= j < i ==> self.processes_v()[j].id != id,
            decreases n - i,
        {
            if self.processes[i].id == id {
                proof {
                    lemma_find_at(self.processes_v(), |p: ExecutionProcessView| p.id == id, i as int);
                }
                let ghost s0 = *self;
                let mut p = self.processes.remove(i);
                let cur = p.stdout;
                p.stdout = Option::Some(
                    match cur {
                        Option::None => String::from_str(data),
                        Option::Some(s) => s.concat(data),
                    },
                );
                self.processes.insert(i, p);
                proof {
                    assert(self.processes_v() =~= s0.processes_v().update(
                        i as int,
                        stdout_appended(s0.processes_v()[i as int], data@),
                    ));
                    lemma_store_update_process_wf(s0, *self, i as int);
                }
                return true;
            }
            i = i + 1;
        }
        proof {
            lemma_find_none(self.processes_v(), |p: ExecutionProcessView| p.id == id);
        }
        false
    }

    /// Append one chunk of captured standard error to a process, framed: the
    /// boundary marker is inserted between distinct chunks and nowhere else.
    pub fn append_stderr_chunk(&mut self, id: Id, chunk: &str) -> (ok: bool)
        requires
            old(self).wf(),
        ensures
            final(self).wf(),
            match old(self).process_of(id) {
                Option::None => !ok && final(self).same_as(*old(self)),
                Option::Some(p) => {
                    &&& ok
                    &&& final(self).processes_v() == old(self).processes_v().update(
                        old(self).process_idx(id),
                        stderr_appended(p, chunk@),
                    )
                    &&& final(self).tasks_v() == old(self).tasks_v()
                    &&& final(self).attempts_v() == old(self).attempts_v()
                    &&& final(self).sessions_v() == old(self).sessions_v()
                },
            },
    {
        let n: usize = self.processes.len();
        let mut i: usize = 0;
        while i < n
            invariant
                *self == *old(self),
                old(self).wf(),
                *self == *old(self),
                old(self).wf(),
                n == self.processes.len(),
                0 <= i <= n,
                forall|j: int| 0 <= j < i ==> self.processes_v()[j].id != id,
            decreases n - i,
        {
            if self.processes[i].id == id {
                proof {
                    lemma_find_at(self.processes_v(), |p: ExecutionProcessView| p.id == id, i as int);
                }
                let ghost s0 = *self;
                let mut p = self.processes.remove(i);
                let cur = p.stderr;
                p.stderr = Option::Some(
                    match cur {
                        Option::None => String::from_str(chunk),
                        Option::Some(s) => {
                            if s.unicode_len() == 0 {
                                String::from_str(chunk)
                            } else {
                                s.concat(boundary_marker_str()).concat(chunk)
                            }
                        },
                    },
                );
                self.processes.insert(i, p);
                proof {
                    assert(self.processes_v() =~= s0.processes_v().update(
                        i as int,
                        stderr_appended(s0.processes_v()[i as int], chunk@),
                    ));
                    lemma_store_update_process_wf(s0, *self, i as int);
                }
                return true;
            }
            i = i + 1;
        }
        proof {
            lemma_find_none(self.processes_v(), |p: ExecutionProcessView| p.id == id);
        }
        false
    }

    /// Set the status of the task `task_id` in project `project_id`.
    pub fn update_task_status(&mut self, task_id: Id, project_id: Id, status: TaskStatus) -> (ok:
        bool)
        requires
            old(self).wf(),
        ensures
            final(self).wf(),
            ok == old(self).task_in_project(task_id, project_id),
            if ok {
                &&& final(self).tasks_v() == old(self).tasks_v().update(
                    old(self).task_idx(task_id),
                    task_with_status(old(self).task_of(task_id)->Some_0, status),
                )
                &&& final(self).attempts_v() == old(self).attempts_v()
                &&& final(self).processes_v() == old(self).processes_v()
                &&& final(self).sessions_v() == old(self).sessions_v()
            } else {
                final(self).same_as(*old(self))
            },
    {
        let n: usize = self.tasks.len();
        let mut i: usize = 0;
        while i < n
            invariant
                *self == *old(self),
                old(self).wf(),
                *self == *old(self),
                old(self).wf(),
                n == self.tasks.len(),
                0 <= i <= n,
                forall|j: int| 0 <= j < i ==> self.tasks_v()[j].id != task_id,
            decreases n - i,
        {
            if self.tasks[i].id == task_id {
                proof {
                    lemma_find_at(self.tasks_v(), |t: TaskView| t.id == task_id, i as int);
                }
                if self.tasks[i].project_id != project_id {
                    return false;
                }
                let ghost s0 = *self;
                let mut t = self.tasks.remove(i);
                t.status = status;
                self.tasks.insert(i, t);
                proof {
                    assert(self.tasks_v() =~= s0.tasks_v().update(
                        i as int,
                        task_with_status(s0.tasks_v()[i as int], status),
                    ));
                    lemma_store_update_task_wf(s0, *self, i as int);
                }
                return true;
            }
            i = i + 1;
        }
        proof {
            lemma_find_none(self.tasks_v(), |t: TaskView| t.id == task_id);
        }
        false
    }

    /// The index of the task with identifier `id` (or the table length).
    pub open spec fn task_idx(self, id: Id) -> int {
        find_idx(self.tasks_v(), |t: TaskView| t.id == id)
    }

    /// The index of the attempt with identifier `id` (or the table length).
    pub open spec fn attempt_idx(self, id: Id) -> int {
        find_idx(self.attempts_v(), |a: TaskAttemptView| a.id == id)
    }

    /// Record the commit that merged an attempt into its base branch.
    pub fn record_merge(&mut self, attempt_id: Id, commit: &str) -> (ok: bool)
        requires
            old(self).wf(),
        ensures
            final(self).wf(),
            ok == old(self).has_attempt(attempt_id),
            if ok {
                &&& final(self).attempts_v() == old(self).attempts_v().update(
                    old(self).attempt_idx(attempt_id),
                    attempt_with_merge(old(self).attempt_of(attempt_id)->Some_0, commit@),
                )
                &&& final(self).tasks_v() == old(self).tasks_v()
                &&& final(self).processes_v() == old(self).processes_v()
                &&& final(self).sessions_v() == old(self).sessions_v()
            } else {
                final(self).same_as(*old(self))
            },
    {
        let n: usize = self.attempts.len();
        let mut i: usize = 0;
        while i < n
            invariant
                *self == *old(self),
                old(self).wf(),
                *self == *old(self),
                old(self).wf(),
                n == self.attempts.len(),
                0 <= i <= n,
                forall|j: int| 0 <= j < i ==> self.attempts_v()[j].id != attempt_id,
            decreases n - i,
        {
            if self.attempts[i].id == attempt_id {
                proof {
                    lemma_find_at(self.attempts_v(), |a: TaskAttemptView| a.id == attempt_id, i as int);
                    lemma_has_key_intro(self.attempts_v(), |a: TaskAttemptView| a.id, i as int);
                }
                let ghost s0 = *self;
                let mut a = self.attempts.remove(i);
                a.merge_commit = Option::Some(String::from_str(commit));
                self.attempts.insert(i, a);
                proof {
                    assert(self.attempts_v() =~= s0.attempts_v().update(
                        i as int,
                        attempt_with_merge(s0.attempts_v()[i as int], commit@),
                    ));
                    lemma_store_update_attempt_wf(s0, *self, i as int);
                }
                return true;
            }
            i = i + 1;
        }
        proof {
            lemma_find_none(self.attempts_v(), |a: TaskAttemptView| a.id == attempt_id);
        }
        false
    }

    /// The attempts of a task, in creation order.
    pub fn attempts_for_task(&self, task_id: Id) -> (r: Vec<TaskAttempt>)
        ensures
            r@.map_values(|a: TaskAttempt| a@) == self.attempts_v().filter(
                |a: TaskAttemptView| a.task_id == task_id,
            ),
    {
        let pred = |a: TaskAttemptView| a.task_id == task_id;
        let n: usize = self.attempts.len();
        let mut r: Vec<TaskAttempt> = Vec::new();
        let mut i: usize = 0;
        proof {
            assert(self.attempts_v().take(0) =~= Seq::<TaskAttemptView>::empty());
            reveal(Seq::filter);
            assert(r@.map_values(|a: TaskAttempt| a@) =~= self.attempts_v().take(0).filter(
                |a: TaskAttemptView| a.task_id == task_id,
            ));
        }
        while i < n
            invariant
                n == self.attempts.len(),
                0 <= i <= n,
                r@.map_values(|a: TaskAttempt| a@) == self.attempts_v().take(i as int).filter(
                    |a: TaskAttemptView| a.task_id == task_id,
                ),
            decreases n - i,
        {
            proof {
                assert(self.attempts_v().take(i + 1) =~= self.attempts_v().take(i as int).push(
                    self.attempts_v()[i as int],
                ));
                crate::store::lemma_filter_push(
                    self.attempts_v().take(i as int),
                    |a: TaskAttemptView| a.task_id == task_id,
                    self.attempts_v()[i as int],
                );
            }
            if self.attempts[i].task_id == task_id {
                let ghost r0 = r@;
                r.push(self.attempts[i].duplicate());
                proof {
                    assert(r@.map_values(|a: TaskAttempt| a@) =~= r0.map_values(
                        |a: TaskAttempt| a@,
                    ).push(self.attempts_v()[i as int]));
                }
            }
            i = i + 1;
        }
        proof {
            assert(self.attempts_v().take(n as int) =~= self.attempts_v());
        }
        r
    }

    /// The processes of an attempt, in creation order.
    pub fn processes_for_attempt(&self, attempt_id: Id) -> (r: Vec<ExecutionProcess>)
        ensures
            r@.map_values(|p: ExecutionProcess| p@) == self.processes_v().filter(
                |p: ExecutionProcessView| p.task_attempt_id == attempt_id,
            ),
    {
        let n: usize = self.processes.len();
        let mut r: Vec<ExecutionProcess> = Vec::new();
        let mut i: usize = 0;
        proof {
            assert(self.processes_v().take(0) =~= Seq::<ExecutionProcessView>::empty());
            reveal(Seq::filter);
            assert(r@.map_values(|p: ExecutionProcess| p@) =~= self.processes_v().take(0).filter(
                |p: ExecutionProcessView| p.task_attempt_id == attempt_id,
            ));
        }
        while i < n
            invariant
                n == self.processes.len(),
                0 <= i <= n,
                r@.map_values(|p: ExecutionProcess| p@) == self.processes_v().take(i as int).filter(
                    |p: ExecutionProcessView| p.task_attempt_id == attempt_id,
                ),
            decreases n - i,
        {
            proof {
                assert(self.processes_v().take(i + 1) =~= self.processes_v().take(i as int).push(
                    self.processes_v()[i as int],
                ));
                crate::store::lemma_filter_push(
                    self.processes_v().take(i as int),
                    |p: ExecutionProcessView| p.task_attempt_id == attempt_id,
                    self.processes_v()[i as int],
                );
            }
            if self.processes[i].task_attempt_id == attempt_id {
                let ghost r0 = r@;
                r.push(self.processes[i].duplicate());
                proof {
                    assert(r@.map_values(|p: ExecutionProcess| p@) =~= r0.map_values(
                        |p: ExecutionProcess| p@,
                    ).push(self.processes_v()[i as int]));
                }
            }
            i = i + 1;
        }
        proof {
            assert(self.processes_v().take(n as int) =~= self.processes_v());
        }
        r
    }

    /// Condensed rows for the processes of an attempt, in creation order.
    pub fn summaries_for_attempt(&self, attempt_id: Id) -> (r: Vec<
        crate::model::ExecutionProcessSummary,
    >)
        ensures
            r@.map_values(|s: crate::model::ExecutionProcessSummary| s@) == self.processes_v()
                .filter(|p: ExecutionProcessView| p.task_attempt_id == attempt_id).map_values(
                |p: ExecutionProcessView| crate::model::summary_of(p),
            ),
    {
        let procs = self.processes_for_attempt(attempt_id);
        let n: usize = procs.len();
        let ghost fv = self.processes_v().filter(
            |p: ExecutionProcessView| p.task_attempt_id == attempt_id,
        );
        let mut r: Vec<crate::model::ExecutionProcessSummary> = Vec::new();
        let mut i: usize = 0;
        proof {
            assert(r@.map_values(|s: crate::model::ExecutionProcessSummary| s@) =~= fv.take(
                0,
            ).map_values(|p: ExecutionProcessView| crate::model::summary_of(p)));
        }
        while i < n
            invariant
                n == procs.len(),
                procs@.map_values(|p: ExecutionProcess| p@) == fv,
                0 <= i <= n,
                r@.map_values(|s: crate::model::ExecutionProcessSummary| s@) == fv.take(
                    i as int,
                ).map_values(|p: ExecutionProcessView| crate::model::summary_of(p)),
            decreases n - i,
        {
            let ghost r0 = r@;
            r.push(procs[i].summarize());
            proof {
                assert(fv.take(i + 1) =~= fv.take(i as int).push(fv[i as int]));
                assert(fv.take(i + 1).map_values(
                    |p: ExecutionProcessView| crate::model::summary_of(p),
                ) =~= fv.take(i as int).map_values(
                    |p: ExecutionProcessView| crate::model::summary_of(p),
                ).push(crate::model::summary_of(fv[i as int])));
                assert(r@.map_values(|s: crate::model::ExecutionProcessSummary| s@)
                    =~= r0.map_values(|s: crate::model::ExecutionProcessSummary| s@).push(
                    crate::model::summary_of(fv[i as int]),
                ));
            }
            i = i + 1;
        }
        proof {
            assert(fv.take(n as int) =~= fv);
        }
        r
    }

    /// A process is a live dev server of project `project_id`: it is a
    /// `DevServer`, it is `Running`, and its attempt's task belongs to the
    /// project.
    pub open spec fn is_running_dev_server(self, p: ExecutionProcessView, project_id: Id) -> bool {
        &&& p.process_type == crate::model::ExecutionProcessType::DevServer
        &&& p.status == ExecutionProcessStatus::Running
        &&& self.attempt_project(p.task_attempt_id) == Option::Some(project_id)
    }

    /// The running dev-server processes of a project, in creation order.
    pub fn running_dev_servers(&self, project_id: Id) -> (r: Vec<ExecutionProcess>)
        ensures
            r@.map_values(|p: ExecutionProcess| p@) == self.processes_v().filter(
                |p: ExecutionProcessView| self.is_running_dev_server(p, project_id),
            ),
    {
        let n: usize = self.processes.len();
        let mut r: Vec<ExecutionProcess> = Vec::new();
        let mut i: usize = 0;
        proof {
            assert(self.processes_v().take(0) =~= Seq::<ExecutionProcessView>::empty());
            reveal(Seq::filter);
            assert(r@.map_values(|p: ExecutionProcess| p@) =~= self.processes_v().take(0).filter(
                |p: ExecutionProcessView| self.is_running_dev_server(p, project_id),
            ));
        }
        while i < n
            invariant
                n == self.processes.len(),
                0 <= i <= n,
                r@.map_values(|p: ExecutionProcess| p@) == self.processes_v().take(i as int).filter(
                    |p: ExecutionProcessView| self.is_running_dev_server(p, project_id),
                ),
            decreases n - i,
        {
            proof {
                assert(self.processes_v().take(i + 1) =~= self.processes_v().take(i as int).push(
                    self.processes_v()[i as int],
                ));
                crate::store::lemma_filter_push(
                    self.processes_v().take(i as int),
                    |p: ExecutionProcessView| self.is_running_dev_server(p, project_id),
                    self.processes_v()[i as int],
                );
            }
            let p = &self.processes[i];
            let is_dev = match p.process_type {
                crate::model::ExecutionProcessType::DevServer => true,
                _ => false,
            };
            let is_running = match p.status {
                ExecutionProcessStatus::Running => true,
                _ => false,
            };
            let in_project = if is_dev && is_running {
                match self.find_attempt(p.task_attempt_id) {
                    Option::Some(a) => match self.find_task(a.task_id) {
                        Option::Some(t) => t.project_id == project_id,
                        Option::None => false,
                    },
                    Option::None => false,
                }
            } else {
                false
            };
            if is_dev && is_running && in_project {
                let ghost r0 = r@;
                r.push(self.processes[i].duplicate());
                proof {
                    assert(r@.map_values(|p: ExecutionProcess| p@) =~= r0.map_values(
                        |p: ExecutionProcess| p@,
                    ).push(self.processes_v()[i as int]));
                }
            }
            i = i + 1;
        }
        proof {
            assert(self.processes_v().take(n as int) =~= self.processes_v());
        }
        r
    }

    /// The tasks of a project spawned from attempt `attempt_id` by plan
    /// approval, in creation order.
    pub fn children_of_attempt(&self, attempt_id: Id, project_id: Id) -> (r: Vec<Task>)
        ensures
            r@.map_values(|t: Task| t@) == self.tasks_v().filter(
                |t: TaskView| t.parent_task_attempt == Option::Some(attempt_id) && t.project_id
                    == project_id,
            ),
    {
        let n: usize = self.tasks.len();
        let mut r: Vec<Task> = Vec::new();
        let mut i: usize = 0;
        proof {
            assert(self.tasks_v().take(0) =~= Seq::<TaskView>::empty());
            reveal(Seq::filter);
            assert(r@.map_values(|t: Task| t@) =~= self.tasks_v().take(0).filter(
                |t: TaskView| t.parent_task_attempt == Option::Some(attempt_id) && t.project_id
                    == project_id,
            ));
        }
        while i < n
            invariant
                n == self.tasks.len(),
                0 <= i <= n,
                r@.map_values(|t: Task| t@) == self.tasks_v().take(i as int).filter(
                    |t: TaskView| t.parent_task_attempt == Option::Some(attempt_id) && t.project_id
                        == project_id,
                ),
            decreases n - i,
        {
            proof {
                assert(self.tasks_v().take(i + 1) =~= self.tasks_v().take(i as int).push(
                    self.tasks_v()[i as int],
                ));
                crate::store::lemma_filter_push(
                    self.tasks_v().take(i as int),
                    |t: TaskView| t.parent_task_attempt == Option::Some(attempt_id) && t.project_id
                        == project_id,
                    self.tasks_v()[i as int],
                );
            }
            let is_child = match &self.tasks[i].parent_task_attempt {
                Option::Some(a) => *a == attempt_id,
                Option::None => false,
            };
            if is_child && self.tasks[i].project_id == project_id {
                let ghost r0 = r@;
                r.push(self.tasks[i].duplicate());
                proof {
                    assert(r@.map_values(|t: Task| t@) =~= r0.map_values(|t: Task| t@).push(
                        self.tasks_v()[i as int],
                    ));
                }
            }
            i = i + 1;
        }
        proof {
            assert(self.tasks_v().take(n as int) =~= self.tasks_v());
        }
        r
    }

    /// Move an attempt onto a new base branch after a successful rebase.
    pub fn set_attempt_base_branch(&mut self, attempt_id: Id, base: &str) -> (ok: bool)
        requires
            old(self).wf(),
        ensures
            final(self).wf(),
            ok == old(self).has_attempt(attempt_id),
            if ok {
                &&& final(self).attempts_v() == old(self).attempts_v().update(
                    old(self).attempt_idx(attempt_id),
                    attempt_with_base(old(self).attempt_of(attempt_id)->Some_0, base@),
                )
                &&& final(self).tasks_v() == old(self).tasks_v()
                &&& final(self).processes_v() == old(self).processes_v()
                &&& final(self).sessions_v() == old(self).sessions_v()
            } else {
                final(self).same_as(*old(self))
            },
    {
        let n: usize = self.attempts.len();
        let mut i: usize = 0;
        while i < n
            invariant
                *self == *old(self),
                old(self).wf(),
                *self == *old(self),
                old(self).wf(),
                n == self.attempts.len(),
                0 <= i <= n,
                forall|j: int| 0 <= j < i ==> self.attempts_v()[j].id != attempt_id,
            decreases n - i,
        {
            if self.attempts[i].id == attempt_id {
                proof {
                    lemma_find_at(self.attempts_v(), |a: TaskAttemptView| a.id == attempt_id, i as int);
                    lemma_has_key_intro(self.attempts_v(), |a: TaskAttemptView| a.id, i as int);
                }
                let ghost s0 = *self;
                let mut a = self.attempts.remove(i);
                a.base_branch = String::from_str(base);
                self.attempts.insert(i, a);
                proof {
                    assert(self.attempts_v() =~= s0.attempts_v().update(
                        i as int,
                        attempt_with_base(s0.attempts_v()[i as int], base@),
                    ));
                    lemma_store_update_attempt_wf(s0, *self, i as int);
                }
                return true;
            }
            i = i + 1;
        }
        proof {
            lemma_find_none(self.attempts_v(), |a: TaskAttemptView| a.id == attempt_id);
        }
        false
    }
}

/// The in-band marker the supervisor writes between distinct stderr chunks.
pub open spec fn boundary_marker() -> Seq<char> {
    "---STDERR_CHUNK_BOUNDARY---"@
}

/// The marker string itself.
pub fn boundary_marker_str() -> (r: &'static str)
    ensures
        r@ == boundary_marker(),
{
    "---STDERR_CHUNK_BOUNDARY---"
}

/// A process view after its terminal transition.
pub open spec fn completed_view(
    p: ExecutionProcessView,
    status: ExecutionProcessStatus,
    exit_code: Option<i64>,
    now: Seq<char>,
) -> ExecutionProcessView {
    ExecutionProcessView { status, exit_code, ended_at: Option::Some(now), ..p }
}

/// A process view with `data` appended verbatim to its stdout.
pub open spec fn stdout_appended(p: ExecutionProcessView, data: Seq<char>) -> ExecutionProcessView {
    ExecutionProcessView {
        stdout: Option::Some(crate::model::text_of(p.stdout) + data),
        ..p
    }
}

/// What one framed stderr write leaves behind: the first chunk stands alone,
/// later chunks are separated from the existing text by the boundary marker.
pub open spec fn stderr_text_appended(cur: Option<Seq<char>>, chunk: Seq<char>) -> Seq<char> {
    if crate::model::text_of(cur).len() == 0 {
        chunk
    } else {
        crate::model::text_of(cur) + boundary_marker() + chunk
    }
}

/// A process view with one framed stderr chunk appended.
pub open spec fn stderr_appended(p: ExecutionProcessView, chunk: Seq<char>) -> ExecutionProcessView {
    ExecutionProcessView {
        stderr: Option::Some(stderr_text_appended(p.stderr, chunk)),
        ..p
    }
}

/// What a completion update does to the process table: the single terminal
/// transition when the process is still `Running`, a no-op reporting the
/// prior status when it is already terminal, a no-op reporting nothing when
/// no such process exists.
pub open spec fn spec_update_completion(
    ps: Seq<ExecutionProcessView>,
    id: Id,
    status: ExecutionProcessStatus,
    exit_code: Option<i64>,
    now: Seq<char>,
) -> (Seq<ExecutionProcessView>, Option<ExecutionProcessStatus>) {
    let i = find_idx(ps, |p: ExecutionProcessView| p.id == id);
    if i < ps.len() {
        let p = ps[i];
        if p.status == ExecutionProcessStatus::Running {
            (ps.update(i, completed_view(p, status, exit_code, now)), Option::Some(p.status))
        } else {
            (ps, Option::Some(p.status))
        }
    } else {
        (ps, Option::None)
    }
}

/// Two sequences that agree pointwise under `p` have the same first match.
pub proof fn lemma_find_idx_pointwise<T>(s1: Seq<T>, s2: Seq<T>, p: spec_fn(T) -> bool)
    requires
        s1.len() == s2.len(),
        forall|i: int| 0 <= i < s1.len() ==> p(s1[i]) == p(s2[i]),
    ensures
        find_idx(s1, p) == find_idx(s2, p),
    decreases s1.len(),
{
    if s1.len() > 0 {
        assert forall|i: int| 0 <= i < s1.skip(1).len() implies p(s1.skip(1)[i]) == p(
            s2.skip(1)[i],
        ) by {
            assert(s1.skip(1)[i] == s1[i + 1]);
            assert(s2.skip(1)[i] == s2[i + 1]);
        }
        lemma_find_idx_pointwise(s1.skip(1), s2.skip(1), p);
    }
}

/// Law: a process reaches a terminal status at most once. After one
/// completion update, any further completion update leaves the table
/// untouched and merely reports the status the process already has.
pub proof fn lemma_completion_at_most_once(
    ps: Seq<ExecutionProcessView>,
    id: Id,
    st1: ExecutionProcessStatus,
    code1: Option<i64>,
    now1: Seq<char>,
    st2: ExecutionProcessStatus,
    code2: Option<i64>,
    now2: Seq<char>,
)
    requires
        is_terminal(st1),
        is_terminal(st2),
    ensures
        ({
            let (ps1, r1) = spec_update_completion(ps, id, st1, code1, now1);
            let (ps2, r2) = spec_update_completion(ps1, id, st2, code2, now2);
            &&& ps2 == ps1
            &&& match find_by(ps, |p: ExecutionProcessView| p.id == id) {
                Option::Some(p) => r2 == Option::Some(
                    if p.status == ExecutionProcessStatus::Running {
                        st1
                    } else {
                        p.status
                    },
                ),
                Option::None => r2 is None,
            }
        }),
{
    let p = |p: ExecutionProcessView| p.id == id;
    let (ps1, r1) = spec_update_completion(ps, id, st1, code1, now1);
    lemma_find_idx(ps, p);
    let i = find_idx(ps, p);
    if i < ps.len() {
        if ps[i].status == ExecutionProcessStatus::Running {
            assert forall|k: int| 0 <= k < ps.len() implies p(ps[k]) == p(ps1[k]) by {
                if k != i {
                    assert(ps1[k] == ps[k]);
                }
            }
            lemma_find_idx_pointwise(ps, ps1, p);
            assert(ps1[i].status == st1);
            assert(ps1.update(i, ps1[i]) =~= ps1);
        }
    }
}

/// The text left in a stdout column by a sequence of verbatim writes, each
/// appended by `append_stdout`.
pub open spec fn stdout_after(chunks: Seq<Seq<char>>) -> Seq<char>
    decreases chunks.len(),
{
    if chunks.len() == 0 {
        Seq::empty()
    } else {
        stdout_after(chunks.drop_last()) + chunks.last()
    }
}

/// The plain concatenation of all chunks.
pub open spec fn concat_all(chunks: Seq<Seq<char>>) -> Seq<char>
    decreases chunks.len(),
{
    if chunks.len() == 0 {
        Seq::empty()
    } else {
        chunks[0] + concat_all(chunks.skip(1))
    }
}

/// Concatenation grows on the right.
proof fn lemma_concat_all_push(chunks: Seq<Seq<char>>, c: Seq<char>)
    ensures
        concat_all(chunks.push(c)) == concat_all(chunks) + c,
    decreases chunks.len(),
{
    let s = chunks.push(c);
    if chunks.len() == 0 {
        assert(s[0] == c);
        assert(s.skip(1) =~= Seq::<Seq<char>>::empty());
        assert(concat_all(s.skip(1)) == Seq::<char>::empty());
        assert(concat_all(s) =~= concat_all(chunks) + c);
    } else {
        assert(s.skip(1) =~= chunks.skip(1).push(c));
        lemma_concat_all_push(chunks.skip(1), c);
        assert(s[0] == chunks[0]);
        assert(concat_all(s) == s[0] + concat_all(s.skip(1)));
        assert(concat_all(s) =~= concat_all(chunks) + c);
    }
}

/// Law: the persisted stdout bytes are exactly the concatenation of what the
/// child wrote, in order, with nothing inserted or dropped.
pub proof fn lemma_stdout_preserves_bytes(chunks: Seq<Seq<char>>)
    ensures
        stdout_after(chunks) == concat_all(chunks),
    decreases chunks.len(),
{
    if chunks.len() > 0 {
        lemma_stdout_preserves_bytes(chunks.drop_last());
        lemma_concat_all_push(chunks.drop_last(), chunks.last());
        assert(chunks.drop_last().push(chunks.last()) =~= chunks);
    }
}

/// The text left in a stderr column by a sequence of framed chunk writes,
/// each appended by `append_stderr_chunk`.
pub open spec fn stderr_after(chunks: Seq<Seq<char>>) -> Seq<char>
    decreases chunks.len(),
{
    if chunks.len() == 0 {
        Seq::empty()
    } else {
        stderr_text_appended(Option::Some(stderr_after(chunks.drop_last())), chunks.last())
    }
}

/// Chunks joined by a separator, the separator strictly between chunks.
pub open spec fn joined_with(chunks: Seq<Seq<char>>, sep: Seq<char>) -> Seq<char>
    decreases chunks.len(),
{
    if chunks.len() == 0 {
        Seq::empty()
    } else if chunks.len() == 1 {
        chunks[0]
    } else {
        chunks[0] + sep + joined_with(chunks.skip(1), sep)
    }
}

/// Joining grows on the right, separated from what came before.
proof fn lemma_joined_push(chunks: Seq<Seq<char>>, sep: Seq<char>, c: Seq<char>)
    ensures
        joined_with(chunks.push(c), sep) == if chunks.len() == 0 {
            c
        } else {
            joined_with(chunks, sep) + sep + c
        },
    decreases chunks.len(),
{
    if chunks.len() == 0 {
        assert(chunks.push(c)[0] == c);
    } else {
        assert(chunks.push(c).skip(1) =~= chunks.skip(1).push(c));
        lemma_joined_push(chunks.skip(1), sep, c);
        if chunks.len() == 1 {
            assert(joined_with(chunks.push(c), sep) =~= joined_with(chunks, sep) + sep + c);
        } else {
            assert(joined_with(chunks.push(c), sep) =~= joined_with(chunks, sep) + sep + c);
        }
    }
}

/// A join of nonempty chunks is nonempty.
proof fn lemma_joined_nonempty(chunks: Seq<Seq<char>>, sep: Seq<char>)
    requires
        chunks.len() > 0,
        chunks[0].len() > 0,
    ensures
        joined_with(chunks, sep).len() > 0,
{
}

/// Law: the persisted stderr bytes are exactly the chunks the child wrote,
/// joined by the boundary marker, the marker standing only between chunks.
pub proof fn lemma_stderr_preserves_bytes(chunks: Seq<Seq<char>>)
    requires
        forall|i: int| 0 <= i < chunks.len() ==> (#[trigger] chunks[i]).len() > 0,
    ensures
        stderr_after(chunks) == joined_with(chunks, boundary_marker()),
    decreases chunks.len(),
{
    if chunks.len() > 0 {
        let d = chunks.drop_last();
        let c = chunks.last();
        assert(forall|i: int| 0 <= i < d.len() ==> (#[trigger] d[i]).len() > 0);
        lemma_stderr_preserves_bytes(d);
        lemma_joined_push(d, boundary_marker(), c);
        assert(d.push(c) =~= chunks);
        if d.len() == 0 {
        } else {
            lemma_joined_nonempty(d, boundary_marker());
        }
    }
}

/// Under identifier uniqueness, the row holding identifier `k` is exactly
/// where the search lands.
pub proof fn lemma_process_row_found(ps: Seq<ExecutionProcessView>, i: int, k: Id)
    requires
        distinct_keys(ps, |p: ExecutionProcessView| p.id),
        0 <= i < ps.len(),
        ps[i].id == k,
    ensures
        find_idx(ps, |p: ExecutionProcessView| p.id == k) == i,
        find_by(ps, |p: ExecutionProcessView| p.id == k) == Option::Some(ps[i]),
{
    let key = |p: ExecutionProcessView| p.id;
    assert forall|j: int| 0 <= j < i implies !((|p: ExecutionProcessView| p.id == k)(ps[j])) by {
        assert(key(ps[j]) != key(ps[i]));
    }
    lemma_find_at(ps, |p: ExecutionProcessView| p.id == k, i);
}

/// A found task witnesses its identifier's membership, and conversely.
pub proof fn lemma_task_found_iff_has(s: Store, id: Id)
    ensures
        (s.task_of(id) is Some) == s.has_task(id),
        s.task_of(id) matches Option::Some(t) ==> t.id == id,
{
    let p = |t: TaskView| t.id == id;
    lemma_find_idx(s.tasks_v(), p);
    if s.task_of(id) is Some {
        lemma_has_key_intro(s.tasks_v(), |t: TaskView| t.id, find_idx(s.tasks_v(), p));
    } else if s.has_task(id) {
        let w = lemma_has_key_witness(s.tasks_v(), |t: TaskView| t.id, id);
        assert(p(s.tasks_v()[w]));
    }
}

/// A found attempt witnesses its identifier's membership, and conversely.
pub proof fn lemma_attempt_found_iff_has(s: Store, id: Id)
    ensures
        (s.attempt_of(id) is Some) == s.has_attempt(id),
        s.attempt_of(id) matches Option::Some(a) ==> a.id == id,
{
    let p = |a: TaskAttemptView| a.id == id;
    lemma_find_idx(s.attempts_v(), p);
    if s.attempt_of(id) is Some {
        lemma_has_key_intro(s.attempts_v(), |a: TaskAttemptView| a.id, find_idx(s.attempts_v(), p));
    } else if s.has_attempt(id) {
        let w = lemma_has_key_witness(s.attempts_v(), |a: TaskAttemptView| a.id, id);
        assert(p(s.attempts_v()[w]));
    }
}

/// A found process witnesses its identifier's membership, and conversely.
pub proof fn lemma_process_found_iff_has(s: Store, id: Id)
    ensures
        (s.process_of(id) is Some) == s.has_process(id),
        s.process_of(id) matches Option::Some(p) ==> p.id == id,
{
    let p = |x: ExecutionProcessView| x.id == id;
    lemma_find_idx(s.processes_v(), p);
    if s.process_of(id) is Some {
        lemma_has_key_intro(
            s.processes_v(),
            |x: ExecutionProcessView| x.id,
            find_idx(s.processes_v(), p),
        );
    } else if s.has_process(id) {
        let w = lemma_has_key_witness(s.processes_v(), |x: ExecutionProcessView| x.id, id);
        assert(p(s.processes_v()[w]));
    }
}

/// Appending an element does not change what a search finds, unless nothing
/// was found and the new element matches.
pub proof fn lemma_find_push<T>(s: Seq<T>, p: spec_fn(T) -> bool, x: T)
    ensures
        find_by(s.push(x), p) == match find_by(s, p) {
            Option::Some(y) => Option::Some(y),
            Option::None => if p(x) {
                Option::Some(x)
            } else {
                Option::<T>::None
            },
        },
{
    lemma_find_idx(s, p);
    let i = find_idx(s, p);
    if i < s.len() {
        assert(s.push(x)[i] == s[i]);
        assert forall|j: int| 0 <= j < i implies !p(s.push(x)[j]) by {
            assert(s.push(x)[j] == s[j]);
        }
        lemma_find_at(s.push(x), p, i);
    } else {
        if p(x) {
            assert forall|j: int| 0 <= j < s.len() implies !p(s.push(x)[j]) by {
                assert(s.push(x)[j] == s[j]);
            }
            lemma_find_at(s.push(x), p, s.len() as int);
        } else {
            assert forall|j: int| 0 <= j < s.push(x).len() implies !p(s.push(x)[j]) by {
                if j < s.len() {
                    assert(s.push(x)[j] == s[j]);
                }
            }
            lemma_find_none(s.push(x), p);
        }
    }
}

/// Replacing one element without changing whether it matches does not move
/// the first match; the found value changes only if the replacement sits at
/// the found position.
pub proof fn lemma_find_update<T>(s: Seq<T>, p: spec_fn(T) -> bool, i: int, x: T)
    requires
        0 <= i < s.len(),
        p(x) == p(s[i]),
    ensures
        find_idx(s.update(i, x), p) == find_idx(s, p),
        find_by(s.update(i, x), p) == if find_idx(s, p) == i {
            Option::Some(x)
        } else {
            find_by(s, p)
        },
{
    let s2 = s.update(i, x);
    assert forall|j: int| 0 <= j < s.len() implies p(s[j]) == p(s2[j]) by {
        if j != i {
            assert(s2[j] == s[j]);
        }
    }
    lemma_find_idx_pointwise(s, s2, p);
    lemma_find_idx(s, p);
    let w = find_idx(s, p);
    if w < s.len() && w != i {
        assert(s2[w] == s[w]);
    }
}

/// Appending a row does not change which row an identifier search finds,
/// unless nothing was found and the new row matches.
pub proof fn lemma_process_find_push(ps: Seq<ExecutionProcessView>, x: ExecutionProcessView, k: Id)
    ensures
        find_by(ps.push(x), |p: ExecutionProcessView| p.id == k) == match find_by(
            ps,
            |p: ExecutionProcessView| p.id == k,
        ) {
            Option::Some(y) => Option::Some(y),
            Option::None => if x.id == k {
                Option::Some(x)
            } else {
                Option::<ExecutionProcessView>::None
            },
        },
{
    let p = |p: ExecutionProcessView| p.id == k;
    lemma_find_idx(ps, p);
    let i = find_idx(ps, p);
    if i < ps.len() {
        assert(ps.push(x)[i] == ps[i]);
        assert forall|j: int| 0 <= j < i implies !p(ps.push(x)[j]) by {
            assert(ps.push(x)[j] == ps[j]);
        }
        lemma_find_at(ps.push(x), p, i);
    } else {
        if x.id == k {
            assert forall|j: int| 0 <= j < ps.len() implies !p(ps.push(x)[j]) by {
                assert(ps.push(x)[j] == ps[j]);
            }
            lemma_find_at(ps.push(x), p, ps.len() as int);
        } else {
            assert forall|j: int| 0 <= j < ps.push(x).len() implies !p(ps.push(x)[j]) by {
                if j < ps.len() {
                    assert(ps.push(x)[j] == ps[j]);
                }
            }
            lemma_find_none(ps.push(x), p);
        }
    }
}

/// Replacing a row without changing its identifier does not change what a
/// search for a different identifier finds.
pub proof fn lemma_process_find_update_other(
    ps: Seq<ExecutionProcessView>,
    i: int,
    q: ExecutionProcessView,
    k: Id,
)
    requires
        0 <= i < ps.len(),
        q.id == ps[i].id,
        k != ps[i].id,
    ensures
        find_by(ps.update(i, q), |p: ExecutionProcessView| p.id == k) == find_by(
            ps,
            |p: ExecutionProcessView| p.id == k,
        ),
{
    let p = |p: ExecutionProcessView| p.id == k;
    let ps2 = ps.update(i, q);
    assert forall|j: int| 0 <= j < ps.len() implies p(ps[j]) == p(ps2[j]) by {
        if j != i {
            assert(ps2[j] == ps[j]);
        }
    }
    lemma_find_idx_pointwise(ps, ps2, p);
    lemma_find_idx(ps, p);
    let w = find_idx(ps, p);
    if w < ps.len() {
        assert(p(ps[w]));
        assert(w != i);
        assert(ps2[w] == ps[w]);
    }
}

/// Filtering distributes over appending one element.
pub proof fn lemma_filter_push<T>(s: Seq<T>, p: spec_fn(T) -> bool, x: T)
    ensures
        s.push(x).filter(p) == if p(x) {
            s.filter(p).push(x)
        } else {
            s.filter(p)
        },
{
    reveal(Seq::filter);
    assert(s.push(x).drop_last() =~= s);
    assert(s.push(x).last() == x);
}

/// A task view with its status replaced.
pub open spec fn task_with_status(t: TaskView, status: TaskStatus) -> TaskView {
    TaskView { status, ..t }
}

/// An attempt view with its merge commit recorded.
pub open spec fn attempt_with_merge(a: TaskAttemptView, commit: Seq<char>) -> TaskAttemptView {
    TaskAttemptView { merge_commit: Option::Some(commit), ..a }
}

/// An attempt view moved onto a new base branch.
pub open spec fn attempt_with_base(a: TaskAttemptView, base: Seq<char>) -> TaskAttemptView {
    TaskAttemptView { base_branch: base, ..a }
}

/// Replacing a process without changing its identifier or attempt reference
/// preserves well-formedness.
proof fn lemma_store_update_process_wf(s0: Store, s1: Store, i: int)
    requires
        s0.wf(),
        0 <= i < s0.processes_v().len(),
        s1.processes_v() == s0.processes_v().update(i, s1.processes_v()[i]),
        s1.processes_v()[i].id == s0.processes_v()[i].id,
        s1.processes_v()[i].task_attempt_id == s0.processes_v()[i].task_attempt_id,
        s1.tasks_v() == s0.tasks_v(),
        s1.attempts_v() == s0.attempts_v(),
        s1.sessions_v() == s0.sessions_v(),
    ensures
        s1.wf(),
{
    lemma_distinct_update(s0.processes_v(), |p: ExecutionProcessView| p.id, i, s1.processes_v()[i]);
    assert forall|k: int|
        0 <= k < s1.processes_v().len() implies s1.has_attempt(
        #[trigger] s1.processes_v()[k].task_attempt_id,
    ) by {
        assert(s1.processes_v()[k].task_attempt_id == s0.processes_v()[k].task_attempt_id);
    }
    assert forall|k: int|
        0 <= k < s1.sessions_v().len() implies s1.has_process(
        #[trigger] s1.sessions_v()[k].execution_process_id,
    ) by {
        assert(s0.has_process(s0.sessions_v()[k].execution_process_id));
        lemma_has_key_update(
            s0.processes_v(),
            |p: ExecutionProcessView| p.id,
            s0.sessions_v()[k].execution_process_id,
            i,
            s1.processes_v()[i],
        );
    }
}

/// Replacing a task without changing its identifier or parent reference
/// preserves well-formedness.
proof fn lemma_store_update_task_wf(s0: Store, s1: Store, i: int)
    requires
        s0.wf(),
        0 <= i < s0.tasks_v().len(),
        s1.tasks_v() == s0.tasks_v().update(i, s1.tasks_v()[i]),
        s1.tasks_v()[i].id == s0.tasks_v()[i].id,
        s1.tasks_v()[i].parent_task_attempt == s0.tasks_v()[i].parent_task_attempt,
        s1.attempts_v() == s0.attempts_v(),
        s1.processes_v() == s0.processes_v(),
        s1.sessions_v() == s0.sessions_v(),
    ensures
        s1.wf(),
{
    lemma_distinct_update(s0.tasks_v(), |t: TaskView| t.id, i, s1.tasks_v()[i]);
    assert forall|k: int|
        0 <= k < s1.attempts_v().len() implies s1.has_task(
        #[trigger] s1.attempts_v()[k].task_id,
    ) by {
        assert(s0.has_task(s0.attempts_v()[k].task_id));
        lemma_has_key_update(
            s0.tasks_v(),
            |t: TaskView| t.id,
            s0.attempts_v()[k].task_id,
            i,
            s1.tasks_v()[i],
        );
    }
    assert forall|k: int|
        0 <= k < s1.tasks_v().len() implies match #[trigger] s1.tasks_v()[k].parent_task_attempt {
        Option::Some(a) => s1.has_attempt(a),
        Option::None => true,
    } by {
        assert(s1.tasks_v()[k].parent_task_attempt == s0.tasks_v()[k].parent_task_attempt);
    }
}

/// Replacing an attempt without changing its identifier, task reference or
/// worktree path preserves well-formedness.
proof fn lemma_store_update_attempt_wf(s0: Store, s1: Store, i: int)
    requires
        s0.wf(),
        0 <= i < s0.attempts_v().len(),
        s1.attempts_v() == s0.attempts_v().update(i, s1.attempts_v()[i]),
        s1.attempts_v()[i].id == s0.attempts_v()[i].id,
        s1.attempts_v()[i].task_id == s0.attempts_v()[i].task_id,
        s1.attempts_v()[i].worktree_path == s0.attempts_v()[i].worktree_path,
        s1.tasks_v() == s0.tasks_v(),
        s1.processes_v() == s0.processes_v(),
        s1.sessions_v() == s0.sessions_v(),
    ensures
        s1.wf(),
{
    lemma_distinct_update(s0.attempts_v(), |a: TaskAttemptView| a.id, i, s1.attempts_v()[i]);
    lemma_distinct_update(
        s0.attempts_v(),
        |a: TaskAttemptView| a.worktree_path,
        i,
        s1.attempts_v()[i],
    );
    assert forall|k: int|
        0 <= k < s1.attempts_v().len() implies s1.has_task(
        #[trigger] s1.attempts_v()[k].task_id,
    ) by {
        assert(s1.attempts_v()[k].task_id == s0.attempts_v()[k].task_id);
    }
    assert forall|k: int|
        0 <= k < s1.processes_v().len() implies s1.has_attempt(
        #[trigger] s1.processes_v()[k].task_attempt_id,
    ) by {
        assert(s0.has_attempt(s0.processes_v()[k].task_attempt_id));
        lemma_has_key_update(
            s0.attempts_v(),
            |a: TaskAttemptView| a.id,
            s0.processes_v()[k].task_attempt_id,
            i,
            s1.attempts_v()[i],
        );
    }
    assert forall|k: int|
        0 <= k < s1.tasks_v().len() implies match #[trigger] s1.tasks_v()[k].parent_task_attempt {
        Option::Some(a) => s1.has_attempt(a),
        Option::None => true,
    } by {
        match s0.tasks_v()[k].parent_task_attempt {
            Option::Some(a) => {
                assert(s0.has_attempt(a));
                lemma_has_key_update(
                    s0.attempts_v(),
                    |x: TaskAttemptView| x.id,
                    a,
                    i,
                    s1.attempts_v()[i],
                );
            },
            Option::None => {},
        }
    }
}

/// Pushing a task whose identifier is fresh and whose parent reference
/// resolves preserves well-formedness.
proof fn lemma_store_push_task_wf(s0: Store, s1: Store)
    requires
        s0.wf(),
        s1.tasks_v().len() == s0.tasks_v().len() + 1,
        s1.tasks_v() == s0.tasks_v().push(s1.tasks_v().last()),
        !s0.has_task(s1.tasks_v().last().id),
        s1.tasks_v().last().parent_task_attempt matches Option::Some(a) ==> s0.has_attempt(a),
        s1.attempts_v() == s0.attempts_v(),
        s1.processes_v() == s0.processes_v(),
        s1.sessions_v() == s0.sessions_v(),
    ensures
        s1.wf(),
{
    let t = s1.tasks_v().last();
    assert forall|i: int, j: int|
        0 <= i < j < s1.tasks_v().len() implies (#[trigger] s1.tasks_v()[i]).id != (
    #[trigger] s1.tasks_v()[j]).id by {
        if j < s0.tasks_v().len() {
        } else {
            if s1.tasks_v()[i].id == t.id {
                assert(has_key(s0.tasks_v(), |x: TaskView| x.id, t.id));
            }
        }
    }
    assert forall|i: int|
        0 <= i < s1.tasks_v().len() implies match #[trigger] s1.tasks_v()[i].parent_task_attempt {
        Option::Some(a) => s1.has_attempt(a),
        Option::None => true,
    } by {
        if i < s0.tasks_v().len() {
            assert(s1.tasks_v()[i] == s0.tasks_v()[i]);
        }
    }
    assert forall|i: int|
        0 <= i < s1.attempts_v().len() implies s1.has_task(
        #[trigger] s1.attempts_v()[i].task_id,
    ) by {
        assert(s0.has_task(s0.attempts_v()[i].task_id));
        lemma_has_key_push(s0.tasks_v(), |x: TaskView| x.id, s0.attempts_v()[i].task_id, t);
    }
}

/// Pushing an attempt with fresh identifier, fresh worktree path and a
/// resolving task reference preserves well-formedness.
proof fn lemma_store_push_attempt_wf(s0: Store, s1: Store)
    requires
        s0.wf(),
        s1.attempts_v().len() == s0.attempts_v().len() + 1,
        s1.attempts_v() == s0.attempts_v().push(s1.attempts_v().last()),
        !s0.has_attempt(s1.attempts_v().last().id),
        !s0.has_worktree(s1.attempts_v().last().worktree_path),
        s0.has_task(s1.attempts_v().last().task_id),
        s1.tasks_v() == s0.tasks_v(),
        s1.processes_v() == s0.processes_v(),
        s1.sessions_v() == s0.sessions_v(),
    ensures
        s1.wf(),
{
    let a = s1.attempts_v().last();
    assert forall|i: int, j: int|
        0 <= i < j < s1.attempts_v().len() implies (#[trigger] s1.attempts_v()[i]).id != (
    #[trigger] s1.attempts_v()[j]).id by {
        if j == s0.attempts_v().len() && s1.attempts_v()[i].id == a.id {
            assert(has_key(s0.attempts_v(), |x: TaskAttemptView| x.id, a.id));
        }
    }
    assert forall|i: int, j: int|
        0 <= i < j < s1.attempts_v().len() implies (#[trigger] s1.attempts_v()[i]).worktree_path
        != (#[trigger] s1.attempts_v()[j]).worktree_path by {
        if j == s0.attempts_v().len() && s1.attempts_v()[i].worktree_path == a.worktree_path {
            assert(has_key(s0.attempts_v(), |x: TaskAttemptView| x.worktree_path, a.worktree_path));
        }
    }
    assert forall|i: int|
        0 <= i < s1.processes_v().len() implies s1.has_attempt(
        #[trigger] s1.processes_v()[i].task_attempt_id,
    ) by {
        assert(s0.has_attempt(s0.processes_v()[i].task_attempt_id));
        lemma_has_key_push(
            s0.attempts_v(),
            |x: TaskAttemptView| x.id,
            s0.processes_v()[i].task_attempt_id,
            a,
        );
    }
    assert forall|i: int|
        0 <= i < s1.tasks_v().len() implies match #[trigger] s1.tasks_v()[i].parent_task_attempt {
        Option::Some(p) => s1.has_attempt(p),
        Option::None => true,
    } by {
        match s0.tasks_v()[i].parent_task_attempt {
            Option::Some(p) => {
                assert(s0.has_attempt(p));
                lemma_has_key_push(s0.attempts_v(), |x: TaskAttemptView| x.id, p, a);
            },
            Option::None => {},
        }
    }
}

/// Pushing a process with a fresh identifier and a resolving attempt
/// reference preserves well-formedness.
proof fn lemma_store_push_process_wf(s0: Store, s1: Store)
    requires
        s0.wf(),
        s1.processes_v().len() == s0.processes_v().len() + 1,
        s1.processes_v() == s0.processes_v().push(s1.processes_v().last()),
        !s0.has_process(s1.processes_v().last().id),
        s0.has_attempt(s1.processes_v().last().task_attempt_id),
        s1.tasks_v() == s0.tasks_v(),
        s1.attempts_v() == s0.attempts_v(),
        s1.sessions_v() == s0.sessions_v(),
    ensures
        s1.wf(),
{
    let p = s1.processes_v().last();
    assert forall|i: int, j: int|
        0 <= i < j < s1.processes_v().len() implies (#[trigger] s1.processes_v()[i]).id != (
    #[trigger] s1.processes_v()[j]).id by {
        if j == s0.processes_v().len() && s1.processes_v()[i].id == p.id {
            assert(has_key(s0.processes_v(), |x: ExecutionProcessView| x.id, p.id));
        }
    }
    assert forall|i: int|
        0 <= i < s1.sessions_v().len() implies s1.has_process(
        #[trigger] s1.sessions_v()[i].execution_process_id,
    ) by {
        assert(s0.has_process(s0.sessions_v()[i].execution_process_id));
        lemma_has_key_push(
            s0.processes_v(),
            |x: ExecutionProcessView| x.id,
            s0.sessions_v()[i].execution_process_id,
            p,
        );
    }
}

/// Pushing a session for a process that exists and has none preserves
/// well-formedness.
proof fn lemma_store_push_session_wf(s0: Store, s1: Store)
    requires
        s0.wf(),
        s1.sessions_v().len() == s0.sessions_v().len() + 1,
        s1.sessions_v() == s0.sessions_v().push(s1.sessions_v().last()),
        !s0.has_session(s1.sessions_v().last().execution_process_id),
        s0.has_process(s1.sessions_v().last().execution_process_id),
        s1.tasks_v() == s0.tasks_v(),
        s1.attempts_v() == s0.attempts_v(),
        s1.processes_v() == s0.processes_v(),
    ensures
        s1.wf(),
{
    let s = s1.sessions_v().last();
    assert forall|i: int, j: int|
        0 <= i < j < s1.sessions_v().len() implies (
    #[trigger] s1.sessions_v()[i]).execution_process_id != (
    #[trigger] s1.sessions_v()[j]).execution_process_id by {
        if j == s0.sessions_v().len() && s1.sessions_v()[i].execution_process_id
            == s.execution_process_id {
            assert(has_key(
                s0.sessions_v(),
                |x: ExecutorSessionView| x.execution_process_id,
                s.execution_process_id,
            ));
        }
    }
}

} // verus!
