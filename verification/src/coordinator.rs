//! The attempt coordinator: the state machine over the store and the
//! supervisor's handle registry.
//!
//! Its invariant couples the two: a live handle always points at a `Running`
//! process (`handles_sound`), and in a fully supervised engine every
//! `Running` process has a live handle. The transitions — spawning, completing,
//! stopping one process or all of an attempt's, preempting dev servers,
//! forking follow-ups, merging, rebasing and approving plans — each say
//! exactly what they leave behind.

use vstd::prelude::*;

verus! {

use crate::Id;
use crate::model::{
    ExecutionProcess, ExecutionProcessView, ExecutionProcessStatus, ExecutionProcessType,
    EngineError, opt_view,
};
use crate::store::{
    Store, spec_update_completion, completed_view, lemma_process_row_found,
    lemma_process_find_push, lemma_process_find_update_other, find_idx, lemma_find_idx,
};
use crate::supervisor::Supervisor;

/// The coordinator's state: the durable store and the live handle registry.
pub struct Engine {
    pub store: Store,
    pub sup: Supervisor,
}

impl Engine {
    /// Every live handle points at a process that is still `Running`.
    pub open spec fn handles_sound(self) -> bool {
        forall|id: Id|
            #[trigger] self.sup.is_live(id) ==> match self.store.process_of(id) {
                Option::Some(p) => p.status == ExecutionProcessStatus::Running,
                Option::None => false,
            }
    }

    /// Every `Running` process has a live handle. Holds in steady state;
    /// re-established by [`Engine::reconcile_startup`] after a crash.
    pub open spec fn fully_supervised(self) -> bool {
        forall|i: int|
            0 <= i < self.store.processes_v().len() ==> ((
            #[trigger] self.store.processes_v()[i]).status == ExecutionProcessStatus::Running
                ==> self.sup.is_live(self.store.processes_v()[i].id))
    }

    /// Engine well-formedness.
    pub open spec fn wf(self) -> bool {
        &&& self.store.wf()
        &&& self.sup.wf()
        &&& self.handles_sound()
    }

    /// A fresh engine: empty store, no handles.
    pub fn new() -> (e: Engine)
        ensures
            e.wf(),
            e.fully_supervised(),
            e.store.tasks_v() == Seq::<crate::model::TaskView>::empty(),
            e.store.attempts_v() == Seq::<crate::model::TaskAttemptView>::empty(),
            e.store.processes_v() == Seq::<ExecutionProcessView>::empty(),
            e.store.sessions_v() == Seq::<crate::model::ExecutorSessionView>::empty(),
    {
        Engine { store: Store::new(), sup: Supervisor::new() }
    }

    /// Record a spawned child: a new `Running` process row plus its live
    /// kill handle.
    pub fn spawn_process(&mut self, p: ExecutionProcess) -> (r: Result<(), EngineError>)
        requires
            old(self).wf(),
            p@.status == ExecutionProcessStatus::Running,
            p@.exit_code is None,
            p@.ended_at is None,
        ensures
            final(self).wf(),
            old(self).fully_supervised() ==> final(self).fully_supervised(),
            match r {
                Result::Ok(()) => {
                    &&& old(self).store.has_attempt(p@.task_attempt_id)
                    &&& !old(self).store.has_process(p@.id)
                    &&& final(self).store.processes_v() == old(self).store.processes_v().push(p@)
                    &&& final(self).store.tasks_v() == old(self).store.tasks_v()
                    &&& final(self).store.attempts_v() == old(self).store.attempts_v()
                    &&& final(self).store.sessions_v() == old(self).store.sessions_v()
                    &&& final(self).sup.is_live(p@.id)
                    &&& forall|x: Id|
                        x != p@.id ==> final(self).sup.is_live(x) == old(self).sup.is_live(x)
                },
                Result::Err(EngineError::NotFound) => !old(self).store.has_attempt(
                    p@.task_attempt_id,
                ) && final(self).store.same_as(old(self).store) && final(self).sup == old(self).sup,
                Result::Err(EngineError::IdTaken) => old(self).store.has_attempt(
                    p@.task_attempt_id,
                ) && old(self).store.has_process(p@.id) && final(self).store.same_as(
                    old(self).store,
                ) && final(self).sup == old(self).sup,
                _ => false,
            },
    {
        let pid: Id = p.id;
        let ghost pv = p@;
        let ghost s0 = *self;
        match self.store.create_process(p) {
            Result::Ok(()) => {
                proof {
                    crate::store::lemma_find_idx(
                        s0.store.processes_v(),
                        |x: ExecutionProcessView| x.id == pid,
                    );
                    assert(!s0.sup.is_live(pid)) by {
                        if s0.sup.is_live(pid) {
                            assert(s0.store.process_of(pid) is Some);
                            assert(s0.store.has_process(pid)) by {
                                crate::store::lemma_has_key_intro(
                                    s0.store.processes_v(),
                                    |x: ExecutionProcessView| x.id,
                                    find_idx(
                                        s0.store.processes_v(),
                                        |x: ExecutionProcessView| x.id == pid,
                                    ),
                                );
                            }
                        }
                    }
                }
                self.sup.register(pid);
                proof {
                    assert forall|id: Id| #[trigger] self.sup.is_live(id) implies match self
                        .store.process_of(id) {
                        Option::Some(q) => q.status == ExecutionProcessStatus::Running,
                        Option::None => false,
                    } by {
                        lemma_process_find_push(s0.store.processes_v(), pv, id);
                        if id != pid {
                            assert(s0.sup.is_live(id));
                        }
                    }
                    if s0.fully_supervised() {
                        assert forall|i: int|
                            0 <= i < self.store.processes_v().len() implies ((
                        #[trigger] self.store.processes_v()[i]).status
                            == ExecutionProcessStatus::Running ==> self.sup.is_live(
                            self.store.processes_v()[i].id,
                        )) by {
                            if i < s0.store.processes_v().len() {
                                assert(self.store.processes_v()[i] == s0.store.processes_v()[i]);
                            }
                        }
                    }
                }
                Result::Ok(())
            },
            Result::Err(e) => Result::Err(e),
        }
    }

    /// Record a child's terminal status and surrender its handle. The single
    /// terminal transition of the process's lifecycle: on a process already
    /// terminal this is a no-op that reports the prior status.
    pub fn complete_process(
        &mut self,
        id: Id,
        status: ExecutionProcessStatus,
        exit_code: Option<i64>,
        now: &str,
    ) -> (r: Option<ExecutionProcessStatus>)
        requires
            old(self).wf(),
            crate::model::is_terminal(status),
        ensures
            final(self).wf(),
            old(self).fully_supervised() ==> final(self).fully_supervised(),
            final(self).store.processes_v() == spec_update_completion(
                old(self).store.processes_v(),
                id,
                status,
                exit_code,
                now@,
            ).0,
            r == spec_update_completion(
                old(self).store.processes_v(),
                id,
                status,
                exit_code,
                now@,
            ).1,
            final(self).store.tasks_v() == old(self).store.tasks_v(),
            final(self).store.attempts_v() == old(self).store.attempts_v(),
            final(self).store.sessions_v() == old(self).store.sessions_v(),
            !final(self).sup.is_live(id),
            forall|x: Id| x != id ==> final(self).sup.is_live(x) == old(self).sup.is_live(x),
    {
        let ghost s0 = *self;
        let _had_handle = self.sup.take(id);
        let r = self.store.update_completion(id, status, exit_code, now);
        proof {
            let ghost ps = s0.store.processes_v();
            let pred = |x: ExecutionProcessView| x.id == id;
            lemma_find_idx(ps, pred);
            let i = find_idx(ps, pred);
            assert forall|x: Id| #[trigger] self.sup.is_live(x) implies match self.store.process_of(
                x,
            ) {
                Option::Some(q) => q.status == ExecutionProcessStatus::Running,
                Option::None => false,
            } by {
                assert(s0.sup.is_live(x));
                if i < ps.len() && ps[i].status == ExecutionProcessStatus::Running {
                    assert(x != id);
                    lemma_process_find_update_other(
                        ps,
                        i,
                        completed_view(ps[i], status, exit_code, now@),
                        x,
                    );
                }
            }
            if s0.fully_supervised() {
                assert forall|j: int|
                    0 <= j < self.store.processes_v().len() implies ((
                #[trigger] self.store.processes_v()[j]).status == ExecutionProcessStatus::Running
                    ==> self.sup.is_live(self.store.processes_v()[j].id)) by {
                    if i < ps.len() && ps[i].status == ExecutionProcessStatus::Running {
                        if j != i {
                            assert(self.store.processes_v()[j] == ps[j]);
                            if ps[j].status == ExecutionProcessStatus::Running {
                                assert(s0.sup.is_live(ps[j].id));
                                assert(ps[j].id != id) by {
                                    if ps[j].id == id {
                                        assert(pred(ps[j]));
                                    }
                                }
                            }
                        }
                    } else {
                        assert(self.store.processes_v()[j] == ps[j]);
                        if ps[j].status == ExecutionProcessStatus::Running {
                            assert(s0.sup.is_live(ps[j].id));
                            assert(ps[j].id != id) by {
                                if ps[j].id == id {
                                    assert(pred(ps[j]));
                                    assert(i <= j);
                                    assert(ps[i].status == ExecutionProcessStatus::Running
                                        || i < j) by {
                                        if i == j {
                                        }
                                    }
                                    if i < ps.len() {
                                        assert(s0.sup.is_live(id) ==> s0.store.process_of(id)
                                            is Some);
                                    }
                                    assert(s0.sup.is_live(id));
                                    assert(match s0.store.process_of(id) {
                                        Option::Some(q) => q.status
                                            == ExecutionProcessStatus::Running,
                                        Option::None => false,
                                    });
                                    assert(s0.store.process_of(id) == Option::Some(ps[i]));
                                    assert(false);
                                }
                            }
                        }
                    }
                }
            }
        }
        r
    }

    /// Stop one process by identifier: take its handle and, if one was live,
    /// mark the process `Killed`. Reports whether a live handle was found;
    /// stopping a process that is not running is a no-op.
    pub fn stop_execution_by_id(&mut self, id: Id, now: &str) -> (stopped: bool)
        requires
            old(self).wf(),
        ensures
            final(self).wf(),
            old(self).fully_supervised() ==> final(self).fully_supervised(),
            stopped == old(self).sup.is_live(id),
            final(self).store.tasks_v() == old(self).store.tasks_v(),
            final(self).store.attempts_v() == old(self).store.attempts_v(),
            final(self).store.sessions_v() == old(self).store.sessions_v(),
            !final(self).sup.is_live(id),
            forall|x: Id| x != id ==> final(self).sup.is_live(x) == old(self).sup.is_live(x),
            if stopped {
                final(self).store.processes_v() == spec_update_completion(
                    old(self).store.processes_v(),
                    id,
                    ExecutionProcessStatus::Killed,
                    Option::None,
                    now@,
                ).0
            } else {
                final(self).store.processes_v() == old(self).store.processes_v()
            },
    {
        let ghost s0 = *self;
        if self.contains_handle(id) {
            let _ = self.complete_process(id, ExecutionProcessStatus::Killed, Option::None, now);
            true
        } else {
            false
        }
    }

    /// Is a handle live for `id`?
    pub fn contains_handle(&self, id: Id) -> (r: bool)
        ensures
            r == self.sup.is_live(id),
    {
        self.sup.contains(id)
    }

    /// Stop every running process of an attempt and report how many were
    /// stopped. Stopping a process that is not running is a no-op; in a
    /// fully supervised engine every previously `Running` process of the
    /// attempt is `Killed` afterwards.
    pub fn stop_all_execution_processes(
        &mut self,
        project_id: Id,
        task_id: Id,
        attempt_id: Id,
        now: &str,
    ) -> (r: Result<usize, EngineError>)
        requires
            old(self).wf(),
            old(self).fully_supervised(),
        ensures
            final(self).wf(),
            final(self).fully_supervised(),
            final(self).store.tasks_v() == old(self).store.tasks_v(),
            final(self).store.attempts_v() == old(self).store.attempts_v(),
            final(self).store.sessions_v() == old(self).store.sessions_v(),
            match r {
                Result::Ok(count) => {
                    &&& old(self).store.triple_ok(project_id, task_id, attempt_id)
                    &&& final(self).store.processes_v().len() == old(self).store.processes_v().len()
                    &&& forall|i: int|
                        0 <= i < old(self).store.processes_v().len() ==> final(self).store.processes_v()[i] == stopped_row(
                            old(self).store.processes_v()[i],
                            attempt_id,
                            now@,
                        )
                    &&& count == old(self).store.processes_v().filter(
                        |p: ExecutionProcessView| p.task_attempt_id == attempt_id && p.status
                            == ExecutionProcessStatus::Running,
                    ).len()
                },
                Result::Err(EngineError::NotFound) => !old(self).store.triple_ok(
                    project_id,
                    task_id,
                    attempt_id,
                ) && final(self).store.same_as(old(self).store) && final(self).sup == old(self).sup,
                _ => false,
            },
    {
        if !self.store.exists_for_task(attempt_id, task_id, project_id) {
            return Result::Err(EngineError::NotFound);
        }
        let ghost s0 = *self;
        let ghost ops = s0.store.processes_v();
        let n: usize = self.store.processes.len();
        let mut count: usize = 0;
        let mut i: usize = 0;
        proof {
            assert(ops.take(0) =~= Seq::<ExecutionProcessView>::empty());
            reveal(Seq::filter);
        }
        while i < n
            invariant
                s0 == *old(self),
                s0.wf(),
                s0.fully_supervised(),
                ops == s0.store.processes_v(),
                n == self.store.processes.len(),
                n == ops.len(),
                0 <= i <= n,
                count <= i,
                self.store.wf(),
                self.sup.wf(),
                self.handles_sound(),
                self.fully_supervised(),
                self.store.tasks_v() == s0.store.tasks_v(),
                self.store.attempts_v() == s0.store.attempts_v(),
                self.store.sessions_v() == s0.store.sessions_v(),
                forall|j: int| i <= j < n ==> self.store.processes_v()[j] == ops[j],
                forall|j: int|
                    0 <= j < i ==> self.store.processes_v()[j] == stopped_row(
                        ops[j],
                        attempt_id,
                        now@,
                    ),
                count == ops.take(i as int).filter(
                    |p: ExecutionProcessView| p.task_attempt_id == attempt_id && p.status
                        == ExecutionProcessStatus::Running,
                ).len(),
            decreases n - i,
        {
            proof {
                assert(ops.take(i + 1) =~= ops.take(i as int).push(ops[i as int]));
                crate::store::lemma_filter_push(
                    ops.take(i as int),
                    |p: ExecutionProcessView| p.task_attempt_id == attempt_id && p.status
                        == ExecutionProcessStatus::Running,
                    ops[i as int],
                );
            }
            let pid: Id = self.store.processes[i].id;
            let tid: Id = self.store.processes[i].task_attempt_id;
            proof {
                assert(self.store.processes_v()[i as int] == ops[i as int]);
                assert(pid == ops[i as int].id);
            }
            if tid == attempt_id {
                let ghost cur = self.store.processes_v();
                proof {
                    lemma_process_row_found(cur, i as int, pid);
                }
                let stopped = self.stop_execution_by_id(pid, now);
                proof {
                    if stopped {
                        assert(cur[i as int].status == ExecutionProcessStatus::Running);
                        assert(self.store.processes_v() =~= cur.update(
                            i as int,
                            completed_view(
                                cur[i as int],
                                ExecutionProcessStatus::Killed,
                                Option::None,
                                now@,
                            ),
                        ));
                    } else {
                        if ops[i as int].status == ExecutionProcessStatus::Running {
                            assert(false);
                        }
                    }
                }
                if stopped {
                    count = count + 1;
                }
            }
            i = i + 1;
        }
        proof {
            assert(ops.take(n as int) =~= ops);
        }
        Result::Ok(count)
    }

    /// Stop one named process of an attempt. `Ok(stopped)` reports whether a
    /// live handle was found; a process that was not running is a no-op
    /// success, as the caller's message says.
    pub fn stop_execution_process(
        &mut self,
        project_id: Id,
        task_id: Id,
        attempt_id: Id,
        process_id: Id,
        now: &str,
    ) -> (r: Result<bool, EngineError>)
        requires
            old(self).wf(),
        ensures
            final(self).wf(),
            old(self).fully_supervised() ==> final(self).fully_supervised(),
            final(self).store.tasks_v() == old(self).store.tasks_v(),
            final(self).store.attempts_v() == old(self).store.attempts_v(),
            final(self).store.sessions_v() == old(self).store.sessions_v(),
            match r {
                Result::Ok(stopped) => {
                    &&& old(self).store.triple_ok(project_id, task_id, attempt_id)
                    &&& match old(self).store.process_of(process_id) {
                        Option::Some(p) => p.task_attempt_id == attempt_id,
                        Option::None => false,
                    }
                    &&& stopped == old(self).sup.is_live(process_id)
                    &&& if stopped {
                        final(self).store.processes_v() == spec_update_completion(
                            old(self).store.processes_v(),
                            process_id,
                            ExecutionProcessStatus::Killed,
                            Option::None,
                            now@,
                        ).0
                    } else {
                        final(self).store.processes_v() == old(self).store.processes_v()
                    }
                },
                Result::Err(EngineError::NotFound) => (!old(self).store.triple_ok(
                    project_id,
                    task_id,
                    attempt_id,
                ) || match old(self).store.process_of(process_id) {
                    Option::Some(p) => p.task_attempt_id != attempt_id,
                    Option::None => true,
                }) && final(self).store.same_as(old(self).store) && final(self).sup == old(self).sup,
                _ => false,
            },
    {
        if !self.store.exists_for_task(attempt_id, task_id, project_id) {
            return Result::Err(EngineError::NotFound);
        }
        let belongs = match self.store.find_process(process_id) {
            Option::Some(p) => p.task_attempt_id == attempt_id,
            Option::None => false,
        };
        if !belongs {
            return Result::Err(EngineError::NotFound);
        }
        let stopped = self.stop_execution_by_id(process_id, now);
        Result::Ok(stopped)
    }
}

/// What `stop_all` leaves of one process row: a running process of the
/// attempt is killed, everything else is untouched.
pub open spec fn stopped_row(
    p: ExecutionProcessView,
    attempt_id: Id,
    now: Seq<char>,
) -> ExecutionProcessView {
    if p.task_attempt_id == attempt_id && p.status == ExecutionProcessStatus::Running {
        completed_view(p, ExecutionProcessStatus::Killed, Option::None, now)
    } else {
        p
    }
}

/// The attempt a follow-up forks when the original worktree is gone: same
/// task, executor and base branch, named from the fresh identifier, with the
/// original attempt as parent.
pub open spec fn followup_fork_view(
    orig: crate::model::TaskAttemptView,
    fresh_attempt_id: Id,
    root: Seq<char>,
    now: Seq<char>,
) -> crate::model::TaskAttemptView {
    crate::model::TaskAttemptView {
        id: fresh_attempt_id,
        task_id: orig.task_id,
        executor: orig.executor,
        base_branch: orig.base_branch,
        branch_name: "attempt-"@ + crate::text::spec_dec(fresh_attempt_id as int),
        worktree_path: root + "/"@ + crate::text::spec_dec(fresh_attempt_id as int),
        merge_commit: Option::None,
        parent_attempt_id: Option::Some(orig.id),
        created_at: now,
    }
}

/// The process row a follow-up records: a running `Followup` under the
/// attempt that actually runs, in that attempt's worktree.
pub open spec fn followup_process_view(
    orig: crate::model::TaskAttemptView,
    actual_attempt_id: Id,
    fresh_process_id: Id,
    command: Seq<char>,
    worktree_ok: bool,
    root: Seq<char>,
    now: Seq<char>,
) -> ExecutionProcessView {
    ExecutionProcessView {
        id: fresh_process_id,
        task_attempt_id: actual_attempt_id,
        process_type: ExecutionProcessType::Followup,
        executor_type: orig.executor,
        command,
        working_directory: if worktree_ok {
            orig.worktree_path
        } else {
            root + "/"@ + crate::text::spec_dec(actual_attempt_id as int)
        },
        status: ExecutionProcessStatus::Running,
        exit_code: Option::None,
        stdout: Option::None,
        stderr: Option::None,
        started_at: now,
        ended_at: Option::None,
    }
}

/// The child task plan approval creates: the plan as description, the
/// approving attempt as parent, the title prefixed onto the original's.
pub open spec fn approved_task_view(
    orig: crate::model::TaskView,
    new_task_id: Id,
    project_id: Id,
    attempt_id: Id,
    plan: Seq<char>,
) -> crate::model::TaskView {
    crate::model::TaskView {
        id: new_task_id,
        project_id,
        title: "Execute Plan: "@ + orig.title,
        description: Option::Some(plan),
        status: crate::model::TaskStatus::Todo,
        parent_task_attempt: Option::Some(attempt_id),
    }
}

/// What startup reconciliation leaves of one process row: a `Running` row
/// with no live handle — a child the previous supervisor lost — is marked
/// `Failed` with a synthetic note in its stderr; everything else is
/// untouched.
pub open spec fn reconciled_row(
    was_live: bool,
    p: ExecutionProcessView,
    now: Seq<char>,
) -> ExecutionProcessView {
    if p.status == ExecutionProcessStatus::Running && !was_live {
        completed_view(
            crate::store::stderr_appended(p, "supervisor restart"@),
            ExecutionProcessStatus::Failed,
            Option::None,
            now,
        )
    } else {
        p
    }
}

impl Engine {
    /// Reconcile after a restart: any row still `Running` whose handle did
    /// not survive is a child the previous supervisor lost — it is marked
    /// `Failed` with a synthetic note in its stderr. Afterwards the engine
    /// is fully supervised again.
    pub fn reconcile_startup(&mut self, now: &str)
        requires
            old(self).wf(),
        ensures
            final(self).wf(),
            final(self).fully_supervised(),
            final(self).sup == old(self).sup,
            final(self).store.tasks_v() == old(self).store.tasks_v(),
            final(self).store.attempts_v() == old(self).store.attempts_v(),
            final(self).store.sessions_v() == old(self).store.sessions_v(),
            final(self).store.processes_v().len() == old(self).store.processes_v().len(),
            forall|i: int|
                0 <= i < old(self).store.processes_v().len() ==> final(self).store.processes_v()[i] == reconciled_row(
                    old(self).sup.is_live(old(self).store.processes_v()[i].id),
                    old(self).store.processes_v()[i],
                    now@,
                ),
    {
        let ghost s0 = *self;
        let ghost ops = s0.store.processes_v();
        let n: usize = self.store.processes.len();
        let mut i: usize = 0;
        while i < n
            invariant
                s0 == *old(self),
                s0.wf(),
                ops == s0.store.processes_v(),
                n == self.store.processes.len(),
                n == ops.len(),
                0 <= i <= n,
                self.store.wf(),
                self.sup == s0.sup,
                self.handles_sound(),
                self.store.tasks_v() == s0.store.tasks_v(),
                self.store.attempts_v() == s0.store.attempts_v(),
                self.store.sessions_v() == s0.store.sessions_v(),
                forall|j: int| i <= j < n ==> self.store.processes_v()[j] == ops[j],
                forall|j: int|
                    0 <= j < i ==> self.store.processes_v()[j] == reconciled_row(
                        s0.sup.is_live(ops[j].id),
                        ops[j],
                        now@,
                    ),
            decreases n - i,
        {
            let running = match self.store.processes[i].status {
                ExecutionProcessStatus::Running => true,
                _ => false,
            };
            let pid: Id = self.store.processes[i].id;
            proof {
                assert(self.store.processes_v()[i as int] == ops[i as int]);
            }
            if running && !self.sup.contains(pid) {
                let ghost cur = self.store.processes_v();
                proof {
                    lemma_process_row_found(cur, i as int, pid);
                }
                let ok1 = self.store.append_stderr_chunk(pid, "supervisor restart");
                let ghost mid = self.store.processes_v();
                proof {
                    assert(ok1);
                    assert(mid[i as int] == crate::store::stderr_appended(cur[i as int], "supervisor restart"@));
                    lemma_process_row_found(mid, i as int, pid);
                }
                let r2 = self.store.update_completion(
                    pid,
                    ExecutionProcessStatus::Failed,
                    Option::None,
                    now,
                );
                proof {
                    assert(self.store.processes_v() =~= cur.update(
                        i as int,
                        reconciled_row(false, cur[i as int], now@),
                    ));
                    assert forall|x: Id| #[trigger] self.sup.is_live(x) implies match self
                        .store.process_of(x) {
                        Option::Some(q) => q.status == ExecutionProcessStatus::Running,
                        Option::None => false,
                    } by {
                        assert(x != pid);
                        lemma_process_find_update_other(
                            cur,
                            i as int,
                            reconciled_row(false, cur[i as int], now@),
                            x,
                        );
                    }
                }
            }
            i = i + 1;
        }
        proof {
            assert forall|j: int|
                0 <= j < self.store.processes_v().len() implies ((
            #[trigger] self.store.processes_v()[j]).status == ExecutionProcessStatus::Running
                ==> self.sup.is_live(self.store.processes_v()[j].id)) by {
                let rr = reconciled_row(s0.sup.is_live(ops[j].id), ops[j], now@);
                if rr.status == ExecutionProcessStatus::Running {
                    assert(ops[j].status == ExecutionProcessStatus::Running);
                    assert(s0.sup.is_live(ops[j].id));
                }
            }
        }
    }
}

/// What dev-server preemption leaves of one process row, judged against the
/// store as it stood before: a running dev server of the project is killed,
/// everything else is untouched.
pub open spec fn preempted_row(
    s0: Store,
    p: ExecutionProcessView,
    project_id: Id,
    now: Seq<char>,
) -> ExecutionProcessView {
    if s0.is_running_dev_server(p, project_id) {
        completed_view(p, ExecutionProcessStatus::Killed, Option::None, now)
    } else {
        p
    }
}

/// Which project an attempt belongs to depends only on the attempt and task
/// tables.
pub proof fn lemma_attempt_project_stable(s0: Store, s1: Store, attempt_id: Id)
    requires
        s1.attempts_v() == s0.attempts_v(),
        s1.tasks_v() == s0.tasks_v(),
    ensures
        s1.attempt_project(attempt_id) == s0.attempt_project(attempt_id),
{
}

/// A change that leaves the process table and the handle registry alone
/// preserves the handle invariants.
proof fn lemma_engine_procs_stable(e0: Engine, e1: Engine)
    requires
        e1.store.processes_v() == e0.store.processes_v(),
        e1.sup == e0.sup,
    ensures
        e0.handles_sound() ==> e1.handles_sound(),
        e0.fully_supervised() ==> e1.fully_supervised(),
{
    if e0.handles_sound() {
        assert forall|id: Id| #[trigger] e1.sup.is_live(id) implies match e1.store.process_of(id) {
            Option::Some(p) => p.status == ExecutionProcessStatus::Running,
            Option::None => false,
        } by {
            assert(e0.sup.is_live(id));
        }
    }
    if e0.fully_supervised() {
        assert forall|i: int|
            0 <= i < e1.store.processes_v().len() implies ((
        #[trigger] e1.store.processes_v()[i]).status == ExecutionProcessStatus::Running
            ==> e1.sup.is_live(e1.store.processes_v()[i].id)) by {
            assert(e1.store.processes_v()[i] == e0.store.processes_v()[i]);
        }
    }
}

impl Engine {
    /// Start a project's dev server in an attempt's worktree. The dev-server
    /// slot is a project-wide singleton: every dev server already running for
    /// the project is stopped first, then the new process is recorded
    /// `Running` with a live handle. On success, at most one running dev
    /// server exists for the project — the new one.
    pub fn start_dev_server(
        &mut self,
        project_id: Id,
        task_id: Id,
        attempt_id: Id,
        process_id: Id,
        command: String,
        now: &str,
    ) -> (r: Result<(), EngineError>)
        requires
            old(self).wf(),
            old(self).fully_supervised(),
        ensures
            final(self).wf(),
            final(self).fully_supervised(),
            final(self).store.tasks_v() == old(self).store.tasks_v(),
            final(self).store.attempts_v() == old(self).store.attempts_v(),
            final(self).store.sessions_v() == old(self).store.sessions_v(),
            match r {
                Result::Ok(()) => {
                    &&& old(self).store.triple_ok(project_id, task_id, attempt_id)
                    &&& !old(self).store.has_process(process_id)
                    &&& final(self).store.processes_v().len() == old(self).store.processes_v().len() + 1
                    &&& forall|i: int|
                        0 <= i < old(self).store.processes_v().len() ==> final(self).store.processes_v()[i] == preempted_row(
                            old(self).store,
                            old(self).store.processes_v()[i],
                            project_id,
                            now@,
                        )
                    &&& final(self).store.processes_v().last() == (ExecutionProcessView {
                        id: process_id,
                        task_attempt_id: attempt_id,
                        process_type: ExecutionProcessType::DevServer,
                        executor_type: Option::None,
                        command: command@,
                        working_directory: old(self).store.attempt_of(
                            attempt_id,
                        )->Some_0.worktree_path,
                        status: ExecutionProcessStatus::Running,
                        exit_code: Option::None,
                        stdout: Option::None,
                        stderr: Option::None,
                        started_at: now@,
                        ended_at: Option::None,
                    })
                    &&& forall|i: int, j: int|
                        0 <= i < j < final(self).store.processes_v().len() ==> !(final(self).store.is_running_dev_server(
                            final(self).store.processes_v()[i],
                            project_id,
                        ) && final(self).store.is_running_dev_server(
                            final(self).store.processes_v()[j],
                            project_id,
                        ))
                },
                Result::Err(EngineError::NotFound) => !old(self).store.triple_ok(
                    project_id,
                    task_id,
                    attempt_id,
                ) && final(self).store.same_as(old(self).store) && final(self).sup == old(self).sup,
                Result::Err(EngineError::IdTaken) => old(self).store.triple_ok(
                    project_id,
                    task_id,
                    attempt_id,
                ) && old(self).store.has_process(process_id) && final(self).store.same_as(
                    old(self).store,
                ) && final(self).sup == old(self).sup,
                _ => false,
            },
    {
        if !self.store.exists_for_task(attempt_id, task_id, project_id) {
            return Result::Err(EngineError::NotFound);
        }
        let id_taken = match self.store.find_process(process_id) {
            Option::Some(_) => true,
            Option::None => false,
        };
        if id_taken {
            proof {
                lemma_find_idx(
                    self.store.processes_v(),
                    |x: ExecutionProcessView| x.id == process_id,
                );
                crate::store::lemma_has_key_intro(
                    self.store.processes_v(),
                    |x: ExecutionProcessView| x.id,
                    self.store.process_idx(process_id),
                );
            }
            return Result::Err(EngineError::IdTaken);
        }
        proof {
            lemma_find_idx(self.store.processes_v(), |x: ExecutionProcessView| x.id == process_id);
            if self.store.has_process(process_id) {
                let w = crate::store::lemma_has_key_witness(
                    self.store.processes_v(),
                    |x: ExecutionProcessView| x.id,
                    process_id,
                );
                crate::store::lemma_process_row_found(self.store.processes_v(), w, process_id);
            }
        }
        let ghost s0 = *self;
        let ghost ops = s0.store.processes_v();
        let n: usize = self.store.processes.len();
        let mut i: usize = 0;
        while i < n
            invariant
                s0 == *old(self),
                s0.wf(),
                s0.fully_supervised(),
                ops == s0.store.processes_v(),
                n == self.store.processes.len(),
                n == ops.len(),
                0 <= i <= n,
                self.store.wf(),
                self.sup.wf(),
                self.handles_sound(),
                self.fully_supervised(),
                self.store.tasks_v() == s0.store.tasks_v(),
                self.store.attempts_v() == s0.store.attempts_v(),
                self.store.sessions_v() == s0.store.sessions_v(),
                forall|j: int| i <= j < n ==> self.store.processes_v()[j] == ops[j],
                forall|j: int|
                    0 <= j < i ==> self.store.processes_v()[j] == preempted_row(
                        s0.store,
                        ops[j],
                        project_id,
                        now@,
                    ),
            decreases n - i,
        {
            let p_type_dev = match self.store.processes[i].process_type {
                ExecutionProcessType::DevServer => true,
                _ => false,
            };
            let p_running = match self.store.processes[i].status {
                ExecutionProcessStatus::Running => true,
                _ => false,
            };
            let pid: Id = self.store.processes[i].id;
            let tid: Id = self.store.processes[i].task_attempt_id;
            proof {
                assert(self.store.processes_v()[i as int] == ops[i as int]);
            }
            let in_project = if p_type_dev && p_running {
                match self.store.find_attempt(tid) {
                    Option::Some(a) => match self.store.find_task(a.task_id) {
                        Option::Some(t) => t.project_id == project_id,
                        Option::None => false,
                    },
                    Option::None => false,
                }
            } else {
                false
            };
            proof {
                lemma_attempt_project_stable(s0.store, self.store, tid);
                assert((p_type_dev && p_running && in_project) == s0.store.is_running_dev_server(
                    ops[i as int],
                    project_id,
                ));
            }
            if p_type_dev && p_running && in_project {
                let ghost cur = self.store.processes_v();
                proof {
                    lemma_process_row_found(cur, i as int, pid);
                }
                let stopped = self.stop_execution_by_id(pid, now);
                proof {
                    assert(stopped);
                    assert(self.store.processes_v() =~= cur.update(
                        i as int,
                        completed_view(
                            cur[i as int],
                            ExecutionProcessStatus::Killed,
                            Option::None,
                            now@,
                        ),
                    ));
                }
            }
            i = i + 1;
        }
        let wd = match self.store.find_attempt(attempt_id) {
            Option::Some(a) => a.worktree_path.clone(),
            Option::None => String::new(),
        };
        let fresh = ExecutionProcess {
            id: process_id,
            task_attempt_id: attempt_id,
            process_type: ExecutionProcessType::DevServer,
            executor_type: Option::None,
            command,
            working_directory: wd,
            status: ExecutionProcessStatus::Running,
            exit_code: Option::None,
            stdout: Option::None,
            stderr: Option::None,
            started_at: String::from_str(now),
            ended_at: Option::None,
        };
        let ghost fv = fresh@;
        let ghost s1 = *self;
        let r = self.spawn_process(fresh);
        proof {
            assert(s1.store.has_attempt(fv.task_attempt_id)) by {
                lemma_find_idx(
                    s0.store.attempts_v(),
                    |a: crate::model::TaskAttemptView| a.id == attempt_id,
                );
                crate::store::lemma_has_key_intro(
                    s1.store.attempts_v(),
                    |a: crate::model::TaskAttemptView| a.id,
                    find_idx(
                        s0.store.attempts_v(),
                        |a: crate::model::TaskAttemptView| a.id == attempt_id,
                    ),
                );
            }
            assert(!s1.store.has_process(process_id)) by {
                if s1.store.has_process(process_id) {
                    let w = crate::store::lemma_has_key_witness(
                        s1.store.processes_v(),
                        |x: ExecutionProcessView| x.id,
                        process_id,
                    );
                    assert(s1.store.processes_v()[w].id == ops[w].id);
                    crate::store::lemma_has_key_intro(
                        ops,
                        |x: ExecutionProcessView| x.id,
                        w,
                    );
                }
            }
            assert(r is Ok);
            let fin = self.store.processes_v();
            assert(fin =~= s1.store.processes_v().push(fv));
            assert forall|a: int, b: int|
                0 <= a < b < fin.len() implies !(self.store.is_running_dev_server(
                fin[a],
                project_id,
            ) && self.store.is_running_dev_server(fin[b], project_id)) by {
                if a < fin.len() - 1 {
                    lemma_attempt_project_stable(s0.store, self.store, fin[a].task_attempt_id);
                    if self.store.is_running_dev_server(fin[a], project_id) {
                        assert(fin[a] == preempted_row(s0.store, ops[a], project_id, now@));
                        assert(s0.store.is_running_dev_server(ops[a], project_id) ==> fin[a].status
                            == ExecutionProcessStatus::Killed);
                        assert(!s0.store.is_running_dev_server(ops[a], project_id));
                        assert(false);
                    }
                }
            }
        }
        Result::Ok(())
    }
}

impl Engine {
    /// Create a new attempt row for a task. Branch and worktree are named
    /// deterministically from the attempt identifier, the worktree living at
    /// `{root}/{attempt id}`; the base branch defaults to `main`.
    pub fn create_task_attempt(
        &mut self,
        project_id: Id,
        task_id: Id,
        payload: &crate::model::CreateTaskAttempt,
        new_id: Id,
        root: &str,
        now: &str,
    ) -> (r: Result<crate::model::TaskAttempt, EngineError>)
        requires
            old(self).wf(),
        ensures
            final(self).wf(),
            old(self).fully_supervised() ==> final(self).fully_supervised(),
            final(self).sup == old(self).sup,
            final(self).store.tasks_v() == old(self).store.tasks_v(),
            final(self).store.processes_v() == old(self).store.processes_v(),
            final(self).store.sessions_v() == old(self).store.sessions_v(),
            match r {
                Result::Ok(a) => {
                    &&& old(self).store.task_in_project(task_id, project_id)
                    &&& !old(self).store.has_attempt(new_id)
                    &&& a@ == (crate::model::TaskAttemptView {
                        id: new_id,
                        task_id,
                        executor: opt_view(payload.executor),
                        base_branch: match payload.base_branch {
                            Option::Some(b) => b@,
                            Option::None => "main"@,
                        },
                        branch_name: "attempt-"@ + crate::text::spec_dec(new_id as int),
                        worktree_path: root@ + "/"@ + crate::text::spec_dec(new_id as int),
                        merge_commit: Option::None,
                        parent_attempt_id: Option::None,
                        created_at: now@,
                    })
                    &&& final(self).store.attempts_v() == old(self).store.attempts_v().push(a@)
                },
                Result::Err(EngineError::NotFound) => !old(self).store.task_in_project(
                    task_id,
                    project_id,
                ) && final(self).store.attempts_v() == old(self).store.attempts_v(),
                Result::Err(EngineError::IdTaken) => old(self).store.task_in_project(
                    task_id,
                    project_id,
                ) && old(self).store.has_attempt(new_id) && final(self).store.attempts_v() == old(self).store.attempts_v(),
                Result::Err(EngineError::WorktreeInUse) => old(self).store.task_in_project(
                    task_id,
                    project_id,
                ) && !old(self).store.has_attempt(new_id) && old(self).store.has_worktree(
                    root@ + "/"@ + crate::text::spec_dec(new_id as int),
                ) && final(self).store.attempts_v() == old(self).store.attempts_v(),
                _ => false,
            },
    {
        let ghost s0 = *self;
        if !self.store.task_exists(task_id, project_id) {
            return Result::Err(EngineError::NotFound);
        }
        let dec = crate::text::dec_u128(new_id);
        let branch = String::from_str("attempt-").concat(dec.as_str());
        let path = String::from_str(root).concat("/").concat(dec.as_str());
        proof {
            assert(path@ =~= root@ + "/"@ + crate::text::spec_dec(new_id as int));
        }
        let base = match &payload.base_branch {
            Option::Some(b) => b.clone(),
            Option::None => String::from_str("main"),
        };
        let a = crate::model::TaskAttempt {
            id: new_id,
            task_id,
            executor: crate::model::clone_opt_string(&payload.executor),
            base_branch: base,
            branch_name: branch,
            worktree_path: path,
            merge_commit: Option::None,
            parent_attempt_id: Option::None,
            created_at: String::from_str(now),
        };
        let ghost av = a@;
        match self.store.create_attempt(a) {
            Result::Ok(()) => {
                proof {
                    lemma_engine_procs_stable(s0, *self);
                    crate::store::lemma_task_found_iff_has(s0.store, task_id);
                    assert(self.store.attempts@.len() == self.store.attempts_v().len());
                    assert(self.store.attempts_v().len() == s0.store.attempts_v().len() + 1);
                    assert(av =~= (crate::model::TaskAttemptView {
                        id: new_id,
                        task_id,
                        executor: opt_view(payload.executor),
                        base_branch: match payload.base_branch {
                            Option::Some(b) => b@,
                            Option::None => "main"@,
                        },
                        branch_name: "attempt-"@ + crate::text::spec_dec(new_id as int),
                        worktree_path: root@ + "/"@ + crate::text::spec_dec(new_id as int),
                        merge_commit: Option::None,
                        parent_attempt_id: Option::None,
                        created_at: now@,
                    }));
                }
                let idx = self.store.attempts.len() - 1;
                let out = self.store.attempts[idx].duplicate();
                proof {
                    assert(self.store.attempts_v()[idx as int] == av);
                }
                Result::Ok(out)
            },
            Result::Err(e) => {
                proof {
                    lemma_engine_procs_stable(s0, *self);
                    crate::store::lemma_task_found_iff_has(s0.store, task_id);
                }
                Result::Err(e)
            },
        }
    }

    /// Merge an attempt's branch into its base, given the worktree manager's
    /// outcome: on success record the merge commit and mark the task done;
    /// on failure the store is untouched and the caller gets the message in
    /// a `success: false` envelope.
    pub fn merge_task_attempt(
        &mut self,
        project_id: Id,
        task_id: Id,
        attempt_id: Id,
        outcome: crate::git::MergeOutcome,
    ) -> (r: Result<crate::model::OpOutcome, EngineError>)
        requires
            old(self).wf(),
        ensures
            final(self).wf(),
            old(self).fully_supervised() ==> final(self).fully_supervised(),
            final(self).sup == old(self).sup,
            final(self).store.processes_v() == old(self).store.processes_v(),
            final(self).store.sessions_v() == old(self).store.sessions_v(),
            match r {
                Result::Ok(out) => old(self).store.triple_ok(project_id, task_id, attempt_id)
                    && match outcome {
                    crate::git::MergeOutcome::Merged { merge_commit } => {
                        &&& out.success
                        &&& out.message@ == "Changes merged successfully"@
                        &&& final(self).store.attempts_v() == old(self).store.attempts_v().update(
                            old(self).store.attempt_idx(attempt_id),
                            crate::store::attempt_with_merge(
                                old(self).store.attempt_of(attempt_id)->Some_0,
                                merge_commit@,
                            ),
                        )
                        &&& final(self).store.tasks_v() == old(self).store.tasks_v().update(
                            old(self).store.task_idx(task_id),
                            crate::store::task_with_status(
                                old(self).store.task_of(task_id)->Some_0,
                                crate::model::TaskStatus::Done,
                            ),
                        )
                    },
                    crate::git::MergeOutcome::Failed { message } => {
                        &&& !out.success
                        &&& out.message@ == "Failed to merge: "@ + message@
                        &&& final(self).store.same_as(old(self).store)
                    },
                },
                Result::Err(EngineError::NotFound) => !old(self).store.triple_ok(
                    project_id,
                    task_id,
                    attempt_id,
                ) && final(self).store.same_as(old(self).store),
                _ => false,
            },
    {
        let ghost s0 = *self;
        if !self.store.exists_for_task(attempt_id, task_id, project_id) {
            return Result::Err(EngineError::NotFound);
        }
        match outcome {
            crate::git::MergeOutcome::Merged { merge_commit } => {
                proof {
                    crate::store::lemma_attempt_found_iff_has(s0.store, attempt_id);
                }
                let ok1 = self.store.record_merge(attempt_id, merge_commit.as_str());
                proof {
                    assert(ok1);
                }
                let ok2 = self.store.update_task_status(
                    task_id,
                    project_id,
                    crate::model::TaskStatus::Done,
                );
                proof {
                    assert(ok2);
                    lemma_engine_procs_stable(s0, *self);
                }
                Result::Ok(
                    crate::model::OpOutcome {
                        success: true,
                        message: String::from_str("Changes merged successfully"),
                    },
                )
            },
            crate::git::MergeOutcome::Failed { message } => {
                let msg = String::from_str("Failed to merge: ").concat(message.as_str());
                Result::Ok(crate::model::OpOutcome { success: false, message: msg })
            },
        }
    }

    /// Rebase an attempt's branch, given the worktree manager's outcome: on
    /// success adopt the new base branch if one was requested; on conflict
    /// nothing moved and the caller gets the message in a `success: false`
    /// envelope.
    pub fn rebase_task_attempt(
        &mut self,
        project_id: Id,
        task_id: Id,
        attempt_id: Id,
        new_base_branch: Option<String>,
        outcome: crate::git::RebaseOutcome,
    ) -> (r: Result<crate::model::OpOutcome, EngineError>)
        requires
            old(self).wf(),
        ensures
            final(self).wf(),
            old(self).fully_supervised() ==> final(self).fully_supervised(),
            final(self).sup == old(self).sup,
            final(self).store.tasks_v() == old(self).store.tasks_v(),
            final(self).store.processes_v() == old(self).store.processes_v(),
            final(self).store.sessions_v() == old(self).store.sessions_v(),
            match r {
                Result::Ok(out) => old(self).store.triple_ok(project_id, task_id, attempt_id)
                    && match outcome {
                    crate::git::RebaseOutcome::Rebased => {
                        &&& out.success
                        &&& out.message@ == "Branch rebased successfully"@
                        &&& match new_base_branch {
                            Option::Some(b) => final(self).store.attempts_v() == old(self).store.attempts_v().update(
                                old(self).store.attempt_idx(attempt_id),
                                crate::store::attempt_with_base(
                                    old(self).store.attempt_of(attempt_id)->Some_0,
                                    b@,
                                ),
                            ),
                            Option::None => final(self).store.attempts_v() == old(self).store.attempts_v(),
                        }
                    },
                    crate::git::RebaseOutcome::Conflict { message } => {
                        &&& !out.success
                        &&& out.message@ == message@
                        &&& final(self).store.attempts_v() == old(self).store.attempts_v()
                    },
                },
                Result::Err(EngineError::NotFound) => !old(self).store.triple_ok(
                    project_id,
                    task_id,
                    attempt_id,
                ) && final(self).store.same_as(old(self).store),
                _ => false,
            },
    {
        let ghost s0 = *self;
        if !self.store.exists_for_task(attempt_id, task_id, project_id) {
            return Result::Err(EngineError::NotFound);
        }
        match outcome {
            crate::git::RebaseOutcome::Rebased => {
                match &new_base_branch {
                    Option::Some(b) => {
                        proof {
                            crate::store::lemma_attempt_found_iff_has(s0.store, attempt_id);
                        }
                        let ok = self.store.set_attempt_base_branch(attempt_id, b.as_str());
                        proof {
                            assert(ok);
                            lemma_engine_procs_stable(s0, *self);
                        }
                    },
                    Option::None => {},
                }
                Result::Ok(
                    crate::model::OpOutcome {
                        success: true,
                        message: String::from_str("Branch rebased successfully"),
                    },
                )
            },
            crate::git::RebaseOutcome::Conflict { message } => {
                Result::Ok(crate::model::OpOutcome { success: false, message })
            },
        }
    }

    /// Send a further prompt into an attempt. When its worktree is gone
    /// beyond recovery (`worktree_ok` false), a new attempt is forked with
    /// the original as parent, and the returned `actual_attempt_id` names the
    /// attempt that really runs: the fresh one exactly when a fork happened.
    /// A `Followup` process is recorded running in the actual attempt's
    /// worktree, with a session holding the prompt.
    pub fn create_followup_attempt(
        &mut self,
        project_id: Id,
        task_id: Id,
        attempt_id: Id,
        prompt: &str,
        worktree_ok: bool,
        fresh_attempt_id: Id,
        fresh_process_id: Id,
        command: String,
        root: &str,
        now: &str,
    ) -> (r: Result<crate::model::FollowUpResponse, EngineError>)
        requires
            old(self).wf(),
        ensures
            final(self).wf(),
            old(self).fully_supervised() ==> final(self).fully_supervised(),
            final(self).store.tasks_v() == old(self).store.tasks_v(),
            match r {
                Result::Ok(resp) => {
                    &&& old(self).store.triple_ok(project_id, task_id, attempt_id)
                    &&& resp.created_new_attempt == !worktree_ok
                    &&& (worktree_ok ==> resp.actual_attempt_id == attempt_id && final(self).store.attempts_v() == old(self).store.attempts_v() && resp.message@
                        == "Follow-up execution started successfully"@)
                    &&& (!worktree_ok ==> {
                        &&& resp.actual_attempt_id == fresh_attempt_id
                        &&& fresh_attempt_id != attempt_id
                        &&& final(self).store.attempts_v() == old(self).store.attempts_v().push(
                            followup_fork_view(
                                old(self).store.attempt_of(attempt_id)->Some_0,
                                fresh_attempt_id,
                                root@,
                                now@,
                            ),
                        )
                        &&& match final(self).store.attempt_of(fresh_attempt_id) {
                            Option::Some(a) => a.parent_attempt_id == Option::Some(attempt_id)
                                && a.task_id == task_id,
                            Option::None => false,
                        }
                        &&& resp.message@ == "Follow-up execution started on new attempt "@
                            + crate::text::spec_dec(fresh_attempt_id as int)
                            + " (original worktree was deleted)"@
                    })
                    &&& final(self).store.processes_v() == old(self).store.processes_v().push(
                        followup_process_view(
                            old(self).store.attempt_of(attempt_id)->Some_0,
                            resp.actual_attempt_id,
                            fresh_process_id,
                            command@,
                            worktree_ok,
                            root@,
                            now@,
                        ),
                    )
                    &&& match final(self).store.session_of(fresh_process_id) {
                        Option::Some(s) => s.prompt == Option::Some(prompt@),
                        Option::None => false,
                    }
                },
                Result::Err(EngineError::NotFound) => !old(self).store.triple_ok(
                    project_id,
                    task_id,
                    attempt_id,
                ) && final(self).store.same_as(old(self).store),
                Result::Err(EngineError::IdTaken) => old(self).store.triple_ok(
                    project_id,
                    task_id,
                    attempt_id,
                ) && (old(self).store.has_process(fresh_process_id) || (!worktree_ok && old(self).store.has_attempt(fresh_attempt_id))) && final(self).store.same_as(
                    old(self).store,
                ),
                Result::Err(EngineError::WorktreeInUse) => !worktree_ok && old(self).store.has_worktree(
                    root@ + "/"@ + crate::text::spec_dec(fresh_attempt_id as int),
                ) && final(self).store.same_as(old(self).store),
                _ => false,
            },
    {
        let ghost s0 = *self;
        if !self.store.exists_for_task(attempt_id, task_id, project_id) {
            return Result::Err(EngineError::NotFound);
        }
        if self.store.find_process(fresh_process_id).is_some() {
            proof {
                crate::store::lemma_process_found_iff_has(s0.store, fresh_process_id);
            }
            return Result::Err(EngineError::IdTaken);
        }
        proof {
            crate::store::lemma_process_found_iff_has(s0.store, fresh_process_id);
            crate::store::lemma_attempt_found_iff_has(s0.store, attempt_id);
        }
        let (orig_executor, orig_path) = match self.store.find_attempt(attempt_id) {
            Option::Some(a) => (
                crate::model::clone_opt_string(&a.executor),
                a.worktree_path.clone(),
            ),
            Option::None => (Option::None, String::new()),
        };
        let orig_base = match self.store.find_attempt(attempt_id) {
            Option::Some(a) => a.base_branch.clone(),
            Option::None => String::new(),
        };
        let mut actual_id: Id = attempt_id;
        let mut wd: String = orig_path;
        if !worktree_ok {
            if self.store.find_attempt(fresh_attempt_id).is_some() {
                proof {
                    crate::store::lemma_attempt_found_iff_has(s0.store, fresh_attempt_id);
                }
                return Result::Err(EngineError::IdTaken);
            }
            proof {
                crate::store::lemma_attempt_found_iff_has(s0.store, fresh_attempt_id);
            }
            let dec = crate::text::dec_u128(fresh_attempt_id);
            let branch = String::from_str("attempt-").concat(dec.as_str());
            let path = String::from_str(root).concat("/").concat(dec.as_str());
            proof {
                assert(path@ =~= root@ + "/"@ + crate::text::spec_dec(fresh_attempt_id as int));
            }
            let forked = crate::model::TaskAttempt {
                id: fresh_attempt_id,
                task_id,
                executor: crate::model::clone_opt_string(&orig_executor),
                base_branch: orig_base,
                branch_name: branch,
                worktree_path: path.clone(),
                merge_commit: Option::None,
                parent_attempt_id: Option::Some(attempt_id),
                created_at: String::from_str(now),
            };
            let ghost fkv = forked@;
            match self.store.create_attempt(forked) {
                Result::Ok(()) => {
                    proof {
                        assert(fkv =~= followup_fork_view(
                            s0.store.attempt_of(attempt_id)->Some_0,
                            fresh_attempt_id,
                            root@,
                            now@,
                        ));
                        crate::store::lemma_find_push(
                            s0.store.attempts_v(),
                            |a: crate::model::TaskAttemptView| a.id == fresh_attempt_id,
                            fkv,
                        );
                        crate::store::lemma_attempt_found_iff_has(s0.store, fresh_attempt_id);
                    }
                },
                Result::Err(e) => {
                    proof {
                        crate::store::lemma_task_found_iff_has(s0.store, task_id);
                    }
                    return Result::Err(e);
                },
            }
            actual_id = fresh_attempt_id;
            wd = path;
        }
        let ghost s1 = *self;
        let proc = ExecutionProcess {
            id: fresh_process_id,
            task_attempt_id: actual_id,
            process_type: ExecutionProcessType::Followup,
            executor_type: orig_executor,
            command,
            working_directory: wd,
            status: ExecutionProcessStatus::Running,
            exit_code: Option::None,
            stdout: Option::None,
            stderr: Option::None,
            started_at: String::from_str(now),
            ended_at: Option::None,
        };
        let ghost prv = proc@;
        proof {
            lemma_engine_procs_stable(s0, s1);
            assert(s1.store.has_attempt(actual_id)) by {
                if worktree_ok {
                    crate::store::lemma_attempt_found_iff_has(s1.store, attempt_id);
                } else {
                    crate::store::lemma_attempt_found_iff_has(s1.store, fresh_attempt_id);
                }
            }
            assert(!s1.store.has_process(fresh_process_id)) by {
                if s1.store.has_process(fresh_process_id) {
                    let w = crate::store::lemma_has_key_witness(
                        s1.store.processes_v(),
                        |x: ExecutionProcessView| x.id,
                        fresh_process_id,
                    );
                    crate::store::lemma_has_key_intro(
                        s0.store.processes_v(),
                        |x: ExecutionProcessView| x.id,
                        w,
                    );
                }
            }
        }
        match self.spawn_process(proc) {
            Result::Ok(()) => {},
            Result::Err(_) => {
                proof {
                    assert(false);
                }
                return Result::Err(EngineError::IdTaken);
            },
        }
        let ghost s2 = *self;
        let session = crate::model::ExecutorSession {
            execution_process_id: fresh_process_id,
            prompt: Option::Some(String::from_str(prompt)),
            summary: Option::None,
            session_id: Option::None,
        };
        let ghost sev = session@;
        proof {
            assert(s2.store.has_process(fresh_process_id)) by {
                crate::store::lemma_has_key_intro(
                    s2.store.processes_v(),
                    |x: ExecutionProcessView| x.id,
                    s2.store.processes_v().len() - 1,
                );
            }
            assert(!s2.store.has_session(fresh_process_id)) by {
                if s2.store.has_session(fresh_process_id) {
                    let w = crate::store::lemma_has_key_witness(
                        s2.store.sessions_v(),
                        |x: crate::model::ExecutorSessionView| x.execution_process_id,
                        fresh_process_id,
                    );
                    crate::store::lemma_has_key_intro(
                        s0.store.sessions_v(),
                        |x: crate::model::ExecutorSessionView| x.execution_process_id,
                        w,
                    );
                    assert(s0.wf());
                    assert(s0.store.has_process(fresh_process_id));
                }
            }
        }
        match self.store.create_session(session) {
            Result::Ok(()) => {},
            Result::Err(_) => {
                proof {
                    assert(false);
                }
                return Result::Err(EngineError::IdTaken);
            },
        }
        proof {
            lemma_engine_procs_stable(s2, *self);
            crate::store::lemma_find_push(
                s2.store.sessions_v(),
                |x: crate::model::ExecutorSessionView| x.execution_process_id == fresh_process_id,
                sev,
            );
            assert(crate::store::find_by(
                s2.store.sessions_v(),
                |x: crate::model::ExecutorSessionView| x.execution_process_id == fresh_process_id,
            ) is None) by {
                crate::store::lemma_find_idx(
                    s2.store.sessions_v(),
                    |x: crate::model::ExecutorSessionView| x.execution_process_id
                        == fresh_process_id,
                );
                if crate::store::find_by(
                    s2.store.sessions_v(),
                    |x: crate::model::ExecutorSessionView| x.execution_process_id
                        == fresh_process_id,
                ) is Some {
                    crate::store::lemma_has_key_intro(
                        s2.store.sessions_v(),
                        |x: crate::model::ExecutorSessionView| x.execution_process_id,
                        find_idx(
                            s2.store.sessions_v(),
                            |x: crate::model::ExecutorSessionView| x.execution_process_id
                                == fresh_process_id,
                        ),
                    );
                }
            }
            assert(prv =~= followup_process_view(
                s0.store.attempt_of(attempt_id)->Some_0,
                actual_id,
                fresh_process_id,
                command@,
                worktree_ok,
                root@,
                now@,
            ));
        }
        let message = if worktree_ok {
            String::from_str("Follow-up execution started successfully")
        } else {
            let dec2 = crate::text::dec_u128(actual_id);
            let m = String::from_str("Follow-up execution started on new attempt ").concat(
                dec2.as_str(),
            ).concat(" (original worktree was deleted)");
            proof {
                assert(m@ =~= "Follow-up execution started on new attempt "@
                    + crate::text::spec_dec(fresh_attempt_id as int)
                    + " (original worktree was deleted)"@);
            }
            m
        };
        Result::Ok(
            crate::model::FollowUpResponse {
                message,
                actual_attempt_id: actual_id,
                created_new_attempt: !worktree_ok,
            },
        )
    }

    /// Promote the plan an agent presented into a new child task: the child
    /// carries the plan as its description, records the attempt as its
    /// parent, and the original task is marked done. Fails `PlanNotFound`
    /// when no plan-dialect process of the attempt presented a plan.
    pub fn approve_plan(
        &mut self,
        project_id: Id,
        task_id: Id,
        attempt_id: Id,
        new_task_id: Id,
    ) -> (r: Result<crate::model::FollowUpResponse, EngineError>)
        requires
            old(self).wf(),
        ensures
            final(self).wf(),
            old(self).fully_supervised() ==> final(self).fully_supervised(),
            final(self).sup == old(self).sup,
            final(self).store.attempts_v() == old(self).store.attempts_v(),
            final(self).store.processes_v() == old(self).store.processes_v(),
            final(self).store.sessions_v() == old(self).store.sessions_v(),
            match r {
                Result::Ok(resp) => {
                    &&& old(self).store.triple_ok(project_id, task_id, attempt_id)
                    &&& crate::plan::spec_find_plan(old(self).store.processes_v(), attempt_id)
                        is Some
                    &&& !old(self).store.has_task(new_task_id)
                    &&& resp.actual_attempt_id == new_task_id
                    &&& resp.created_new_attempt
                    &&& resp.message@ == "Plan approved and new task created"@
                    &&& final(self).store.tasks_v() == old(self).store.tasks_v().push(
                        approved_task_view(
                            old(self).store.task_of(task_id)->Some_0,
                            new_task_id,
                            project_id,
                            attempt_id,
                            crate::plan::spec_find_plan(
                                old(self).store.processes_v(),
                                attempt_id,
                            )->Some_0,
                        ),
                    ).update(
                        old(self).store.task_idx(task_id),
                        crate::store::task_with_status(
                            old(self).store.task_of(task_id)->Some_0,
                            crate::model::TaskStatus::Done,
                        ),
                    )
                    &&& match final(self).store.task_of(new_task_id) {
                        Option::Some(t) => t.parent_task_attempt == Option::Some(attempt_id)
                            && t.status == crate::model::TaskStatus::Todo && t.description
                            == Option::Some(
                            crate::plan::spec_find_plan(
                                old(self).store.processes_v(),
                                attempt_id,
                            )->Some_0,
                        ),
                        Option::None => false,
                    }
                    &&& match final(self).store.task_of(task_id) {
                        Option::Some(t) => t.status == crate::model::TaskStatus::Done,
                        Option::None => false,
                    }
                },
                Result::Err(EngineError::NotFound) => !old(self).store.triple_ok(
                    project_id,
                    task_id,
                    attempt_id,
                ) && final(self).store.same_as(old(self).store),
                Result::Err(EngineError::PlanNotFound) => {
                    &&& old(self).store.triple_ok(project_id, task_id, attempt_id)
                    &&& crate::plan::spec_find_plan(old(self).store.processes_v(), attempt_id)
                        is None
                    &&& final(self).store.same_as(old(self).store)
                },
                Result::Err(EngineError::IdTaken) => {
                    &&& old(self).store.triple_ok(project_id, task_id, attempt_id)
                    &&& old(self).store.has_task(new_task_id)
                    &&& final(self).store.same_as(old(self).store)
                },
                _ => false,
            },
    {
        let ghost s0 = *self;
        if !self.store.exists_for_task(attempt_id, task_id, project_id) {
            return Result::Err(EngineError::NotFound);
        }
        let title = match self.store.find_task(task_id) {
            Option::Some(t) => String::from_str("Execute Plan: ").concat(t.title.as_str()),
            Option::None => {
                proof {
                    assert(false);
                }
                return Result::Err(EngineError::NotFound);
            },
        };
        let plan = match crate::plan::find_plan_content(&self.store, attempt_id) {
            Option::Some(p) => p,
            Option::None => {
                return Result::Err(EngineError::PlanNotFound);
            },
        };
        let nt = crate::model::Task {
            id: new_task_id,
            project_id,
            title,
            description: Option::Some(plan),
            status: crate::model::TaskStatus::Todo,
            parent_task_attempt: Option::Some(attempt_id),
        };
        let ghost ntv = nt@;
        proof {
            assert(ntv =~= approved_task_view(
                s0.store.task_of(task_id)->Some_0,
                new_task_id,
                project_id,
                attempt_id,
                crate::plan::spec_find_plan(s0.store.processes_v(), attempt_id)->Some_0,
            ));
        }
        match self.store.create_task(nt) {
            Result::Ok(()) => {},
            Result::Err(e) => {
                proof {
                    crate::store::lemma_attempt_found_iff_has(s0.store, attempt_id);
                    crate::store::lemma_task_found_iff_has(s0.store, new_task_id);
                }
                return Result::Err(e);
            },
        }
        let ghost s1 = *self;
        proof {
            lemma_engine_procs_stable(s0, s1);
            crate::store::lemma_find_push(
                s0.store.tasks_v(),
                |t: crate::model::TaskView| t.id == task_id,
                ntv,
            );
            crate::store::lemma_find_idx(
                s0.store.tasks_v(),
                |t: crate::model::TaskView| t.id == task_id,
            );
            let w = s0.store.task_idx(task_id);
            assert(s1.store.tasks_v()[w] == s0.store.tasks_v()[w]);
            assert forall|j: int| 0 <= j < w implies !((|t: crate::model::TaskView| t.id
                == task_id)(s1.store.tasks_v()[j])) by {
                assert(s1.store.tasks_v()[j] == s0.store.tasks_v()[j]);
            }
            crate::store::lemma_find_at(
                s1.store.tasks_v(),
                |t: crate::model::TaskView| t.id == task_id,
                w,
            );
        }
        let ok = self.store.update_task_status(
            task_id,
            project_id,
            crate::model::TaskStatus::Done,
        );
        proof {
            assert(ok);
            lemma_engine_procs_stable(s1, *self);
            let w = s0.store.task_idx(task_id);
            let done_t = crate::store::task_with_status(
                s0.store.task_of(task_id)->Some_0,
                crate::model::TaskStatus::Done,
            );
            crate::store::lemma_find_update(
                s1.store.tasks_v(),
                |t: crate::model::TaskView| t.id == new_task_id,
                w,
                done_t,
            );
            crate::store::lemma_find_update(
                s1.store.tasks_v(),
                |t: crate::model::TaskView| t.id == task_id,
                w,
                done_t,
            );
            crate::store::lemma_find_none(
                s0.store.tasks_v(),
                |t: crate::model::TaskView| t.id == new_task_id,
            );
            assert forall|j: int| 0 <= j < s0.store.tasks_v().len() implies !((
            |t: crate::model::TaskView| t.id == new_task_id)(s0.store.tasks_v()[j])) by {
                if s0.store.tasks_v()[j].id == new_task_id {
                    crate::store::lemma_has_key_intro(
                        s0.store.tasks_v(),
                        |t: crate::model::TaskView| t.id,
                        j,
                    );
                }
            }
            crate::store::lemma_find_at(
                s1.store.tasks_v(),
                |t: crate::model::TaskView| t.id == new_task_id,
                s0.store.tasks_v().len() as int,
            );
        }
        Result::Ok(
            crate::model::FollowUpResponse {
                message: String::from_str("Plan approved and new task created"),
                actual_attempt_id: new_task_id,
                created_new_attempt: true,
            },
        )
    }

    /// Report the outcome of deleting a tracked file from the worktree. The
    /// store holds no file state; the operation only validates the triple
    /// and shapes the envelope.
    pub fn delete_task_attempt_file(
        &self,
        project_id: Id,
        task_id: Id,
        attempt_id: Id,
        file_path: &str,
        outcome: crate::git::DeleteFileOutcome,
    ) -> (r: Result<crate::model::OpOutcome, EngineError>)
        ensures
            match r {
                Result::Ok(out) => self.store.triple_ok(project_id, task_id, attempt_id) && match outcome {
                    crate::git::DeleteFileOutcome::Deleted { commit } => out.success
                        && out.message@ == "File '"@ + file_path@ + "' deleted successfully"@,
                    crate::git::DeleteFileOutcome::Failed { message } => !out.success
                        && out.message@ == message@,
                },
                Result::Err(EngineError::NotFound) => !self.store.triple_ok(
                    project_id,
                    task_id,
                    attempt_id,
                ),
                _ => false,
            },
    {
        if !self.store.exists_for_task(attempt_id, task_id, project_id) {
            return Result::Err(EngineError::NotFound);
        }
        match outcome {
            crate::git::DeleteFileOutcome::Deleted { commit } => {
                let msg = String::from_str("File '").concat(file_path).concat(
                    "' deleted successfully",
                );
                proof {
                    assert(msg@ =~= "File '"@ + file_path@ + "' deleted successfully"@);
                }
                Result::Ok(crate::model::OpOutcome { success: true, message: msg })
            },
            crate::git::DeleteFileOutcome::Failed { message } => {
                Result::Ok(crate::model::OpOutcome { success: false, message })
            },
        }
    }
}

} // verus!
