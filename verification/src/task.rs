//! Cooperative scheduling of the application tasks.
use vstd::prelude::*;

verus! {

/// The state of a task.
#[derive(Copy, Clone, PartialEq, Eq, Structural, Debug)]
pub enum TaskStatus {
    /// Not set up yet.
    UnInit,
    /// Ready to run.
    Ready,
    /// Running.
    Running,
    /// Finished.
    Exited,
}

/// The registers a task switch saves: return address, stack pointer and the
/// callee-saved registers.
#[derive(Copy, Clone, Debug)]
pub struct TaskContext {
    pub ra: usize,
    pub sp: usize,
    pub s: [usize; 12],
}

impl TaskContext {
    /// A context with every register zero.
    pub fn zero() -> (r: Self)
        ensures
            r.ra == 0,
            r.sp == 0,
            forall|i: int| 0 <= i < 12 ==> #[trigger] r.s[i] == 0,
    {
        TaskContext { ra: 0, sp: 0, s: [0usize; 12] }
    }
}

/// A task: its state and its saved context.
#[derive(Copy, Clone)]
pub struct Task {
    pub status: TaskStatus,
    pub context: TaskContext,
}

/// The largest number of tasks.
pub const MAX_TASKS: usize = 16;

/// The table of tasks and the one that runs.
pub struct TaskManager {
    num_app: usize,
    tasks: [Task; 16],
    current_task: usize,
}

/// Whether task `i` is ready and is not the current task `cur`, among the
/// first `n` tasks.
pub open spec fn ready_other(st: Seq<TaskStatus>, n: nat, cur: nat, i: nat) -> bool {
    i < n && st[i as int] == TaskStatus::Ready && i != cur
}

/// The task that the scheduler picks among the first `n` tasks with states
/// `st` when `cur` is the current task: the lowest-numbered ready task other
/// than `cur`; else `cur` if it is ready; else none.
pub open spec fn pick_next(st: Seq<TaskStatus>, n: nat, cur: nat, r: Option<nat>) -> bool {
    match r {
        Some(i) => {
            ||| (ready_other(st, n, cur, i) && forall|j: nat| j < i ==> !#[trigger] ready_other(st, n, cur, j))
            ||| (i == cur && st[cur as int] == TaskStatus::Ready && forall|j: nat|
                !#[trigger] ready_other(st, n, cur, j))
        },
        None => (forall|j: nat| !#[trigger] ready_other(st, n, cur, j)) && st[cur as int]
            != TaskStatus::Ready,
    }
}

impl TaskManager {
    /// The states of the tasks.
    pub closed spec fn statuses(self) -> Seq<TaskStatus> {
        self.tasks@.map_values(|t: Task| t.status)
    }

    /// The saved contexts of the tasks.
    pub closed spec fn contexts(self) -> Seq<TaskContext> {
        self.tasks@.map_values(|t: Task| t.context)
    }

    /// The number of applications.
    pub closed spec fn apps(self) -> nat {
        self.num_app as nat
    }

    /// The current task.
    pub closed spec fn current(self) -> nat {
        self.current_task as nat
    }

    /// The manager's invariant.
    pub open spec fn wf(self) -> bool {
        self.apps() <= 16 && self.current() < 16 && self.statuses().len() == 16
            && self.contexts().len() == 16
    }

    /// Whether no task but the current one is running.
    pub open spec fn only_current_runs(self) -> bool {
        only_runs(self.statuses(), self.current())
    }

    /// A manager for `num_app` applications, none of them set up, with task
    /// zero current.
    pub fn new(num_app: usize) -> (r: Self)
        requires
            num_app <= 16,
        ensures
            r.wf(),
            r.apps() == num_app,
            r.current() == 0,
            forall|i: int| 0 <= i < 16 ==> #[trigger] r.statuses()[i] == TaskStatus::UnInit,
    {
        let t = Task { status: TaskStatus::UnInit, context: TaskContext::zero() };
        let r = TaskManager { num_app, tasks: [t; 16], current_task: 0 };
        proof {
            assert forall|i: int| 0 <= i < 16 implies #[trigger] r.statuses()[i] == TaskStatus::UnInit by {
                assert(r.tasks@[i] == t);
            }
        }
        r
    }

    /// The number of applications.
    pub fn num_app(&self) -> (r: usize)
        ensures
            r == self.apps(),
    {
        self.num_app
    }

    /// The current task.
    pub fn current_task(&self) -> (r: usize)
        ensures
            r == self.current(),
    {
        self.current_task
    }

    /// The state of task `i`.
    pub fn status(&self, i: usize) -> (r: TaskStatus)
        requires
            self.wf(),
            i < 16,
        ensures
            r == self.statuses()[i as int],
    {
        self.tasks[i].status
    }

    /// The saved context of task `i`.
    pub fn context(&self, i: usize) -> (r: TaskContext)
        requires
            self.wf(),
            i < 16,
        ensures
            r == self.contexts()[i as int],
    {
        self.tasks[i].context
    }

    /// Sets the state of task `i`, leaving everything else as it was.
    fn set_status(&mut self, i: usize, status: TaskStatus)
        requires
            old(self).wf(),
            i < 16,
        ensures
            final(self).wf(),
            final(self).statuses() == old(self).statuses().update(i as int, status),
            final(self).contexts() == old(self).contexts(),
            final(self).apps() == old(self).apps(),
            final(self).current() == old(self).current(),
    {
        let mut t = self.tasks[i];
        t.status = status;
        self.tasks[i] = t;
        proof {
            assert(self.statuses() =~= old(self).statuses().update(i as int, status));
            assert(self.contexts() =~= old(self).contexts());
        }
    }

    /// Makes task `i` ready to run from the context that returns to
    /// `restore_entry` with its stack at `kernel_sp`.
    pub fn init_task(&mut self, i: usize, restore_entry: usize, kernel_sp: usize)
        requires
            old(self).wf(),
            i < 16,
        ensures
            final(self).wf(),
            final(self).statuses() == old(self).statuses().update(i as int, TaskStatus::Ready),
            final(self).contexts()[i as int].ra == restore_entry,
            final(self).contexts()[i as int].sp == kernel_sp,
            final(self).contexts()[i as int].s == old(self).contexts()[i as int].s,
            forall|j: int| 0 <= j < 16 && j != i ==> #[trigger] final(self).contexts()[j] == old(
                self,
            ).contexts()[j],
            final(self).apps() == old(self).apps(),
            final(self).current() == old(self).current(),
    {
        let mut t = self.tasks[i];
        t.status = TaskStatus::Ready;
        t.context.ra = restore_entry;
        t.context.sp = kernel_sp;
        self.tasks[i] = t;
        proof {
            assert(self.statuses() =~= old(self).statuses().update(i as int, TaskStatus::Ready));
        }
    }

    /// Marks the current task running and returns it: the task to switch to
    /// first.
    pub fn run(&mut self) -> (r: usize)
        requires
            old(self).wf(),
        ensures
            final(self).wf(),
            r == old(self).current(),
            final(self).statuses() == old(self).statuses().update(r as int, TaskStatus::Running),
            final(self).current() == old(self).current(),
            final(self).apps() == old(self).apps(),
            final(self).contexts() == old(self).contexts(),
    {
        let cur = self.current_task;
        self.set_status(cur, TaskStatus::Running);
        cur
    }

    /// Marks the current task ready.
    fn suspend(&mut self)
        requires
            old(self).wf(),
        ensures
            final(self).wf(),
            final(self).statuses() == old(self).statuses().update(
                old(self).current() as int,
                TaskStatus::Ready,
            ),
            final(self).current() == old(self).current(),
            final(self).apps() == old(self).apps(),
            final(self).contexts() == old(self).contexts(),
    {
        let cur = self.current_task;
        self.set_status(cur, TaskStatus::Ready);
    }

    /// Marks the current task exited.
    fn exit(&mut self)
        requires
            old(self).wf(),
        ensures
            final(self).wf(),
            final(self).statuses() == old(self).statuses().update(
                old(self).current() as int,
                TaskStatus::Exited,
            ),
            final(self).current() == old(self).current(),
            final(self).apps() == old(self).apps(),
            final(self).contexts() == old(self).contexts(),
    {
        let cur = self.current_task;
        self.set_status(cur, TaskStatus::Exited);
    }

    /// The task to run next: the lowest-numbered ready application other
    /// than the current task; else the current task if it is ready; else
    /// none.
    fn find_next_id(&self) -> (r: Option<usize>)
        requires
            self.wf(),
        ensures
            pick_next(
                self.statuses(),
                self.apps(),
                self.current(),
                match r {
                    Some(i) => Some(i as nat),
                    None => None,
                },
            ),
            r matches Some(i) ==> i < 16,
    {
        let mut i: usize = 0;
        while i < self.num_app
            invariant
                self.wf(),
                i <= self.apps(),
                forall|j: nat| j < i ==> !#[trigger] ready_other(self.statuses(), self.apps(), self.current(), j),
            decreases self.apps() - i,
        {
            if self.tasks[i].status == TaskStatus::Ready && i != self.current_task {
                proof {
                    assert(self.statuses()[i as int] == self.tasks@[i as int].status);
                }
                return Some(i);
            }
            proof {
                assert(self.statuses()[i as int] == self.tasks@[i as int].status);
            }
            i = i + 1;
        }
        proof {
            assert(self.statuses()[self.current() as int] == self.tasks@[self.current() as int].status);
        }
        if self.tasks[self.current_task].status == TaskStatus::Ready {
            Some(self.current_task)
        } else {
            None
        }
    }

    /// Picks the task to run next, makes it current and running, and returns
    /// the task to switch from and the task to switch to; none when no task
    /// is ready.
    fn next(&mut self) -> (r: Option<(usize, usize)>)
        requires
            old(self).wf(),
        ensures
            final(self).wf(),
            final(self).apps() == old(self).apps(),
            final(self).contexts() == old(self).contexts(),
            match r {
                Some((from, to)) => {
                    &&& from == old(self).current()
                    &&& pick_next(old(self).statuses(), old(self).apps(), old(self).current(), Some(to as nat))
                    &&& final(self).current() == to
                    &&& final(self).statuses() == old(self).statuses().update(to as int, TaskStatus::Running)
                },
                None => {
                    &&& pick_next(old(self).statuses(), old(self).apps(), old(self).current(), None)
                    &&& final(self).current() == old(self).current()
                    &&& final(self).statuses() == old(self).statuses()
                },
            },
    {
        if let Some(i) = self.find_next_id() {
            let from = self.current_task;
            self.current_task = i;
            self.set_status(i, TaskStatus::Running);
            Some((from, i))
        } else {
            None
        }
    }
}

/// The manager `new` after the current task of `old` is given the state `s`
/// and the scheduler runs: `r` holds the task switched from (the old current
/// task) and the task switched to, which the scheduler picked and which is
/// now current and running; none when no task is ready, the states then being
/// those after the update.
pub open spec fn switched_after(
    old: TaskManager,
    new: TaskManager,
    s: TaskStatus,
    r: Option<(usize, usize)>,
) -> bool {
    let st = old.statuses().update(old.current() as int, s);
    &&& new.wf()
    &&& new.apps() == old.apps()
    &&& new.contexts() == old.contexts()
    &&& match r {
        Some((from, to)) => {
            &&& from == old.current()
            &&& pick_next(st, old.apps(), old.current(), Some(to as nat))
            &&& new.current() == to
            &&& new.statuses() == st.update(to as int, TaskStatus::Running)
        },
        None => {
            &&& pick_next(st, old.apps(), old.current(), None)
            &&& new.current() == old.current()
            &&& new.statuses() == st
        },
    }
}

/// Marks the current task running and returns it.
pub fn run(manager: &mut TaskManager) -> (r: usize)
    requires
        old(manager).wf(),
    ensures
        final(manager).wf(),
        r == old(manager).current(),
        final(manager).statuses() == old(manager).statuses().update(r as int, TaskStatus::Running),
        final(manager).current() == old(manager).current(),
        final(manager).apps() == old(manager).apps(),
{
    manager.run()
}

/// Suspends the current task and picks the next one: returns the tasks to
/// switch from and to, or none when no task is ready (the machine then shuts
/// down).
pub fn suspend_current_and_run_next(manager: &mut TaskManager) -> (r: Option<(usize, usize)>)
    requires
        old(manager).wf(),
    ensures
        final(manager).wf(),
        final(manager).apps() == old(manager).apps(),
        old(manager).only_current_runs() ==> final(manager).only_current_runs(),
        switched_after(*old(manager), *final(manager), TaskStatus::Ready, r),
        r is Some,
{
    let ghost st = manager.statuses();
    let ghost cur = manager.current();
    manager.suspend();
    let r = manager.next();
    proof {
        if let Some((_, to)) = r {
            if only_runs(st, cur) {
                lemma_switch_keeps_one_running(st, old(manager).apps(), cur, TaskStatus::Ready, to as nat);
            }
        }
    }
    r
}

/// Ends the current task and picks the next one: returns the tasks to switch
/// from and to, or none when no task is ready (the machine then shuts down).
pub fn exit_current_and_run_next(manager: &mut TaskManager) -> (r: Option<(usize, usize)>)
    requires
        old(manager).wf(),
    ensures
        final(manager).wf(),
        final(manager).apps() == old(manager).apps(),
        old(manager).only_current_runs() ==> final(manager).only_current_runs(),
        switched_after(*old(manager), *final(manager), TaskStatus::Exited, r),
{
    let ghost st = manager.statuses();
    let ghost cur = manager.current();
    manager.exit();
    let r = manager.next();
    proof {
        if let Some((_, to)) = r {
            if only_runs(st, cur) {
                lemma_switch_keeps_one_running(st, old(manager).apps(), cur, TaskStatus::Exited, to as nat);
            }
        }
    }
    r
}

} // verus!

verus! {

/// Where the applications are loaded: each has a slot of this size.
pub const APP_SLOT_SIZE: usize = 0x2_0000;

/// The address application `i` is loaded at and starts from.
pub fn app_base_address(i: usize) -> (r: usize)
    requires
        0x8040_0000 + i * 0x2_0000 <= usize::MAX,
    ensures
        r == 0x8040_0000 + i * 0x2_0000,
{
    0x8040_0000 + i * APP_SLOT_SIZE
}

/// Where a task's first trap context is stored: just below the top of its
/// kernel stack, `context_size` bytes down; the task's kernel stack pointer
/// starts there.
pub fn trap_context_address(kernel_stack_top: usize, context_size: usize) -> (r: usize)
    requires
        context_size <= kernel_stack_top,
    ensures
        r == kernel_stack_top - context_size,
{
    kernel_stack_top - context_size
}

/// Whether no task but `cur` is running.
pub open spec fn only_runs(st: Seq<TaskStatus>, cur: nat) -> bool {
    forall|i: int| 0 <= i < st.len() && #[trigger] st[i] == TaskStatus::Running ==> i == cur
}

/// The scheduler's choice is determined by the states: there is one choice,
/// and a chosen task was ready and is one of the applications or the
/// current task.
pub proof fn lemma_pick_next_unique(
    st: Seq<TaskStatus>,
    n: nat,
    cur: nat,
    r1: Option<nat>,
    r2: Option<nat>,
)
    requires
        pick_next(st, n, cur, r1),
        pick_next(st, n, cur, r2),
    ensures
        r1 == r2,
        r1 matches Some(i) ==> st[i as int] == TaskStatus::Ready && (i < n || i == cur),
{
    match (r1, r2) {
        (Some(i), Some(j)) => {
            if ready_other(st, n, cur, i) && ready_other(st, n, cur, j) {
                if i < j {
                    assert(!ready_other(st, n, cur, i));
                } else if j < i {
                    assert(!ready_other(st, n, cur, j));
                }
            } else if ready_other(st, n, cur, i) {
                assert(!ready_other(st, n, cur, i));
            } else if ready_other(st, n, cur, j) {
                assert(!ready_other(st, n, cur, j));
            }
        },
        (Some(i), None) => {
            if ready_other(st, n, cur, i) {
                assert(!ready_other(st, n, cur, i));
            }
        },
        (None, Some(j)) => {
            if ready_other(st, n, cur, j) {
                assert(!ready_other(st, n, cur, j));
            }
        },
        (None, None) => {},
    }
}

/// Giving up or ending the running task and switching to the scheduler's
/// choice keeps at most one task running, the new current one; a task that
/// has exited stays exited.
pub proof fn lemma_switch_keeps_one_running(
    st: Seq<TaskStatus>,
    n: nat,
    cur: nat,
    s: TaskStatus,
    to: nat,
)
    requires
        cur < st.len(),
        only_runs(st, cur),
        s == TaskStatus::Ready || s == TaskStatus::Exited,
        pick_next(st.update(cur as int, s), n, cur, Some(to)),
        to < st.len(),
    ensures
        only_runs(st.update(cur as int, s).update(to as int, TaskStatus::Running), to),
        forall|i: int|
            0 <= i < st.len() && i != cur && st[i] == TaskStatus::Exited ==> #[trigger] st.update(
                cur as int,
                s,
            ).update(to as int, TaskStatus::Running)[i] == TaskStatus::Exited,
        s == TaskStatus::Exited ==> to != cur,
{
    let st1 = st.update(cur as int, s);
    lemma_pick_next_unique(st1, n, cur, Some(to), Some(to));
    assert forall|i: int| 0 <= i < st.len() && i != cur && st[i] == TaskStatus::Exited implies #[trigger] st1.update(
        to as int,
        TaskStatus::Running,
    )[i] == TaskStatus::Exited by {
        assert(st1[i] == TaskStatus::Exited);
        assert(i != to);
    }
}


/// When the current task gives up the processor or ends, the scheduler
/// switches to the lowest-numbered ready application other than the current
/// task, if there is one. Only when no other application is ready does it stay
/// with the current task, provided that task is still ready; otherwise it
/// switches to nothing.
pub proof fn lemma_switch_to_lowest_ready(
    old: TaskManager,
    new: TaskManager,
    s: TaskStatus,
    r: Option<(usize, usize)>,
)
    requires
        old.wf(),
        switched_after(old, new, s, r),
    ensures
        ({
            let st = old.statuses().update(old.current() as int, s);
            let cur = old.current() as int;
            (exists|j: int| 0 <= j < old.apps() && j != cur && #[trigger] st[j] == TaskStatus::Ready)
                ==> (r matches Some((from, to)) && {
                &&& from == cur
                &&& to != cur
                &&& to < old.apps()
                &&& st[to as int] == TaskStatus::Ready
                &&& new.current() == to
                &&& forall|k: int|
                    0 <= k < to && k != cur ==> #[trigger] st[k] != TaskStatus::Ready
            })
        }),
        ({
            let st = old.statuses().update(old.current() as int, s);
            let cur = old.current() as int;
            (forall|j: int| 0 <= j < old.apps() && j != cur ==> #[trigger] st[j] != TaskStatus::Ready)
                ==> if st[cur] == TaskStatus::Ready {
                r matches Some((from, to)) && from == cur && to == cur
            } else {
                r is None
            }
        }),
{
    let st = old.statuses().update(old.current() as int, s);
    let cur = old.current() as int;
    let n = old.apps();
    if exists|j: int| 0 <= j < n && j != cur && #[trigger] st[j] == TaskStatus::Ready {
        let j = choose|j: int| 0 <= j < n && j != cur && #[trigger] st[j] == TaskStatus::Ready;
        assert(ready_other(st, n, cur as nat, j as nat));
        match r {
            Some((from, to)) => {
                if !ready_other(st, n, cur as nat, to as nat) {
                    assert(!ready_other(st, n, cur as nat, j as nat));
                }
                assert forall|k: int| 0 <= k < to && k != cur implies #[trigger] st[k] != TaskStatus::Ready by {
                    assert(!ready_other(st, n, cur as nat, k as nat));
                }
            },
            None => {
                assert(!ready_other(st, n, cur as nat, j as nat));
            },
        }
    }
    if forall|j: int| 0 <= j < n && j != cur ==> #[trigger] st[j] != TaskStatus::Ready {
        match r {
            Some((from, to)) => {
                if ready_other(st, n, cur as nat, to as nat) {
                    assert(st[to as int] != TaskStatus::Ready);
                }
            },
            None => {},
        }
    }
}

/// A task that ends is switched away from and stays exited; a task that has
/// exited stays exited through every later switch and is never switched to.
pub proof fn lemma_exited_never_resumed(
    old: TaskManager,
    new: TaskManager,
    s: TaskStatus,
    r: Option<(usize, usize)>,
    i: int,
)
    requires
        old.wf(),
        switched_after(old, new, s, r),
        0 <= i < 16,
        (i == old.current() && s == TaskStatus::Exited) || (i != old.current() && old.statuses()[i]
            == TaskStatus::Exited),
    ensures
        new.statuses()[i] == TaskStatus::Exited,
        r matches Some((f, t)) ==> t != i,
{
    let st = old.statuses().update(old.current() as int, s);
    assert(st[i] == TaskStatus::Exited);
    if let Some((f, t)) = r {
        lemma_pick_next_unique(st, old.apps(), old.current(), Some(t as nat), Some(t as nat));
    }
}

} // verus!
