//! The application side of the system calls: which call number and
//! arguments each library function places in the registers.
use vstd::prelude::*;
use crate::task::{
    TaskManager, TaskStatus, lemma_exited_never_resumed, lemma_pick_next_unique, pick_next, ready_other,
};
use crate::trap::{TrapAction, TrapOutcome, switch_of, trap_action, trap_finished};

verus! {

/// A system call as the application issues it: the number goes in `a7`, the
/// arguments in `a0` to `a2`.
#[derive(Clone, Copy, Debug)]
pub struct SyscallArgs {
    pub id: usize,
    pub args: [usize; 3],
}

/// The call that writes the `len` bytes at `buffer_addr` to the file `fd`.
pub fn write(fd: usize, buffer_addr: usize, len: usize) -> (r: SyscallArgs)
    ensures
        r.id == 64,
        r.args[0] == fd,
        r.args[1] == buffer_addr,
        r.args[2] == len,
{
    SyscallArgs { id: 64, args: [fd, buffer_addr, len] }
}

/// The call that ends the application with the code `xstate`.
pub fn exit(xstate: i32) -> (r: SyscallArgs)
    ensures
        r.id == 93,
        r.args[0] == xstate as usize,
        r.args[1] == 0,
        r.args[2] == 0,
{
    SyscallArgs { id: 93, args: [xstate as usize, 0, 0] }
}

/// The call that gives up the processor.
pub fn yield_() -> (r: SyscallArgs)
    ensures
        r.id == 124,
        r.args[0] == 0,
        r.args[1] == 0,
        r.args[2] == 0,
{
    SyscallArgs { id: 124, args: [0, 0, 0] }
}

/// The kernel serves each call the application library issues as that call:
/// a write to standard output prints the given buffer, a write elsewhere is
/// refused, exit ends the task and yield gives up the processor.
pub proof fn lemma_syscalls_round_trip(s: SyscallArgs, stval: usize, fd: usize, addr: usize, len: usize, xstate: i32)
    ensures
        (s.id == 64 && s.args[0] == fd && s.args[1] == addr && s.args[2] == len) ==> trap_action(
            8,
            stval,
            s.id,
            s.args[0],
            s.args[1],
            s.args[2],
        ) == (if fd == 1 {
            TrapAction::Write { addr, len }
        } else {
            TrapAction::UnsupportedFd { fd }
        }),
        (s.id == 93 && s.args[0] == xstate as usize) ==> trap_action(8, stval, s.id, s.args[0], s.args[1], s.args[2])
            == TrapAction::Exit,
        s.id == 124 ==> trap_action(8, stval, s.id, s.args[0], s.args[1], s.args[2]) == TrapAction::Yield,
{
}


/// The exit call ends the calling task: once the kernel has served it, the
/// caller has exited and is not the task switched to (and stays exited
/// through every later switch, by `lemma_exited_never_resumed`); when no
/// other task is ready the machine powers off.
pub proof fn lemma_exit_call_ends_task(
    xstate: i32,
    stval: usize,
    old: TaskManager,
    new: TaskManager,
    written: Seq<u8>,
    r: TrapOutcome,
)
    requires
        old.wf(),
        trap_finished(old, new, trap_action(8, stval, 93, xstate as usize, 0, 0), written, r),
    ensures
        r is Switch || r is Shutdown,
        new.statuses()[old.current() as int] == TaskStatus::Exited,
        switch_of(r) matches Some((f, t)) ==> f == old.current() && t != old.current(),
{
    lemma_exited_never_resumed(old, new, TaskStatus::Exited, switch_of(r), old.current() as int);
}

/// The yield call gives up the processor: once the kernel has served it, the
/// caller is ready again and the scheduler's pick among the ready tasks runs;
/// the caller goes on only when no other task is ready.
pub proof fn lemma_yield_call_switches(
    stval: usize,
    old: TaskManager,
    new: TaskManager,
    written: Seq<u8>,
    r: TrapOutcome,
)
    requires
        old.wf(),
        trap_finished(old, new, trap_action(8, stval, 124, 0, 0, 0), written, r),
    ensures
        r matches TrapOutcome::Switch { from, to } && from == old.current() && new.current() == to
            && new.statuses()[to as int] == TaskStatus::Running,
        r matches TrapOutcome::Switch { to, .. } && to != old.current() ==> new.statuses()[old.current() as int]
            == TaskStatus::Ready,
        r matches TrapOutcome::Switch { to, .. } && to == old.current() ==> forall|j: nat|
            !#[trigger] ready_other(
                old.statuses().update(old.current() as int, TaskStatus::Ready),
                old.apps(),
                old.current(),
                j,
            ),
{
    let st = old.statuses().update(old.current() as int, TaskStatus::Ready);
    if let TrapOutcome::Switch { from, to } = r {
        lemma_pick_next_unique(st, old.apps(), old.current(), Some(to as nat), Some(to as nat));
        if to == old.current() {
            assert(pick_next(st, old.apps(), old.current(), Some(to as nat)));
            if ready_other(st, old.apps(), old.current(), to as nat) {
                assert(false);
            }
        }
    }
}

} // verus!
