//! Trap handling: what the kernel does for each cause of a trap from user
//! mode, and the system calls it serves.
use vstd::prelude::*;
use vstd::utf8::{
    codepoint_width_2, codepoint_width_3, codepoint_width_4, is_continuation_byte,
    length_of_first_scalar, partial_valid_partial_invalid_utf8, partial_valid_utf8,
    partial_valid_utf8_extend, valid_first_scalar, valid_utf8,
};
use crate::task::{
    TaskManager, TaskStatus, exit_current_and_run_next, suspend_current_and_run_next, switched_after,
};

verus! {

/// The registers saved when a trap enters the kernel.
#[derive(Clone, Copy)]
pub struct TrapContext {
    pub x: [usize; 32],
    pub sstatus: usize,
    pub sepc: usize,
}

/// The cause of an illegal instruction.
pub const SCAUSE_ILLEGAL_INSTRUCTION: usize = 0x2;
/// The cause of a store or atomic access fault.
pub const SCAUSE_STORE_FAULT: usize = 0x7;
/// The cause of an environment call from user mode.
pub const SCAUSE_USER_ECALL: usize = 0x8;

/// The system call that writes a buffer to a file.
pub const SYSCALL_WRITE: usize = 64;
/// The system call that ends the application.
pub const SYSCALL_EXIT: usize = 93;
/// The system call that gives up the processor.
pub const SYSCALL_YIELD: usize = 124;

/// The only file that writes may go to: standard output.
pub const FD_STDOUT: usize = 1;

/// The value of `sstatus` with the previous-privilege bit cleared, so that
/// returning from the trap enters user mode.
pub open spec fn spp_cleared(sstatus: usize) -> usize {
    sstatus & !0x100usize
}

/// Clears the previous-privilege bit of `sstatus`.
pub fn clear_spp(sstatus: usize) -> (r: usize)
    ensures
        r == spp_cleared(sstatus),
        r & 0x100 == 0,
        r | 0x100 == sstatus | 0x100,
{
    assert(!(1usize << 8usize) == !0x100usize) by (bit_vector);
    let r = sstatus & !(1 << 8);
    proof {
        lemma_spp_cleared(sstatus);
    }
    r
}

/// Clearing the previous-privilege bit clears bit 8 and keeps every other
/// bit of `sstatus`.
pub proof fn lemma_spp_cleared(sstatus: usize)
    ensures
        spp_cleared(sstatus) & 0x100 == 0,
        spp_cleared(sstatus) | 0x100 == sstatus | 0x100,
        sstatus & 0x100 == 0 ==> spp_cleared(sstatus) == sstatus,
{
    assert((sstatus & !0x100usize) & 0x100 == 0) by (bit_vector);
    assert((sstatus & !0x100usize) | 0x100 == sstatus | 0x100) by (bit_vector);
    assert(sstatus & 0x100 == 0 ==> (sstatus & !0x100usize) == sstatus) by (bit_vector);
}

impl TrapContext {
    /// The context that starts an application at `entry` in user mode with
    /// its stack at `user_sp`, from the current `sstatus`.
    pub fn app_init_context(entry: usize, sstatus: usize, user_sp: usize) -> (r: Self)
        ensures
            r.sepc == entry,
            r.sstatus == spp_cleared(sstatus),
            r.sstatus & 0x100 == 0,
            r.sstatus | 0x100 == sstatus | 0x100,
            r.x[2] == user_sp,
            forall|i: int| 0 <= i < 32 && i != 2 ==> #[trigger] r.x[i] == 0,
    {
        let mut x = [0usize; 32];
        x[2] = user_sp;
        TrapContext { x, sstatus: clear_spp(sstatus), sepc: entry }
    }
}

/// What the kernel must do after a trap.
#[derive(Clone, Copy, PartialEq, Eq, Structural, Debug)]
pub enum TrapAction {
    /// Report the illegal instruction and end the current task.
    IllegalInstruction { stval: usize },
    /// Report the access fault and end the current task.
    StoreFault { stval: usize },
    /// Print the `len` bytes at `addr` and resume the task.
    Write { addr: usize, len: usize },
    /// Report the exit and end the current task.
    Exit,
    /// Suspend the current task and run the next one.
    Yield,
    /// A write to a file other than standard output: the kernel panics.
    UnsupportedFd { fd: usize },
    /// An unknown system call: the kernel panics.
    UnsupportedSyscall { id: usize },
    /// An unknown trap cause: the kernel panics.
    UnsupportedTrap { scause: usize, stval: usize },
}

/// The action for a trap with cause `scause` and value `stval`, when the
/// system call registers hold `id` and the arguments `a0`, `a1`, `a2`.
pub open spec fn trap_action(scause: usize, stval: usize, id: usize, a0: usize, a1: usize, a2: usize) -> TrapAction {
    if scause == 2 {
        TrapAction::IllegalInstruction { stval }
    } else if scause == 7 {
        TrapAction::StoreFault { stval }
    } else if scause == 8 {
        if id == 64 {
            if a0 == 1 {
                TrapAction::Write { addr: a1, len: a2 }
            } else {
                TrapAction::UnsupportedFd { fd: a0 }
            }
        } else if id == 93 {
            TrapAction::Exit
        } else if id == 124 {
            TrapAction::Yield
        } else {
            TrapAction::UnsupportedSyscall { id }
        }
    } else {
        TrapAction::UnsupportedTrap { scause, stval }
    }
}

/// The value a served system call returns to the application in `a0`.
pub open spec fn syscall_result(action: TrapAction) -> Option<usize> {
    match action {
        TrapAction::Write { len, .. } => Some(len),
        TrapAction::Exit => Some(0),
        TrapAction::Yield => Some(0),
        _ => None,
    }
}

/// Handles a trap with cause `scause` and value `stval` on the saved
/// context: for an environment call, moves the return address past the call
/// instruction and stores the call's result in `a0`. Returns what is left to
/// do.
pub fn trap_handler(trap_context: &mut TrapContext, scause: usize, stval: usize) -> (r: TrapAction)
    requires
        scause == 8 ==> old(trap_context).sepc + 4 <= usize::MAX,
    ensures
        r == trap_action(
            scause,
            stval,
            old(trap_context).x[17],
            old(trap_context).x[10],
            old(trap_context).x[11],
            old(trap_context).x[12],
        ),
        final(trap_context).sstatus == old(trap_context).sstatus,
        final(trap_context).sepc == (if scause == 8 {
            (old(trap_context).sepc + 4) as usize
        } else {
            old(trap_context).sepc
        }),
        final(trap_context).x@ == (match syscall_result(r) {
            Some(v) => old(trap_context).x@.update(10, v),
            None => old(trap_context).x@,
        }),
{
    if scause == SCAUSE_ILLEGAL_INSTRUCTION {
        TrapAction::IllegalInstruction { stval }
    } else if scause == SCAUSE_STORE_FAULT {
        TrapAction::StoreFault { stval }
    } else if scause == SCAUSE_USER_ECALL {
        let syscall_id = trap_context.x[17];
        let arg0 = trap_context.x[10];
        let arg1 = trap_context.x[11];
        let arg2 = trap_context.x[12];
        trap_context.sepc = trap_context.sepc + 4;
        let action = if syscall_id == SYSCALL_WRITE {
            if arg0 == FD_STDOUT {
                TrapAction::Write { addr: arg1, len: arg2 }
            } else {
                TrapAction::UnsupportedFd { fd: arg0 }
            }
        } else if syscall_id == SYSCALL_EXIT {
            TrapAction::Exit
        } else if syscall_id == SYSCALL_YIELD {
            TrapAction::Yield
        } else {
            TrapAction::UnsupportedSyscall { id: syscall_id }
        };
        match action {
            TrapAction::Write { len, .. } => {
                trap_context.x[10] = len;
            },
            TrapAction::Exit | TrapAction::Yield => {
                trap_context.x[10] = 0;
            },
            _ => {},
        }
        action
    } else {
        TrapAction::UnsupportedTrap { scause, stval }
    }
}


/// Whether a continuation byte of UTF-8 (`10xxxxxx`).
fn is_continuation(b: u8) -> (r: bool)
    ensures
        r == is_continuation_byte(b),
{
    0x80 <= b && b <= 0xbf
}

/// The length of the UTF-8 encoding of one scalar value that starts at
/// byte `i` of `bytes`, or 0 where none starts there (a stray or missing
/// continuation byte, an overlong form, a surrogate, or a value above
/// U+10FFFF).
fn first_scalar_len(bytes: &[u8], i: usize) -> (r: usize)
    requires
        i < bytes@.len(),
    ensures
        ({
            let s = bytes@.subrange(i as int, bytes@.len() as int);
            if valid_first_scalar(s) {
                r as int == length_of_first_scalar(s)
            } else {
                r == 0
            }
        }),
{
    let n = bytes.len();
    let b0 = bytes[i];
    let ghost s = bytes@.subrange(i as int, n as int);
    proof {
        assert(s[0] == b0);
    }
    if b0 <= 0x7f {
        proof {
            assert(((b0 & 0x7f) as u32) <= 0x7f) by (bit_vector);
        }
        return 1;
    }
    if 0xc0 <= b0 && b0 <= 0xdf {
        if n - i > 1 {
            let b1 = bytes[i + 1];
            proof {
                assert(s[1] == b1);
            }
            if is_continuation(b1) {
                let cp: u32 = (((b0 & 0x1f) as u32) << 6u32) | ((b1 & 0x3f) as u32);
                proof {
                    assert(cp == codepoint_width_2(b0, b1));
                    assert(cp <= 0x7ff) by (bit_vector)
                        requires
                            cp == (((b0 & 0x1f) as u32) << 6u32) | ((b1 & 0x3f) as u32),
                    ;
                }
                if 0x80 <= cp {
                    return 2;
                }
            }
        }
        return 0;
    }
    if 0xe0 <= b0 && b0 <= 0xef {
        if n - i > 2 {
            let b1 = bytes[i + 1];
            let b2 = bytes[i + 2];
            proof {
                assert(s[1] == b1 && s[2] == b2);
            }
            if is_continuation(b1) && is_continuation(b2) {
                let cp: u32 = (((b0 & 0x0f) as u32) << 12u32) | (((b1 & 0x3f) as u32) << 6u32) | ((b2
                    & 0x3f) as u32);
                proof {
                    assert(cp == codepoint_width_3(b0, b1, b2));
                }
                if 0x800 <= cp && !(0xd800 <= cp && cp <= 0xdfff) {
                    return 3;
                }
            }
        }
        return 0;
    }
    if 0xf0 <= b0 && b0 <= 0xf7 {
        if n - i > 3 {
            let b1 = bytes[i + 1];
            let b2 = bytes[i + 2];
            let b3 = bytes[i + 3];
            proof {
                assert(s[1] == b1 && s[2] == b2 && s[3] == b3);
            }
            if is_continuation(b1) && is_continuation(b2) && is_continuation(b3) {
                let cp: u32 = (((b0 & 0x07) as u32) << 18u32) | (((b1 & 0x3f) as u32) << 12u32) | (((b2
                    & 0x3f) as u32) << 6u32) | ((b3 & 0x3f) as u32);
                proof {
                    assert(cp == codepoint_width_4(b0, b1, b2, b3));
                }
                if 0x10000 <= cp && cp <= 0x10ffff {
                    return 4;
                }
            }
        }
        return 0;
    }
    0
}

/// Whether `bytes` is valid UTF-8: each scalar value in its shortest
/// encoding, no surrogates, nothing above U+10FFFF.
fn is_utf8(bytes: &[u8]) -> (r: bool)
    ensures
        r == valid_utf8(bytes@),
{
    let n = bytes.len();
    let mut i: usize = 0;
    proof {
        assert(bytes@.subrange(0, 0) =~= Seq::<u8>::empty());
    }
    while i < n
        invariant
            n == bytes@.len(),
            partial_valid_utf8(bytes@, i as int),
        decreases n - i,
    {
        let k = first_scalar_len(bytes, i);
        if k == 0 {
            proof {
                let s = bytes@.subrange(i as int, n as int);
                assert(s.len() != 0);
                assert(!valid_utf8(s));
                partial_valid_partial_invalid_utf8(bytes@, i as int);
            }
            return false;
        }
        proof {
            partial_valid_utf8_extend(bytes@, i as int);
        }
        i = i + k;
    }
    proof {
        assert(bytes@.subrange(0, n as int) =~= bytes@);
    }
    true
}

/// What is left for the machine once a trap has been served.
#[derive(Clone, Copy, PartialEq, Eq, Structural, Debug)]
pub enum TrapOutcome {
    /// Print the written bytes, which are text, and return to the task.
    Print,
    /// Switch from task `from` to task `to`.
    Switch { from: usize, to: usize },
    /// No task is ready: power off.
    Shutdown,
    /// The kernel panics.
    Panic,
}

/// The switch an outcome asks for, if any.
pub open spec fn switch_of(r: TrapOutcome) -> Option<(usize, usize)> {
    match r {
        TrapOutcome::Switch { from, to } => Some((from, to)),
        _ => None,
    }
}

/// The scheduler `new` and the outcome `r` after serving the action of a
/// trap on the scheduler `old`, where `written` holds the bytes a write names:
/// a write of UTF-8 text is printed and changes nothing else, one of other
/// bytes panics; a fault or an exit ends the current task and switches to
/// the next ready one or powers off; a yield makes the current task ready
/// and switches; anything else panics.
pub open spec fn trap_finished(
    old: TaskManager,
    new: TaskManager,
    action: TrapAction,
    written: Seq<u8>,
    r: TrapOutcome,
) -> bool {
    match action {
        TrapAction::Write { .. } => {
            &&& new == old
            &&& r == (if valid_utf8(written) {
                TrapOutcome::Print
            } else {
                TrapOutcome::Panic
            })
        },
        TrapAction::IllegalInstruction { .. } | TrapAction::StoreFault { .. } | TrapAction::Exit => {
            &&& (r is Switch || r is Shutdown)
            &&& switched_after(old, new, TaskStatus::Exited, switch_of(r))
        },
        TrapAction::Yield => {
            &&& r is Switch
            &&& switched_after(old, new, TaskStatus::Ready, switch_of(r))
        },
        _ => {
            &&& new == old
            &&& r == TrapOutcome::Panic
        },
    }
}

/// Carries out on the scheduler what the trap's action asks: a fault or an
/// exit ends the current task and switches to the next ready one, a yield
/// suspends it and switches, a write of text is printed and the task goes
/// on; a write of bytes that are not UTF-8 and every unsupported trap make
/// the kernel panic. `written` holds the bytes a write names.
pub fn finish_trap(manager: &mut TaskManager, action: TrapAction, written: &[u8]) -> (r: TrapOutcome)
    requires
        old(manager).wf(),
        action matches TrapAction::Write { len, .. } ==> written@.len() == len,
    ensures
        final(manager).wf(),
        old(manager).only_current_runs() ==> final(manager).only_current_runs(),
        trap_finished(*old(manager), *final(manager), action, written@, r),
{
    match action {
        TrapAction::Write { .. } => {
            if is_utf8(written) {
                TrapOutcome::Print
            } else {
                TrapOutcome::Panic
            }
        },
        TrapAction::IllegalInstruction { .. } | TrapAction::StoreFault { .. } | TrapAction::Exit => {
            match exit_current_and_run_next(manager) {
                Some((from, to)) => TrapOutcome::Switch { from, to },
                None => TrapOutcome::Shutdown,
            }
        },
        TrapAction::Yield => {
            match suspend_current_and_run_next(manager) {
                Some((from, to)) => TrapOutcome::Switch { from, to },
                None => TrapOutcome::Shutdown,
            }
        },
        _ => TrapOutcome::Panic,
    }
}

} // verus!
