use lib::task::TaskStatus;
use lib::trap::{clear_spp, finish_trap, trap_handler, TrapAction, TrapContext, TrapOutcome};
use lib::user::{exit, yield_};

fn ecall_context(id: usize, a0: usize, a1: usize, a2: usize) -> TrapContext {
    let mut ctx = TrapContext::app_init_context(0x8040_0000, 0x120, 0x1000);
    ctx.x[17] = id;
    ctx.x[10] = a0;
    ctx.x[11] = a1;
    ctx.x[12] = a2;
    ctx
}

#[test]
fn initial_context() {
    let ctx = TrapContext::app_init_context(0x8040_0000, 0x1_0122, 0x8030_0000);
    assert_eq!(ctx.sepc, 0x8040_0000);
    assert_eq!(ctx.sstatus, 0x1_0022);
    assert_eq!(ctx.x[2], 0x8030_0000);
    assert_eq!(ctx.x[1], 0);
    assert_eq!(clear_spp(0xffff), 0xfeff);
}

#[test]
fn write_to_stdout() {
    let mut ctx = ecall_context(64, 1, 0x8040_1000, 14);
    let a = trap_handler(&mut ctx, 8, 0);
    assert_eq!(a, TrapAction::Write { addr: 0x8040_1000, len: 14 });
    assert_eq!(ctx.sepc, 0x8040_0004);
    assert_eq!(ctx.x[10], 14);
}

#[test]
fn write_to_other_file_is_refused() {
    let mut ctx = ecall_context(64, 2, 0x8040_1000, 14);
    assert_eq!(trap_handler(&mut ctx, 8, 0), TrapAction::UnsupportedFd { fd: 2 });
    assert_eq!(ctx.x[10], 2);
}

#[test]
fn exit_and_yield() {
    let mut ctx = ecall_context(93, 5, 0, 0);
    assert_eq!(trap_handler(&mut ctx, 8, 0), TrapAction::Exit);
    assert_eq!(ctx.x[10], 0);
    let mut ctx = ecall_context(124, 9, 0, 0);
    assert_eq!(trap_handler(&mut ctx, 8, 0), TrapAction::Yield);
    assert_eq!(ctx.x[10], 0);
    assert_eq!(ctx.sepc, 0x8040_0004);
}

#[test]
fn unknown_syscall() {
    let mut ctx = ecall_context(1000, 0, 0, 0);
    assert_eq!(trap_handler(&mut ctx, 8, 0), TrapAction::UnsupportedSyscall { id: 1000 });
}

#[test]
fn faults() {
    let mut ctx = ecall_context(64, 1, 2, 3);
    assert_eq!(trap_handler(&mut ctx, 2, 0xdead), TrapAction::IllegalInstruction { stval: 0xdead });
    assert_eq!(trap_handler(&mut ctx, 7, 0), TrapAction::StoreFault { stval: 0 });
    assert_eq!(trap_handler(&mut ctx, 5, 9), TrapAction::UnsupportedTrap { scause: 5, stval: 9 });
    assert_eq!(ctx.sepc, 0x8040_0000);
    assert_eq!(ctx.x[10], 1);
}

#[test]
fn user_calls_reach_the_kernel_as_issued() {
    let w = lib::user::write(1, 0x8040_2000, 5);
    assert_eq!(w.id, 64);
    assert_eq!(w.args, [1, 0x8040_2000, 5]);
    let mut ctx = ecall_context(w.id, w.args[0], w.args[1], w.args[2]);
    assert_eq!(trap_handler(&mut ctx, 8, 0), TrapAction::Write { addr: 0x8040_2000, len: 5 });
    let e = exit(-1);
    assert_eq!(e.id, 93);
    assert_eq!(e.args[0], usize::MAX);
    let mut ctx = ecall_context(e.id, e.args[0], e.args[1], e.args[2]);
    assert_eq!(trap_handler(&mut ctx, 8, 0), TrapAction::Exit);
    let y = yield_();
    assert_eq!(y.id, 124);
    let mut ctx = ecall_context(y.id, y.args[0], y.args[1], y.args[2]);
    assert_eq!(trap_handler(&mut ctx, 8, 0), TrapAction::Yield);
}

fn manager_with_three() -> lib::task::TaskManager {
    let mut m = lib::task::TaskManager::new(3);
    for i in 0..3 {
        m.init_task(i, 0x8020_0000, 0x8030_0000 + i * 0x1000);
    }
    lib::task::run(&mut m);
    m
}

#[test]
fn finishing_writes() {
    let mut m = manager_with_three();
    let text = b"Hello, world!\n";
    let a = TrapAction::Write { addr: 0x8040_1000, len: text.len() };
    assert_eq!(finish_trap(&mut m, a, text), TrapOutcome::Print);
    assert_eq!(m.current_task(), 0);
    let bad = [0xffu8, 0x41];
    let a = TrapAction::Write { addr: 0x8040_1000, len: 2 };
    assert_eq!(finish_trap(&mut m, a, &bad), TrapOutcome::Panic);
    let overlong = [0xc0u8, 0x80];
    assert_eq!(finish_trap(&mut m, a, &overlong), TrapOutcome::Panic);
    let two_byte = "é".as_bytes();
    let a = TrapAction::Write { addr: 0, len: two_byte.len() };
    assert_eq!(finish_trap(&mut m, a, two_byte), TrapOutcome::Print);
}

#[test]
fn finishing_exit_and_yield() {
    let mut m = manager_with_three();
    assert_eq!(finish_trap(&mut m, TrapAction::Yield, &[]), TrapOutcome::Switch { from: 0, to: 1 });
    assert_eq!(m.status(0), TaskStatus::Ready);
    assert_eq!(finish_trap(&mut m, TrapAction::Exit, &[]), TrapOutcome::Switch { from: 1, to: 0 });
    assert_eq!(m.status(1), TaskStatus::Exited);
    assert_eq!(
        finish_trap(&mut m, TrapAction::IllegalInstruction { stval: 0 }, &[]),
        TrapOutcome::Switch { from: 0, to: 2 }
    );
    assert_eq!(finish_trap(&mut m, TrapAction::StoreFault { stval: 0 }, &[]), TrapOutcome::Shutdown);
    for i in 0..3 {
        assert_eq!(m.status(i), TaskStatus::Exited);
    }
}

#[test]
fn finishing_unsupported() {
    let mut m = manager_with_three();
    assert_eq!(finish_trap(&mut m, TrapAction::UnsupportedFd { fd: 3 }, &[]), TrapOutcome::Panic);
    assert_eq!(finish_trap(&mut m, TrapAction::UnsupportedSyscall { id: 9 }, &[]), TrapOutcome::Panic);
    assert_eq!(
        finish_trap(&mut m, TrapAction::UnsupportedTrap { scause: 1, stval: 0 }, &[]),
        TrapOutcome::Panic
    );
    assert_eq!(m.current_task(), 0);
}

#[test]
fn trap_context_below_stack_top() {
    assert_eq!(lib::task::trap_context_address(0x8030_0000, 34 * 8), 0x8030_0000 - 272);
}
