use lib::task::{
    app_base_address, exit_current_and_run_next, run, suspend_current_and_run_next, TaskContext,
    TaskManager, TaskStatus,
};

fn three_ready() -> TaskManager {
    let mut m = TaskManager::new(3);
    for i in 0..3 {
        m.init_task(i, 0x8020_0000, 0x8030_0000 + i * 0x1000);
    }
    m
}

#[test]
fn new_manager_has_nothing_set_up() {
    let m = TaskManager::new(3);
    assert_eq!(m.num_app(), 3);
    assert_eq!(m.current_task(), 0);
    for i in 0..16 {
        assert_eq!(m.status(i), TaskStatus::UnInit);
    }
    let c = TaskContext::zero();
    assert_eq!(c.ra, 0);
    assert_eq!(c.s, [0; 12]);
}

#[test]
fn round_of_yields() {
    let mut m = three_ready();
    assert_eq!(run(&mut m), 0);
    assert_eq!(m.status(0), TaskStatus::Running);
    assert_eq!(suspend_current_and_run_next(&mut m), Some((0, 1)));
    assert_eq!(m.status(0), TaskStatus::Ready);
    assert_eq!(m.status(1), TaskStatus::Running);
    // the lowest ready task other than the current one is picked
    assert_eq!(suspend_current_and_run_next(&mut m), Some((1, 0)));
    assert_eq!(m.current_task(), 0);
}

#[test]
fn exited_tasks_never_run_again() {
    let mut m = three_ready();
    run(&mut m);
    assert_eq!(exit_current_and_run_next(&mut m), Some((0, 1)));
    assert_eq!(m.status(0), TaskStatus::Exited);
    assert_eq!(exit_current_and_run_next(&mut m), Some((1, 2)));
    // only the current task is left: yielding keeps it
    assert_eq!(suspend_current_and_run_next(&mut m), Some((2, 2)));
    assert_eq!(m.status(2), TaskStatus::Running);
    assert_eq!(exit_current_and_run_next(&mut m), None);
    for i in 0..3 {
        assert_eq!(m.status(i), TaskStatus::Exited);
    }
}

#[test]
fn at_most_one_task_runs() {
    let mut m = three_ready();
    run(&mut m);
    for _ in 0..5 {
        suspend_current_and_run_next(&mut m);
        let running = (0..16).filter(|&i| m.status(i) == TaskStatus::Running).count();
        assert_eq!(running, 1);
        assert_eq!(m.status(m.current_task()), TaskStatus::Running);
    }
}

#[test]
fn application_slots() {
    assert_eq!(app_base_address(0), 0x8040_0000);
    assert_eq!(app_base_address(2), 0x8044_0000);
}

#[test]
fn set_up_task_context() {
    let m = three_ready();
    let c = m.context(2);
    assert_eq!(c.ra, 0x8020_0000);
    assert_eq!(c.sp, 0x8030_2000);
    assert_eq!(m.status(2), TaskStatus::Ready);
    assert_eq!(m.status(3), TaskStatus::UnInit);
}
