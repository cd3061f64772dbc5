use rcore_kernel::sync::{mutex_kind, MutexEntry, MutexKind, SemaphoreEntry, SyncTables, ThreadWait, DEADLOCK_ERR};

type Tables = SyncTables<&'static str, usize, &'static str>;

fn idle() -> ThreadWait {
    ThreadWait { waiting_mutex_id: None, waiting_semaphore_id: None }
}

#[test]
fn mutex_create_fills_slots_in_order() {
    let mut t: Tables = SyncTables::new();
    assert_eq!(t.sys_mutex_create(true, "m0"), 0);
    assert_eq!(t.sys_mutex_create(true, "m1"), 1);
    assert_eq!(t.mutex_owner_tid, vec![None, None]);
    t.mutex_list[0] = None;
    assert_eq!(t.sys_mutex_create(true, "m2"), 0);
    assert_eq!(*t.mutex(0), "m2");
    assert_eq!(t.mutex_list.len(), 2);
}

#[test]
fn mutex_create_in_free_slot_pads_owner_table() {
    let mut t: Tables = SyncTables::new();
    t.mutex_list = vec![Some(MutexEntry { kind: MutexKind::Spin, mutex: "a" }), None];
    assert_eq!(t.sys_mutex_create(true, "b"), 1);
    assert_eq!(t.mutex_owner_tid, vec![None, None]);
}

#[test]
fn lock_without_detection_is_never_refused() {
    let mut t: Tables = SyncTables::new();
    t.sys_mutex_create(true, "m0");
    t.sys_mutex_create(true, "m1");
    let mut w = idle();
    assert_eq!(t.sys_mutex_lock(0, 1, &mut w), Ok(()));
    assert_eq!(t.finish_mutex_lock(0, 1, &mut w), 0);
    assert_eq!(t.finish_mutex_lock(1, 2, &mut idle()), 0);
    assert_eq!(t.sys_mutex_lock(1, 1, &mut w), Ok(()));
    assert_eq!(w.waiting_mutex_id, None);
}

#[test]
fn lock_that_closes_a_cycle_is_refused() {
    let mut t: Tables = SyncTables::new();
    t.sys_mutex_create(true, "m0");
    t.sys_mutex_create(true, "m1");
    assert_eq!(t.sys_enable_deadlock_detect(1), 0);
    let mut w1 = idle();
    let mut w2 = idle();
    assert_eq!(t.sys_mutex_lock(0, 1, &mut w1), Ok(()));
    t.finish_mutex_lock(0, 1, &mut w1);
    assert_eq!(t.sys_mutex_lock(1, 2, &mut w2), Ok(()));
    t.finish_mutex_lock(1, 2, &mut w2);
    assert_eq!(t.mutex_owner_tid, vec![Some(1), Some(2)]);
    // thread 1 holds m0 and asks for m1, held by thread 2
    assert_eq!(t.sys_mutex_lock(1, 1, &mut w1), Err(DEADLOCK_ERR));
    assert_eq!(w1.waiting_mutex_id, None);
}

#[test]
fn lock_of_held_mutex_by_thread_holding_nothing_waits() {
    let mut t: Tables = SyncTables::new();
    t.sys_mutex_create(true, "m0");
    t.sys_enable_deadlock_detect(1);
    t.finish_mutex_lock(0, 1, &mut idle());
    let mut w = idle();
    assert_eq!(t.sys_mutex_lock(0, 3, &mut w), Ok(()));
    assert_eq!(w.waiting_mutex_id, Some(0));
}

#[test]
fn unlock_clears_owner() {
    let mut t: Tables = SyncTables::new();
    t.sys_mutex_create(true, "m0");
    t.sys_mutex_create(true, "m1");
    t.sys_enable_deadlock_detect(1);
    t.finish_mutex_lock(0, 1, &mut idle());
    t.finish_mutex_lock(1, 2, &mut idle());
    assert_eq!(t.sys_mutex_unlock(1), 0);
    assert_eq!(t.mutex_owner_tid, vec![Some(1), None]);
    assert_eq!(t.sys_mutex_lock(1, 1, &mut idle()), Ok(()));
}

#[test]
fn finish_lock_pads_owner_table() {
    let mut t: Tables = SyncTables::new();
    let mut w = ThreadWait { waiting_mutex_id: Some(3), waiting_semaphore_id: Some(1) };
    assert_eq!(t.finish_mutex_lock(3, 9, &mut w), 0);
    assert_eq!(t.mutex_owner_tid, vec![None, None, None, Some(9)]);
    assert_eq!(w.waiting_mutex_id, None);
    assert_eq!(w.waiting_semaphore_id, Some(1));
}

#[test]
fn semaphore_create_adds_waiter_list() {
    let mut t: Tables = SyncTables::new();
    assert_eq!(t.sys_semaphore_create(3, 3), 0);
    assert_eq!(t.sys_semaphore_create(1, 1), 1);
    assert_eq!(t.semaphore_waiters.len(), 2);
    assert_eq!(*t.semaphore(0), 3);
    t.semaphore_list[0] = None;
    assert_eq!(t.sys_semaphore_create(5, 5), 0);
    assert_eq!(t.semaphore_waiters.len(), 2);
}

#[test]
fn down_twice_while_waiting_is_refused() {
    let mut t: Tables = SyncTables::new();
    t.sys_semaphore_create(0, 0);
    t.sys_enable_deadlock_detect(1);
    let mut w = idle();
    assert_eq!(t.sys_semaphore_down(0, 4, &mut w), Ok(()));
    assert_eq!(t.semaphore_waiters[0], vec![4]);
    assert_eq!(w.waiting_semaphore_id, Some(0));
    assert_eq!(t.sys_semaphore_down(0, 4, &mut w), Err(DEADLOCK_ERR));
    assert_eq!(t.semaphore_waiters[0], vec![4]);
}

#[test]
fn finished_down_removes_waiter() {
    let mut t: Tables = SyncTables::new();
    t.sys_semaphore_create(1, 1);
    t.sys_enable_deadlock_detect(1);
    let mut w = idle();
    t.sys_semaphore_down(0, 4, &mut w).unwrap();
    assert_eq!(t.finish_semaphore_down(0, 4, &mut w), 0);
    assert!(t.semaphore_waiters[0].is_empty());
    assert_eq!(w.waiting_semaphore_id, None);
    assert_eq!(t.sys_semaphore_down(0, 4, &mut w), Ok(()));
}

#[test]
fn down_without_detection_records_nothing() {
    let mut t: Tables = SyncTables::new();
    t.sys_semaphore_create(1, 1);
    let mut w = idle();
    assert_eq!(t.sys_semaphore_down(0, 4, &mut w), Ok(()));
    assert!(t.semaphore_waiters[0].is_empty());
    assert_eq!(w.waiting_semaphore_id, None);
}

#[test]
fn up_takes_first_waiter_off_the_list() {
    let mut t: Tables = SyncTables::new();
    t.sys_semaphore_create(0, 0);
    t.semaphore_waiters[0] = vec![5, 6, 5, 7];
    assert_eq!(t.sys_semaphore_up(0), 0);
    assert_eq!(t.semaphore_waiters[0], vec![6, 7]);
    t.semaphore_waiters[0] = vec![];
    assert_eq!(t.sys_semaphore_up(0), 0);
    assert!(t.semaphore_waiters[0].is_empty());
}

#[test]
fn condvar_create_signal_and_wait() {
    let mut t: Tables = SyncTables::new();
    assert_eq!(t.sys_condvar_create("c0"), 0);
    assert_eq!(t.sys_condvar_create("c1"), 1);
    t.sys_mutex_create(true, "m0");
    assert_eq!(*t.sys_condvar_signal(1), "c1");
    let (c, m) = t.sys_condvar_wait(0, 0);
    assert_eq!((*c, *m), ("c0", "m0"));
}

#[test]
fn enable_deadlock_detect_accepts_only_zero_and_one() {
    let mut t: Tables = SyncTables::new();
    assert_eq!(t.sys_enable_deadlock_detect(1), 0);
    assert!(t.deadlock_detect_enabled);
    assert_eq!(t.sys_enable_deadlock_detect(2), -1);
    assert!(t.deadlock_detect_enabled);
    assert_eq!(t.sys_enable_deadlock_detect(0), 0);
    assert!(!t.deadlock_detect_enabled);
}

#[test]
fn deadlock_error_value() {
    assert_eq!(DEADLOCK_ERR, -0xDEAD);
}

#[test]
fn mutex_create_records_the_requested_kind() {
    let mut t: Tables = SyncTables::new();
    t.mutex_list = vec![Some(MutexEntry { kind: MutexKind::Spin, mutex: "s" }), None, None];
    t.mutex_owner_tid = vec![None, None, None];
    assert_eq!(t.sys_mutex_create(true, "b"), 1);
    assert_eq!(t.mutex_list.len(), 3);
    assert_eq!(t.mutex_list[0].as_ref().unwrap().kind, MutexKind::Spin);
    assert_eq!(t.mutex_list[1].as_ref().unwrap().kind, MutexKind::Blocking);
    assert_eq!(*t.mutex(1), "b");
    assert!(t.mutex_list[2].is_none());
    assert_eq!(t.mutex_owner_tid, vec![None, None, None]);
    assert_eq!(t.sys_mutex_create(false, "c"), 2);
    assert_eq!(t.mutex_list[2].as_ref().unwrap().kind, MutexKind::Spin);
    assert_eq!(mutex_kind(true), MutexKind::Blocking);
    assert_eq!(mutex_kind(false), MutexKind::Spin);
}

#[test]
fn semaphore_create_records_resource_count() {
    let mut t: Tables = SyncTables::new();
    assert_eq!(t.sys_semaphore_create(4, 40), 0);
    match &t.semaphore_list[0] {
        Some(SemaphoreEntry { res_count, semaphore }) => assert_eq!((*res_count, *semaphore), (4, 40)),
        None => panic!("expected a semaphore"),
    }
}

#[test]
fn owner_table_keeps_step_with_mutex_table() {
    let mut t: Tables = SyncTables::new();
    t.sys_mutex_create(false, "m0");
    t.sys_mutex_create(false, "m1");
    t.finish_mutex_lock(1, 5, &mut idle());
    t.sys_mutex_unlock(1);
    t.mutex_list[1] = None;
    assert_eq!(t.sys_mutex_create(true, "m2"), 1);
    assert_eq!(t.mutex_owner_tid.len(), t.mutex_list.len());
    assert_eq!(t.mutex_owner_tid[1], None);
}
