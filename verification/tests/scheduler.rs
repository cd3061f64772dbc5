use rcore_kernel::process::{sys_fork, sys_getpid, sys_set_priority, sys_spawn};
use rcore_kernel::task_manager::{Task, TaskManager, BIG_STRIDE};

fn task(pid: usize, priority: usize, stride: usize) -> Task<&'static str> {
    Task { pid, parent: None, priority, stride, return_value: 1, handle: "tcb" }
}

#[test]
fn fetch_from_empty_queue_gives_none() {
    let mut m: TaskManager<&'static str> = TaskManager::new();
    assert!(m.fetch().is_none());
}

#[test]
fn fetch_picks_smallest_stride_and_advances_it() {
    let mut m = TaskManager::new();
    m.add(task(1, 16, 300));
    m.add(task(2, 16, 100));
    m.add(task(3, 2, 200));
    let t = m.fetch().unwrap();
    assert_eq!(t.pid, 2);
    assert_eq!(t.stride, 100 + BIG_STRIDE / 16);
    let t = m.fetch().unwrap();
    assert_eq!(t.pid, 3);
    assert_eq!(t.stride, 200 + 5000);
    let t = m.fetch().unwrap();
    assert_eq!(t.pid, 1);
    assert!(m.fetch().is_none());
}

#[test]
fn fetch_takes_first_of_equal_strides() {
    let mut m = TaskManager::new();
    m.add(task(7, 10, 50));
    m.add(task(8, 10, 50));
    let t = m.fetch().unwrap();
    assert_eq!(t.pid, 7);
    assert_eq!(t.stride, 1050);
    assert_eq!(m.fetch().unwrap().pid, 8);
}

#[test]
fn fetch_with_all_strides_at_max_takes_the_first() {
    let mut m = TaskManager::new();
    m.add(task(1, usize::MAX, usize::MAX));
    m.add(task(2, usize::MAX, usize::MAX));
    let t = m.fetch().unwrap();
    assert_eq!(t.pid, 1);
    assert_eq!(t.stride, usize::MAX);
}

#[test]
fn stride_spread_stays_within_half_big_stride() {
    // all priorities at least 2, strides start equal
    let mut m = TaskManager::new();
    let prios = [2usize, 3, 16];
    let mut strides = [0usize; 3];
    for (i, p) in prios.iter().enumerate() {
        m.add(task(i, *p, 0));
    }
    for _ in 0..300 {
        let t = m.fetch().unwrap();
        strides[t.pid] = t.stride;
        m.add(t);
        let max = *strides.iter().max().unwrap();
        let min = *strides.iter().min().unwrap();
        assert!(max - min <= BIG_STRIDE / 2);
    }
}

#[test]
fn set_priority_below_two_is_refused() {
    let mut t = task(4, 16, 0);
    assert_eq!(sys_set_priority(&mut t, 1), -1);
    assert_eq!(sys_set_priority(&mut t, -5), -1);
    assert_eq!(t.priority, 16);
}

#[test]
fn set_priority_sets_and_returns_it() {
    let mut t = task(4, 16, 0);
    assert_eq!(sys_set_priority(&mut t, 2), 2);
    assert_eq!(t.priority, 2);
    assert_eq!(sys_set_priority(&mut t, 100), 100);
    assert_eq!(t.priority, 100);
}

#[test]
fn getpid_returns_pid() {
    assert_eq!(sys_getpid(&task(42, 16, 0)), 42);
}

#[test]
fn fork_links_child_queues_it_and_returns_its_pid() {
    let mut m = TaskManager::new();
    let mut children: Vec<usize> = vec![3];
    let parent = task(1, 16, 0);
    assert_eq!(sys_fork(&mut m, &mut children, &parent, task(9, 16, 0), 9), 9);
    assert_eq!(children, vec![3, 9]);
    let t = m.fetch().unwrap();
    assert_eq!((t.pid, t.parent, t.return_value), (9, Some(1), 0));
}

#[test]
fn spawn_without_program_fails() {
    let mut m: TaskManager<&'static str> = TaskManager::new();
    let mut children: Vec<usize> = vec![];
    assert_eq!(sys_spawn(&mut m, &mut children, &task(1, 16, 0), None), -1);
    assert!(children.is_empty());
    assert!(m.fetch().is_none());
}

#[test]
fn spawn_links_child_queues_it_and_returns_its_pid() {
    let mut m = TaskManager::new();
    let mut children: Vec<usize> = vec![];
    assert_eq!(sys_spawn(&mut m, &mut children, &task(1, 16, 0), Some((task(11, 16, 0), 11))), 11);
    assert_eq!(children, vec![11]);
    let t = m.fetch().unwrap();
    assert_eq!((t.pid, t.parent), (11, Some(1)));
}
