//! Process system calls: time, priority, fork and spawn, waiting for a child,
//! and mapping and unmapping anonymous memory.
use vstd::prelude::*;
use crate::task_manager::{Task, TaskManager};

verus! {

/// A time as seconds and microseconds.
pub struct TimeVal {
    pub sec: usize,
    pub usec: usize,
}

impl TimeVal {
    /// The time `us` microseconds after the epoch, split into whole seconds
    /// and the microseconds left over.
    pub fn from_us(us: usize) -> (tv: TimeVal)
        ensures
            tv.sec == us / 1_000_000,
            tv.usec == us % 1_000_000,
            tv.usec < 1_000_000,
            tv.sec * 1_000_000 + tv.usec == us,
    {
        let tv = TimeVal { sec: us / 1_000_000, usec: us % 1_000_000 };
        assert(tv.sec * 1_000_000 + tv.usec == us) by (nonlinear_arith)
            requires
                tv.sec == us / 1_000_000,
                tv.usec == us % 1_000_000,
        ;
        tv
    }
}

/// The time at which a thread that sleeps `ms` milliseconds from `now_ms`
/// is woken up.
pub fn sys_sleep(now_ms: usize, ms: usize) -> (expire_ms: usize)
    requires
        now_ms + ms <= usize::MAX,
    ensures
        expire_ms == now_ms + ms,
{
    now_ms + ms
}

/// The pid of `task`, as the system call returns it.
pub fn sys_getpid<T>(task: &Task<T>) -> (r: isize)
    ensures
        r == task.pid as isize,
{
    task.pid as isize
}

/// Sets the priority of `task` to `prio` and returns it; a priority below 2
/// is refused with -1 and changes nothing.
pub fn sys_set_priority<T>(task: &mut Task<T>, prio: isize) -> (r: isize)
    ensures
        prio < 2 ==> r == -1 && *final(task) == *old(task),
        prio >= 2 ==> r == prio && *final(task) == (Task { priority: prio as usize, ..*old(task) }),
{
    if prio < 2 {
        return -1;
    }
    task.priority = prio as usize;
    prio
}

/// Finishes a fork by `current`: the child, made as a copy of `current`, gets
/// `current` as its parent and sees 0 returned from the call; `link` (the
/// parent's reference to it) joins the end of the parent's children; the
/// child joins the back of the ready queue; and its pid is returned.
pub fn sys_fork<T, C>(
    manager: &mut TaskManager<T>,
    children: &mut Vec<C>,
    current: &Task<T>,
    child: Task<T>,
    link: C,
) -> (r: isize)
    ensures
        r == child.pid as isize,
        final(manager)@ == old(manager)@.push(
            Task { parent: Some(current.pid), return_value: 0, ..child },
        ),
        final(children)@ == old(children)@.push(link),
{
    let mut child = child;
    let new_pid = child.pid;
    child.parent = Some(current.pid);
    child.return_value = 0;
    children.push(link);
    manager.add(child);
    new_pid as isize
}

/// Finishes a spawn by `current`: -1, and no change, when no program was found.
/// Otherwise the new task gets `current` as its parent, `link` (the parent's
/// reference to it) joins the end of the parent's children, the task joins the
/// back of the ready queue, and its pid is returned.
pub fn sys_spawn<T, C>(
    manager: &mut TaskManager<T>,
    children: &mut Vec<C>,
    current: &Task<T>,
    new_task: Option<(Task<T>, C)>,
) -> (r: isize)
    ensures
        new_task is None ==> {
            &&& r == -1
            &&& final(manager)@ == old(manager)@
            &&& final(children)@ == old(children)@
        },
        new_task is Some ==> {
            let (t, link) = new_task->0;
            &&& r == t.pid as isize
            &&& final(manager)@ == old(manager)@.push(Task { parent: Some(current.pid), ..t })
            &&& final(children)@ == old(children)@.push(link)
        },
{
    match new_task {
        Some((task, link)) => {
            let mut task = task;
            let new_pid = task.pid;
            task.parent = Some(current.pid);
            children.push(link);
            manager.add(task);
            new_pid as isize
        },
        None => -1,
    }
}

/// What a waiting parent sees of one of its children.
pub struct ChildInfo {
    pub pid: usize,
    pub zombie: bool,
    pub exit_code: i32,
}

/// The outcome of waiting for a child.
pub enum WaitOutcome {
    /// No child matches the requested pid.
    NoChild,
    /// Some child matches, but none of them has exited.
    StillRunning,
    /// The child at `index` has exited and is to be reaped.
    Reaped { index: usize, pid: usize, exit_code: i32 },
}

impl WaitOutcome {
    /// The value that the system call returns: -1, -2, or the reaped child's pid.
    pub fn code(&self) -> (r: isize)
        ensures
            r == match *self {
                WaitOutcome::NoChild => -1isize,
                WaitOutcome::StillRunning => -2isize,
                WaitOutcome::Reaped { pid, .. } => pid as isize,
            },
    {
        match self {
            WaitOutcome::NoChild => -1,
            WaitOutcome::StillRunning => -2,
            WaitOutcome::Reaped { pid, .. } => *pid as isize,
        }
    }
}

/// Takes the reaped child, if the wait reaped one, off the parent's children
/// (the others keep their order) and hands it over.
pub fn reap_child<C>(children: &mut Vec<C>, outcome: &WaitOutcome) -> (r: Option<C>)
    requires
        outcome matches WaitOutcome::Reaped { index, .. } ==> index < old(children)@.len(),
    ensures
        match *outcome {
            WaitOutcome::Reaped { index, .. } => {
                &&& r == Some(old(children)@[index as int])
                &&& final(children)@ == old(children)@.remove(index as int)
            },
            _ => r is None && final(children)@ == old(children)@,
        },
{
    match outcome {
        WaitOutcome::Reaped { index, .. } => Some(children.remove(*index)),
        _ => None,
    }
}

/// A child of pid `child_pid` is one that a wait for `pid` accepts:
/// -1 accepts every child.
pub open spec fn pid_matches(pid: isize, child_pid: usize) -> bool {
    pid == -1 || pid as usize == child_pid
}

/// Some child in `c` matches `pid`.
pub open spec fn has_matching_child(c: Seq<ChildInfo>, pid: isize) -> bool {
    exists|i: int| 0 <= i < c.len() && pid_matches(pid, #[trigger] c[i].pid)
}

/// The child at `i` has exited and matches `pid`.
pub open spec fn reapable(c: Seq<ChildInfo>, pid: isize, i: int) -> bool {
    c[i].zombie && pid_matches(pid, c[i].pid)
}

/// A wait accepts a child exactly when the child has exited and its pid is the
/// one asked for (any pid for -1), whatever its exit code.
pub proof fn lemma_reapable_is_exited_and_matching(c: Seq<ChildInfo>, pid: isize, i: int)
    ensures
        reapable(c, pid, i) <==> (c[i].zombie && (pid == -1 || pid as usize == c[i].pid)),
        pid_matches(pid, c[i].pid) <==> (pid == -1 || pid as usize == c[i].pid),
{
}

/// What a wait does, in terms of the children alone: with no child of the
/// requested pid the outcome is `NoChild`; when some child of that pid has
/// exited, whatever its exit code, the outcome reaps the first such child,
/// with its pid and exit code; otherwise it is `StillRunning`.
pub proof fn lemma_waitpid_outcome(c: Seq<ChildInfo>, pid: isize, r: WaitOutcome)
    requires
        r is NoChild <==> !has_matching_child(c, pid),
        r is StillRunning <==> has_matching_child(c, pid) && forall|i: int|
            0 <= i < c.len() ==> !reapable(c, pid, i),
        r matches WaitOutcome::Reaped { index, pid: p, exit_code } ==> {
            &&& index < c.len()
            &&& reapable(c, pid, index as int)
            &&& forall|j: int| 0 <= j < index ==> !reapable(c, pid, j)
            &&& p == c[index as int].pid
            &&& exit_code == c[index as int].exit_code
        },
    ensures
        (r is NoChild) <==> (forall|i: int| 0 <= i < c.len() ==> !pid_matches(pid, #[trigger] c[i].pid)),
        (exists|i: int| 0 <= i < c.len() && #[trigger] c[i].zombie && pid_matches(pid, c[i].pid))
            ==> r is Reaped,
        r matches WaitOutcome::Reaped { index, pid: p, exit_code } ==> {
            &&& index < c.len()
            &&& c[index as int].zombie
            &&& pid_matches(pid, c[index as int].pid)
            &&& forall|j: int| 0 <= j < index ==> !(#[trigger] c[j].zombie && pid_matches(pid, c[j].pid))
            &&& p == c[index as int].pid
            &&& exit_code == c[index as int].exit_code
        },
{
    if exists|i: int| 0 <= i < c.len() && #[trigger] c[i].zombie && pid_matches(pid, c[i].pid) {
        let i = choose|i: int| 0 <= i < c.len() && #[trigger] c[i].zombie && pid_matches(pid, c[i].pid);
        assert(reapable(c, pid, i));
        assert(has_matching_child(c, pid));
    }
    if let WaitOutcome::Reaped { index, .. } = r {
        assert forall|j: int| 0 <= j < index implies !(#[trigger] c[j].zombie && pid_matches(pid, c[j].pid)) by {
            assert(!reapable(c, pid, j));
        }
    }
}

/// Waits for a child of pid `pid` (-1: any child). If no child matches, the
/// outcome is `NoChild`; if children match but none has exited, it is
/// `StillRunning`; otherwise it is the first exited matching child, with its
/// pid and exit code.
pub fn sys_waitpid(children: &Vec<ChildInfo>, pid: isize) -> (r: WaitOutcome)
    ensures
        r is NoChild <==> !has_matching_child(children@, pid),
        r is StillRunning <==> has_matching_child(children@, pid) && forall|i: int|
            0 <= i < children@.len() ==> !reapable(children@, pid, i),
        r matches WaitOutcome::Reaped { index, pid: p, exit_code } ==> {
            &&& index < children@.len()
            &&& reapable(children@, pid, index as int)
            &&& forall|j: int| 0 <= j < index ==> !reapable(children@, pid, j)
            &&& p == children@[index as int].pid
            &&& exit_code == children@[index as int].exit_code
        },
{
    let mut i: usize = 0;
    let mut found = false;
    while i < children.len()
        invariant
            i <= children@.len(),
            found == exists|j: int| 0 <= j < i && pid_matches(pid, #[trigger] children@[j].pid),
        decreases children@.len() - i,
    {
        let m = pid == -1 || (#[verifier::truncate] (pid as usize)) == children[i].pid;
        assert(m == pid_matches(pid, children@[i as int].pid));
        if m {
            found = true;
        }
        proof {
            if !m {
                assert forall|j: int| 0 <= j < i + 1 && #[trigger] pid_matches(pid, children@[j].pid) implies j < i by {}
            }
        }
        i = i + 1;
    }
    if !found {
        return WaitOutcome::NoChild;
    }
    let mut k: usize = 0;
    while k < children.len()
        invariant
            k <= children@.len(),
            has_matching_child(children@, pid),
            forall|j: int| 0 <= j < k ==> !reapable(children@, pid, j),
        decreases children@.len() - k,
    {
        if children[k].zombie && (pid == -1 || (#[verifier::truncate] (pid as usize)) == children[k].pid) {
            assert(reapable(children@, pid, k as int));
            return WaitOutcome::Reaped {
                index: k,
                pid: children[k].pid,
                exit_code: children[k].exit_code,
            };
        }
        k = k + 1;
    }
    WaitOutcome::StillRunning
}

} // verus!
