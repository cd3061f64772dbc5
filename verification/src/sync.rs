//! Per-process tables of mutexes, semaphores and condition variables, with the
//! bookkeeping that the deadlock check reads.
//!
//! The blocking operations themselves (locking a mutex, waiting on a
//! semaphore or a condition variable) happen outside: each system call that
//! blocks is split into the decision taken before it and the bookkeeping done
//! after it.
use vstd::prelude::*;
use crate::slots::{free_slot, is_free_slot, pad_with_none, padded_none, placed};

verus! {

/// What a refused lock or down request returns.
pub const DEADLOCK_ERR: isize = -0xDEAD;

/// What a thread is blocked on, as the deadlock check records it.
pub struct ThreadWait {
    pub waiting_mutex_id: Option<usize>,
    pub waiting_semaphore_id: Option<usize>,
}

/// The two kinds of mutex: one that spins until it is free, and one that
/// puts the waiting thread to sleep.
#[derive(PartialEq, Eq, Structural, Clone, Copy, Debug)]
pub enum MutexKind {
    Spin,
    Blocking,
}

/// The kind of mutex that a create request asks for.
pub open spec fn kind_for(blocking: bool) -> MutexKind {
    if blocking {
        MutexKind::Blocking
    } else {
        MutexKind::Spin
    }
}

/// The kind of mutex that a create request asks for: a blocking one when
/// `blocking`, a spinning one otherwise.
pub fn mutex_kind(blocking: bool) -> (k: MutexKind)
    ensures
        k == kind_for(blocking),
{
    if !blocking {
        MutexKind::Spin
    } else {
        MutexKind::Blocking
    }
}

/// A mutex of the process, with its kind.
pub struct MutexEntry<M> {
    pub kind: MutexKind,
    pub mutex: M,
}

/// A semaphore of the process, with the resource count it was created with.
pub struct SemaphoreEntry<S> {
    pub res_count: usize,
    pub semaphore: S,
}

/// The synchronisation state of one process. `M`, `S` and `C` are the mutex,
/// semaphore and condition-variable objects; the tables only store them.
pub struct SyncTables<M, S, C> {
    pub mutex_list: Vec<Option<MutexEntry<M>>>,
    /// For each mutex id, the thread that last acquired it, if it still holds it.
    pub mutex_owner_tid: Vec<Option<usize>>,
    pub semaphore_list: Vec<Option<SemaphoreEntry<S>>>,
    /// For each semaphore id, the threads recorded as waiting on it.
    pub semaphore_waiters: Vec<Vec<usize>>,
    pub condvar_list: Vec<Option<C>>,
    pub deadlock_detect_enabled: bool,
}

/// `w`, lengthened with empty waiter lists to at least `n` entries.
pub open spec fn padded_empty(w: Seq<Seq<usize>>, n: int) -> Seq<Seq<usize>> {
    if w.len() >= n {
        w
    } else {
        w + Seq::new((n - w.len()) as nat, |k: int| Seq::<usize>::empty())
    }
}

/// The waiter lists of `s`, each as a sequence of thread ids.
pub open spec fn waiter_lists(s: Seq<Vec<usize>>) -> Seq<Seq<usize>> {
    s.map_values(|w: Vec<usize>| w@)
}

/// `w` with every occurrence of `tid` taken out, the rest in order.
pub open spec fn without(w: Seq<usize>, tid: usize) -> Seq<usize> {
    w.filter(|t: usize| t != tid)
}

/// Some mutex is recorded as held by `tid`.
pub open spec fn holds_some(owners: Seq<Option<usize>>, tid: usize) -> bool {
    exists|k: int| 0 <= k < owners.len() && owners[k] == Some(tid)
}


/// Taking `tid` off a waiter list keeps exactly the other threads: `x` is in
/// the result just when it was in `w` and is not `tid`, and the list does not
/// grow.
pub proof fn lemma_without_keeps_others(w: Seq<usize>, tid: usize)
    ensures
        forall|x: usize| #[trigger] without(w, tid).contains(x) <==> (w.contains(x) && x != tid),
        without(w, tid).len() <= w.len(),
        !w.contains(tid) ==> without(w, tid) == w,
    decreases w.len(),
{
    reveal(Seq::filter);
    if w.len() == 0 {
        assert(without(w, tid) =~= w);
    } else {
        let d = w.drop_last();
        let a = w.last();
        lemma_without_keeps_others(d, tid);
        let sub = without(d, tid);
        assert(without(w, tid) == if a != tid { sub.push(a) } else { sub });
        assert(d.push(a) =~= w);
        assert forall|x: usize| #[trigger] without(w, tid).contains(x) <==> (w.contains(x) && x != tid) by {
            if without(w, tid).contains(x) {
                let r = without(w, tid);
                let i = choose|i: int| 0 <= i < r.len() && r[i] == x;
                if a != tid && i == sub.len() {
                    assert(w[w.len() - 1] == x);
                } else {
                    assert(sub[i] == x);
                    assert(sub.contains(x));
                    let j = choose|j: int| 0 <= j < d.len() && d[j] == x;
                    assert(w[j] == x);
                }
            }
            if w.contains(x) && x != tid {
                let j = choose|j: int| 0 <= j < w.len() && w[j] == x;
                if j == w.len() - 1 {
                    assert(a == x);
                    assert(without(w, tid)[sub.len() as int] == x);
                } else {
                    assert(d[j] == x);
                    assert(d.contains(x));
                    assert(sub.contains(x));
                    let i = choose|i: int| 0 <= i < sub.len() && sub[i] == x;
                    if a != tid {
                        assert(sub.push(a)[i] == x);
                    }
                }
            }
        }
        if !w.contains(tid) {
            assert(!d.contains(tid)) by {
                if d.contains(tid) {
                    let j = choose|j: int| 0 <= j < d.len() && d[j] == tid;
                    assert(w[j] == tid);
                }
            }
            assert(a != tid) by {
                if a == tid {
                    assert(w[w.len() - 1] == tid);
                }
            }
        }
    }
}

/// Whether `w` holds `tid`.
fn holds_tid(w: &Vec<usize>, tid: usize) -> (r: bool)
    ensures
        r == w@.contains(tid),
{
    let mut i: usize = 0;
    while i < w.len()
        invariant
            i <= w@.len(),
            forall|j: int| 0 <= j < i ==> w@[j] != tid,
        decreases w@.len() - i,
    {
        if w[i] == tid {
            assert(w@[i as int] == tid);
            return true;
        }
        i = i + 1;
    }
    false
}

/// A copy of `w` without any occurrence of `tid`.
fn copy_without(w: &Vec<usize>, tid: usize) -> (r: Vec<usize>)
    ensures
        r@ == without(w@, tid),
{
    let mut out: Vec<usize> = Vec::new();
    let mut i: usize = 0;
    while i < w.len()
        invariant
            i <= w@.len(),
            out@ == without(w@.take(i as int), tid),
        decreases w@.len() - i,
    {
        proof {
            assert(w@.take(i as int + 1).drop_last() =~= w@.take(i as int));
            assert(w@.take(i as int + 1).last() == w@[i as int]);
        }
        let x = w[i];
        if x != tid {
            out.push(x);
        }
        proof {
            reveal(Seq::filter);
        }
        i = i + 1;
    }
    proof {
        assert(w@.take(w@.len() as int) =~= w@);
    }
    out
}

/// A copy of `w` with `tid` added at the end.
fn copy_pushed(w: &Vec<usize>, tid: usize) -> (r: Vec<usize>)
    ensures
        r@ == w@.push(tid),
{
    let mut out: Vec<usize> = Vec::new();
    let mut i: usize = 0;
    while i < w.len()
        invariant
            i <= w@.len(),
            out@ == w@.take(i as int),
        decreases w@.len() - i,
    {
        out.push(w[i]);
        proof {
            assert(out@ =~= w@.take(i as int + 1));
        }
        i = i + 1;
    }
    out.push(tid);
    proof {
        assert(w@.take(w@.len() as int) =~= w@);
    }
    out
}

/// Lengthens `v` with empty waiter lists until it has at least `n` of them.
fn pad_with_empty(v: &mut Vec<Vec<usize>>, n: usize)
    ensures
        waiter_lists(final(v)@) == padded_empty(waiter_lists(old(v)@), n as int),
        final(v)@.len() >= n,
        final(v)@.len() >= old(v)@.len(),
{
    let ghost s = waiter_lists(v@);
    while v.len() < n
        invariant
            waiter_lists(v@).len() >= s.len(),
            waiter_lists(v@) == padded_empty(s, waiter_lists(v@).len() as int),
            v@.len() <= s.len() || v@.len() <= n,
            v@.len() == s.len() || v@.len() <= n,
            waiter_lists(v@).len() == v@.len(),
            s.len() <= v@.len(),
        decreases n - v@.len(),
    {
        let ghost before = waiter_lists(v@);
        v.push(Vec::new());
        proof {
            assert(waiter_lists(v@) =~= before.push(Seq::<usize>::empty()));
            assert(waiter_lists(v@) =~= padded_empty(s, waiter_lists(v@).len() as int));
        }
    }
    proof {
        assert(waiter_lists(v@) =~= padded_empty(s, n as int));
    }
}

impl<M, S, C> SyncTables<M, S, C> {
    /// Empty tables, with deadlock detection off.
    pub fn new() -> (r: Self)
        ensures
            r.mutex_list@.len() == 0,
            r.mutex_owner_tid@.len() == 0,
            r.semaphore_list@.len() == 0,
            r.semaphore_waiters@.len() == 0,
            r.condvar_list@.len() == 0,
            !r.deadlock_detect_enabled,
    {
        SyncTables {
            mutex_list: Vec::new(),
            mutex_owner_tid: Vec::new(),
            semaphore_list: Vec::new(),
            semaphore_waiters: Vec::new(),
            condvar_list: Vec::new(),
            deadlock_detect_enabled: false,
        }
    }

    /// `id` names a mutex of this process.
    pub open spec fn has_mutex(&self, id: usize) -> bool {
        id < self.mutex_list@.len() && self.mutex_list@[id as int] is Some
    }

    /// `id` names a semaphore of this process.
    pub open spec fn has_semaphore(&self, id: usize) -> bool {
        id < self.semaphore_list@.len() && self.semaphore_list@[id as int] is Some
    }

    /// `id` names a condition variable of this process.
    pub open spec fn has_condvar(&self, id: usize) -> bool {
        id < self.condvar_list@.len() && self.condvar_list@[id as int] is Some
    }

    /// With detection on, `tid` asks for mutex `id`, which another thread holds.
    pub open spec fn waits_for_other_owner(&self, id: usize, tid: usize) -> bool {
        &&& self.deadlock_detect_enabled
        &&& id < self.mutex_owner_tid@.len()
        &&& self.mutex_owner_tid@[id as int] is Some
        &&& self.mutex_owner_tid@[id as int]->0 != tid
    }

    /// A lock request is refused when it would make `tid` wait for another
    /// thread while `tid` itself holds a mutex.
    pub open spec fn mutex_lock_refused(&self, id: usize, tid: usize) -> bool {
        self.waits_for_other_owner(id, tid) && holds_some(self.mutex_owner_tid@, tid)
    }

    /// A down request is refused when detection is on and `tid` is already
    /// recorded as waiting on the semaphore.
    pub open spec fn semaphore_down_refused(&self, id: usize, tid: usize) -> bool {
        &&& self.deadlock_detect_enabled
        &&& id < self.semaphore_waiters@.len()
        &&& self.semaphore_waiters@[id as int]@.contains(tid)
    }

    /// Stores a new mutex, of the kind that `blocking` asks for, in the first
    /// free slot, or at the end, and returns its id. The owner table gets an
    /// empty entry for it. `mutex` is the new, unlocked mutex object of that kind.
    pub fn sys_mutex_create(&mut self, blocking: bool, mutex: M) -> (r: isize)
        requires
            old(self).mutex_list@.len() < isize::MAX,
        ensures
            r >= 0,
            is_free_slot(old(self).mutex_list@, r as int),
            final(self).mutex_list@ == placed(
                old(self).mutex_list@,
                r as int,
                MutexEntry { kind: kind_for(blocking), mutex },
            ),
            final(self).mutex_owner_tid@ == if (r as int) < old(self).mutex_list@.len() {
                padded_none(old(self).mutex_owner_tid@, r + 1)
            } else {
                old(self).mutex_owner_tid@.push(None)
            },
            final(self).semaphore_list@ == old(self).semaphore_list@,
            final(self).semaphore_waiters@ == old(self).semaphore_waiters@,
            final(self).condvar_list@ == old(self).condvar_list@,
            final(self).deadlock_detect_enabled == old(self).deadlock_detect_enabled,
    {
        let entry = MutexEntry { kind: mutex_kind(blocking), mutex };
        let id = free_slot(&self.mutex_list);
        if id < self.mutex_list.len() {
            self.mutex_list.set(id, Some(entry));
            pad_with_none(&mut self.mutex_owner_tid, id + 1);
            id as isize
        } else {
            self.mutex_list.push(Some(entry));
            self.mutex_owner_tid.push(None);
            (self.mutex_list.len() - 1) as isize
        }
    }

    /// The decision taken before thread `tid` blocks on mutex `id`.
    /// With detection on, a request that waits for another thread's mutex while
    /// `tid` holds one is refused with `DEADLOCK_ERR`; a request that waits for
    /// another thread records mutex `id` as what `tid` waits on.
    pub fn sys_mutex_lock(&self, id: usize, tid: usize, wait: &mut ThreadWait) -> (r: Result<
        (),
        isize,
    >)
        requires
            self.has_mutex(id),
        ensures
            r is Err <==> self.mutex_lock_refused(id, tid),
            r is Err <==> {
                &&& self.deadlock_detect_enabled
                &&& id < self.mutex_owner_tid@.len()
                &&& self.mutex_owner_tid@[id as int] is Some
                &&& self.mutex_owner_tid@[id as int] != Some(tid)
                &&& exists|k: int|
                    0 <= k < self.mutex_owner_tid@.len() && #[trigger] self.mutex_owner_tid@[k]
                        == Some(tid)
            },
            (forall|k: int|
                0 <= k < self.mutex_owner_tid@.len() ==> #[trigger] self.mutex_owner_tid@[k] != Some(
                    tid,
                )) ==> r is Ok,
            r is Err ==> r == Err::<(), isize>(DEADLOCK_ERR),
            final(wait).waiting_mutex_id == if r is Ok && self.waits_for_other_owner(id, tid) {
                Some(id)
            } else {
                old(wait).waiting_mutex_id
            },
            final(wait).waiting_semaphore_id == old(wait).waiting_semaphore_id,
    {
        if self.deadlock_detect_enabled && id < self.mutex_owner_tid.len() {
            if let Some(owner) = self.mutex_owner_tid[id] {
                if owner != tid {
                    let mut k: usize = 0;
                    while k < self.mutex_owner_tid.len()
                        invariant
                            self.waits_for_other_owner(id, tid),
                            k <= self.mutex_owner_tid@.len(),
                            forall|j: int| 0 <= j < k ==> self.mutex_owner_tid@[j] != Some(tid),
                        decreases self.mutex_owner_tid@.len() - k,
                    {
                        if self.mutex_owner_tid[k] == Some(tid) {
                            assert(self.mutex_owner_tid@[k as int] == Some(tid));
                            return Err(DEADLOCK_ERR);
                        }
                        k = k + 1;
                    }
                    wait.waiting_mutex_id = Some(id);
                }
            }
        }
        Ok(())
    }

    /// The bookkeeping after thread `tid` has acquired mutex `id`: it is
    /// recorded as the owner, and as waiting on no mutex. Returns 0.
    pub fn finish_mutex_lock(&mut self, id: usize, tid: usize, wait: &mut ThreadWait) -> (r: isize)
        requires
            id < usize::MAX,
        ensures
            r == 0,
            final(self).mutex_owner_tid@ == padded_none(old(self).mutex_owner_tid@, id + 1).update(
                id as int,
                Some(tid),
            ),
            final(self).mutex_list@ == old(self).mutex_list@,
            final(self).semaphore_list@ == old(self).semaphore_list@,
            final(self).semaphore_waiters@ == old(self).semaphore_waiters@,
            final(self).condvar_list@ == old(self).condvar_list@,
            final(self).deadlock_detect_enabled == old(self).deadlock_detect_enabled,
            final(wait).waiting_mutex_id is None,
            final(wait).waiting_semaphore_id == old(wait).waiting_semaphore_id,
    {
        pad_with_none(&mut self.mutex_owner_tid, id + 1);
        self.mutex_owner_tid.set(id, Some(tid));
        wait.waiting_mutex_id = None;
        0
    }
    /// The mutex with id `id`.
    pub fn mutex(&self, id: usize) -> (r: &M)
        requires
            self.has_mutex(id),
        ensures
            *r == self.mutex_list@[id as int]->0.mutex,
    {
        &self.mutex_list[id].as_ref().unwrap().mutex
    }

    /// The semaphore with id `id`.
    pub fn semaphore(&self, id: usize) -> (r: &S)
        requires
            self.has_semaphore(id),
        ensures
            *r == self.semaphore_list@[id as int]->0.semaphore,
    {
        &self.semaphore_list[id].as_ref().unwrap().semaphore
    }

    /// The bookkeeping after mutex `id` has been unlocked: it is recorded as held
    /// by no thread. Returns 0.
    pub fn sys_mutex_unlock(&mut self, id: usize) -> (r: isize)
        requires
            old(self).has_mutex(id),
        ensures
            r == 0,
            final(self).mutex_owner_tid@ == if id < old(self).mutex_owner_tid@.len() {
                old(self).mutex_owner_tid@.update(id as int, None)
            } else {
                old(self).mutex_owner_tid@
            },
            final(self).mutex_list@ == old(self).mutex_list@,
            final(self).semaphore_list@ == old(self).semaphore_list@,
            final(self).semaphore_waiters@ == old(self).semaphore_waiters@,
            final(self).condvar_list@ == old(self).condvar_list@,
            final(self).deadlock_detect_enabled == old(self).deadlock_detect_enabled,
    {
        if id < self.mutex_owner_tid.len() {
            self.mutex_owner_tid.set(id, None);
        }
        0
    }

    /// Stores a new semaphore with `res_count` resources in the first free
    /// slot, or at the end, and returns its id. The waiter table gets an empty
    /// list for it. `sem` is the new semaphore object with that count.
    pub fn sys_semaphore_create(&mut self, res_count: usize, sem: S) -> (r: isize)
        requires
            old(self).semaphore_list@.len() < isize::MAX,
        ensures
            r >= 0,
            is_free_slot(old(self).semaphore_list@, r as int),
            final(self).semaphore_list@ == placed(
                old(self).semaphore_list@,
                r as int,
                SemaphoreEntry { res_count, semaphore: sem },
            ),
            waiter_lists(final(self).semaphore_waiters@) == if (r as int) < old(self).semaphore_list@.len() {
                padded_empty(waiter_lists(old(self).semaphore_waiters@), r + 1)
            } else {
                waiter_lists(old(self).semaphore_waiters@).push(Seq::<usize>::empty())
            },
            final(self).mutex_list@ == old(self).mutex_list@,
            final(self).mutex_owner_tid@ == old(self).mutex_owner_tid@,
            final(self).condvar_list@ == old(self).condvar_list@,
            final(self).deadlock_detect_enabled == old(self).deadlock_detect_enabled,
    {
        let entry = SemaphoreEntry { res_count, semaphore: sem };
        let id = free_slot(&self.semaphore_list);
        if id < self.semaphore_list.len() {
            self.semaphore_list.set(id, Some(entry));
            pad_with_empty(&mut self.semaphore_waiters, id + 1);
            id as isize
        } else {
            self.semaphore_list.push(Some(entry));
            let ghost before = waiter_lists(self.semaphore_waiters@);
            self.semaphore_waiters.push(Vec::new());
            proof {
                assert(waiter_lists(self.semaphore_waiters@) =~= before.push(Seq::<usize>::empty()));
            }
            (self.semaphore_list.len() - 1) as isize
        }
    }

    /// The bookkeeping after semaphore `id` has been raised: the first thread
    /// recorded as waiting on it, if any, is taken off its list (every entry of
    /// that thread). Returns 0.
    pub fn sys_semaphore_up(&mut self, id: usize) -> (r: isize)
        requires
            old(self).has_semaphore(id),
        ensures
            r == 0,
            ({
                let w = waiter_lists(old(self).semaphore_waiters@);
                waiter_lists(final(self).semaphore_waiters@) == if id < w.len() && w[id as int].len()
                    > 0 {
                    w.update(id as int, without(w[id as int], w[id as int][0]))
                } else {
                    w
                }
            }),
            final(self).semaphore_waiters@.len() == old(self).semaphore_waiters@.len(),
            id < old(self).semaphore_waiters@.len() && old(self).semaphore_waiters@[id as int]@.len()
                > 0 ==> forall|x: usize|
                #[trigger] final(self).semaphore_waiters@[id as int]@.contains(x) <==> (old(self).semaphore_waiters@[id as int]@.contains(x) && x != old(self).semaphore_waiters@[id as int]@[0]),
            forall|j: int|
                0 <= j < old(self).semaphore_waiters@.len() && (j != id || old(self).semaphore_waiters@[j]@.len() == 0) ==> #[trigger] final(self).semaphore_waiters@[j]@
                    == old(self).semaphore_waiters@[j]@,
            final(self).mutex_list@ == old(self).mutex_list@,
            final(self).mutex_owner_tid@ == old(self).mutex_owner_tid@,
            final(self).semaphore_list@ == old(self).semaphore_list@,
            final(self).condvar_list@ == old(self).condvar_list@,
            final(self).deadlock_detect_enabled == old(self).deadlock_detect_enabled,
    {
        if id < self.semaphore_waiters.len() {
            if self.semaphore_waiters[id].len() > 0 {
                let first = self.semaphore_waiters[id][0];
                let rest = copy_without(&self.semaphore_waiters[id], first);
                proof {
                    lemma_without_keeps_others(self.semaphore_waiters@[id as int]@, first);
                }
                let ghost before = waiter_lists(self.semaphore_waiters@);
                self.semaphore_waiters.set(id, rest);
                proof {
                    assert(waiter_lists(self.semaphore_waiters@) =~= before.update(
                        id as int,
                        without(before[id as int], first),
                    ));
                }
            }
        }
        0
    }

    /// The decision taken before thread `tid` blocks on semaphore `id`.
    /// With detection on, a thread already recorded as waiting on the semaphore
    /// is refused with `DEADLOCK_ERR`, and otherwise it is added to the
    /// semaphore's waiters and recorded as waiting on it. With detection off
    /// nothing is recorded.
    pub fn sys_semaphore_down(&mut self, id: usize, tid: usize, wait: &mut ThreadWait) -> (r: Result<
        (),
        isize,
    >)
        requires
            old(self).has_semaphore(id),
        ensures
            r is Err <==> old(self).semaphore_down_refused(id, tid),
            r is Err <==> {
                &&& old(self).deadlock_detect_enabled
                &&& id < old(self).semaphore_waiters@.len()
                &&& exists|j: int|
                    0 <= j < old(self).semaphore_waiters@[id as int]@.len()
                        && #[trigger] old(self).semaphore_waiters@[id as int]@[j] == tid
            },
            r is Ok && old(self).deadlock_detect_enabled ==> {
                &&& id < final(self).semaphore_waiters@.len()
                &&& final(self).semaphore_waiters@[id as int]@.last() == tid
            },
            r is Err ==> r == Err::<(), isize>(DEADLOCK_ERR),
            ({
                let w = waiter_lists(old(self).semaphore_waiters@);
                let p = padded_empty(w, id + 1);
                waiter_lists(final(self).semaphore_waiters@) == if r is Ok
                    && old(self).deadlock_detect_enabled {
                    p.update(id as int, p[id as int].push(tid))
                } else {
                    w
                }
            }),
            final(wait).waiting_semaphore_id == if r is Ok && old(self).deadlock_detect_enabled {
                Some(id)
            } else {
                old(wait).waiting_semaphore_id
            },
            final(wait).waiting_mutex_id == old(wait).waiting_mutex_id,
            final(self).mutex_list@ == old(self).mutex_list@,
            final(self).mutex_owner_tid@ == old(self).mutex_owner_tid@,
            final(self).semaphore_list@ == old(self).semaphore_list@,
            final(self).condvar_list@ == old(self).condvar_list@,
            final(self).deadlock_detect_enabled == old(self).deadlock_detect_enabled,
    {
        if self.deadlock_detect_enabled {
            if id < self.semaphore_waiters.len() {
                if holds_tid(&self.semaphore_waiters[id], tid) {
                    return Err(DEADLOCK_ERR);
                }
            }
            assert(id < self.semaphore_list.len());
            pad_with_empty(&mut self.semaphore_waiters, id + 1);
            let grown = copy_pushed(&self.semaphore_waiters[id], tid);
            let ghost before = waiter_lists(self.semaphore_waiters@);
            self.semaphore_waiters.set(id, grown);
            proof {
                assert(waiter_lists(self.semaphore_waiters@) =~= before.update(
                    id as int,
                    before[id as int].push(tid),
                ));
            }
            wait.waiting_semaphore_id = Some(id);
        }
        Ok(())
    }

    /// The bookkeeping after thread `tid` has passed semaphore `id`: it is taken
    /// off the semaphore's waiters and recorded as waiting on no semaphore.
    /// Returns 0.
    pub fn finish_semaphore_down(&mut self, id: usize, tid: usize, wait: &mut ThreadWait) -> (r:
        isize)
        ensures
            r == 0,
            ({
                let w = waiter_lists(old(self).semaphore_waiters@);
                waiter_lists(final(self).semaphore_waiters@) == if id < w.len() {
                    w.update(id as int, without(w[id as int], tid))
                } else {
                    w
                }
            }),
            final(self).semaphore_waiters@.len() == old(self).semaphore_waiters@.len(),
            id < old(self).semaphore_waiters@.len() ==> forall|x: usize|
                #[trigger] final(self).semaphore_waiters@[id as int]@.contains(x) <==> (old(self).semaphore_waiters@[id as int]@.contains(x) && x != tid),
            forall|j: int|
                0 <= j < old(self).semaphore_waiters@.len() && j != id ==> #[trigger] final(self).semaphore_waiters@[j]@ == old(self).semaphore_waiters@[j]@,
            final(wait).waiting_semaphore_id is None,
            final(wait).waiting_mutex_id == old(wait).waiting_mutex_id,
            final(self).mutex_list@ == old(self).mutex_list@,
            final(self).mutex_owner_tid@ == old(self).mutex_owner_tid@,
            final(self).semaphore_list@ == old(self).semaphore_list@,
            final(self).condvar_list@ == old(self).condvar_list@,
            final(self).deadlock_detect_enabled == old(self).deadlock_detect_enabled,
    {
        if id < self.semaphore_waiters.len() {
            let rest = copy_without(&self.semaphore_waiters[id], tid);
            proof {
                lemma_without_keeps_others(self.semaphore_waiters@[id as int]@, tid);
            }
            let ghost before = waiter_lists(self.semaphore_waiters@);
            self.semaphore_waiters.set(id, rest);
            proof {
                assert(waiter_lists(self.semaphore_waiters@) =~= before.update(
                    id as int,
                    without(before[id as int], tid),
                ));
            }
        }
        wait.waiting_semaphore_id = None;
        0
    }

    /// Stores a new condition variable in the first free slot, or at the end,
    /// and returns its id.
    pub fn sys_condvar_create(&mut self, condvar: C) -> (r: isize)
        requires
            old(self).condvar_list@.len() < isize::MAX,
        ensures
            r >= 0,
            is_free_slot(old(self).condvar_list@, r as int),
            final(self).condvar_list@ == placed(old(self).condvar_list@, r as int, condvar),
            final(self).mutex_list@ == old(self).mutex_list@,
            final(self).mutex_owner_tid@ == old(self).mutex_owner_tid@,
            final(self).semaphore_list@ == old(self).semaphore_list@,
            final(self).semaphore_waiters@ == old(self).semaphore_waiters@,
            final(self).deadlock_detect_enabled == old(self).deadlock_detect_enabled,
    {
        let id = free_slot(&self.condvar_list);
        if id < self.condvar_list.len() {
            self.condvar_list.set(id, Some(condvar));
            id as isize
        } else {
            self.condvar_list.push(Some(condvar));
            (self.condvar_list.len() - 1) as isize
        }
    }

    /// The condition variable that a signal on `id` goes to.
    pub fn sys_condvar_signal(&self, id: usize) -> (r: &C)
        requires
            self.has_condvar(id),
        ensures
            *r == self.condvar_list@[id as int]->0,
    {
        self.condvar_list[id].as_ref().unwrap()
    }

    /// The condition variable and the mutex that a wait on `condvar_id`
    /// releasing `mutex_id` goes to.
    pub fn sys_condvar_wait(&self, condvar_id: usize, mutex_id: usize) -> (r: (&C, &M))
        requires
            self.has_condvar(condvar_id),
            self.has_mutex(mutex_id),
        ensures
            *r.0 == self.condvar_list@[condvar_id as int]->0,
            *r.1 == self.mutex_list@[mutex_id as int]->0.mutex,
    {
        let c = self.condvar_list[condvar_id].as_ref().unwrap();
        let m = &self.mutex_list[mutex_id].as_ref().unwrap().mutex;
        (c, m)
    }

    /// Turns deadlock detection off (0) or on (1) and returns 0; any other
    /// value is refused with -1 and changes nothing.
    pub fn sys_enable_deadlock_detect(&mut self, enabled: usize) -> (r: isize)
        ensures
            r == if enabled <= 1 { 0isize } else { -1isize },
            final(self).deadlock_detect_enabled == if enabled == 0 {
                false
            } else if enabled == 1 {
                true
            } else {
                old(self).deadlock_detect_enabled
            },
            final(self).mutex_list@ == old(self).mutex_list@,
            final(self).mutex_owner_tid@ == old(self).mutex_owner_tid@,
            final(self).semaphore_list@ == old(self).semaphore_list@,
            final(self).semaphore_waiters@ == old(self).semaphore_waiters@,
            final(self).condvar_list@ == old(self).condvar_list@,
    {
        let enable_flag = match enabled {
            0 => false,
            1 => true,
            _ => {
                return -1;
            },
        };
        self.deadlock_detect_enabled = enable_flag;
        0
    }
}

/// The owner table keeps step with the mutex table: when it is as long as the
/// mutex table and records no owner for any free slot, a create leaves it so,
/// and the new mutex has no owner.
pub proof fn lemma_create_keeps_owners_aligned<M, S, C>(
    before: SyncTables<M, S, C>,
    after: SyncTables<M, S, C>,
    blocking: bool,
    mutex: M,
    r: isize,
)
    requires
        before.mutex_owner_tid@.len() == before.mutex_list@.len(),
        forall|i: int|
            0 <= i < before.mutex_list@.len() && before.mutex_list@[i] is None
                ==> #[trigger] before.mutex_owner_tid@[i] is None,
        r >= 0,
        is_free_slot(before.mutex_list@, r as int),
        after.mutex_list@ == placed(
            before.mutex_list@,
            r as int,
            MutexEntry { kind: kind_for(blocking), mutex },
        ),
        after.mutex_owner_tid@ == if (r as int) < before.mutex_list@.len() {
            padded_none(before.mutex_owner_tid@, r + 1)
        } else {
            before.mutex_owner_tid@.push(None)
        },
    ensures
        after.mutex_owner_tid@.len() == after.mutex_list@.len(),
        forall|i: int|
            0 <= i < after.mutex_list@.len() && after.mutex_list@[i] is None
                ==> #[trigger] after.mutex_owner_tid@[i] is None,
        after.mutex_owner_tid@[r as int] is None,
        after.mutex_list@[r as int] == Some(MutexEntry { kind: kind_for(blocking), mutex }),
{
    if (r as int) < before.mutex_list@.len() {
        assert(after.mutex_owner_tid@ == before.mutex_owner_tid@);
    } else {
        assert forall|i: int|
            0 <= i < after.mutex_list@.len() && after.mutex_list@[i] is None
                implies #[trigger] after.mutex_owner_tid@[i] is None by {
            if i < before.mutex_list@.len() {
                assert(after.mutex_list@[i] == before.mutex_list@[i]);
                assert(after.mutex_owner_tid@[i] == before.mutex_owner_tid@[i]);
            }
        }
    }
}

/// Only a thread that holds a mutex is ever refused a lock: a request from a
/// thread that holds none, or made with detection off, is never refused; and
/// a refused request always asks for a mutex held by another thread.
pub proof fn lemma_refusal_needs_holder_and_other_owner<M, S, C>(
    t: SyncTables<M, S, C>,
    id: usize,
    tid: usize,
)
    ensures
        (forall|k: int|
            0 <= k < t.mutex_owner_tid@.len() ==> #[trigger] t.mutex_owner_tid@[k] != Some(tid))
            ==> !t.mutex_lock_refused(id, tid),
        !t.deadlock_detect_enabled ==> !t.mutex_lock_refused(id, tid),
        t.mutex_lock_refused(id, tid) ==> {
            &&& id < t.mutex_owner_tid@.len()
            &&& t.mutex_owner_tid@[id as int] is Some
            &&& t.mutex_owner_tid@[id as int] != Some(tid)
        },
        t.mutex_lock_refused(id, tid) <==> {
            &&& t.deadlock_detect_enabled
            &&& id < t.mutex_owner_tid@.len()
            &&& t.mutex_owner_tid@[id as int] is Some
            &&& t.mutex_owner_tid@[id as int] != Some(tid)
            &&& exists|k: int|
                0 <= k < t.mutex_owner_tid@.len() && #[trigger] t.mutex_owner_tid@[k] == Some(tid)
        },
{
}

/// A thread waiting on a semaphore cannot ask for it again: with detection
/// on, after `down` records `tid` as a waiter on semaphore `id`, a second
/// `down` on `id` from `tid` is refused.
pub proof fn lemma_down_twice_refused<M, S, C>(
    before: SyncTables<M, S, C>,
    after: SyncTables<M, S, C>,
    id: usize,
    tid: usize,
)
    requires
        before.deadlock_detect_enabled,
        after.deadlock_detect_enabled == before.deadlock_detect_enabled,
        ({
            let p = padded_empty(waiter_lists(before.semaphore_waiters@), id + 1);
            waiter_lists(after.semaphore_waiters@) == p.update(id as int, p[id as int].push(tid))
        }),
    ensures
        after.semaphore_down_refused(id, tid),
{
    let p = padded_empty(waiter_lists(before.semaphore_waiters@), id + 1);
    let w = waiter_lists(after.semaphore_waiters@);
    assert(w.len() == after.semaphore_waiters@.len());
    assert(w[id as int] == after.semaphore_waiters@[id as int]@);
    assert(w[id as int][w[id as int].len() - 1] == tid);
}

/// Passing a semaphore ends the wait: after the bookkeeping that follows a
/// `down`, `tid` is no longer recorded as waiting on semaphore `id`, so a
/// later `down` from it is not refused.
pub proof fn lemma_finished_down_not_refused<M, S, C>(
    before: SyncTables<M, S, C>,
    after: SyncTables<M, S, C>,
    id: usize,
    tid: usize,
)
    requires
        ({
            let w = waiter_lists(before.semaphore_waiters@);
            waiter_lists(after.semaphore_waiters@) == if id < w.len() {
                w.update(id as int, without(w[id as int], tid))
            } else {
                w
            }
        }),
    ensures
        !after.semaphore_down_refused(id, tid),
{
    broadcast use vstd::seq_lib::group_filter_ensures;

    let w = waiter_lists(after.semaphore_waiters@);
    assert(w.len() == after.semaphore_waiters@.len());
    if id < w.len() {
        assert(w[id as int] == after.semaphore_waiters@[id as int]@);
        let ws = w[id as int];
        if ws.contains(tid) {
            let k = choose|k: int| 0 <= k < ws.len() && ws[k] == tid;
            assert((|t: usize| t != tid)(ws[k]));
        }
    }
}

/// Whoever acquired a mutex holds it: after the bookkeeping that follows a
/// lock by `tid`, `tid` holds a mutex, and with detection on any other thread
/// that holds a mutex and asks for this one is refused.
pub proof fn lemma_acquired_mutex_blocks_holders<M, S, C>(
    before: SyncTables<M, S, C>,
    after: SyncTables<M, S, C>,
    id: usize,
    tid: usize,
    other: usize,
)
    requires
        after.mutex_owner_tid@ == padded_none(before.mutex_owner_tid@, id + 1).update(
            id as int,
            Some(tid),
        ),
        after.deadlock_detect_enabled,
        other != tid,
        holds_some(after.mutex_owner_tid@, other),
    ensures
        holds_some(after.mutex_owner_tid@, tid),
        after.mutex_lock_refused(id, other),
{
    assert(after.mutex_owner_tid@[id as int] == Some(tid));
}

/// An unlocked mutex has no holder: after `unlock(id)`, a lock request for
/// `id` waits for no other thread, so it is never refused.
pub proof fn lemma_unlocked_mutex_not_refused<M, S, C>(
    before: SyncTables<M, S, C>,
    after: SyncTables<M, S, C>,
    id: usize,
    tid: usize,
)
    requires
        after.mutex_owner_tid@ == if id < before.mutex_owner_tid@.len() {
            before.mutex_owner_tid@.update(id as int, None)
        } else {
            before.mutex_owner_tid@
        },
    ensures
        !after.waits_for_other_owner(id, tid),
        !after.mutex_lock_refused(id, tid),
{
}

} // verus!
