//! The ready queue and its stride scheduler.
use vstd::prelude::*;

verus! {

/// The constant from which each task's pass is derived: `pass = BIG_STRIDE / priority`.
pub const BIG_STRIDE: usize = 10000;

/// A task as the scheduler sees it: its pid, its parent's pid, its priority,
/// its current stride, the value it sees returned from the system call it
/// entered the kernel with, and an opaque handle to the rest of its control
/// block.
pub struct Task<T> {
    pub pid: usize,
    pub parent: Option<usize>,
    pub priority: usize,
    pub stride: usize,
    pub return_value: usize,
    pub handle: T,
}

/// The pass that a task of the given priority adds to its stride each time it is picked.
pub open spec fn pass(priority: usize) -> int {
    BIG_STRIDE as int / priority as int
}

/// The task `t` after one scheduling step: its stride grows by its pass.
pub open spec fn advanced<T>(t: Task<T>) -> Task<T> {
    Task { stride: (t.stride + pass(t.priority)) as usize, ..t }
}

/// The index that a left-to-right scan with a strict `<` settles on:
/// the first index whose stride is minimal.
pub open spec fn min_stride_index<T>(s: Seq<Task<T>>) -> int
    decreases s.len(),
{
    if s.len() <= 1 {
        0
    } else {
        let j = min_stride_index(s.drop_last());
        if s.last().stride < s[j].stride {
            s.len() - 1
        } else {
            j
        }
    }
}

/// `i` is the first index of `s` at which the stride is minimal.
pub open spec fn is_first_min<T>(s: Seq<Task<T>>, i: int) -> bool {
    &&& 0 <= i < s.len()
    &&& forall|j: int| 0 <= j < s.len() ==> s[i].stride <= #[trigger] s[j].stride
    &&& forall|j: int| 0 <= j < i ==> s[i].stride < #[trigger] s[j].stride
}

/// The scan's index is the first index of minimal stride.
pub proof fn lemma_min_stride_index<T>(s: Seq<Task<T>>)
    requires
        s.len() > 0,
    ensures
        is_first_min(s, min_stride_index(s)),
    decreases s.len(),
{
    if s.len() > 1 {
        let t = s.drop_last();
        lemma_min_stride_index(t);
        let j = min_stride_index(t);
        assert forall|k: int| 0 <= k < t.len() implies #[trigger] t[k] == s[k] by {}
        if s.last().stride < s[j].stride {
            assert forall|k: int| 0 <= k < s.len() implies s[s.len() - 1].stride <= #[trigger] s[k].stride by {
                if k < s.len() - 1 {
                    assert(t[k] == s[k]);
                }
            }
            assert forall|k: int| 0 <= k < s.len() - 1 implies s[s.len() - 1].stride < #[trigger] s[k].stride by {
                assert(t[k] == s[k]);
            }
        } else {
            assert forall|k: int| 0 <= k < s.len() implies s[j].stride <= #[trigger] s[k].stride by {
                if k < s.len() - 1 {
                    assert(t[k] == s[k]);
                }
            }
            assert forall|k: int| 0 <= k < j implies s[j].stride < #[trigger] s[k].stride by {
                assert(t[k] == s[k]);
            }
        }
    }
}

/// Every stride in `s` lies within `bound` of every other one.
pub open spec fn strides_within<T>(s: Seq<Task<T>>, bound: int) -> bool {
    forall|i: int, j: int|
        0 <= i < s.len() && 0 <= j < s.len() ==> #[trigger] s[i].stride <= #[trigger] s[j].stride + bound
}

/// Every task in `s` has at least priority `p`.
pub open spec fn priorities_at_least<T>(s: Seq<Task<T>>, p: int) -> bool {
    forall|i: int| 0 <= i < s.len() ==> #[trigger] s[i].priority >= p
}

/// A priority of at least 2 gives a pass of at most `BIG_STRIDE / 2`.
proof fn lemma_pass_at_most_half(priority: usize)
    requires
        priority >= 2,
    ensures
        0 <= pass(priority) <= BIG_STRIDE / 2,
{
    assert(10000int / (priority as int) <= 5000) by (nonlinear_arith)
        requires
            priority >= 2,
    ;
    assert(10000int / (priority as int) >= 0) by (nonlinear_arith)
        requires
            priority >= 2,
    ;
}

/// Stride scheduling keeps strides close: when every priority is at least 2 and
/// all strides lie within `BIG_STRIDE / 2` of one another, taking the task of
/// smallest stride, advancing it by its pass, and putting it back at the end of
/// the queue leaves all strides within `BIG_STRIDE / 2` of one another again
/// (strides taken as mathematical integers, without wrap-around).
pub proof fn lemma_stride_spread_preserved<T>(s: Seq<Task<T>>)
    requires
        s.len() > 0,
        priorities_at_least(s, 2),
        strides_within(s, BIG_STRIDE as int / 2),
        s[min_stride_index(s)].stride + pass(s[min_stride_index(s)].priority) <= usize::MAX,
    ensures
        ({
            let i = min_stride_index(s);
            let s2 = s.remove(i).push(advanced(s[i]));
            &&& strides_within(s2, BIG_STRIDE as int / 2)
            &&& priorities_at_least(s2, 2)
            &&& s2.len() == s.len()
        }),
{
    let i = min_stride_index(s);
    lemma_min_stride_index(s);
    let t = s[i];
    lemma_pass_at_most_half(t.priority);
    let r = s.remove(i);
    let s2 = r.push(advanced(t));
    let n = advanced(t).stride as int;
    assert(n == t.stride + pass(t.priority));
    // every element of s2 comes from s, or is the advanced task
    assert forall|k: int| 0 <= k < s2.len() implies
        (#[trigger] s2[k]).stride >= t.stride && s2[k].stride <= t.stride + BIG_STRIDE / 2
        && s2[k].priority >= 2 by {
        if k == s2.len() - 1 {
            assert(s2[k] == advanced(t));
        } else if k < i {
            assert(s2[k] == s[k]);
            assert(s[i].stride <= s[k].stride);
            assert(s[k].stride <= s[i].stride + BIG_STRIDE / 2);
        } else {
            assert(s2[k] == s[k + 1]);
            assert(s[i].stride <= s[k + 1].stride);
            assert(s[k + 1].stride <= s[i].stride + BIG_STRIDE / 2);
        }
    }
    assert forall|a: int, b: int| 0 <= a < s2.len() && 0 <= b < s2.len() implies
        #[trigger] s2[a].stride <= #[trigger] s2[b].stride + BIG_STRIDE / 2 by {
        assert(s2[a].stride <= t.stride + BIG_STRIDE / 2);
        assert(s2[b].stride >= t.stride);
    }
}

/// The pass of a task is `BIG_STRIDE / priority` in integer division, for
/// every non-zero priority.
pub proof fn lemma_pass_is_quotient(priority: usize)
    requires
        priority > 0,
    ensures
        pass(priority) == 10000int / (priority as int),
        pass(priority) * (priority as int) <= 10000int < (pass(priority) + 1) * (priority as int),
{
    assert(((10000int / (priority as int)) * (priority as int) <= 10000int < (10000int / (priority as int)
        + 1) * (priority as int))) by (nonlinear_arith)
        requires
            priority > 0,
    ;
}

/// Advancing a task adds exactly `BIG_STRIDE / priority` to its stride and
/// keeps everything else.
pub proof fn lemma_advanced_adds_quotient<T>(t: Task<T>)
    requires
        t.priority > 0,
        t.stride + 10000int / (t.priority as int) <= usize::MAX,
    ensures
        advanced(t).stride == t.stride + 10000int / (t.priority as int),
        advanced(t).pid == t.pid,
        advanced(t).priority == t.priority,
        advanced(t).parent == t.parent,
        advanced(t).return_value == t.return_value,
        advanced(t).handle == t.handle,
{
}

/// The task that fetch picks has the smallest stride of the queue, and every
/// task before it has a strictly larger one.
pub proof fn lemma_picked_stride_is_least<T>(s: Seq<Task<T>>)
    requires
        s.len() > 0,
    ensures
        0 <= min_stride_index(s) < s.len(),
        forall|j: int| 0 <= j < s.len() ==> s[min_stride_index(s)].stride <= #[trigger] s[j].stride,
        forall|j: int| 0 <= j < min_stride_index(s) ==> s[min_stride_index(s)].stride < #[trigger] s[j].stride,
{
    lemma_min_stride_index(s);
}

/// A ready queue of tasks, scheduled by stride.
pub struct TaskManager<T> {
    ready_queue: std::collections::VecDeque<Task<T>>,
}

impl<T> View for TaskManager<T> {
    type V = Seq<Task<T>>;

    closed spec fn view(&self) -> Seq<Task<T>> {
        self.ready_queue@
    }
}

impl<T> TaskManager<T> {
    /// The next fetch neither divides by zero nor overflows the picked task's stride.
    pub open spec fn can_fetch(&self) -> bool {
        self@.len() > 0 ==> {
            let t = self@[min_stride_index(self@)];
            &&& t.priority > 0
            &&& t.stride + pass(t.priority) <= usize::MAX
        }
    }

    /// Creates an empty ready queue.
    pub fn new() -> (m: Self)
        ensures
            m@ == Seq::<Task<T>>::empty(),
    {
        TaskManager { ready_queue: std::collections::VecDeque::new() }
    }

    /// Puts a task at the back of the ready queue.
    pub fn add(&mut self, task: Task<T>)
        ensures
            final(self)@ == old(self)@.push(task),
    {
        self.ready_queue.push_back(task);
    }

    /// The position of the first task of smallest stride.
    fn min_stride_position(&self) -> (i: usize)
        requires
            self@.len() > 0,
        ensures
            i == min_stride_index(self@),
            i < self@.len(),
    {
        let ghost s = self.ready_queue@;
        let mut min_idx: usize = 0;
        let mut min_stride: usize = usize::MAX;
        let mut i: usize = 0;
        while i < self.ready_queue.len()
            invariant
                self.ready_queue@ == s,
                s.len() > 0,
                i <= s.len(),
                i == 0 ==> min_idx == 0 && min_stride == usize::MAX,
                i > 0 ==> min_idx == min_stride_index(s.take(i as int)),
                i > 0 ==> min_idx < i && min_stride == s[min_idx as int].stride,
            decreases s.len() - i,
        {
            let stride = self.ready_queue[i].stride;
            proof {
                let t = s.take(i as int + 1);
                assert(t.drop_last() =~= s.take(i as int));
                assert(t.last() == s[i as int]);
                if i > 0 {
                    assert(t[min_idx as int] == s[min_idx as int]);
                }
            }
            if stride < min_stride {
                min_stride = stride;
                min_idx = i;
            }
            i = i + 1;
        }
        proof {
            assert(s.take(s.len() as int) =~= s);
        }
        min_idx
    }

    /// Whether `fetch` may be called: it is when the queue is empty, or when
    /// the task it would pick has a non-zero priority and a stride that its
    /// pass does not push past `usize::MAX`.
    pub fn is_fetchable(&self) -> (r: bool)
        ensures
            r == self.can_fetch(),
            self@.len() > 0 ==> {
                let t = self@[min_stride_index(self@)];
                r == (t.priority > 0 && t.stride + 10000int / (t.priority as int) <= usize::MAX)
            },
            self@.len() == 0 ==> r,
    {
        if self.ready_queue.len() == 0 {
            return true;
        }
        let i = self.min_stride_position();
        let t = &self.ready_queue[i];
        if t.priority == 0 {
            return false;
        }
        t.stride <= usize::MAX - BIG_STRIDE / t.priority
    }

    /// Takes the task of smallest stride (the first such one) out of the queue,
    /// and advances its stride by `BIG_STRIDE / priority`.
    /// The other tasks keep their order. An empty queue gives `None`.
    pub fn fetch(&mut self) -> (r: Option<Task<T>>)
        requires
            old(self).can_fetch(),
        ensures
            old(self)@.len() == 0 ==> r is None && final(self)@ == old(self)@,
            old(self)@.len() > 0 ==> {
                let s = old(self)@;
                let i = min_stride_index(s);
                &&& is_first_min(s, i)
                &&& 0 <= i < s.len()
                &&& forall|j: int| 0 <= j < s.len() ==> s[i].stride <= #[trigger] s[j].stride
                &&& forall|j: int| 0 <= j < i ==> s[i].stride < #[trigger] s[j].stride
                &&& r == Some(advanced(s[i]))
                &&& r is Some
                &&& r->0.stride == s[i].stride + 10000int / (s[i].priority as int)
                &&& r->0.pid == s[i].pid
                &&& r->0.priority == s[i].priority
                &&& r->0.parent == s[i].parent
                &&& r->0.return_value == s[i].return_value
                &&& r->0.handle == s[i].handle
                &&& final(self)@ == s.remove(i)
            },
    {
        if self.ready_queue.len() == 0 {
            return None;
        }
        let min_idx = self.min_stride_position();
        proof {
            lemma_min_stride_index(self@);
        }
        let mut task = match self.ready_queue.remove(min_idx) {
            Some(t) => t,
            None => {
                return None;
            },
        };
        let pass = BIG_STRIDE / task.priority;
        task.stride = task.stride + pass;
        Some(task)
    }
}

} // verus!
