//! The ready queue of the stride scheduler.
//!
//! Every task carries a stride that grows by `BIG_STRIDE / priority` each
//! time it is scheduled; the task with the smallest stride runs next.
//! Strides wrap around, so two strides are compared by their circular
//! distance: `a` comes before `b` when `b - a` (wrapping) is non-zero and
//! less than half of `BIG_STRIDE`.
use vstd::prelude::*;
use crate::config::BIG_STRIDE;

verus! {

/// Half of the stride span: the largest circular distance that still orders
/// two strides.
pub open spec fn half_span() -> int {
    (BIG_STRIDE / 2) as int
}

/// The circular distance from stride `a` forward to stride `b`
/// (`b.wrapping_sub(a)`).
pub open spec fn stride_dist(a: u64, b: u64) -> int {
    if b >= a {
        b - a
    } else {
        b - a + 0x1_0000_0000_0000_0000
    }
}

/// Stride `a` is scheduled before stride `b`.
pub open spec fn stride_precedes(a: u64, b: u64) -> bool {
    0 < stride_dist(a, b) < half_span()
}

/// The outcome of comparing two ready tasks, in the order of the ready
/// queue: `Greater` goes first.
#[derive(Clone, Copy, PartialEq, Eq, Structural, Debug)]
pub enum StrideOrder {
    /// Scheduled after the other.
    Less,
    /// Same stride.
    Equal,
    /// Scheduled before the other.
    Greater,
}

/// The comparison of strides `a` and `b`: `Equal` when they are the same,
/// `Greater` when `a` comes before `b`, `Less` otherwise.
pub open spec fn stride_order_spec(a: u64, b: u64) -> StrideOrder {
    if a == b {
        StrideOrder::Equal
    } else if stride_precedes(a, b) {
        StrideOrder::Greater
    } else {
        StrideOrder::Less
    }
}

/// All the strides lie less than half a span ahead of a common base.
pub open spec fn strides_in_window(q: Seq<ReadyTask>, base: u64) -> bool {
    forall|i: int| 0 <= i < q.len() ==> stride_dist(base, #[trigger] q[i].stride) < half_span()
}

/// Inside half a span the circular order is the order of the distances from
/// the base: wrap-around does not change which stride comes first.
pub proof fn lemma_stride_order_in_window(base: u64, a: u64, b: u64)
    requires
        stride_dist(base, a) < half_span(),
        stride_dist(base, b) < half_span(),
    ensures
        stride_precedes(a, b) <==> stride_dist(base, a) < stride_dist(base, b),
        a == b <==> stride_dist(base, a) == stride_dist(base, b),
{
}

/// Seen from a stride no later than `b` inside the window, `b` lies as far
/// ahead as the window says.
proof fn lemma_window_shift(base: u64, a: u64, b: u64)
    requires
        stride_dist(base, a) < half_span(),
        stride_dist(base, b) < half_span(),
        stride_dist(base, a) <= stride_dist(base, b),
    ensures
        stride_dist(a, b) == stride_dist(base, b) - stride_dist(base, a),
{
}

/// With every priority above 2, a turn moves a stride less than half a
/// span. Taking the task with the smallest stride out of a queue whose
/// strides lie within half a span of a base, and queueing it again after its
/// turn, keeps the strides within half a span, now of the taken task's old
/// stride. (A priority of 2 moves a stride exactly half a span, and then the
/// window is not kept.)
pub proof fn lemma_turn_keeps_window(q: Seq<ReadyTask>, base: u64, i: int)
    requires
        strides_in_window(q, base),
        forall|j: int| 0 <= j < q.len() ==> #[trigger] q[j].priority >= 3,
        0 <= i < q.len(),
        forall|j: int| 0 <= j < q.len() ==> !stride_precedes(#[trigger] q[j].stride, q[i].stride),
    ensures
        strides_in_window(
            q.remove(i).push(ReadyTask { stride: advanced_stride(q[i].stride, q[i].priority), ..q[i] }),
            q[i].stride,
        ),
{
    let t = ReadyTask { stride: advanced_stride(q[i].stride, q[i].priority), ..q[i] };
    let r = q.remove(i).push(t);
    let s = q[i].stride;
    let p = q[i].priority;
    assert(stride_dist(base, s) < half_span());
    assert forall|j: int| 0 <= j < r.len() implies stride_dist(s, #[trigger] r[j].stride) < half_span() by {
        if j == r.len() - 1 {
            assert(r[j] == t);
            assert(p >= 3);
            let pass = BIG_STRIDE / (p as u64);
            assert(pass <= 0x10000int / 3) by {
                assert(BIG_STRIDE == 0x10000);
                vstd::arithmetic::div_mod::lemma_div_is_ordered_by_denominator(0x10000, 3, p as int);
            }
            assert(stride_dist(s, t.stride) == pass);
        } else {
            let k = if j < i { j } else { j + 1 };
            assert(r[j] == q[k]);
            assert(stride_dist(base, q[k].stride) < half_span());
            lemma_stride_order_in_window(base, q[k].stride, s);
            lemma_window_shift(base, s, q[k].stride);
        }
    }
}

/// The stride after one more turn at `priority`.
pub open spec fn advanced_stride(stride: u64, priority: u8) -> u64 {
    vstd::wrapping::u64_specs::wrapping_add(stride, (BIG_STRIDE / (priority as u64)) as u64)
}

/// A task waiting to run: its pid, its stride and its priority.
#[derive(Clone, Copy, PartialEq, Eq, Structural, Debug)]
pub struct ReadyTask {
    /// The task's pid.
    pub pid: usize,
    /// How far the task has advanced.
    pub stride: u64,
    /// The task's priority; its stride grows by `BIG_STRIDE / priority`.
    pub priority: u8,
}

impl ReadyTask {
    /// The order of two ready tasks in the queue, by their strides.
    pub fn compare(&self, other: &ReadyTask) -> (r: StrideOrder)
        ensures
            r == stride_order_spec(self.stride, other.stride),
    {
        let diff = other.stride.wrapping_sub(self.stride);
        if diff == 0 {
            StrideOrder::Equal
        } else if diff < BIG_STRIDE / 2 {
            StrideOrder::Greater
        } else {
            StrideOrder::Less
        }
    }
}

/// The ready queue.
pub struct TaskManager {
    ready_queue: Vec<ReadyTask>,
}

impl View for TaskManager {
    type V = Seq<ReadyTask>;

    closed spec fn view(&self) -> Seq<ReadyTask> {
        self.ready_queue@
    }
}

/// Every queued task has a non-zero priority.
pub open spec fn priorities_ok(q: Seq<ReadyTask>) -> bool {
    forall|i: int| 0 <= i < q.len() ==> #[trigger] q[i].priority >= 1
}

impl TaskManager {
    /// An empty ready queue.
    pub fn new() -> (r: Self)
        ensures
            r@ == Seq::<ReadyTask>::empty(),
    {
        TaskManager { ready_queue: Vec::new() }
    }

    /// Queues a task.
    pub fn add(&mut self, task: ReadyTask)
        requires
            task.priority >= 1,
            priorities_ok(old(self)@),
        ensures
            final(self)@ == old(self)@.push(task),
            priorities_ok(final(self)@),
    {
        self.ready_queue.push(task);
    }

    /// The number of queued tasks.
    pub fn len(&self) -> (r: usize)
        ensures
            r == self@.len(),
    {
        self.ready_queue.len()
    }

    /// Takes the next task to run out of the queue and advances its stride
    /// by `BIG_STRIDE / priority`, wrapping around. The task taken has the
    /// smallest stride whenever the queued strides lie within half a span.
    pub fn fetch(&mut self) -> (r: Option<ReadyTask>)
        requires
            priorities_ok(old(self)@),
        ensures
            priorities_ok(final(self)@),
            old(self)@.len() == 0 ==> r is None && final(self)@ == old(self)@,
            old(self)@.len() > 0 ==> exists|i: int|
                {
                    &&& 0 <= i < old(self)@.len()
                    &&& final(self)@ == old(self)@.remove(i)
                    &&& r == Some(
                        ReadyTask {
                            stride: advanced_stride(old(self)@[i].stride, old(self)@[i].priority),
                            ..old(self)@[i]
                        },
                    )
                    &&& forall|base: u64|
                        strides_in_window(old(self)@, base) ==> forall|j: int|
                            0 <= j < old(self)@.len() ==> !stride_precedes(
                                #[trigger] old(self)@[j].stride,
                                old(self)@[i].stride,
                            )
                },
    {
        let n = self.ready_queue.len();
        if n == 0 {
            return None;
        }
        let ghost q = self.ready_queue@;
        let mut best: usize = 0;
        let mut k: usize = 1;
        while k < n
            invariant
                n == q.len(),
                self.ready_queue@ == q,
                0 <= best < k <= n,
                forall|base: u64|
                    strides_in_window(q, base) ==> forall|j: int|
                        0 <= j < k ==> stride_dist(base, q[best as int].stride) <= stride_dist(
                            base,
                            #[trigger] q[j].stride,
                        ),
            decreases n - k,
        {
            let o = self.ready_queue[k].compare(&self.ready_queue[best]);
            proof {
                assert forall|base: u64| strides_in_window(q, base) implies forall|j: int|
                    0 <= j < k + 1 ==> stride_dist(
                        base,
                        (if o == StrideOrder::Greater { q[k as int] } else { q[best as int] }).stride,
                    ) <= stride_dist(base, #[trigger] q[j].stride) by {
                    assert(stride_dist(base, q[k as int].stride) < half_span());
                    assert(stride_dist(base, q[best as int].stride) < half_span());
                    lemma_stride_order_in_window(base, q[k as int].stride, q[best as int].stride);
                }
            }
            if o == StrideOrder::Greater {
                best = k;
            }
            k = k + 1;
        }
        proof {
            assert forall|base: u64| strides_in_window(q, base) implies forall|j: int|
                0 <= j < q.len() ==> !stride_precedes(#[trigger] q[j].stride, q[best as int].stride) by {
                assert forall|j: int| 0 <= j < q.len() implies !stride_precedes(
                    #[trigger] q[j].stride,
                    q[best as int].stride,
                ) by {
                    assert(stride_dist(base, q[j].stride) < half_span());
                    assert(stride_dist(base, q[best as int].stride) < half_span());
                    lemma_stride_order_in_window(base, q[j].stride, q[best as int].stride);
                }
            }
        }
        let task = self.ready_queue.remove(best);
        assert(task.priority >= 1);
        let pass: u64 = BIG_STRIDE / (task.priority as u64);
        let stride = task.stride.wrapping_add(pass);
        let out = ReadyTask { stride, ..task };
        proof {
            assert forall|i: int| 0 <= i < self.ready_queue@.len() implies #[trigger] self.ready_queue@[i].priority >= 1 by {
                if i < best {
                    assert(self.ready_queue@[i] == q[i]);
                } else {
                    assert(self.ready_queue@[i] == q[i + 1]);
                }
            }
        }
        Some(out)
    }
}

} // verus!
