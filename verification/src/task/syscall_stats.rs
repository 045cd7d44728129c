//! How many times each task has made each system call.
use vstd::prelude::*;
use std::collections::BTreeMap;

verus! {

/// The number of calls `count` keeps for `syscall_id` in a task's table:
/// the entry, or zero when there is none.
pub open spec fn entry_count(m: Map<usize, usize>, syscall_id: usize) -> nat {
    if m.contains_key(syscall_id) {
        m[syscall_id] as nat
    } else {
        0
    }
}

/// Per task, per system call, the number of calls.
pub struct SyscallStats {
    stats: BTreeMap<usize, BTreeMap<usize, usize>>,
}

impl SyscallStats {
    /// The number of calls of `syscall_id` recorded for `task_id`.
    pub closed spec fn count(&self, task_id: usize, syscall_id: usize) -> nat {
        if self.stats@.contains_key(task_id) {
            entry_count(self.stats@[task_id]@, syscall_id)
        } else {
            0
        }
    }

    /// No call recorded yet.
    pub fn new() -> (r: Self)
        ensures
            forall|t: usize, s: usize| r.count(t, s) == 0,
    {
        SyscallStats { stats: BTreeMap::new() }
    }

    /// Counts one more call of `syscall_id` by `task_id`.
    pub fn record_syscall(&mut self, task_id: usize, syscall_id: usize)
        requires
            old(self).count(task_id, syscall_id) < usize::MAX,
        ensures
            final(self).count(task_id, syscall_id) == old(self).count(task_id, syscall_id) + 1,
            forall|t: usize, s: usize|
                (t, s) != (task_id, syscall_id) ==> #[trigger] final(self).count(t, s) == old(self).count(t, s),
    {
        broadcast use vstd::std_specs::btree::group_btree_axioms;
        let mut task_stats = match self.stats.remove(&task_id) {
            Some(m) => m,
            None => BTreeMap::new(),
        };
        let current: usize = match task_stats.get(&syscall_id) {
            Some(c) => *c,
            None => 0,
        };
        task_stats.insert(syscall_id, current + 1);
        self.stats.insert(task_id, task_stats);
    }

    /// The number of calls of `syscall_id` recorded for `task_id`.
    pub fn get_syscall_count(&self, task_id: usize, syscall_id: usize) -> (r: usize)
        ensures
            r == self.count(task_id, syscall_id),
    {
        broadcast use vstd::std_specs::btree::group_btree_axioms;
        match self.stats.get(&task_id) {
            Some(task_stats) => match task_stats.get(&syscall_id) {
                Some(c) => *c,
                None => 0,
            },
            None => 0,
        }
    }
}

} // verus!
