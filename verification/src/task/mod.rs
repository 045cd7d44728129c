//! Tasks: saved contexts, task states, the stride scheduler's ready queue,
//! per-task system call statistics and the fork tree.
pub mod context;
pub mod manager;
pub mod syscall_stats;
pub mod task;
pub mod forktree;
