use rcore_os::mm::address::{VirtAddr, VirtPageNum};
use rcore_os::mm::memory_set::{MapPermission, MemorySet};
use rcore_os::task::context::TaskContext;
use rcore_os::task::forktree::{fork_tree_lines, status_name, tree_prefix};
use rcore_os::task::manager::{ReadyTask, StrideOrder, TaskManager};
use rcore_os::task::syscall_stats::SyscallStats;
use rcore_os::task::task::{ProgramBreak, TaskStatus};

#[test]
fn task_context_zero_init_keeps_name_and_pid() {
    let cx = TaskContext::zero_init("idle", 0);
    assert_eq!(cx.debug_name(), "idle");
    assert_eq!(cx.debug_pid(), 0);
    assert_eq!(cx.ra(), 0);
    assert_eq!(cx.sp(), 0);
    assert_eq!(cx.saved(11), 0);
}

#[test]
fn task_context_goto_trap_return() {
    let cx = TaskContext::goto_trap_return(0x8020_1000, 0xffff_ffff_ffff_c000, "initproc", 1);
    assert_eq!(cx.ra(), 0x8020_1000);
    assert_eq!(cx.sp(), 0xffff_ffff_ffff_c000);
    assert_eq!(cx.debug_name(), "initproc");
    assert_eq!(cx.debug_pid(), 1);
}

#[test]
fn task_context_long_names_are_cut() {
    let cx = TaskContext::zero_init("a_very_long_task_name_that_overflows", 3);
    assert_eq!(cx.debug_name(), "a_very_long_task_name_t");
    assert_eq!(cx.debug_name().len(), 23);
}

#[test]
fn task_context_cut_inside_a_character_shows_nothing() {
    // 22 ASCII bytes then a 3-byte character: the cut at 23 bytes splits it
    let cx = TaskContext::zero_init("abcdefghijklmnopqrstuv\u{4e2d}", 3);
    assert_eq!(cx.debug_name(), "");
}

#[test]
fn task_context_rename() {
    let mut cx = TaskContext::zero_init("a", 1);
    cx.set_name("shell");
    assert_eq!(cx.debug_name(), "shell");
    assert_eq!(cx.debug_pid(), 1);
    cx.set_name_pid("usertests", 7);
    assert_eq!(cx.debug_name(), "usertests");
    assert_eq!(cx.debug_pid(), 7);
}

#[test]
fn stride_compare_handles_wrap_around() {
    let a = ReadyTask { pid: 1, stride: u64::MAX - 10, priority: 16 };
    let b = ReadyTask { pid: 2, stride: 5, priority: 16 };
    assert_eq!(a.compare(&b), StrideOrder::Greater);
    assert_eq!(b.compare(&a), StrideOrder::Less);
    assert_eq!(a.compare(&a), StrideOrder::Equal);
    let c = ReadyTask { pid: 3, stride: 100, priority: 16 };
    let d = ReadyTask { pid: 4, stride: 200, priority: 16 };
    assert_eq!(c.compare(&d), StrideOrder::Greater);
}

#[test]
fn stride_manager_fetches_smallest_stride() {
    let mut m = TaskManager::new();
    m.add(ReadyTask { pid: 1, stride: 300, priority: 2 });
    m.add(ReadyTask { pid: 2, stride: 100, priority: 4 });
    m.add(ReadyTask { pid: 3, stride: 200, priority: 16 });
    let t = m.fetch().unwrap();
    assert_eq!(t.pid, 2);
    assert_eq!(t.stride, 100 + 0x10000 / 4);
    assert_eq!(m.len(), 2);
    assert_eq!(m.fetch().unwrap().pid, 3);
    assert_eq!(m.fetch().unwrap().pid, 1);
    assert!(m.fetch().is_none());
}

#[test]
fn stride_scheduling_favours_high_priority() {
    let mut m = TaskManager::new();
    m.add(ReadyTask { pid: 1, stride: 0, priority: 2 });
    m.add(ReadyTask { pid: 2, stride: 0, priority: 8 });
    let mut runs = [0usize; 3];
    for _ in 0..50 {
        let t = m.fetch().unwrap();
        runs[t.pid] += 1;
        m.add(t);
    }
    assert!(runs[2] > 3 * runs[1]);
}

#[test]
fn stride_wraps_around() {
    let mut m = TaskManager::new();
    m.add(ReadyTask { pid: 1, stride: u64::MAX - 10, priority: 2 });
    let t = m.fetch().unwrap();
    assert_eq!(t.stride, (u64::MAX - 10).wrapping_add(0x8000));
}

#[test]
fn syscall_stats_count_per_task() {
    let mut s = SyscallStats::new();
    assert_eq!(s.get_syscall_count(1, 64), 0);
    s.record_syscall(1, 64);
    s.record_syscall(1, 64);
    s.record_syscall(2, 64);
    s.record_syscall(1, 93);
    assert_eq!(s.get_syscall_count(1, 64), 2);
    assert_eq!(s.get_syscall_count(2, 64), 1);
    assert_eq!(s.get_syscall_count(1, 93), 1);
    assert_eq!(s.get_syscall_count(2, 93), 0);
}

#[test]
fn task_status_zombie() {
    assert!(TaskStatus::Zombie.is_zombie());
    assert!(!TaskStatus::Ready.is_zombie());
    assert_eq!(status_name(TaskStatus::Running), "Running");
    assert_eq!(status_name(TaskStatus::UnInit), "UnInit");
}

#[test]
fn fork_tree_prefixes() {
    assert_eq!(tree_prefix(&vec![]), "");
    assert_eq!(tree_prefix(&vec![true]), "└── ");
    assert_eq!(tree_prefix(&vec![false]), "├── ");
    assert_eq!(tree_prefix(&vec![false, true, false]), "│       ├── ");
}

fn heap_set(bottom: u64) -> MemorySet {
    let mut ms = MemorySet::new_bare();
    let rwu = MapPermission::R().union(MapPermission::W()).union(MapPermission::U());
    ms.insert_framed_area(VirtAddr(bottom), VirtAddr(bottom), rwu);
    ms
}

#[test]
fn sbrk_grows_and_shrinks_heap_area() {
    let mut ms = heap_set(0x18000);
    let mut brk = ProgramBreak { heap_bottom: 0x18000, program_brk: 0x18000 };
    let c = brk.change_program_brk(&mut ms, 0x1800).unwrap();
    assert_eq!(c.old_brk, 0x18000);
    assert!(c.grown);
    assert_eq!((c.pages.get_start(), c.pages.get_end()), (VirtPageNum(0x18), VirtPageNum(0x1a)));
    assert_eq!(brk.program_brk, 0x19800);
    let c = brk.change_program_brk(&mut ms, -0x1000).unwrap();
    assert_eq!(c.old_brk, 0x19800);
    assert!(!c.grown);
    assert_eq!((c.pages.get_start(), c.pages.get_end()), (VirtPageNum(0x19), VirtPageNum(0x1a)));
    assert_eq!(brk.program_brk, 0x18800);
    assert_eq!(ms.area(0).vpn_range().get_end(), VirtPageNum(0x19));
}

#[test]
fn sbrk_refuses_below_heap_bottom() {
    let mut ms = heap_set(0x18000);
    let mut brk = ProgramBreak { heap_bottom: 0x18000, program_brk: 0x18100 };
    assert!(brk.change_program_brk(&mut ms, -0x200).is_none());
    assert_eq!(brk.program_brk, 0x18100);
}

#[test]
fn sbrk_without_heap_area_fails() {
    let mut ms = MemorySet::new_bare();
    let mut brk = ProgramBreak { heap_bottom: 0x18000, program_brk: 0x18000 };
    assert!(brk.change_program_brk(&mut ms, 16).is_none());
    assert_eq!(brk.program_brk, 0x18000);
}

#[test]
fn stride_window_is_kept_by_turns() {
    let mut m = TaskManager::new();
    m.add(ReadyTask { pid: 1, stride: u64::MAX - 100, priority: 3 });
    m.add(ReadyTask { pid: 2, stride: u64::MAX - 50, priority: 5 });
    m.add(ReadyTask { pid: 3, stride: 20, priority: 16 });
    for _ in 0..200 {
        let t = m.fetch().unwrap();
        m.add(t);
        let mut strides = Vec::new();
        let mut probe = TaskManager::new();
        while let Some(x) = m.fetch() {
            strides.push(x);
        }
        // every stride lies less than half a span ahead of the first taken
        let base = strides[0].stride.wrapping_sub(0x10000 / strides[0].priority as u64);
        for x in strides.iter() {
            let before = x.stride.wrapping_sub(0x10000 / x.priority as u64);
            assert!(before.wrapping_sub(base) < 0x8000);
            probe.add(ReadyTask { stride: before, ..*x });
        }
        m = probe;
    }
}

#[test]
fn fork_tree_lines_in_print_order() {
    let tree: Vec<Vec<usize>> = vec![vec![1, 2], vec![3], vec![], vec![]];
    let lines = fork_tree_lines(&tree, 0);
    let got: Vec<(usize, &str)> = lines.iter().map(|(n, p)| (*n, p.as_str())).collect();
    assert_eq!(got, vec![(0, ""), (1, "├── "), (3, "│   └── "), (2, "└── ")]);
}
