use rcore_os::mm::address::{VirtAddr, VirtPageNum};
use rcore_os::mm::mmap_area::MmapAreaManager;
use rcore_os::syscall::process::{
    sys_get_time, sys_mmap, sys_munmap, sys_set_priority, sys_waitpid, ChildState, TimeVal, WaitOutcome,
};
use rcore_os::syscall::{is_supported_syscall, syscall, SyscallRequest};
use rcore_os::timer::{get_time_ms, get_time_us, set_next_trigger};
use rcore_os::trap::{trap_cause, trap_handler, ExceptionKind, InterruptKind, TrapAction, TrapCause};

#[test]
fn syscall_decoding() {
    assert_eq!(syscall(64, [1, 0x1000, 5]), SyscallRequest::Write { fd: 1, buf: 0x1000, len: 5 });
    assert_eq!(syscall(93, [usize::MAX, 0, 0]), SyscallRequest::Exit { exit_code: -1 });
    assert_eq!(syscall(260, [usize::MAX, 0x2000, 0]), SyscallRequest::WaitPid { pid: -1, exit_code_ptr: 0x2000 });
    assert_eq!(syscall(214, [0x1_0000_0010, 0, 0]), SyscallRequest::Sbrk { size: 16 });
    assert_eq!(syscall(140, [5, 0, 0]), SyscallRequest::SetPriority { prio: 5 });
    assert_eq!(syscall(124, [0, 0, 0]), SyscallRequest::Yield);
    assert!(!is_supported_syscall(12345));
    assert!(is_supported_syscall(64));
}

#[test]
fn get_time_splits_microseconds() {
    assert_eq!(sys_get_time(3_500_001), TimeVal { sec: 3, usec: 500_001 });
    assert_eq!(sys_get_time(999_999), TimeVal { sec: 0, usec: 999_999 });
}

#[test]
fn timer_conversions() {
    assert_eq!(get_time_ms(12_500_000), 1000);
    assert_eq!(get_time_us(25), 2);
    assert_eq!(get_time_us(12_500_000), 1_000_000);
    assert_eq!(set_next_trigger(1000), 1000 + 125_000);
    assert_eq!(get_time_ms(1_234_567_890), get_time_us(1_234_567_890) / 1000);
}

#[test]
fn set_priority_accepts_two_and_more() {
    assert_eq!(sys_set_priority(2), (2, Some(2)));
    assert_eq!(sys_set_priority(16), (16, Some(16)));
    assert_eq!(sys_set_priority(1), (-1, None));
    assert_eq!(sys_set_priority(-5), (-1, None));
    assert_eq!(sys_set_priority(300), (-1, None));
    assert_eq!(sys_set_priority(255), (255, Some(255)));
    assert_eq!(sys_set_priority(256), (-1, None));
}

#[test]
fn waitpid_outcomes() {
    let children = vec![
        ChildState { pid: 3, zombie: false, exit_code: 0 },
        ChildState { pid: 4, zombie: true, exit_code: 7 },
        ChildState { pid: 5, zombie: true, exit_code: 9 },
    ];
    let any = sys_waitpid(&children, -1);
    assert_eq!(any, WaitOutcome::Reaped { index: 1, pid: 4, exit_code: 7 });
    assert_eq!(any.ret(), 4);
    assert_eq!(sys_waitpid(&children, 5), WaitOutcome::Reaped { index: 2, pid: 5, exit_code: 9 });
    assert_eq!(sys_waitpid(&children, 3), WaitOutcome::StillRunning);
    assert_eq!(sys_waitpid(&children, 3).ret(), -2);
    assert_eq!(sys_waitpid(&children, 8), WaitOutcome::NoSuchChild);
    assert_eq!(sys_waitpid(&children, 8).ret(), -1);
    assert_eq!(sys_waitpid(&[], -1), WaitOutcome::NoSuchChild);
}

#[test]
fn mmap_syscall_checks_arguments() {
    let mut areas = MmapAreaManager::new();
    assert_eq!(sys_mmap(&mut areas, 0x10000, 0, 3), 0);
    assert_eq!(sys_mmap(&mut areas, 0x10000, 0x1000, 0b1000), -1);
    assert_eq!(sys_mmap(&mut areas, 0x10000, 0x1000, 0), -1);
    assert_eq!(sys_mmap(&mut areas, 0x10001, 0x1000, 3), -1);
    assert_eq!(sys_mmap(&mut areas, 0x10000, 0x1000, 0x101), -1);
    assert_eq!(sys_mmap(&mut areas, 0x10000, 0x1000, 0x103), -1);
    assert_eq!(areas.count(), 0);
    assert_eq!(sys_mmap(&mut areas, 0x10000, 0x1000, 3), 0);
    assert_eq!(areas.count(), 1);
    assert_eq!(areas.get(0).start_vpn, VirtPageNum(0x10));
    assert_eq!(areas.get(0).permission.bits(), 16 | 2 | 4);
    assert_eq!(sys_mmap(&mut areas, 0x10000, 0x1000, 3), -1);
    assert_eq!(sys_munmap(&mut areas, 0x10001, 0x1000), -1);
    assert_eq!(sys_munmap(&mut areas, 0x10000, 0), 0);
    assert_eq!(sys_munmap(&mut areas, 0x10000, 0x1000), 0);
    assert_eq!(areas.count(), 0);
    assert_eq!(sys_munmap(&mut areas, 0x10000, 0x1000), -1);
    let _ = VirtAddr(0);
}

#[test]
fn trap_cause_decoding() {
    assert_eq!(trap_cause(8), TrapCause::Exception(ExceptionKind::UserEnvCall));
    assert_eq!(trap_cause(13), TrapCause::Exception(ExceptionKind::LoadPageFault));
    assert_eq!(trap_cause(99), TrapCause::Exception(ExceptionKind::Unknown));
    let top = usize::MAX / 2 + 1;
    assert_eq!(trap_cause(top + 5), TrapCause::Interrupt(InterruptKind::SupervisorTimer));
    assert_eq!(trap_cause(top + 3), TrapCause::Interrupt(InterruptKind::Unknown));
}

#[test]
fn trap_handler_actions() {
    assert_eq!(trap_handler(TrapCause::Exception(ExceptionKind::UserEnvCall)), TrapAction::Syscall);
    assert_eq!(trap_handler(TrapCause::Exception(ExceptionKind::StorePageFault)), TrapAction::Kill(-2));
    assert_eq!(trap_handler(TrapCause::Exception(ExceptionKind::InstructionFault)), TrapAction::Kill(-2));
    assert_eq!(trap_handler(TrapCause::Exception(ExceptionKind::IllegalInstruction)), TrapAction::Kill(-3));
    assert_eq!(trap_handler(TrapCause::Interrupt(InterruptKind::SupervisorTimer)), TrapAction::Preempt);
    assert_eq!(trap_handler(TrapCause::Exception(ExceptionKind::Breakpoint)), TrapAction::Unsupported);
    assert_eq!(trap_handler(TrapCause::Interrupt(InterruptKind::SupervisorExternal)), TrapAction::Unsupported);
}
