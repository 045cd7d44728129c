//! System calls: decoding a call from its number and arguments, and the
//! decisions the individual calls make.
use vstd::prelude::*;

pub mod process;

verus! {

/// `read`.
pub const SYSCALL_READ: usize = 63;
/// `write`.
pub const SYSCALL_WRITE: usize = 64;
/// `exit`.
pub const SYSCALL_EXIT: usize = 93;
/// `yield`.
pub const SYSCALL_YIELD: usize = 124;
/// `set_priority`.
pub const SYSCALL_SET_PRIORITY: usize = 140;
/// `get_time`.
pub const SYSCALL_GET_TIME: usize = 169;
/// `getpid`.
pub const SYSCALL_GETPID: usize = 172;
/// `sbrk`.
pub const SYSCALL_SBRK: usize = 214;
/// `munmap`.
pub const SYSCALL_MUNMAP: usize = 215;
/// `fork`.
pub const SYSCALL_FORK: usize = 220;
/// `exec`.
pub const SYSCALL_EXEC: usize = 221;
/// `mmap`.
pub const SYSCALL_MMAP: usize = 222;
/// `waitpid`.
pub const SYSCALL_WAITPID: usize = 260;
/// `spawn`.
pub const SYSCALL_SPAWN: usize = 400;

/// A system call with its arguments in the types the call takes them in.
#[derive(Clone, Copy, PartialEq, Eq, Structural, Debug)]
pub enum SyscallRequest {
    /// Read `len` bytes from file `fd` into the user buffer at `buf`.
    Read { fd: usize, buf: usize, len: usize },
    /// Write `len` bytes of the user buffer at `buf` to file `fd`.
    Write { fd: usize, buf: usize, len: usize },
    /// End the calling task with `exit_code`.
    Exit { exit_code: i32 },
    /// Give up the processor.
    Yield,
    /// The caller's pid.
    GetPid,
    /// Copy the calling process.
    Fork,
    /// Replace the caller's program by the one named at `path`.
    Exec { path: usize },
    /// Reap child `pid` (-1: any child), its exit code written to `exit_code_ptr`.
    WaitPid { pid: isize, exit_code_ptr: usize },
    /// Write the time to the `TimeVal` at `ts`.
    GetTime { ts: usize, tz: usize },
    /// Map anonymous memory.
    Mmap { start: usize, len: usize, prot: usize },
    /// Unmap anonymous memory.
    Munmap { start: usize, len: usize },
    /// Move the program break by `size` bytes.
    Sbrk { size: i32 },
    /// Start a child running the program named at `path`.
    Spawn { path: usize },
    /// Set the caller's priority.
    SetPriority { prio: isize },
}

/// The kernel handles system calls with number `id`.
pub open spec fn supported_syscall(id: usize) -> bool {
    id == SYSCALL_READ
        || id == SYSCALL_WRITE
        || id == SYSCALL_EXIT
        || id == SYSCALL_YIELD
        || id == SYSCALL_GETPID
        || id == SYSCALL_FORK
        || id == SYSCALL_EXEC
        || id == SYSCALL_WAITPID
        || id == SYSCALL_GET_TIME
        || id == SYSCALL_MMAP
        || id == SYSCALL_MUNMAP
        || id == SYSCALL_SBRK
        || id == SYSCALL_SPAWN
        || id == SYSCALL_SET_PRIORITY
}

/// Whether the kernel handles system calls with number `syscall_id`.
pub fn is_supported_syscall(syscall_id: usize) -> (r: bool)
    ensures
        r == supported_syscall(syscall_id),
{
    syscall_id == SYSCALL_READ
        || syscall_id == SYSCALL_WRITE
        || syscall_id == SYSCALL_EXIT
        || syscall_id == SYSCALL_YIELD
        || syscall_id == SYSCALL_GETPID
        || syscall_id == SYSCALL_FORK
        || syscall_id == SYSCALL_EXEC
        || syscall_id == SYSCALL_WAITPID
        || syscall_id == SYSCALL_GET_TIME
        || syscall_id == SYSCALL_MMAP
        || syscall_id == SYSCALL_MUNMAP
        || syscall_id == SYSCALL_SBRK
        || syscall_id == SYSCALL_SPAWN
        || syscall_id == SYSCALL_SET_PRIORITY
}

/// The call that number `id` with arguments `args` makes, for a supported
/// number.
pub open spec fn syscall_spec(id: usize, args: [usize; 3]) -> SyscallRequest
    recommends
        supported_syscall(id),
{
    let a = args@;
    if id == SYSCALL_READ {
        SyscallRequest::Read { fd: a[0], buf: a[1], len: a[2] }
    } else if id == SYSCALL_WRITE {
        SyscallRequest::Write { fd: a[0], buf: a[1], len: a[2] }
    } else if id == SYSCALL_EXIT {
        SyscallRequest::Exit { exit_code: a[0] as i32 }
    } else if id == SYSCALL_YIELD {
        SyscallRequest::Yield
    } else if id == SYSCALL_GETPID {
        SyscallRequest::GetPid
    } else if id == SYSCALL_FORK {
        SyscallRequest::Fork
    } else if id == SYSCALL_EXEC {
        SyscallRequest::Exec { path: a[0] }
    } else if id == SYSCALL_WAITPID {
        SyscallRequest::WaitPid { pid: a[0] as isize, exit_code_ptr: a[1] }
    } else if id == SYSCALL_GET_TIME {
        SyscallRequest::GetTime { ts: a[0], tz: a[1] }
    } else if id == SYSCALL_MMAP {
        SyscallRequest::Mmap { start: a[0], len: a[1], prot: a[2] }
    } else if id == SYSCALL_MUNMAP {
        SyscallRequest::Munmap { start: a[0], len: a[1] }
    } else if id == SYSCALL_SBRK {
        SyscallRequest::Sbrk { size: a[0] as i32 }
    } else if id == SYSCALL_SPAWN {
        SyscallRequest::Spawn { path: a[0] }
    } else {
        SyscallRequest::SetPriority { prio: a[0] as isize }
    }
}

/// Decodes the system call numbered `syscall_id` with arguments `args`.
pub fn syscall(syscall_id: usize, args: [usize; 3]) -> (r: SyscallRequest)
    requires
        supported_syscall(syscall_id),
    ensures
        r == syscall_spec(syscall_id, args),
{
    let a0 = args[0];
    let a1 = args[1];
    let a2 = args[2];
    if syscall_id == SYSCALL_READ {
        SyscallRequest::Read { fd: a0, buf: a1, len: a2 }
    } else if syscall_id == SYSCALL_WRITE {
        SyscallRequest::Write { fd: a0, buf: a1, len: a2 }
    } else if syscall_id == SYSCALL_EXIT {
        SyscallRequest::Exit { exit_code: a0 as i32 }
    } else if syscall_id == SYSCALL_YIELD {
        SyscallRequest::Yield
    } else if syscall_id == SYSCALL_GETPID {
        SyscallRequest::GetPid
    } else if syscall_id == SYSCALL_FORK {
        SyscallRequest::Fork
    } else if syscall_id == SYSCALL_EXEC {
        SyscallRequest::Exec { path: a0 }
    } else if syscall_id == SYSCALL_WAITPID {
        SyscallRequest::WaitPid { pid: a0 as isize, exit_code_ptr: a1 }
    } else if syscall_id == SYSCALL_GET_TIME {
        SyscallRequest::GetTime { ts: a0, tz: a1 }
    } else if syscall_id == SYSCALL_MMAP {
        SyscallRequest::Mmap { start: a0, len: a1, prot: a2 }
    } else if syscall_id == SYSCALL_MUNMAP {
        SyscallRequest::Munmap { start: a0, len: a1 }
    } else if syscall_id == SYSCALL_SBRK {
        SyscallRequest::Sbrk { size: a0 as i32 }
    } else if syscall_id == SYSCALL_SPAWN {
        SyscallRequest::Spawn { path: a0 }
    } else {
        SyscallRequest::SetPriority { prio: a0 as isize }
    }
}


/// The calling convention: system call `id` takes its parameters from the
/// argument registers in order (the first parameter from `args[0]`, the
/// second from `args[1]`, the third from `args[2]`), and the numbers are
/// those of the RISC-V Linux ABI the user library uses.
pub proof fn lemma_syscall_arguments_in_order(args: [usize; 3])
    ensures
        syscall_spec(63, args) == (SyscallRequest::Read { fd: args@[0], buf: args@[1], len: args@[2] }),
        syscall_spec(64, args) == (SyscallRequest::Write { fd: args@[0], buf: args@[1], len: args@[2] }),
        syscall_spec(93, args) == (SyscallRequest::Exit { exit_code: args@[0] as i32 }),
        syscall_spec(124, args) == SyscallRequest::Yield,
        syscall_spec(140, args) == (SyscallRequest::SetPriority { prio: args@[0] as isize }),
        syscall_spec(169, args) == (SyscallRequest::GetTime { ts: args@[0], tz: args@[1] }),
        syscall_spec(172, args) == SyscallRequest::GetPid,
        syscall_spec(214, args) == (SyscallRequest::Sbrk { size: args@[0] as i32 }),
        syscall_spec(215, args) == (SyscallRequest::Munmap { start: args@[0], len: args@[1] }),
        syscall_spec(220, args) == SyscallRequest::Fork,
        syscall_spec(221, args) == (SyscallRequest::Exec { path: args@[0] }),
        syscall_spec(222, args) == (SyscallRequest::Mmap { start: args@[0], len: args@[1], prot: args@[2] }),
        syscall_spec(260, args) == (SyscallRequest::WaitPid { pid: args@[0] as isize, exit_code_ptr: args@[1] }),
        syscall_spec(400, args) == (SyscallRequest::Spawn { path: args@[0] }),
        forall|id: usize| supported_syscall(id) <==> (id == 63 || id == 64 || id == 93 || id == 124 || id == 140
            || id == 169 || id == 172 || id == 214 || id == 215 || id == 220 || id == 221 || id == 222 || id == 260
            || id == 400),
{
}

} // verus!
