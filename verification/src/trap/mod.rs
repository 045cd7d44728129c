//! What the trap handler does for each trap cause.
//!
//! The cause comes from the `scause` register: its top bit tells interrupts
//! from exceptions, the other bits give the code, which the `riscv` crate
//! names.
use vstd::prelude::*;
use riscv::register::scause::{Exception, Interrupt};

verus! {

/// An interrupt, as `riscv::register::scause::Interrupt` names it.
#[derive(Clone, Copy, PartialEq, Eq, Structural, Debug)]
pub enum InterruptKind {
    /// User software interrupt.
    UserSoft,
    /// Supervisor software interrupt.
    SupervisorSoft,
    /// User timer interrupt.
    UserTimer,
    /// Supervisor timer interrupt.
    SupervisorTimer,
    /// User external interrupt.
    UserExternal,
    /// Supervisor external interrupt.
    SupervisorExternal,
    /// Any other code.
    Unknown,
}

/// An exception, as `riscv::register::scause::Exception` names it.
#[derive(Clone, Copy, PartialEq, Eq, Structural, Debug)]
pub enum ExceptionKind {
    /// Misaligned instruction address.
    InstructionMisaligned,
    /// Instruction access fault.
    InstructionFault,
    /// Illegal instruction.
    IllegalInstruction,
    /// Breakpoint.
    Breakpoint,
    /// Load access fault.
    LoadFault,
    /// Misaligned store address.
    StoreMisaligned,
    /// Store access fault.
    StoreFault,
    /// Environment call from user mode.
    UserEnvCall,
    /// Instruction page fault.
    InstructionPageFault,
    /// Load page fault.
    LoadPageFault,
    /// Store page fault.
    StorePageFault,
    /// Any other code.
    Unknown,
}

/// The interrupt with code `nr`.
pub open spec fn interrupt_of(nr: usize) -> InterruptKind {
    if nr == 0 {
        InterruptKind::UserSoft
    } else if nr == 1 {
        InterruptKind::SupervisorSoft
    } else if nr == 4 {
        InterruptKind::UserTimer
    } else if nr == 5 {
        InterruptKind::SupervisorTimer
    } else if nr == 8 {
        InterruptKind::UserExternal
    } else if nr == 9 {
        InterruptKind::SupervisorExternal
    } else {
        InterruptKind::Unknown
    }
}

/// The exception with code `nr`.
pub open spec fn exception_of(nr: usize) -> ExceptionKind {
    if nr == 0 {
        ExceptionKind::InstructionMisaligned
    } else if nr == 1 {
        ExceptionKind::InstructionFault
    } else if nr == 2 {
        ExceptionKind::IllegalInstruction
    } else if nr == 3 {
        ExceptionKind::Breakpoint
    } else if nr == 5 {
        ExceptionKind::LoadFault
    } else if nr == 6 {
        ExceptionKind::StoreMisaligned
    } else if nr == 7 {
        ExceptionKind::StoreFault
    } else if nr == 8 {
        ExceptionKind::UserEnvCall
    } else if nr == 12 {
        ExceptionKind::InstructionPageFault
    } else if nr == 13 {
        ExceptionKind::LoadPageFault
    } else if nr == 15 {
        ExceptionKind::StorePageFault
    } else {
        ExceptionKind::Unknown
    }
}

/// `riscv::register::scause::Interrupt::from`: the interrupt named by code
/// `nr` (the crate's table, as `interrupt_of` writes it).
#[verifier::external_body]
fn interrupt_from(nr: usize) -> (r: InterruptKind)
    ensures
        r == interrupt_of(nr),
{
    match Interrupt::from(nr) {
        Interrupt::UserSoft => InterruptKind::UserSoft,
        Interrupt::SupervisorSoft => InterruptKind::SupervisorSoft,
        Interrupt::UserTimer => InterruptKind::UserTimer,
        Interrupt::SupervisorTimer => InterruptKind::SupervisorTimer,
        Interrupt::UserExternal => InterruptKind::UserExternal,
        Interrupt::SupervisorExternal => InterruptKind::SupervisorExternal,
        Interrupt::Unknown => InterruptKind::Unknown,
    }
}

/// `riscv::register::scause::Exception::from`: the exception named by code
/// `nr` (the crate's table, as `exception_of` writes it).
#[verifier::external_body]
fn exception_from(nr: usize) -> (r: ExceptionKind)
    ensures
        r == exception_of(nr),
{
    match Exception::from(nr) {
        Exception::InstructionMisaligned => ExceptionKind::InstructionMisaligned,
        Exception::InstructionFault => ExceptionKind::InstructionFault,
        Exception::IllegalInstruction => ExceptionKind::IllegalInstruction,
        Exception::Breakpoint => ExceptionKind::Breakpoint,
        Exception::LoadFault => ExceptionKind::LoadFault,
        Exception::StoreMisaligned => ExceptionKind::StoreMisaligned,
        Exception::StoreFault => ExceptionKind::StoreFault,
        Exception::UserEnvCall => ExceptionKind::UserEnvCall,
        Exception::InstructionPageFault => ExceptionKind::InstructionPageFault,
        Exception::LoadPageFault => ExceptionKind::LoadPageFault,
        Exception::StorePageFault => ExceptionKind::StorePageFault,
        Exception::Unknown => ExceptionKind::Unknown,
    }
}

/// The cause of a trap.
#[derive(Clone, Copy, PartialEq, Eq, Structural, Debug)]
pub enum TrapCause {
    /// An interrupt.
    Interrupt(InterruptKind),
    /// An exception.
    Exception(ExceptionKind),
}

/// The cause held in a value of `scause`: an interrupt when its top bit is
/// set, an exception otherwise, with the code in the other bits.
pub open spec fn trap_cause_spec(scause: usize) -> TrapCause {
    let top = usize::MAX / 2 + 1;
    if scause >= top {
        TrapCause::Interrupt(interrupt_of((scause - top) as usize))
    } else {
        TrapCause::Exception(exception_of(scause))
    }
}

/// Decodes a value of `scause`.
pub fn trap_cause(scause: usize) -> (r: TrapCause)
    ensures
        r == trap_cause_spec(scause),
{
    let top: usize = usize::MAX / 2 + 1;
    if scause >= top {
        TrapCause::Interrupt(interrupt_from(scause - top))
    } else {
        TrapCause::Exception(exception_from(scause))
    }
}

/// What the trap handler does.
#[derive(Clone, Copy, PartialEq, Eq, Structural, Debug)]
pub enum TrapAction {
    /// Steps past the `ecall` (the saved `sepc` grows by 4), runs the system
    /// call numbered by `x17` with arguments `x10`..`x12`, and hands its
    /// result back in `x10`.
    Syscall,
    /// Reports the trap and ends the application with this exit code.
    Kill(i32),
    /// Arms the next timer interrupt and switches to the next task.
    Preempt,
    /// A trap the kernel does not handle: it panics.
    Unsupported,
}

/// The action for each cause: a system call for an environment call from
/// user mode; exit code -2 for access and page faults on loads, stores and
/// instruction fetches; -3 for an illegal instruction; preemption for the
/// supervisor timer; nothing else is handled.
pub open spec fn trap_action_spec(cause: TrapCause) -> TrapAction {
    match cause {
        TrapCause::Exception(ExceptionKind::UserEnvCall) => TrapAction::Syscall,
        TrapCause::Exception(ExceptionKind::StoreFault)
        | TrapCause::Exception(ExceptionKind::StorePageFault)
        | TrapCause::Exception(ExceptionKind::InstructionFault)
        | TrapCause::Exception(ExceptionKind::InstructionPageFault)
        | TrapCause::Exception(ExceptionKind::LoadFault)
        | TrapCause::Exception(ExceptionKind::LoadPageFault) => TrapAction::Kill(-2i32),
        TrapCause::Exception(ExceptionKind::IllegalInstruction) => TrapAction::Kill(-3i32),
        TrapCause::Interrupt(InterruptKind::SupervisorTimer) => TrapAction::Preempt,
        _ => TrapAction::Unsupported,
    }
}

/// The trap handler's decision for a trap of cause `cause`.
pub fn trap_handler(cause: TrapCause) -> (r: TrapAction)
    ensures
        r == trap_action_spec(cause),
{
    match cause {
        TrapCause::Exception(ExceptionKind::UserEnvCall) => TrapAction::Syscall,
        TrapCause::Exception(ExceptionKind::StoreFault)
        | TrapCause::Exception(ExceptionKind::StorePageFault)
        | TrapCause::Exception(ExceptionKind::InstructionFault)
        | TrapCause::Exception(ExceptionKind::InstructionPageFault)
        | TrapCause::Exception(ExceptionKind::LoadFault)
        | TrapCause::Exception(ExceptionKind::LoadPageFault) => TrapAction::Kill(-2),
        TrapCause::Exception(ExceptionKind::IllegalInstruction) => TrapAction::Kill(-3),
        TrapCause::Interrupt(InterruptKind::SupervisorTimer) => TrapAction::Preempt,
        _ => TrapAction::Unsupported,
    }
}


/// What a trap from a user program leads to, by its `scause` code: an
/// environment call (8) is a system call; every access fault and page
/// fault, of a load (5, 13), a store (7, 15) or an instruction fetch (1, 12),
/// kills the program with exit code -2; an illegal instruction (2) kills it
/// with -3; the supervisor timer interrupt preempts it. No fault of a user
/// program is left unhandled.
pub proof fn lemma_user_faults_kill()
    ensures
        trap_action_spec(TrapCause::Exception(ExceptionKind::LoadFault)) == TrapAction::Kill(-2i32),
        trap_action_spec(TrapCause::Exception(ExceptionKind::LoadPageFault)) == TrapAction::Kill(-2i32),
        trap_action_spec(TrapCause::Exception(ExceptionKind::StoreFault)) == TrapAction::Kill(-2i32),
        trap_action_spec(TrapCause::Exception(ExceptionKind::StorePageFault)) == TrapAction::Kill(-2i32),
        trap_action_spec(TrapCause::Exception(ExceptionKind::InstructionFault)) == TrapAction::Kill(-2i32),
        trap_action_spec(TrapCause::Exception(ExceptionKind::InstructionPageFault)) == TrapAction::Kill(-2i32),
        trap_action_spec(TrapCause::Exception(ExceptionKind::IllegalInstruction)) == TrapAction::Kill(-3i32),
        trap_action_spec(TrapCause::Exception(ExceptionKind::UserEnvCall)) == TrapAction::Syscall,
        trap_action_spec(TrapCause::Interrupt(InterruptKind::SupervisorTimer)) == TrapAction::Preempt,
        forall|code: usize|
            (code == 1 || code == 5 || code == 7 || code == 12 || code == 13 || code == 15)
                ==> #[trigger] trap_action_spec(trap_cause_spec(code)) == TrapAction::Kill(-2i32),
        trap_action_spec(trap_cause_spec(2)) == TrapAction::Kill(-3i32),
        trap_action_spec(trap_cause_spec(8)) == TrapAction::Syscall,
        trap_action_spec(trap_cause_spec((usize::MAX / 2 + 1 + 5) as usize)) == TrapAction::Preempt,
{
}

} // verus!
