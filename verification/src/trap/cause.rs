//! Decoding of the `scause` register.
use riscv::register::scause::{Exception as RvException, Interrupt as RvInterrupt};
use vstd::prelude::*;

verus! {

/// An interrupt, by the code `scause` holds for it.
#[derive(Clone, Copy, Debug, PartialEq, Eq, Structural)]
pub enum Interrupt {
    UserSoft,
    SupervisorSoft,
    UserTimer,
    SupervisorTimer,
    UserExternal,
    SupervisorExternal,
    Unknown,
}

/// An exception, by the code `scause` holds for it.
#[derive(Clone, Copy, Debug, PartialEq, Eq, Structural)]
pub enum Exception {
    InstructionMisaligned,
    InstructionFault,
    IllegalInstruction,
    Breakpoint,
    LoadFault,
    StoreMisaligned,
    StoreFault,
    UserEnvCall,
    InstructionPageFault,
    LoadPageFault,
    StorePageFault,
    Unknown,
}

/// The cause of a trap.
#[derive(Clone, Copy, Debug, PartialEq, Eq, Structural)]
pub enum Trap {
    Interrupt(Interrupt),
    Exception(Exception),
}

/// The interrupt that code `nr` stands for.
pub open spec fn interrupt_of(nr: usize) -> Interrupt {
    if nr == 0 {
        Interrupt::UserSoft
    } else if nr == 1 {
        Interrupt::SupervisorSoft
    } else if nr == 4 {
        Interrupt::UserTimer
    } else if nr == 5 {
        Interrupt::SupervisorTimer
    } else if nr == 8 {
        Interrupt::UserExternal
    } else if nr == 9 {
        Interrupt::SupervisorExternal
    } else {
        Interrupt::Unknown
    }
}

/// The exception that code `nr` stands for.
pub open spec fn exception_of(nr: usize) -> Exception {
    if nr == 0 {
        Exception::InstructionMisaligned
    } else if nr == 1 {
        Exception::InstructionFault
    } else if nr == 2 {
        Exception::IllegalInstruction
    } else if nr == 3 {
        Exception::Breakpoint
    } else if nr == 5 {
        Exception::LoadFault
    } else if nr == 6 {
        Exception::StoreMisaligned
    } else if nr == 7 {
        Exception::StoreFault
    } else if nr == 8 {
        Exception::UserEnvCall
    } else if nr == 12 {
        Exception::InstructionPageFault
    } else if nr == 13 {
        Exception::LoadPageFault
    } else if nr == 15 {
        Exception::StorePageFault
    } else {
        Exception::Unknown
    }
}

/// Whether the top bit of `bits` is set: the trap is an interrupt.
pub open spec fn scause_is_interrupt(bits: usize) -> bool {
    bits > usize::MAX / 2
}

/// The value of `bits` without its top bit: the code of the trap.
pub open spec fn scause_code(bits: usize) -> usize {
    if bits > usize::MAX / 2 {
        (bits - usize::MAX / 2 - 1) as usize
    } else {
        bits
    }
}

/// The cause that the register value `bits` stands for.
pub open spec fn trap_of(bits: usize) -> Trap {
    if scause_is_interrupt(bits) {
        Trap::Interrupt(interrupt_of(scause_code(bits)))
    } else {
        Trap::Exception(exception_of(scause_code(bits)))
    }
}

/// Calls `riscv::register::scause::Interrupt::from`.  The contract is that
/// function's own table: codes 0, 1, 4, 5, 8 and 9 name the user and
/// supervisor software, timer and external interrupts, and every other code
/// is `Unknown`.
#[verifier::external_body]
fn interrupt_from(nr: usize) -> (i: Interrupt)
    ensures
        i == interrupt_of(nr),
{
    match RvInterrupt::from(nr) {
        RvInterrupt::UserSoft => Interrupt::UserSoft,
        RvInterrupt::SupervisorSoft => Interrupt::SupervisorSoft,
        RvInterrupt::UserTimer => Interrupt::UserTimer,
        RvInterrupt::SupervisorTimer => Interrupt::SupervisorTimer,
        RvInterrupt::UserExternal => Interrupt::UserExternal,
        RvInterrupt::SupervisorExternal => Interrupt::SupervisorExternal,
        RvInterrupt::Unknown => Interrupt::Unknown,
    }
}

/// Calls `riscv::register::scause::Exception::from`.  The contract is that
/// function's own table: codes 0 to 3, 5 to 8, 12, 13 and 15 name the
/// exceptions of the privileged architecture, and every other code is
/// `Unknown`.
#[verifier::external_body]
fn exception_from(nr: usize) -> (e: Exception)
    ensures
        e == exception_of(nr),
{
    match RvException::from(nr) {
        RvException::InstructionMisaligned => Exception::InstructionMisaligned,
        RvException::InstructionFault => Exception::InstructionFault,
        RvException::IllegalInstruction => Exception::IllegalInstruction,
        RvException::Breakpoint => Exception::Breakpoint,
        RvException::LoadFault => Exception::LoadFault,
        RvException::StoreMisaligned => Exception::StoreMisaligned,
        RvException::StoreFault => Exception::StoreFault,
        RvException::UserEnvCall => Exception::UserEnvCall,
        RvException::InstructionPageFault => Exception::InstructionPageFault,
        RvException::LoadPageFault => Exception::LoadPageFault,
        RvException::StorePageFault => Exception::StorePageFault,
        RvException::Unknown => Exception::Unknown,
    }
}

/// The cause that the value `bits` of `scause` stands for: the top bit tells
/// interrupts from exceptions, the other bits are the code.
pub fn decode_scause(bits: usize) -> (t: Trap)
    ensures
        t == trap_of(bits),
{
    if bits > usize::MAX / 2 {
        Trap::Interrupt(interrupt_from(bits - usize::MAX / 2 - 1))
    } else {
        Trap::Exception(exception_from(bits))
    }
}

/// Whether the kernel handles traps of this cause.
pub open spec fn is_supported(t: Trap) -> bool {
    match t {
        Trap::Exception(Exception::UserEnvCall) => true,
        Trap::Exception(Exception::StoreFault) => true,
        Trap::Exception(Exception::StorePageFault) => true,
        Trap::Exception(Exception::LoadFault) => true,
        Trap::Exception(Exception::LoadPageFault) => true,
        Trap::Exception(Exception::InstructionFault) => true,
        Trap::Exception(Exception::InstructionPageFault) => true,
        Trap::Exception(Exception::IllegalInstruction) => true,
        Trap::Interrupt(Interrupt::SupervisorTimer) => true,
        _ => false,
    }
}

/// Whether the kernel handles traps of this cause.
pub fn supported_trap(t: Trap) -> (r: bool)
    ensures
        r == is_supported(t),
{
    match t {
        Trap::Exception(Exception::UserEnvCall) => true,
        Trap::Exception(Exception::StoreFault) => true,
        Trap::Exception(Exception::StorePageFault) => true,
        Trap::Exception(Exception::LoadFault) => true,
        Trap::Exception(Exception::LoadPageFault) => true,
        Trap::Exception(Exception::InstructionFault) => true,
        Trap::Exception(Exception::InstructionPageFault) => true,
        Trap::Exception(Exception::IllegalInstruction) => true,
        Trap::Interrupt(Interrupt::SupervisorTimer) => true,
        _ => false,
    }
}

} // verus!
