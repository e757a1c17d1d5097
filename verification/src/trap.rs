//! Decoding of the supervisor trap-cause register and the register frame
//! saved on a trap. Reading and writing the hardware registers themselves
//! is left to the surrounding kernel; this module only interprets values.

use vstd::prelude::*;

verus! {

#[derive(Clone, Copy, Debug, PartialEq, Eq, Structural)]
pub enum InterruptCode {
    SupervisorSoftwareInterrupt,
    VirtualSupervisorSoftwareInterrupt,
    MachineSoftwareInterrupt,
    SupervisorTimerInterrupt,
    VirtualSupervisorTimerInterrupt,
    MachineTimerInterrupt,
    SupervisorExternalInterrupt,
    VirtualSupervisorExternalInterrupt,
    MachineExternalInterrupt,
    SupervisorGuestExternalInterrupt,
    LocalCounterOverflowInterrupt,
    Unknown,
}

#[derive(Clone, Copy, Debug, PartialEq, Eq, Structural)]
pub enum ExceptionCode {
    InstructionAddressMisaligned,
    InstructionAccessFault,
    InstructionPageFault,
    InstructionGuestPageFault,
    LoadPageFault,
    IllegalInstruction,
    Breakpoint,
    LoadAddressMisaligned,
    LoadAccessFault,
    LoadGuestPageFault,
    StoreAmoAddressMisaligned,
    StoreAmoAccessFault,
    StoreAmoPageFault,
    StoreAmoGuestPageFault,
    EnvironmentCallFromUserMode,
    EnvironmentCallFromHypervisorMode,
    EnvironmentCallFromVirtualSupervisorMode,
    EnvironmentCallFromMachineMode,
    DoubleTrap,
    SoftwareCheck,
    HardwareError,
    VirtualInstruction,
    Unknown,
}

/// The cause code carried in the trap-cause register: everything below the
/// interrupt bit.
pub open spec fn spec_scause_code(value: u64) -> u64 {
    value & 0x7FFF_FFFF_FFFF_FFFFu64
}

/// Which interrupt a cause code names.
pub open spec fn spec_interrupt_code(code: u64) -> InterruptCode {
    if code == 1 {
        InterruptCode::SupervisorSoftwareInterrupt
    } else if code == 2 {
        InterruptCode::VirtualSupervisorSoftwareInterrupt
    } else if code == 3 {
        InterruptCode::MachineSoftwareInterrupt
    } else if code == 5 {
        InterruptCode::SupervisorTimerInterrupt
    } else if code == 6 {
        InterruptCode::VirtualSupervisorTimerInterrupt
    } else if code == 7 {
        InterruptCode::MachineTimerInterrupt
    } else if code == 9 {
        InterruptCode::SupervisorExternalInterrupt
    } else if code == 10 {
        InterruptCode::VirtualSupervisorExternalInterrupt
    } else if code == 11 {
        InterruptCode::MachineExternalInterrupt
    } else if code == 12 {
        InterruptCode::SupervisorGuestExternalInterrupt
    } else {
        InterruptCode::Unknown
    }
}

/// Which exception a cause code names.
pub open spec fn spec_exception_code(code: u64) -> ExceptionCode {
    if code == 0 {
        ExceptionCode::InstructionAddressMisaligned
    } else if code == 1 {
        ExceptionCode::InstructionAccessFault
    } else if code == 2 {
        ExceptionCode::IllegalInstruction
    } else if code == 3 {
        ExceptionCode::Breakpoint
    } else if code == 4 {
        ExceptionCode::LoadAddressMisaligned
    } else if code == 5 {
        ExceptionCode::LoadAccessFault
    } else if code == 6 {
        ExceptionCode::StoreAmoAddressMisaligned
    } else if code == 7 {
        ExceptionCode::StoreAmoAccessFault
    } else if code == 8 {
        ExceptionCode::EnvironmentCallFromUserMode
    } else if code == 9 {
        ExceptionCode::EnvironmentCallFromHypervisorMode
    } else if code == 10 {
        ExceptionCode::EnvironmentCallFromVirtualSupervisorMode
    } else if code == 11 {
        ExceptionCode::EnvironmentCallFromMachineMode
    } else if code == 12 {
        ExceptionCode::InstructionPageFault
    } else if code == 13 {
        ExceptionCode::LoadPageFault
    } else if code == 15 {
        ExceptionCode::StoreAmoPageFault
    } else if code == 16 {
        ExceptionCode::DoubleTrap
    } else if code == 18 {
        ExceptionCode::SoftwareCheck
    } else if code == 19 {
        ExceptionCode::HardwareError
    } else if code == 20 {
        ExceptionCode::InstructionGuestPageFault
    } else if code == 21 {
        ExceptionCode::LoadGuestPageFault
    } else if code == 22 {
        ExceptionCode::VirtualInstruction
    } else if code == 23 {
        ExceptionCode::StoreAmoGuestPageFault
    } else {
        ExceptionCode::Unknown
    }
}

/// The supervisor trap-cause register value.
#[derive(Clone, Copy, Debug, PartialEq, Eq, Structural)]
pub struct Scause(pub u64);

impl View for Scause {
    type V = u64;

    open spec fn view(&self) -> u64 {
        self.0
    }
}

impl Scause {
    pub fn new(value: u64) -> (r: Scause)
        ensures
            r@ == value,
    {
        Scause(value)
    }

    pub fn value(&self) -> (r: u64)
        ensures
            r == self@,
    {
        self.0
    }

    /// The cause code below the interrupt bit.
    pub fn code(&self) -> (r: u64)
        ensures
            r == spec_scause_code(self@),
    {
        self.0 & 0x7FFF_FFFF_FFFF_FFFFu64
    }

    /// Which interrupt this cause names; meaningful only when
    /// `is_interrupt` holds.
    pub fn interrupt_code(&self) -> (r: InterruptCode)
        ensures
            r == spec_interrupt_code(spec_scause_code(self@)),
    {
        let code = self.code();
        if code == 1 {
            InterruptCode::SupervisorSoftwareInterrupt
        } else if code == 2 {
            InterruptCode::VirtualSupervisorSoftwareInterrupt
        } else if code == 3 {
            InterruptCode::MachineSoftwareInterrupt
        } else if code == 5 {
            InterruptCode::SupervisorTimerInterrupt
        } else if code == 6 {
            InterruptCode::VirtualSupervisorTimerInterrupt
        } else if code == 7 {
            InterruptCode::MachineTimerInterrupt
        } else if code == 9 {
            InterruptCode::SupervisorExternalInterrupt
        } else if code == 10 {
            InterruptCode::VirtualSupervisorExternalInterrupt
        } else if code == 11 {
            InterruptCode::MachineExternalInterrupt
        } else if code == 12 {
            InterruptCode::SupervisorGuestExternalInterrupt
        } else {
            InterruptCode::Unknown
        }
    }

    /// Which exception this cause names; meaningful only when
    /// `is_interrupt` does not hold.
    pub fn exception_code(&self) -> (r: ExceptionCode)
        ensures
            r == spec_exception_code(spec_scause_code(self@)),
    {
        let code = self.code();
        if code == 0 {
            ExceptionCode::InstructionAddressMisaligned
        } else if code == 1 {
            ExceptionCode::InstructionAccessFault
        } else if code == 2 {
            ExceptionCode::IllegalInstruction
        } else if code == 3 {
            ExceptionCode::Breakpoint
        } else if code == 4 {
            ExceptionCode::LoadAddressMisaligned
        } else if code == 5 {
            ExceptionCode::LoadAccessFault
        } else if code == 6 {
            ExceptionCode::StoreAmoAddressMisaligned
        } else if code == 7 {
            ExceptionCode::StoreAmoAccessFault
        } else if code == 8 {
            ExceptionCode::EnvironmentCallFromUserMode
        } else if code == 9 {
            ExceptionCode::EnvironmentCallFromHypervisorMode
        } else if code == 10 {
            ExceptionCode::EnvironmentCallFromVirtualSupervisorMode
        } else if code == 11 {
            ExceptionCode::EnvironmentCallFromMachineMode
        } else if code == 12 {
            ExceptionCode::InstructionPageFault
        } else if code == 13 {
            ExceptionCode::LoadPageFault
        } else if code == 15 {
            ExceptionCode::StoreAmoPageFault
        } else if code == 16 {
            ExceptionCode::DoubleTrap
        } else if code == 18 {
            ExceptionCode::SoftwareCheck
        } else if code == 19 {
            ExceptionCode::HardwareError
        } else if code == 20 {
            ExceptionCode::InstructionGuestPageFault
        } else if code == 21 {
            ExceptionCode::LoadGuestPageFault
        } else if code == 22 {
            ExceptionCode::VirtualInstruction
        } else if code == 23 {
            ExceptionCode::StoreAmoGuestPageFault
        } else {
            ExceptionCode::Unknown
        }
    }

    /// Whether the trap was an interrupt (top bit set) rather than an
    /// exception.
    pub fn is_interrupt(&self) -> (r: bool)
        ensures
            r <==> (self@ >> 63u64) == 1,
    {
        (self.0 >> 63u64) == 1
    }
}

/// The supervisor trap-value register value.
#[derive(Clone, Copy, Debug, PartialEq, Eq, Structural)]
pub struct Stval(pub u64);

impl Stval {
    pub fn new(value: u64) -> (r: Stval)
        ensures
            r.0 == value,
    {
        Stval(value)
    }

    pub fn value(&self) -> (r: u64)
        ensures
            r == self.0,
    {
        self.0
    }
}

/// The supervisor exception-program-counter register value.
#[derive(Clone, Copy, Debug, PartialEq, Eq, Structural)]
pub struct Sepc(pub u64);

impl Sepc {
    pub fn new(value: u64) -> (r: Sepc)
        ensures
            r.0 == value,
    {
        Sepc(value)
    }

    pub fn value(&self) -> (r: u64)
        ensures
            r == self.0,
    {
        self.0
    }
}

/// The supervisor status register value.
#[derive(Clone, Copy, Debug, PartialEq, Eq, Structural)]
pub struct Sstatus(pub u64);

impl Sstatus {
    pub fn new(value: u64) -> (r: Sstatus)
        ensures
            r.0 == value,
    {
        Sstatus(value)
    }

    pub fn value(&self) -> (r: u64)
        ensures
            r == self.0,
    {
        self.0
    }
}

/// The supervisor trap-vector register value.
#[derive(Clone, Copy, Debug, PartialEq, Eq, Structural)]
pub struct Stvec(pub u64);

impl Stvec {
    pub fn new(value: u64) -> (r: Stvec)
        ensures
            r.0 == value,
    {
        Stvec(value)
    }

    pub fn value(&self) -> (r: u64)
        ensures
            r == self.0,
    {
        self.0
    }
}

/// The general-purpose registers saved when a trap is taken.
#[derive(Clone, Copy, Debug)]
pub struct TrapFrame {
    pub ra: u64,
    pub gp: u64,
    pub tp: u64,
    pub t0: u64,
    pub t1: u64,
    pub t2: u64,
    pub t3: u64,
    pub t4: u64,
    pub t5: u64,
    pub t6: u64,
    pub a0: u64,
    pub a1: u64,
    pub a2: u64,
    pub a3: u64,
    pub a4: u64,
    pub a5: u64,
    pub a6: u64,
    pub a7: u64,
    pub s0: u64,
    pub s1: u64,
    pub s2: u64,
    pub s3: u64,
    pub s4: u64,
    pub s5: u64,
    pub s6: u64,
    pub s7: u64,
    pub s8: u64,
    pub s9: u64,
    pub s10: u64,
    pub s11: u64,
    pub sp: u64,
}

} // verus!
