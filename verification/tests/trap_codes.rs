use nekos_mem::trap::{ExceptionCode, InterruptCode, Scause, Sepc, Sstatus, Stval, Stvec};

const INTERRUPT_BIT: u64 = 1 << 63;

#[test]
fn interrupt_bit_distinguishes_traps() {
    assert!(Scause::new(INTERRUPT_BIT | 5).is_interrupt());
    assert!(!Scause::new(5).is_interrupt());
}

#[test]
fn code_strips_the_interrupt_bit() {
    assert_eq!(Scause::new(INTERRUPT_BIT | 9).code(), 9);
    assert_eq!(Scause::new(13).code(), 13);
}

#[test]
fn interrupt_codes_decode() {
    let decode = |c: u64| Scause::new(INTERRUPT_BIT | c).interrupt_code();
    assert_eq!(decode(1), InterruptCode::SupervisorSoftwareInterrupt);
    assert_eq!(decode(2), InterruptCode::VirtualSupervisorSoftwareInterrupt);
    assert_eq!(decode(3), InterruptCode::MachineSoftwareInterrupt);
    assert_eq!(decode(5), InterruptCode::SupervisorTimerInterrupt);
    assert_eq!(decode(6), InterruptCode::VirtualSupervisorTimerInterrupt);
    assert_eq!(decode(7), InterruptCode::MachineTimerInterrupt);
    assert_eq!(decode(9), InterruptCode::SupervisorExternalInterrupt);
    assert_eq!(decode(10), InterruptCode::VirtualSupervisorExternalInterrupt);
    assert_eq!(decode(11), InterruptCode::MachineExternalInterrupt);
    assert_eq!(decode(12), InterruptCode::SupervisorGuestExternalInterrupt);
    assert_eq!(decode(4), InterruptCode::Unknown);
    assert_eq!(decode(999), InterruptCode::Unknown);
}

#[test]
fn exception_codes_decode() {
    let decode = |c: u64| Scause::new(c).exception_code();
    assert_eq!(decode(0), ExceptionCode::InstructionAddressMisaligned);
    assert_eq!(decode(1), ExceptionCode::InstructionAccessFault);
    assert_eq!(decode(2), ExceptionCode::IllegalInstruction);
    assert_eq!(decode(3), ExceptionCode::Breakpoint);
    assert_eq!(decode(4), ExceptionCode::LoadAddressMisaligned);
    assert_eq!(decode(5), ExceptionCode::LoadAccessFault);
    assert_eq!(decode(6), ExceptionCode::StoreAmoAddressMisaligned);
    assert_eq!(decode(7), ExceptionCode::StoreAmoAccessFault);
    assert_eq!(decode(8), ExceptionCode::EnvironmentCallFromUserMode);
    assert_eq!(decode(12), ExceptionCode::InstructionPageFault);
    assert_eq!(decode(13), ExceptionCode::LoadPageFault);
    assert_eq!(decode(15), ExceptionCode::StoreAmoPageFault);
    assert_eq!(decode(23), ExceptionCode::StoreAmoGuestPageFault);
    assert_eq!(decode(14), ExceptionCode::Unknown);
    assert_eq!(decode(24), ExceptionCode::Unknown);
}

#[test]
fn csr_value_wrappers_hold_their_value() {
    assert_eq!(Stval::new(42).value(), 42);
    assert_eq!(Sepc::new(0xdead_beef).value(), 0xdead_beef);
    assert_eq!(Sstatus::new(0x100).value(), 0x100);
    assert_eq!(Stvec::new(0x8020_0000).value(), 0x8020_0000);
}
