use riscv_emulator::cpu::state::{CODE_START, INITIAL_SP, MEMORY_SIZE};
use riscv_emulator::CpuState;

#[test]
fn test_cpu_creation() {
    let cpu = CpuState::new();
    assert_eq!(cpu.pc(), CODE_START);
    assert_eq!(cpu.stack_pointer(), INITIAL_SP);
    assert!(!cpu.is_halted());
    assert_eq!(cpu.cycle_count(), 0);
}

#[test]
fn test_register_operations() {
    let mut cpu = CpuState::new();

    // x0 is always zero
    assert_eq!(cpu.read_register(0).unwrap(), 0);
    cpu.write_register(0, 42).unwrap();
    assert_eq!(cpu.read_register(0).unwrap(), 0);

    // Other registers work normally
    cpu.write_register(1, 100).unwrap();
    assert_eq!(cpu.read_register(1).unwrap(), 100);

    // Invalid register
    assert!(cpu.read_register(32).is_err());
    assert!(cpu.write_register(33, 0).is_err());
}

#[test]
fn state_test_memory_operations() {
    let mut cpu = CpuState::new();

    // Byte operations
    cpu.write_byte(0x100, 0x42).unwrap();
    assert_eq!(cpu.read_byte(0x100).unwrap(), 0x42);

    // Word operations (aligned)
    cpu.write_word(0x100, 0xDEADBEEF).unwrap();
    assert_eq!(cpu.read_word(0x100).unwrap(), 0xDEADBEEF);

    // Unaligned access
    assert!(cpu.write_word(0x101, 0).is_err());
    assert!(cpu.read_word(0x102).is_err());

    // Out of bounds
    assert!(cpu.write_byte(MEMORY_SIZE as u32, 0).is_err());
    assert!(cpu.read_word(MEMORY_SIZE as u32 - 2).is_err());
}

#[test]
fn test_flags() {
    let mut cpu = CpuState::new();

    // Zero result
    cpu.update_flags(0);
    assert!(cpu.flags().zero);
    assert!(!cpu.flags().negative);

    // Negative result
    cpu.update_flags(0xFFFFFFFF);
    assert!(!cpu.flags().zero);
    assert!(cpu.flags().negative);

    // Addition flags
    cpu.set_add_flags(0xFFFFFFFF, 1, 0);
    assert!(cpu.flags().carry); // Unsigned overflow

    // Signed overflow: MAX_POSITIVE + 1 = MIN_NEGATIVE
    cpu.set_add_flags(0x7FFFFFFF, 1, 0x80000000);
    assert!(cpu.flags().overflow);
}

#[test]
fn test_pc_operations() {
    let mut cpu = CpuState::new();

    assert_eq!(cpu.pc(), CODE_START);

    cpu.set_pc(0x100).unwrap();
    assert_eq!(cpu.pc(), 0x100);

    cpu.increment_pc().unwrap();
    assert_eq!(cpu.pc(), 0x104);

    // Out of bounds
    assert!(cpu.set_pc(MEMORY_SIZE as u32).is_err());
}

#[test]
fn state_test_halt() {
    let mut cpu = CpuState::new();

    assert!(!cpu.is_halted());
    cpu.halt();
    assert!(cpu.is_halted());
    cpu.resume();
    assert!(!cpu.is_halted());
}

#[test]
fn test_reset() {
    let mut cpu = CpuState::new();

    cpu.write_register(1, 42).unwrap();
    cpu.set_pc(0x100).unwrap();
    cpu.halt();
    cpu.tick();
    cpu.count_instruction();

    cpu.reset();

    assert_eq!(cpu.read_register(1).unwrap(), 0);
    assert_eq!(cpu.pc(), CODE_START);
    assert!(!cpu.is_halted());
    assert_eq!(cpu.cycle_count(), 0);
    assert_eq!(cpu.instruction_count(), 0);
}

#[test]
fn test_load_program() {
    let mut cpu = CpuState::new();

    let program = vec![0x13, 0x01, 0x50, 0x00]; // ADDI x1, x0, 5
    cpu.load_program(CODE_START, &program).unwrap();

    assert_eq!(cpu.read_byte(CODE_START).unwrap(), 0x13);
    assert_eq!(cpu.read_word(CODE_START).unwrap(), 0x00500113);

    // Out of bounds
    let too_large = vec![0; MEMORY_SIZE + 1];
    assert!(cpu.load_program(0, &too_large).is_err());
}
