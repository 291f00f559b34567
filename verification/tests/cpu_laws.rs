use riscv_emulator::cpu::state::{CODE_START, MEMORY_SIZE, STACK_END};
use riscv_emulator::{execute, CpuError, CpuState, Instruction, StatusFlags};

#[test]
fn x0_stays_zero_through_writes_and_execution() {
    let mut cpu = CpuState::new();
    cpu.write_register(0, 7).unwrap();
    assert_eq!(cpu.read_register(0).unwrap(), 0);
    execute(&mut cpu, Instruction::Addi { rd: 0, rs1: 0, imm: 99 }).unwrap();
    assert_eq!(cpu.read_register(0).unwrap(), 0);
    assert_eq!(cpu.registers()[0], 0);
}

#[test]
fn register_write_leaves_others() {
    let mut cpu = CpuState::new();
    cpu.write_register(5, 0xABCD).unwrap();
    assert_eq!(cpu.read_register(5).unwrap(), 0xABCD);
    assert_eq!(cpu.read_register(2).unwrap(), STACK_END);
    assert_eq!(cpu.read_register(6).unwrap(), 0);
    assert_eq!(cpu.read_register(31).unwrap(), 0);
}

#[test]
fn word_is_little_endian() {
    let mut cpu = CpuState::new();
    cpu.write_word(0x200, 0x11223344).unwrap();
    assert_eq!(cpu.read_byte(0x200).unwrap(), 0x44);
    assert_eq!(cpu.read_byte(0x201).unwrap(), 0x33);
    assert_eq!(cpu.read_byte(0x202).unwrap(), 0x22);
    assert_eq!(cpu.read_byte(0x203).unwrap(), 0x11);
    assert_eq!(cpu.read_byte(0x204).unwrap(), 0);
    assert_eq!(cpu.read_word(0x200).unwrap(), 0x11223344);
}

#[test]
fn word_access_errors() {
    let mut cpu = CpuState::new();
    assert_eq!(cpu.read_word(0x101), Err(CpuError::UnalignedAccess(0x101, 4)));
    assert_eq!(cpu.write_word(0x400, 1), Err(CpuError::MemoryOutOfBounds(0x400, 4)));
    assert_eq!(cpu.write_word(0x3FC, 1), Ok(()));
    assert_eq!(cpu.read_word(0x3FC), Ok(1));
    assert_eq!(cpu.read_word(0x3F8).unwrap(), 0);
    assert_eq!(cpu.read_byte(1024), Err(CpuError::MemoryOutOfBounds(1024, 1)));
    assert_eq!(cpu.write_register(32, 1), Err(CpuError::InvalidRegister(32)));
}

#[test]
fn reset_keeps_memory_hard_reset_clears() {
    let mut cpu = CpuState::new();
    cpu.write_byte(0x10, 9).unwrap();
    cpu.write_register(3, 3).unwrap();
    cpu.reset();
    assert_eq!(cpu.read_byte(0x10).unwrap(), 9);
    assert_eq!(cpu.read_register(3).unwrap(), 0);
    assert_eq!(cpu.stack_pointer(), STACK_END);
    cpu.hard_reset();
    assert_eq!(cpu.read_byte(0x10).unwrap(), 0);
}

#[test]
fn load_program_places_bytes() {
    let mut cpu = CpuState::new();
    cpu.load_program(0x3FC, &[1, 2, 3, 4]).unwrap();
    assert_eq!(cpu.read_word(0x3F8).unwrap(), 0);
    assert_eq!(cpu.read_byte(0x3FF).unwrap(), 4);
    assert_eq!(cpu.load_program(0x3FD, &[1, 2, 3, 4]), Err(CpuError::MemoryOutOfBounds(0x3FD, 4)));
    assert_eq!(cpu.memory_slice(0x3FC, 4).unwrap(), &[1, 2, 3, 4]);
    assert_eq!(cpu.memory_slice(0x3FF, 2), Err(CpuError::MemoryOutOfBounds(0x3FF, 2)));
    assert_eq!(cpu.memory().len(), MEMORY_SIZE);
}

#[test]
fn halted_cpu_refuses_and_halt_costs_no_cycle() {
    let mut cpu = CpuState::new();
    assert_eq!(execute(&mut cpu, Instruction::Halt), Ok(false));
    assert_eq!(cpu.cycle_count(), 0);
    assert_eq!(cpu.instruction_count(), 1);
    assert_eq!(cpu.pc(), CODE_START);
    assert_eq!(execute(&mut cpu, Instruction::Nop), Err(CpuError::Halted));
    assert_eq!(cpu.instruction_count(), 1);
}

#[test]
fn failed_instruction_is_counted_without_a_cycle() {
    let mut cpu = CpuState::new();
    let r = execute(&mut cpu, Instruction::Add { rd: 40, rs1: 1, rs2: 2 });
    assert_eq!(r, Err(CpuError::InvalidRegister(40)));
    assert_eq!(cpu.instruction_count(), 1);
    assert_eq!(cpu.cycle_count(), 0);
    assert_eq!(cpu.pc(), 0);
}

#[test]
fn failure_after_write_keeps_the_write() {
    // The register is written before the program counter moves out of memory.
    let mut cpu = CpuState::new();
    cpu.set_pc(1020).unwrap();
    let r = execute(&mut cpu, Instruction::Addi { rd: 1, rs1: 0, imm: 5 });
    assert_eq!(r, Err(CpuError::PcOutOfBounds(1024)));
    assert_eq!(cpu.read_register(1).unwrap(), 5);
    assert_eq!(cpu.pc(), 1020);
}

#[test]
fn arithmetic_flags() {
    let mut cpu = CpuState::new();
    cpu.write_register(1, 0xFFFF_FFFF).unwrap();
    execute(&mut cpu, Instruction::Addi { rd: 2, rs1: 1, imm: 1 }).unwrap();
    assert_eq!(cpu.read_register(2).unwrap(), 0);
    assert_eq!(
        cpu.flags(),
        StatusFlags { zero: true, negative: false, carry: true, overflow: false }
    );
    execute(&mut cpu, Instruction::Sub { rd: 3, rs1: 0, rs2: 1 }).unwrap();
    assert_eq!(cpu.read_register(3).unwrap(), 1);
    assert!(cpu.flags().carry);
    assert_eq!(cpu.flags().to_string(), "Z=0 N=0 C=1 V=0");
}

#[test]
fn signed_comparisons() {
    let mut cpu = CpuState::new();
    cpu.write_register(1, 0xFFFF_FFFF).unwrap(); // -1
    cpu.write_register(3, 2).unwrap();
    execute(&mut cpu, Instruction::Slt { rd: 2, rs1: 1, rs2: 3 }).unwrap();
    assert_eq!(cpu.read_register(2).unwrap(), 1);
    execute(&mut cpu, Instruction::Slti { rd: 2, rs1: 1, imm: -2 }).unwrap();
    assert_eq!(cpu.read_register(2).unwrap(), 0);
    execute(&mut cpu, Instruction::Blt { rs1: 1, rs2: 0, offset: 100 }).unwrap();
    assert_eq!(cpu.pc(), 108);
    execute(&mut cpu, Instruction::Bge { rs1: 1, rs2: 0, offset: 100 }).unwrap();
    assert_eq!(cpu.pc(), 112);
}

#[test]
fn negative_offsets_wrap() {
    let mut cpu = CpuState::new();
    cpu.set_pc(40).unwrap();
    execute(&mut cpu, Instruction::J { offset: -8 }).unwrap();
    assert_eq!(cpu.pc(), 32);
    let r = execute(&mut cpu, Instruction::J { offset: -40 });
    assert_eq!(r, Err(CpuError::PcOutOfBounds(0xFFFF_FFF8)));
    cpu.write_register(4, 0x104).unwrap();
    cpu.write_register(5, 0x8081).unwrap();
    execute(&mut cpu, Instruction::Sb { rs2: 5, rs1: 4, offset: -4 }).unwrap();
    assert_eq!(cpu.read_byte(0x100).unwrap(), 0x81);
    execute(&mut cpu, Instruction::Lb { rd: 6, rs1: 4, offset: -4 }).unwrap();
    assert_eq!(cpu.read_register(6).unwrap(), 0xFFFF_FF81);
}

#[test]
fn only_stores_change_memory() {
    let mut cpu = CpuState::new();
    cpu.write_word(0x100, 5).unwrap();
    let before = cpu.memory().to_vec();
    cpu.write_register(1, 0x100).unwrap();
    execute(&mut cpu, Instruction::Lw { rd: 2, rs1: 1, offset: 0 }).unwrap();
    assert_eq!(cpu.read_register(2).unwrap(), 5);
    assert_eq!(cpu.memory().to_vec(), before);
    execute(&mut cpu, Instruction::Sw { rs2: 1, rs1: 1, offset: 4 }).unwrap();
    assert_eq!(cpu.read_word(0x104).unwrap(), 0x100);
}

#[test]
fn cpu_error_messages() {
    assert_eq!(CpuError::InvalidRegister(40).to_string(), "Invalid register: x40 (must be 0-31)");
    assert_eq!(
        CpuError::MemoryOutOfBounds(0x400, 1).to_string(),
        "Memory access out of bounds: 0x400 (size: 1 bytes)"
    );
    assert_eq!(
        CpuError::UnalignedAccess(0x101, 4).to_string(),
        "Unaligned memory access: 0x101 (must be aligned to 4 bytes)"
    );
    assert_eq!(CpuError::Halted.to_string(), "CPU is halted");
    assert_eq!(CpuError::PcOutOfBounds(0xABC).to_string(), "Program counter out of bounds: 0xABC");
}

#[test]
fn instruction_text_and_kinds() {
    assert_eq!(Instruction::Add { rd: 3, rs1: 1, rs2: 2 }.to_string(), "ADD x3, x1, x2");
    assert_eq!(Instruction::Addi { rd: 1, rs1: 0, imm: -5 }.to_string(), "ADDI x1, x0, -5");
    assert_eq!(Instruction::Lw { rd: 1, rs1: 2, offset: 4 }.to_string(), "LW x1, 4(x2)");
    assert_eq!(Instruction::Sb { rs2: 3, rs1: 4, offset: -8 }.to_string(), "SB x3, -8(x4)");
    assert_eq!(Instruction::Bne { rs1: 1, rs2: 2, offset: -2 }.to_string(), "BNE x1, x2, -2");
    assert_eq!(Instruction::J { offset: 16 }.to_string(), "J 16");
    assert_eq!(Instruction::Jal { rd: 1, offset: 20 }.to_string(), "JAL x1, 20");
    assert_eq!(Instruction::Jalr { rd: 1, rs1: 2, offset: 0 }.to_string(), "JALR x1, 0(x2)");
    assert_eq!(Instruction::Nop.to_string(), "NOP");
    assert_eq!(Instruction::Halt.mnemonic(), "HALT");
    assert!(Instruction::Jalr { rd: 1, rs1: 2, offset: 0 }.is_control_flow());
    assert!(!Instruction::Lw { rd: 1, rs1: 2, offset: 0 }.is_control_flow());
    assert!(Instruction::Sb { rs2: 1, rs1: 2, offset: 0 }.is_memory_access());
    assert!(!Instruction::Halt.is_memory_access());
}

#[test]
fn cpu_state_text() {
    let mut cpu = CpuState::new();
    cpu.write_register(1, 0xFFFF_FFFE).unwrap();
    let text = cpu.to_string();
    assert!(text.starts_with(
        "CPU State:\n  PC:     0x0000\n  Flags:  Z=0 N=0 C=0 V=0\n  Cycles: 0\n  Instr:  0\n  Halted: false\n  Registers:\n"
    ));
    assert!(text.contains("    x0 (zero): 0x00000000 (0)\n"));
    assert!(text.contains("    x1 (ra  ): 0xFFFFFFFE (-2)\n"));
    assert!(text.contains("    x2 (sp  ): 0x000002FF (767)\n"));
    assert!(text.ends_with("    x31 (t6  ): 0x00000000 (0)\n"));
}

#[test]
fn stack_pointer_is_x2() {
    let mut cpu = CpuState::new();
    assert_eq!(cpu.stack_pointer(), cpu.read_register(2).unwrap());
    cpu.set_stack_pointer(0x300);
    assert_eq!(cpu.stack_pointer(), 0x300);
    assert_eq!(cpu.read_register(2), Ok(0x300));
    assert_eq!(cpu.read_register(1), Ok(0));
}
