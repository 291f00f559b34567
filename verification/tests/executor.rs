use riscv_emulator::{execute, CpuError, CpuState, Instruction};

#[test]
fn test_add() {
    let mut cpu = CpuState::new();
    cpu.write_register(1, 10).unwrap();
    cpu.write_register(2, 20).unwrap();

    let inst = Instruction::Add {
        rd: 3,
        rs1: 1,
        rs2: 2,
    };
    execute(&mut cpu, inst).unwrap();

    assert_eq!(cpu.read_register(3).unwrap(), 30);
    assert_eq!(cpu.pc(), 4);
    assert_eq!(cpu.instruction_count(), 1);
}

#[test]
fn test_sub() {
    let mut cpu = CpuState::new();
    cpu.write_register(1, 50).unwrap();
    cpu.write_register(2, 20).unwrap();

    let inst = Instruction::Sub {
        rd: 3,
        rs1: 1,
        rs2: 2,
    };
    execute(&mut cpu, inst).unwrap();

    assert_eq!(cpu.read_register(3).unwrap(), 30);
    assert!(!cpu.flags().zero);
}

#[test]
fn test_addi() {
    let mut cpu = CpuState::new();
    cpu.write_register(1, 10).unwrap();

    let inst = Instruction::Addi {
        rd: 2,
        rs1: 1,
        imm: 5,
    };
    execute(&mut cpu, inst).unwrap();

    assert_eq!(cpu.read_register(2).unwrap(), 15);
}

#[test]
fn test_logical_ops() {
    let mut cpu = CpuState::new();
    cpu.write_register(1, 0b1100).unwrap();
    cpu.write_register(2, 0b1010).unwrap();

    // AND
    execute(
        &mut cpu,
        Instruction::And {
            rd: 3,
            rs1: 1,
            rs2: 2,
        },
    )
    .unwrap();
    assert_eq!(cpu.read_register(3).unwrap(), 0b1000);

    // OR
    cpu.set_pc(0).unwrap();
    execute(
        &mut cpu,
        Instruction::Or {
            rd: 4,
            rs1: 1,
            rs2: 2,
        },
    )
    .unwrap();
    assert_eq!(cpu.read_register(4).unwrap(), 0b1110);

    // XOR
    cpu.set_pc(0).unwrap();
    execute(
        &mut cpu,
        Instruction::Xor {
            rd: 5,
            rs1: 1,
            rs2: 2,
        },
    )
    .unwrap();
    assert_eq!(cpu.read_register(5).unwrap(), 0b0110);
}

#[test]
fn test_slt() {
    let mut cpu = CpuState::new();
    cpu.write_register(1, 5).unwrap();
    cpu.write_register(2, 10).unwrap();

    execute(
        &mut cpu,
        Instruction::Slt {
            rd: 3,
            rs1: 1,
            rs2: 2,
        },
    )
    .unwrap();
    assert_eq!(cpu.read_register(3).unwrap(), 1);

    cpu.set_pc(0).unwrap();
    execute(
        &mut cpu,
        Instruction::Slt {
            rd: 4,
            rs1: 2,
            rs2: 1,
        },
    )
    .unwrap();
    assert_eq!(cpu.read_register(4).unwrap(), 0);
}

#[test]
fn executor_test_memory_operations() {
    let mut cpu = CpuState::new();

    // Store word
    cpu.write_register(1, 0x100).unwrap(); // Base address
    cpu.write_register(2, 0xDEADBEEF).unwrap(); // Value

    execute(
        &mut cpu,
        Instruction::Sw {
            rs2: 2,
            rs1: 1,
            offset: 0,
        },
    )
    .unwrap();

    // Load word
    cpu.set_pc(0).unwrap();
    execute(
        &mut cpu,
        Instruction::Lw {
            rd: 3,
            rs1: 1,
            offset: 0,
        },
    )
    .unwrap();

    assert_eq!(cpu.read_register(3).unwrap(), 0xDEADBEEF);
}

#[test]
fn test_byte_operations() {
    let mut cpu = CpuState::new();

    // Store byte
    cpu.write_register(1, 0x100).unwrap();
    cpu.write_register(2, 0xFF).unwrap();

    execute(
        &mut cpu,
        Instruction::Sb {
            rs2: 2,
            rs1: 1,
            offset: 0,
        },
    )
    .unwrap();

    // Load byte (sign-extended)
    cpu.set_pc(0).unwrap();
    execute(
        &mut cpu,
        Instruction::Lb {
            rd: 3,
            rs1: 1,
            offset: 0,
        },
    )
    .unwrap();

    assert_eq!(cpu.read_register(3).unwrap(), 0xFFFFFFFF); // -1 sign-extended
}

#[test]
fn test_beq() {
    let mut cpu = CpuState::new();
    cpu.write_register(1, 10).unwrap();
    cpu.write_register(2, 10).unwrap();

    // Equal - should branch
    execute(
        &mut cpu,
        Instruction::Beq {
            rs1: 1,
            rs2: 2,
            offset: 12,
        },
    )
    .unwrap();
    assert_eq!(cpu.pc(), 12);

    // Not equal - should not branch
    cpu.set_pc(0).unwrap();
    cpu.write_register(2, 20).unwrap();
    execute(
        &mut cpu,
        Instruction::Beq {
            rs1: 1,
            rs2: 2,
            offset: 12,
        },
    )
    .unwrap();
    assert_eq!(cpu.pc(), 4);
}

#[test]
fn test_bne() {
    let mut cpu = CpuState::new();
    cpu.write_register(1, 10).unwrap();
    cpu.write_register(2, 20).unwrap();

    // Not equal - should branch
    execute(
        &mut cpu,
        Instruction::Bne {
            rs1: 1,
            rs2: 2,
            offset: 8,
        },
    )
    .unwrap();
    assert_eq!(cpu.pc(), 8);
}

#[test]
fn test_jump() {
    let mut cpu = CpuState::new();

    execute(&mut cpu, Instruction::J { offset: 16 }).unwrap();
    assert_eq!(cpu.pc(), 16);
}

#[test]
fn test_jal() {
    let mut cpu = CpuState::new();

    execute(&mut cpu, Instruction::Jal { rd: 1, offset: 20 }).unwrap();

    assert_eq!(cpu.read_register(1).unwrap(), 4); // Return address
    assert_eq!(cpu.pc(), 20); // Jumped
}

#[test]
fn test_jalr() {
    let mut cpu = CpuState::new();
    cpu.write_register(2, 100).unwrap();

    execute(
        &mut cpu,
        Instruction::Jalr {
            rd: 1,
            rs1: 2,
            offset: 4,
        },
    )
    .unwrap();

    assert_eq!(cpu.read_register(1).unwrap(), 4); // Return address
    assert_eq!(cpu.pc(), 104); // Jumped to x2 + 4
}

#[test]
fn test_nop() {
    let mut cpu = CpuState::new();

    execute(&mut cpu, Instruction::Nop).unwrap();

    assert_eq!(cpu.pc(), 4);
    assert_eq!(cpu.instruction_count(), 1);
}

#[test]
fn executor_test_halt() {
    let mut cpu = CpuState::new();

    let should_continue = execute(&mut cpu, Instruction::Halt).unwrap();

    assert!(!should_continue);
    assert!(cpu.is_halted());
}

#[test]
fn test_halted_execution() {
    let mut cpu = CpuState::new();
    cpu.halt();

    let result = execute(
        &mut cpu,
        Instruction::Add {
            rd: 1,
            rs1: 2,
            rs2: 3,
        },
    );

    assert!(result.is_err());
    assert_eq!(result.unwrap_err(), CpuError::Halted);
}
