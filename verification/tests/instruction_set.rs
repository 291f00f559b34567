use riscv_emulator::assembler::{
    assemble, assemble_instruction, opcode_of, within_instruction_limit, Opcode,
};
use riscv_emulator::text::strip_comments;
use riscv_emulator::{execute, CpuState, Instruction, WasmCpu};

fn stripped(s: &str) -> String {
    let chars: Vec<char> = s.chars().collect();
    strip_comments(&chars).into_iter().collect()
}

#[test]
fn comments_start_at_the_first_semicolon_or_hash() {
    assert_eq!(stripped("ADDI x1, x0, 5 # a; b"), "ADDI x1, x0, 5 ");
    assert_eq!(stripped("ADDI x1, x0, 5 ; a # b"), "ADDI x1, x0, 5 ");
    assert_eq!(stripped("# note; more"), "");
    assert_eq!(stripped("HALT"), "HALT");
    let out = assemble("# note; more\nADDI x1, x0, 5 # a; b\nHALT").unwrap();
    assert_eq!(out.instructions, vec![Instruction::Addi { rd: 1, rs1: 0, imm: 5 }, Instruction::Halt]);
}

#[test]
fn mv_is_addi_with_zero() {
    let out = assemble("MV x1, x2").unwrap();
    assert_eq!(out.instructions, vec![Instruction::Addi { rd: 1, rs1: 2, imm: 0 }]);
    assert_eq!(
        assemble("MV x1").unwrap_err().to_string(),
        "Parse error on line 1: Invalid operand: MV requires 2 operands: rd, rs"
    );
}

#[test]
fn register_shifts_and_unsigned_compare_assemble() {
    let out = assemble("SLL x3, x1, x2\nsrl x3, x1, x2\nSRA x3, x1, x2\nSLTU x3, x1, x2").unwrap();
    assert_eq!(
        out.instructions,
        vec![
            Instruction::Sll { rd: 3, rs1: 1, rs2: 2 },
            Instruction::Srl { rd: 3, rs1: 1, rs2: 2 },
            Instruction::Sra { rd: 3, rs1: 1, rs2: 2 },
            Instruction::Sltu { rd: 3, rs1: 1, rs2: 2 },
        ]
    );
    assert_eq!(out.disassembly[0], "0000: SLL x3, x1, x2 | SLL x3, x1, x2");
    assert_eq!(out.disassembly[1], "0004: SRL x3, x1, x2 | srl x3, x1, x2");
}

#[test]
fn upper_immediates_assemble() {
    let out = assemble("LUI x1, 1\nAUIPC x2, 0x10").unwrap();
    assert_eq!(
        out.instructions,
        vec![Instruction::Lui { rd: 1, imm: 1 }, Instruction::Auipc { rd: 2, imm: 16 }]
    );
    assert_eq!(out.disassembly[1], "0004: AUIPC x2, 16 | AUIPC x2, 0x10");
    assert_eq!(
        assemble("LUI x1").unwrap_err().to_string(),
        "Parse error on line 1: Invalid operand: LUI requires 2 operands: rd, imm"
    );
}

#[test]
fn li_expands_by_size() {
    let out = assemble("LI x1, 5").unwrap();
    assert_eq!(out.instructions, vec![Instruction::Addi { rd: 1, rs1: 0, imm: 5 }]);
    let out = assemble("LI x1, -2048").unwrap();
    assert_eq!(out.instructions, vec![Instruction::Addi { rd: 1, rs1: 0, imm: -2048 }]);
    let out = assemble("LI x1, 0x12345").unwrap();
    assert_eq!(
        out.instructions,
        vec![
            Instruction::Lui { rd: 1, imm: 0x12 },
            Instruction::Addi { rd: 1, rs1: 1, imm: 0x345 },
        ]
    );
    assert_eq!(out.disassembly[0], "0000: LUI x1, 18 | LI x1, 0x12345");
    assert_eq!(out.disassembly[1], "0004: ADDI x1, x1, 837 | LI x1, 0x12345");
    let out = assemble("LI x1, 2048").unwrap();
    assert_eq!(
        out.instructions,
        vec![Instruction::Lui { rd: 1, imm: 1 }, Instruction::Addi { rd: 1, rs1: 1, imm: -2048 }]
    );
}

#[test]
fn wide_li_loads_its_value() {
    for (text, value) in [
        ("LI x1, 0x12345\nHALT", 0x12345u32),
        ("LI x1, 0x7FFFFFFF\nHALT", 0x7FFF_FFFF),
        ("LI x1, -100000\nHALT", (-100000i32) as u32),
        ("LI x1, 0x12800\nHALT", 0x12800),
    ] {
        let mut session = WasmCpu::new();
        session.assemble(text).unwrap().unwrap();
        session.run().unwrap();
        assert_eq!(session.read_register(1), Ok(value), "{}", text);
    }
}

#[test]
fn labels_count_both_instructions_of_a_wide_li() {
    let out = assemble("LI x1, 100000\nL: HALT\nJ L").unwrap();
    assert_eq!(out.instructions.len(), 4);
    assert_eq!(out.instructions[3], Instruction::J { offset: -1 });
}

fn run_one(cpu: &mut CpuState, inst: Instruction) {
    assert_eq!(execute(cpu, inst), Ok(true));
}

#[test]
fn shifts_and_unsigned_compare_execute() {
    let mut cpu = CpuState::new();
    cpu.write_register(1, 0x8000_0001).unwrap();
    cpu.write_register(2, 33).unwrap();
    run_one(&mut cpu, Instruction::Sll { rd: 3, rs1: 1, rs2: 2 });
    assert_eq!(cpu.read_register(3), Ok(2));
    run_one(&mut cpu, Instruction::Srl { rd: 3, rs1: 1, rs2: 2 });
    assert_eq!(cpu.read_register(3), Ok(0x4000_0000));
    run_one(&mut cpu, Instruction::Sra { rd: 3, rs1: 1, rs2: 2 });
    assert_eq!(cpu.read_register(3), Ok(0xC000_0000));
    run_one(&mut cpu, Instruction::Sltu { rd: 4, rs1: 2, rs2: 1 });
    assert_eq!(cpu.read_register(4), Ok(1));
    run_one(&mut cpu, Instruction::Slt { rd: 4, rs1: 2, rs2: 1 });
    assert_eq!(cpu.read_register(4), Ok(0));
    assert_eq!(cpu.pc(), 20);
}

#[test]
fn upper_immediates_execute() {
    let mut cpu = CpuState::new();
    run_one(&mut cpu, Instruction::Lui { rd: 1, imm: 1 });
    assert_eq!(cpu.read_register(1), Ok(4096));
    run_one(&mut cpu, Instruction::Auipc { rd: 2, imm: 1 });
    assert_eq!(cpu.read_register(2), Ok(4100));
    run_one(&mut cpu, Instruction::Lui { rd: 3, imm: -1 });
    assert_eq!(cpu.read_register(3), Ok(0xFFFF_F000));
}

#[test]
fn new_instructions_text_and_kind() {
    assert_eq!(Instruction::Sltu { rd: 1, rs1: 2, rs2: 3 }.to_string(), "SLTU x1, x2, x3");
    assert_eq!(Instruction::Lui { rd: 1, imm: -5 }.to_string(), "LUI x1, -5");
    assert_eq!(Instruction::Auipc { rd: 1, imm: 5 }.mnemonic(), "AUIPC");
    assert!(!Instruction::Sra { rd: 1, rs1: 2, rs2: 3 }.is_control_flow());
    assert!(!Instruction::Lui { rd: 1, imm: 1 }.is_memory_access());
}

#[test]
fn instruction_text_assembles_back() {
    let all = vec![
        Instruction::Add { rd: 1, rs1: 2, rs2: 3 },
        Instruction::Sub { rd: 4, rs1: 5, rs2: 6 },
        Instruction::And { rd: 7, rs1: 0, rs2: 1 },
        Instruction::Or { rd: 1, rs1: 1, rs2: 1 },
        Instruction::Xor { rd: 2, rs1: 3, rs2: 4 },
        Instruction::Slt { rd: 3, rs1: 4, rs2: 5 },
        Instruction::Sltu { rd: 3, rs1: 4, rs2: 5 },
        Instruction::Sll { rd: 1, rs1: 2, rs2: 3 },
        Instruction::Srl { rd: 1, rs1: 2, rs2: 3 },
        Instruction::Sra { rd: 1, rs1: 2, rs2: 3 },
        Instruction::Addi { rd: 1, rs1: 0, imm: -42 },
        Instruction::Andi { rd: 1, rs1: 2, imm: 255 },
        Instruction::Ori { rd: 1, rs1: 2, imm: 0 },
        Instruction::Xori { rd: 1, rs1: 2, imm: -1 },
        Instruction::Slti { rd: 1, rs1: 2, imm: 7 },
        Instruction::Lw { rd: 1, rs1: 2, offset: -4 },
        Instruction::Lb { rd: 1, rs1: 2, offset: 3 },
        Instruction::Sw { rs2: 1, rs1: 2, offset: 8 },
        Instruction::Sb { rs2: 1, rs1: 2, offset: 0 },
        Instruction::Beq { rs1: 1, rs2: 2, offset: -3 },
        Instruction::Bne { rs1: 1, rs2: 2, offset: 3 },
        Instruction::Blt { rs1: 1, rs2: 2, offset: 12 },
        Instruction::Bge { rs1: 1, rs2: 2, offset: -12 },
        Instruction::J { offset: 5 },
        Instruction::Jal { rd: 1, offset: -5 },
        Instruction::Jalr { rd: 1, rs1: 2, offset: 16 },
        Instruction::Lui { rd: 1, imm: 74565 },
        Instruction::Auipc { rd: 2, imm: -1 },
        Instruction::Nop,
        Instruction::Halt,
    ];
    for inst in all {
        let out = assemble(&inst.to_string()).unwrap();
        assert_eq!(out.instructions, vec![inst], "{}", inst.to_string());
    }
}

#[test]
fn a_failed_instruction_is_only_counted() {
    let mut cpu = CpuState::new();
    cpu.write_register(1, 0x3FD).unwrap();
    let before_pc = cpu.pc();
    assert!(execute(&mut cpu, Instruction::Lw { rd: 2, rs1: 1, offset: 0 }).is_err());
    assert_eq!(cpu.pc(), before_pc);
    assert_eq!(cpu.cycle_count(), 0);
    assert_eq!(cpu.instruction_count(), 1);
    assert!(!cpu.is_halted());
}

#[test]
fn jumps_write_the_return_address_and_move_the_pc() {
    let mut cpu = CpuState::new();
    cpu.write_register(3, 0x40).unwrap();
    run_one(&mut cpu, Instruction::Jal { rd: 1, offset: 8 });
    assert_eq!(cpu.read_register(1), Ok(4));
    assert_eq!(cpu.pc(), 8);
    run_one(&mut cpu, Instruction::Jalr { rd: 2, rs1: 3, offset: 4 });
    assert_eq!(cpu.read_register(2), Ok(12));
    assert_eq!(cpu.pc(), 0x44);
    assert_eq!(cpu.read_register(3), Ok(0x40));
}

#[test]
fn statement_and_limit_entry_points() {
    assert!(within_instruction_limit("ADDI x1, x0, 5\nLI x2, 100000\nHALT"));
    assert!(within_instruction_limit(""));
    let chars: Vec<char> = "addi x1, x0, 5".chars().collect();
    let block = assemble_instruction(&chars, &Vec::new(), 0).unwrap().unwrap();
    assert_eq!(block, vec![Instruction::Addi { rd: 1, rs1: 0, imm: 5 }]);
    let up: Vec<char> = "SLTU".chars().collect();
    assert_eq!(opcode_of(&up), Some(Opcode::Sltu));
    let low: Vec<char> = "sltu".chars().collect();
    assert_eq!(opcode_of(&low), None);
}
