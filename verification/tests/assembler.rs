use riscv_emulator::assembler::{assemble, parse_immediate, parse_offset_register, parse_register};
use riscv_emulator::Instruction;

#[test]
fn test_parse_register() {
    assert_eq!(parse_register("x0").unwrap(), 0);
    assert_eq!(parse_register("x7").unwrap(), 7);
    assert_eq!(parse_register("X5").unwrap(), 5);
    assert!(parse_register("x8").is_err()); // Out of range
}

#[test]
fn test_parse_immediate() {
    assert_eq!(parse_immediate("42").unwrap(), 42);
    assert_eq!(parse_immediate("-10").unwrap(), -10);
    assert_eq!(parse_immediate("0x10").unwrap(), 16);
    assert_eq!(parse_immediate("$FF").unwrap(), 255);
}

#[test]
fn test_parse_offset_register() {
    let (offset, reg) = parse_offset_register("4(x2)").unwrap();
    assert_eq!(offset, 4);
    assert_eq!(reg, 2);

    let (offset, reg) = parse_offset_register("(x5)").unwrap();
    assert_eq!(offset, 0);
    assert_eq!(reg, 5);
}

#[test]
fn test_assemble_addi() {
    let source = "ADDI x1, x0, 5";
    let result = assemble(source).unwrap();
    assert_eq!(result.instructions.len(), 1);
    match result.instructions[0] {
        Instruction::Addi { rd, rs1, imm } => {
            assert_eq!(rd, 1);
            assert_eq!(rs1, 0);
            assert_eq!(imm, 5);
        }
        _ => panic!("Expected ADDI instruction"),
    }
}

#[test]
fn test_assemble_add() {
    let source = "ADD x3, x1, x2";
    let result = assemble(source).unwrap();
    assert_eq!(result.instructions.len(), 1);
    match result.instructions[0] {
        Instruction::Add { rd, rs1, rs2 } => {
            assert_eq!(rd, 3);
            assert_eq!(rs1, 1);
            assert_eq!(rs2, 2);
        }
        _ => panic!("Expected ADD instruction"),
    }
}

#[test]
fn test_assemble_with_labels() {
    let source = r#"
START: ADDI x1, x0, 5
       ADDI x2, x0, 10
       BEQ x1, x2, START
"#;
    let result = assemble(source).unwrap();
    assert_eq!(result.instructions.len(), 3);

    // Third instruction should be BEQ with offset -2 (back to START)
    match result.instructions[2] {
        Instruction::Beq { rs1, rs2, offset } => {
            assert_eq!(rs1, 1);
            assert_eq!(rs2, 2);
            assert_eq!(offset, -2); // Jump back 2 instructions
        }
        _ => panic!("Expected BEQ instruction"),
    }
}

#[test]
fn test_assemble_load_store() {
    let source = r#"
LW x1, 4(x2)
SW x3, 8(x4)
"#;
    let result = assemble(source).unwrap();
    assert_eq!(result.instructions.len(), 2);

    match result.instructions[0] {
        Instruction::Lw { rd, rs1, offset } => {
            assert_eq!(rd, 1);
            assert_eq!(rs1, 2);
            assert_eq!(offset, 4);
        }
        _ => panic!("Expected LW instruction"),
    }

    match result.instructions[1] {
        Instruction::Sw { rs2, rs1, offset } => {
            assert_eq!(rs2, 3);
            assert_eq!(rs1, 4);
            assert_eq!(offset, 8);
        }
        _ => panic!("Expected SW instruction"),
    }
}

#[test]
fn test_comments() {
    let source = r#"
; This is a comment
ADDI x1, x0, 5  # Load 5 into x1
HALT
"#;
    let result = assemble(source).unwrap();
    assert_eq!(result.instructions.len(), 2);
}
