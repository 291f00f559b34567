use riscv_emulator::assembler::{
    assemble, parse_immediate, parse_offset_register, parse_register, try_assemble, AssemblyError,
};
use riscv_emulator::Instruction;

fn error_text(source: &str) -> String {
    assemble(source).unwrap_err().to_string()
}

#[test]
fn listing_lines() {
    let out = assemble("ADDI x1, x0, 5\nloop: add x2, x1, x1 ; twice\nBNE x1, x2, LOOP").unwrap();
    assert_eq!(out.disassembly.len(), out.instructions.len());
    assert_eq!(out.disassembly[0], "0000: ADDI x1, x0, 5 | ADDI x1, x0, 5");
    assert_eq!(out.disassembly[1], "0004: ADD x2, x1, x1 | add x2, x1, x1");
    assert_eq!(out.disassembly[2], "0008: BNE x1, x2, -1 | BNE x1, x2, LOOP");
}

#[test]
fn mnemonics_and_labels_in_any_case() {
    let out = assemble("start:\n  addi x1, x0, 1\n  j START\n").unwrap();
    assert_eq!(out.instructions, vec![
        Instruction::Addi { rd: 1, rs1: 0, imm: 1 },
        Instruction::J { offset: -1 },
    ]);
}

#[test]
fn label_defined_later_and_redefined() {
    let out = assemble("BEQ x0, x0, END\nNOP\nEND: HALT\nEND:\nNOP").unwrap();
    // The last definition of a label is the one used.
    assert_eq!(out.instructions[0], Instruction::Beq { rs1: 0, rs2: 0, offset: 3 });
}

#[test]
fn comment_markers() {
    // Whichever of `;` and `#` comes first starts the comment.
    let out = assemble("ADDI x1, x0, 5 # note ; more").unwrap();
    assert_eq!(out.instructions, vec![Instruction::Addi { rd: 1, rs1: 0, imm: 5 }]);
    assert_eq!(out.disassembly[0], "0000: ADDI x1, x0, 5 | ADDI x1, x0, 5");
    let out = assemble("# only a comment\n\r\n   \nHALT # stop").unwrap();
    assert_eq!(out.instructions, vec![Instruction::Halt]);
}

#[test]
fn crlf_lines_and_line_numbers() {
    let e = assemble("NOP\r\nNOP\r\nFOO x1\r\n").unwrap_err();
    match &e {
        AssemblyError::ParseError { line, message } => {
            assert_eq!(*line, 3);
            assert_eq!(message, "Invalid instruction: FOO");
        }
        _ => panic!("expected a parse error"),
    }
    assert_eq!(e.to_string(), "Parse error on line 3: Invalid instruction: FOO");
}

#[test]
fn operand_errors() {
    assert_eq!(
        error_text("ADD x1, x2"),
        "Parse error on line 1: Invalid operand: ADD requires 3 operands: rd, rs1, rs2"
    );
    assert_eq!(
        error_text("lw x1"),
        "Parse error on line 1: Invalid operand: LW requires format: rd, offset(rs1)"
    );
    assert_eq!(
        error_text("ADD x8, x1, x2"),
        "Parse error on line 1: Invalid register: Register must be x0-x7, got: x8"
    );
    assert_eq!(
        error_text("ADD y1, x1, x2"),
        "Parse error on line 1: Invalid register: Invalid register: y1"
    );
    assert_eq!(
        error_text("ADDI x1, x0, 12abc"),
        "Parse error on line 1: Invalid operand: Invalid number: 12abc"
    );
    assert_eq!(
        error_text("ADDI x1, x0, 0xZZ"),
        "Parse error on line 1: Invalid operand: Invalid hex number: 0xZZ"
    );
    assert_eq!(
        error_text("SW x1, 4"),
        "Parse error on line 1: Invalid operand: Expected format: offset(reg), got: 4"
    );
    // The memory operand is read before the register written.
    assert_eq!(
        error_text("LW x9, 4(x8)"),
        "Parse error on line 1: Invalid register: Register must be x0-x7, got: x8"
    );
    // A branch target is read before the registers.
    assert_eq!(
        error_text("BEQ x9, x1, nowhere"),
        "Parse error on line 1: Invalid operand: Invalid number: nowhere"
    );
}

#[test]
fn empty_statements_and_separators() {
    assert_eq!(assemble("").unwrap().instructions.len(), 0);
    assert_eq!(assemble(",,,").unwrap().instructions, vec![Instruction::Nop]);
    assert_eq!(assemble("LABEL_ONLY:").unwrap().instructions.len(), 0);
    let out = assemble("ADD x1,x2,,x3 extra").unwrap();
    assert_eq!(out.instructions, vec![Instruction::Add { rd: 1, rs1: 2, rs2: 3 }]);
}

#[test]
fn parens_out_of_order_stop_assembly() {
    assert!(try_assemble("LW x1, )(x2").is_none());
    assert!(try_assemble("FOO\nLW x1, )(x2").unwrap().is_err());
    assert!(try_assemble("LW x1, 0(x2)").unwrap().is_ok());
}

#[test]
fn immediates() {
    assert_eq!(parse_immediate(" +7 ").unwrap(), 7);
    assert_eq!(parse_immediate("0X1f").unwrap(), 31);
    assert_eq!(parse_immediate("0x-10").unwrap(), -16);
    assert_eq!(parse_immediate("-2147483648").unwrap(), i32::MIN);
    assert!(parse_immediate("2147483648").is_err());
    assert!(parse_immediate("0x80000000").is_err());
    assert!(parse_immediate("-").is_err());
    assert_eq!(parse_immediate("$").unwrap_err().to_string(), "Invalid operand: Invalid hex number: $");
}

#[test]
fn registers_and_offsets() {
    assert_eq!(parse_register(" 3 ").unwrap(), 3);
    assert_eq!(parse_register("x+4").unwrap(), 4);
    assert!(parse_register("x-1").is_err());
    assert!(parse_register("x256").is_err());
    assert_eq!(parse_offset_register("-4( x3 )").unwrap(), (-4, 3));
    assert_eq!(parse_offset_register("0x10(x1)").unwrap(), (16, 1));
    assert!(parse_offset_register("4(x9)").is_err());
}
