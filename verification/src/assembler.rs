//! The assembler: source text to instructions, with a disassembly listing.
//!
//! A line holds an optional `label:` and an optional statement; `;` or `#` starts a
//! comment. A statement is a mnemonic and operands separated by commas or whitespace.
//! Branch and jump targets are labels or immediates; a label resolves to the distance, in
//! instructions, from the current instruction to the labelled one.
use vstd::prelude::*;

use crate::cpu::instruction::{based_text, reg_text, Instruction};
use crate::text::{
    ascii_lower, ascii_upper, flushed, is_ascii_text, is_sep, is_word, lemma_dec_reads_back,
    lemma_find_at, lemma_scan_one_word, lemma_scan_sep_word, lemma_trimmed_word, signed_dec,
    word_scan,
    chars_of, dec, find, find_char, hex, lemma_deep_chars, lines, lower_text, parse_i32, parse_i32_radix,
    parse_u8, parse_u8_dec, push_chars, push_dec, push_hex, push_str, split_lines, split_words,
    string_from_chars, strip_comment, strip_comments, lower, upper, trim, trimmed,
    upper_text, words, zero_padded, chars_eq, chars_eq_str,
};

verus! {

/// Why a source does not assemble.
#[derive(Debug, Clone)]
pub enum AssemblyError {
    InvalidInstruction(String),
    InvalidRegister(String),
    InvalidOperand(String),
    UndefinedLabel(String),
    ParseError { line: usize, message: String },
}

/// The abstract value of an assembly error; `Stops` stands for a source on which assembly
/// cannot go on (an offset operand whose `)` comes before its `(`), which no
/// `AssemblyError` is.
pub enum AsmError {
    InvalidInstruction(Seq<char>),
    InvalidRegister(Seq<char>),
    InvalidOperand(Seq<char>),
    UndefinedLabel(Seq<char>),
    ParseError { line: nat, message: Seq<char> },
    Stops,
}

impl View for AssemblyError {
    type V = AsmError;

    open spec fn view(&self) -> AsmError {
        match self {
            AssemblyError::InvalidInstruction(s) => AsmError::InvalidInstruction(s@),
            AssemblyError::InvalidRegister(s) => AsmError::InvalidRegister(s@),
            AssemblyError::InvalidOperand(s) => AsmError::InvalidOperand(s@),
            AssemblyError::UndefinedLabel(s) => AsmError::UndefinedLabel(s@),
            AssemblyError::ParseError { line, message } => AsmError::ParseError {
                line: *line as nat,
                message: message@,
            },
        }
    }
}

impl AsmError {
    /// The message of the error.
    pub open spec fn text(self) -> Seq<char> {
        match self {
            AsmError::InvalidInstruction(s) => "Invalid instruction: "@ + s,
            AsmError::InvalidRegister(s) => "Invalid register: "@ + s,
            AsmError::InvalidOperand(s) => "Invalid operand: "@ + s,
            AsmError::UndefinedLabel(s) => "Undefined label: "@ + s,
            AsmError::ParseError { line, message } => "Parse error on line "@ + dec(line)
                + ": "@ + message,
            AsmError::Stops => seq![],
        }
    }
}

impl AssemblyError {
    /// The message of the error, as `Display` renders it.
    pub fn to_string(&self) -> (s: String)
        ensures
            s@ == self@.text(),
    {
        let mut out: Vec<char> = Vec::new();
        match self {
            AssemblyError::InvalidInstruction(m) => {
                push_str(&mut out, "Invalid instruction: ");
                push_str(&mut out, m.as_str());
            },
            AssemblyError::InvalidRegister(m) => {
                push_str(&mut out, "Invalid register: ");
                push_str(&mut out, m.as_str());
            },
            AssemblyError::InvalidOperand(m) => {
                push_str(&mut out, "Invalid operand: ");
                push_str(&mut out, m.as_str());
            },
            AssemblyError::UndefinedLabel(m) => {
                push_str(&mut out, "Undefined label: ");
                push_str(&mut out, m.as_str());
            },
            AssemblyError::ParseError { line, message } => {
                push_str(&mut out, "Parse error on line ");
                push_dec(&mut out, *line as u64);
                push_str(&mut out, ": ");
                push_str(&mut out, message.as_str());
            },
        }
        proof {
            assert(out@ =~= self@.text());
        }
        string_from_chars(&out)
    }
}

/// An assembly error's abstract value, or the value itself.
pub open spec fn viewed<T>(r: Result<T, AssemblyError>) -> Result<T, AsmError> {
    match r {
        Ok(v) => Ok(v),
        Err(e) => Err(e@),
    }
}

/// As `viewed`, with `None` standing for `Stops`.
pub open spec fn viewed_or_stop<T>(r: Option<Result<T, AssemblyError>>) -> Result<T, AsmError> {
    match r {
        Some(x) => viewed(x),
        None => Err(AsmError::Stops),
    }
}

/// Assembled program: the instructions, and one listing line for each.
#[derive(Debug, Clone)]
pub struct AssemblyOutput {
    pub instructions: Vec<Instruction>,
    pub disassembly: Vec<String>,
}

// ===== Operands =====

/// A register operand: `x0` to `x7` (or the bare number), any case, whitespace around.
#[verifier::opaque]
pub open spec fn register_of(s: Seq<char>) -> Result<u8, AsmError> {
    let t = lower_text(trimmed(s));
    let num = if t.len() > 0 && t[0] == 'x' {
        t.drop_first()
    } else {
        t
    };
    match parse_u8(num) {
        None => Err(AsmError::InvalidRegister("Invalid register: "@ + t)),
        Some(r) => if r > 7 {
            Err(AsmError::InvalidRegister("Register must be x0-x7, got: "@ + t))
        } else {
            Ok(r)
        },
    }
}

/// An immediate operand: hexadecimal after `0x`, `0X` or `$`, else decimal; a sign is
/// allowed; the value must fit in an `i32`.
#[verifier::opaque]
pub open spec fn immediate_of(s: Seq<char>) -> Result<i32, AsmError> {
    let t = trimmed(s);
    if t.len() >= 2 && t[0] == '0' && (t[1] == 'x' || t[1] == 'X') {
        match parse_i32(t.skip(2), 16) {
            Some(v) => Ok(v),
            None => Err(AsmError::InvalidOperand("Invalid hex number: "@ + t)),
        }
    } else if t.len() >= 1 && t[0] == '$' {
        match parse_i32(t.skip(1), 16) {
            Some(v) => Ok(v),
            None => Err(AsmError::InvalidOperand("Invalid hex number: "@ + t)),
        }
    } else {
        match parse_i32(t, 10) {
            Some(v) => Ok(v),
            None => Err(AsmError::InvalidOperand("Invalid number: "@ + t)),
        }
    }
}

/// An `offset(register)` operand; an empty offset is 0. The offset is read before the
/// register.
pub open spec fn offset_operand(s: Seq<char>) -> Result<(i32, u8), AsmError> {
    let bad = AsmError::InvalidOperand("Expected format: offset(reg), got: "@ + s);
    match find(s, '(') {
        None => Err(bad),
        Some(open) => match find(s, ')') {
            None => Err(bad),
            Some(close) => if close < open + 1 {
                Err(AsmError::Stops)
            } else {
                offset_and_register(s, open, close)
            },
        },
    }
}

/// The offset before `open` and the register between `open` and `close`.
#[verifier::opaque]
pub open spec fn offset_and_register(s: Seq<char>, open: int, close: int) -> Result<(i32, u8), AsmError> {
    let offset_text = trimmed(s.take(open));
    let offset = if offset_text.len() == 0 {
        Ok(0i32)
    } else {
        immediate_of(offset_text)
    };
    match offset {
        Err(e) => Err(e),
        Ok(o) => match register_of(trimmed(s.subrange(open + 1, close))) {
            Err(e) => Err(e),
            Ok(r) => Ok((o, r)),
        },
    }
}

/// The last address recorded for `key`.
pub open spec fn lookup(labels: Seq<(Seq<char>, usize)>, key: Seq<char>) -> Option<usize>
    decreases labels.len(),
{
    if labels.len() == 0 {
        None
    } else if labels.last().0 == key {
        Some(labels.last().1)
    } else {
        lookup(labels.drop_last(), key)
    }
}

/// A branch or jump target: a label (compared in upper case) gives its distance from
/// instruction `current`; anything else is read as an immediate.
pub open spec fn target_of(s: Seq<char>, labels: Seq<(Seq<char>, usize)>, current: nat) -> Result<i32, AsmError> {
    match lookup(labels, upper_text(trimmed(s))) {
        Some(addr) => Ok((addr - current) as i32),
        None => immediate_of(s),
    }
}

// ===== Statements =====

/// The mnemonics.
#[derive(Debug, Clone, Copy, PartialEq, Eq, Structural)]
pub enum Opcode {
    Add,
    Sub,
    And,
    Or,
    Xor,
    Slt,
    Sltu,
    Sll,
    Srl,
    Sra,
    Addi,
    Andi,
    Ori,
    Xori,
    Slti,
    Lw,
    Lb,
    Sw,
    Sb,
    Beq,
    Bne,
    Blt,
    Bge,
    J,
    Jal,
    Jalr,
    Lui,
    Auipc,
    Mv,
    Li,
    Nop,
    Halt,
}

/// The opcode an upper-cased mnemonic names.
#[verifier::opaque]
pub open spec fn opcode(m: Seq<char>) -> Option<Opcode> {
    if m == "ADD"@ {
        Some(Opcode::Add)
    } else if m == "SUB"@ {
        Some(Opcode::Sub)
    } else if m == "AND"@ {
        Some(Opcode::And)
    } else if m == "OR"@ {
        Some(Opcode::Or)
    } else if m == "XOR"@ {
        Some(Opcode::Xor)
    } else if m == "SLT"@ {
        Some(Opcode::Slt)
    } else if m == "SLTU"@ {
        Some(Opcode::Sltu)
    } else if m == "SLL"@ {
        Some(Opcode::Sll)
    } else if m == "SRL"@ {
        Some(Opcode::Srl)
    } else if m == "SRA"@ {
        Some(Opcode::Sra)
    } else if m == "ADDI"@ {
        Some(Opcode::Addi)
    } else if m == "ANDI"@ {
        Some(Opcode::Andi)
    } else if m == "ORI"@ {
        Some(Opcode::Ori)
    } else if m == "XORI"@ {
        Some(Opcode::Xori)
    } else if m == "SLTI"@ {
        Some(Opcode::Slti)
    } else if m == "LW"@ {
        Some(Opcode::Lw)
    } else if m == "LB"@ {
        Some(Opcode::Lb)
    } else if m == "SW"@ {
        Some(Opcode::Sw)
    } else if m == "SB"@ {
        Some(Opcode::Sb)
    } else if m == "BEQ"@ {
        Some(Opcode::Beq)
    } else if m == "BNE"@ {
        Some(Opcode::Bne)
    } else if m == "BLT"@ {
        Some(Opcode::Blt)
    } else if m == "BGE"@ {
        Some(Opcode::Bge)
    } else if m == "J"@ {
        Some(Opcode::J)
    } else if m == "JAL"@ {
        Some(Opcode::Jal)
    } else if m == "JALR"@ {
        Some(Opcode::Jalr)
    } else if m == "LUI"@ {
        Some(Opcode::Lui)
    } else if m == "AUIPC"@ {
        Some(Opcode::Auipc)
    } else if m == "MV"@ {
        Some(Opcode::Mv)
    } else if m == "LI"@ {
        Some(Opcode::Li)
    } else if m == "NOP"@ {
        Some(Opcode::Nop)
    } else if m == "HALT"@ {
        Some(Opcode::Halt)
    } else {
        None
    }
}

/// How many words a statement with this opcode needs, the mnemonic included.
pub open spec fn words_needed(op: Opcode) -> nat {
    match op {
        Opcode::J => 2,
        Opcode::Lw | Opcode::Lb | Opcode::Sw | Opcode::Sb | Opcode::Jal | Opcode::Jalr => 3,
        Opcode::Lui | Opcode::Auipc | Opcode::Mv | Opcode::Li => 3,
        Opcode::Nop | Opcode::Halt => 1,
        _ => 4,
    }
}

/// The complaint about too few operands.
pub open spec fn usage(op: Opcode) -> Seq<char> {
    match op {
        Opcode::Add => "ADD requires 3 operands: rd, rs1, rs2"@,
        Opcode::Sub => "SUB requires 3 operands: rd, rs1, rs2"@,
        Opcode::And => "AND requires 3 operands: rd, rs1, rs2"@,
        Opcode::Or => "OR requires 3 operands: rd, rs1, rs2"@,
        Opcode::Xor => "XOR requires 3 operands: rd, rs1, rs2"@,
        Opcode::Slt => "SLT requires 3 operands: rd, rs1, rs2"@,
        Opcode::Sltu => "SLTU requires 3 operands: rd, rs1, rs2"@,
        Opcode::Sll => "SLL requires 3 operands: rd, rs1, rs2"@,
        Opcode::Srl => "SRL requires 3 operands: rd, rs1, rs2"@,
        Opcode::Sra => "SRA requires 3 operands: rd, rs1, rs2"@,
        Opcode::Addi => "ADDI requires 3 operands: rd, rs1, imm"@,
        Opcode::Andi => "ANDI requires 3 operands: rd, rs1, imm"@,
        Opcode::Ori => "ORI requires 3 operands: rd, rs1, imm"@,
        Opcode::Xori => "XORI requires 3 operands: rd, rs1, imm"@,
        Opcode::Slti => "SLTI requires 3 operands: rd, rs1, imm"@,
        Opcode::Lw => "LW requires format: rd, offset(rs1)"@,
        Opcode::Lb => "LB requires format: rd, offset(rs1)"@,
        Opcode::Sw => "SW requires format: rs2, offset(rs1)"@,
        Opcode::Sb => "SB requires format: rs2, offset(rs1)"@,
        Opcode::Beq => "BEQ requires 3 operands: rs1, rs2, offset"@,
        Opcode::Bne => "BNE requires 3 operands: rs1, rs2, offset"@,
        Opcode::Blt => "BLT requires 3 operands: rs1, rs2, offset"@,
        Opcode::Bge => "BGE requires 3 operands: rs1, rs2, offset"@,
        Opcode::J => "J requires 1 operand: offset"@,
        Opcode::Jal => "JAL requires 2 operands: rd, offset"@,
        Opcode::Jalr => "JALR requires format: rd, offset(rs1)"@,
        Opcode::Lui => "LUI requires 2 operands: rd, imm"@,
        Opcode::Auipc => "AUIPC requires 2 operands: rd, imm"@,
        Opcode::Mv => "MV requires 2 operands: rd, rs"@,
        Opcode::Li => "LI requires 2 operands: rd, imm"@,
        Opcode::Nop => ""@,
        Opcode::Halt => ""@,
    }
}

/// The instruction of a register-register opcode.
pub open spec fn r_form(op: Opcode, rd: u8, rs1: u8, rs2: u8) -> Instruction {
    match op {
        Opcode::Add => Instruction::Add { rd, rs1, rs2 },
        Opcode::Sub => Instruction::Sub { rd, rs1, rs2 },
        Opcode::And => Instruction::And { rd, rs1, rs2 },
        Opcode::Or => Instruction::Or { rd, rs1, rs2 },
        Opcode::Xor => Instruction::Xor { rd, rs1, rs2 },
        Opcode::Sltu => Instruction::Sltu { rd, rs1, rs2 },
        Opcode::Sll => Instruction::Sll { rd, rs1, rs2 },
        Opcode::Srl => Instruction::Srl { rd, rs1, rs2 },
        Opcode::Sra => Instruction::Sra { rd, rs1, rs2 },
        _ => Instruction::Slt { rd, rs1, rs2 },
    }
}

/// The instruction of a register-immediate opcode.
pub open spec fn i_form(op: Opcode, rd: u8, rs1: u8, imm: i32) -> Instruction {
    match op {
        Opcode::Addi => Instruction::Addi { rd, rs1, imm },
        Opcode::Andi => Instruction::Andi { rd, rs1, imm },
        Opcode::Ori => Instruction::Ori { rd, rs1, imm },
        Opcode::Xori => Instruction::Xori { rd, rs1, imm },
        _ => Instruction::Slti { rd, rs1, imm },
    }
}

/// The instruction of a branch opcode.
pub open spec fn b_form(op: Opcode, rs1: u8, rs2: u8, offset: i32) -> Instruction {
    match op {
        Opcode::Beq => Instruction::Beq { rs1, rs2, offset },
        Opcode::Bne => Instruction::Bne { rs1, rs2, offset },
        Opcode::Blt => Instruction::Blt { rs1, rs2, offset },
        _ => Instruction::Bge { rs1, rs2, offset },
    }
}

/// The operands of a statement read for its opcode, in the order the assembler reads them
/// (a memory operand or target before the registers written first).
pub open spec fn operands(op: Opcode, parts: Seq<Seq<char>>, labels: Seq<(Seq<char>, usize)>, current: nat) -> Result<Instruction, AsmError> {
    match op {
        Opcode::Add | Opcode::Sub | Opcode::And | Opcode::Or | Opcode::Xor | Opcode::Slt
        | Opcode::Sltu | Opcode::Sll | Opcode::Srl | Opcode::Sra => {
            match register_of(parts[1]) {
                Err(e) => Err(e),
                Ok(rd) => match register_of(parts[2]) {
                    Err(e) => Err(e),
                    Ok(rs1) => match register_of(parts[3]) {
                        Err(e) => Err(e),
                        Ok(rs2) => Ok(r_form(op, rd, rs1, rs2)),
                    },
                },
            }
        },
        Opcode::Addi | Opcode::Andi | Opcode::Ori | Opcode::Xori | Opcode::Slti => {
            match register_of(parts[1]) {
                Err(e) => Err(e),
                Ok(rd) => match register_of(parts[2]) {
                    Err(e) => Err(e),
                    Ok(rs1) => match immediate_of(parts[3]) {
                        Err(e) => Err(e),
                        Ok(imm) => Ok(i_form(op, rd, rs1, imm)),
                    },
                },
            }
        },
        Opcode::Lw | Opcode::Lb | Opcode::Sw | Opcode::Sb | Opcode::Jalr => {
            match offset_operand(parts[2]) {
                Err(e) => Err(e),
                Ok((offset, rs1)) => match register_of(parts[1]) {
                    Err(e) => Err(e),
                    Ok(r) => Ok(
                        match op {
                            Opcode::Lw => Instruction::Lw { rd: r, rs1, offset },
                            Opcode::Lb => Instruction::Lb { rd: r, rs1, offset },
                            Opcode::Sw => Instruction::Sw { rs2: r, rs1, offset },
                            Opcode::Sb => Instruction::Sb { rs2: r, rs1, offset },
                            _ => Instruction::Jalr { rd: r, rs1, offset },
                        },
                    ),
                },
            }
        },
        Opcode::Beq | Opcode::Bne | Opcode::Blt | Opcode::Bge => {
            match target_of(parts[3], labels, current) {
                Err(e) => Err(e),
                Ok(offset) => match register_of(parts[1]) {
                    Err(e) => Err(e),
                    Ok(rs1) => match register_of(parts[2]) {
                        Err(e) => Err(e),
                        Ok(rs2) => Ok(b_form(op, rs1, rs2, offset)),
                    },
                },
            }
        },
        Opcode::J => match target_of(parts[1], labels, current) {
            Err(e) => Err(e),
            Ok(offset) => Ok(Instruction::J { offset }),
        },
        Opcode::Jal => match target_of(parts[2], labels, current) {
            Err(e) => Err(e),
            Ok(offset) => match register_of(parts[1]) {
                Err(e) => Err(e),
                Ok(rd) => Ok(Instruction::Jal { rd, offset }),
            },
        },
        Opcode::Lui | Opcode::Auipc | Opcode::Li => match register_of(parts[1]) {
            Err(e) => Err(e),
            Ok(rd) => match immediate_of(parts[2]) {
                Err(e) => Err(e),
                Ok(imm) => Ok(
                    match op {
                        Opcode::Lui => Instruction::Lui { rd, imm },
                        Opcode::Auipc => Instruction::Auipc { rd, imm },
                        _ => Instruction::Addi { rd, rs1: 0, imm },
                    },
                ),
            },
        },
        Opcode::Mv => match register_of(parts[1]) {
            Err(e) => Err(e),
            Ok(rd) => match register_of(parts[2]) {
                Err(e) => Err(e),
                Ok(rs) => Ok(Instruction::Addi { rd, rs1: rs, imm: 0 }),
            },
        },
        Opcode::Nop => Ok(Instruction::Nop),
        Opcode::Halt => Ok(Instruction::Halt),
    }
}

/// Whether an immediate fits the 12 signed bits of an `ADDI`.
pub open spec fn fits12(v: i32) -> bool {
    -2048 <= v <= 2047
}

/// The upper part of a wide `LI` value: `v` rounded to the nearest multiple of 4096,
/// divided by 4096.
pub open spec fn li_upper(v: i32) -> i32 {
    ((v + 2048) / 4096) as i32
}

/// The lower part of a wide `LI` value, in -2048..2047: `v - 4096 * li_upper(v)`.
pub open spec fn li_lower(v: i32) -> i32 {
    (v - 4096 * li_upper(v)) as i32
}

/// The instructions of a statement whose operands read as `inst`: one, except an `LI`
/// whose value does not fit 12 bits, which becomes `LUI` with the upper part and `ADDI`
/// of the lower part.
pub open spec fn expansion(op: Opcode, inst: Instruction) -> Seq<Instruction> {
    match inst {
        Instruction::Addi { rd, rs1, imm } => if op == Opcode::Li && !fits12(imm) {
            seq![
                Instruction::Lui { rd, imm: li_upper(imm) },
                Instruction::Addi { rd, rs1: rd, imm: li_lower(imm) },
            ]
        } else {
            seq![inst]
        },
        _ => seq![inst],
    }
}

/// How many instructions a (non-empty) statement becomes, as the label pass counts them:
/// two for an `LI` whose value reads and does not fit 12 bits, else one.
pub open spec fn statement_size(line: Seq<char>) -> nat {
    let parts = words(line);
    if parts.len() >= 3 && upper_text(parts[0]) == "LI"@ {
        match immediate_of(parts[2]) {
            Ok(v) => if fits12(v) {
                1
            } else {
                2
            },
            Err(_) => 1,
        }
    } else {
        1
    }
}

/// One statement starting at instruction number `current`: its words are the mnemonic
/// (any case) and the operands; no words at all is `NOP`. `MV rd, rs` is `ADDI rd, rs, 0`
/// and `LI rd, imm` is `ADDI rd, x0, imm`, or `LUI` and `ADDI` for a wide value.
pub open spec fn statement_of(line: Seq<char>, labels: Seq<(Seq<char>, usize)>, current: nat) -> Result<Seq<Instruction>, AsmError> {
    let parts = words(line);
    if parts.len() == 0 {
        Ok(seq![Instruction::Nop])
    } else {
        let m = upper_text(parts[0]);
        match opcode(m) {
            None => Err(AsmError::InvalidInstruction(m)),
            Some(op) => if parts.len() < words_needed(op) {
                Err(AsmError::InvalidOperand(usage(op)))
            } else {
                match operands(op, parts, labels, current) {
                    Ok(inst) => Ok(expansion(op, inst)),
                    Err(e) => Err(e),
                }
            },
        }
    }
}

// ===== Whole sources =====

/// A line with its comment and surrounding whitespace removed.
pub open spec fn cleaned(line: Seq<char>) -> Seq<char> {
    trimmed(strip_comment(line))
}

/// The statement of a cleaned line: what follows its first `:`, trimmed, or the whole line.
pub open spec fn statement_part(l: Seq<char>) -> Seq<char> {
    match find(l, ':') {
        Some(i) => trimmed(l.skip(i + 1)),
        None => l,
    }
}

/// The labels of the lines (upper-cased, in order, each with the number of the instruction
/// that follows it), and the number of instructions, counting each statement as
/// `statement_size` instructions.
pub open spec fn label_scan(ls: Seq<Seq<char>>) -> (Seq<(Seq<char>, usize)>, nat)
    decreases ls.len(),
{
    if ls.len() == 0 {
        (seq![], 0)
    } else {
        let (labels, n) = label_scan(ls.drop_last());
        let l = cleaned(ls.last());
        match find(l, ':') {
            Some(i) => (
                labels.push((upper_text(trimmed(l.take(i))), n as usize)),
                if statement_part(l).len() > 0 {
                    n + statement_size(statement_part(l))
                } else {
                    n
                },
            ),
            None => (
                labels,
                if l.len() > 0 {
                    n + statement_size(l)
                } else {
                    n
                },
            ),
        }
    }
}

/// How many instructions `src` assembles to, as the label pass counts them.
pub open spec fn instruction_count(src: Seq<char>) -> nat {
    label_scan(lines(src)).1
}

/// The number of instructions that instruction numbers can reach: each must fit an `i32`
/// branch offset.
pub const MAX_INSTRUCTIONS: usize = 0x8000_0000;

/// The label pass counts no fewer instructions over more lines.
proof fn lemma_count_grows(ls: Seq<Seq<char>>, k: nat, n: nat)
    requires
        k <= n <= ls.len(),
    ensures
        label_scan(ls.take(k as int)).1 <= label_scan(ls.take(n as int)).1,
    decreases n - k,
{
    if k < n {
        lemma_count_grows(ls, k, (n - 1) as nat);
        assert(ls.take(n as int).drop_last() =~= ls.take(n - 1));
    }
}

/// The listing line of instruction number `index`: its byte address in 4-digit hex, the
/// instruction, and the statement as written.
pub open spec fn listing(index: nat, inst: Instruction, stmt: Seq<char>) -> Seq<char> {
    zero_padded(hex(index * 4), 4) + ": "@ + inst.text() + " | "@ + stmt
}

/// The listing lines of a block of instructions that starts at number `start` and came
/// from statement `stmt`.
pub open spec fn listings(start: nat, block: Seq<Instruction>, stmt: Seq<char>) -> Seq<Seq<char>> {
    Seq::new(block.len(), |j: int| listing(start + j as nat, block[j], stmt))
}

/// The instructions and listing of the lines, or the first error, reported with its
/// 1-based line number.
pub open spec fn code_scan(ls: Seq<Seq<char>>, labels: Seq<(Seq<char>, usize)>) -> Result<(Seq<Instruction>, Seq<Seq<char>>), AsmError>
    decreases ls.len(),
{
    if ls.len() == 0 {
        Ok((seq![], seq![]))
    } else {
        match code_scan(ls.drop_last(), labels) {
            Err(e) => Err(e),
            Ok((insts, listed)) => {
                let st = statement_part(cleaned(ls.last()));
                if st.len() == 0 {
                    Ok((insts, listed))
                } else {
                    match statement_of(st, labels, insts.len()) {
                        Ok(block) => Ok((insts + block, listed + listings(insts.len(), block, st))),
                        Err(AsmError::Stops) => Err(AsmError::Stops),
                        Err(e) => Err(AsmError::ParseError { line: ls.len(), message: e.text() }),
                    }
                }
            },
        }
    }
}

/// What assembling `src` gives: labels are collected over all lines first, then each
/// statement is assembled.
pub open spec fn assembly(src: Seq<char>) -> Result<(Seq<Instruction>, Seq<Seq<char>>), AsmError> {
    let ls = lines(src);
    code_scan(ls, label_scan(ls).0)
}

/// Whether assembling `src` gets to an end, with instructions or an error.
pub open spec fn finishes(src: Seq<char>) -> bool {
    !(assembly(src) matches Err(AsmError::Stops))
}

/// The result of assembling, by its abstract value.
pub open spec fn output_viewed(r: Result<AssemblyOutput, AssemblyError>) -> Result<(Seq<Instruction>, Seq<Seq<char>>), AsmError> {
    match r {
        Ok(o) => Ok((o.instructions@, o.disassembly.deep_view())),
        Err(e) => Err(e@),
    }
}

// ===== Implementation =====

fn message(prefix: &str, detail: &[char]) -> (s: String)
    ensures
        s@ == prefix@ + detail@,
{
    let mut out: Vec<char> = Vec::new();
    push_str(&mut out, prefix);
    push_chars(&mut out, detail);
    string_from_chars(&out)
}

/// Reads a register operand.
fn register_operand(s: &[char]) -> (r: Result<u8, AssemblyError>)
    ensures
        viewed(r) == register_of(s@),
{
    reveal(register_of);
    let t0 = trim(s);
    let t = lower(t0.as_slice());
    let has_x = t.len() > 0 && t[0] == 'x';
    let num: &[char] = if has_x {
        vstd::slice::slice_subrange(t.as_slice(), 1, t.len())
    } else {
        t.as_slice()
    };
    proof {
        if has_x {
            assert(num@ =~= t@.drop_first());
        }
    }
    match parse_u8_dec(num) {
        None => Err(AssemblyError::InvalidRegister(message("Invalid register: ", t.as_slice()))),
        Some(reg) => if reg > 7 {
            Err(
                AssemblyError::InvalidRegister(
                    message("Register must be x0-x7, got: ", t.as_slice()),
                ),
            )
        } else {
            Ok(reg)
        },
    }
}

/// Reads an immediate operand.
fn immediate_operand(s: &[char]) -> (r: Result<i32, AssemblyError>)
    ensures
        viewed(r) == immediate_of(s@),
{
    reveal(immediate_of);
    let t = trim(s);
    let n = t.len();
    if n >= 2 && t[0] == '0' && (t[1] == 'x' || t[1] == 'X') {
        let digits = vstd::slice::slice_subrange(t.as_slice(), 2, n);
        proof {
            assert(digits@ =~= t@.skip(2));
        }
        match parse_i32_radix(digits, 16) {
            Some(v) => Ok(v),
            None => Err(AssemblyError::InvalidOperand(message("Invalid hex number: ", t.as_slice()))),
        }
    } else if n >= 1 && t[0] == '$' {
        let digits = vstd::slice::slice_subrange(t.as_slice(), 1, n);
        proof {
            assert(digits@ =~= t@.skip(1));
        }
        match parse_i32_radix(digits, 16) {
            Some(v) => Ok(v),
            None => Err(AssemblyError::InvalidOperand(message("Invalid hex number: ", t.as_slice()))),
        }
    } else {
        match parse_i32_radix(t.as_slice(), 10) {
            Some(v) => Ok(v),
            None => Err(AssemblyError::InvalidOperand(message("Invalid number: ", t.as_slice()))),
        }
    }
}

/// Reads an `offset(register)` operand; `None` when its `)` comes before its `(`.
fn offset_register_operand(s: &[char]) -> (r: Option<Result<(i32, u8), AssemblyError>>)
    ensures
        viewed_or_stop(r) == offset_operand(s@),
{
    let open = match find_char(s, '(') {
        Some(i) => i,
        None => {
            return Some(
                Err(
                    AssemblyError::InvalidOperand(
                        message("Expected format: offset(reg), got: ", s),
                    ),
                ),
            );
        },
    };
    let close = match find_char(s, ')') {
        Some(i) => i,
        None => {
            return Some(
                Err(
                    AssemblyError::InvalidOperand(
                        message("Expected format: offset(reg), got: ", s),
                    ),
                ),
            );
        },
    };
    if close <= open {
        return None;
    }
    match read_offset_and_register(s, open, close) {
        Ok(p) => Some(Ok(p)),
        Err(e) => Some(Err(e)),
    }
}

fn read_offset_and_register(s: &[char], open: usize, close: usize) -> (r: Result<(i32, u8), AssemblyError>)
    requires
        open < close <= s@.len(),
    ensures
        viewed(r) == offset_and_register(s@, open as int, close as int),
{
    reveal(offset_and_register);
    let offset_text = trim(vstd::slice::slice_subrange(s, 0, open));
    let reg_text = trim(vstd::slice::slice_subrange(s, open + 1, close));
    proof {
        assert(s@.subrange(0, open as int) =~= s@.take(open as int));
    }
    let offset = if offset_text.len() == 0 {
        0i32
    } else {
        match immediate_operand(offset_text.as_slice()) {
            Ok(v) => v,
            Err(e) => {
                return Err(e);
            },
        }
    };
    match register_operand(reg_text.as_slice()) {
        Ok(reg) => Ok((offset, reg)),
        Err(e) => Err(e),
    }
}

/// Every recorded address is below `bound`.
pub open spec fn labels_below(labels: Seq<(Seq<char>, usize)>, bound: nat) -> bool {
    forall|i: int| 0 <= i < labels.len() ==> (#[trigger] labels[i]).1 < bound
}

fn lookup_label(labels: &Vec<(Vec<char>, usize)>, key: &[char]) -> (r: Option<usize>)
    ensures
        r == lookup(labels.deep_view(), key@),
{
    let ghost all = labels.deep_view();
    let mut k: usize = labels.len();
    proof {
        assert(all.take(k as int) =~= all);
    }
    while k > 0
        invariant
            k <= labels@.len(),
            all == labels.deep_view(),
            lookup(all, key@) == lookup(all.take(k as int), key@),
        decreases k,
    {
        let ghost pre = all.take(k as int);
        proof {
            assert(pre.drop_last() =~= all.take(k - 1));
            assert(labels@[k - 1].0.deep_view() =~= labels@[k - 1].0@);
            assert(pre.last() == all[k - 1]);
        }
        if chars_eq(labels[k - 1].0.as_slice(), key) {
            return Some(labels[k - 1].1);
        }
        k = k - 1;
    }
    proof {
        assert(all.take(0) =~= Seq::<(Seq<char>, usize)>::empty());
    }
    None
}

/// Reads a branch or jump target for instruction number `current`.
fn resolve_branch_target(target: &[char], labels: &Vec<(Vec<char>, usize)>, current: usize) -> (r: Result<i32, AssemblyError>)
    requires
        labels_below(labels.deep_view(), 0x8000_0000),
        current < 0x8000_0000,
    ensures
        viewed(r) == target_of(target@, labels.deep_view(), current as nat),
{
    let trimmed_target = trim(target);
    let key = upper(trimmed_target.as_slice());
    match lookup_label(labels, key.as_slice()) {
        Some(addr) => {
            proof {
                lemma_lookup_below(labels.deep_view(), key@, 0x8000_0000);
            }
            Ok((addr as i32) - (current as i32))
        },
        None => immediate_operand(target),
    }
}

proof fn lemma_lookup_below(labels: Seq<(Seq<char>, usize)>, key: Seq<char>, bound: nat)
    requires
        labels_below(labels, bound),
    ensures
        lookup(labels, key) matches Some(a) ==> a < bound,
    decreases labels.len(),
{
    if labels.len() > 0 {
        assert(labels_below(labels.drop_last(), bound)) by {
            assert forall|i: int| 0 <= i < labels.drop_last().len() implies (
            #[trigger] labels.drop_last()[i]).1 < bound by {
                assert(labels.drop_last()[i] == labels[i]);
            }
        }
        lemma_lookup_below(labels.drop_last(), key, bound);
        assert(labels[labels.len() - 1] == labels.last());
    }
}

/// The opcode an upper-cased mnemonic names.
pub fn opcode_of(m: &[char]) -> (r: Option<Opcode>)
    ensures
        r == opcode(m@),
{
    reveal(opcode);
    if chars_eq_str(m, "ADD") {
        Some(Opcode::Add)
    } else if chars_eq_str(m, "SUB") {
        Some(Opcode::Sub)
    } else if chars_eq_str(m, "AND") {
        Some(Opcode::And)
    } else if chars_eq_str(m, "OR") {
        Some(Opcode::Or)
    } else if chars_eq_str(m, "XOR") {
        Some(Opcode::Xor)
    } else if chars_eq_str(m, "SLT") {
        Some(Opcode::Slt)
    } else if chars_eq_str(m, "SLTU") {
        Some(Opcode::Sltu)
    } else if chars_eq_str(m, "SLL") {
        Some(Opcode::Sll)
    } else if chars_eq_str(m, "SRL") {
        Some(Opcode::Srl)
    } else if chars_eq_str(m, "SRA") {
        Some(Opcode::Sra)
    } else if chars_eq_str(m, "ADDI") {
        Some(Opcode::Addi)
    } else if chars_eq_str(m, "ANDI") {
        Some(Opcode::Andi)
    } else if chars_eq_str(m, "ORI") {
        Some(Opcode::Ori)
    } else if chars_eq_str(m, "XORI") {
        Some(Opcode::Xori)
    } else if chars_eq_str(m, "SLTI") {
        Some(Opcode::Slti)
    } else if chars_eq_str(m, "LW") {
        Some(Opcode::Lw)
    } else if chars_eq_str(m, "LB") {
        Some(Opcode::Lb)
    } else if chars_eq_str(m, "SW") {
        Some(Opcode::Sw)
    } else if chars_eq_str(m, "SB") {
        Some(Opcode::Sb)
    } else if chars_eq_str(m, "BEQ") {
        Some(Opcode::Beq)
    } else if chars_eq_str(m, "BNE") {
        Some(Opcode::Bne)
    } else if chars_eq_str(m, "BLT") {
        Some(Opcode::Blt)
    } else if chars_eq_str(m, "BGE") {
        Some(Opcode::Bge)
    } else if chars_eq_str(m, "J") {
        Some(Opcode::J)
    } else if chars_eq_str(m, "JAL") {
        Some(Opcode::Jal)
    } else if chars_eq_str(m, "JALR") {
        Some(Opcode::Jalr)
    } else if chars_eq_str(m, "LUI") {
        Some(Opcode::Lui)
    } else if chars_eq_str(m, "AUIPC") {
        Some(Opcode::Auipc)
    } else if chars_eq_str(m, "MV") {
        Some(Opcode::Mv)
    } else if chars_eq_str(m, "LI") {
        Some(Opcode::Li)
    } else if chars_eq_str(m, "NOP") {
        Some(Opcode::Nop)
    } else if chars_eq_str(m, "HALT") {
        Some(Opcode::Halt)
    } else {
        None
    }
}

fn words_needed_exec(op: Opcode) -> (n: usize)
    ensures
        n == words_needed(op),
{
    match op {
        Opcode::J => 2,
        Opcode::Lw | Opcode::Lb | Opcode::Sw | Opcode::Sb | Opcode::Jal | Opcode::Jalr => 3,
        Opcode::Lui | Opcode::Auipc | Opcode::Mv | Opcode::Li => 3,
        Opcode::Nop | Opcode::Halt => 1,
        _ => 4,
    }
}

fn usage_text(op: Opcode) -> (s: &'static str)
    ensures
        s@ == usage(op),
{
    match op {
        Opcode::Add => "ADD requires 3 operands: rd, rs1, rs2",
        Opcode::Sub => "SUB requires 3 operands: rd, rs1, rs2",
        Opcode::And => "AND requires 3 operands: rd, rs1, rs2",
        Opcode::Or => "OR requires 3 operands: rd, rs1, rs2",
        Opcode::Xor => "XOR requires 3 operands: rd, rs1, rs2",
        Opcode::Slt => "SLT requires 3 operands: rd, rs1, rs2",
        Opcode::Sltu => "SLTU requires 3 operands: rd, rs1, rs2",
        Opcode::Sll => "SLL requires 3 operands: rd, rs1, rs2",
        Opcode::Srl => "SRL requires 3 operands: rd, rs1, rs2",
        Opcode::Sra => "SRA requires 3 operands: rd, rs1, rs2",
        Opcode::Addi => "ADDI requires 3 operands: rd, rs1, imm",
        Opcode::Andi => "ANDI requires 3 operands: rd, rs1, imm",
        Opcode::Ori => "ORI requires 3 operands: rd, rs1, imm",
        Opcode::Xori => "XORI requires 3 operands: rd, rs1, imm",
        Opcode::Slti => "SLTI requires 3 operands: rd, rs1, imm",
        Opcode::Lw => "LW requires format: rd, offset(rs1)",
        Opcode::Lb => "LB requires format: rd, offset(rs1)",
        Opcode::Sw => "SW requires format: rs2, offset(rs1)",
        Opcode::Sb => "SB requires format: rs2, offset(rs1)",
        Opcode::Beq => "BEQ requires 3 operands: rs1, rs2, offset",
        Opcode::Bne => "BNE requires 3 operands: rs1, rs2, offset",
        Opcode::Blt => "BLT requires 3 operands: rs1, rs2, offset",
        Opcode::Bge => "BGE requires 3 operands: rs1, rs2, offset",
        Opcode::J => "J requires 1 operand: offset",
        Opcode::Jal => "JAL requires 2 operands: rd, offset",
        Opcode::Jalr => "JALR requires format: rd, offset(rs1)",
        Opcode::Lui => "LUI requires 2 operands: rd, imm",
        Opcode::Auipc => "AUIPC requires 2 operands: rd, imm",
        Opcode::Mv => "MV requires 2 operands: rd, rs",
        Opcode::Li => "LI requires 2 operands: rd, imm",
        Opcode::Nop => "",
        Opcode::Halt => "",
    }
}

fn read_operands(op: Opcode, parts: &Vec<Vec<char>>, labels: &Vec<(Vec<char>, usize)>, current: usize) -> (r: Option<Result<Instruction, AssemblyError>>)
    requires
        parts@.len() >= words_needed(op),
        labels_below(labels.deep_view(), 0x8000_0000),
        current < 0x8000_0000,
    ensures
        viewed_or_stop(r) == operands(op, parts.deep_view(), labels.deep_view(), current as nat),
{
    proof {
        lemma_deep_chars(parts);
    }
    match op {
        Opcode::Add | Opcode::Sub | Opcode::And | Opcode::Or | Opcode::Xor | Opcode::Slt
        | Opcode::Sltu | Opcode::Sll | Opcode::Srl | Opcode::Sra => {
            let rd = match register_operand(parts[1].as_slice()) {
                Ok(v) => v,
                Err(e) => {
                    return Some(Err(e));
                },
            };
            let rs1 = match register_operand(parts[2].as_slice()) {
                Ok(v) => v,
                Err(e) => {
                    return Some(Err(e));
                },
            };
            let rs2 = match register_operand(parts[3].as_slice()) {
                Ok(v) => v,
                Err(e) => {
                    return Some(Err(e));
                },
            };
            let inst = match op {
                Opcode::Add => Instruction::Add { rd, rs1, rs2 },
                Opcode::Sub => Instruction::Sub { rd, rs1, rs2 },
                Opcode::And => Instruction::And { rd, rs1, rs2 },
                Opcode::Or => Instruction::Or { rd, rs1, rs2 },
                Opcode::Xor => Instruction::Xor { rd, rs1, rs2 },
                Opcode::Sltu => Instruction::Sltu { rd, rs1, rs2 },
                Opcode::Sll => Instruction::Sll { rd, rs1, rs2 },
                Opcode::Srl => Instruction::Srl { rd, rs1, rs2 },
                Opcode::Sra => Instruction::Sra { rd, rs1, rs2 },
                _ => Instruction::Slt { rd, rs1, rs2 },
            };
            Some(Ok(inst))
        },
        Opcode::Addi | Opcode::Andi | Opcode::Ori | Opcode::Xori | Opcode::Slti => {
            let rd = match register_operand(parts[1].as_slice()) {
                Ok(v) => v,
                Err(e) => {
                    return Some(Err(e));
                },
            };
            let rs1 = match register_operand(parts[2].as_slice()) {
                Ok(v) => v,
                Err(e) => {
                    return Some(Err(e));
                },
            };
            let imm = match immediate_operand(parts[3].as_slice()) {
                Ok(v) => v,
                Err(e) => {
                    return Some(Err(e));
                },
            };
            let inst = match op {
                Opcode::Addi => Instruction::Addi { rd, rs1, imm },
                Opcode::Andi => Instruction::Andi { rd, rs1, imm },
                Opcode::Ori => Instruction::Ori { rd, rs1, imm },
                Opcode::Xori => Instruction::Xori { rd, rs1, imm },
                _ => Instruction::Slti { rd, rs1, imm },
            };
            Some(Ok(inst))
        },
        Opcode::Lw | Opcode::Lb | Opcode::Sw | Opcode::Sb | Opcode::Jalr => {
            let (offset, rs1) = match offset_register_operand(parts[2].as_slice()) {
                None => {
                    return None;
                },
                Some(Err(e)) => {
                    return Some(Err(e));
                },
                Some(Ok(p)) => p,
            };
            let r = match register_operand(parts[1].as_slice()) {
                Ok(v) => v,
                Err(e) => {
                    return Some(Err(e));
                },
            };
            let inst = match op {
                Opcode::Lw => Instruction::Lw { rd: r, rs1, offset },
                Opcode::Lb => Instruction::Lb { rd: r, rs1, offset },
                Opcode::Sw => Instruction::Sw { rs2: r, rs1, offset },
                Opcode::Sb => Instruction::Sb { rs2: r, rs1, offset },
                _ => Instruction::Jalr { rd: r, rs1, offset },
            };
            Some(Ok(inst))
        },
        Opcode::Beq | Opcode::Bne | Opcode::Blt | Opcode::Bge => {
            let offset = match resolve_branch_target(parts[3].as_slice(), labels, current) {
                Ok(v) => v,
                Err(e) => {
                    return Some(Err(e));
                },
            };
            let rs1 = match register_operand(parts[1].as_slice()) {
                Ok(v) => v,
                Err(e) => {
                    return Some(Err(e));
                },
            };
            let rs2 = match register_operand(parts[2].as_slice()) {
                Ok(v) => v,
                Err(e) => {
                    return Some(Err(e));
                },
            };
            let inst = match op {
                Opcode::Beq => Instruction::Beq { rs1, rs2, offset },
                Opcode::Bne => Instruction::Bne { rs1, rs2, offset },
                Opcode::Blt => Instruction::Blt { rs1, rs2, offset },
                _ => Instruction::Bge { rs1, rs2, offset },
            };
            Some(Ok(inst))
        },
        Opcode::J => match resolve_branch_target(parts[1].as_slice(), labels, current) {
            Ok(offset) => Some(Ok(Instruction::J { offset })),
            Err(e) => Some(Err(e)),
        },
        Opcode::Jal => {
            let offset = match resolve_branch_target(parts[2].as_slice(), labels, current) {
                Ok(v) => v,
                Err(e) => {
                    return Some(Err(e));
                },
            };
            match register_operand(parts[1].as_slice()) {
                Ok(rd) => Some(Ok(Instruction::Jal { rd, offset })),
                Err(e) => Some(Err(e)),
            }
        },
        Opcode::Lui | Opcode::Auipc | Opcode::Li => {
            let rd = match register_operand(parts[1].as_slice()) {
                Ok(v) => v,
                Err(e) => {
                    return Some(Err(e));
                },
            };
            let imm = match immediate_operand(parts[2].as_slice()) {
                Ok(v) => v,
                Err(e) => {
                    return Some(Err(e));
                },
            };
            let inst = match op {
                Opcode::Lui => Instruction::Lui { rd, imm },
                Opcode::Auipc => Instruction::Auipc { rd, imm },
                _ => Instruction::Addi { rd, rs1: 0, imm },
            };
            Some(Ok(inst))
        },
        Opcode::Mv => {
            let rd = match register_operand(parts[1].as_slice()) {
                Ok(v) => v,
                Err(e) => {
                    return Some(Err(e));
                },
            };
            match register_operand(parts[2].as_slice()) {
                Ok(rs) => Some(Ok(Instruction::Addi { rd, rs1: rs, imm: 0 })),
                Err(e) => Some(Err(e)),
            }
        },
        Opcode::Nop => Some(Ok(Instruction::Nop)),
        Opcode::Halt => Some(Ok(Instruction::Halt)),
    }
}

/// The upper and lower parts of a wide `LI` value.
fn li_parts(v: i32) -> (r: (i32, i32))
    ensures
        r.0 == li_upper(v),
        r.1 == li_lower(v),
{
    let t: i64 = v as i64 + 2048;
    let hi: i64 = if t >= 0 {
        t / 4096
    } else {
        0 - ((0 - t + 4095) / 4096)
    };
    assert(hi == (v + 2048) / 4096) by (nonlinear_arith)
        requires
            t == v + 2048,
            t >= 0 ==> hi == t / 4096,
            t < 0 ==> hi == 0 - ((0 - t + 4095) / 4096),
    ;
    assert(-524288 <= hi <= 524288) by (nonlinear_arith)
        requires
            hi == (v + 2048) / 4096,
            -0x8000_0000 <= v <= 0x7fff_ffff,
    ;
    let lo: i64 = v as i64 - 4096 * hi;
    (hi as i32, lo as i32)
}

/// The instructions of a statement whose operands read as `inst`.
fn expand(op: Opcode, inst: Instruction) -> (r: Vec<Instruction>)
    ensures
        r@ == expansion(op, inst),
        1 <= r@.len() <= 2,
{
    match inst {
        Instruction::Addi { rd, rs1, imm } => {
            if op == Opcode::Li && !(-2048 <= imm && imm <= 2047) {
                let (hi, lo) = li_parts(imm);
                let v = vec![
                    Instruction::Lui { rd, imm: hi },
                    Instruction::Addi { rd, rs1: rd, imm: lo },
                ];
                proof {
                    assert(v@ =~= expansion(op, inst));
                }
                v
            } else {
                let v = vec![inst];
                proof {
                    assert(v@ =~= expansion(op, inst));
                }
                v
            }
        },
        _ => {
            let v = vec![inst];
            proof {
                assert(v@ =~= expansion(op, inst));
            }
            v
        },
    }
}

/// Assembles one statement starting at instruction number `current`; `None` where
/// assembly stops.
pub fn assemble_instruction(line: &[char], labels: &Vec<(Vec<char>, usize)>, current: usize) -> (r: Option<Result<Vec<Instruction>, AssemblyError>>)
    requires
        labels_below(labels.deep_view(), 0x8000_0000),
        current < 0x8000_0000,
    ensures
        viewed_or_stop(match r {
            Some(Ok(v)) => Some(Ok::<Seq<Instruction>, AssemblyError>(v@)),
            Some(Err(e)) => Some(Err(e)),
            None => None,
        }) == statement_of(line@, labels.deep_view(), current as nat),
        r matches Some(Ok(v)) ==> 1 <= v@.len() <= 2,
{
    let parts = split_words(line);
    if parts.len() == 0 {
        let v = vec![Instruction::Nop];
        proof {
            assert(v@ =~= seq![Instruction::Nop]);
        }
        return Some(Ok(v));
    }
    let mnemonic = upper(parts[0].as_slice());
    match opcode_of(mnemonic.as_slice()) {
        None => Some(Err(AssemblyError::InvalidInstruction(string_from_chars(mnemonic.as_slice())))),
        Some(op) => {
            if parts.len() < words_needed_exec(op) {
                let u = usage_text(op);
                let mut text: Vec<char> = Vec::new();
                push_str(&mut text, u);
                return Some(Err(AssemblyError::InvalidOperand(string_from_chars(text.as_slice()))));
            }
            match read_operands(op, &parts, labels, current) {
                None => None,
                Some(Err(e)) => Some(Err(e)),
                Some(Ok(inst)) => Some(Ok(expand(op, inst))),
            }
        },
    }
}


fn clean_line(line: &[char]) -> (r: Vec<char>)
    ensures
        r@ == cleaned(line@),
{
    let stripped = strip_comments(line);
    trim(stripped.as_slice())
}

fn statement_text(l: &[char]) -> (r: Vec<char>)
    ensures
        r@ == statement_part(l@),
{
    let n = l.len();
    match find_char(l, ':') {
        Some(i) => {
            let rest = vstd::slice::slice_subrange(l, i + 1, n);
            proof {
                assert(rest@ =~= l@.skip(i + 1));
            }
            trim(rest)
        },
        None => vstd::slice::slice_to_vec(l),
    }
}

/// How many instructions a statement becomes, as the label pass counts them.
fn statement_size_exec(line: &[char]) -> (n: usize)
    ensures
        n == statement_size(line@),
        1 <= n <= 2,
{
    let parts = split_words(line);
    if parts.len() >= 3 {
        let m = upper(parts[0].as_slice());
        if chars_eq_str(m.as_slice(), "LI") {
            match immediate_operand(parts[2].as_slice()) {
                Ok(v) => if -2048 <= v && v <= 2047 {
                    1
                } else {
                    2
                },
                Err(_) => 1,
            }
        } else {
            1
        }
    } else {
        1
    }
}

fn collect_labels(ls: &Vec<Vec<char>>) -> (r: Vec<(Vec<char>, usize)>)
    requires
        label_scan(ls.deep_view()).1 < MAX_INSTRUCTIONS,
    ensures
        r.deep_view() == label_scan(ls.deep_view()).0,
        labels_below(r.deep_view(), 0x8000_0000),
{
    let ghost all = ls.deep_view();
    proof {
        lemma_deep_chars(ls);
    }
    let mut labels: Vec<(Vec<char>, usize)> = Vec::new();
    let mut count: usize = 0;
    let mut k: usize = 0;
    while k < ls.len()
        invariant
            all == ls.deep_view(),
            all.len() == ls@.len(),
            label_scan(all).1 < MAX_INSTRUCTIONS,
            forall|j: int| 0 <= j < ls@.len() ==> #[trigger] ls@[j]@ == all[j],
            k <= ls@.len(),
            (labels.deep_view(), count as nat) == label_scan(all.take(k as int)),
            labels_below(labels.deep_view(), (count + 1) as nat),
        decreases ls@.len() - k,
    {
        proof {
            assert(all.take(k + 1).drop_last() =~= all.take(k as int));
            assert(all.take(k + 1).last() == all[k as int]);
        }
        let l = clean_line(ls[k].as_slice());
        match find_char(l.as_slice(), ':') {
            Some(i) => {
                let name = trim(vstd::slice::slice_subrange(l.as_slice(), 0, i));
                proof {
                    assert(l@.subrange(0, i as int) =~= l@.take(i as int));
                }
                let key = upper(name.as_slice());
                let rest = statement_text(l.as_slice());
                let ghost before = labels.deep_view();
                let ghost key_view = key@;
                proof {
                    assert(key.deep_view() =~= key@);
                }
                labels.push((key, count));
                proof {
                    assert(labels.deep_view() =~= before.push((key_view, count)));
                    assert forall|j: int| 0 <= j < labels.deep_view().len() implies (
                    #[trigger] labels.deep_view()[j]).1 < count + 1 by {
                        if j < before.len() {
                            assert(labels.deep_view()[j] == before[j]);
                        }
                    }
                }
                if rest.len() > 0 {
                    let size = statement_size_exec(rest.as_slice());
                    proof {
                        lemma_count_grows(all, (k + 1) as nat, all.len());
                        assert(all.take(all.len() as int) =~= all);
                        assert(label_scan(all.take(k + 1)).1 == count + size);
                    }
                    count = count + size;
                }
            },
            None => {
                if l.len() > 0 {
                    let size = statement_size_exec(l.as_slice());
                    proof {
                        lemma_count_grows(all, (k + 1) as nat, all.len());
                        assert(all.take(all.len() as int) =~= all);
                        assert(label_scan(all.take(k + 1)).1 == count + size);
                    }
                    count = count + size;
                }
            },
        }
        k = k + 1;
    }
    proof {
        assert(all.take(ls@.len() as int) =~= all);
        assert forall|j: int| 0 <= j < labels.deep_view().len() implies (
        #[trigger] labels.deep_view()[j]).1 < 0x8000_0000 by {
            assert(labels.deep_view()[j].1 < count + 1);
        }
    }
    labels
}

fn listing_line(index: usize, inst: &Instruction, stmt: &[char]) -> (s: String)
    requires
        index < 0x8000_0000,
    ensures
        s@ == listing(index as nat, *inst, stmt@),
{
    let mut out: Vec<char> = Vec::new();
    push_hex(&mut out, (index as u64) * 4, 4);
    push_str(&mut out, ": ");
    inst.push_text(&mut out);
    push_str(&mut out, " | ");
    push_chars(&mut out, stmt);
    proof {
        assert(out@ =~= listing(index as nat, *inst, stmt@));
    }
    string_from_chars(out.as_slice())
}

/// The whole assembler, with `None` where assembly stops.
fn assemble_source(source: &str) -> (r: Option<Result<AssemblyOutput, AssemblyError>>)
    requires
        instruction_count(source@) < MAX_INSTRUCTIONS,
    ensures
        r is None <==> !finishes(source@),
        r matches Some(res) ==> output_viewed(res) == assembly(source@),
{
    let text = chars_of(source);
    let ls = split_lines(text.as_slice());
    let ghost all = ls.deep_view();
    proof {
        lemma_deep_chars(&ls);
    }
    let labels = collect_labels(&ls);
    let ghost table = labels.deep_view();
    let mut instructions: Vec<Instruction> = Vec::new();
    let mut disassembly: Vec<String> = Vec::new();
    let mut k: usize = 0;
    proof {
        assert(all.take(0) =~= Seq::<Seq<char>>::empty());
        assert(disassembly.deep_view() =~= Seq::<Seq<char>>::empty());
    }
    while k < ls.len()
        invariant
            all == ls.deep_view(),
            all == lines(source@),
            all.len() == ls@.len(),
            label_scan(all).1 < MAX_INSTRUCTIONS,
            forall|j: int| 0 <= j < ls@.len() ==> #[trigger] ls@[j]@ == all[j],
            table == labels.deep_view(),
            table == label_scan(all).0,
            labels_below(table, 0x8000_0000),
            k <= ls@.len(),
            instructions@.len() == label_scan(all.take(k as int)).1,
            code_scan(all.take(k as int), table) == Ok::<
                (Seq<Instruction>, Seq<Seq<char>>),
                AsmError,
            >((instructions@, disassembly.deep_view())),
        decreases ls@.len() - k,
    {
        proof {
            assert(all.take(k + 1).drop_last() =~= all.take(k as int));
            assert(all.take(k + 1).last() == all[k as int]);
        }
        proof {
            lemma_count_grows(all, k as nat, all.len());
            assert(all.take(all.len() as int) =~= all);
        }
        let l = clean_line(ls[k].as_slice());
        let stmt = statement_text(l.as_slice());
        if stmt.len() > 0 {
            match assemble_instruction(stmt.as_slice(), &labels, instructions.len()) {
                None => {
                    proof {
                        lemma_scan_stops(all, table, (k + 1) as nat);
                        assert(all.take(all.len() as int) =~= all);
                    }
                    return None;
                },
                Some(Err(e)) => {
                    let message = e.to_string();
                    let ghost failed = code_scan(all.take(k + 1), table);
                    proof {
                        lemma_scan_fails(all, table, (k + 1) as nat);
                        assert(all.take(all.len() as int) =~= all);
                    }
                    return Some(Err(AssemblyError::ParseError { line: k + 1, message }));
                },
                Some(Ok(block)) => {
                    let start = instructions.len();
                    proof {
                        lemma_scan_counts(all.take(k + 1), table);
                        lemma_count_grows(all, (k + 1) as nat, all.len());
                        assert(all.take(all.len() as int) =~= all);
                        assert(start + block@.len() == label_scan(all.take(k + 1)).1);
                    }
                    let ghost before_insts = instructions@;
                    let ghost before_lines = disassembly.deep_view();
                    let ghost listed = listings(start as nat, block@, stmt@);
                    let mut j: usize = 0;
                    while j < block.len()
                        invariant
                            j <= block@.len(),
                            1 <= block@.len() <= 2,
                            start == before_insts.len(),
                            start + block@.len() < MAX_INSTRUCTIONS,
                            listed == listings(start as nat, block@, stmt@),
                            instructions@ == before_insts + block@.take(j as int),
                            disassembly.deep_view() == before_lines + listed.take(j as int),
                        decreases block@.len() - j,
                    {
                        let line = listing_line(start + j, &block[j], stmt.as_slice());
                        let ghost lines_now = disassembly.deep_view();
                        let ghost line_view = line@;
                        disassembly.push(line);
                        instructions.push(block[j]);
                        proof {
                            assert(disassembly.deep_view() =~= lines_now.push(line_view));
                            assert(listed[j as int] == line_view);
                            assert(listed.take(j + 1) =~= listed.take(j as int).push(line_view));
                            assert(block@.take(j + 1) =~= block@.take(j as int).push(block@[j as int]));
                        }
                        j = j + 1;
                    }
                    proof {
                        assert(block@.take(block@.len() as int) =~= block@);
                        assert(listed.take(block@.len() as int) =~= listed);
                    }
                },
            }
        }
        proof {
            lemma_scan_counts(all.take(k + 1), table);
        }
        k = k + 1;
    }
    proof {
        assert(all.take(ls@.len() as int) =~= all);
    }
    Some(Ok(AssemblyOutput { instructions, disassembly }))
}

/// Whether `source` assembles to fewer than `MAX_INSTRUCTIONS` instructions, as the label
/// pass counts them: the sources the assembler takes.
pub fn within_instruction_limit(source: &str) -> (b: bool)
    ensures
        b == (instruction_count(source@) < MAX_INSTRUCTIONS),
{
    let text = chars_of(source);
    let ls = split_lines(text.as_slice());
    let ghost all = ls.deep_view();
    proof {
        lemma_deep_chars(&ls);
        assert(all.take(0) =~= Seq::<Seq<char>>::empty());
    }
    let mut count: usize = 0;
    let mut k: usize = 0;
    while k < ls.len()
        invariant
            all == ls.deep_view(),
            all == lines(source@),
            all.len() == ls@.len(),
            forall|j: int| 0 <= j < ls@.len() ==> #[trigger] ls@[j]@ == all[j],
            k <= ls@.len(),
            count as nat == label_scan(all.take(k as int)).1,
            count < MAX_INSTRUCTIONS,
        decreases ls@.len() - k,
    {
        proof {
            assert(all.take(k + 1).drop_last() =~= all.take(k as int));
            assert(all.take(k + 1).last() == all[k as int]);
        }
        let l = clean_line(ls[k].as_slice());
        let st = statement_text(l.as_slice());
        if st.len() > 0 {
            let size = statement_size_exec(st.as_slice());
            if count + size >= MAX_INSTRUCTIONS {
                proof {
                    lemma_count_grows(all, (k + 1) as nat, all.len());
                    assert(all.take(all.len() as int) =~= all);
                }
                return false;
            }
            count = count + size;
        }
        k = k + 1;
    }
    proof {
        assert(all.take(all.len() as int) =~= all);
    }
    true
}

/// Once a prefix of the lines fails, the whole scan fails the same way.
proof fn lemma_scan_fails(ls: Seq<Seq<char>>, labels: Seq<(Seq<char>, usize)>, k: nat)
    requires
        k <= ls.len(),
        code_scan(ls.take(k as int), labels) is Err,
    ensures
        code_scan(ls, labels) == code_scan(ls.take(k as int), labels),
    decreases ls.len() - k,
{
    if k < ls.len() {
        assert(ls.take((k + 1) as int).drop_last() =~= ls.take(k as int));
        lemma_scan_fails(ls, labels, k + 1);
    } else {
        assert(ls.take(k as int) =~= ls);
    }
}

/// Once a prefix of the lines stops, the whole scan stops.
proof fn lemma_scan_stops(ls: Seq<Seq<char>>, labels: Seq<(Seq<char>, usize)>, k: nat)
    requires
        k <= ls.len(),
        code_scan(ls.take(k as int), labels) == Err::<(Seq<Instruction>, Seq<Seq<char>>), AsmError>(AsmError::Stops),
    ensures
        code_scan(ls, labels) == Err::<(Seq<Instruction>, Seq<Seq<char>>), AsmError>(AsmError::Stops),
{
    lemma_scan_fails(ls, labels, k);
}

/// Assembles a source: labels are collected first, then each statement becomes its
/// instructions (one, or two for a wide `LI`), each with a listing line. An error is reported as `ParseError` with the line
/// number and the error's message.
pub fn assemble(source: &str) -> (r: Result<AssemblyOutput, AssemblyError>)
    requires
        instruction_count(source@) < MAX_INSTRUCTIONS,
        finishes(source@),
    ensures
        output_viewed(r) == assembly(source@),
{
    match assemble_source(source) {
        Some(r) => r,
        None => {
            proof {
                assert(false);
            }
            Err(AssemblyError::UndefinedLabel(String::new()))
        },
    }
}

/// Assembles a source that may be one on which assembly stops (an offset operand whose
/// `)` comes before its `(`); `None` for such a source.
pub fn try_assemble(source: &str) -> (r: Option<Result<AssemblyOutput, AssemblyError>>)
    requires
        instruction_count(source@) < MAX_INSTRUCTIONS,
    ensures
        r is None <==> !finishes(source@),
        r matches Some(res) ==> output_viewed(res) == assembly(source@),
{
    assemble_source(source)
}


// ===== Laws of assembly =====

/// The statement text of each instruction, in order: the non-empty statements of the
/// lines (comment, label and surrounding whitespace removed), each once for every
/// instruction it becomes.
pub open spec fn statement_texts(ls: Seq<Seq<char>>) -> Seq<Seq<char>>
    decreases ls.len(),
{
    if ls.len() == 0 {
        seq![]
    } else {
        let st = statement_part(cleaned(ls.last()));
        statement_texts(ls.drop_last()) + if st.len() == 0 {
            Seq::<Seq<char>>::empty()
        } else {
            Seq::new(statement_size(st), |j: int| st)
        }
    }
}

/// Listing line `i` is exactly the listing of instruction `i` with the `i`-th statement
/// text: address `4 * i`, the instruction's text, and the statement as written.
pub proof fn law_listing_lines(src: Seq<char>)
    ensures
        assembly(src) matches Ok((insts, listed)) ==> {
            &&& insts.len() == listed.len()
            &&& statement_texts(lines(src)).len() == listed.len()
            &&& forall|i: int| 0 <= i < listed.len() ==> #[trigger] listed[i] == listing(
                i as nat,
                insts[i],
                statement_texts(lines(src))[i],
            )
        },
{
    let ls = lines(src);
    lemma_scan_statements(ls, label_scan(ls).0);
}

proof fn lemma_scan_statements(ls: Seq<Seq<char>>, labels: Seq<(Seq<char>, usize)>)
    ensures
        code_scan(ls, labels) matches Ok((insts, listed)) ==> {
            &&& insts.len() == listed.len()
            &&& statement_texts(ls).len() == listed.len()
            &&& forall|i: int| 0 <= i < listed.len() ==> #[trigger] listed[i] == listing(
                i as nat,
                insts[i],
                statement_texts(ls)[i],
            )
        },
    decreases ls.len(),
{
    if ls.len() > 0 {
        lemma_scan_statements(ls.drop_last(), labels);
        if let Ok((insts0, listed0)) = code_scan(ls.drop_last(), labels) {
            let st = statement_part(cleaned(ls.last()));
            let texts0 = statement_texts(ls.drop_last());
            if st.len() != 0 {
                lemma_statement_size(st, labels, insts0.len());
                if let Ok(block) = statement_of(st, labels, insts0.len()) {
                    let insts = insts0 + block;
                    let listed = listed0 + listings(insts0.len(), block, st);
                    let texts = statement_texts(ls);
                    assert(texts == texts0 + Seq::new(statement_size(st), |j: int| st));
                    assert forall|i: int| 0 <= i < listed.len() implies #[trigger] listed[i]
                        == listing(i as nat, insts[i], texts[i]) by {
                        if i < listed0.len() {
                            assert(listed[i] == listed0[i]);
                            assert(insts[i] == insts0[i]);
                            assert(texts[i] == texts0[i]);
                        } else {
                            let j = i - listed0.len();
                            assert(insts[i] == block[j]);
                            assert(texts[i] == st);
                        }
                    }
                }
            } else {
                assert(statement_texts(ls) =~= texts0);
            }
        }
    }
}

/// Both passes count the same statements: the instructions assembled are as many as the
/// label pass counted, so a label's recorded number is the index of the instruction that
/// follows it.
pub proof fn law_passes_agree(src: Seq<char>)
    ensures
        assembly(src) matches Ok((insts, _)) ==> insts.len() == label_scan(lines(src)).1,
{
    let ls = lines(src);
    lemma_scan_counts(ls, label_scan(ls).0);
}

proof fn lemma_scan_counts(ls: Seq<Seq<char>>, labels: Seq<(Seq<char>, usize)>)
    ensures
        code_scan(ls, labels) matches Ok((insts, _)) ==> insts.len() == label_scan(ls).1,
    decreases ls.len(),
{
    if ls.len() > 0 {
        lemma_scan_counts(ls.drop_last(), labels);
        let st = statement_part(cleaned(ls.last()));
        lemma_statement_size(st, labels, label_scan(ls.drop_last()).1);
        if let Ok((insts0, _)) = code_scan(ls.drop_last(), labels) {
            lemma_statement_size(st, labels, insts0.len());
        }
    }
}

/// The label pass counts a statement as many instructions as it becomes.
proof fn lemma_statement_size(st: Seq<char>, labels: Seq<(Seq<char>, usize)>, current: nat)
    ensures
        statement_of(st, labels, current) matches Ok(block) ==> block.len() == statement_size(st),
{
    reveal(opcode);
    let parts = words(st);
    if parts.len() > 0 {
        let m = upper_text(parts[0]);
        if m == "LI"@ {
            lemma_mnemonic_spellings();
            assert(opcode(m) == Some(Opcode::Li));
        } else {
            assert(opcode(m) != Some(Opcode::Li));
        }
    }
}

/// The spelling of every mnemonic, letter by letter.
proof fn lemma_mnemonic_spellings()
    ensures
        "ADD"@.len() == 3 && "ADD"@[0] == 'A' && "ADD"@[1] == 'D' && "ADD"@[2] == 'D',
        "SUB"@.len() == 3 && "SUB"@[0] == 'S' && "SUB"@[1] == 'U' && "SUB"@[2] == 'B',
        "AND"@.len() == 3 && "AND"@[0] == 'A' && "AND"@[1] == 'N' && "AND"@[2] == 'D',
        "OR"@.len() == 2 && "OR"@[0] == 'O' && "OR"@[1] == 'R',
        "XOR"@.len() == 3 && "XOR"@[0] == 'X' && "XOR"@[1] == 'O' && "XOR"@[2] == 'R',
        "SLT"@.len() == 3 && "SLT"@[0] == 'S' && "SLT"@[1] == 'L' && "SLT"@[2] == 'T',
        "SLTU"@.len() == 4 && "SLTU"@[0] == 'S' && "SLTU"@[1] == 'L' && "SLTU"@[2] == 'T' && "SLTU"@[3] == 'U',
        "SLL"@.len() == 3 && "SLL"@[0] == 'S' && "SLL"@[1] == 'L' && "SLL"@[2] == 'L',
        "SRL"@.len() == 3 && "SRL"@[0] == 'S' && "SRL"@[1] == 'R' && "SRL"@[2] == 'L',
        "SRA"@.len() == 3 && "SRA"@[0] == 'S' && "SRA"@[1] == 'R' && "SRA"@[2] == 'A',
        "ADDI"@.len() == 4 && "ADDI"@[0] == 'A' && "ADDI"@[1] == 'D' && "ADDI"@[2] == 'D' && "ADDI"@[3] == 'I',
        "ANDI"@.len() == 4 && "ANDI"@[0] == 'A' && "ANDI"@[1] == 'N' && "ANDI"@[2] == 'D' && "ANDI"@[3] == 'I',
        "ORI"@.len() == 3 && "ORI"@[0] == 'O' && "ORI"@[1] == 'R' && "ORI"@[2] == 'I',
        "XORI"@.len() == 4 && "XORI"@[0] == 'X' && "XORI"@[1] == 'O' && "XORI"@[2] == 'R' && "XORI"@[3] == 'I',
        "SLTI"@.len() == 4 && "SLTI"@[0] == 'S' && "SLTI"@[1] == 'L' && "SLTI"@[2] == 'T' && "SLTI"@[3] == 'I',
        "LW"@.len() == 2 && "LW"@[0] == 'L' && "LW"@[1] == 'W',
        "LB"@.len() == 2 && "LB"@[0] == 'L' && "LB"@[1] == 'B',
        "SW"@.len() == 2 && "SW"@[0] == 'S' && "SW"@[1] == 'W',
        "SB"@.len() == 2 && "SB"@[0] == 'S' && "SB"@[1] == 'B',
        "BEQ"@.len() == 3 && "BEQ"@[0] == 'B' && "BEQ"@[1] == 'E' && "BEQ"@[2] == 'Q',
        "BNE"@.len() == 3 && "BNE"@[0] == 'B' && "BNE"@[1] == 'N' && "BNE"@[2] == 'E',
        "BLT"@.len() == 3 && "BLT"@[0] == 'B' && "BLT"@[1] == 'L' && "BLT"@[2] == 'T',
        "BGE"@.len() == 3 && "BGE"@[0] == 'B' && "BGE"@[1] == 'G' && "BGE"@[2] == 'E',
        "J"@.len() == 1 && "J"@[0] == 'J',
        "JAL"@.len() == 3 && "JAL"@[0] == 'J' && "JAL"@[1] == 'A' && "JAL"@[2] == 'L',
        "JALR"@.len() == 4 && "JALR"@[0] == 'J' && "JALR"@[1] == 'A' && "JALR"@[2] == 'L' && "JALR"@[3] == 'R',
        "LUI"@.len() == 3 && "LUI"@[0] == 'L' && "LUI"@[1] == 'U' && "LUI"@[2] == 'I',
        "AUIPC"@.len() == 5 && "AUIPC"@[0] == 'A' && "AUIPC"@[1] == 'U' && "AUIPC"@[2] == 'I' && "AUIPC"@[3] == 'P' && "AUIPC"@[4] == 'C',
        "MV"@.len() == 2 && "MV"@[0] == 'M' && "MV"@[1] == 'V',
        "LI"@.len() == 2 && "LI"@[0] == 'L' && "LI"@[1] == 'I',
        "NOP"@.len() == 3 && "NOP"@[0] == 'N' && "NOP"@[1] == 'O' && "NOP"@[2] == 'P',
        "HALT"@.len() == 4 && "HALT"@[0] == 'H' && "HALT"@[1] == 'A' && "HALT"@[2] == 'L' && "HALT"@[3] == 'T',
{
    reveal_strlit("ADD");
    reveal_strlit("SUB");
    reveal_strlit("AND");
    reveal_strlit("OR");
    reveal_strlit("XOR");
    reveal_strlit("SLT");
    reveal_strlit("SLTU");
    reveal_strlit("SLL");
    reveal_strlit("SRL");
    reveal_strlit("SRA");
    reveal_strlit("ADDI");
    reveal_strlit("ANDI");
    reveal_strlit("ORI");
    reveal_strlit("XORI");
    reveal_strlit("SLTI");
    reveal_strlit("LW");
    reveal_strlit("LB");
    reveal_strlit("SW");
    reveal_strlit("SB");
    reveal_strlit("BEQ");
    reveal_strlit("BNE");
    reveal_strlit("BLT");
    reveal_strlit("BGE");
    reveal_strlit("J");
    reveal_strlit("JAL");
    reveal_strlit("JALR");
    reveal_strlit("LUI");
    reveal_strlit("AUIPC");
    reveal_strlit("MV");
    reveal_strlit("LI");
    reveal_strlit("NOP");
    reveal_strlit("HALT");
}

/// The opcode whose mnemonic an instruction carries.
pub open spec fn opcode_of_instruction(inst: Instruction) -> Opcode {
    match inst {
        Instruction::Add { .. } => Opcode::Add,
        Instruction::Sub { .. } => Opcode::Sub,
        Instruction::And { .. } => Opcode::And,
        Instruction::Or { .. } => Opcode::Or,
        Instruction::Xor { .. } => Opcode::Xor,
        Instruction::Slt { .. } => Opcode::Slt,
        Instruction::Sltu { .. } => Opcode::Sltu,
        Instruction::Sll { .. } => Opcode::Sll,
        Instruction::Srl { .. } => Opcode::Srl,
        Instruction::Sra { .. } => Opcode::Sra,
        Instruction::Addi { .. } => Opcode::Addi,
        Instruction::Andi { .. } => Opcode::Andi,
        Instruction::Ori { .. } => Opcode::Ori,
        Instruction::Xori { .. } => Opcode::Xori,
        Instruction::Slti { .. } => Opcode::Slti,
        Instruction::Lw { .. } => Opcode::Lw,
        Instruction::Lb { .. } => Opcode::Lb,
        Instruction::Sw { .. } => Opcode::Sw,
        Instruction::Sb { .. } => Opcode::Sb,
        Instruction::Beq { .. } => Opcode::Beq,
        Instruction::Bne { .. } => Opcode::Bne,
        Instruction::Blt { .. } => Opcode::Blt,
        Instruction::Bge { .. } => Opcode::Bge,
        Instruction::J { .. } => Opcode::J,
        Instruction::Jal { .. } => Opcode::Jal,
        Instruction::Jalr { .. } => Opcode::Jalr,
        Instruction::Lui { .. } => Opcode::Lui,
        Instruction::Auipc { .. } => Opcode::Auipc,
        Instruction::Nop => Opcode::Nop,
        Instruction::Halt => Opcode::Halt,
    }
}

/// An instruction's mnemonic is upper-case ASCII letters, and the assembler reads it as
/// the instruction's own opcode.
pub proof fn lemma_mnemonic_reads_back(inst: Instruction)
    ensures
        opcode(inst.mnemonic_text()) == Some(opcode_of_instruction(inst)),
        inst.mnemonic_text().len() >= 1,
        forall|i: int| 0 <= i < inst.mnemonic_text().len() ==> 65 <= #[trigger] (inst.mnemonic_text()[i] as u32) <= 90,
{
    reveal(opcode);
    lemma_mnemonic_spellings();
}

/// Distinct kinds of instruction have distinct mnemonics.
pub proof fn law_distinct_mnemonics(a: Instruction, b: Instruction)
    ensures
        opcode_of_instruction(a) != opcode_of_instruction(b) ==> a.mnemonic_text() != b.mnemonic_text(),
{
    lemma_mnemonic_reads_back(a);
    lemma_mnemonic_reads_back(b);
}

// ===== Instruction text reads back =====

/// Whether every register an instruction names is one the assembler reads, `x0` to `x7`.
pub open spec fn registers_in_range(inst: Instruction) -> bool {
    match inst {
        Instruction::Add { rd, rs1, rs2 } | Instruction::Sub { rd, rs1, rs2 }
        | Instruction::And { rd, rs1, rs2 } | Instruction::Or { rd, rs1, rs2 }
        | Instruction::Xor { rd, rs1, rs2 } | Instruction::Slt { rd, rs1, rs2 }
        | Instruction::Sltu { rd, rs1, rs2 } | Instruction::Sll { rd, rs1, rs2 }
        | Instruction::Srl { rd, rs1, rs2 } | Instruction::Sra { rd, rs1, rs2 } => rd <= 7
            && rs1 <= 7 && rs2 <= 7,
        Instruction::Addi { rd, rs1, .. } | Instruction::Andi { rd, rs1, .. }
        | Instruction::Ori { rd, rs1, .. } | Instruction::Xori { rd, rs1, .. }
        | Instruction::Slti { rd, rs1, .. } | Instruction::Lw { rd, rs1, .. }
        | Instruction::Lb { rd, rs1, .. } | Instruction::Jalr { rd, rs1, .. } => rd <= 7 && rs1 <= 7,
        Instruction::Sw { rs2, rs1, .. } | Instruction::Sb { rs2, rs1, .. }
        | Instruction::Beq { rs1, rs2, .. } | Instruction::Bne { rs1, rs2, .. }
        | Instruction::Blt { rs1, rs2, .. } | Instruction::Bge { rs1, rs2, .. } => rs1 <= 7 && rs2 <= 7,
        Instruction::Jal { rd, .. } | Instruction::Lui { rd, .. } | Instruction::Auipc { rd, .. } => rd <= 7,
        Instruction::J { .. } | Instruction::Nop | Instruction::Halt => true,
    }
}

/// The text of register `r` reads back as `r`.
proof fn lemma_register_reads_back(r: u8)
    requires
        r <= 7,
    ensures
        register_of(reg_text(r)) == Ok::<u8, AsmError>(r),
        is_word(reg_text(r)),
        forall|i: int| 0 <= i < reg_text(r).len() ==> #[trigger] reg_text(r)[i] != '(' && reg_text(r)[i] != ')',
{
    reveal(register_of);
    let t = reg_text(r);
    let d = dec(r as nat);
    lemma_dec_reads_back(r as nat);
    assert(t[0] == 'x');
    assert('x' as u32 == 120);
    assert forall|i: int| 0 <= i < t.len() implies !is_sep(#[trigger] t[i]) && t[i] != '(' && t[i] != ')'
        && (t[i] as u32) < 128 && ascii_lower(t[i]) == t[i] by {
        if i > 0 {
            assert(t[i] == d[i - 1]);
            assert(48 <= (d[i - 1] as u32) <= 57);
        }
    }
    lemma_trimmed_word(t);
    assert(t.map_values(|c: char| ascii_lower(c)) =~= t);
    assert(lower_text(t) == t);
    assert(t.drop_first() =~= d);
    assert(d[0] != '+') by {
        assert(48 <= (d[0] as u32) <= 57);
    }
}

/// The decimal text of `v` reads back as `v`.
proof fn lemma_immediate_reads_back(v: i32)
    ensures
        immediate_of(signed_dec(v as int)) == Ok::<i32, AsmError>(v),
        is_word(signed_dec(v as int)),
        forall|i: int| 0 <= i < signed_dec(v as int).len() ==> #[trigger] signed_dec(v as int)[i] != '('
            && signed_dec(v as int)[i] != ')',
{
    reveal(immediate_of);
    let t = signed_dec(v as int);
    if v < 0 {
        let d = dec((-v) as nat);
        lemma_dec_reads_back((-v) as nat);
        assert(t == seq!['-'] + d);
        assert forall|i: int| 0 <= i < t.len() implies !is_sep(#[trigger] t[i]) && t[i] != '(' && t[i] != ')' by {
            if i > 0 {
                assert(t[i] == d[i - 1]);
                assert(48 <= (d[i - 1] as u32) <= 57);
            }
        }
        assert(t.drop_first() =~= d);
        assert(t[0] == '-');
    } else {
        let d = dec(v as nat);
        lemma_dec_reads_back(v as nat);
        assert forall|i: int| 0 <= i < t.len() implies !is_sep(#[trigger] t[i]) && t[i] != '(' && t[i] != ')' by {
            assert(48 <= (d[i] as u32) <= 57);
        }
        assert(48 <= (t[0] as u32) <= 57);
        if v == 0 {
            assert(t.len() == 1);
        }
    }
    lemma_trimmed_word(t);
}

/// The `offset(register)` text reads back as the offset and the register.
proof fn lemma_offset_reads_back(offset: i32, r: u8)
    requires
        r <= 7,
    ensures
        offset_operand(based_text(offset, r)) == Ok::<(i32, u8), AsmError>((offset, r)),
        is_word(based_text(offset, r)),
{
    let sd = signed_dec(offset as int);
    let rt = reg_text(r);
    lemma_immediate_reads_back(offset);
    lemma_register_reads_back(r);
    let s = based_text(offset, r);
    assert(s == sd + seq!['('] + rt + seq![')']);
    let open = sd.len() as int;
    let close = (sd.len() + 1 + rt.len()) as int;
    assert forall|j: int| 0 <= j < open implies s[j] != '(' && s[j] != ')' by {
        assert(s[j] == sd[j]);
    }
    assert forall|j: int| open < j < close implies s[j] != ')' by {
        assert(s[j] == rt[j - open - 1]);
    }
    assert(s[open] == '(');
    assert(s[close] == ')');
    lemma_find_at(s, '(', open);
    lemma_find_at(s, ')', close);
    assert forall|i: int| 0 <= i < s.len() implies !is_sep(#[trigger] s[i]) by {
        if i < open {
            assert(s[i] == sd[i]);
        } else if open < i < close {
            assert(s[i] == rt[i - open - 1]);
        }
    }
    reveal(offset_and_register);
    assert(s.take(open) =~= sd);
    assert(s.subrange(open + 1, close) =~= rt);
    lemma_trimmed_word(rt);
}

/// The words of a mnemonic followed by operands.
proof fn lemma_words(m: Seq<char>, a: Seq<char>, b: Seq<char>, c: Seq<char>)
    requires
        is_word(m),
        is_word(a),
        is_word(b),
        is_word(c),
    ensures
        words(m) == seq![m],
        words(m + seq![' '] + a) == seq![m, a],
        words(m + seq![' '] + a + ", "@ + b) == seq![m, a, b],
        words(m + seq![' '] + a + ", "@ + b + ", "@ + c) == seq![m, a, b, c],
{
    reveal_strlit(", ");
    assert(is_sep(' '));
    assert(is_sep(','));
    let comma = ", "@;
    assert(forall|i: int| 0 <= i < comma.len() ==> is_sep(#[trigger] comma[i]));
    lemma_scan_one_word(m);
    let p1 = m + seq![' '] + a;
    lemma_scan_sep_word(m, seq![' '], a);
    assert(flushed(word_scan(m)) =~= seq![m]);
    let p2 = p1 + comma + b;
    lemma_scan_sep_word(p1, comma, b);
    assert(flushed(word_scan(p1)) =~= seq![m, a]);
    lemma_scan_sep_word(p2, comma, c);
    assert(flushed(word_scan(p2)) =~= seq![m, a, b]);
    assert(flushed(word_scan(p2 + comma + c)) =~= seq![m, a, b, c]);
}

/// The mnemonic of an instruction is a word that upper-casing leaves as it is.
proof fn lemma_mnemonic_word(inst: Instruction)
    ensures
        is_word(inst.mnemonic_text()),
        upper_text(inst.mnemonic_text()) == inst.mnemonic_text(),
        opcode(upper_text(inst.mnemonic_text())) == Some(opcode_of_instruction(inst)),
{
    let m = inst.mnemonic_text();
    lemma_mnemonic_reads_back(inst);
    assert forall|i: int| 0 <= i < m.len() implies !is_sep(#[trigger] m[i]) && (m[i] as u32) < 128
        && ascii_upper(m[i]) == m[i] by {
        assert(65 <= (m[i] as u32) <= 90);
    }
    assert(m.map_values(|c: char| ascii_upper(c)) =~= m);
}

#[verifier::spinoff_prover]
proof fn lemma_registers_read_back(inst: Instruction, current: nat)
    requires
        registers_in_range(inst),
        inst is Add || inst is Sub || inst is And || inst is Or || inst is Xor || inst is Slt || inst is Sltu || inst is Sll || inst is Srl || inst is Sra,
    ensures
        statement_of(inst.text(), Seq::empty(), current) == Ok::<Seq<Instruction>, AsmError>(
            seq![inst],
        ),
{
    let m = inst.mnemonic_text();
    let x = seq!['x'];
    lemma_mnemonic_word(inst);
    match inst {
        Instruction::Add { rd, rs1, rs2 } | Instruction::Sub { rd, rs1, rs2 }
        | Instruction::And { rd, rs1, rs2 } | Instruction::Or { rd, rs1, rs2 }
        | Instruction::Xor { rd, rs1, rs2 } | Instruction::Slt { rd, rs1, rs2 }
        | Instruction::Sltu { rd, rs1, rs2 } | Instruction::Sll { rd, rs1, rs2 }
        | Instruction::Srl { rd, rs1, rs2 } | Instruction::Sra { rd, rs1, rs2 } => {
            lemma_register_reads_back(rd);
            lemma_register_reads_back(rs1);
            lemma_register_reads_back(rs2);
            lemma_words(m, reg_text(rd), reg_text(rs1), reg_text(rs2));
        },
        _ => {},
    }
}

#[verifier::spinoff_prover]
proof fn lemma_register_immediate_read_back(inst: Instruction, current: nat)
    requires
        registers_in_range(inst),
        inst is Addi || inst is Andi || inst is Ori || inst is Xori || inst is Slti,
    ensures
        statement_of(inst.text(), Seq::empty(), current) == Ok::<Seq<Instruction>, AsmError>(
            seq![inst],
        ),
{
    let m = inst.mnemonic_text();
    let x = seq!['x'];
    lemma_mnemonic_word(inst);
    match inst {
        Instruction::Addi { rd, rs1, imm } | Instruction::Andi { rd, rs1, imm }
        | Instruction::Ori { rd, rs1, imm } | Instruction::Xori { rd, rs1, imm }
        | Instruction::Slti { rd, rs1, imm } => {
            lemma_register_reads_back(rd);
            lemma_register_reads_back(rs1);
            lemma_immediate_reads_back(imm);
            lemma_words(m, reg_text(rd), reg_text(rs1), signed_dec(imm as int));
        },
        _ => {},
    }
}

#[verifier::spinoff_prover]
proof fn lemma_loads_read_back(inst: Instruction, current: nat)
    requires
        registers_in_range(inst),
        inst is Lw || inst is Lb || inst is Jalr,
    ensures
        statement_of(inst.text(), Seq::empty(), current) == Ok::<Seq<Instruction>, AsmError>(
            seq![inst],
        ),
{
    let m = inst.mnemonic_text();
    let x = seq!['x'];
    lemma_mnemonic_word(inst);
    match inst {
        Instruction::Lw { rd, rs1, offset } | Instruction::Lb { rd, rs1, offset }
        | Instruction::Jalr { rd, rs1, offset } => {
            lemma_register_reads_back(rd);
            lemma_offset_reads_back(offset, rs1);
            lemma_words(m, reg_text(rd), based_text(offset, rs1), x);
        },
        _ => {},
    }
}

#[verifier::spinoff_prover]
proof fn lemma_stores_read_back(inst: Instruction, current: nat)
    requires
        registers_in_range(inst),
        inst is Sw || inst is Sb,
    ensures
        statement_of(inst.text(), Seq::empty(), current) == Ok::<Seq<Instruction>, AsmError>(
            seq![inst],
        ),
{
    let m = inst.mnemonic_text();
    let x = seq!['x'];
    lemma_mnemonic_word(inst);
    match inst {
        Instruction::Sw { rs2, rs1, offset } | Instruction::Sb { rs2, rs1, offset } => {
            lemma_register_reads_back(rs2);
            lemma_offset_reads_back(offset, rs1);
            lemma_words(m, reg_text(rs2), based_text(offset, rs1), x);
        },
        _ => {},
    }
}

#[verifier::spinoff_prover]
proof fn lemma_branches_read_back(inst: Instruction, current: nat)
    requires
        registers_in_range(inst),
        inst is Beq || inst is Bne || inst is Blt || inst is Bge,
    ensures
        statement_of(inst.text(), Seq::empty(), current) == Ok::<Seq<Instruction>, AsmError>(
            seq![inst],
        ),
{
    let m = inst.mnemonic_text();
    let x = seq!['x'];
    lemma_mnemonic_word(inst);
    match inst {
        Instruction::Beq { rs1, rs2, offset } | Instruction::Bne { rs1, rs2, offset }
        | Instruction::Blt { rs1, rs2, offset } | Instruction::Bge { rs1, rs2, offset } => {
            lemma_register_reads_back(rs1);
            lemma_register_reads_back(rs2);
            lemma_immediate_reads_back(offset);
            lemma_words(m, reg_text(rs1), reg_text(rs2), signed_dec(offset as int));
        },
        _ => {},
    }
}

#[verifier::spinoff_prover]
proof fn lemma_jump_read_back(inst: Instruction, current: nat)
    requires
        registers_in_range(inst),
        inst is J,
    ensures
        statement_of(inst.text(), Seq::empty(), current) == Ok::<Seq<Instruction>, AsmError>(
            seq![inst],
        ),
{
    let m = inst.mnemonic_text();
    let x = seq!['x'];
    lemma_mnemonic_word(inst);
    match inst {
        Instruction::J { offset } => {
            lemma_immediate_reads_back(offset);
            lemma_words(m, signed_dec(offset as int), x, x);
        },
        _ => {},
    }
}

#[verifier::spinoff_prover]
proof fn lemma_jump_and_link_read_back(inst: Instruction, current: nat)
    requires
        registers_in_range(inst),
        inst is Jal,
    ensures
        statement_of(inst.text(), Seq::empty(), current) == Ok::<Seq<Instruction>, AsmError>(
            seq![inst],
        ),
{
    let m = inst.mnemonic_text();
    let x = seq!['x'];
    lemma_mnemonic_word(inst);
    match inst {
        Instruction::Jal { rd, offset } => {
            lemma_register_reads_back(rd);
            lemma_immediate_reads_back(offset);
            lemma_words(m, reg_text(rd), signed_dec(offset as int), x);
        },
        _ => {},
    }
}

#[verifier::spinoff_prover]
proof fn lemma_upper_read_back(inst: Instruction, current: nat)
    requires
        registers_in_range(inst),
        inst is Lui || inst is Auipc,
    ensures
        statement_of(inst.text(), Seq::empty(), current) == Ok::<Seq<Instruction>, AsmError>(
            seq![inst],
        ),
{
    let m = inst.mnemonic_text();
    let x = seq!['x'];
    lemma_mnemonic_word(inst);
    match inst {
        Instruction::Lui { rd, imm } | Instruction::Auipc { rd, imm } => {
            lemma_register_reads_back(rd);
            lemma_immediate_reads_back(imm);
            lemma_words(m, reg_text(rd), signed_dec(imm as int), x);
        },
        _ => {},
    }
}

#[verifier::spinoff_prover]
proof fn lemma_plain_read_back(inst: Instruction, current: nat)
    requires
        registers_in_range(inst),
        inst is Nop || inst is Halt,
    ensures
        statement_of(inst.text(), Seq::empty(), current) == Ok::<Seq<Instruction>, AsmError>(
            seq![inst],
        ),
{
    let m = inst.mnemonic_text();
    let x = seq!['x'];
    lemma_mnemonic_word(inst);
    match inst {
        Instruction::Nop | Instruction::Halt => {
            lemma_words(m, x, x, x);
        },
        _ => {},
    }
}

/// The text of an instruction whose registers are `x0` to `x7` assembles back to that
/// instruction, alone, wherever it stands and with no labels.
pub proof fn law_text_assembles_back(inst: Instruction, current: nat)
    requires
        registers_in_range(inst),
    ensures
        statement_of(inst.text(), Seq::empty(), current) == Ok::<Seq<Instruction>, AsmError>(
            seq![inst],
        ),
{
    if inst is Add || inst is Sub || inst is And || inst is Or || inst is Xor || inst is Slt || inst is Sltu || inst is Sll || inst is Srl || inst is Sra {
        lemma_registers_read_back(inst, current);
    } else if inst is Addi || inst is Andi || inst is Ori || inst is Xori || inst is Slti {
        lemma_register_immediate_read_back(inst, current);
    } else if inst is Lw || inst is Lb || inst is Jalr {
        lemma_loads_read_back(inst, current);
    } else if inst is Sw || inst is Sb {
        lemma_stores_read_back(inst, current);
    } else if inst is Beq || inst is Bne || inst is Blt || inst is Bge {
        lemma_branches_read_back(inst, current);
    } else if inst is J {
        lemma_jump_read_back(inst, current);
    } else if inst is Jal {
        lemma_jump_and_link_read_back(inst, current);
    } else if inst is Lui || inst is Auipc {
        lemma_upper_read_back(inst, current);
    } else if inst is Nop || inst is Halt {
        lemma_plain_read_back(inst, current);
    }
}

/// Label references ignore case: two references that differ only in the case of ASCII
/// letters (around whitespace aside) resolve alike, and when one names a recorded label
/// both resolve to it.
pub proof fn law_label_reference_case(labels: Seq<(Seq<char>, usize)>, s: Seq<char>, t: Seq<char>, current: nat)
    requires
        is_ascii_text(trimmed(s)),
        is_ascii_text(trimmed(t)),
        trimmed(s).map_values(|c: char| ascii_upper(c)) == trimmed(t).map_values(|c: char| ascii_upper(c)),
        lookup(labels, upper_text(trimmed(s))) is Some,
    ensures
        target_of(s, labels, current) is Ok,
        target_of(s, labels, current) == target_of(t, labels, current),
{
}

/// A label is recorded upper-cased: the label written `name:` on line `k` (ASCII) is
/// recorded as `name` in capitals, with the number of instructions before that line.
pub proof fn law_label_recorded_upper_case(ls: Seq<Seq<char>>, k: int, i: int)
    requires
        0 <= k < ls.len(),
        find(cleaned(ls[k]), ':') == Some(i),
        is_ascii_text(trimmed(cleaned(ls[k]).take(i))),
    ensures
        label_scan(ls.take(k + 1)).0 == label_scan(ls.take(k)).0.push(
            (
                trimmed(cleaned(ls[k]).take(i)).map_values(|c: char| ascii_upper(c)),
                label_scan(ls.take(k)).1 as usize,
            ),
        ),
{
    assert(ls.take(k + 1).drop_last() =~= ls.take(k));
    assert(ls.take(k + 1).last() == ls[k]);
}

/// Whether an operand's parentheses, where it has both, come in order: `(` before `)`.
pub open spec fn parens_in_order(s: Seq<char>) -> bool {
    match find(s, '(') {
        Some(open) => match find(s, ')') {
            Some(close) => open < close,
            None => true,
        },
        None => true,
    }
}

/// Reads a register operand: `x0` to `x7` (or the bare number), any case.
pub fn parse_register(s: &str) -> (r: Result<u8, AssemblyError>)
    ensures
        viewed(r) == register_of(s@),
{
    let text = chars_of(s);
    register_operand(text.as_slice())
}

/// Reads an immediate operand: decimal, or hexadecimal after `0x`, `0X` or `$`.
pub fn parse_immediate(s: &str) -> (r: Result<i32, AssemblyError>)
    ensures
        viewed(r) == immediate_of(s@),
{
    let text = chars_of(s);
    immediate_operand(text.as_slice())
}

/// Reads an `offset(register)` operand.
pub fn parse_offset_register(s: &str) -> (r: Result<(i32, u8), AssemblyError>)
    requires
        parens_in_order(s@),
    ensures
        viewed(r) == offset_operand(s@),
{
    let text = chars_of(s);
    match offset_register_operand(text.as_slice()) {
        Some(res) => res,
        None => {
            proof {
                reveal(offset_and_register);
                reveal(immediate_of);
                reveal(register_of);
                assert(offset_operand(s@) matches Err(AsmError::Stops));
                assert(false);
            }
            Err(AssemblyError::InvalidOperand(String::new()))
        },
    }
}

} // verus!
