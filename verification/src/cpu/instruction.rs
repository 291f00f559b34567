//! The instruction set: a subset of RV32I plus `NOP` and `HALT`.
use vstd::prelude::*;

use crate::text::{dec, push_dec, push_signed, push_str, signed_dec, string_from_chars};

verus! {

/// Register identifier.
pub type Register = u8;

/// Immediate value.
pub type Immediate = i32;

/// Memory address.
pub type Address = u32;

/// One instruction, by format.
#[derive(Debug, Clone, Copy, PartialEq, Eq, Structural)]
pub enum Instruction {
    /// `ADD rd, rs1, rs2`: rd = rs1 + rs2
    Add { rd: Register, rs1: Register, rs2: Register },
    /// `SUB rd, rs1, rs2`: rd = rs1 - rs2
    Sub { rd: Register, rs1: Register, rs2: Register },
    /// `AND rd, rs1, rs2`: rd = rs1 & rs2
    And { rd: Register, rs1: Register, rs2: Register },
    /// `OR rd, rs1, rs2`: rd = rs1 | rs2
    Or { rd: Register, rs1: Register, rs2: Register },
    /// `XOR rd, rs1, rs2`: rd = rs1 ^ rs2
    Xor { rd: Register, rs1: Register, rs2: Register },
    /// `SLT rd, rs1, rs2`: rd = (rs1 < rs2) ? 1 : 0, signed
    Slt { rd: Register, rs1: Register, rs2: Register },
    /// `SLTU rd, rs1, rs2`: rd = (rs1 < rs2) ? 1 : 0, unsigned
    Sltu { rd: Register, rs1: Register, rs2: Register },
    /// `SLL rd, rs1, rs2`: rd = rs1 << (rs2 & 31)
    Sll { rd: Register, rs1: Register, rs2: Register },
    /// `SRL rd, rs1, rs2`: rd = rs1 >> (rs2 & 31), logical
    Srl { rd: Register, rs1: Register, rs2: Register },
    /// `SRA rd, rs1, rs2`: rd = rs1 >> (rs2 & 31), arithmetic
    Sra { rd: Register, rs1: Register, rs2: Register },
    /// `ADDI rd, rs1, imm`: rd = rs1 + imm
    Addi { rd: Register, rs1: Register, imm: Immediate },
    /// `ANDI rd, rs1, imm`: rd = rs1 & imm
    Andi { rd: Register, rs1: Register, imm: Immediate },
    /// `ORI rd, rs1, imm`: rd = rs1 | imm
    Ori { rd: Register, rs1: Register, imm: Immediate },
    /// `XORI rd, rs1, imm`: rd = rs1 ^ imm
    Xori { rd: Register, rs1: Register, imm: Immediate },
    /// `SLTI rd, rs1, imm`: rd = (rs1 < imm) ? 1 : 0, signed
    Slti { rd: Register, rs1: Register, imm: Immediate },
    /// `LW rd, offset(rs1)`: rd = the word at rs1 + offset
    Lw { rd: Register, rs1: Register, offset: Immediate },
    /// `LB rd, offset(rs1)`: rd = the byte at rs1 + offset, sign-extended
    Lb { rd: Register, rs1: Register, offset: Immediate },
    /// `SW rs2, offset(rs1)`: the word at rs1 + offset = rs2
    Sw { rs2: Register, rs1: Register, offset: Immediate },
    /// `SB rs2, offset(rs1)`: the byte at rs1 + offset = low byte of rs2
    Sb { rs2: Register, rs1: Register, offset: Immediate },
    /// `BEQ rs1, rs2, offset`: if rs1 == rs2 then PC += offset
    Beq { rs1: Register, rs2: Register, offset: Immediate },
    /// `BNE rs1, rs2, offset`: if rs1 != rs2 then PC += offset
    Bne { rs1: Register, rs2: Register, offset: Immediate },
    /// `BLT rs1, rs2, offset`: if rs1 < rs2 (signed) then PC += offset
    Blt { rs1: Register, rs2: Register, offset: Immediate },
    /// `BGE rs1, rs2, offset`: if rs1 >= rs2 (signed) then PC += offset
    Bge { rs1: Register, rs2: Register, offset: Immediate },
    /// `J offset`: PC += offset
    J { offset: Immediate },
    /// `JAL rd, offset`: rd = PC + 4; PC += offset
    Jal { rd: Register, offset: Immediate },
    /// `JALR rd, offset(rs1)`: rd = PC + 4; PC = rs1 + offset
    Jalr { rd: Register, rs1: Register, offset: Immediate },
    /// `LUI rd, imm`: rd = imm << 12
    Lui { rd: Register, imm: Immediate },
    /// `AUIPC rd, imm`: rd = PC + (imm << 12)
    Auipc { rd: Register, imm: Immediate },
    /// No operation.
    Nop,
    /// Stops execution.
    Halt,
}

/// `x` followed by the register number.
pub open spec fn reg_text(r: u8) -> Seq<char> {
    seq!['x'] + dec(r as nat)
}

/// `{offset}(x{base})`, the operand form of loads, stores and `JALR`.
pub open spec fn based_text(offset: i32, base: u8) -> Seq<char> {
    signed_dec(offset as int) + seq!['('] + reg_text(base) + seq![')']
}

impl Instruction {
    pub open spec fn spec_is_control_flow(self) -> bool {
        ||| self is Beq
        ||| self is Bne
        ||| self is Blt
        ||| self is Bge
        ||| self is J
        ||| self is Jal
        ||| self is Jalr
    }

    pub open spec fn spec_is_memory_access(self) -> bool {
        ||| self is Lw
        ||| self is Lb
        ||| self is Sw
        ||| self is Sb
    }

    /// The instruction's name, in capitals.
    pub open spec fn mnemonic_text(self) -> Seq<char> {
        match self {
            Instruction::Add { .. } => "ADD"@,
            Instruction::Sub { .. } => "SUB"@,
            Instruction::And { .. } => "AND"@,
            Instruction::Or { .. } => "OR"@,
            Instruction::Xor { .. } => "XOR"@,
            Instruction::Slt { .. } => "SLT"@,
            Instruction::Sltu { .. } => "SLTU"@,
            Instruction::Sll { .. } => "SLL"@,
            Instruction::Srl { .. } => "SRL"@,
            Instruction::Sra { .. } => "SRA"@,
            Instruction::Addi { .. } => "ADDI"@,
            Instruction::Andi { .. } => "ANDI"@,
            Instruction::Ori { .. } => "ORI"@,
            Instruction::Xori { .. } => "XORI"@,
            Instruction::Slti { .. } => "SLTI"@,
            Instruction::Lw { .. } => "LW"@,
            Instruction::Lb { .. } => "LB"@,
            Instruction::Sw { .. } => "SW"@,
            Instruction::Sb { .. } => "SB"@,
            Instruction::Beq { .. } => "BEQ"@,
            Instruction::Bne { .. } => "BNE"@,
            Instruction::Blt { .. } => "BLT"@,
            Instruction::Bge { .. } => "BGE"@,
            Instruction::J { .. } => "J"@,
            Instruction::Jal { .. } => "JAL"@,
            Instruction::Jalr { .. } => "JALR"@,
            Instruction::Lui { .. } => "LUI"@,
            Instruction::Auipc { .. } => "AUIPC"@,
            Instruction::Nop => "NOP"@,
            Instruction::Halt => "HALT"@,
        }
    }

    /// The assembly text of the instruction: the mnemonic, then its operands separated by
    /// `", "`; registers as `x{n}`, immediates in decimal, memory operands as `offset(x{n})`.
    pub open spec fn text(self) -> Seq<char> {
        let m = self.mnemonic_text();
        let sep = ", "@;
        match self {
            Instruction::Add { rd, rs1, rs2 }
            | Instruction::Sub { rd, rs1, rs2 }
            | Instruction::And { rd, rs1, rs2 }
            | Instruction::Or { rd, rs1, rs2 }
            | Instruction::Xor { rd, rs1, rs2 }
            | Instruction::Slt { rd, rs1, rs2 }
            | Instruction::Sltu { rd, rs1, rs2 }
            | Instruction::Sll { rd, rs1, rs2 }
            | Instruction::Srl { rd, rs1, rs2 }
            | Instruction::Sra { rd, rs1, rs2 } => m + seq![' '] + reg_text(rd) + sep + reg_text(
                rs1,
            ) + sep + reg_text(rs2),
            Instruction::Addi { rd, rs1, imm }
            | Instruction::Andi { rd, rs1, imm }
            | Instruction::Ori { rd, rs1, imm }
            | Instruction::Xori { rd, rs1, imm }
            | Instruction::Slti { rd, rs1, imm } => m + seq![' '] + reg_text(rd) + sep + reg_text(
                rs1,
            ) + sep + signed_dec(imm as int),
            Instruction::Lw { rd, rs1, offset } | Instruction::Lb { rd, rs1, offset } => m + seq![
                ' ',
            ] + reg_text(rd) + sep + based_text(offset, rs1),
            Instruction::Sw { rs2, rs1, offset } | Instruction::Sb { rs2, rs1, offset } => m
                + seq![' '] + reg_text(rs2) + sep + based_text(offset, rs1),
            Instruction::Beq { rs1, rs2, offset }
            | Instruction::Bne { rs1, rs2, offset }
            | Instruction::Blt { rs1, rs2, offset }
            | Instruction::Bge { rs1, rs2, offset } => m + seq![' '] + reg_text(rs1) + sep
                + reg_text(rs2) + sep + signed_dec(offset as int),
            Instruction::J { offset } => m + seq![' '] + signed_dec(offset as int),
            Instruction::Jal { rd, offset } => m + seq![' '] + reg_text(rd) + sep + signed_dec(
                offset as int,
            ),
            Instruction::Jalr { rd, rs1, offset } => m + seq![' '] + reg_text(rd) + sep
                + based_text(offset, rs1),
            Instruction::Lui { rd, imm } | Instruction::Auipc { rd, imm } => m + seq![' ']
                + reg_text(rd) + sep + signed_dec(imm as int),
            Instruction::Nop => m,
            Instruction::Halt => m,
        }
    }

    /// True for branches and jumps, the instructions that set the program counter.
    pub fn is_control_flow(&self) -> (b: bool)
        ensures
            b == self.spec_is_control_flow(),
    {
        match self {
            Instruction::Beq { .. }
            | Instruction::Bne { .. }
            | Instruction::Blt { .. }
            | Instruction::Bge { .. }
            | Instruction::J { .. }
            | Instruction::Jal { .. }
            | Instruction::Jalr { .. } => true,
            _ => false,
        }
    }

    /// True for loads and stores.
    pub fn is_memory_access(&self) -> (b: bool)
        ensures
            b == self.spec_is_memory_access(),
    {
        match self {
            Instruction::Lw { .. }
            | Instruction::Lb { .. }
            | Instruction::Sw { .. }
            | Instruction::Sb { .. } => true,
            _ => false,
        }
    }

    /// The instruction's name, in capitals.
    pub fn mnemonic(&self) -> (m: &'static str)
        ensures
            m@ == self.mnemonic_text(),
    {
        match self {
            Instruction::Add { .. } => "ADD",
            Instruction::Sub { .. } => "SUB",
            Instruction::And { .. } => "AND",
            Instruction::Or { .. } => "OR",
            Instruction::Xor { .. } => "XOR",
            Instruction::Slt { .. } => "SLT",
            Instruction::Sltu { .. } => "SLTU",
            Instruction::Sll { .. } => "SLL",
            Instruction::Srl { .. } => "SRL",
            Instruction::Sra { .. } => "SRA",
            Instruction::Addi { .. } => "ADDI",
            Instruction::Andi { .. } => "ANDI",
            Instruction::Ori { .. } => "ORI",
            Instruction::Xori { .. } => "XORI",
            Instruction::Slti { .. } => "SLTI",
            Instruction::Lw { .. } => "LW",
            Instruction::Lb { .. } => "LB",
            Instruction::Sw { .. } => "SW",
            Instruction::Sb { .. } => "SB",
            Instruction::Beq { .. } => "BEQ",
            Instruction::Bne { .. } => "BNE",
            Instruction::Blt { .. } => "BLT",
            Instruction::Bge { .. } => "BGE",
            Instruction::J { .. } => "J",
            Instruction::Jal { .. } => "JAL",
            Instruction::Jalr { .. } => "JALR",
            Instruction::Lui { .. } => "LUI",
            Instruction::Auipc { .. } => "AUIPC",
            Instruction::Nop => "NOP",
            Instruction::Halt => "HALT",
        }
    }

    /// Appends the assembly text of the instruction.
    pub fn push_text(&self, out: &mut Vec<char>)
        ensures
            final(out)@ == old(out)@ + self.text(),
    {
        let ghost start = out@;
        let m = self.mnemonic();
        push_str(out, m);
        match *self {
            Instruction::Add { rd, rs1, rs2 }
            | Instruction::Sub { rd, rs1, rs2 }
            | Instruction::And { rd, rs1, rs2 }
            | Instruction::Or { rd, rs1, rs2 }
            | Instruction::Xor { rd, rs1, rs2 }
            | Instruction::Slt { rd, rs1, rs2 }
            | Instruction::Sltu { rd, rs1, rs2 }
            | Instruction::Sll { rd, rs1, rs2 }
            | Instruction::Srl { rd, rs1, rs2 }
            | Instruction::Sra { rd, rs1, rs2 } => {
                out.push(' ');
                push_reg(out, rd);
                push_str(out, ", ");
                push_reg(out, rs1);
                push_str(out, ", ");
                push_reg(out, rs2);
            },
            Instruction::Addi { rd, rs1, imm }
            | Instruction::Andi { rd, rs1, imm }
            | Instruction::Ori { rd, rs1, imm }
            | Instruction::Xori { rd, rs1, imm }
            | Instruction::Slti { rd, rs1, imm } => {
                out.push(' ');
                push_reg(out, rd);
                push_str(out, ", ");
                push_reg(out, rs1);
                push_str(out, ", ");
                push_signed(out, imm as i64);
            },
            Instruction::Lw { rd, rs1, offset } | Instruction::Lb { rd, rs1, offset } => {
                out.push(' ');
                push_reg(out, rd);
                push_str(out, ", ");
                push_based(out, offset, rs1);
            },
            Instruction::Sw { rs2, rs1, offset } | Instruction::Sb { rs2, rs1, offset } => {
                out.push(' ');
                push_reg(out, rs2);
                push_str(out, ", ");
                push_based(out, offset, rs1);
            },
            Instruction::Beq { rs1, rs2, offset }
            | Instruction::Bne { rs1, rs2, offset }
            | Instruction::Blt { rs1, rs2, offset }
            | Instruction::Bge { rs1, rs2, offset } => {
                out.push(' ');
                push_reg(out, rs1);
                push_str(out, ", ");
                push_reg(out, rs2);
                push_str(out, ", ");
                push_signed(out, offset as i64);
            },
            Instruction::J { offset } => {
                out.push(' ');
                push_signed(out, offset as i64);
            },
            Instruction::Jal { rd, offset } => {
                out.push(' ');
                push_reg(out, rd);
                push_str(out, ", ");
                push_signed(out, offset as i64);
            },
            Instruction::Jalr { rd, rs1, offset } => {
                out.push(' ');
                push_reg(out, rd);
                push_str(out, ", ");
                push_based(out, offset, rs1);
            },
            Instruction::Lui { rd, imm } | Instruction::Auipc { rd, imm } => {
                out.push(' ');
                push_reg(out, rd);
                push_str(out, ", ");
                push_signed(out, imm as i64);
            },
            Instruction::Nop => {},
            Instruction::Halt => {},
        }
        proof {
            assert(out@ =~= start + self.text());
        }
    }

    /// The assembly text of the instruction, as `Display` renders it.
    pub fn to_string(&self) -> (s: String)
        ensures
            s@ == self.text(),
    {
        let mut out: Vec<char> = Vec::new();
        self.push_text(&mut out);
        proof {
            assert(out@ =~= self.text());
        }
        string_from_chars(&out)
    }
}

/// The text of an instruction starts with its mnemonic, followed by a space or nothing.
pub proof fn law_text_starts_with_mnemonic(inst: Instruction)
    ensures
        inst.text().take(inst.mnemonic_text().len() as int) == inst.mnemonic_text(),
        inst.text().len() == inst.mnemonic_text().len() || inst.text()[inst.mnemonic_text().len() as int] == ' ',
{
    assert(inst.text().take(inst.mnemonic_text().len() as int) =~= inst.mnemonic_text());
}

fn push_reg(out: &mut Vec<char>, r: u8)
    ensures
        final(out)@ == old(out)@ + reg_text(r),
{
    out.push('x');
    push_dec(out, r as u64);
    proof {
        assert(final(out)@ =~= old(out)@ + reg_text(r));
    }
}

fn push_based(out: &mut Vec<char>, offset: i32, base: u8)
    ensures
        final(out)@ == old(out)@ + based_text(offset, base),
{
    push_signed(out, offset as i64);
    out.push('(');
    push_reg(out, base);
    out.push(')');
    proof {
        assert(final(out)@ =~= old(out)@ + based_text(offset, base));
    }
}

} // verus!
