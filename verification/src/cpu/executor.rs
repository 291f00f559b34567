//! Execution of one instruction.
use vstd::prelude::*;

use super::instruction::{Immediate, Instruction, Register};
use super::state::{
    byte_of, signed, to_signed, word_of, CpuError, CpuModel, CpuState, MEMORY_SIZE, NUM_REGISTERS,
};

verus! {

/// `n` reduced into `0..2^32`, for `n` within one wrap of that range.
pub open spec fn wrap32(n: int) -> u32 {
    if n < 0 {
        (n + 0x1_0000_0000) as u32
    } else if n >= 0x1_0000_0000 {
        (n - 0x1_0000_0000) as u32
    } else {
        n as u32
    }
}

/// The 32 bits of `x`, read as unsigned.
pub open spec fn bits_of(x: i32) -> u32 {
    wrap32(x as int)
}

/// `base + offset` modulo 2^32: the effective address of a memory access or jump.
pub open spec fn offset_addr(base: u32, offset: i32) -> u32 {
    wrap32(base + offset)
}

/// A byte sign-extended to 32 bits.
pub open spec fn sign_extend(b: u8) -> u32 {
    if b >= 0x80 {
        (b + 0xFFFF_FF00) as u32
    } else {
        b as u32
    }
}

/// The low byte of a word.
pub open spec fn low_byte(v: u32) -> u8 {
    (v % 256) as u8
}

/// The arithmetic and logic operations.
#[derive(Debug, Clone, Copy, PartialEq, Eq, Structural)]
pub enum AluOp {
    Add,
    Sub,
    And,
    Or,
    Xor,
    Slt,
    Sltu,
    Sll,
    Srl,
    Sra,
}

/// The result of an operation on two register values.
#[verifier::opaque]
pub open spec fn alu_result(op: AluOp, a: u32, b: u32) -> u32 {
    match op {
        AluOp::Add => wrap32(a + b),
        AluOp::Sub => wrap32(a - b),
        AluOp::And => a & b,
        AluOp::Or => a | b,
        AluOp::Xor => a ^ b,
        AluOp::Slt => if signed(a) < signed(b) {
            1
        } else {
            0
        },
        AluOp::Sltu => if a < b {
            1
        } else {
            0
        },
        AluOp::Sll => a << (b & 31u32),
        AluOp::Srl => a >> (b & 31u32),
        AluOp::Sra => ((a as i32) >> (b & 31u32)) as u32,
    }
}

/// `imm << 12`, the value `LUI` loads: the immediate's low 20 bits in the top of the word.
pub open spec fn upper_bits(imm: i32) -> u32 {
    bits_of(imm) << 12u32
}

/// The conditional branches.
#[derive(Debug, Clone, Copy, PartialEq, Eq, Structural)]
pub enum BranchOp {
    Eq,
    Ne,
    Lt,
    Ge,
}

/// Whether a branch is taken.
pub open spec fn branch_taken(op: BranchOp, a: u32, b: u32) -> bool {
    match op {
        BranchOp::Eq => a == b,
        BranchOp::Ne => a != b,
        BranchOp::Lt => signed(a) < signed(b),
        BranchOp::Ge => signed(a) >= signed(b),
    }
}

/// What one step leaves: `Ok` or the first error, and the state at that point. An error
/// can come after earlier parts of the step have taken effect.
pub type Outcome = (Result<(), CpuError>, CpuModel);

/// The program counter moves on: to `next` when given, else by one instruction.
pub open spec fn advance(m: CpuModel, next: Option<u32>) -> Outcome {
    let r = match next {
        Some(t) => m.set_pc(t),
        None => m.increment_pc(),
    };
    match r {
        Ok(m2) => (Ok(()), m2),
        Err(e) => (Err(e), m),
    }
}

/// Writes `rd`, then moves the program counter on.
pub open spec fn write_then_advance(m: CpuModel, rd: Register, v: u32, next: Option<u32>) -> Outcome {
    match m.write_register(rd, v) {
        Ok(m2) => advance(m2, next),
        Err(e) => (Err(e), m),
    }
}

/// The rest of an arithmetic step once both operands are known: write the result, set
/// zero and negative, set carry and overflow after `ADD`/`ADDI`/`SUB`, advance.
pub open spec fn alu_finish(m: CpuModel, op: AluOp, rd: Register, a: u32, b: u32) -> Outcome {
    let result = alu_result(op, a, b);
    match m.write_register(rd, result) {
        Err(e) => (Err(e), m),
        Ok(m2) => {
            let m3 = m2.update_flags(result);
            let m4 = match op {
                AluOp::Add => m3.set_add_flags(a, b, result),
                AluOp::Sub => m3.set_sub_flags(a, b, result),
                _ => m3,
            };
            advance(m4, None)
        },
    }
}

/// Register-register arithmetic.
pub open spec fn alu_reg_spec(m: CpuModel, op: AluOp, rd: Register, rs1: Register, rs2: Register) -> Outcome {
    match m.read_register(rs1) {
        Err(e) => (Err(e), m),
        Ok(a) => match m.read_register(rs2) {
            Err(e) => (Err(e), m),
            Ok(b) => alu_finish(m, op, rd, a, b),
        },
    }
}

/// Register-immediate arithmetic: the immediate's bits are the second operand.
pub open spec fn alu_imm_spec(m: CpuModel, op: AluOp, rd: Register, rs1: Register, imm: Immediate) -> Outcome {
    match m.read_register(rs1) {
        Err(e) => (Err(e), m),
        Ok(a) => alu_finish(m, op, rd, a, bits_of(imm)),
    }
}

/// `LW`: a word from `rs1 + offset` into `rd`.
pub open spec fn load_word_spec(m: CpuModel, rd: Register, rs1: Register, offset: Immediate) -> Outcome {
    match m.read_register(rs1) {
        Err(e) => (Err(e), m),
        Ok(base) => match m.read_word(offset_addr(base, offset)) {
            Err(e) => (Err(e), m),
            Ok(v) => write_then_advance(m, rd, v, None),
        },
    }
}

/// `LB`: a byte from `rs1 + offset`, sign-extended, into `rd`.
pub open spec fn load_byte_spec(m: CpuModel, rd: Register, rs1: Register, offset: Immediate) -> Outcome {
    match m.read_register(rs1) {
        Err(e) => (Err(e), m),
        Ok(base) => match m.read_byte(offset_addr(base, offset)) {
            Err(e) => (Err(e), m),
            Ok(b) => write_then_advance(m, rd, sign_extend(b), None),
        },
    }
}

/// `SW`: `rs2` as a word at `rs1 + offset`.
pub open spec fn store_word_spec(m: CpuModel, rs2: Register, rs1: Register, offset: Immediate) -> Outcome {
    match m.read_register(rs1) {
        Err(e) => (Err(e), m),
        Ok(base) => match m.read_register(rs2) {
            Err(e) => (Err(e), m),
            Ok(v) => match m.write_word(offset_addr(base, offset), v) {
                Err(e) => (Err(e), m),
                Ok(m2) => advance(m2, None),
            },
        },
    }
}

/// `SB`: the low byte of `rs2` at `rs1 + offset`.
pub open spec fn store_byte_spec(m: CpuModel, rs2: Register, rs1: Register, offset: Immediate) -> Outcome {
    match m.read_register(rs1) {
        Err(e) => (Err(e), m),
        Ok(base) => match m.read_register(rs2) {
            Err(e) => (Err(e), m),
            Ok(v) => match m.write_byte(offset_addr(base, offset), low_byte(v)) {
                Err(e) => (Err(e), m),
                Ok(m2) => advance(m2, None),
            },
        },
    }
}

/// A conditional branch: to `pc + offset` when taken, else to the next instruction.
pub open spec fn branch_spec(m: CpuModel, op: BranchOp, rs1: Register, rs2: Register, offset: Immediate) -> Outcome {
    match m.read_register(rs1) {
        Err(e) => (Err(e), m),
        Ok(a) => match m.read_register(rs2) {
            Err(e) => (Err(e), m),
            Ok(b) => advance(
                m,
                if branch_taken(op, a, b) {
                    Some(offset_addr(m.pc, offset))
                } else {
                    None
                },
            ),
        },
    }
}

/// `JALR`: `rd = pc + 4`, then to `rs1 + offset` (with `rs1` read before `rd` is written).
pub open spec fn jalr_spec(m: CpuModel, rd: Register, rs1: Register, offset: Immediate) -> Outcome {
    match m.read_register(rs1) {
        Err(e) => (Err(e), m),
        Ok(base) => write_then_advance(m, rd, (m.pc + 4) as u32, Some(offset_addr(base, offset))),
    }
}

/// The effect of an instruction other than `HALT` on a running CPU.
pub open spec fn step_spec(m: CpuModel, inst: Instruction) -> Outcome {
    match inst {
        Instruction::Add { rd, rs1, rs2 } => alu_reg_spec(m, AluOp::Add, rd, rs1, rs2),
        Instruction::Sub { rd, rs1, rs2 } => alu_reg_spec(m, AluOp::Sub, rd, rs1, rs2),
        Instruction::And { rd, rs1, rs2 } => alu_reg_spec(m, AluOp::And, rd, rs1, rs2),
        Instruction::Or { rd, rs1, rs2 } => alu_reg_spec(m, AluOp::Or, rd, rs1, rs2),
        Instruction::Xor { rd, rs1, rs2 } => alu_reg_spec(m, AluOp::Xor, rd, rs1, rs2),
        Instruction::Slt { rd, rs1, rs2 } => alu_reg_spec(m, AluOp::Slt, rd, rs1, rs2),
        Instruction::Sltu { rd, rs1, rs2 } => alu_reg_spec(m, AluOp::Sltu, rd, rs1, rs2),
        Instruction::Sll { rd, rs1, rs2 } => alu_reg_spec(m, AluOp::Sll, rd, rs1, rs2),
        Instruction::Srl { rd, rs1, rs2 } => alu_reg_spec(m, AluOp::Srl, rd, rs1, rs2),
        Instruction::Sra { rd, rs1, rs2 } => alu_reg_spec(m, AluOp::Sra, rd, rs1, rs2),
        Instruction::Addi { rd, rs1, imm } => alu_imm_spec(m, AluOp::Add, rd, rs1, imm),
        Instruction::Andi { rd, rs1, imm } => alu_imm_spec(m, AluOp::And, rd, rs1, imm),
        Instruction::Ori { rd, rs1, imm } => alu_imm_spec(m, AluOp::Or, rd, rs1, imm),
        Instruction::Xori { rd, rs1, imm } => alu_imm_spec(m, AluOp::Xor, rd, rs1, imm),
        Instruction::Slti { rd, rs1, imm } => alu_imm_spec(m, AluOp::Slt, rd, rs1, imm),
        Instruction::Lw { rd, rs1, offset } => load_word_spec(m, rd, rs1, offset),
        Instruction::Lb { rd, rs1, offset } => load_byte_spec(m, rd, rs1, offset),
        Instruction::Sw { rs2, rs1, offset } => store_word_spec(m, rs2, rs1, offset),
        Instruction::Sb { rs2, rs1, offset } => store_byte_spec(m, rs2, rs1, offset),
        Instruction::Beq { rs1, rs2, offset } => branch_spec(m, BranchOp::Eq, rs1, rs2, offset),
        Instruction::Bne { rs1, rs2, offset } => branch_spec(m, BranchOp::Ne, rs1, rs2, offset),
        Instruction::Blt { rs1, rs2, offset } => branch_spec(m, BranchOp::Lt, rs1, rs2, offset),
        Instruction::Bge { rs1, rs2, offset } => branch_spec(m, BranchOp::Ge, rs1, rs2, offset),
        Instruction::J { offset } => advance(m, Some(offset_addr(m.pc, offset))),
        Instruction::Jal { rd, offset } => write_then_advance(
            m,
            rd,
            (m.pc + 4) as u32,
            Some(offset_addr(m.pc, offset)),
        ),
        Instruction::Jalr { rd, rs1, offset } => jalr_spec(m, rd, rs1, offset),
        Instruction::Lui { rd, imm } => write_then_advance(m, rd, upper_bits(imm), None),
        Instruction::Auipc { rd, imm } => write_then_advance(
            m,
            rd,
            wrap32(m.pc + upper_bits(imm)),
            None,
        ),
        Instruction::Nop => advance(m, None),
        Instruction::Halt => (Ok(()), CpuModel { halted: true, ..m }),
    }
}

/// What `execute` returns and leaves. A halted CPU refuses with `Halted` and is left as it
/// was. Otherwise the instruction is counted; `HALT` halts and gives `Ok(false)` without a
/// cycle; any other instruction takes effect and, when it succeeds, costs one cycle and
/// gives `Ok(true)`; when it fails, the error comes back with the state as the failure
/// left it.
pub open spec fn execute_spec(m: CpuModel, inst: Instruction) -> (Result<bool, CpuError>, CpuModel) {
    if m.halted {
        (Err(CpuError::Halted), m)
    } else {
        let m1 = m.count_instruction();
        let (r, m2) = step_spec(m1, inst);
        match r {
            Err(e) => (Err(e), m2),
            Ok(_) => if inst is Halt {
                (Ok(false), m2)
            } else {
                (Ok(true), m2.tick())
            },
        }
    }
}


/// A step other than `HALT` leaves the counters and the halt bit as they were.
/// What one step does, by cases on the instruction: the counters stay; only `HALT` sets
/// the halt bit; only stores change memory, and a store changes the bytes it writes; a
/// well-formed state stays well formed; a step that succeeds moves the program counter to
/// `next_pc` and changes only its destination register; a step that fails leaves the
/// program counter.
#[verifier::spinoff_prover]
#[verifier::rlimit(60)]
proof fn lemma_step_cases(m: CpuModel, inst: Instruction, r: u8, a: int)
    ensures
        step_spec(m, inst).1.cycle_count == m.cycle_count,
        step_spec(m, inst).1.instruction_count == m.instruction_count,
        !(inst is Halt) ==> step_spec(m, inst).1.halted == m.halted,
        !(inst is Sw) && !(inst is Sb) ==> step_spec(m, inst).1.mem == m.mem,
        m.wf() ==> step_spec(m, inst).1.wf(),
        m.wf() && step_spec(m, inst).0 is Ok ==> step_spec(m, inst).1.pc == next_pc(m, inst),
        step_spec(m, inst).0 is Err ==> step_spec(m, inst).1.pc == m.pc,
        m.wf() && step_spec(m, inst).0 is Ok && r < NUM_REGISTERS && destination(inst) != Some(r)
            ==> step_spec(m, inst).1.regs[r as int] == m.regs[r as int],
        m.wf() && step_spec(m, inst).0 is Ok && (inst is Jal || inst is Jalr) && destination(inst)
            == Some(r) && r != 0 ==> step_spec(m, inst).1.regs[r as int] == m.pc + 4,
        m.wf() && step_spec(m, inst).0 is Ok && 0 <= a < MEMORY_SIZE ==> (inst matches Instruction::Sw { rs2, rs1, offset } ==> ({
            let ea = offset_addr(m.reg(rs1), offset) as int;
            step_spec(m, inst).1.mem[a] == if ea <= a < ea + 4 {
                byte_of(m.reg(rs2), (a - ea) as u32)
            } else {
                m.mem[a]
            }
        })),
        m.wf() && step_spec(m, inst).0 is Ok && 0 <= a < MEMORY_SIZE ==> (inst matches Instruction::Sb { rs2, rs1, offset } ==> ({
            let ea = offset_addr(m.reg(rs1), offset) as int;
            step_spec(m, inst).1.mem[a] == if a == ea {
                low_byte(m.reg(rs2))
            } else {
                m.mem[a]
            }
        })),
{
    match inst {
        Instruction::Add { .. } => {},
        Instruction::Sub { .. } => {},
        Instruction::And { .. } => {},
        Instruction::Or { .. } => {},
        Instruction::Xor { .. } => {},
        Instruction::Slt { .. } => {},
        Instruction::Sltu { .. } => {},
        Instruction::Sll { .. } => {},
        Instruction::Srl { .. } => {},
        Instruction::Sra { .. } => {},
        Instruction::Addi { .. } => {},
        Instruction::Andi { .. } => {},
        Instruction::Ori { .. } => {},
        Instruction::Xori { .. } => {},
        Instruction::Slti { .. } => {},
        Instruction::Lw { .. } => {},
        Instruction::Lb { .. } => {},
        Instruction::Sw { .. } => {},
        Instruction::Sb { .. } => {},
        Instruction::Beq { .. } => {},
        Instruction::Bne { .. } => {},
        Instruction::Blt { .. } => {},
        Instruction::Bge { .. } => {},
        Instruction::J { .. } => {},
        Instruction::Jal { .. } => {},
        Instruction::Jalr { .. } => {},
        Instruction::Lui { .. } => {},
        Instruction::Auipc { .. } => {},
        Instruction::Nop => {},
        Instruction::Halt => {},
    }
}

pub proof fn lemma_step_keeps_counts(m: CpuModel, inst: Instruction)
    ensures
        step_spec(m, inst).1.cycle_count == m.cycle_count,
        step_spec(m, inst).1.instruction_count == m.instruction_count,
        !(inst is Halt) ==> step_spec(m, inst).1.halted == m.halted,
{
    lemma_step_cases(m, inst, 0, 0);
}

/// Executing an instruction moves each counter by at most one.
pub proof fn lemma_execute_counts(m: CpuModel, inst: Instruction)
    requires
        m.cycle_count < u64::MAX,
        m.instruction_count < u64::MAX,
    ensures
        m.cycle_count <= execute_spec(m, inst).1.cycle_count <= m.cycle_count + 1,
        m.instruction_count <= execute_spec(m, inst).1.instruction_count <= m.instruction_count
            + 1,
{
    lemma_step_keeps_counts(m.count_instruction(), inst);
}

// ===== Laws of execution =====

/// A halted CPU refuses every instruction with `Halted` and stays as it is.
pub proof fn law_halted_refuses(m: CpuModel, inst: Instruction)
    requires
        m.halted,
    ensures
        execute_spec(m, inst) == (Err::<bool, CpuError>(CpuError::Halted), m),
{
}

/// `HALT` on a running CPU halts it and asks to stop, and whatever comes next is refused.
pub proof fn law_halt_stops(m: CpuModel, next: Instruction)
    requires
        !m.halted,
    ensures
        execute_spec(m, Instruction::Halt).0 == Ok::<bool, CpuError>(false),
        execute_spec(m, Instruction::Halt).1.halted,
        execute_spec(execute_spec(m, Instruction::Halt).1, next).0 == Err::<bool, CpuError>(
            CpuError::Halted,
        ),
{
}

/// Every instruction begun on a running CPU is counted once, whether it succeeds or fails;
/// a successful instruction costs one cycle, except `HALT`, which costs none, and a failed
/// one costs none.
pub proof fn law_counts(m: CpuModel, inst: Instruction)
    requires
        !m.halted,
        m.instruction_count < u64::MAX,
        m.cycle_count < u64::MAX,
    ensures
        execute_spec(m, inst).1.instruction_count == m.instruction_count + 1,
        execute_spec(m, inst).1.cycle_count == if execute_spec(m, inst).0 == Ok::<bool, CpuError>(
            true,
        ) {
            m.cycle_count + 1
        } else {
            m.cycle_count as int
        },
        execute_spec(m, inst).0 == Ok::<bool, CpuError>(true) <==> (execute_spec(m, inst).0 is Ok
            && !(inst is Halt)),
{
    lemma_step_keeps_counts(m.count_instruction(), inst);
}

/// An instruction that is neither a branch, a jump nor `HALT` moves the program counter to
/// the next instruction when it succeeds.
pub proof fn law_sequential_pc(m: CpuModel, inst: Instruction)
    requires
        m.wf(),
        !inst.spec_is_control_flow(),
        !(inst is Halt),
        execute_spec(m, inst).0 is Ok,
    ensures
        execute_spec(m, inst).1.pc == m.pc + 4,
{
    law_next_pc(m, inst);
}

/// Only stores change memory: every other instruction, loads included, leaves it as it was.
pub proof fn law_memory_only_by_stores(m: CpuModel, inst: Instruction)
    requires
        !(inst is Sw),
        !(inst is Sb),
    ensures
        execute_spec(m, inst).1.mem == m.mem,
{
    lemma_step_cases(m.count_instruction(), inst, 0, 0);
}

/// Execution keeps the state well formed: `x0` stays zero and the program counter stays
/// inside memory.
pub proof fn law_execute_keeps_wf(m: CpuModel, inst: Instruction)
    requires
        m.wf(),
    ensures
        execute_spec(m, inst).1.wf(),
{
    lemma_step_cases(m.count_instruction(), inst, 0, 0);
}

/// Where the program counter goes when `inst` succeeds on `m`: `HALT` keeps it; `J` and
/// `JAL` go to `pc + offset`, `JALR` to `rs1 + offset`; a branch goes to `pc + offset`
/// when taken and to the next instruction otherwise; every other instruction goes to the
/// next instruction.
pub open spec fn next_pc(m: CpuModel, inst: Instruction) -> int {
    let next = m.pc + 4;
    match inst {
        Instruction::Halt => m.pc as int,
        Instruction::J { offset } => offset_addr(m.pc, offset) as int,
        Instruction::Jal { offset, .. } => offset_addr(m.pc, offset) as int,
        Instruction::Jalr { rs1, offset, .. } => offset_addr(m.reg(rs1), offset) as int,
        Instruction::Beq { rs1, rs2, offset } => if branch_taken(BranchOp::Eq, m.reg(rs1), m.reg(rs2)) {
            offset_addr(m.pc, offset) as int
        } else {
            next
        },
        Instruction::Bne { rs1, rs2, offset } => if branch_taken(BranchOp::Ne, m.reg(rs1), m.reg(rs2)) {
            offset_addr(m.pc, offset) as int
        } else {
            next
        },
        Instruction::Blt { rs1, rs2, offset } => if branch_taken(BranchOp::Lt, m.reg(rs1), m.reg(rs2)) {
            offset_addr(m.pc, offset) as int
        } else {
            next
        },
        Instruction::Bge { rs1, rs2, offset } => if branch_taken(BranchOp::Ge, m.reg(rs1), m.reg(rs2)) {
            offset_addr(m.pc, offset) as int
        } else {
            next
        },
        _ => next,
    }
}

/// An instruction that succeeds moves the program counter to `next_pc`.
pub proof fn law_next_pc(m: CpuModel, inst: Instruction)
    requires
        m.wf(),
        execute_spec(m, inst).0 is Ok,
    ensures
        execute_spec(m, inst).1.pc == next_pc(m, inst),
{
    lemma_step_cases(m.count_instruction(), inst, 0, 0);
}

/// The register an instruction writes, if any.
pub open spec fn destination(inst: Instruction) -> Option<u8> {
    match inst {
        Instruction::Add { rd, .. } | Instruction::Sub { rd, .. } | Instruction::And { rd, .. }
        | Instruction::Or { rd, .. } | Instruction::Xor { rd, .. } | Instruction::Slt { rd, .. }
        | Instruction::Sltu { rd, .. } | Instruction::Sll { rd, .. } | Instruction::Srl { rd, .. }
        | Instruction::Sra { rd, .. } | Instruction::Addi { rd, .. } | Instruction::Andi { rd, .. }
        | Instruction::Ori { rd, .. } | Instruction::Xori { rd, .. } | Instruction::Slti { rd, .. }
        | Instruction::Lw { rd, .. } | Instruction::Lb { rd, .. } | Instruction::Jal { rd, .. }
        | Instruction::Jalr { rd, .. } | Instruction::Lui { rd, .. } | Instruction::Auipc { rd, .. } => Some(rd),
        _ => None,
    }
}

/// An instruction that succeeds changes at most its destination register: every other
/// register keeps its value, `x0` stays zero, and `JAL` and `JALR` write the address of
/// the next instruction.
pub proof fn law_only_destination_changes(m: CpuModel, inst: Instruction, r: u8)
    requires
        m.wf(),
        execute_spec(m, inst).0 is Ok,
        r < NUM_REGISTERS,
    ensures
        destination(inst) != Some(r) ==> execute_spec(m, inst).1.regs[r as int] == m.regs[r as int],
        execute_spec(m, inst).1.regs[0] == 0,
        (inst is Jal || inst is Jalr) && destination(inst) == Some(r) && r != 0
            ==> execute_spec(m, inst).1.regs[r as int] == m.pc + 4,
{
    law_execute_keeps_wf(m, inst);
    lemma_step_cases(m.count_instruction(), inst, r, 0);
}

/// An instruction that fails leaves the program counter, the cycle count and the halt bit
/// as they were, and is counted.
pub proof fn law_failure_counted_only(m: CpuModel, inst: Instruction)
    requires
        !m.halted,
        m.instruction_count < u64::MAX,
        execute_spec(m, inst).0 is Err,
    ensures
        execute_spec(m, inst).1.pc == m.pc,
        execute_spec(m, inst).1.cycle_count == m.cycle_count,
        !execute_spec(m, inst).1.halted,
        execute_spec(m, inst).1.instruction_count == m.instruction_count + 1,
{
    lemma_step_cases(m.count_instruction(), inst, 0, 0);
}

/// An instruction that does not access memory neither reads nor writes it: on two states
/// that differ only in memory it gives the same result and the same registers, program
/// counter, flags, halt bit and counters, and each memory stays as it was.
pub proof fn law_memory_independent(m1: CpuModel, m2: CpuModel, inst: Instruction)
    requires
        !inst.spec_is_memory_access(),
        m1 == (CpuModel { mem: m1.mem, ..m2 }),
    ensures
        execute_spec(m1, inst).0 == execute_spec(m2, inst).0,
        execute_spec(m1, inst).1 == (CpuModel { mem: m1.mem, ..execute_spec(m2, inst).1 }),
        execute_spec(m1, inst).1.mem == m1.mem,
        execute_spec(m2, inst).1.mem == m2.mem,
{
    let c1 = m1.count_instruction();
    let c2 = m2.count_instruction();
    lemma_step_ignores_memory(c1, c2, inst);
}

/// `step_spec` on two states that differ only in memory, for an instruction that does
/// not access memory.
#[verifier::spinoff_prover]
#[verifier::rlimit(40)]
proof fn lemma_step_ignores_memory(c1: CpuModel, c2: CpuModel, inst: Instruction)
    requires
        !inst.spec_is_memory_access(),
        c1 == (CpuModel { mem: c1.mem, ..c2 }),
    ensures
        step_spec(c1, inst).0 == step_spec(c2, inst).0,
        step_spec(c1, inst).1 == (CpuModel { mem: c1.mem, ..step_spec(c2, inst).1 }),
        step_spec(c1, inst).1.mem == c1.mem,
        step_spec(c2, inst).1.mem == c2.mem,
{
    match inst {
        Instruction::Add { rd, rs1, rs2 } => lemma_alu_reg_ignores_memory(c1, c2, AluOp::Add, rd, rs1, rs2),
        Instruction::Sub { rd, rs1, rs2 } => lemma_alu_reg_ignores_memory(c1, c2, AluOp::Sub, rd, rs1, rs2),
        Instruction::And { rd, rs1, rs2 } => lemma_alu_reg_ignores_memory(c1, c2, AluOp::And, rd, rs1, rs2),
        Instruction::Or { rd, rs1, rs2 } => lemma_alu_reg_ignores_memory(c1, c2, AluOp::Or, rd, rs1, rs2),
        Instruction::Xor { rd, rs1, rs2 } => lemma_alu_reg_ignores_memory(c1, c2, AluOp::Xor, rd, rs1, rs2),
        Instruction::Slt { rd, rs1, rs2 } => lemma_alu_reg_ignores_memory(c1, c2, AluOp::Slt, rd, rs1, rs2),
        Instruction::Sltu { rd, rs1, rs2 } => lemma_alu_reg_ignores_memory(c1, c2, AluOp::Sltu, rd, rs1, rs2),
        Instruction::Sll { rd, rs1, rs2 } => lemma_alu_reg_ignores_memory(c1, c2, AluOp::Sll, rd, rs1, rs2),
        Instruction::Srl { rd, rs1, rs2 } => lemma_alu_reg_ignores_memory(c1, c2, AluOp::Srl, rd, rs1, rs2),
        Instruction::Sra { rd, rs1, rs2 } => lemma_alu_reg_ignores_memory(c1, c2, AluOp::Sra, rd, rs1, rs2),
        Instruction::Addi { rd, rs1, imm } => lemma_alu_imm_ignores_memory(c1, c2, AluOp::Add, rd, rs1, imm),
        Instruction::Andi { rd, rs1, imm } => lemma_alu_imm_ignores_memory(c1, c2, AluOp::And, rd, rs1, imm),
        Instruction::Ori { rd, rs1, imm } => lemma_alu_imm_ignores_memory(c1, c2, AluOp::Or, rd, rs1, imm),
        Instruction::Xori { rd, rs1, imm } => lemma_alu_imm_ignores_memory(c1, c2, AluOp::Xor, rd, rs1, imm),
        Instruction::Slti { rd, rs1, imm } => lemma_alu_imm_ignores_memory(c1, c2, AluOp::Slt, rd, rs1, imm),
        Instruction::Beq { rs1, rs2, offset } => lemma_branch_ignores_memory(c1, c2, BranchOp::Eq, rs1, rs2, offset),
        Instruction::Bne { rs1, rs2, offset } => lemma_branch_ignores_memory(c1, c2, BranchOp::Ne, rs1, rs2, offset),
        Instruction::Blt { rs1, rs2, offset } => lemma_branch_ignores_memory(c1, c2, BranchOp::Lt, rs1, rs2, offset),
        Instruction::Bge { rs1, rs2, offset } => lemma_branch_ignores_memory(c1, c2, BranchOp::Ge, rs1, rs2, offset),
        Instruction::Jalr { rd, rs1, offset } => {
            if let Ok(base) = c1.read_register(rs1) {
                lemma_write_ignores_memory(c1, c2, rd, (c1.pc + 4) as u32, Some(offset_addr(base, offset)));
            }
        },
        Instruction::Jal { rd, offset } => lemma_write_ignores_memory(c1, c2, rd, (c1.pc + 4) as u32, Some(offset_addr(c1.pc, offset))),
        Instruction::Lui { rd, imm } => lemma_write_ignores_memory(c1, c2, rd, upper_bits(imm), None),
        Instruction::Auipc { rd, imm } => lemma_write_ignores_memory(c1, c2, rd, wrap32(c1.pc + upper_bits(imm)), None),
        _ => {},
    }
}

/// Memory-independence of writing a register and moving on.
proof fn lemma_write_ignores_memory(m1: CpuModel, m2: CpuModel, rd: Register, v: u32, next: Option<u32>)
    requires
        m1 == (CpuModel { mem: m1.mem, ..m2 }),
    ensures
        write_then_advance(m1, rd, v, next).0 == write_then_advance(m2, rd, v, next).0,
        write_then_advance(m1, rd, v, next).1 == (CpuModel { mem: m1.mem, ..write_then_advance(m2, rd, v, next).1 }),
        write_then_advance(m1, rd, v, next).1.mem == m1.mem,
        write_then_advance(m2, rd, v, next).1.mem == m2.mem,
{
}

/// Memory-independence of the arithmetic tail.
proof fn lemma_alu_finish_ignores_memory(m1: CpuModel, m2: CpuModel, op: AluOp, rd: Register, a: u32, b: u32)
    requires
        m1 == (CpuModel { mem: m1.mem, ..m2 }),
    ensures
        alu_finish(m1, op, rd, a, b).0 == alu_finish(m2, op, rd, a, b).0,
        alu_finish(m1, op, rd, a, b).1 == (CpuModel { mem: m1.mem, ..alu_finish(m2, op, rd, a, b).1 }),
        alu_finish(m1, op, rd, a, b).1.mem == m1.mem,
        alu_finish(m2, op, rd, a, b).1.mem == m2.mem,
{
}

proof fn lemma_alu_reg_ignores_memory(m1: CpuModel, m2: CpuModel, op: AluOp, rd: Register, rs1: Register, rs2: Register)
    requires
        m1 == (CpuModel { mem: m1.mem, ..m2 }),
    ensures
        alu_reg_spec(m1, op, rd, rs1, rs2).0 == alu_reg_spec(m2, op, rd, rs1, rs2).0,
        alu_reg_spec(m1, op, rd, rs1, rs2).1 == (CpuModel { mem: m1.mem, ..alu_reg_spec(m2, op, rd, rs1, rs2).1 }),
        alu_reg_spec(m1, op, rd, rs1, rs2).1.mem == m1.mem,
        alu_reg_spec(m2, op, rd, rs1, rs2).1.mem == m2.mem,
{
    if let (Ok(a), Ok(b)) = (m1.read_register(rs1), m1.read_register(rs2)) {
        lemma_alu_finish_ignores_memory(m1, m2, op, rd, a, b);
    }
}

proof fn lemma_alu_imm_ignores_memory(m1: CpuModel, m2: CpuModel, op: AluOp, rd: Register, rs1: Register, imm: Immediate)
    requires
        m1 == (CpuModel { mem: m1.mem, ..m2 }),
    ensures
        alu_imm_spec(m1, op, rd, rs1, imm).0 == alu_imm_spec(m2, op, rd, rs1, imm).0,
        alu_imm_spec(m1, op, rd, rs1, imm).1 == (CpuModel { mem: m1.mem, ..alu_imm_spec(m2, op, rd, rs1, imm).1 }),
        alu_imm_spec(m1, op, rd, rs1, imm).1.mem == m1.mem,
        alu_imm_spec(m2, op, rd, rs1, imm).1.mem == m2.mem,
{
    if let Ok(a) = m1.read_register(rs1) {
        lemma_alu_finish_ignores_memory(m1, m2, op, rd, a, bits_of(imm));
    }
}

proof fn lemma_branch_ignores_memory(m1: CpuModel, m2: CpuModel, op: BranchOp, rs1: Register, rs2: Register, offset: Immediate)
    requires
        m1 == (CpuModel { mem: m1.mem, ..m2 }),
    ensures
        branch_spec(m1, op, rs1, rs2, offset).0 == branch_spec(m2, op, rs1, rs2, offset).0,
        branch_spec(m1, op, rs1, rs2, offset).1 == (CpuModel { mem: m1.mem, ..branch_spec(m2, op, rs1, rs2, offset).1 }),
        branch_spec(m1, op, rs1, rs2, offset).1.mem == m1.mem,
        branch_spec(m2, op, rs1, rs2, offset).1.mem == m2.mem,
{
}

/// What a store that succeeds does to the byte at `a`: `SW` sets the four bytes at the
/// effective address to the little-endian bytes of `rs2`, `SB` sets the byte there to the
/// low byte of `rs2`; every other byte keeps its value.
pub proof fn law_store_bytes(m: CpuModel, inst: Instruction, a: int)
    requires
        execute_spec(m, inst).0 is Ok,
        0 <= a < MEMORY_SIZE,
        m.wf(),
    ensures
        inst matches Instruction::Sw { rs2, rs1, offset } ==> ({
            let ea = offset_addr(m.reg(rs1), offset) as int;
            execute_spec(m, inst).1.mem[a] == if ea <= a < ea + 4 {
                byte_of(m.reg(rs2), (a - ea) as u32)
            } else {
                m.mem[a]
            }
        }),
        inst matches Instruction::Sb { rs2, rs1, offset } ==> ({
            let ea = offset_addr(m.reg(rs1), offset) as int;
            execute_spec(m, inst).1.mem[a] == if a == ea {
                low_byte(m.reg(rs2))
            } else {
                m.mem[a]
            }
        }),
{
    lemma_step_cases(m.count_instruction(), inst, 0, a);
}

/// The casts the laws below are written with: an `i32` immediate's bits are `imm as u32`,
/// a register's signed value is `v as i32`, and the word and byte forms are plain
/// arithmetic.
proof fn lemma_casts(v: u32, x: i32, b0: u8, b1: u8, b2: u8, b3: u8)
    ensures
        bits_of(x) == x as u32,
        signed(v) == (v as i32) as int,
        word_of(b0, b1, b2, b3) == b0 + 256 * b1 + 65536 * b2 + 16777216 * b3,
        byte_of(v, 0) == v % 256,
        byte_of(v, 1) == (v / 256) % 256,
        byte_of(v, 2) == (v / 65536) % 256,
        byte_of(v, 3) == v / 16777216,
{
    assert(bits_of(x) == x as u32) by (bit_vector);
    assert(signed(v) == (v as i32) as int) by (bit_vector);
    assert(word_of(b0, b1, b2, b3) == b0 + 256 * b1 + 65536 * b2 + 16777216 * b3) by (bit_vector);
    assert(byte_of(v, 0) == v % 256) by (bit_vector);
    assert(byte_of(v, 1) == (v / 256) % 256) by (bit_vector);
    assert(byte_of(v, 2) == (v / 65536) % 256) by (bit_vector);
    assert(byte_of(v, 3) == v / 16777216) by (bit_vector);
}

/// What a register-writing instruction that succeeds leaves in its destination (other
/// than `x0`), in terms of the registers, program counter and memory before it: sums and
/// differences wrap at 2^32, logic is bitwise, compares give 1 or 0 (`SLT`/`SLTI` signed,
/// `SLTU` unsigned), shifts use the low five bits of `rs2` (`SRA` keeps the sign),
/// immediates take part as their 32 bits, `LUI` and `AUIPC` shift the immediate up 12 bits,
/// `JAL` and `JALR` leave the address of the next instruction, `LW` reads a little-endian
/// word and `LB` a sign-extended byte at `rs1 + offset` (wrapping).
pub proof fn law_register_results(m: CpuModel, inst: Instruction)
    requires
        m.wf(),
        execute_spec(m, inst).0 is Ok,
    ensures
        inst matches Instruction::Add { rd, rs1, rs2 } ==> (rd != 0 ==> execute_spec(m, inst).1.regs[rd as int] == (m.reg(rs1) + m.reg(rs2)) % 0x1_0000_0000),
        inst matches Instruction::Sub { rd, rs1, rs2 } ==> (rd != 0 ==> execute_spec(m, inst).1.regs[rd as int] == (m.reg(rs1) - m.reg(rs2)) % 0x1_0000_0000),
        inst matches Instruction::And { rd, rs1, rs2 } ==> (rd != 0 ==> execute_spec(m, inst).1.regs[rd as int] == (m.reg(rs1) & m.reg(rs2))),
        inst matches Instruction::Or { rd, rs1, rs2 } ==> (rd != 0 ==> execute_spec(m, inst).1.regs[rd as int] == (m.reg(rs1) | m.reg(rs2))),
        inst matches Instruction::Xor { rd, rs1, rs2 } ==> (rd != 0 ==> execute_spec(m, inst).1.regs[rd as int] == (m.reg(rs1) ^ m.reg(rs2))),
        inst matches Instruction::Slt { rd, rs1, rs2 } ==> (rd != 0 ==> execute_spec(m, inst).1.regs[rd as int] == (if (m.reg(rs1) as i32) < (m.reg(rs2) as i32) { 1u32 } else { 0u32 })),
        inst matches Instruction::Sltu { rd, rs1, rs2 } ==> (rd != 0 ==> execute_spec(m, inst).1.regs[rd as int] == (if m.reg(rs1) < m.reg(rs2) { 1u32 } else { 0u32 })),
        inst matches Instruction::Sll { rd, rs1, rs2 } ==> (rd != 0 ==> execute_spec(m, inst).1.regs[rd as int] == (m.reg(rs1) << (m.reg(rs2) & 31u32))),
        inst matches Instruction::Srl { rd, rs1, rs2 } ==> (rd != 0 ==> execute_spec(m, inst).1.regs[rd as int] == (m.reg(rs1) >> (m.reg(rs2) & 31u32))),
        inst matches Instruction::Sra { rd, rs1, rs2 } ==> (rd != 0 ==> execute_spec(m, inst).1.regs[rd as int] == (((m.reg(rs1) as i32) >> (m.reg(rs2) & 31u32)) as u32)),
        inst matches Instruction::Addi { rd, rs1, imm } ==> (rd != 0 ==> execute_spec(m, inst).1.regs[rd as int] == (m.reg(rs1) + imm) % 0x1_0000_0000),
        inst matches Instruction::Andi { rd, rs1, imm } ==> (rd != 0 ==> execute_spec(m, inst).1.regs[rd as int] == (m.reg(rs1) & (imm as u32))),
        inst matches Instruction::Ori { rd, rs1, imm } ==> (rd != 0 ==> execute_spec(m, inst).1.regs[rd as int] == (m.reg(rs1) | (imm as u32))),
        inst matches Instruction::Xori { rd, rs1, imm } ==> (rd != 0 ==> execute_spec(m, inst).1.regs[rd as int] == (m.reg(rs1) ^ (imm as u32))),
        inst matches Instruction::Slti { rd, rs1, imm } ==> (rd != 0 ==> execute_spec(m, inst).1.regs[rd as int] == (if (m.reg(rs1) as i32) < imm { 1u32 } else { 0u32 })),
        inst matches Instruction::Lui { rd, imm } ==> (rd != 0 ==> execute_spec(m, inst).1.regs[rd as int] == ((imm as u32) << 12u32)),
        inst matches Instruction::Auipc { rd, imm } ==> (rd != 0 ==> execute_spec(m, inst).1.regs[rd as int] == (m.pc + ((imm as u32) << 12u32)) % 0x1_0000_0000),
        inst matches Instruction::Jal { rd, .. } ==> (rd != 0 ==> execute_spec(m, inst).1.regs[rd as int] == m.pc + 4),
        inst matches Instruction::Jalr { rd, .. } ==> (rd != 0 ==> execute_spec(m, inst).1.regs[rd as int] == m.pc + 4),
        inst matches Instruction::Lw { rd, rs1, offset } ==> (rd != 0 ==> execute_spec(m, inst).1.regs[rd as int] == ({
            let ea = (m.reg(rs1) + offset) % 0x1_0000_0000;
            m.mem[ea] + 256 * m.mem[ea + 1] + 65536 * m.mem[ea + 2] + 16777216 * m.mem[ea + 3]
        })),
        inst matches Instruction::Lb { rd, rs1, offset } ==> (rd != 0 ==> execute_spec(m, inst).1.regs[rd as int] == ({
            let byte = m.mem[(m.reg(rs1) + offset) % 0x1_0000_0000];
            if byte < 128 { byte as int } else { byte + 0xFFFF_FF00 }
        })),
{
    reveal(alu_result);
    match inst {
        Instruction::Slt { rs1, rs2, .. } | Instruction::Sra { rs1, rs2, .. } => {
            lemma_casts(m.reg(rs1), 0, 0, 0, 0, 0);
            lemma_casts(m.reg(rs2), 0, 0, 0, 0, 0);
        },
        Instruction::Addi { rs1, imm, .. } | Instruction::Andi { rs1, imm, .. }
        | Instruction::Ori { rs1, imm, .. } | Instruction::Xori { rs1, imm, .. }
        | Instruction::Slti { rs1, imm, .. } => {
            lemma_casts(m.reg(rs1), imm, 0, 0, 0, 0);
        },
        Instruction::Lui { imm, .. } | Instruction::Auipc { imm, .. } => {
            lemma_casts(0, imm, 0, 0, 0, 0);
        },
        Instruction::Lw { rs1, offset, .. } => {
            let ea = offset_addr(m.reg(rs1), offset);
            if ea + 3 < MEMORY_SIZE {
                lemma_casts(0, 0, m.mem[ea as int], m.mem[ea + 1], m.mem[ea + 2], m.mem[ea + 3]);
            }
        },
        _ => {},
    }
}

/// Where an instruction that succeeds leaves the program counter, in terms of the state
/// before it: `BEQ`/`BNE` compare the registers for equality, `BLT`/`BGE` compare them as
/// signed numbers, and a taken branch, `J` and `JAL` go to `pc + offset`, `JALR` to
/// `rs1 + offset` (wrapping); `HALT` stays; everything else goes to `pc + 4`.
pub proof fn law_pc_results(m: CpuModel, inst: Instruction)
    requires
        m.wf(),
        execute_spec(m, inst).0 is Ok,
    ensures
        execute_spec(m, inst).1.pc == match inst {
            Instruction::Beq { rs1, rs2, offset } => if m.reg(rs1) == m.reg(rs2) {
                (m.pc + offset) % 0x1_0000_0000
            } else {
                m.pc + 4
            },
            Instruction::Bne { rs1, rs2, offset } => if m.reg(rs1) != m.reg(rs2) {
                (m.pc + offset) % 0x1_0000_0000
            } else {
                m.pc + 4
            },
            Instruction::Blt { rs1, rs2, offset } => if (m.reg(rs1) as i32) < (m.reg(rs2) as i32) {
                (m.pc + offset) % 0x1_0000_0000
            } else {
                m.pc + 4
            },
            Instruction::Bge { rs1, rs2, offset } => if (m.reg(rs1) as i32) >= (m.reg(rs2) as i32) {
                (m.pc + offset) % 0x1_0000_0000
            } else {
                m.pc + 4
            },
            Instruction::J { offset } => (m.pc + offset) % 0x1_0000_0000,
            Instruction::Jal { offset, .. } => (m.pc + offset) % 0x1_0000_0000,
            Instruction::Jalr { rs1, offset, .. } => (m.reg(rs1) + offset) % 0x1_0000_0000,
            Instruction::Halt => m.pc as int,
            _ => m.pc + 4,
        },
{
    law_next_pc(m, inst);
    lemma_next_pc_direct(m, inst);
}

/// `next_pc` written with plain comparisons and arithmetic.
proof fn lemma_next_pc_direct(m: CpuModel, inst: Instruction)
    ensures
        next_pc(m, inst) == match inst {
            Instruction::Beq { rs1, rs2, offset } => if m.reg(rs1) == m.reg(rs2) {
                (m.pc + offset) % 0x1_0000_0000
            } else {
                m.pc + 4
            },
            Instruction::Bne { rs1, rs2, offset } => if m.reg(rs1) != m.reg(rs2) {
                (m.pc + offset) % 0x1_0000_0000
            } else {
                m.pc + 4
            },
            Instruction::Blt { rs1, rs2, offset } => if (m.reg(rs1) as i32) < (m.reg(rs2) as i32) {
                (m.pc + offset) % 0x1_0000_0000
            } else {
                m.pc + 4
            },
            Instruction::Bge { rs1, rs2, offset } => if (m.reg(rs1) as i32) >= (m.reg(rs2) as i32) {
                (m.pc + offset) % 0x1_0000_0000
            } else {
                m.pc + 4
            },
            Instruction::J { offset } => (m.pc + offset) % 0x1_0000_0000,
            Instruction::Jal { offset, .. } => (m.pc + offset) % 0x1_0000_0000,
            Instruction::Jalr { rs1, offset, .. } => (m.reg(rs1) + offset) % 0x1_0000_0000,
            Instruction::Halt => m.pc as int,
            _ => m.pc + 4,
        },
{
    match inst {
        Instruction::Blt { rs1, rs2, .. } | Instruction::Bge { rs1, rs2, .. } => {
            lemma_casts(m.reg(rs1), 0, 0, 0, 0, 0);
            lemma_casts(m.reg(rs2), 0, 0, 0, 0, 0);
        },
        _ => {},
    }
}

/// What a store that succeeds does to the byte at `a`, in terms of the state before it:
/// `SW` writes the value of `rs2` little-endian into the four bytes at `rs1 + offset`
/// (wrapping), `SB` its low byte into the byte there; every other byte keeps its value.
pub proof fn law_store_results(m: CpuModel, inst: Instruction, a: int)
    requires
        m.wf(),
        execute_spec(m, inst).0 is Ok,
        0 <= a < MEMORY_SIZE,
    ensures
        inst matches Instruction::Sw { rs2, rs1, offset } ==> ({
            let ea = (m.reg(rs1) + offset) % 0x1_0000_0000;
            let v = m.reg(rs2);
            execute_spec(m, inst).1.mem[a] == if a == ea {
                (v % 256) as int
            } else if a == ea + 1 {
                ((v / 256) % 256) as int
            } else if a == ea + 2 {
                ((v / 65536) % 256) as int
            } else if a == ea + 3 {
                (v / 16777216) as int
            } else {
                m.mem[a] as int
            }
        }),
        inst matches Instruction::Sb { rs2, rs1, offset } ==> ({
            let ea = (m.reg(rs1) + offset) % 0x1_0000_0000;
            execute_spec(m, inst).1.mem[a] == if a == ea {
                (m.reg(rs2) % 256) as int
            } else {
                m.mem[a] as int
            }
        }),
        !(inst is Sw) && !(inst is Sb) ==> execute_spec(m, inst).1.mem[a] == m.mem[a],
{
    law_store_bytes(m, inst, a);
    if !(inst is Sw) && !(inst is Sb) {
        law_memory_only_by_stores(m, inst);
    }
    match inst {
        Instruction::Sw { rs2, .. } => {
            lemma_casts(m.reg(rs2), 0, 0, 0, 0, 0);
        },
        _ => {},
    }
}

/// The status flags after an instruction that succeeds: an arithmetic or logic
/// instruction writing a register other than `x0` sets zero and negative from the value
/// written; `ADD`/`ADDI` set carry when the sum wrapped and overflow when two operands of
/// one sign gave a result of the other, `SUB` sets carry when it borrowed and overflow when
/// operands of different signs gave a result of the second's sign; other arithmetic keeps
/// carry and overflow; loads, stores, branches, jumps, `LUI`, `AUIPC`, `NOP` and `HALT`
/// leave all flags as they were.
pub proof fn law_flag_results(m: CpuModel, inst: Instruction)
    requires
        m.wf(),
        execute_spec(m, inst).0 is Ok,
    ensures
        ({
            let f = execute_spec(m, inst).1.flags;
            let regs = execute_spec(m, inst).1.regs;
            match inst {
                Instruction::Add { rd, rs1, rs2 } | Instruction::Sub { rd, rs1, rs2 }
                | Instruction::And { rd, rs1, rs2 } | Instruction::Or { rd, rs1, rs2 }
                | Instruction::Xor { rd, rs1, rs2 } | Instruction::Slt { rd, rs1, rs2 }
                | Instruction::Sltu { rd, rs1, rs2 } | Instruction::Sll { rd, rs1, rs2 }
                | Instruction::Srl { rd, rs1, rs2 } | Instruction::Sra { rd, rs1, rs2 } => rd != 0
                    ==> {
                    let v = regs[rd as int];
                    let a = m.reg(rs1);
                    let b = m.reg(rs2);
                    &&& f.zero == (v == 0)
                    &&& f.negative == (v >= 0x8000_0000)
                    &&& inst is Add ==> f.carry == (v < a) && f.overflow == ((a >= 0x8000_0000) == (
                    b >= 0x8000_0000) && (a >= 0x8000_0000) != (v >= 0x8000_0000))
                    &&& inst is Sub ==> f.carry == (a < b) && f.overflow == ((a >= 0x8000_0000) != (
                    b >= 0x8000_0000) && (a >= 0x8000_0000) != (v >= 0x8000_0000))
                    &&& !(inst is Add) && !(inst is Sub) ==> f.carry == m.flags.carry && f.overflow
                        == m.flags.overflow
                },
                Instruction::Addi { rd, rs1, imm } | Instruction::Andi { rd, rs1, imm }
                | Instruction::Ori { rd, rs1, imm } | Instruction::Xori { rd, rs1, imm }
                | Instruction::Slti { rd, rs1, imm } => rd != 0 ==> {
                    let v = regs[rd as int];
                    let a = m.reg(rs1);
                    let b = imm as u32;
                    &&& f.zero == (v == 0)
                    &&& f.negative == (v >= 0x8000_0000)
                    &&& inst is Addi ==> f.carry == (v < a) && f.overflow == ((a >= 0x8000_0000) == (
                    b >= 0x8000_0000) && (a >= 0x8000_0000) != (v >= 0x8000_0000))
                    &&& !(inst is Addi) ==> f.carry == m.flags.carry && f.overflow == m.flags.overflow
                },
                _ => f == m.flags,
            }
        }),
{
    reveal(alu_result);
    match inst {
        Instruction::Addi { rs1, imm, .. } | Instruction::Andi { rs1, imm, .. }
        | Instruction::Ori { rs1, imm, .. } | Instruction::Xori { rs1, imm, .. }
        | Instruction::Slti { rs1, imm, .. } => {
            lemma_casts(m.reg(rs1), imm, 0, 0, 0, 0);
        },
        _ => {},
    }
}

/// A word stored by `SW` is what `LW` then loads from the same base register and offset.
pub proof fn law_store_then_load_word(m: CpuModel, rs1: u8, rs2: u8, rd: u8, offset: i32)
    requires
        m.wf(),
        !m.halted,
        m.instruction_count < u64::MAX - 1,
        m.cycle_count < u64::MAX - 1,
        execute_spec(m, Instruction::Sw { rs2, rs1, offset }).0 is Ok,
        1 <= rd < 32,
        execute_spec(
            execute_spec(m, Instruction::Sw { rs2, rs1, offset }).1,
            Instruction::Lw { rd, rs1, offset },
        ).0 is Ok,
    ensures
        execute_spec(
            execute_spec(m, Instruction::Sw { rs2, rs1, offset }).1,
            Instruction::Lw { rd, rs1, offset },
        ).1.reg(rd) == m.reg(rs2),
{
    let m1 = execute_spec(m, Instruction::Sw { rs2, rs1, offset }).1;
    let v = m.reg(rs2);
    assert(word_of(byte_of(v, 0), byte_of(v, 1), byte_of(v, 2), byte_of(v, 3)) == v)
        by (bit_vector);
    assert(m1.reg(rs1) == m.reg(rs1));
}

/// A byte stored by `SB` is what `LB` then loads from the same base register and offset:
/// the low byte of the stored register, sign-extended.
pub proof fn law_store_then_load_byte(m: CpuModel, rs1: u8, rs2: u8, rd: u8, offset: i32)
    requires
        m.wf(),
        !m.halted,
        m.instruction_count < u64::MAX - 1,
        m.cycle_count < u64::MAX - 1,
        execute_spec(m, Instruction::Sb { rs2, rs1, offset }).0 is Ok,
        1 <= rd < 32,
        execute_spec(
            execute_spec(m, Instruction::Sb { rs2, rs1, offset }).1,
            Instruction::Lb { rd, rs1, offset },
        ).0 is Ok,
    ensures
        execute_spec(
            execute_spec(m, Instruction::Sb { rs2, rs1, offset }).1,
            Instruction::Lb { rd, rs1, offset },
        ).1.reg(rd) == sign_extend(low_byte(m.reg(rs2))),
{
    let m1 = execute_spec(m, Instruction::Sb { rs2, rs1, offset }).1;
    assert(m1.reg(rs1) == m.reg(rs1));
}


fn bits(x: i32) -> (r: u32)
    ensures
        r == bits_of(x),
        signed(r) == x,
{
    if x < 0 {
        ((x as i64) + 0x1_0000_0000) as u32
    } else {
        x as u32
    }
}

fn advance_exec(cpu: &mut CpuState, next: Option<u32>) -> (r: Result<(), CpuError>)
    ensures
        (r, final(cpu)@) == advance(old(cpu)@, next),
{
    match next {
        Some(t) => cpu.set_pc(t),
        None => cpu.increment_pc(),
    }
}

fn write_then_advance_exec(cpu: &mut CpuState, rd: Register, v: u32, next: Option<u32>) -> (r: Result<(), CpuError>)
    ensures
        (r, final(cpu)@) == write_then_advance(old(cpu)@, rd, v, next),
{
    cpu.write_register(rd, v)?;
    advance_exec(cpu, next)
}

fn alu_finish_exec(cpu: &mut CpuState, op: AluOp, rd: Register, a: u32, b: u32) -> (r: Result<(), CpuError>)
    ensures
        (r, final(cpu)@) == alu_finish(old(cpu)@, op, rd, a, b),
{
    reveal(alu_result);
    let result = match op {
        AluOp::Add => a.wrapping_add(b),
        AluOp::Sub => a.wrapping_sub(b),
        AluOp::And => a & b,
        AluOp::Or => a | b,
        AluOp::Xor => a ^ b,
        AluOp::Slt => if to_signed(a) < to_signed(b) {
            1
        } else {
            0
        },
        AluOp::Sltu => if a < b {
            1
        } else {
            0
        },
        AluOp::Sll => {
            let k = b & 31u32;
            assert(k < 32) by (bit_vector)
                requires
                    k == b & 31u32,
            ;
            a << k
        },
        AluOp::Srl => {
            let k = b & 31u32;
            assert(k < 32) by (bit_vector)
                requires
                    k == b & 31u32,
            ;
            a >> k
        },
        AluOp::Sra => {
            let k = b & 31u32;
            assert(k < 32) by (bit_vector)
                requires
                    k == b & 31u32,
            ;
            ((a as i32) >> k) as u32
        },
    };
    cpu.write_register(rd, result)?;
    cpu.update_flags(result);
    match op {
        AluOp::Add => cpu.set_add_flags(a, b, result),
        AluOp::Sub => cpu.set_sub_flags(a, b, result),
        _ => {},
    }
    advance_exec(cpu, None)
}

fn alu_reg_exec(cpu: &mut CpuState, op: AluOp, rd: Register, rs1: Register, rs2: Register) -> (r: Result<(), CpuError>)
    ensures
        (r, final(cpu)@) == alu_reg_spec(old(cpu)@, op, rd, rs1, rs2),
{
    let a = cpu.read_register(rs1)?;
    let b = cpu.read_register(rs2)?;
    alu_finish_exec(cpu, op, rd, a, b)
}

fn alu_imm_exec(cpu: &mut CpuState, op: AluOp, rd: Register, rs1: Register, imm: Immediate) -> (r: Result<(), CpuError>)
    ensures
        (r, final(cpu)@) == alu_imm_spec(old(cpu)@, op, rd, rs1, imm),
{
    let a = cpu.read_register(rs1)?;
    let b = bits(imm);
    alu_finish_exec(cpu, op, rd, a, b)
}

fn load_word_exec(cpu: &mut CpuState, rd: Register, rs1: Register, offset: Immediate) -> (r: Result<(), CpuError>)
    ensures
        (r, final(cpu)@) == load_word_spec(old(cpu)@, rd, rs1, offset),
{
    let base = cpu.read_register(rs1)?;
    let addr = base.wrapping_add_signed(offset);
    let value = cpu.read_word(addr)?;
    write_then_advance_exec(cpu, rd, value, None)
}

fn load_byte_exec(cpu: &mut CpuState, rd: Register, rs1: Register, offset: Immediate) -> (r: Result<(), CpuError>)
    ensures
        (r, final(cpu)@) == load_byte_spec(old(cpu)@, rd, rs1, offset),
{
    let base = cpu.read_register(rs1)?;
    let addr = base.wrapping_add_signed(offset);
    let byte = cpu.read_byte(addr)?;
    let value: u32 = if byte >= 0x80 {
        byte as u32 + 0xFFFF_FF00
    } else {
        byte as u32
    };
    write_then_advance_exec(cpu, rd, value, None)
}

fn store_word_exec(cpu: &mut CpuState, rs2: Register, rs1: Register, offset: Immediate) -> (r: Result<(), CpuError>)
    ensures
        (r, final(cpu)@) == store_word_spec(old(cpu)@, rs2, rs1, offset),
{
    let base = cpu.read_register(rs1)?;
    let addr = base.wrapping_add_signed(offset);
    let value = cpu.read_register(rs2)?;
    cpu.write_word(addr, value)?;
    advance_exec(cpu, None)
}

fn store_byte_exec(cpu: &mut CpuState, rs2: Register, rs1: Register, offset: Immediate) -> (r: Result<(), CpuError>)
    ensures
        (r, final(cpu)@) == store_byte_spec(old(cpu)@, rs2, rs1, offset),
{
    let base = cpu.read_register(rs1)?;
    let addr = base.wrapping_add_signed(offset);
    let value = cpu.read_register(rs2)?;
    cpu.write_byte(addr, (value % 256) as u8)?;
    advance_exec(cpu, None)
}

fn branch_exec(cpu: &mut CpuState, op: BranchOp, rs1: Register, rs2: Register, offset: Immediate) -> (r: Result<(), CpuError>)
    ensures
        (r, final(cpu)@) == branch_spec(old(cpu)@, op, rs1, rs2, offset),
{
    let a = cpu.read_register(rs1)?;
    let b = cpu.read_register(rs2)?;
    let taken = match op {
        BranchOp::Eq => a == b,
        BranchOp::Ne => a != b,
        BranchOp::Lt => to_signed(a) < to_signed(b),
        BranchOp::Ge => to_signed(a) >= to_signed(b),
    };
    if taken {
        let target = cpu.pc().wrapping_add_signed(offset);
        advance_exec(cpu, Some(target))
    } else {
        advance_exec(cpu, None)
    }
}

fn jalr_exec(cpu: &mut CpuState, rd: Register, rs1: Register, offset: Immediate) -> (r: Result<(), CpuError>)
    ensures
        (r, final(cpu)@) == jalr_spec(old(cpu)@, rd, rs1, offset),
{
    let return_addr = cpu.pc() + 4;
    let base = cpu.read_register(rs1)?;
    let target = base.wrapping_add_signed(offset);
    write_then_advance_exec(cpu, rd, return_addr, Some(target))
}

/// Executes one instruction. Returns whether execution should continue: `Ok(false)` after
/// `HALT`, `Ok(true)` otherwise.
pub fn execute(cpu: &mut CpuState, instruction: Instruction) -> (r: Result<bool, CpuError>)
    requires
        old(cpu)@.instruction_count < u64::MAX,
        old(cpu)@.cycle_count < u64::MAX,
    ensures
        (r, final(cpu)@) == execute_spec(old(cpu)@, instruction),
{
    if cpu.is_halted() {
        return Err(CpuError::Halted);
    }
    cpu.count_instruction();
    let step = match instruction {
        Instruction::Add { rd, rs1, rs2 } => alu_reg_exec(cpu, AluOp::Add, rd, rs1, rs2),
        Instruction::Sub { rd, rs1, rs2 } => alu_reg_exec(cpu, AluOp::Sub, rd, rs1, rs2),
        Instruction::And { rd, rs1, rs2 } => alu_reg_exec(cpu, AluOp::And, rd, rs1, rs2),
        Instruction::Or { rd, rs1, rs2 } => alu_reg_exec(cpu, AluOp::Or, rd, rs1, rs2),
        Instruction::Xor { rd, rs1, rs2 } => alu_reg_exec(cpu, AluOp::Xor, rd, rs1, rs2),
        Instruction::Slt { rd, rs1, rs2 } => alu_reg_exec(cpu, AluOp::Slt, rd, rs1, rs2),
        Instruction::Sltu { rd, rs1, rs2 } => alu_reg_exec(cpu, AluOp::Sltu, rd, rs1, rs2),
        Instruction::Sll { rd, rs1, rs2 } => alu_reg_exec(cpu, AluOp::Sll, rd, rs1, rs2),
        Instruction::Srl { rd, rs1, rs2 } => alu_reg_exec(cpu, AluOp::Srl, rd, rs1, rs2),
        Instruction::Sra { rd, rs1, rs2 } => alu_reg_exec(cpu, AluOp::Sra, rd, rs1, rs2),
        Instruction::Addi { rd, rs1, imm } => alu_imm_exec(cpu, AluOp::Add, rd, rs1, imm),
        Instruction::Andi { rd, rs1, imm } => alu_imm_exec(cpu, AluOp::And, rd, rs1, imm),
        Instruction::Ori { rd, rs1, imm } => alu_imm_exec(cpu, AluOp::Or, rd, rs1, imm),
        Instruction::Xori { rd, rs1, imm } => alu_imm_exec(cpu, AluOp::Xor, rd, rs1, imm),
        Instruction::Slti { rd, rs1, imm } => alu_imm_exec(cpu, AluOp::Slt, rd, rs1, imm),
        Instruction::Lw { rd, rs1, offset } => load_word_exec(cpu, rd, rs1, offset),
        Instruction::Lb { rd, rs1, offset } => load_byte_exec(cpu, rd, rs1, offset),
        Instruction::Sw { rs2, rs1, offset } => store_word_exec(cpu, rs2, rs1, offset),
        Instruction::Sb { rs2, rs1, offset } => store_byte_exec(cpu, rs2, rs1, offset),
        Instruction::Beq { rs1, rs2, offset } => branch_exec(cpu, BranchOp::Eq, rs1, rs2, offset),
        Instruction::Bne { rs1, rs2, offset } => branch_exec(cpu, BranchOp::Ne, rs1, rs2, offset),
        Instruction::Blt { rs1, rs2, offset } => branch_exec(cpu, BranchOp::Lt, rs1, rs2, offset),
        Instruction::Bge { rs1, rs2, offset } => branch_exec(cpu, BranchOp::Ge, rs1, rs2, offset),
        Instruction::J { offset } => {
            let target = cpu.pc().wrapping_add_signed(offset);
            advance_exec(cpu, Some(target))
        },
        Instruction::Jal { rd, offset } => {
            let return_addr = cpu.pc() + 4;
            let target = cpu.pc().wrapping_add_signed(offset);
            write_then_advance_exec(cpu, rd, return_addr, Some(target))
        },
        Instruction::Jalr { rd, rs1, offset } => jalr_exec(cpu, rd, rs1, offset),
        Instruction::Lui { rd, imm } => {
            let value = bits(imm) << 12u32;
            write_then_advance_exec(cpu, rd, value, None)
        },
        Instruction::Auipc { rd, imm } => {
            let value = cpu.pc().wrapping_add(bits(imm) << 12u32);
            write_then_advance_exec(cpu, rd, value, None)
        },
        Instruction::Nop => advance_exec(cpu, None),
        Instruction::Halt => {
            cpu.halt();
            return Ok(false);
        },
    };
    step?;
    cpu.tick();
    Ok(!cpu.is_halted())
}

} // verus!
