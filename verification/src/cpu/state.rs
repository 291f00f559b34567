//! CPU state: 32 registers, the program counter, status flags, 1 KiB of byte-addressed
//! memory, the halt bit and two counters.
use vstd::prelude::*;

use super::instruction::Register;
use crate::text::{
    dec, hex, push_dec, push_hex, push_signed, push_str, signed_dec, string_from_chars,
    zero_padded,
};

verus! {

/// Number of general-purpose registers.
pub const NUM_REGISTERS: usize = 32;

/// Memory size in bytes.
pub const MEMORY_SIZE: usize = 1024;

/// Start of the code region.
pub const CODE_START: u32 = 0x000;

/// End of the code region.
pub const CODE_END: u32 = 0x0FF;

/// Start of the data region.
pub const DATA_START: u32 = 0x100;

/// End of the data region.
pub const DATA_END: u32 = 0x1FF;

/// Start of the stack region.
pub const STACK_START: u32 = 0x200;

/// End of the stack region.
pub const STACK_END: u32 = 0x2FF;

/// Start of the heap region.
pub const HEAP_START: u32 = 0x300;

/// End of the heap region.
pub const HEAP_END: u32 = 0x3FF;

/// Initial stack pointer (top of the stack, which grows down).
pub const INITIAL_SP: u32 = STACK_END;

/// Why an operation of the CPU failed.
#[derive(Debug, Clone, Copy, PartialEq, Eq, Structural)]
pub enum CpuError {
    /// A register number of 32 or more.
    InvalidRegister(u8),
    /// An access of the given size that does not fit in memory.
    MemoryOutOfBounds(u32, usize),
    /// A word access at an address that is not a multiple of the given alignment.
    UnalignedAccess(u32, usize),
    /// Execution was asked of a halted CPU.
    Halted,
    /// A program counter outside memory.
    PcOutOfBounds(u32),
}

impl CpuError {
    /// The message of the error.
    pub open spec fn text(self) -> Seq<char> {
        match self {
            CpuError::InvalidRegister(r) => "Invalid register: x"@ + dec(r as nat)
                + " (must be 0-31)"@,
            CpuError::MemoryOutOfBounds(a, n) => "Memory access out of bounds: 0x"@ + hex(
                a as nat,
            ) + " (size: "@ + dec(n as nat) + " bytes)"@,
            CpuError::UnalignedAccess(a, n) => "Unaligned memory access: 0x"@ + hex(a as nat)
                + " (must be aligned to "@ + dec(n as nat) + " bytes)"@,
            CpuError::Halted => "CPU is halted"@,
            CpuError::PcOutOfBounds(a) => "Program counter out of bounds: 0x"@ + hex(a as nat),
        }
    }

    /// Appends the message of the error.
    pub fn push_text(&self, out: &mut Vec<char>)
        ensures
            final(out)@ == old(out)@ + self.text(),
    {
        let ghost start = out@;
        match *self {
            CpuError::InvalidRegister(r) => {
                push_str(out, "Invalid register: x");
                push_dec(out, r as u64);
                push_str(out, " (must be 0-31)");
            },
            CpuError::MemoryOutOfBounds(a, n) => {
                push_str(out, "Memory access out of bounds: 0x");
                push_hex(out, a as u64, 0);
                push_str(out, " (size: ");
                push_dec(out, n as u64);
                push_str(out, " bytes)");
            },
            CpuError::UnalignedAccess(a, n) => {
                push_str(out, "Unaligned memory access: 0x");
                push_hex(out, a as u64, 0);
                push_str(out, " (must be aligned to ");
                push_dec(out, n as u64);
                push_str(out, " bytes)");
            },
            CpuError::Halted => {
                push_str(out, "CPU is halted");
            },
            CpuError::PcOutOfBounds(a) => {
                push_str(out, "Program counter out of bounds: 0x");
                push_hex(out, a as u64, 0);
            },
        }
        proof {
            assert(out@ =~= start + self.text());
        }
    }

    /// The message of the error, as `Display` renders it.
    pub fn to_string(&self) -> (s: String)
        ensures
            s@ == self.text(),
    {
        let mut out: Vec<char> = Vec::new();
        self.push_text(&mut out);
        proof {
            assert(out@ =~= self.text());
        }
        string_from_chars(&out)
    }
}

/// Status flags.
#[derive(Debug, Clone, Copy, PartialEq, Eq, Structural)]
pub struct StatusFlags {
    /// The last result was zero.
    pub zero: bool,
    /// The last result was negative (its top bit was set).
    pub negative: bool,
    /// Unsigned overflow or borrow.
    pub carry: bool,
    /// Signed overflow.
    pub overflow: bool,
}

/// All flags clear.
pub open spec fn clear_flags() -> StatusFlags {
    StatusFlags { zero: false, negative: false, carry: false, overflow: false }
}

impl Default for StatusFlags {
    fn default() -> (f: Self)
        ensures
            f == clear_flags(),
    {
        StatusFlags { zero: false, negative: false, carry: false, overflow: false }
    }
}

pub open spec fn bit_text(b: bool) -> Seq<char> {
    if b {
        "1"@
    } else {
        "0"@
    }
}

impl StatusFlags {
    /// `Z={z} N={n} C={c} V={v}`, each flag as 0 or 1.
    pub open spec fn text(self) -> Seq<char> {
        "Z="@ + bit_text(self.zero) + " N="@ + bit_text(self.negative) + " C="@ + bit_text(
            self.carry,
        ) + " V="@ + bit_text(self.overflow)
    }

    /// The flags as `Display` renders them.
    pub fn to_string(&self) -> (s: String)
        ensures
            s@ == self.text(),
    {
        let mut out: Vec<char> = Vec::new();
        push_str(&mut out, "Z=");
        push_bit(&mut out, self.zero);
        push_str(&mut out, " N=");
        push_bit(&mut out, self.negative);
        push_str(&mut out, " C=");
        push_bit(&mut out, self.carry);
        push_str(&mut out, " V=");
        push_bit(&mut out, self.overflow);
        proof {
            assert(out@ =~= self.text());
        }
        string_from_chars(&out)
    }
}

fn push_bit(out: &mut Vec<char>, b: bool)
    ensures
        final(out)@ == old(out)@ + bit_text(b),
{
    if b {
        push_str(out, "1");
    } else {
        push_str(out, "0");
    }
}

/// True when the top bit of `v` is set, that is when `v` is negative as an `i32`.
pub open spec fn sign_bit(v: u32) -> bool {
    v >= 0x8000_0000
}

/// `v` read as a two's-complement 32-bit integer.
pub open spec fn signed(v: u32) -> int {
    if v >= 0x8000_0000 {
        v - 0x1_0000_0000
    } else {
        v as int
    }
}

/// `v` as an `i32`.
pub fn to_signed(v: u32) -> (r: i32)
    ensures
        r == signed(v),
{
    if v >= 0x8000_0000 {
        ((v - 0x8000_0000) as i32) - 0x4000_0000 - 0x4000_0000
    } else {
        v as i32
    }
}

/// The little-endian word made of four bytes.
pub open spec fn word_of(b0: u8, b1: u8, b2: u8, b3: u8) -> u32 {
    (b0 as u32) | ((b1 as u32) << 8u32) | ((b2 as u32) << 16u32) | ((b3 as u32) << 24u32)
}

/// Byte `k` (0 is the least significant) of `v`.
pub open spec fn byte_of(v: u32, k: u32) -> u8 {
    ((v >> (8 * k)) & 0xff) as u8
}

/// The abstract state of the CPU.
pub struct CpuModel {
    pub regs: Seq<u32>,
    pub pc: u32,
    pub flags: StatusFlags,
    pub mem: Seq<u8>,
    pub halted: bool,
    pub cycle_count: u64,
    pub instruction_count: u64,
}

impl CpuModel {
    /// What every reachable state satisfies: the sizes, `x0` holding zero, and the program
    /// counter inside memory.
    pub open spec fn wf(self) -> bool {
        &&& self.regs.len() == NUM_REGISTERS
        &&& self.mem.len() == MEMORY_SIZE
        &&& self.regs[0] == 0
        &&& self.pc < MEMORY_SIZE
    }

    /// The state of a new CPU: all registers zero but the stack pointer, PC at the start of
    /// code, flags clear, memory zero, running, counters zero.
    pub open spec fn initial() -> CpuModel {
        CpuModel {
            regs: Seq::new(NUM_REGISTERS as nat, |i: int| 0u32).update(2, INITIAL_SP),
            pc: CODE_START,
            flags: clear_flags(),
            mem: Seq::new(MEMORY_SIZE as nat, |i: int| 0u8),
            halted: false,
            cycle_count: 0,
            instruction_count: 0,
        }
    }

    /// Reset keeps memory and restores everything else to its initial value.
    pub open spec fn reset(self) -> CpuModel {
        CpuModel { mem: self.mem, ..CpuModel::initial() }
    }

    /// The value a register reads as; `x0` reads as zero.
    pub open spec fn reg(self, r: u8) -> u32 {
        if r == 0 {
            0
        } else {
            self.regs[r as int]
        }
    }

    pub open spec fn read_register(self, r: Register) -> Result<u32, CpuError> {
        if r >= NUM_REGISTERS {
            Err(CpuError::InvalidRegister(r))
        } else {
            Ok(self.reg(r))
        }
    }

    /// A write to `x0` is accepted and changes nothing.
    pub open spec fn write_register(self, r: Register, v: u32) -> Result<CpuModel, CpuError> {
        if r >= NUM_REGISTERS {
            Err(CpuError::InvalidRegister(r))
        } else if r == 0 {
            Ok(self)
        } else {
            Ok(CpuModel { regs: self.regs.update(r as int, v), ..self })
        }
    }

    pub open spec fn read_byte(self, a: u32) -> Result<u8, CpuError> {
        if a >= MEMORY_SIZE {
            Err(CpuError::MemoryOutOfBounds(a, 1))
        } else {
            Ok(self.mem[a as int])
        }
    }

    pub open spec fn write_byte(self, a: u32, v: u8) -> Result<CpuModel, CpuError> {
        if a >= MEMORY_SIZE {
            Err(CpuError::MemoryOutOfBounds(a, 1))
        } else {
            Ok(CpuModel { mem: self.mem.update(a as int, v), ..self })
        }
    }

    /// Why a word access at `a` fails, if it does: alignment is checked first, then bounds.
    pub open spec fn word_access_error(a: u32) -> Option<CpuError> {
        if a % 4 != 0 {
            Some(CpuError::UnalignedAccess(a, 4))
        } else if a + 3 >= MEMORY_SIZE {
            Some(CpuError::MemoryOutOfBounds(a, 4))
        } else {
            None
        }
    }

    pub open spec fn read_word(self, a: u32) -> Result<u32, CpuError> {
        match Self::word_access_error(a) {
            Some(e) => Err(e),
            None => Ok(
                word_of(
                    self.mem[a as int],
                    self.mem[a + 1],
                    self.mem[a + 2],
                    self.mem[a + 3],
                ),
            ),
        }
    }

    pub open spec fn write_word(self, a: u32, v: u32) -> Result<CpuModel, CpuError> {
        match Self::word_access_error(a) {
            Some(e) => Err(e),
            None => Ok(
                CpuModel {
                    mem: self.mem.update(a as int, byte_of(v, 0)).update(
                        a + 1,
                        byte_of(v, 1),
                    ).update(a + 2, byte_of(v, 2)).update(a + 3, byte_of(v, 3)),
                    ..self
                },
            ),
        }
    }

    pub open spec fn set_pc(self, pc: u32) -> Result<CpuModel, CpuError> {
        if pc >= MEMORY_SIZE {
            Err(CpuError::PcOutOfBounds(pc))
        } else {
            Ok(CpuModel { pc, ..self })
        }
    }

    pub open spec fn increment_pc(self) -> Result<CpuModel, CpuError> {
        self.set_pc((self.pc + 4) as u32)
    }

    /// Zero and negative follow the result; carry and overflow stay.
    pub open spec fn update_flags(self, result: u32) -> CpuModel {
        CpuModel {
            flags: StatusFlags { zero: result == 0, negative: sign_bit(result), ..self.flags },
            ..self
        }
    }

    /// Carry is `result < a`; overflow is set when `a` and `b` have the same sign and the
    /// result's sign differs.
    pub open spec fn set_add_flags(self, a: u32, b: u32, result: u32) -> CpuModel {
        CpuModel {
            flags: StatusFlags {
                carry: result < a,
                overflow: sign_bit(a) == sign_bit(b) && sign_bit(a) != sign_bit(result),
                ..self.flags
            },
            ..self
        }
    }

    /// Carry is a borrow, `a < b`; overflow is set when `a` and `b` differ in sign and the
    /// result's sign differs from `a`'s.
    pub open spec fn set_sub_flags(self, a: u32, b: u32, result: u32) -> CpuModel {
        CpuModel {
            flags: StatusFlags {
                carry: a < b,
                overflow: sign_bit(a) != sign_bit(b) && sign_bit(a) != sign_bit(result),
                ..self.flags
            },
            ..self
        }
    }

    pub open spec fn tick(self) -> CpuModel {
        CpuModel { cycle_count: (self.cycle_count + 1) as u64, ..self }
    }

    pub open spec fn count_instruction(self) -> CpuModel {
        CpuModel { instruction_count: (self.instruction_count + 1) as u64, ..self }
    }

    /// Whether `len` bytes from `start` fit in memory.
    pub open spec fn fits(start: u32, len: nat) -> bool {
        start + len <= MEMORY_SIZE
    }

    /// Memory with `data` copied in from `addr` on.
    pub open spec fn loaded(self, addr: u32, data: Seq<u8>) -> CpuModel {
        CpuModel {
            mem: Seq::new(
                MEMORY_SIZE as nat,
                |i: int|
                    if addr <= i < addr + data.len() {
                        data[i - addr]
                    } else {
                        self.mem[i]
                    },
            ),
            ..self
        }
    }
}

// ===== Laws of the state =====

/// `x0` is hardwired to zero: it reads as zero in every state, and a write to it is
/// accepted and changes nothing.
pub proof fn law_x0_hardwired(m: CpuModel, v: u32)
    ensures
        m.read_register(0) == Ok::<u32, CpuError>(0),
        m.write_register(0, v) == Ok::<CpuModel, CpuError>(m),
{
}

/// A register other than `x0` reads back what was written to it, and every other register
/// keeps its value.
pub proof fn law_register_write_read(m: CpuModel, r: u8, v: u32, other: u8)
    requires
        m.wf(),
        1 <= r < NUM_REGISTERS,
        other != r,
    ensures
        m.write_register(r, v) matches Ok(m2) && m2.read_register(r) == Ok::<u32, CpuError>(v)
            && m2.read_register(other) == m.read_register(other) && m2.wf(),
{
}

/// A byte written reads back, and every other byte keeps its value.
pub proof fn law_byte_write_read(m: CpuModel, a: u32, v: u8, other: u32)
    requires
        m.wf(),
        a < MEMORY_SIZE,
        other != a,
    ensures
        m.write_byte(a, v) matches Ok(m2) && m2.read_byte(a) == Ok::<u8, CpuError>(v)
            && m2.read_byte(other) == m.read_byte(other) && m2.wf(),
{
}

/// A word written reads back at the same address (the four bytes are stored
/// little-endian), and every byte outside it keeps its value.
pub proof fn law_word_write_read(m: CpuModel, a: u32, v: u32, other: u32)
    requires
        m.wf(),
        CpuModel::word_access_error(a) is None,
        !(a <= other < a + 4),
    ensures
        m.write_word(a, v) matches Ok(m2) && m2.read_word(a) == Ok::<u32, CpuError>(v)
            && m2.read_byte(other) == m.read_byte(other) && m2.wf(),
{
    assert(word_of(byte_of(v, 0), byte_of(v, 1), byte_of(v, 2), byte_of(v, 3)) == v)
        by (bit_vector);
}

/// A word access at an address fails exactly when the address is unaligned or the word
/// would reach past memory; both kinds of access check alike.
pub proof fn law_word_access_checks(m: CpuModel, a: u32, v: u32)
    ensures
        m.read_word(a) is Err <==> CpuModel::word_access_error(a) is Some,
        m.write_word(a, v) is Err <==> m.read_word(a) is Err,
{
}

/// Reset keeps memory, restores everything else, and a second reset changes nothing more;
/// a new CPU is well formed.
pub proof fn law_reset(m: CpuModel)
    ensures
        m.reset().mem == m.mem,
        m.reset().reset() == m.reset(),
        m.wf() ==> m.reset().wf(),
        CpuModel::initial().wf(),
{
    assert(CpuModel::initial().regs[0] == 0);
}

/// A loaded program reads back byte by byte, and memory outside it is kept.
pub proof fn law_load_read(m: CpuModel, addr: u32, data: Seq<u8>, a: u32)
    requires
        m.wf(),
        CpuModel::fits(addr, data.len()),
        a < MEMORY_SIZE,
    ensures
        m.loaded(addr, data).read_byte(a) == if addr <= a < addr + data.len() {
            Ok::<u8, CpuError>(data[a - addr])
        } else {
            m.read_byte(a)
        },
        m.loaded(addr, data).wf(),
{
}

/// The CPU.
#[derive(Debug)]
pub struct CpuState {
    registers: [u32; NUM_REGISTERS],
    pc: u32,
    flags: StatusFlags,
    memory: [u8; MEMORY_SIZE],
    halted: bool,
    cycle_count: u64,
    instruction_count: u64,
}

impl View for CpuState {
    type V = CpuModel;

    closed spec fn view(&self) -> CpuModel {
        CpuModel {
            regs: self.registers@,
            pc: self.pc,
            flags: self.flags,
            mem: self.memory@,
            halted: self.halted,
            cycle_count: self.cycle_count,
            instruction_count: self.instruction_count,
        }
    }
}

impl Clone for CpuState {
    fn clone(&self) -> (c: Self)
        ensures
            c@ == self@,
    {
        proof {
            use_type_invariant(self);
        }
        CpuState {
            registers: self.registers,
            pc: self.pc,
            flags: self.flags,
            memory: self.memory,
            halted: self.halted,
            cycle_count: self.cycle_count,
            instruction_count: self.instruction_count,
        }
    }
}

impl Default for CpuState {
    fn default() -> (cpu: Self)
        ensures
            cpu@ == CpuModel::initial(),
    {
        Self::new()
    }
}

impl CpuState {
    #[verifier::type_invariant]
    closed spec fn inv(self) -> bool {
        &&& self.registers[0] == 0
        &&& self.pc < MEMORY_SIZE
    }

    /// Every reachable state is well formed.
    pub fn lemma_wf(&self)
        ensures
            self@.wf(),
    {
        proof {
            use_type_invariant(self);
        }
    }

    /// A new CPU in its initial state.
    pub fn new() -> (cpu: Self)
        ensures
            cpu@ == CpuModel::initial(),
    {
        let mut registers = [0u32; 32];
        registers[2] = INITIAL_SP;
        let cpu = CpuState {
            registers,
            pc: CODE_START,
            flags: StatusFlags::default(),
            memory: [0u8; 1024],
            halted: false,
            cycle_count: 0,
            instruction_count: 0,
        };
        proof {
            assert(cpu@.regs =~= CpuModel::initial().regs);
            assert(cpu@.mem =~= CpuModel::initial().mem);
        }
        cpu
    }

    /// Restores the initial state but keeps memory, so that a loaded program stays.
    pub fn reset(&mut self)
        ensures
            final(self)@ == old(self)@.reset(),
    {
        proof {
            use_type_invariant(&*self);
        }
        self.registers = [0u32; 32];
        self.registers[2] = INITIAL_SP;
        self.pc = CODE_START;
        self.flags = StatusFlags::default();
        self.halted = false;
        self.cycle_count = 0;
        self.instruction_count = 0;
        proof {
            assert(self@.regs =~= CpuModel::initial().regs);
        }
    }

    /// Resets and clears memory.
    pub fn hard_reset(&mut self)
        ensures
            final(self)@ == CpuModel::initial(),
    {
        proof {
            use_type_invariant(&*self);
        }
        self.reset();
        self.memory = [0u8; 1024];
        proof {
            assert(self@.mem =~= CpuModel::initial().mem);
        }
    }

    /// Reads a register; `x0` reads as zero.
    pub fn read_register(&self, reg: Register) -> (r: Result<u32, CpuError>)
        ensures
            r == self@.read_register(reg),
    {
        proof {
            use_type_invariant(self);
        }
        if reg >= NUM_REGISTERS as u8 {
            return Err(CpuError::InvalidRegister(reg));
        }
        if reg == 0 {
            Ok(0)
        } else {
            Ok(self.registers[reg as usize])
        }
    }

    /// Writes a register; a write to `x0` is ignored.
    pub fn write_register(&mut self, reg: Register, value: u32) -> (r: Result<(), CpuError>)
        ensures
            match old(self)@.write_register(reg, value) {
                Ok(m) => r == Ok::<(), CpuError>(()) && final(self)@ == m,
                Err(e) => r == Err::<(), CpuError>(e) && final(self)@ == old(self)@,
            },
    {
        proof {
            use_type_invariant(&*self);
        }
        if reg >= NUM_REGISTERS as u8 {
            return Err(CpuError::InvalidRegister(reg));
        }
        if reg != 0 {
            self.registers[reg as usize] = value;
        }
        Ok(())
    }

    /// The stack pointer, `x2`.
    pub fn stack_pointer(&self) -> (sp: u32)
        ensures
            sp == self@.regs[2],
    {
        self.registers[2]
    }

    /// Sets the stack pointer, `x2`.
    pub fn set_stack_pointer(&mut self, sp: u32)
        ensures
            final(self)@ == (CpuModel { regs: old(self)@.regs.update(2, sp), ..old(self)@ }),
    {
        proof {
            use_type_invariant(&*self);
        }
        self.registers[2] = sp;
    }

    /// Reads a byte of memory.
    pub fn read_byte(&self, addr: u32) -> (r: Result<u8, CpuError>)
        ensures
            r == self@.read_byte(addr),
    {
        if addr >= MEMORY_SIZE as u32 {
            return Err(CpuError::MemoryOutOfBounds(addr, 1));
        }
        Ok(self.memory[addr as usize])
    }

    /// Writes a byte of memory.
    pub fn write_byte(&mut self, addr: u32, value: u8) -> (r: Result<(), CpuError>)
        ensures
            match old(self)@.write_byte(addr, value) {
                Ok(m) => r == Ok::<(), CpuError>(()) && final(self)@ == m,
                Err(e) => r == Err::<(), CpuError>(e) && final(self)@ == old(self)@,
            },
    {
        proof {
            use_type_invariant(&*self);
        }
        if addr >= MEMORY_SIZE as u32 {
            return Err(CpuError::MemoryOutOfBounds(addr, 1));
        }
        self.memory[addr as usize] = value;
        Ok(())
    }

    /// Reads a little-endian word of memory at a 4-aligned address.
    pub fn read_word(&self, addr: u32) -> (r: Result<u32, CpuError>)
        ensures
            r == self@.read_word(addr),
    {
        if addr % 4 != 0 {
            return Err(CpuError::UnalignedAccess(addr, 4));
        }
        if addr + 3 >= MEMORY_SIZE as u32 {
            return Err(CpuError::MemoryOutOfBounds(addr, 4));
        }
        let a = addr as usize;
        let b0 = self.memory[a];
        let b1 = self.memory[a + 1];
        let b2 = self.memory[a + 2];
        let b3 = self.memory[a + 3];
        Ok((b0 as u32) | ((b1 as u32) << 8u32) | ((b2 as u32) << 16u32) | ((b3 as u32) << 24u32))
    }

    /// Writes a little-endian word of memory at a 4-aligned address.
    pub fn write_word(&mut self, addr: u32, value: u32) -> (r: Result<(), CpuError>)
        ensures
            match old(self)@.write_word(addr, value) {
                Ok(m) => r == Ok::<(), CpuError>(()) && final(self)@ == m,
                Err(e) => r == Err::<(), CpuError>(e) && final(self)@ == old(self)@,
            },
    {
        proof {
            use_type_invariant(&*self);
        }
        if addr % 4 != 0 {
            return Err(CpuError::UnalignedAccess(addr, 4));
        }
        if addr + 3 >= MEMORY_SIZE as u32 {
            return Err(CpuError::MemoryOutOfBounds(addr, 4));
        }
        let a = addr as usize;
        self.memory[a] = (value & 0xff) as u8;
        self.memory[a + 1] = ((value >> 8u32) & 0xff) as u8;
        self.memory[a + 2] = ((value >> 16u32) & 0xff) as u8;
        self.memory[a + 3] = ((value >> 24u32) & 0xff) as u8;
        proof {
            assert(((value & 0xff) as u8) == byte_of(value, 0)) by (bit_vector);
            assert((((value >> 8u32) & 0xff) as u8) == byte_of(value, 1)) by (bit_vector);
            assert((((value >> 16u32) & 0xff) as u8) == byte_of(value, 2)) by (bit_vector);
            assert((((value >> 24u32) & 0xff) as u8) == byte_of(value, 3)) by (bit_vector);
            assert(self@.mem =~= old(self)@.write_word(addr, value)->Ok_0.mem);
        }
        Ok(())
    }

    /// Copies `data` into memory from `addr` on, if it fits.
    pub fn load_program(&mut self, addr: u32, data: &[u8]) -> (r: Result<(), CpuError>)
        ensures
            CpuModel::fits(addr, data@.len()) ==> r is Ok && final(self)@ == old(self)@.loaded(
                addr,
                data@,
            ),
            !CpuModel::fits(addr, data@.len()) ==> r == Err::<(), CpuError>(
                CpuError::MemoryOutOfBounds(addr, data@.len() as usize),
            ) && final(self)@ == old(self)@,
    {
        proof {
            use_type_invariant(&*self);
        }
        if data.len() > MEMORY_SIZE || addr as usize > MEMORY_SIZE - data.len() {
            return Err(CpuError::MemoryOutOfBounds(addr, data.len()));
        }
        let start = addr as usize;
        let mut i: usize = 0;
        while i < data.len()
            invariant
                start == addr,
                start + data@.len() <= MEMORY_SIZE,
                self.registers[0] == 0,
                self.pc < MEMORY_SIZE,
                i <= data@.len(),
                self@ == (CpuModel { mem: self@.mem, ..old(self)@ }),
                self@.mem.len() == MEMORY_SIZE,
                forall|j: int|
                    0 <= j < MEMORY_SIZE ==> #[trigger] self@.mem[j] == if start <= j < start + i {
                        data@[j - start]
                    } else {
                        old(self)@.mem[j]
                    },
            decreases data@.len() - i,
        {
            self.memory[start + i] = data[i];
            i = i + 1;
        }
        proof {
            assert(self@.mem =~= old(self)@.loaded(addr, data@).mem);
        }
        Ok(())
    }

    /// The program counter.
    pub fn pc(&self) -> (pc: u32)
        ensures
            pc == self@.pc,
            pc < MEMORY_SIZE,
    {
        proof {
            use_type_invariant(self);
        }
        self.pc
    }

    /// Sets the program counter, which must lie inside memory.
    pub fn set_pc(&mut self, pc: u32) -> (r: Result<(), CpuError>)
        ensures
            match old(self)@.set_pc(pc) {
                Ok(m) => r == Ok::<(), CpuError>(()) && final(self)@ == m,
                Err(e) => r == Err::<(), CpuError>(e) && final(self)@ == old(self)@,
            },
    {
        proof {
            use_type_invariant(&*self);
        }
        if pc >= MEMORY_SIZE as u32 {
            return Err(CpuError::PcOutOfBounds(pc));
        }
        self.pc = pc;
        Ok(())
    }

    /// Advances the program counter by one instruction (4 bytes).
    pub fn increment_pc(&mut self) -> (r: Result<(), CpuError>)
        ensures
            match old(self)@.increment_pc() {
                Ok(m) => r == Ok::<(), CpuError>(()) && final(self)@ == m,
                Err(e) => r == Err::<(), CpuError>(e) && final(self)@ == old(self)@,
            },
    {
        proof {
            use_type_invariant(&*self);
        }
        self.set_pc(self.pc + 4)
    }

    /// The status flags.
    pub fn flags(&self) -> (f: StatusFlags)
        ensures
            f == self@.flags,
    {
        self.flags
    }

    /// Sets zero and negative from a result.
    pub fn update_flags(&mut self, result: u32)
        ensures
            final(self)@ == old(self)@.update_flags(result),
    {
        proof {
            use_type_invariant(&*self);
        }
        self.flags.zero = result == 0;
        self.flags.negative = result >= 0x8000_0000;
    }

    /// Sets carry and overflow for an addition `a + b = result`.
    pub fn set_add_flags(&mut self, a: u32, b: u32, result: u32)
        ensures
            final(self)@ == old(self)@.set_add_flags(a, b, result),
    {
        proof {
            use_type_invariant(&*self);
        }
        self.flags.carry = result < a;
        let a_sign = a >= 0x8000_0000;
        let b_sign = b >= 0x8000_0000;
        let r_sign = result >= 0x8000_0000;
        self.flags.overflow = (a_sign == b_sign) && (a_sign != r_sign);
    }

    /// Sets carry and overflow for a subtraction `a - b = result`.
    pub fn set_sub_flags(&mut self, a: u32, b: u32, result: u32)
        ensures
            final(self)@ == old(self)@.set_sub_flags(a, b, result),
    {
        proof {
            use_type_invariant(&*self);
        }
        self.flags.carry = a < b;
        let a_sign = a >= 0x8000_0000;
        let b_sign = b >= 0x8000_0000;
        let r_sign = result >= 0x8000_0000;
        self.flags.overflow = (a_sign != b_sign) && (a_sign != r_sign);
    }

    /// Whether the CPU is halted.
    pub fn is_halted(&self) -> (h: bool)
        ensures
            h == self@.halted,
    {
        self.halted
    }

    /// Halts the CPU.
    pub fn halt(&mut self)
        ensures
            final(self)@ == (CpuModel { halted: true, ..old(self)@ }),
    {
        proof {
            use_type_invariant(&*self);
        }
        self.halted = true;
    }

    /// Lets a halted CPU run again.
    pub fn resume(&mut self)
        ensures
            final(self)@ == (CpuModel { halted: false, ..old(self)@ }),
    {
        proof {
            use_type_invariant(&*self);
        }
        self.halted = false;
    }

    /// The number of cycles run.
    pub fn cycle_count(&self) -> (n: u64)
        ensures
            n == self@.cycle_count,
    {
        self.cycle_count
    }

    /// The number of instructions begun.
    pub fn instruction_count(&self) -> (n: u64)
        ensures
            n == self@.instruction_count,
    {
        self.instruction_count
    }

    /// Counts one cycle.
    pub fn tick(&mut self)
        requires
            old(self)@.cycle_count < u64::MAX,
        ensures
            final(self)@ == old(self)@.tick(),
    {
        proof {
            use_type_invariant(&*self);
        }
        self.cycle_count = self.cycle_count + 1;
    }

    /// Counts one instruction.
    pub fn count_instruction(&mut self)
        requires
            old(self)@.instruction_count < u64::MAX,
        ensures
            final(self)@ == old(self)@.count_instruction(),
    {
        proof {
            use_type_invariant(&*self);
        }
        self.instruction_count = self.instruction_count + 1;
    }

    /// All registers, `x0` to `x31`.
    pub fn registers(&self) -> (r: &[u32; NUM_REGISTERS])
        ensures
            r@ == self@.regs,
    {
        &self.registers
    }

    /// All of memory.
    pub fn memory(&self) -> (m: &[u8; MEMORY_SIZE])
        ensures
            m@ == self@.mem,
    {
        &self.memory
    }

    /// `len` bytes of memory from `start` on, if they fit.
    pub fn memory_slice(&self, start: u32, len: usize) -> (r: Result<&[u8], CpuError>)
        ensures
            CpuModel::fits(start, len as nat) ==> r is Ok && r->Ok_0@ == self@.mem.subrange(
                start as int,
                start + len,
            ),
            !CpuModel::fits(start, len as nat) ==> r == Err::<&[u8], CpuError>(
                CpuError::MemoryOutOfBounds(start, len),
            ),
    {
        if len > MEMORY_SIZE || start as usize > MEMORY_SIZE - len {
            return Err(CpuError::MemoryOutOfBounds(start, len));
        }
        let s = start as usize;
        let all: &[u8] = self.memory.as_slice();
        Ok(&all[s..s + len])
    }
}

// ===== Text rendering of the whole state =====

/// The ABI name of register `i`, padded to four characters.
pub open spec fn abi_name(i: usize) -> Seq<char> {
    match i {
        0 => "zero"@,
        1 => "ra  "@,
        2 => "sp  "@,
        3 => "gp  "@,
        4 => "tp  "@,
        5 => "t0  "@,
        6 => "t1  "@,
        7 => "t2  "@,
        8 => "s0  "@,
        9 => "s1  "@,
        10 => "a0  "@,
        11 => "a1  "@,
        12 => "a2  "@,
        13 => "a3  "@,
        14 => "a4  "@,
        15 => "a5  "@,
        16 => "a6  "@,
        17 => "a7  "@,
        18 => "s2  "@,
        19 => "s3  "@,
        20 => "s4  "@,
        21 => "s5  "@,
        22 => "s6  "@,
        23 => "s7  "@,
        24 => "s8  "@,
        25 => "s9  "@,
        26 => "s10 "@,
        27 => "s11 "@,
        28 => "t3  "@,
        29 => "t4  "@,
        30 => "t5  "@,
        31 => "t6  "@,
        _ => "    "@,
    }
}

fn abi_name_text(i: usize) -> (s: &'static str)
    ensures
        s@ == abi_name(i),
{
    match i {
        0 => "zero",
        1 => "ra  ",
        2 => "sp  ",
        3 => "gp  ",
        4 => "tp  ",
        5 => "t0  ",
        6 => "t1  ",
        7 => "t2  ",
        8 => "s0  ",
        9 => "s1  ",
        10 => "a0  ",
        11 => "a1  ",
        12 => "a2  ",
        13 => "a3  ",
        14 => "a4  ",
        15 => "a5  ",
        16 => "a6  ",
        17 => "a7  ",
        18 => "s2  ",
        19 => "s3  ",
        20 => "s4  ",
        21 => "s5  ",
        22 => "s6  ",
        23 => "s7  ",
        24 => "s8  ",
        25 => "s9  ",
        26 => "s10 ",
        27 => "s11 ",
        28 => "t3  ",
        29 => "t4  ",
        30 => "t5  ",
        31 => "t6  ",
        _ => "    ",
    }
}

pub open spec fn bool_text(b: bool) -> Seq<char> {
    if b {
        "true"@
    } else {
        "false"@
    }
}

/// The line of register `i` with value `v`: number, ABI name, hex and signed decimal value.
pub open spec fn register_line(i: usize, v: u32) -> Seq<char> {
    "    x"@ + dec(i as nat) + " ("@ + abi_name(i) + "): 0x"@ + zero_padded(hex(v as nat), 8) + " ("@
        + signed_dec(signed(v)) + ")\n"@
}

/// The register lines of registers `0..n`.
pub open spec fn register_lines(regs: Seq<u32>, n: nat) -> Seq<char>
    decreases n,
{
    if n == 0 {
        seq![]
    } else {
        register_lines(regs, (n - 1) as nat) + register_line((n - 1) as usize, regs[n - 1])
    }
}

impl CpuModel {
    /// The state as text: PC, flags, counters, halt bit, then one line per register.
    pub open spec fn text(self) -> Seq<char> {
        "CPU State:\n"@ + "  PC:     0x"@ + zero_padded(hex(self.pc as nat), 4) + "\n"@
            + "  Flags:  "@ + self.flags.text() + "\n"@ + "  Cycles: "@ + dec(
            self.cycle_count as nat,
        ) + "\n"@ + "  Instr:  "@ + dec(self.instruction_count as nat) + "\n"@ + "  Halted: "@
            + bool_text(self.halted) + "\n"@ + "  Registers:\n"@ + register_lines(
            self.regs,
            NUM_REGISTERS as nat,
        )
    }
}

/// Appends the text line of register `i` holding `v`.
fn push_register_line(out: &mut Vec<char>, i: usize, v: u32)
    requires
        i < NUM_REGISTERS,
    ensures
        final(out)@ == old(out)@ + register_line(i, v),
{
    let ghost start = out@;
    push_str(out, "    x");
    push_dec(out, i as u64);
    push_str(out, " (");
    push_str(out, abi_name_text(i));
    push_str(out, "): 0x");
    push_hex(out, v as u64, 8);
    push_str(out, " (");
    push_signed(out, to_signed(v) as i64);
    push_str(out, ")\n");
    proof {
        assert(out@ =~= start + register_line(i, v));
    }
}

impl CpuState {
    /// The state as `Display` renders it.
    pub fn to_string(&self) -> (s: String)
        ensures
            s@ == self@.text(),
    {
        let mut out: Vec<char> = Vec::new();
        push_str(&mut out, "CPU State:\n");
        push_str(&mut out, "  PC:     0x");
        push_hex(&mut out, self.pc as u64, 4);
        push_str(&mut out, "\n");
        push_str(&mut out, "  Flags:  ");
        let flags = self.flags.to_string();
        push_str(&mut out, flags.as_str());
        push_str(&mut out, "\n");
        push_str(&mut out, "  Cycles: ");
        push_dec(&mut out, self.cycle_count);
        push_str(&mut out, "\n");
        push_str(&mut out, "  Instr:  ");
        push_dec(&mut out, self.instruction_count);
        push_str(&mut out, "\n");
        push_str(&mut out, "  Halted: ");
        if self.halted {
            push_str(&mut out, "true");
        } else {
            push_str(&mut out, "false");
        }
        push_str(&mut out, "\n");
        push_str(&mut out, "  Registers:\n");
        let ghost head = out@;
        let mut i: usize = 0;
        while i < NUM_REGISTERS
            invariant
                i <= NUM_REGISTERS,
                self.registers@.len() == NUM_REGISTERS,
                out@ == head + register_lines(self.registers@, i as nat),
            decreases NUM_REGISTERS - i,
        {
            let v = self.registers[i];
            push_register_line(&mut out, i, v);
            i = i + 1;
            proof {
                assert(out@ =~= head + register_lines(self.registers@, i as nat));
            }
        }
        proof {
            assert(out@ =~= self@.text());
        }
        string_from_chars(out.as_slice())
    }
}

} // verus!
