//! An interactive session: a CPU with an assembled program that is stepped or run by the
//! program counter, and the challenge entry points, all with text errors.
use vstd::prelude::*;

use crate::assembler::{
    assembly, finishes, instruction_count, output_viewed, try_assemble, AsmError, AssemblyOutput,
    MAX_INSTRUCTIONS,
};
use crate::challenge::{
    case_reports, all_passed, get_all_challenges, load_and_halt, register_transfer,
    simple_addition, Challenge, ChallengeSpec, ValidationResult,
};
use crate::cpu::executor::{execute, execute_spec, lemma_execute_counts};
use crate::cpu::instruction::Instruction;
use crate::cpu::state::{CpuError, CpuModel, CpuState, NUM_REGISTERS};
use crate::text::{dec, push_chars, push_dec, push_str, string_from_chars};

verus! {

/// The most steps one `run` takes.
pub const MAX_RUN_STEPS: u64 = 10000;

/// A CPU and the program it runs.
#[derive(Debug)]
pub struct WasmCpu {
    cpu: CpuState,
    program: Vec<Instruction>,
}

/// The abstract value of a session.
pub struct SessionModel {
    pub cpu: CpuModel,
    pub program: Seq<Instruction>,
}

impl View for WasmCpu {
    type V = SessionModel;

    closed spec fn view(&self) -> SessionModel {
        SessionModel { cpu: self.cpu@, program: self.program@ }
    }
}

/// One step: the instruction at index `pc / 4` of the program is executed.
pub open spec fn step_outcome(m: CpuModel, program: Seq<Instruction>) -> (Result<bool, Seq<char>>, CpuModel) {
    let index = m.pc / 4;
    if index >= program.len() {
        (Err("PC out of program bounds"@), m)
    } else {
        let (r, m2) = execute_spec(m, program[index as int]);
        match r {
            Ok(go) => (Ok(go), m2),
            Err(e) => (Err("Execution error: "@ + e.text()), m2),
        }
    }
}

/// Steps after `done` earlier ones, until a step halts or fails, or `MAX_RUN_STEPS`
/// steps have run without halting. A run also stops, before the step, when a counter is
/// at its maximum and could not count the step.
pub open spec fn run_outcome(m: CpuModel, program: Seq<Instruction>, done: nat) -> (Result<(), Seq<char>>, CpuModel)
    decreases MAX_RUN_STEPS - done,
{
    if m.cycle_count == u64::MAX || m.instruction_count == u64::MAX {
        (Err("Counter overflow"@), m)
    } else {
    let (r, m2) = step_outcome(m, program);
    match r {
        Err(e) => (Err(e), m2),
        Ok(go) => if !go {
            (Ok(()), m2)
        } else if done + 1 >= MAX_RUN_STEPS {
            (Err("Execution timeout (infinite loop?)"@), m2)
        } else {
            run_outcome(m2, program, done + 1)
        },
    }
    }
}

/// A run that ends without an error ended on `HALT`: the CPU is halted.
pub proof fn law_run_ends_halted(m: CpuModel, program: Seq<Instruction>, done: nat)
    ensures
        run_outcome(m, program, done).0 is Ok ==> run_outcome(m, program, done).1.halted,
    decreases MAX_RUN_STEPS - done,
{
    let (r, m2) = step_outcome(m, program);
    if let Ok(go) = r {
        if go && done + 1 < MAX_RUN_STEPS {
            law_run_ends_halted(m2, program, done + 1);
        }
    }
}

/// A run executes at most `MAX_RUN_STEPS` instructions, counting from step `done` on.
pub proof fn law_run_bounded(m: CpuModel, program: Seq<Instruction>, done: nat)
    requires
        done < MAX_RUN_STEPS,
        m.cycle_count + (MAX_RUN_STEPS - done) < u64::MAX,
        m.instruction_count + (MAX_RUN_STEPS - done) < u64::MAX,
    ensures
        run_outcome(m, program, done).1.instruction_count <= m.instruction_count + (
        MAX_RUN_STEPS - done),
        run_outcome(m, program, done).1.cycle_count <= m.cycle_count + (MAX_RUN_STEPS - done),
    decreases MAX_RUN_STEPS - done,
{
    let index = m.pc / 4;
    if index < program.len() {
        lemma_execute_counts(m, program[index as int]);
    }
    let (r, m2) = step_outcome(m, program);
    if let Ok(go) = r {
        if go && done + 1 < MAX_RUN_STEPS {
            law_run_bounded(m2, program, done + 1);
        }
    }
}

fn error_text(prefix: &str, e: &CpuError) -> (s: String)
    ensures
        s@ == prefix@ + e.text(),
{
    let mut out: Vec<char> = Vec::new();
    push_str(&mut out, prefix);
    e.push_text(&mut out);
    string_from_chars(out.as_slice())
}

fn copy_instructions(v: &Vec<Instruction>) -> (r: Vec<Instruction>)
    ensures
        r@ == v@,
{
    let mut r: Vec<Instruction> = Vec::new();
    let mut i: usize = 0;
    while i < v.len()
        invariant
            i <= v@.len(),
            r@ == v@.take(i as int),
        decreases v@.len() - i,
    {
        r.push(v[i]);
        i = i + 1;
        proof {
            assert(r@ =~= v@.take(i as int));
        }
    }
    proof {
        assert(v@.take(v@.len() as int) =~= v@);
    }
    r
}

impl Clone for WasmCpu {
    fn clone(&self) -> (c: Self)
        ensures
            c@ == self@,
    {
        WasmCpu { cpu: self.cpu.clone(), program: copy_instructions(&self.program) }
    }
}

impl WasmCpu {
    /// A new CPU and an empty program.
    pub fn new() -> (s: Self)
        ensures
            s@.cpu == CpuModel::initial(),
            s@.program == Seq::<Instruction>::empty(),
    {
        WasmCpu { cpu: CpuState::new(), program: Vec::new() }
    }

    /// The CPU.
    pub fn cpu(&self) -> (c: &CpuState)
        ensures
            c@ == self@.cpu,
    {
        &self.cpu
    }

    /// Resets the CPU (memory and program stay).
    pub fn reset(&mut self)
        ensures
            final(self)@.cpu == old(self)@.cpu.reset(),
            final(self)@.program == old(self)@.program,
    {
        self.cpu.reset();
    }

    /// Assembles a source and, when it assembles, makes its instructions the program.
    /// Errors come back as their message. `None` for a source on which assembly stops.
    pub fn assemble(&mut self, source: &str) -> (r: Option<Result<AssemblyOutput, String>>)
        requires
            instruction_count(source@) < MAX_INSTRUCTIONS,
        ensures
            r is None <==> !finishes(source@),
            r is None ==> final(self)@ == old(self)@,
            r matches Some(Ok(o)) ==> assembly(source@) == Ok::<
                (Seq<Instruction>, Seq<Seq<char>>),
                AsmError,
            >((o.instructions@, o.disassembly.deep_view())) && final(self)@.program
                == o.instructions@ && final(self)@.cpu == old(self)@.cpu,
            r matches Some(Err(s)) ==> assembly(source@) matches Err(e) && s@ == e.text()
                && final(self)@ == old(self)@,
    {
        match try_assemble(source) {
            None => None,
            Some(Ok(output)) => {
                self.program = copy_instructions(&output.instructions);
                Some(Ok(output))
            },
            Some(Err(e)) => Some(Err(e.to_string())),
        }
    }

    /// Executes the instruction the program counter points at (index `pc / 4`).
    pub fn step(&mut self) -> (r: Result<bool, String>)
        requires
            old(self)@.cpu.cycle_count < u64::MAX,
            old(self)@.cpu.instruction_count < u64::MAX,
        ensures
            ({
                let (want, after) = step_outcome(old(self)@.cpu, old(self)@.program);
                &&& final(self)@.cpu == after
                &&& final(self)@.program == old(self)@.program
                &&& match r {
                    Ok(go) => want == Ok::<bool, Seq<char>>(go),
                    Err(s) => want == Err::<bool, Seq<char>>(s@),
                }
            }),
    {
        let index = (self.cpu.pc() / 4) as usize;
        if index >= self.program.len() {
            return Err("PC out of program bounds".to_owned());
        }
        let inst = self.program[index];
        match execute(&mut self.cpu, inst) {
            Ok(go) => Ok(go),
            Err(e) => Err(error_text("Execution error: ", &e)),
        }
    }

    /// Steps until `HALT`, an error, or `MAX_RUN_STEPS` steps without halting; a counter
    /// at its maximum stops the run with `Counter overflow`.
    pub fn run(&mut self) -> (r: Result<(), String>)
        ensures
            ({
                let (want, after) = run_outcome(old(self)@.cpu, old(self)@.program, 0);
                &&& final(self)@.cpu == after
                &&& final(self)@.program == old(self)@.program
                &&& match r {
                    Ok(()) => want == Ok::<(), Seq<char>>(()),
                    Err(s) => want == Err::<(), Seq<char>>(s@),
                }
            }),
    {
        let ghost whole = run_outcome(old(self)@.cpu, old(self)@.program, 0);
        let mut iterations: u64 = 0;
        loop
            invariant
                iterations < MAX_RUN_STEPS,
                self@.program == old(self)@.program,
                whole == run_outcome(old(self)@.cpu, old(self)@.program, 0),
                whole == run_outcome(self@.cpu, self@.program, iterations as nat),
            decreases MAX_RUN_STEPS - iterations,
        {
            if self.cpu.cycle_count() == u64::MAX || self.cpu.instruction_count() == u64::MAX {
                return Err("Counter overflow".to_owned());
            }
            match self.step() {
                Ok(go) => {
                    if !go {
                        return Ok(());
                    }
                },
                Err(e) => {
                    return Err(e);
                },
            }
            iterations = iterations + 1;
            if iterations >= MAX_RUN_STEPS {
                return Err("Execution timeout (infinite loop?)".to_owned());
            }
        }
    }

    /// Whether the CPU is halted.
    pub fn is_halted(&self) -> (h: bool)
        ensures
            h == self@.cpu.halted,
    {
        self.cpu.is_halted()
    }

    /// The program counter.
    pub fn pc(&self) -> (pc: u32)
        ensures
            pc == self@.cpu.pc,
    {
        self.cpu.pc()
    }

    /// The cycle count, truncated to 32 bits.
    pub fn cycle_count(&self) -> (n: u32)
        ensures
            n == self@.cpu.cycle_count % 0x1_0000_0000,
    {
        (self.cpu.cycle_count() % 0x1_0000_0000) as u32
    }

    /// The instruction count, truncated to 32 bits.
    pub fn instruction_count(&self) -> (n: u32)
        ensures
            n == self@.cpu.instruction_count % 0x1_0000_0000,
    {
        (self.cpu.instruction_count() % 0x1_0000_0000) as u32
    }

    /// Reads a register; an error comes back as `Register error: ` and its message.
    pub fn read_register(&self, reg: u8) -> (r: Result<u32, String>)
        ensures
            match self@.cpu.read_register(reg) {
                Ok(v) => r == Ok::<u32, String>(v),
                Err(e) => r matches Err(s) && s@ == "Register error: "@ + e.text(),
            },
    {
        match self.cpu.read_register(reg) {
            Ok(v) => Ok(v),
            Err(e) => Err(error_text("Register error: ", &e)),
        }
    }

    /// All register values, `x0` to `x31`.
    pub fn get_registers(&self) -> (r: Vec<u32>)
        ensures
            r@ == self@.cpu.regs,
    {
        let regs = self.cpu.registers();
        let mut out: Vec<u32> = Vec::new();
        let mut i: usize = 0;
        while i < NUM_REGISTERS
            invariant
                i <= NUM_REGISTERS,
                regs@.len() == NUM_REGISTERS,
                out@ == regs@.take(i as int),
            decreases NUM_REGISTERS - i,
        {
            out.push(regs[i]);
            i = i + 1;
            proof {
                assert(out@ =~= regs@.take(i as int));
            }
        }
        proof {
            assert(regs@.take(NUM_REGISTERS as int) =~= regs@);
        }
        out
    }

    /// The status flags as text.
    pub fn get_flags(&self) -> (s: String)
        ensures
            s@ == self@.cpu.flags.text(),
    {
        self.cpu.flags().to_string()
    }

    /// Reads a byte of memory; an error comes back as `Memory error: ` and its message.
    pub fn read_memory(&self, addr: u32) -> (r: Result<u8, String>)
        ensures
            match self@.cpu.read_byte(addr) {
                Ok(v) => r == Ok::<u8, String>(v),
                Err(e) => r matches Err(s) && s@ == "Memory error: "@ + e.text(),
            },
    {
        match self.cpu.read_byte(addr) {
            Ok(v) => Ok(v),
            Err(e) => Err(error_text("Memory error: ", &e)),
        }
    }

    /// `len` bytes of memory from `start` on; an error comes back as `Memory error: ` and
    /// its message.
    pub fn get_memory_slice(&self, start: u32, len: u32) -> (r: Result<Vec<u8>, String>)
        ensures
            CpuModel::fits(start, len as nat) ==> (r matches Ok(v) && v@
                == self@.cpu.mem.subrange(start as int, start + len)),
            !CpuModel::fits(start, len as nat) ==> (r matches Err(s) && s@ == "Memory error: "@
                + CpuError::MemoryOutOfBounds(start, len as usize).text()),
    {
        match self.cpu.memory_slice(start, len as usize) {
            Ok(bytes) => Ok(vstd::slice::slice_to_vec(bytes)),
            Err(e) => Err(error_text("Memory error: ", &e)),
        }
    }
}

// ===== Challenges =====

/// The challenges, in order.
pub open spec fn challenge_list() -> Seq<ChallengeSpec> {
    seq![load_and_halt(), simple_addition(), register_transfer()]
}

/// `Challenge {id} not found`.
pub open spec fn not_found(id: u32) -> Seq<char> {
    "Challenge "@ + dec(id as nat) + " not found"@
}

/// The number of challenges.
pub fn get_challenge_count() -> (n: u32)
    ensures
        n == challenge_list().len(),
{
    let all = get_all_challenges();
    all.len() as u32
}

/// The challenge with the given id.
pub fn challenge_by_id(id: u32) -> (r: Result<Challenge, String>)
    ensures
        1 <= id <= 3 ==> (r matches Ok(c) && c@ == challenge_list()[id - 1]),
        !(1 <= id <= 3) ==> (r matches Err(s) && s@ == not_found(id)),
{
    let mut all = get_all_challenges();
    let mut i: usize = 0;
    while i < all.len()
        invariant
            all@.len() == 3,
            all@[0]@ == load_and_halt(),
            all@[1]@ == simple_addition(),
            all@[2]@ == register_transfer(),
            i <= 3,
            forall|j: int| 0 <= j < i ==> all@[j].id != id,
        decreases 3 - i,
    {
        if all[i].id == id {
            let c = all.remove(i);
            return Ok(c);
        }
        i = i + 1;
    }
    let mut out: Vec<char> = Vec::new();
    push_str(&mut out, "Challenge ");
    push_dec(&mut out, id as u64);
    push_str(&mut out, " not found");
    proof {
        assert(out@ =~= not_found(id));
    }
    Err(string_from_chars(out.as_slice()))
}

/// Assembles a source and validates it against a challenge. `None` for a source on which
/// assembly stops.
pub fn validate_challenge(challenge_id: u32, source: &str) -> (r: Option<Result<ValidationResult, String>>)
    requires
        instruction_count(source@) < MAX_INSTRUCTIONS,
    ensures
        !(1 <= challenge_id <= 3) ==> (r matches Some(Err(s)) && s@ == not_found(challenge_id)),
        1 <= challenge_id <= 3 ==> (r is None <==> !finishes(source@)),
        1 <= challenge_id <= 3 && r is Some ==> match assembly(source@) {
            Err(e) => r matches Some(Err(s)) && s@ == "Assembly error: "@ + e.text(),
            Ok((insts, _)) => {
                let ch = challenge_list()[challenge_id - 1];
                match case_reports(ch.test_cases, insts, ch.max_cycles, ch.max_instructions) {
                    Err(m) => r matches Some(Err(s)) && s@ == "Validation error: "@ + m,
                    Ok(rs) => r matches Some(Ok(v)) && v.reports() == rs && v.challenge_id
                        == challenge_id && v.passed == all_passed(rs),
                }
            },
        },
{
    let challenge = match challenge_by_id(challenge_id) {
        Ok(c) => c,
        Err(e) => {
            return Some(Err(e));
        },
    };
    let output = match try_assemble(source) {
        None => {
            return None;
        },
        Some(Ok(o)) => o,
        Some(Err(e)) => {
            let mut out: Vec<char> = Vec::new();
            push_str(&mut out, "Assembly error: ");
            let text = e.to_string();
            push_str(&mut out, text.as_str());
            return Some(Err(string_from_chars(out.as_slice())));
        },
    };
    match challenge.validate_solution(output.instructions.as_slice()) {
        Ok(v) => Some(Ok(v)),
        Err(m) => {
            let mut out: Vec<char> = Vec::new();
            push_str(&mut out, "Validation error: ");
            push_str(&mut out, m.as_str());
            Some(Err(string_from_chars(out.as_slice())))
        },
    }
}

} // verus!
