//! Challenges: puzzles whose test cases a program must pass.
use vstd::prelude::*;

use crate::cpu::executor::{execute, execute_spec, lemma_execute_counts};
use crate::cpu::instruction::Instruction;
use crate::cpu::state::{CpuError, CpuModel, CpuState};
use crate::text::{dec, hex, push_chars, push_dec, push_hex, push_str, string_from_chars, zero_padded};

verus! {

/// How hard a challenge is.
#[derive(Debug, Clone, Copy, PartialEq, Eq, Structural)]
pub enum Difficulty {
    Beginner,
    Intermediate,
    Advanced,
}

/// One test case of a challenge.
#[derive(Debug, Clone)]
pub struct TestCase {
    /// Name of the test case.
    pub name: String,
    /// Register values set before the run: (register, value).
    pub initial_registers: Vec<(u8, u32)>,
    /// Register values expected after the run: (register, value).
    pub expected_registers: Vec<(u8, u32)>,
    /// Memory bytes expected after the run: (address, value).
    pub expected_memory: Vec<(u32, u8)>,
}

/// The abstract value of a test case.
#[verifier::ext_equal]
pub struct CaseSpec {
    pub name: Seq<char>,
    pub initial_registers: Seq<(u8, u32)>,
    pub expected_registers: Seq<(u8, u32)>,
    pub expected_memory: Seq<(u32, u8)>,
}

impl View for TestCase {
    type V = CaseSpec;

    open spec fn view(&self) -> CaseSpec {
        CaseSpec {
            name: self.name@,
            initial_registers: self.initial_registers@,
            expected_registers: self.expected_registers@,
            expected_memory: self.expected_memory@,
        }
    }
}

/// `0x` and eight hex digits.
pub open spec fn word_hex(v: u32) -> Seq<char> {
    "0x"@ + zero_padded(hex(v as nat), 8)
}

/// What is wrong with register `reg` of `m` when `expected` is wanted, if anything.
pub open spec fn register_check(m: CpuModel, reg: u8, expected: u32) -> Option<Seq<char>> {
    match m.read_register(reg) {
        Err(e) => Some("Invalid register: "@ + e.text()),
        Ok(actual) => if actual != expected {
            Some(
                "Register x"@ + dec(reg as nat) + " mismatch: expected "@ + word_hex(expected)
                    + ", got "@ + word_hex(actual),
            )
        } else {
            None
        },
    }
}

/// What is wrong with the byte at `addr` of `m` when `expected` is wanted, if anything.
pub open spec fn memory_check(m: CpuModel, addr: u32, expected: u8) -> Option<Seq<char>> {
    match m.read_byte(addr) {
        Err(e) => Some("Invalid memory address: "@ + e.text()),
        Ok(actual) => if actual != expected {
            Some(
                "Memory[0x"@ + zero_padded(hex(addr as nat), 4) + "] mismatch: expected 0x"@
                    + zero_padded(hex(expected as nat), 2) + ", got 0x"@ + zero_padded(
                    hex(actual as nat),
                    2,
                ),
            )
        } else {
            None
        },
    }
}

/// The first failing register expectation, in order.
pub open spec fn register_failure(m: CpuModel, checks: Seq<(u8, u32)>) -> Option<Seq<char>>
    decreases checks.len(),
{
    if checks.len() == 0 {
        None
    } else {
        match register_failure(m, checks.drop_last()) {
            Some(x) => Some(x),
            None => register_check(m, checks.last().0, checks.last().1),
        }
    }
}

/// The first failing memory expectation, in order.
pub open spec fn memory_failure(m: CpuModel, checks: Seq<(u32, u8)>) -> Option<Seq<char>>
    decreases checks.len(),
{
    if checks.len() == 0 {
        None
    } else {
        match memory_failure(m, checks.drop_last()) {
            Some(x) => Some(x),
            None => memory_check(m, checks.last().0, checks.last().1),
        }
    }
}

/// What is wrong with a final state for a test case: registers are checked first, then
/// memory.
pub open spec fn case_failure(tc: CaseSpec, m: CpuModel) -> Option<Seq<char>> {
    match register_failure(m, tc.expected_registers) {
        Some(x) => Some(x),
        None => memory_failure(m, tc.expected_memory),
    }
}

fn push_word_hex(out: &mut Vec<char>, v: u32)
    ensures
        final(out)@ == old(out)@ + word_hex(v),
{
    push_str(out, "0x");
    push_hex(out, v as u64, 8);
    proof {
        assert(final(out)@ =~= old(out)@ + word_hex(v));
    }
}

fn check_register(cpu: &CpuState, reg: u8, expected: u32) -> (r: Option<String>)
    ensures
        match r {
            Some(s) => register_check(cpu@, reg, expected) == Some(s@),
            None => register_check(cpu@, reg, expected) is None,
        },
{
    let mut out: Vec<char> = Vec::new();
    match cpu.read_register(reg) {
        Err(e) => {
            push_str(&mut out, "Invalid register: ");
            e.push_text(&mut out);
        },
        Ok(actual) => {
            if actual == expected {
                return None;
            }
            push_str(&mut out, "Register x");
            push_dec(&mut out, reg as u64);
            push_str(&mut out, " mismatch: expected ");
            push_word_hex(&mut out, expected);
            push_str(&mut out, ", got ");
            push_word_hex(&mut out, actual);
        },
    }
    proof {
        assert(out@ =~= register_check(cpu@, reg, expected)->0);
    }
    Some(string_from_chars(out.as_slice()))
}

fn check_memory(cpu: &CpuState, addr: u32, expected: u8) -> (r: Option<String>)
    ensures
        match r {
            Some(s) => memory_check(cpu@, addr, expected) == Some(s@),
            None => memory_check(cpu@, addr, expected) is None,
        },
{
    let mut out: Vec<char> = Vec::new();
    match cpu.read_byte(addr) {
        Err(e) => {
            push_str(&mut out, "Invalid memory address: ");
            e.push_text(&mut out);
        },
        Ok(actual) => {
            if actual == expected {
                return None;
            }
            push_str(&mut out, "Memory[0x");
            push_hex(&mut out, addr as u64, 4);
            push_str(&mut out, "] mismatch: expected 0x");
            push_hex(&mut out, expected as u64, 2);
            push_str(&mut out, ", got 0x");
            push_hex(&mut out, actual as u64, 2);
        },
    }
    proof {
        assert(out@ =~= memory_check(cpu@, addr, expected)->0);
    }
    Some(string_from_chars(out.as_slice()))
}

impl TestCase {
    /// Checks a final CPU state against the expected registers, then the expected memory,
    /// and reports the first mismatch.
    pub fn validate(&self, cpu: &CpuState) -> (r: Result<(), String>)
        ensures
            r is Ok <==> case_failure(self@, cpu@) is None,
            r matches Err(s) ==> case_failure(self@, cpu@) == Some(s@),
    {
        let regs = &self.expected_registers;
        let mut i: usize = 0;
        while i < regs.len()
            invariant
                i <= regs@.len(),
                regs@ == self@.expected_registers,
                register_failure(cpu@, regs@.take(i as int)) is None,
            decreases regs@.len() - i,
        {
            let (reg, expected) = regs[i];
            proof {
                assert(regs@.take(i + 1).drop_last() =~= regs@.take(i as int));
                assert(regs@.take(i + 1).last() == (reg, expected));
            }
            match check_register(cpu, reg, expected) {
                Some(s) => {
                    proof {
                        lemma_register_failure_prefix(cpu@, regs@, (i + 1) as nat);
                    }
                    return Err(s);
                },
                None => {},
            }
            i = i + 1;
        }
        proof {
            assert(regs@.take(regs@.len() as int) =~= regs@);
        }
        let mem = &self.expected_memory;
        let mut j: usize = 0;
        while j < mem.len()
            invariant
                j <= mem@.len(),
                mem@ == self@.expected_memory,
                register_failure(cpu@, self@.expected_registers) is None,
                memory_failure(cpu@, mem@.take(j as int)) is None,
            decreases mem@.len() - j,
        {
            let (addr, expected) = mem[j];
            proof {
                assert(mem@.take(j + 1).drop_last() =~= mem@.take(j as int));
                assert(mem@.take(j + 1).last() == (addr, expected));
            }
            match check_memory(cpu, addr, expected) {
                Some(s) => {
                    proof {
                        lemma_memory_failure_prefix(cpu@, mem@, (j + 1) as nat);
                    }
                    return Err(s);
                },
                None => {},
            }
            j = j + 1;
        }
        proof {
            assert(mem@.take(mem@.len() as int) =~= mem@);
        }
        Ok(())
    }
}

proof fn lemma_register_failure_prefix(m: CpuModel, checks: Seq<(u8, u32)>, k: nat)
    requires
        k <= checks.len(),
        register_failure(m, checks.take(k as int)) is Some,
    ensures
        register_failure(m, checks) == register_failure(m, checks.take(k as int)),
    decreases checks.len() - k,
{
    if k < checks.len() {
        assert(checks.take((k + 1) as int).drop_last() =~= checks.take(k as int));
        lemma_register_failure_prefix(m, checks, k + 1);
    } else {
        assert(checks.take(k as int) =~= checks);
    }
}

proof fn lemma_memory_failure_prefix(m: CpuModel, checks: Seq<(u32, u8)>, k: nat)
    requires
        k <= checks.len(),
        memory_failure(m, checks.take(k as int)) is Some,
    ensures
        memory_failure(m, checks) == memory_failure(m, checks.take(k as int)),
    decreases checks.len() - k,
{
    if k < checks.len() {
        assert(checks.take((k + 1) as int).drop_last() =~= checks.take(k as int));
        lemma_memory_failure_prefix(m, checks, k + 1);
    } else {
        assert(checks.take(k as int) =~= checks);
    }
}


// ===== Running a program against a challenge =====

/// The most instructions one run may take.
pub const MAX_ITERATIONS: usize = 10000;

/// How a run of a program ends.
pub enum RunEnd {
    /// The program ran to its end or halted, in this state.
    Finished(CpuModel),
    /// The run reached the iteration bound.
    Timeout,
    /// An instruction failed.
    Failed(CpuError),
    /// The cycle count went over the limit: (count, limit).
    CycleLimit(u64, u64),
    /// The instruction count went over the limit: (count, limit).
    InstructionLimit(u64, u64),
}

/// A run from instruction `i` on: the program's instructions are executed in order, one
/// each, whatever the program counter says; `HALT` ends the run; after every other
/// instruction the limits are checked.
pub open spec fn run_from(m: CpuModel, program: Seq<Instruction>, i: nat, max_cycles: Option<u64>, max_instructions: Option<u64>) -> RunEnd
    decreases program.len() - i,
{
    if i >= program.len() {
        RunEnd::Finished(m)
    } else if i >= MAX_ITERATIONS {
        RunEnd::Timeout
    } else {
        let (r, m2) = execute_spec(m, program[i as int]);
        match r {
            Err(e) => RunEnd::Failed(e),
            Ok(go) => if !go {
                RunEnd::Finished(m2)
            } else if max_cycles matches Some(c) && m2.cycle_count > c {
                RunEnd::CycleLimit(m2.cycle_count, max_cycles->0)
            } else if max_instructions matches Some(n) && m2.instruction_count > n {
                RunEnd::InstructionLimit(m2.instruction_count, max_instructions->0)
            } else {
                run_from(m2, program, i + 1, max_cycles, max_instructions)
            },
        }
    }
}

/// Registers written in order; the first failure stops.
pub open spec fn setup(m: CpuModel, regs: Seq<(u8, u32)>) -> Result<CpuModel, CpuError>
    decreases regs.len(),
{
    if regs.len() == 0 {
        Ok(m)
    } else {
        match setup(m, regs.drop_last()) {
            Err(e) => Err(e),
            Ok(m2) => m2.write_register(regs.last().0, regs.last().1),
        }
    }
}

/// The report on one test case.
pub struct CaseReport {
    pub name: Seq<char>,
    pub passed: bool,
    pub error: Option<Seq<char>>,
    pub cycles: u64,
    pub instructions: u64,
}

/// `Test {n}: `.
pub open spec fn test_label(n: nat) -> Seq<char> {
    "Test "@ + dec(n) + ": "@
}

/// Test case number `n` (from 1): a new CPU, its registers set, the program run; then the
/// final state checked. A failure to set up or to run is an error for the whole
/// validation; a mismatch is a failed test.
pub open spec fn case_outcome(n: nat, tc: CaseSpec, program: Seq<Instruction>, max_cycles: Option<u64>, max_instructions: Option<u64>) -> Result<CaseReport, Seq<char>> {
    match setup(CpuModel::initial(), tc.initial_registers) {
        Err(e) => Err(test_label(n) + "Failed to set register: "@ + e.text()),
        Ok(m) => match run_from(m, program, 0, max_cycles, max_instructions) {
            RunEnd::Timeout => Err(test_label(n) + "Execution timeout (infinite loop?)"@),
            RunEnd::Failed(e) => Err(test_label(n) + "Execution error: "@ + e.text()),
            RunEnd::CycleLimit(c, limit) => Err(
                test_label(n) + "Exceeded cycle limit ("@ + dec(c as nat) + " > "@ + dec(
                    limit as nat,
                ) + ")"@,
            ),
            RunEnd::InstructionLimit(c, limit) => Err(
                test_label(n) + "Exceeded instruction limit ("@ + dec(c as nat) + " > "@ + dec(
                    limit as nat,
                ) + ")"@,
            ),
            RunEnd::Finished(f) => Ok(
                CaseReport {
                    name: tc.name,
                    passed: case_failure(tc, f) is None,
                    error: case_failure(tc, f),
                    cycles: f.cycle_count,
                    instructions: f.instruction_count,
                },
            ),
        },
    }
}

/// The reports on the test cases in order, or the first error.
pub open spec fn case_reports(cases: Seq<CaseSpec>, program: Seq<Instruction>, max_cycles: Option<u64>, max_instructions: Option<u64>) -> Result<Seq<CaseReport>, Seq<char>>
    decreases cases.len(),
{
    if cases.len() == 0 {
        Ok(seq![])
    } else {
        match case_reports(cases.drop_last(), program, max_cycles, max_instructions) {
            Err(e) => Err(e),
            Ok(rs) => match case_outcome(
                cases.len(),
                cases.last(),
                program,
                max_cycles,
                max_instructions,
            ) {
                Err(e) => Err(e),
                Ok(r) => Ok(rs.push(r)),
            },
        }
    }
}

/// Whether every report passed.
pub open spec fn all_passed(rs: Seq<CaseReport>) -> bool {
    forall|i: int| 0 <= i < rs.len() ==> #[trigger] rs[i].passed
}

// ===== Laws of validation =====

/// A validation that runs through reports on every test case, in order, under its name:
/// report `i` is the outcome of setting up case `i`'s registers on a new CPU and executing
/// the program in order from its first instruction (`case_outcome`).
pub proof fn law_one_report_per_case(cases: Seq<CaseSpec>, program: Seq<Instruction>, max_cycles: Option<u64>, max_instructions: Option<u64>)
    ensures
        case_reports(cases, program, max_cycles, max_instructions) matches Ok(rs) ==> rs.len()
            == cases.len() && forall|i: int| 0 <= i < rs.len() ==> #[trigger] rs[i].name
            == cases[i].name && case_outcome((i + 1) as nat, cases[i], program, max_cycles, max_instructions) == Ok::<CaseReport, Seq<char>>(rs[i]),
    decreases cases.len(),
{
    if cases.len() > 0 {
        law_one_report_per_case(cases.drop_last(), program, max_cycles, max_instructions);
        if let Ok(rs) = case_reports(cases, program, max_cycles, max_instructions) {
            let rs0 = case_reports(cases.drop_last(), program, max_cycles, max_instructions)->Ok_0;
            assert forall|i: int| 0 <= i < rs.len() implies #[trigger] rs[i].name == cases[i].name
                && case_outcome((i + 1) as nat, cases[i], program, max_cycles, max_instructions) == Ok::<CaseReport, Seq<char>>(rs[i]) by {
                if i < rs.len() - 1 {
                    assert(rs[i] == rs0[i]);
                    assert(cases[i] == cases.drop_last()[i]);
                }
            }
        }
    }
}

/// A register expectation is met exactly when the register reads as the expected value,
/// and a memory expectation exactly when the byte reads as the expected byte.
pub proof fn law_expectation_is_equality(m: CpuModel, reg: u8, value: u32, addr: u32, byte: u8)
    ensures
        register_check(m, reg, value) is None <==> m.read_register(reg) == Ok::<u32, CpuError>(value),
        memory_check(m, addr, byte) is None <==> m.read_byte(addr) == Ok::<u8, CpuError>(byte),
{
}

/// A final state meets a test case exactly when every expected register reads as its
/// value and every expected byte reads as its byte.
pub open spec fn meets(tc: CaseSpec, m: CpuModel) -> bool {
    &&& forall|i: int| 0 <= i < tc.expected_registers.len() ==> m.read_register(
        #[trigger] tc.expected_registers[i].0,
    ) == Ok::<u32, CpuError>(tc.expected_registers[i].1)
    &&& forall|j: int| 0 <= j < tc.expected_memory.len() ==> m.read_byte(
        #[trigger] tc.expected_memory[j].0,
    ) == Ok::<u8, CpuError>(tc.expected_memory[j].1)
}

/// The report on a test case whose run finishes: it names the case, is marked passed
/// exactly when it carries no error, and that is exactly when the final state meets the
/// case's expectations; its counters are those of the final state.
pub proof fn law_report_reflects_final_state(
    n: nat,
    tc: CaseSpec,
    program: Seq<Instruction>,
    max_cycles: Option<u64>,
    max_instructions: Option<u64>,
    f: CpuModel,
)
    requires
        setup(CpuModel::initial(), tc.initial_registers) matches Ok(m0) && run_from(
            m0,
            program,
            0,
            max_cycles,
            max_instructions,
        ) == RunEnd::Finished(f),
    ensures
        case_outcome(n, tc, program, max_cycles, max_instructions) matches Ok(r) && r.name == tc.name
            && (r.passed <==> r.error is None) && (r.passed <==> meets(tc, f)) && r.cycles
            == f.cycle_count && r.instructions == f.instruction_count,
{
    law_case_passes_iff_all_match(tc, f);
    assert forall|i: int| 0 <= i < tc.expected_registers.len() implies (register_check(
        f,
        tc.expected_registers[i].0,
        tc.expected_registers[i].1,
    ) is None <==> f.read_register(tc.expected_registers[i].0) == Ok::<u32, CpuError>(
        tc.expected_registers[i].1,
    )) by {}
    assert forall|j: int| 0 <= j < tc.expected_memory.len() implies (memory_check(
        f,
        tc.expected_memory[j].0,
        tc.expected_memory[j].1,
    ) is None <==> f.read_byte(tc.expected_memory[j].0) == Ok::<u8, CpuError>(
        tc.expected_memory[j].1,
    )) by {}
}

/// A test case yields a report exactly when its registers could be set and its run
/// finished; a failed setup, a timeout, an execution error or a broken limit yields an
/// error in place of a report.
pub proof fn law_report_only_after_finished_run(
    n: nat,
    tc: CaseSpec,
    program: Seq<Instruction>,
    max_cycles: Option<u64>,
    max_instructions: Option<u64>,
)
    ensures
        case_outcome(n, tc, program, max_cycles, max_instructions) is Ok <==> (setup(
            CpuModel::initial(),
            tc.initial_registers,
        ) matches Ok(m0) && run_from(m0, program, 0, max_cycles, max_instructions) is Finished),
{
}

/// A final state passes a test case exactly when every expected register and every
/// expected byte holds its value.
pub proof fn law_case_passes_iff_all_match(tc: CaseSpec, m: CpuModel)
    ensures
        case_failure(tc, m) is None <==> (forall|i: int|
            0 <= i < tc.expected_registers.len() ==> #[trigger] register_check(
                m,
                tc.expected_registers[i].0,
                tc.expected_registers[i].1,
            ) is None) && (forall|j: int|
            0 <= j < tc.expected_memory.len() ==> #[trigger] memory_check(
                m,
                tc.expected_memory[j].0,
                tc.expected_memory[j].1,
            ) is None),
{
    lemma_register_failure_none(m, tc.expected_registers);
    lemma_memory_failure_none(m, tc.expected_memory);
}

proof fn lemma_register_failure_none(m: CpuModel, checks: Seq<(u8, u32)>)
    ensures
        register_failure(m, checks) is None <==> forall|i: int|
            0 <= i < checks.len() ==> #[trigger] register_check(m, checks[i].0, checks[i].1) is None,
    decreases checks.len(),
{
    if checks.len() > 0 {
        let pre = checks.drop_last();
        lemma_register_failure_none(m, pre);
        if register_failure(m, checks) is None {
            assert forall|i: int| 0 <= i < checks.len() implies #[trigger] register_check(
                m,
                checks[i].0,
                checks[i].1,
            ) is None by {
                if i < pre.len() {
                    assert(pre[i] == checks[i]);
                }
            }
        }
        if forall|i: int|
            0 <= i < checks.len() ==> #[trigger] register_check(m, checks[i].0, checks[i].1) is None {
            assert forall|i: int| 0 <= i < pre.len() implies #[trigger] register_check(
                m,
                pre[i].0,
                pre[i].1,
            ) is None by {
                assert(pre[i] == checks[i]);
            }
            assert(register_check(m, checks[checks.len() - 1].0, checks[checks.len() - 1].1) is None);
        }
    }
}

proof fn lemma_memory_failure_none(m: CpuModel, checks: Seq<(u32, u8)>)
    ensures
        memory_failure(m, checks) is None <==> forall|i: int|
            0 <= i < checks.len() ==> #[trigger] memory_check(m, checks[i].0, checks[i].1) is None,
    decreases checks.len(),
{
    if checks.len() > 0 {
        let pre = checks.drop_last();
        lemma_memory_failure_none(m, pre);
        if memory_failure(m, checks) is None {
            assert forall|i: int| 0 <= i < checks.len() implies #[trigger] memory_check(
                m,
                checks[i].0,
                checks[i].1,
            ) is None by {
                if i < pre.len() {
                    assert(pre[i] == checks[i]);
                }
            }
        }
        if forall|i: int|
            0 <= i < checks.len() ==> #[trigger] memory_check(m, checks[i].0, checks[i].1) is None {
            assert forall|i: int| 0 <= i < pre.len() implies #[trigger] memory_check(
                m,
                pre[i].0,
                pre[i].1,
            ) is None by {
                assert(pre[i] == checks[i]);
            }
            assert(memory_check(m, checks[checks.len() - 1].0, checks[checks.len() - 1].1) is None);
        }
    }
}

/// A challenge.
#[derive(Debug, Clone)]
pub struct Challenge {
    /// Unique challenge id.
    pub id: u32,
    /// Title.
    pub title: String,
    /// Description.
    pub description: String,
    /// Difficulty.
    pub difficulty: Difficulty,
    /// Test cases a solution must pass.
    pub test_cases: Vec<TestCase>,
    /// Most cycles a run may take (`None`: no limit).
    pub max_cycles: Option<u64>,
    /// Most instructions a run may take (`None`: no limit).
    pub max_instructions: Option<u64>,
    /// Hints for the player.
    pub hints: Vec<String>,
    /// Learning objectives.
    pub learning_objectives: Vec<String>,
}

/// The abstract value of a challenge.
#[verifier::ext_equal]
pub struct ChallengeSpec {
    pub id: u32,
    pub title: Seq<char>,
    pub description: Seq<char>,
    pub difficulty: Difficulty,
    pub test_cases: Seq<CaseSpec>,
    pub max_cycles: Option<u64>,
    pub max_instructions: Option<u64>,
    pub hints: Seq<Seq<char>>,
    pub learning_objectives: Seq<Seq<char>>,
}

impl View for Challenge {
    type V = ChallengeSpec;

    open spec fn view(&self) -> ChallengeSpec {
        ChallengeSpec {
            id: self.id,
            title: self.title@,
            description: self.description@,
            difficulty: self.difficulty,
            test_cases: self.test_cases@.map_values(|t: TestCase| t@),
            max_cycles: self.max_cycles,
            max_instructions: self.max_instructions,
            hints: self.hints.deep_view(),
            learning_objectives: self.learning_objectives.deep_view(),
        }
    }
}

/// The result of one test case.
#[derive(Debug, Clone)]
pub struct TestResult {
    pub test_name: String,
    pub passed: bool,
    pub error: Option<String>,
    pub cycles: u64,
    pub instructions: u64,
}

impl View for TestResult {
    type V = CaseReport;

    open spec fn view(&self) -> CaseReport {
        CaseReport {
            name: self.test_name@,
            passed: self.passed,
            error: match self.error {
                Some(e) => Some(e@),
                None => None,
            },
            cycles: self.cycles,
            instructions: self.instructions,
        }
    }
}

/// The result of validating a whole challenge.
#[derive(Debug, Clone)]
pub struct ValidationResult {
    pub challenge_id: u32,
    pub passed: bool,
    pub test_results: Vec<TestResult>,
}

impl ValidationResult {
    /// The reports, by their abstract values.
    pub open spec fn reports(&self) -> Seq<CaseReport> {
        self.test_results@.map_values(|t: TestResult| t@)
    }
}

fn push_label(out: &mut Vec<char>, n: usize)
    ensures
        final(out)@ == old(out)@ + test_label(n as nat),
{
    push_str(out, "Test ");
    push_dec(out, n as u64);
    push_str(out, ": ");
    proof {
        assert(final(out)@ =~= old(out)@ + test_label(n as nat));
    }
}

fn case_error(n: usize, what: &str, e: &CpuError) -> (s: String)
    ensures
        s@ == test_label(n as nat) + what@ + e.text(),
{
    let mut out: Vec<char> = Vec::new();
    push_label(&mut out, n);
    push_str(&mut out, what);
    e.push_text(&mut out);
    proof {
        assert(out@ =~= test_label(n as nat) + what@ + e.text());
    }
    string_from_chars(out.as_slice())
}

fn limit_error(n: usize, what: &str, count: u64, limit: u64) -> (s: String)
    ensures
        s@ == test_label(n as nat) + what@ + dec(count as nat) + " > "@ + dec(limit as nat)
            + ")"@,
{
    let mut out: Vec<char> = Vec::new();
    push_label(&mut out, n);
    push_str(&mut out, what);
    push_dec(&mut out, count);
    push_str(&mut out, " > ");
    push_dec(&mut out, limit);
    push_str(&mut out, ")");
    proof {
        assert(out@ =~= test_label(n as nat) + what@ + dec(count as nat) + " > "@ + dec(
            limit as nat,
        ) + ")"@);
    }
    string_from_chars(out.as_slice())
}

/// Runs the program for one test case; `Ok(Some(state))` when it finished.
fn run_program(cpu: &mut CpuState, n: usize, program: &[Instruction], max_cycles: Option<u64>, max_instructions: Option<u64>) -> (r: Result<(), String>)
    requires
        old(cpu)@.cycle_count == 0,
        old(cpu)@.instruction_count == 0,
    ensures
        match run_from(old(cpu)@, program@, 0, max_cycles, max_instructions) {
            RunEnd::Finished(f) => r is Ok && final(cpu)@ == f,
            RunEnd::Timeout => r matches Err(s) && s@ == test_label(n as nat)
                + "Execution timeout (infinite loop?)"@,
            RunEnd::Failed(e) => r matches Err(s) && s@ == test_label(n as nat)
                + "Execution error: "@ + e.text(),
            RunEnd::CycleLimit(c, limit) => r matches Err(s) && s@ == test_label(n as nat)
                + "Exceeded cycle limit ("@ + dec(c as nat) + " > "@ + dec(limit as nat) + ")"@,
            RunEnd::InstructionLimit(c, limit) => r matches Err(s) && s@ == test_label(n as nat)
                + "Exceeded instruction limit ("@ + dec(c as nat) + " > "@ + dec(limit as nat)
                + ")"@,
        },
{
    let ghost whole = run_from(old(cpu)@, program@, 0, max_cycles, max_instructions);
    let mut k: usize = 0;
    let mut running = true;
    while k < program.len() && running
        invariant
            k <= program@.len(),
            k <= MAX_ITERATIONS,
            cpu@.cycle_count <= k,
            cpu@.instruction_count <= k,
            whole == run_from(old(cpu)@, program@, 0, max_cycles, max_instructions),
            running ==> whole == run_from(cpu@, program@, k as nat, max_cycles, max_instructions),
            !running ==> whole == RunEnd::Finished(cpu@),
        decreases program@.len() - k,
    {
        if k >= MAX_ITERATIONS {
            let mut out: Vec<char> = Vec::new();
            push_label(&mut out, n);
            push_str(&mut out, "Execution timeout (infinite loop?)");
            return Err(string_from_chars(out.as_slice()));
        }
        let ghost before = cpu@;
        proof {
            lemma_execute_counts(before, program@[k as int]);
        }
        match execute(cpu, program[k]) {
            Err(e) => {
                return Err(case_error(n, "Execution error: ", &e));
            },
            Ok(go) => {
                if !go {
                    running = false;
                } else {
                    match max_cycles {
                        Some(limit) => {
                            if cpu.cycle_count() > limit {
                                return Err(
                                    limit_error(
                                        n,
                                        "Exceeded cycle limit (",
                                        cpu.cycle_count(),
                                        limit,
                                    ),
                                );
                            }
                        },
                        None => {},
                    }
                    match max_instructions {
                        Some(limit) => {
                            if cpu.instruction_count() > limit {
                                return Err(
                                    limit_error(
                                        n,
                                        "Exceeded instruction limit (",
                                        cpu.instruction_count(),
                                        limit,
                                    ),
                                );
                            }
                        },
                        None => {},
                    }
                }
            },
        }
        k = k + 1;
    }
    Ok(())
}

/// Runs test case number `n` (from 1).
fn run_case(tc: &TestCase, n: usize, program: &[Instruction], max_cycles: Option<u64>, max_instructions: Option<u64>) -> (r: Result<TestResult, String>)
    ensures
        match r {
            Ok(t) => case_outcome(n as nat, tc@, program@, max_cycles, max_instructions) == Ok::<
                CaseReport,
                Seq<char>,
            >(t@),
            Err(s) => case_outcome(n as nat, tc@, program@, max_cycles, max_instructions) == Err::<
                CaseReport,
                Seq<char>,
            >(s@),
        },
{
    let mut cpu = CpuState::new();
    let regs = &tc.initial_registers;
    let mut k: usize = 0;
    while k < regs.len()
        invariant
            k <= regs@.len(),
            regs@ == tc@.initial_registers,
            setup(CpuModel::initial(), regs@.take(k as int)) == Ok::<CpuModel, CpuError>(cpu@),
        decreases regs@.len() - k,
    {
        let (reg, value) = regs[k];
        proof {
            assert(regs@.take(k + 1).drop_last() =~= regs@.take(k as int));
            assert(regs@.take(k + 1).last() == (reg, value));
        }
        match cpu.write_register(reg, value) {
            Err(e) => {
                proof {
                    lemma_setup_fails(CpuModel::initial(), regs@, (k + 1) as nat);
                }
                return Err(case_error(n, "Failed to set register: ", &e));
            },
            Ok(()) => {},
        }
        k = k + 1;
    }
    proof {
        assert(regs@.take(regs@.len() as int) =~= regs@);
    }
    proof {
        lemma_setup_counts(CpuModel::initial(), regs@);
    }
    run_program(&mut cpu, n, program, max_cycles, max_instructions)?;
    let verdict = tc.validate(&cpu);
    let (passed, error) = match verdict {
        Ok(()) => (true, None),
        Err(s) => (false, Some(s)),
    };
    Ok(
        TestResult {
            test_name: tc.name.clone(),
            passed,
            error,
            cycles: cpu.cycle_count(),
            instructions: cpu.instruction_count(),
        },
    )
}

proof fn lemma_setup_fails(m: CpuModel, regs: Seq<(u8, u32)>, k: nat)
    requires
        k <= regs.len(),
        setup(m, regs.take(k as int)) is Err,
    ensures
        setup(m, regs) == setup(m, regs.take(k as int)),
    decreases regs.len() - k,
{
    if k < regs.len() {
        assert(regs.take((k + 1) as int).drop_last() =~= regs.take(k as int));
        lemma_setup_fails(m, regs, k + 1);
    } else {
        assert(regs.take(k as int) =~= regs);
    }
}

proof fn lemma_setup_counts(m: CpuModel, regs: Seq<(u8, u32)>)
    ensures
        setup(m, regs) matches Ok(m2) ==> m2.cycle_count == m.cycle_count
            && m2.instruction_count == m.instruction_count,
    decreases regs.len(),
{
    if regs.len() > 0 {
        lemma_setup_counts(m, regs.drop_last());
    }
}

impl Challenge {
    /// Runs every test case against the program: for each, a new CPU, the initial
    /// registers, the program's instructions in order (at most 10000; `HALT` stops; the
    /// cycle and instruction limits checked after each), then the expected values. A
    /// failure to set up or run is an error; a mismatch fails the test case.
    pub fn validate_solution(&self, program: &[Instruction]) -> (r: Result<ValidationResult, String>)
        ensures
            match r {
                Ok(v) => case_reports(
                    self@.test_cases,
                    program@,
                    self.max_cycles,
                    self.max_instructions,
                ) == Ok::<Seq<CaseReport>, Seq<char>>(v.reports()) && v.challenge_id == self.id
                    && v.passed == all_passed(v.reports()) && (v.passed <==> forall|i: int|
                    0 <= i < v.test_results@.len() ==> #[trigger] v.test_results@[i].passed),
                Err(s) => case_reports(
                    self@.test_cases,
                    program@,
                    self.max_cycles,
                    self.max_instructions,
                ) == Err::<Seq<CaseReport>, Seq<char>>(s@),
            },
    {
        let ghost cases = self@.test_cases;
        let mut results: Vec<TestResult> = Vec::new();
        let mut i: usize = 0;
        proof {
            assert(cases.take(0) =~= Seq::<CaseSpec>::empty());
            assert(results@.map_values(|t: TestResult| t@) =~= Seq::<CaseReport>::empty());
        }
        while i < self.test_cases.len()
            invariant
                i <= self.test_cases@.len(),
                cases == self@.test_cases,
                cases.len() == self.test_cases@.len(),
                forall|j: int| 0 <= j < cases.len() ==> #[trigger] cases[j] == self.test_cases@[j]@,
                case_reports(cases.take(i as int), program@, self.max_cycles, self.max_instructions)
                    == Ok::<Seq<CaseReport>, Seq<char>>(
                    results@.map_values(|t: TestResult| t@),
                ),
            decreases self.test_cases@.len() - i,
        {
            proof {
                assert(cases.take(i + 1).drop_last() =~= cases.take(i as int));
                assert(cases.take(i + 1).last() == self.test_cases@[i as int]@);
            }
            match run_case(
                &self.test_cases[i],
                i + 1,
                program,
                self.max_cycles,
                self.max_instructions,
            ) {
                Err(e) => {
                    proof {
                        lemma_reports_fail(
                            cases,
                            program@,
                            self.max_cycles,
                            self.max_instructions,
                            (i + 1) as nat,
                        );
                    }
                    return Err(e);
                },
                Ok(t) => {
                    let ghost before = results@.map_values(|t: TestResult| t@);
                    let ghost tv = t@;
                    results.push(t);
                    proof {
                        assert(results@.map_values(|t: TestResult| t@) =~= before.push(tv));
                    }
                },
            }
            i = i + 1;
        }
        proof {
            assert(cases.take(self.test_cases@.len() as int) =~= cases);
        }
        let mut all = true;
        let mut j: usize = 0;
        while j < results.len()
            invariant
                j <= results@.len(),
                all == forall|q: int| 0 <= q < j ==> #[trigger] results@[q].passed,
            decreases results@.len() - j,
        {
            all = all && results[j].passed;
            j = j + 1;
        }
        proof {
            let rs = results@.map_values(|t: TestResult| t@);
            if all {
                assert forall|q: int| 0 <= q < rs.len() implies #[trigger] rs[q].passed by {
                    assert(results@[q].passed);
                }
            } else {
                let q = choose|q: int| 0 <= q < j && !#[trigger] results@[q].passed;
                assert(!rs[q].passed);
            }
            assert(all == all_passed(rs));
            assert(all <==> forall|q: int| 0 <= q < results@.len() ==> #[trigger] results@[q].passed);
        }
        let v = ValidationResult { challenge_id: self.id, passed: all, test_results: results };
        Ok(v)
    }
}

proof fn lemma_reports_fail(cases: Seq<CaseSpec>, program: Seq<Instruction>, max_cycles: Option<u64>, max_instructions: Option<u64>, k: nat)
    requires
        k <= cases.len(),
        case_reports(cases.take(k as int), program, max_cycles, max_instructions) is Err,
    ensures
        case_reports(cases, program, max_cycles, max_instructions) == case_reports(
            cases.take(k as int),
            program,
            max_cycles,
            max_instructions,
        ),
    decreases cases.len() - k,
{
    if k < cases.len() {
        assert(cases.take((k + 1) as int).drop_last() =~= cases.take(k as int));
        lemma_reports_fail(cases, program, max_cycles, max_instructions, k + 1);
    } else {
        assert(cases.take(k as int) =~= cases);
    }
}


// ===== The challenges =====

/// Challenge 1: put 42 in `x1` and halt.
pub open spec fn load_and_halt() -> ChallengeSpec {
    ChallengeSpec {
        id: 1,
        title: "Challenge 1: Load and Halt"@,
        description: "Load the number 42 into register x1, then halt the CPU.\n\n\
                     Use the ADDI instruction to load an immediate value.\n\
                     Remember to end with HALT!"@,
        difficulty: Difficulty::Beginner,
        test_cases: seq![
            CaseSpec {
                name: "x1 should contain 42"@,
                initial_registers: seq![],
                expected_registers: seq![(1u8, 42u32)],
                expected_memory: seq![],
            },
        ],
        max_cycles: Some(100),
        max_instructions: Some(10),
        hints: seq![
            "ADDI adds an immediate value to a register"@,
            "x0 is always zero, so ADDI x1, x0, 42 sets x1 to 42"@,
            "Don't forget the HALT instruction!"@,
        ],
        learning_objectives: seq![
            "Understand immediate instructions"@,
            "Learn about the HALT instruction"@,
            "Practice basic instruction syntax"@,
        ],
    }
}

/// Challenge 2: put 5 + 3 in `x1`.
pub open spec fn simple_addition() -> ChallengeSpec {
    ChallengeSpec {
        id: 2,
        title: "Challenge 2: Simple Addition"@,
        description: "Add 5 + 3 and store the result in register x1.\n\n\
                     You can use ADDI to load values and ADD to add them."@,
        difficulty: Difficulty::Beginner,
        test_cases: seq![
            CaseSpec {
                name: "x1 should contain 8 (5 + 3)"@,
                initial_registers: seq![],
                expected_registers: seq![(1u8, 8u32)],
                expected_memory: seq![],
            },
        ],
        max_cycles: Some(100),
        max_instructions: Some(20),
        hints: seq![
            "Load 5 into one register, 3 into another"@,
            "Use ADD to combine them"@,
            "You could also use ADDI x1, x0, 5 followed by ADDI x1, x1, 3"@,
        ],
        learning_objectives: seq![
            "Understand arithmetic operations"@,
            "Learn to chain instructions"@,
            "Practice using multiple registers"@,
        ],
    }
}

/// Challenge 3: copy `x1` (100) into `x2` without an immediate.
pub open spec fn register_transfer() -> ChallengeSpec {
    ChallengeSpec {
        id: 3,
        title: "Challenge 3: Register Transfer"@,
        description: "Copy the value from register x1 to register x2 WITHOUT using an immediate value.\n\n\
                     x1 starts with the value 100. Your task is to make x2 also equal 100."@,
        difficulty: Difficulty::Beginner,
        test_cases: seq![
            CaseSpec {
                name: "x2 should equal x1 (both 100)"@,
                initial_registers: seq![(1u8, 100u32)],
                expected_registers: seq![(1u8, 100u32), (2u8, 100u32)],
                expected_memory: seq![],
            },
        ],
        max_cycles: Some(100),
        max_instructions: Some(10),
        hints: seq![
            "Remember that x0 is always zero"@,
            "Adding x1 + 0 gives you x1"@,
            "Try: ADD x2, x1, x0"@,
        ],
        learning_objectives: seq![
            "Understand the zero register (x0)"@,
            "Learn register-to-register operations"@,
            "Practice using ADD for non-arithmetic purposes"@,
        ],
    }
}

/// All challenges, in order.
pub fn get_all_challenges() -> (r: Vec<Challenge>)
    ensures
        r@.len() == 3,
        r@[0]@ == load_and_halt(),
        r@[1]@ == simple_addition(),
        r@[2]@ == register_transfer(),
{
    let mut r: Vec<Challenge> = Vec::new();
    r.push(challenge_1_load_and_halt());
    r.push(challenge_2_simple_addition());
    r.push(challenge_3_register_transfer());
    r
}

/// The challenge as a value.
pub fn challenge_1_load_and_halt() -> (c: Challenge)
    ensures
        c@ == load_and_halt(),
{
    let c = Challenge {
        id: 1,
        title: "Challenge 1: Load and Halt".to_owned(),
        description: "Load the number 42 into register x1, then halt the CPU.\n\n\
                     Use the ADDI instruction to load an immediate value.\n\
                     Remember to end with HALT!".to_owned(),
        difficulty: Difficulty::Beginner,
        test_cases: vec![
            TestCase {
                name: "x1 should contain 42".to_owned(),
                initial_registers: vec![],
                expected_registers: vec![(1, 42)],
                expected_memory: vec![],
            },
        ],
        max_cycles: Some(100),
        max_instructions: Some(10),
        hints: vec![
            "ADDI adds an immediate value to a register".to_owned(),
            "x0 is always zero, so ADDI x1, x0, 42 sets x1 to 42".to_owned(),
            "Don't forget the HALT instruction!".to_owned(),
        ],
        learning_objectives: vec![
            "Understand immediate instructions".to_owned(),
            "Learn about the HALT instruction".to_owned(),
            "Practice basic instruction syntax".to_owned(),
        ],
    };
    proof {
        let want = load_and_halt();
        assert(c@.test_cases[0] =~~= want.test_cases[0]);
        assert(c@.test_cases =~~= want.test_cases);
        assert(c@.hints =~~= want.hints);
        assert(c@.learning_objectives =~~= want.learning_objectives);
        assert(c@ =~~= want);
    }
    c
}

/// The challenge as a value.
pub fn challenge_2_simple_addition() -> (c: Challenge)
    ensures
        c@ == simple_addition(),
{
    let c = Challenge {
        id: 2,
        title: "Challenge 2: Simple Addition".to_owned(),
        description: "Add 5 + 3 and store the result in register x1.\n\n\
                     You can use ADDI to load values and ADD to add them.".to_owned(),
        difficulty: Difficulty::Beginner,
        test_cases: vec![
            TestCase {
                name: "x1 should contain 8 (5 + 3)".to_owned(),
                initial_registers: vec![],
                expected_registers: vec![(1, 8)],
                expected_memory: vec![],
            },
        ],
        max_cycles: Some(100),
        max_instructions: Some(20),
        hints: vec![
            "Load 5 into one register, 3 into another".to_owned(),
            "Use ADD to combine them".to_owned(),
            "You could also use ADDI x1, x0, 5 followed by ADDI x1, x1, 3".to_owned(),
        ],
        learning_objectives: vec![
            "Understand arithmetic operations".to_owned(),
            "Learn to chain instructions".to_owned(),
            "Practice using multiple registers".to_owned(),
        ],
    };
    proof {
        let want = simple_addition();
        assert(c@.test_cases[0] =~~= want.test_cases[0]);
        assert(c@.test_cases =~~= want.test_cases);
        assert(c@.hints =~~= want.hints);
        assert(c@.learning_objectives =~~= want.learning_objectives);
        assert(c@ =~~= want);
    }
    c
}

/// The challenge as a value.
pub fn challenge_3_register_transfer() -> (c: Challenge)
    ensures
        c@ == register_transfer(),
{
    let c = Challenge {
        id: 3,
        title: "Challenge 3: Register Transfer".to_owned(),
        description: "Copy the value from register x1 to register x2 WITHOUT using an immediate value.\n\n\
                     x1 starts with the value 100. Your task is to make x2 also equal 100.".to_owned(),
        difficulty: Difficulty::Beginner,
        test_cases: vec![
            TestCase {
                name: "x2 should equal x1 (both 100)".to_owned(),
                initial_registers: vec![(1, 100)],
                expected_registers: vec![(1, 100), (2, 100)],
                expected_memory: vec![],
            },
        ],
        max_cycles: Some(100),
        max_instructions: Some(10),
        hints: vec![
            "Remember that x0 is always zero".to_owned(),
            "Adding x1 + 0 gives you x1".to_owned(),
            "Try: ADD x2, x1, x0".to_owned(),
        ],
        learning_objectives: vec![
            "Understand the zero register (x0)".to_owned(),
            "Learn register-to-register operations".to_owned(),
            "Practice using ADD for non-arithmetic purposes".to_owned(),
        ],
    };
    proof {
        let want = register_transfer();
        assert(c@.test_cases[0] =~~= want.test_cases[0]);
        assert(c@.test_cases =~~= want.test_cases);
        assert(c@.hints =~~= want.hints);
        assert(c@.learning_objectives =~~= want.learning_objectives);
        assert(c@ =~~= want);
    }
    c
}

} // verus!
