//! The decisions of the game screen: what each button does to the session, the editor
//! text and the panels, and what the register panel, the listing and the challenge
//! banner show. Drawing them is left to the caller.
use vstd::prelude::*;
use vstd::slice::slice_subrange;

use crate::assembler::{assembly, finishes, instruction_count, listing, MAX_INSTRUCTIONS};
use crate::challenge::{all_passed, case_reports, CaseReport, ValidationResult};
use crate::cpu::instruction::Instruction;
use crate::cpu::state::{signed, to_signed, CpuModel};
use crate::session::{
    challenge_list, not_found, run_outcome, step_outcome, validate_challenge, SessionModel,
    WasmCpu,
};
use crate::text::{
    all_digits, chars_of, dec, digit_value, find, find_char, hex, int_value,
    lemma_hex_reads_back, lemma_zero_padded_reads_back, parse_u32, parse_u32_hex, push_dec,
    push_hex, push_signed, push_str, signed_dec, string_from_chars, zero_padded,
};

verus! {

// ===== The register panel =====

/// How many registers the panel shows, `x0` on.
pub const SHOWN_REGISTERS: usize = 8;

/// One row of the register panel.
#[derive(Debug, Clone)]
pub struct RegisterRow {
    /// `x` and the register number.
    pub name: String,
    /// The value in 8-digit hex, then as a signed number in brackets.
    pub value: String,
    /// Whether the value differs from the one before the last step.
    pub changed: bool,
}

/// The abstract value of a register row.
pub struct RowView {
    pub name: Seq<char>,
    pub value: Seq<char>,
    pub changed: bool,
}

impl View for RegisterRow {
    type V = RowView;

    open spec fn view(&self) -> RowView {
        RowView { name: self.name@, value: self.value@, changed: self.changed }
    }
}

/// The row of register `i` holding `v`, which held `last` before the last step.
pub open spec fn register_row(i: nat, v: u32, last: u32) -> RowView {
    RowView {
        name: "x"@ + dec(i),
        value: "0x"@ + zero_padded(hex(v as nat), 8) + " ("@ + signed_dec(signed(v)) + ")"@,
        changed: v != last,
    }
}

fn register_row_exec(i: usize, v: u32, last: u32) -> (row: RegisterRow)
    requires
        i < SHOWN_REGISTERS,
    ensures
        row@ == register_row(i as nat, v, last),
{
    let mut name: Vec<char> = Vec::new();
    push_str(&mut name, "x");
    push_dec(&mut name, i as u64);
    let mut value: Vec<char> = Vec::new();
    push_str(&mut value, "0x");
    push_hex(&mut value, v as u64, 8);
    push_str(&mut value, " (");
    push_signed(&mut value, to_signed(v) as i64);
    push_str(&mut value, ")");
    let row = RegisterRow {
        name: string_from_chars(name.as_slice()),
        value: string_from_chars(value.as_slice()),
        changed: v != last,
    };
    proof {
        assert(row@.name =~= register_row(i as nat, v, last).name);
        assert(row@.value =~= register_row(i as nat, v, last).value);
    }
    row
}

/// The rows of the register panel: registers `x0` to `x7` of `regs`, each marked
/// changed when it differs from the same register in `last`.
pub fn register_rows(regs: &[u32], last: &[u32]) -> (rows: Vec<RegisterRow>)
    requires
        regs@.len() >= SHOWN_REGISTERS,
        last@.len() >= SHOWN_REGISTERS,
    ensures
        rows@.len() == SHOWN_REGISTERS,
        forall|i: int| 0 <= i < SHOWN_REGISTERS ==> (#[trigger] rows@[i])@ == register_row(
            i as nat,
            regs@[i],
            last@[i],
        ),
{
    let mut rows: Vec<RegisterRow> = Vec::new();
    let mut i: usize = 0;
    while i < SHOWN_REGISTERS
        invariant
            i <= SHOWN_REGISTERS,
            regs@.len() >= SHOWN_REGISTERS,
            last@.len() >= SHOWN_REGISTERS,
            rows@.len() == i,
            forall|j: int| 0 <= j < i ==> (#[trigger] rows@[j])@ == register_row(
                j as nat,
                regs@[j],
                last@[j],
            ),
        decreases SHOWN_REGISTERS - i,
    {
        rows.push(register_row_exec(i, regs[i], last[i]));
        i = i + 1;
    }
    rows
}

// ===== The verdict on a checked solution =====

/// The line of one test in the report on a passing solution: its name, then its cycle
/// and instruction counts.
pub open spec fn pass_line(r: CaseReport) -> Seq<char> {
    "✓ "@ + r.name + "\n"@ + "  Cycles: "@ + dec(r.cycles as nat) + ", Instructions: "@ + dec(
        r.instructions as nat,
    ) + "\n"@
}

/// The line of one test in the report on a failing solution: a tick for a passed test,
/// a cross and the error for a failed one.
pub open spec fn fail_line(r: CaseReport) -> Seq<char> {
    if r.passed {
        "✓ "@ + r.name + "\n"@
    } else {
        "✗ "@ + r.name + "\n"@ + match r.error {
            Some(e) => "  Error: "@ + e + "\n"@,
            None => Seq::<char>::empty(),
        }
    }
}

/// The lines of a passing report, in order.
pub open spec fn pass_lines(rs: Seq<CaseReport>) -> Seq<char>
    decreases rs.len(),
{
    if rs.len() == 0 {
        Seq::empty()
    } else {
        pass_lines(rs.drop_last()) + pass_line(rs.last())
    }
}

/// The lines of a failing report, in order.
pub open spec fn fail_lines(rs: Seq<CaseReport>) -> Seq<char>
    decreases rs.len(),
{
    if rs.len() == 0 {
        Seq::empty()
    } else {
        fail_lines(rs.drop_last()) + fail_line(rs.last())
    }
}

/// What the banner says of a validation: `Ok` with the passing report, or `Err` with the
/// failing one.
pub open spec fn verdict_text(id: u32, passed: bool, rs: Seq<CaseReport>) -> Result<Seq<char>, Seq<char>> {
    if passed {
        Ok("✅ Challenge "@ + dec(id as nat) + " PASSED!\n\n"@ + pass_lines(rs))
    } else {
        Err("❌ Challenge "@ + dec(id as nat) + " did not pass.\n\n"@ + fail_lines(rs))
    }
}

/// The banner text for a validation result: `Ok` when the solution passed, `Err` when it
/// did not.
pub fn challenge_message(v: &ValidationResult) -> (r: Result<String, String>)
    ensures
        match verdict_text(v.challenge_id, v.passed, v.reports()) {
            Ok(t) => r matches Ok(s) && s@ == t,
            Err(t) => r matches Err(s) && s@ == t,
        },
{
    let ghost rs = v.reports();
    let mut out: Vec<char> = Vec::new();
    if v.passed {
        push_str(&mut out, "✅ Challenge ");
    } else {
        push_str(&mut out, "❌ Challenge ");
    }
    push_dec(&mut out, v.challenge_id as u64);
    if v.passed {
        push_str(&mut out, " PASSED!\n\n");
    } else {
        push_str(&mut out, " did not pass.\n\n");
    }
    let ghost head = out@;
    let mut i: usize = 0;
    while i < v.test_results.len()
        invariant
            i <= v.test_results@.len(),
            rs == v.reports(),
            rs.len() == v.test_results@.len(),
            out@ == head + if v.passed {
                pass_lines(rs.take(i as int))
            } else {
                fail_lines(rs.take(i as int))
            },
        decreases v.test_results@.len() - i,
    {
        let t = &v.test_results[i];
        proof {
            assert(rs[i as int] == t@);
            assert(rs.take(i + 1).drop_last() =~= rs.take(i as int));
            assert(rs.take(i + 1).last() == t@);
        }
        let ghost before = out@;
        if v.passed {
            push_str(&mut out, "✓ ");
            push_str(&mut out, t.test_name.as_str());
            push_str(&mut out, "\n");
            push_str(&mut out, "  Cycles: ");
            push_dec(&mut out, t.cycles);
            push_str(&mut out, ", Instructions: ");
            push_dec(&mut out, t.instructions);
            push_str(&mut out, "\n");
            proof {
                assert(out@ =~= before + pass_line(t@));
            }
        } else if t.passed {
            push_str(&mut out, "✓ ");
            push_str(&mut out, t.test_name.as_str());
            push_str(&mut out, "\n");
            proof {
                assert(out@ =~= before + fail_line(t@));
            }
        } else {
            push_str(&mut out, "✗ ");
            push_str(&mut out, t.test_name.as_str());
            push_str(&mut out, "\n");
            match &t.error {
                Some(e) => {
                    push_str(&mut out, "  Error: ");
                    push_str(&mut out, e.as_str());
                    push_str(&mut out, "\n");
                },
                None => {},
            }
            proof {
                assert(out@ =~= before + fail_line(t@));
            }
        }
        i = i + 1;
    }
    proof {
        assert(rs.take(rs.len() as int) =~= rs);
    }
    let text = string_from_chars(out.as_slice());
    if v.passed {
        Ok(text)
    } else {
        Err(text)
    }
}


// ===== Texts the screen loads into the editor =====

/// The program in the editor when the game starts.
pub open spec fn starter_program() -> Seq<char> {
    "; Example: Add two numbers\n; This program demonstrates basic RISC-V assembly\n\n; Load 5 into x1\nADDI x1, x0, 5\n\n; Load 10 into x2\nADDI x2, x0, 10\n\n; Add x1 + x2 -> x3\nADD x3, x1, x2\n\n; Halt the CPU\nHALT"@
}

fn starter_program_text() -> (s: &'static str)
    ensures
        s@ == starter_program(),
{
    "; Example: Add two numbers\n; This program demonstrates basic RISC-V assembly\n\n; Load 5 into x1\nADDI x1, x0, 5\n\n; Load 10 into x2\nADDI x2, x0, 10\n\n; Add x1 + x2 -> x3\nADD x3, x1, x2\n\n; Halt the CPU\nHALT"
}

/// How many example programs there are.
pub const EXAMPLE_COUNT: usize = 4;

/// The title of example `i`.
pub open spec fn example_title(i: nat) -> Seq<char> {
    if i == 0 {
        "Example 1: Add Two Numbers"@
    } else if i == 1 {
        "Example 2: Subtraction"@
    } else if i == 2 {
        "Example 3: Chained Operations"@
    } else {
        "Example 4: Loop with Branch"@
    }
}

/// The program of example `i`.
pub open spec fn example_code(i: nat) -> Seq<char> {
    if i == 0 {
        "; Load 5 into x1\nADDI x1, x0, 5\n\n; Load 10 into x2\nADDI x2, x0, 10\n\n; Add x1 + x2 -> x3\nADD x3, x1, x2\n\n; Halt\nHALT"@
    } else if i == 1 {
        "; Load 20 into x1\nADDI x1, x0, 20\n\n; Load 7 into x2\nADDI x2, x0, 7\n\n; Subtract: x3 = x1 - x2\nSUB x3, x1, x2\n\n; Halt\nHALT"@
    } else if i == 2 {
        "; Load 3 into x1\nADDI x1, x0, 3\n\n; Add 5: x1 = x1 + 5\nADDI x1, x1, 5\n\n; Add 2: x1 = x1 + 2\nADDI x1, x1, 2\n\n; Result: x1 = 10\nHALT"@
    } else {
        "; Initialize counter\nADDI x1, x0, 0\n\nLOOP:\n; Increment counter\nADDI x1, x1, 1\n\n; Check if x1 < 5\nADDI x2, x0, 5\nBLT x1, x2, LOOP\n\n; Done\nHALT"@
    }
}

/// Example `i`: its title and its program.
pub fn example(i: usize) -> (r: (&'static str, &'static str))
    requires
        i < EXAMPLE_COUNT,
    ensures
        r.0@ == example_title(i as nat),
        r.1@ == example_code(i as nat),
{
    if i == 0 {
        (
            "Example 1: Add Two Numbers",
            "; Load 5 into x1\nADDI x1, x0, 5\n\n; Load 10 into x2\nADDI x2, x0, 10\n\n; Add x1 + x2 -> x3\nADD x3, x1, x2\n\n; Halt\nHALT",
        )
    } else if i == 1 {
        (
            "Example 2: Subtraction",
            "; Load 20 into x1\nADDI x1, x0, 20\n\n; Load 7 into x2\nADDI x2, x0, 7\n\n; Subtract: x3 = x1 - x2\nSUB x3, x1, x2\n\n; Halt\nHALT",
        )
    } else if i == 2 {
        (
            "Example 3: Chained Operations",
            "; Load 3 into x1\nADDI x1, x0, 3\n\n; Add 5: x1 = x1 + 5\nADDI x1, x1, 5\n\n; Add 2: x1 = x1 + 2\nADDI x1, x1, 2\n\n; Result: x1 = 10\nHALT",
        )
    } else {
        (
            "Example 4: Loop with Branch",
            "; Initialize counter\nADDI x1, x0, 0\n\nLOOP:\n; Increment counter\nADDI x1, x1, 1\n\n; Check if x1 < 5\nADDI x2, x0, 5\nBLT x1, x2, LOOP\n\n; Done\nHALT",
        )
    }
}

/// The editor text loaded with challenge `id` (1 to 3).
pub open spec fn challenge_template(id: u32) -> Seq<char> {
    if id == 1 {
        "; Challenge 1: Load and Halt\n; Load the number 42 into register x1, then halt\n\n; Your code here\n"@
    } else if id == 2 {
        "; Challenge 2: Simple Addition\n; Add 5 + 3 and store the result in register x1\n\n; Your code here\n"@
    } else {
        "; Challenge 3: Register Transfer\n; Copy the value from register x1 to register x2\n; x1 starts with the value 100\n\n; Your code here\n"@
    }
}

fn challenge_template_text(id: u32) -> (s: &'static str)
    requires
        1 <= id <= 3,
    ensures
        s@ == challenge_template(id),
{
    if id == 1 {
        "; Challenge 1: Load and Halt\n; Load the number 42 into register x1, then halt\n\n; Your code here\n"
    } else if id == 2 {
        "; Challenge 2: Simple Addition\n; Add 5 + 3 and store the result in register x1\n\n; Your code here\n"
    } else {
        "; Challenge 3: Register Transfer\n; Copy the value from register x1 to register x2\n; x1 starts with the value 100\n\n; Your code here\n"
    }
}

// ===== The screen =====

/// The panels the sidebar opens.
#[derive(Debug, Clone, Copy, PartialEq, Eq, Structural)]
pub enum Panel {
    Tutorial,
    Examples,
    Challenges,
    IsaReference,
    Help,
}

/// The message under the editor.
#[derive(Debug, Clone)]
pub enum Notice {
    /// The program assembled.
    Assembled,
    /// Assembly failed with this message.
    AssemblyFailed(String),
    /// A run ended with `HALT`.
    Completed,
    /// A step or a run failed with this message.
    Failed(String),
}

/// The abstract value of a notice.
pub enum NoticeView {
    Assembled,
    AssemblyFailed(Seq<char>),
    Completed,
    Failed(Seq<char>),
}

impl View for Notice {
    type V = NoticeView;

    open spec fn view(&self) -> NoticeView {
        match self {
            Notice::Assembled => NoticeView::Assembled,
            Notice::AssemblyFailed(m) => NoticeView::AssemblyFailed(m@),
            Notice::Completed => NoticeView::Completed,
            Notice::Failed(m) => NoticeView::Failed(m@),
        }
    }
}

/// The banner after a solution is checked.
#[derive(Debug, Clone)]
pub enum Verdict {
    /// The solution passed; the report.
    Passed(String),
    /// The solution did not pass; the report.
    NotPassed(String),
    /// The solution could not be checked; the reason.
    Refused(String),
}

/// The abstract value of a verdict.
pub enum VerdictView {
    Passed(Seq<char>),
    NotPassed(Seq<char>),
    Refused(Seq<char>),
}

impl View for Verdict {
    type V = VerdictView;

    open spec fn view(&self) -> VerdictView {
        match self {
            Verdict::Passed(m) => VerdictView::Passed(m@),
            Verdict::NotPassed(m) => VerdictView::NotPassed(m@),
            Verdict::Refused(m) => VerdictView::Refused(m@),
        }
    }
}

/// An optional notice by its abstract value.
pub open spec fn notice_view(n: Option<Notice>) -> Option<NoticeView> {
    match n {
        Some(x) => Some(x@),
        None => None,
    }
}

/// An optional verdict by its abstract value.
pub open spec fn verdict_view(v: Option<Verdict>) -> Option<VerdictView> {
    match v {
        Some(x) => Some(x@),
        None => None,
    }
}

/// The state of the game screen: the session, the editor text, the listing of the last
/// assembly, the notice, the registers before the last step, the challenge being
/// played, its verdict, and which panels are open.
pub struct Screen {
    session: WasmCpu,
    program_code: String,
    assembly_lines: Vec<String>,
    notice: Option<Notice>,
    last_registers: Vec<u32>,
    challenge_mode: bool,
    current_challenge: Option<u32>,
    verdict: Option<Verdict>,
    tutorial_open: bool,
    examples_open: bool,
    challenges_open: bool,
    isa_ref_open: bool,
    help_open: bool,
}

/// The abstract value of the screen.
#[verifier::ext_equal]
pub struct ScreenModel {
    pub session: SessionModel,
    pub program_code: Seq<char>,
    pub assembly_lines: Seq<Seq<char>>,
    pub notice: Option<NoticeView>,
    pub last_registers: Seq<u32>,
    pub challenge_mode: bool,
    pub current_challenge: Option<u32>,
    pub verdict: Option<VerdictView>,
    pub tutorial_open: bool,
    pub examples_open: bool,
    pub challenges_open: bool,
    pub isa_ref_open: bool,
    pub help_open: bool,
}

impl View for Screen {
    type V = ScreenModel;

    closed spec fn view(&self) -> ScreenModel {
        ScreenModel {
            session: self.session@,
            program_code: self.program_code@,
            assembly_lines: self.assembly_lines.deep_view(),
            notice: notice_view(self.notice),
            last_registers: self.last_registers@,
            challenge_mode: self.challenge_mode,
            current_challenge: self.current_challenge,
            verdict: verdict_view(self.verdict),
            tutorial_open: self.tutorial_open,
            examples_open: self.examples_open,
            challenges_open: self.challenges_open,
            isa_ref_open: self.isa_ref_open,
            help_open: self.help_open,
        }
    }
}

impl ScreenModel {
    /// Whether panel `p` is open.
    pub open spec fn is_open(self, p: Panel) -> bool {
        match p {
            Panel::Tutorial => self.tutorial_open,
            Panel::Examples => self.examples_open,
            Panel::Challenges => self.challenges_open,
            Panel::IsaReference => self.isa_ref_open,
            Panel::Help => self.help_open,
        }
    }

    /// This screen with panel `p` opened (`true`) or closed (`false`).
    pub open spec fn with_panel(self, p: Panel, open: bool) -> ScreenModel {
        match p {
            Panel::Tutorial => ScreenModel { tutorial_open: open, ..self },
            Panel::Examples => ScreenModel { examples_open: open, ..self },
            Panel::Challenges => ScreenModel { challenges_open: open, ..self },
            Panel::IsaReference => ScreenModel { isa_ref_open: open, ..self },
            Panel::Help => ScreenModel { help_open: open, ..self },
        }
    }

    /// The screen when the game starts: a new session, the starter program, no listing,
    /// no notice, all registers zero before, no challenge, every panel closed.
    pub open spec fn start() -> ScreenModel {
        ScreenModel {
            session: SessionModel { cpu: CpuModel::initial(), program: Seq::empty() },
            program_code: starter_program(),
            assembly_lines: Seq::empty(),
            notice: None,
            last_registers: Seq::new(SHOWN_REGISTERS as nat, |i: int| 0u32),
            challenge_mode: false,
            current_challenge: None,
            verdict: None,
            tutorial_open: false,
            examples_open: false,
            challenges_open: false,
            isa_ref_open: false,
            help_open: false,
        }
    }

    /// The screen after the editor text `code` is assembled (a source on which assembly
    /// gets to an end): the editor keeps `code`; on success the session runs the new
    /// instructions and the listing shows them, on failure the listing is emptied and the
    /// notice gives the error.
    pub open spec fn after_assemble(self, code: Seq<char>) -> ScreenModel {
        match assembly(code) {
            Ok((insts, listed)) => ScreenModel {
                session: SessionModel { program: insts, ..self.session },
                program_code: code,
                assembly_lines: listed,
                notice: Some(NoticeView::Assembled),
                ..self
            },
            Err(e) => ScreenModel {
                program_code: code,
                assembly_lines: Seq::empty(),
                notice: Some(NoticeView::AssemblyFailed(e.text())),
                ..self
            },
        }
    }

    /// The screen after one step: the registers before it are kept for comparison; a step
    /// that succeeds moves the CPU on, one that fails leaves it as it was and the notice
    /// gives the error.
    pub open spec fn after_step(self) -> ScreenModel {
        let (r, cpu) = step_outcome(self.session.cpu, self.session.program);
        let marked = ScreenModel { last_registers: self.session.cpu.regs, ..self };
        match r {
            Ok(_) => ScreenModel { session: SessionModel { cpu: cpu, ..self.session }, ..marked },
            Err(m) => ScreenModel { notice: Some(NoticeView::Failed(m)), ..marked },
        }
    }

    /// The screen after a run: a run that halts moves the CPU on and says so, one that
    /// fails leaves the CPU as it was and the notice gives the error.
    pub open spec fn after_run(self) -> ScreenModel {
        let (r, cpu) = run_outcome(self.session.cpu, self.session.program, 0);
        match r {
            Ok(_) => ScreenModel {
                session: SessionModel { cpu: cpu, ..self.session },
                notice: Some(NoticeView::Completed),
                ..self
            },
            Err(m) => ScreenModel { notice: Some(NoticeView::Failed(m)), ..self },
        }
    }

    /// The screen after a reset: a new session, no listing, no notice.
    pub open spec fn after_reset(self) -> ScreenModel {
        ScreenModel {
            session: SessionModel { cpu: CpuModel::initial(), program: Seq::empty() },
            assembly_lines: Seq::empty(),
            notice: None,
            ..self
        }
    }

    /// The screen after example `i` is loaded: a new session, no notice, the example in
    /// the editor, the examples panel closed.
    pub open spec fn after_load_example(self, i: nat) -> ScreenModel {
        ScreenModel {
            session: SessionModel { cpu: CpuModel::initial(), program: Seq::empty() },
            notice: None,
            program_code: example_code(i),
            examples_open: false,
            ..self
        }
    }

    /// The screen after challenge `id` is loaded: challenge mode for `id`, its template in
    /// the editor, the challenges panel closed.
    pub open spec fn after_load_challenge(self, id: u32) -> ScreenModel {
        ScreenModel {
            challenge_mode: true,
            current_challenge: Some(id),
            program_code: challenge_template(id),
            challenges_open: false,
            ..self
        }
    }

    /// The screen after leaving challenge mode: no challenge, no verdict.
    pub open spec fn after_exit_challenge(self) -> ScreenModel {
        ScreenModel { challenge_mode: false, current_challenge: None, verdict: None, ..self }
    }

    /// The screen after the verdict is dismissed.
    pub open spec fn after_dismiss(self) -> ScreenModel {
        ScreenModel { verdict: None, ..self }
    }

    /// The screen after the editor text is checked against challenge `id`.
    pub open spec fn after_check(self, id: u32) -> ScreenModel {
        ScreenModel { verdict: Some(verdict_of(id, self.program_code)), ..self }
    }
}

/// The verdict on `code` as a solution of challenge `id` (a source on which assembly
/// gets to an end): refused when the challenge does not exist, the code does not
/// assemble or a test cannot run; otherwise passed or not, with the report.
pub open spec fn verdict_of(id: u32, code: Seq<char>) -> VerdictView {
    if !(1 <= id <= 3) {
        VerdictView::Refused(not_found(id))
    } else {
        match assembly(code) {
            Err(e) => VerdictView::Refused("Assembly error: "@ + e.text()),
            Ok((insts, _)) => {
                let ch = challenge_list()[id - 1];
                match case_reports(ch.test_cases, insts, ch.max_cycles, ch.max_instructions) {
                    Err(m) => VerdictView::Refused("Validation error: "@ + m),
                    Ok(rs) => match verdict_text(id, all_passed(rs), rs) {
                        Ok(t) => VerdictView::Passed(t),
                        Err(t) => VerdictView::NotPassed(t),
                    },
                }
            },
        }
    }
}

impl Screen {
    #[verifier::type_invariant]
    spec fn shows_registers(self) -> bool {
        self.last_registers@.len() >= SHOWN_REGISTERS
    }

    /// The screen when the game starts.
    pub fn new() -> (s: Self)
        ensures
            s@ == ScreenModel::start(),
    {
        let s = Screen {
            session: WasmCpu::new(),
            program_code: starter_program_text().to_string(),
            assembly_lines: Vec::new(),
            notice: None,
            last_registers: vec![0u32; SHOWN_REGISTERS],
            challenge_mode: false,
            current_challenge: None,
            verdict: None,
            tutorial_open: false,
            examples_open: false,
            challenges_open: false,
            isa_ref_open: false,
            help_open: false,
        };
        proof {
            assert(s.assembly_lines.deep_view() =~= Seq::<Seq<char>>::empty());
            assert(s.last_registers@ =~= Seq::new(SHOWN_REGISTERS as nat, |i: int| 0u32));
        }
        s
    }

    /// Opens panel `p`.
    pub fn open_panel(&mut self, p: Panel)
        ensures
            final(self)@ == old(self)@.with_panel(p, true),
    {
        self.set_panel(p, true);
    }

    /// Closes panel `p`.
    pub fn close_panel(&mut self, p: Panel)
        ensures
            final(self)@ == old(self)@.with_panel(p, false),
    {
        self.set_panel(p, false);
    }

    fn set_panel(&mut self, p: Panel, open: bool)
        ensures
            final(self)@ == old(self)@.with_panel(p, open),
    {
        proof {
            use_type_invariant(&*self);
        }
        match p {
            Panel::Tutorial => self.tutorial_open = open,
            Panel::Examples => self.examples_open = open,
            Panel::Challenges => self.challenges_open = open,
            Panel::IsaReference => self.isa_ref_open = open,
            Panel::Help => self.help_open = open,
        }
    }
}

impl Screen {
    /// The session.
    pub fn session(&self) -> (s: &WasmCpu)
        ensures
            s@ == self@.session,
    {
        &self.session
    }

    /// The editor text.
    pub fn program_code(&self) -> (s: &str)
        ensures
            s@ == self@.program_code,
    {
        self.program_code.as_str()
    }

    /// The listing of the last assembly.
    pub fn assembly_lines(&self) -> (l: &Vec<String>)
        ensures
            l.deep_view() == self@.assembly_lines,
    {
        &self.assembly_lines
    }

    /// The notice under the editor.
    pub fn notice(&self) -> (n: &Option<Notice>)
        ensures
            notice_view(*n) == self@.notice,
    {
        &self.notice
    }

    /// The verdict banner.
    pub fn verdict(&self) -> (v: &Option<Verdict>)
        ensures
            verdict_view(*v) == self@.verdict,
    {
        &self.verdict
    }

    /// Whether a challenge is being played.
    pub fn challenge_mode(&self) -> (b: bool)
        ensures
            b == self@.challenge_mode,
    {
        self.challenge_mode
    }

    /// The challenge being played.
    pub fn current_challenge(&self) -> (id: Option<u32>)
        ensures
            id == self@.current_challenge,
    {
        self.current_challenge
    }

    /// Whether panel `p` is open.
    pub fn is_open(&self, p: Panel) -> (b: bool)
        ensures
            b == self@.is_open(p),
    {
        match p {
            Panel::Tutorial => self.tutorial_open,
            Panel::Examples => self.examples_open,
            Panel::Challenges => self.challenges_open,
            Panel::IsaReference => self.isa_ref_open,
            Panel::Help => self.help_open,
        }
    }

    /// The register panel: registers `x0` to `x7`, each marked changed when it differs
    /// from its value before the last step.
    pub fn register_rows(&self) -> (rows: Vec<RegisterRow>)
        ensures
            rows@.len() == SHOWN_REGISTERS,
            forall|i: int| 0 <= i < SHOWN_REGISTERS ==> (#[trigger] rows@[i])@ == register_row(
                i as nat,
                self@.session.cpu.regs[i],
                self@.last_registers[i],
            ),
    {
        proof {
            use_type_invariant(self);
        }
        self.session.cpu().lemma_wf();
        let regs = self.session.get_registers();
        register_rows(regs.as_slice(), self.last_registers.as_slice())
    }

    /// For each line of the listing, whether it is the line of the instruction at the
    /// program counter.
    pub fn current_lines(&self) -> (marks: Vec<bool>)
        ensures
            marks@.len() == self@.assembly_lines.len(),
            forall|i: int| 0 <= i < marks@.len() ==> #[trigger] marks@[i] == (line_address(
                self@.assembly_lines[i],
            ) == Some(self@.session.cpu.pc)),
    {
        let pc = self.session.pc();
        let mut marks: Vec<bool> = Vec::new();
        let mut i: usize = 0;
        while i < self.assembly_lines.len()
            invariant
                i <= self.assembly_lines@.len(),
                pc == self@.session.cpu.pc,
                self@.assembly_lines == self.assembly_lines.deep_view(),
                marks@.len() == i,
                forall|j: int| 0 <= j < i ==> #[trigger] marks@[j] == (line_address(
                    self@.assembly_lines[j],
                ) == Some(pc)),
            decreases self.assembly_lines@.len() - i,
        {
            let m = is_current_line(self.assembly_lines[i].as_str(), pc);
            marks.push(m);
            i = i + 1;
        }
        marks
    }

    /// The first 128 bytes of memory, for the memory viewer.
    pub fn memory_view(&self) -> (bytes: Vec<u8>)
        ensures
            bytes@ == self@.session.cpu.mem.subrange(0, 128),
    {
        self.session.cpu().lemma_wf();
        match self.session.get_memory_slice(0, 128) {
            Ok(bytes) => bytes,
            Err(_) => vec![0u8; 128],
        }
    }

    /// Whether Step and Run are offered: the CPU is not halted.
    pub fn can_step(&self) -> (b: bool)
        ensures
            b == !self@.session.cpu.halted,
    {
        !self.session.is_halted()
    }

    /// The status line: `HALTED` or `RUNNING`.
    pub fn status_text(&self) -> (s: &'static str)
        ensures
            s@ == if self@.session.cpu.halted {
                "HALTED"@
            } else {
                "RUNNING"@
            },
    {
        if self.session.is_halted() {
            "HALTED"
        } else {
            "RUNNING"
        }
    }

    /// The challenge banner, shown in challenge mode with a challenge chosen.
    pub fn banner_text(&self) -> (t: Option<String>)
        ensures
            match (self@.challenge_mode, self@.current_challenge) {
                (true, Some(id)) => t matches Some(s) && s@ == "Challenge Mode - Challenge "@ + dec(
                    id as nat,
                ),
                _ => t is None,
            },
    {
        if self.challenge_mode {
            match self.current_challenge {
                Some(id) => {
                    let mut out: Vec<char> = Vec::new();
                    push_str(&mut out, "Challenge Mode - Challenge ");
                    push_dec(&mut out, id as u64);
                    Some(string_from_chars(out.as_slice()))
                },
                None => None,
            }
        } else {
            None
        }
    }

    /// Assembles the editor text `code` and loads it. `false`, with nothing changed, for a
    /// source on which assembly stops.
    pub fn assemble(&mut self, code: &str) -> (done: bool)
        requires
            instruction_count(code@) < MAX_INSTRUCTIONS,
        ensures
            done == finishes(code@),
            done ==> final(self)@ == old(self)@.after_assemble(code@),
            !done ==> final(self)@ == old(self)@,
    {
        proof {
            use_type_invariant(&*self);
        }
        let mut next = self.session.clone();
        match next.assemble(code) {
            None => false,
            Some(Ok(output)) => {
                self.session = next;
                self.program_code = code.to_owned();
                self.assembly_lines = output.disassembly;
                self.notice = Some(Notice::Assembled);
                true
            },
            Some(Err(message)) => {
                self.program_code = code.to_owned();
                self.assembly_lines = Vec::new();
                self.notice = Some(Notice::AssemblyFailed(message));
                proof {
                    assert(self.assembly_lines.deep_view() =~= Seq::<Seq<char>>::empty());
                }
                true
            },
        }
    }

    /// Executes one instruction.
    pub fn step(&mut self)
        requires
            old(self)@.session.cpu.cycle_count < u64::MAX,
            old(self)@.session.cpu.instruction_count < u64::MAX,
        ensures
            final(self)@ == old(self)@.after_step(),
    {
        proof {
            use_type_invariant(&*self);
        }
        self.session.cpu().lemma_wf();
        let mut next = self.session.clone();
        self.last_registers = next.get_registers();
        match next.step() {
            Ok(_) => {
                self.session = next;
            },
            Err(message) => {
                self.notice = Some(Notice::Failed(message));
            },
        }
    }

    /// Runs the program until `HALT`, an error, or the step limit.
    pub fn run(&mut self)
        ensures
            final(self)@ == old(self)@.after_run(),
    {
        proof {
            use_type_invariant(&*self);
        }
        let mut next = self.session.clone();
        match next.run() {
            Ok(()) => {
                self.session = next;
                self.notice = Some(Notice::Completed);
            },
            Err(message) => {
                self.notice = Some(Notice::Failed(message));
            },
        }
    }

    /// Starts over with a new session; the listing and the notice are cleared.
    pub fn reset(&mut self)
        ensures
            final(self)@ == old(self)@.after_reset(),
    {
        proof {
            use_type_invariant(&*self);
        }
        self.session = WasmCpu::new();
        self.assembly_lines = Vec::new();
        self.notice = None;
        proof {
            assert(self.assembly_lines.deep_view() =~= Seq::<Seq<char>>::empty());
        }
    }

    /// Loads example `i` into the editor with a new session, and closes the examples.
    pub fn load_example(&mut self, i: usize)
        requires
            i < EXAMPLE_COUNT,
        ensures
            final(self)@ == old(self)@.after_load_example(i as nat),
    {
        proof {
            use_type_invariant(&*self);
        }
        let (_, code) = example(i);
        self.session = WasmCpu::new();
        self.notice = None;
        self.program_code = code.to_owned();
        self.examples_open = false;
    }

    /// Enters challenge mode for challenge `id` with its template in the editor, and
    /// closes the challenges.
    pub fn load_challenge(&mut self, id: u32)
        requires
            1 <= id <= 3,
        ensures
            final(self)@ == old(self)@.after_load_challenge(id),
    {
        proof {
            use_type_invariant(&*self);
        }
        self.challenge_mode = true;
        self.current_challenge = Some(id);
        self.program_code = challenge_template_text(id).to_owned();
        self.challenges_open = false;
    }

    /// Leaves challenge mode.
    pub fn exit_challenge(&mut self)
        ensures
            final(self)@ == old(self)@.after_exit_challenge(),
    {
        proof {
            use_type_invariant(&*self);
        }
        self.challenge_mode = false;
        self.current_challenge = None;
        self.verdict = None;
    }

    /// Dismisses the verdict banner.
    pub fn dismiss_verdict(&mut self)
        ensures
            final(self)@ == old(self)@.after_dismiss(),
    {
        proof {
            use_type_invariant(&*self);
        }
        self.verdict = None;
    }

    /// Checks the editor text as a solution of the challenge being played. `false`, with
    /// nothing changed, for a source on which assembly stops.
    pub fn check_solution(&mut self) -> (done: bool)
        requires
            old(self)@.challenge_mode,
            old(self)@.current_challenge is Some,
            instruction_count(old(self)@.program_code) < MAX_INSTRUCTIONS,
        ensures
            ({
                let id = old(self)@.current_challenge->0;
                &&& done == (!(1 <= id <= 3) || finishes(old(self)@.program_code))
                &&& done ==> final(self)@ == old(self)@.after_check(id)
                &&& !done ==> final(self)@ == old(self)@
            }),
    {
        proof {
            use_type_invariant(&*self);
        }
        let id = match self.current_challenge {
            Some(id) => id,
            None => 0,
        };
        match validate_challenge(id, self.program_code.as_str()) {
            None => false,
            Some(Ok(v)) => {
                let verdict = match challenge_message(&v) {
                    Ok(text) => Verdict::Passed(text),
                    Err(text) => Verdict::NotPassed(text),
                };
                self.verdict = Some(verdict);
                true
            },
            Some(Err(message)) => {
                self.verdict = Some(Verdict::Refused(message));
                true
            },
        }
    }
}

// ===== The listing line at the program counter =====

/// `s` up to its first `:`, all of it when it has none (what `split(':').next()` gives).
pub open spec fn before_colon(s: Seq<char>) -> Seq<char> {
    match find(s, ':') {
        Some(i) => s.take(i),
        None => s,
    }
}

/// `s` with every leading `0x` removed, as `trim_start_matches("0x")` does.
pub open spec fn strip_hex_prefix(s: Seq<char>) -> Seq<char>
    decreases s.len(),
{
    if s.len() >= 2 && s[0] == '0' && s[1] == 'x' {
        strip_hex_prefix(s.skip(2))
    } else {
        s
    }
}

/// The address a listing line starts with: its text before the first `:`, without
/// `0x` prefixes, read as hexadecimal.
pub open spec fn line_address(line: Seq<char>) -> Option<u32> {
    parse_u32(strip_hex_prefix(before_colon(line)), 16)
}

fn strip_hex_prefix_exec(s: &[char]) -> (r: &[char])
    ensures
        r@ == strip_hex_prefix(s@),
    decreases s@.len(),
{
    if s.len() >= 2 && s[0] == '0' && s[1] == 'x' {
        let rest = slice_subrange(s, 2, s.len());
        proof {
            assert(rest@ =~= s@.skip(2));
        }
        strip_hex_prefix_exec(rest)
    } else {
        s
    }
}

/// Whether a listing line is the one of the instruction at `pc`: its address equals
/// `pc`.
pub fn is_current_line(line: &str, pc: u32) -> (b: bool)
    ensures
        b == (line_address(line@) == Some(pc)),
{
    let chars = chars_of(line);
    let head: &[char] = match find_char(chars.as_slice(), ':') {
        Some(i) => slice_subrange(chars.as_slice(), 0, i),
        None => chars.as_slice(),
    };
    proof {
        assert(head@ =~= before_colon(line@));
    }
    let digits = strip_hex_prefix_exec(head);
    match parse_u32_hex(digits) {
        Some(a) => a == pc,
        None => false,
    }
}

/// The head of listing line `index` reads back as its address, `4 * index`, when that
/// fits in 32 bits.
pub proof fn lemma_listing_address(index: nat, inst: Instruction, stmt: Seq<char>)
    ensures
        line_address(listing(index, inst, stmt)) == if index * 4 <= u32::MAX {
            Some((index * 4) as u32)
        } else {
            None::<u32>
        },
{
    let h = hex(index * 4);
    let p = zero_padded(h, 4);
    let line = listing(index, inst, stmt);
    lemma_hex_reads_back(index * 4);
    lemma_zero_padded_reads_back(h, 4, 16);
    assert(all_digits(p, 16));
    assert forall|j: int| 0 <= j < p.len() implies line[j] != ':' by {
        assert(line[j] == p[j]);
        assert(digit_value(p[j]) < 16);
    }
    reveal_strlit(": ");
    assert(line =~= p + (": "@ + inst.text() + " | "@ + stmt));
    assert(line[p.len() as int] == ':');
    assert(find(line, ':') == Some(p.len() as int)) by {
        reveal(find);
        let w = choose|w: int| 0 <= w < line.len() && line[w] == ':' && forall|j: int| 0 <= j < w ==> line[j] != ':';
        assert(w == p.len()) by {
            if w < p.len() {
                assert(line[w] != ':');
            } else if w > p.len() {
                assert(line[p.len() as int] != ':');
            }
        }
    }
    assert(before_colon(line) =~= p);
    assert(p.len() >= 1);
    assert(digit_value(p[0]) < 16);
    if p.len() >= 2 {
        assert(digit_value(p[1]) < 16);
    }
    assert(strip_hex_prefix(p) == p);
    assert(int_value(p, 16, false) == Some((index * 4) as int));
}

/// In the listing of an assembled program, line `i` is the one highlighted exactly when
/// the program counter is `4 * i`.
pub proof fn law_highlight_follows_pc(src: Seq<char>, pc: u32)
    ensures
        assembly(src) matches Ok((insts, listed)) ==> forall|i: int| 0 <= i < listed.len() ==> (
            line_address(#[trigger] listed[i]) == Some(pc) <==> pc == 4 * i),
{
    crate::assembler::law_listing_lines(src);
    if let Ok((insts, listed)) = assembly(src) {
        let texts = crate::assembler::statement_texts(crate::text::lines(src));
        assert forall|i: int| 0 <= i < listed.len() implies (line_address(#[trigger] listed[i])
            == Some(pc) <==> pc == 4 * i) by {
            lemma_listing_address(i as nat, insts[i], texts[i]);
        }
    }
}

} // verus!
