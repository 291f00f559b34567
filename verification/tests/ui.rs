use riscv_emulator::ui::{
    challenge_message, example, is_current_line, register_rows, Notice, Panel, Screen, Verdict,
    EXAMPLE_COUNT,
};
use riscv_emulator::{TestResult, ValidationResult};

#[test]
fn register_rows_show_hex_signed_and_changes() {
    let mut regs = vec![0u32; 32];
    regs[1] = 5;
    regs[2] = 0xFFFF_FFFF;
    regs[7] = 0x8000_0000;
    let last = vec![0u32, 5, 0, 0, 0, 0, 0, 0];
    let rows = register_rows(&regs, &last);
    assert_eq!(rows.len(), 8);
    assert_eq!(rows[0].name, "x0");
    assert_eq!(rows[0].value, "0x00000000 (0)");
    assert!(!rows[0].changed);
    assert_eq!(rows[1].value, "0x00000005 (5)");
    assert!(!rows[1].changed);
    assert_eq!(rows[2].name, "x2");
    assert_eq!(rows[2].value, "0xFFFFFFFF (-1)");
    assert!(rows[2].changed);
    assert_eq!(rows[7].name, "x7");
    assert_eq!(rows[7].value, "0x80000000 (-2147483648)");
    assert!(rows[7].changed);
}

#[test]
fn current_line_follows_the_address() {
    assert!(is_current_line("0004: ADDI x1, x0, 5 | ADDI x1, x0, 5", 4));
    assert!(!is_current_line("0004: ADDI x1, x0, 5 | ADDI x1, x0, 5", 0));
    assert!(is_current_line("0000: HALT | HALT", 0));
    assert!(is_current_line("0x10: anything", 16));
    assert!(is_current_line("0x0x1C", 28));
    assert!(is_current_line("+8: x", 8));
    assert!(!is_current_line("zz: x", 0));
    assert!(!is_current_line("", 0));
    assert!(!is_current_line(": x", 0));
    assert!(!is_current_line("100000000: x", 0));
}

fn report(name: &str, passed: bool, error: Option<&str>, cycles: u64, instructions: u64) -> TestResult {
    TestResult {
        test_name: name.to_string(),
        passed,
        error: error.map(|e| e.to_string()),
        cycles,
        instructions,
    }
}

#[test]
fn challenge_message_for_pass_and_fail() {
    let passed = ValidationResult {
        challenge_id: 2,
        passed: true,
        test_results: vec![report("a", true, None, 3, 4), report("b", true, None, 10, 11)],
    };
    assert_eq!(
        challenge_message(&passed),
        Ok("✅ Challenge 2 PASSED!\n\n✓ a\n  Cycles: 3, Instructions: 4\n✓ b\n  Cycles: 10, Instructions: 11\n"
            .to_string())
    );
    let failed = ValidationResult {
        challenge_id: 3,
        passed: false,
        test_results: vec![
            report("a", true, None, 1, 1),
            report("b", false, Some("boom"), 1, 1),
            report("c", false, None, 1, 1),
        ],
    };
    assert_eq!(
        challenge_message(&failed),
        Err("❌ Challenge 3 did not pass.\n\n✓ a\n✗ b\n  Error: boom\n✗ c\n".to_string())
    );
}

#[test]
fn screen_starts_with_the_starter_program() {
    let screen = Screen::new();
    assert!(screen.program_code().starts_with("; Example: Add two numbers"));
    assert!(screen.program_code().ends_with("HALT"));
    assert!(screen.assembly_lines().is_empty());
    assert!(screen.notice().is_none());
    assert!(screen.verdict().is_none());
    assert!(!screen.challenge_mode());
    assert!(screen.can_step());
    assert_eq!(screen.status_text(), "RUNNING");
    assert_eq!(screen.memory_view(), vec![0u8; 128]);
    assert!(screen.banner_text().is_none());
    assert!(!screen.is_open(Panel::Help));
}

#[test]
fn screen_assembles_steps_and_runs() {
    let mut screen = Screen::new();
    let code = screen.program_code().to_string();
    assert!(screen.assemble(&code));
    assert!(matches!(screen.notice(), Some(Notice::Assembled)));
    assert_eq!(screen.assembly_lines().len(), 4);
    assert_eq!(screen.current_lines(), vec![true, false, false, false]);
    screen.step();
    assert_eq!(screen.session().read_register(1), Ok(5));
    assert_eq!(screen.current_lines(), vec![false, true, false, false]);
    let rows = screen.register_rows();
    assert!(rows[1].changed);
    assert!(!rows[2].changed);
    screen.step();
    let rows = screen.register_rows();
    assert!(!rows[1].changed);
    assert!(rows[2].changed);
    screen.run();
    assert!(matches!(screen.notice(), Some(Notice::Completed)));
    assert_eq!(screen.session().read_register(3), Ok(15));
    assert!(!screen.can_step());
    assert_eq!(screen.status_text(), "HALTED");
    screen.step();
    match screen.notice() {
        Some(Notice::Failed(m)) => assert_eq!(m, "Execution error: CPU is halted"),
        other => panic!("unexpected notice {:?}", other),
    }
    screen.reset();
    assert!(screen.assembly_lines().is_empty());
    assert!(screen.notice().is_none());
    assert!(screen.can_step());
    assert_eq!(screen.session().pc(), 0);
}

#[test]
fn screen_reports_assembly_errors_and_keeps_the_session() {
    let mut screen = Screen::new();
    assert!(screen.assemble("ADDI x1, x0, 7\nHALT"));
    assert!(screen.assemble("ADD x1"));
    assert_eq!(screen.program_code(), "ADD x1");
    assert!(screen.assembly_lines().is_empty());
    match screen.notice() {
        Some(Notice::AssemblyFailed(m)) => assert_eq!(
            m,
            "Parse error on line 1: Invalid operand: ADD requires 3 operands: rd, rs1, rs2"
        ),
        other => panic!("unexpected notice {:?}", other),
    }
    screen.run();
    assert_eq!(screen.session().read_register(1), Ok(7));
    assert!(!screen.assemble("SW x1, )(x2"));
    assert_eq!(screen.program_code(), "ADD x1");
}

#[test]
fn failed_step_leaves_the_cpu() {
    let mut screen = Screen::new();
    screen.step();
    match screen.notice() {
        Some(Notice::Failed(m)) => assert_eq!(m, "PC out of program bounds"),
        other => panic!("unexpected notice {:?}", other),
    }
    assert_eq!(screen.session().pc(), 0);
    assert_eq!(screen.session().cycle_count(), 0);
}

#[test]
fn panels_open_and_close_alone() {
    let mut screen = Screen::new();
    screen.open_panel(Panel::Examples);
    screen.open_panel(Panel::Tutorial);
    assert!(screen.is_open(Panel::Examples));
    assert!(screen.is_open(Panel::Tutorial));
    assert!(!screen.is_open(Panel::Challenges));
    screen.close_panel(Panel::Tutorial);
    assert!(!screen.is_open(Panel::Tutorial));
    assert!(screen.is_open(Panel::Examples));
    screen.load_example(3);
    assert!(!screen.is_open(Panel::Examples));
    assert!(screen.program_code().contains("BLT x1, x2, LOOP"));
    assert!(screen.assemble(&screen.program_code().to_string()));
    assert_eq!(screen.assembly_lines()[3], "000C: BLT x1, x2, -2 | BLT x1, x2, LOOP");
    // The label offset counts instructions, and the CPU adds it to the PC as bytes, so
    // the branch lands inside the loop's third instruction and the loop never ends.
    screen.run();
    match screen.notice() {
        Some(Notice::Failed(m)) => assert_eq!(m, "Execution timeout (infinite loop?)"),
        other => panic!("unexpected notice {:?}", other),
    }
    // A run that fails leaves the CPU as it was before the run.
    assert_eq!(screen.session().read_register(1), Ok(0));
    assert_eq!(screen.session().instruction_count(), 0);
}

#[test]
fn examples_are_listed() {
    assert_eq!(EXAMPLE_COUNT, 4);
    assert_eq!(example(0).0, "Example 1: Add Two Numbers");
    assert_eq!(example(1).0, "Example 2: Subtraction");
    assert_eq!(example(2).0, "Example 3: Chained Operations");
    assert_eq!(example(3).0, "Example 4: Loop with Branch");
    let mut screen = Screen::new();
    screen.load_example(1);
    assert!(screen.assemble(&screen.program_code().to_string()));
    screen.run();
    assert_eq!(screen.session().read_register(3), Ok(13));
}

#[test]
fn challenge_flow() {
    let mut screen = Screen::new();
    screen.open_panel(Panel::Challenges);
    screen.load_challenge(1);
    assert!(!screen.is_open(Panel::Challenges));
    assert!(screen.challenge_mode());
    assert_eq!(screen.current_challenge(), Some(1));
    assert!(screen.program_code().starts_with("; Challenge 1: Load and Halt"));
    assert_eq!(screen.banner_text(), Some("Challenge Mode - Challenge 1".to_string()));

    assert!(screen.check_solution());
    match screen.verdict() {
        Some(Verdict::NotPassed(m)) => assert_eq!(
            m,
            "❌ Challenge 1 did not pass.\n\n✗ x1 should contain 42\n  Error: Register x1 mismatch: expected 0x0000002A, got 0x00000000\n"
        ),
        other => panic!("unexpected verdict {:?}", other),
    }

    assert!(screen.assemble("ADDI x1, x0, 42\nHALT"));
    assert!(screen.check_solution());
    match screen.verdict() {
        Some(Verdict::Passed(m)) => assert_eq!(
            m,
            "✅ Challenge 1 PASSED!\n\n✓ x1 should contain 42\n  Cycles: 1, Instructions: 2\n"
        ),
        other => panic!("unexpected verdict {:?}", other),
    }
    screen.dismiss_verdict();
    assert!(screen.verdict().is_none());

    assert!(screen.assemble("BOGUS"));
    assert!(screen.check_solution());
    match screen.verdict() {
        Some(Verdict::Refused(m)) => {
            assert_eq!(m, "Assembly error: Parse error on line 1: Invalid instruction: BOGUS")
        }
        other => panic!("unexpected verdict {:?}", other),
    }

    screen.exit_challenge();
    assert!(!screen.challenge_mode());
    assert_eq!(screen.current_challenge(), None);
    assert!(screen.verdict().is_none());
    assert!(screen.banner_text().is_none());
}

#[test]
fn reset_clears_memory_program_and_listing() {
    let mut screen = Screen::new();
    assert!(screen.assemble("ADDI x1, x0, 77\nSB x1, 0x10(x0)\nHALT"));
    screen.run();
    assert_eq!(screen.memory_view()[0x10], 77);
    screen.reset();
    assert_eq!(screen.memory_view(), vec![0u8; 128]);
    assert!(screen.assembly_lines().is_empty());
    screen.step();
    match screen.notice() {
        Some(Notice::Failed(m)) => assert_eq!(m, "PC out of program bounds"),
        other => panic!("unexpected notice {:?}", other),
    }
}
