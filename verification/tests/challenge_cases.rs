use riscv_emulator::challenge::{challenge_1_load_and_halt, get_all_challenges};
use riscv_emulator::{Challenge, Difficulty, Instruction, TestCase};

fn open_challenge(cases: Vec<TestCase>) -> Challenge {
    Challenge {
        id: 9,
        title: "t".to_string(),
        description: "d".to_string(),
        difficulty: Difficulty::Advanced,
        test_cases: cases,
        max_cycles: None,
        max_instructions: None,
        hints: vec![],
        learning_objectives: vec![],
    }
}

#[test]
fn all_challenges_in_order() {
    let all = get_all_challenges();
    assert_eq!(all.len(), 3);
    assert_eq!(all[0].id, 1);
    assert_eq!(all[1].title, "Challenge 2: Simple Addition");
    assert_eq!(all[2].test_cases[0].initial_registers, vec![(1, 100)]);
    assert_eq!(all[0].max_instructions, Some(10));
    assert_eq!(all[1].hints.len(), 3);
}

#[test]
fn mismatch_is_reported_in_the_result() {
    let challenge = challenge_1_load_and_halt();
    let result = challenge
        .validate_solution(&[Instruction::Addi { rd: 1, rs1: 0, imm: 99 }])
        .unwrap();
    assert!(!result.passed);
    assert_eq!(result.challenge_id, 1);
    let t = &result.test_results[0];
    assert_eq!(t.test_name, "x1 should contain 42");
    assert_eq!(
        t.error.as_deref(),
        Some("Register x1 mismatch: expected 0x0000002A, got 0x00000063")
    );
    assert_eq!(t.cycles, 1);
    assert_eq!(t.instructions, 1);
}

#[test]
fn limits_and_failures_are_errors() {
    let challenge = challenge_1_load_and_halt();
    let nops = vec![Instruction::Nop; 11];
    assert_eq!(
        challenge.validate_solution(&nops).unwrap_err(),
        "Test 1: Exceeded instruction limit (11 > 10)"
    );
    let jump = vec![Instruction::Jalr { rd: 1, rs1: 0, offset: 2000 }];
    assert_eq!(
        challenge.validate_solution(&jump).unwrap_err(),
        "Test 1: Execution error: Program counter out of bounds: 0x7D0"
    );
    let mut limited = challenge_1_load_and_halt();
    limited.max_cycles = Some(2);
    limited.max_instructions = None;
    assert_eq!(
        limited.validate_solution(&[Instruction::Nop; 3]).unwrap_err(),
        "Test 1: Exceeded cycle limit (3 > 2)"
    );
}

#[test]
fn timeout_and_setup_errors() {
    let case = TestCase {
        name: "n".to_string(),
        initial_registers: vec![],
        expected_registers: vec![],
        expected_memory: vec![(0x10, 0)],
    };
    // Jumps to itself never leave the program area, so the step limit is what stops them.
    let spin = vec![Instruction::Jal { rd: 0, offset: 0 }; 10001];
    let challenge = open_challenge(vec![case.clone()]);
    assert_eq!(
        challenge.validate_solution(&spin).unwrap_err(),
        "Test 1: Execution timeout (infinite loop?)"
    );
    // Straight-line code runs off the end of memory first.
    let long = vec![Instruction::Nop; 300];
    assert_eq!(
        challenge.validate_solution(&long).unwrap_err(),
        "Test 1: Execution error: Program counter out of bounds: 0x400"
    );
    let bad_setup = TestCase { initial_registers: vec![(40, 1)], ..case.clone() };
    let challenge = open_challenge(vec![case.clone(), bad_setup]);
    assert_eq!(
        challenge.validate_solution(&[]).unwrap_err(),
        "Test 2: Failed to set register: Invalid register: x40 (must be 0-31)"
    );
}

#[test]
fn memory_expectations_and_sequential_run() {
    let case = TestCase {
        name: "mem".to_string(),
        initial_registers: vec![(1, 0x1FF)],
        expected_registers: vec![(0, 0)],
        expected_memory: vec![(0x1FF, 0x7F), (0x400, 0)],
    };
    let challenge = open_challenge(vec![case]);
    // The program runs in order: the branch moves the PC but the next instruction still runs.
    let program = vec![
        Instruction::Beq { rs1: 0, rs2: 0, offset: 100 },
        Instruction::Addi { rd: 2, rs1: 0, imm: 0x7F },
        Instruction::Sb { rs2: 2, rs1: 1, offset: 0 },
    ];
    let result = challenge.validate_solution(&program).unwrap();
    assert_eq!(
        result.test_results[0].error.as_deref(),
        Some("Invalid memory address: Memory access out of bounds: 0x400 (size: 1 bytes)")
    );
    let case = TestCase {
        name: "wrong byte".to_string(),
        initial_registers: vec![],
        expected_registers: vec![],
        expected_memory: vec![(0x20, 5)],
    };
    let result = open_challenge(vec![case]).validate_solution(&[]).unwrap();
    assert_eq!(
        result.test_results[0].error.as_deref(),
        Some("Memory[0x0020] mismatch: expected 0x05, got 0x00")
    );
}

#[test]
fn passes_only_when_every_case_passes() {
    let ok = TestCase {
        name: "a".to_string(),
        initial_registers: vec![],
        expected_registers: vec![(1, 1)],
        expected_memory: vec![],
    };
    let bad = TestCase { name: "b".to_string(), expected_registers: vec![(1, 2)], ..ok.clone() };
    let program = [Instruction::Addi { rd: 1, rs1: 0, imm: 1 }, Instruction::Halt];
    let result = open_challenge(vec![ok.clone(), bad]).validate_solution(&program).unwrap();
    assert_eq!(result.test_results.len(), 2);
    assert!(result.test_results[0].passed);
    assert!(!result.test_results[1].passed);
    assert!(!result.passed);
    let result = open_challenge(vec![ok.clone(), ok]).validate_solution(&program).unwrap();
    assert!(result.passed);
    assert_eq!(result.test_results[1].test_name, "a");
}
