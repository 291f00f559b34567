use riscv_emulator::challenge::{
    challenge_1_load_and_halt, challenge_2_simple_addition, challenge_3_register_transfer,
};
use riscv_emulator::Instruction;

#[test]
fn test_challenge_1_valid_solution() {
    let challenge = challenge_1_load_and_halt();

    let program = vec![
        Instruction::Addi {
            rd: 1,
            rs1: 0,
            imm: 42,
        },
        Instruction::Halt,
    ];

    let result = challenge.validate_solution(&program).unwrap();
    assert!(result.passed);
    assert_eq!(result.test_results.len(), 1);
    assert!(result.test_results[0].passed);
}

#[test]
fn test_challenge_1_wrong_value() {
    let challenge = challenge_1_load_and_halt();

    let program = vec![
        Instruction::Addi {
            rd: 1,
            rs1: 0,
            imm: 99, // Wrong value!
        },
        Instruction::Halt,
    ];

    let result = challenge.validate_solution(&program).unwrap();
    assert!(!result.passed);
}

#[test]
fn test_challenge_2_valid_solution() {
    let challenge = challenge_2_simple_addition();

    let program = vec![
        Instruction::Addi {
            rd: 2,
            rs1: 0,
            imm: 5,
        },
        Instruction::Addi {
            rd: 3,
            rs1: 0,
            imm: 3,
        },
        Instruction::Add {
            rd: 1,
            rs1: 2,
            rs2: 3,
        },
        Instruction::Halt,
    ];

    let result = challenge.validate_solution(&program).unwrap();
    assert!(result.passed);
}

#[test]
fn test_challenge_3_valid_solution() {
    let challenge = challenge_3_register_transfer();

    let program = vec![
        Instruction::Add {
            rd: 2,
            rs1: 1,
            rs2: 0,
        }, // x2 = x1 + x0
        Instruction::Halt,
    ];

    let result = challenge.validate_solution(&program).unwrap();
    assert!(result.passed);
    assert_eq!(
        result.test_results[0].test_name,
        "x2 should equal x1 (both 100)"
    );
}
