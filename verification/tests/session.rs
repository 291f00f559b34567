use riscv_emulator::session::{challenge_by_id, get_challenge_count, validate_challenge};
use riscv_emulator::WasmCpu;

#[test]
fn assemble_step_and_run() {
    let mut cpu = WasmCpu::new();
    let out = cpu.assemble("ADDI x1, x0, 5\nADDI x2, x1, 10\nHALT").unwrap().unwrap();
    assert_eq!(out.instructions.len(), 3);
    assert_eq!(cpu.step(), Ok(true));
    assert_eq!(cpu.read_register(1), Ok(5));
    assert_eq!(cpu.pc(), 4);
    assert_eq!(cpu.run(), Ok(()));
    assert!(cpu.is_halted());
    assert_eq!(cpu.read_register(2), Ok(15));
    assert_eq!(cpu.cycle_count(), 2);
    assert_eq!(cpu.instruction_count(), 3);
    assert_eq!(cpu.step(), Err("Execution error: CPU is halted".to_string()));
    cpu.reset();
    assert!(!cpu.is_halted());
    assert_eq!(cpu.read_register(1), Ok(0));
    assert_eq!(cpu.run(), Ok(()));
    assert_eq!(cpu.get_registers()[2], 15);
    assert_eq!(cpu.get_registers().len(), 32);
}

#[test]
fn session_errors() {
    let mut cpu = WasmCpu::new();
    assert_eq!(cpu.step(), Err("PC out of program bounds".to_string()));
    assert_eq!(
        cpu.assemble("ADD x1").unwrap().err(),
        Some("Parse error on line 1: Invalid operand: ADD requires 3 operands: rd, rs1, rs2".to_string())
    );
    assert!(cpu.assemble("SW x1, )(x2").is_none());
    assert_eq!(
        cpu.read_register(40),
        Err("Register error: Invalid register: x40 (must be 0-31)".to_string())
    );
    assert_eq!(
        cpu.read_memory(5000),
        Err("Memory error: Memory access out of bounds: 0x1388 (size: 1 bytes)".to_string())
    );
    assert_eq!(
        cpu.get_memory_slice(0x3FF, 2),
        Err("Memory error: Memory access out of bounds: 0x3FF (size: 2 bytes)".to_string())
    );
    assert_eq!(cpu.get_memory_slice(0, 3), Ok(vec![0, 0, 0]));
    assert_eq!(cpu.get_flags(), "Z=0 N=0 C=0 V=0");
}

#[test]
fn run_times_out_on_a_loop() {
    let mut cpu = WasmCpu::new();
    cpu.assemble("J 0").unwrap().unwrap();
    assert_eq!(cpu.run(), Err("Execution timeout (infinite loop?)".to_string()));
    assert_eq!(cpu.instruction_count(), 10000);
}

#[test]
fn challenge_entry_points() {
    assert_eq!(get_challenge_count(), 3);
    assert_eq!(challenge_by_id(2).unwrap().id, 2);
    assert_eq!(challenge_by_id(4).unwrap_err(), "Challenge 4 not found");
    let r = validate_challenge(1, "ADDI x1, x0, 42\nHALT").unwrap().unwrap();
    assert!(r.passed);
    assert_eq!(
        validate_challenge(1, "FOO").unwrap().unwrap_err(),
        "Assembly error: Parse error on line 1: Invalid instruction: FOO"
    );
    assert_eq!(
        validate_challenge(1, "ADDI x1, x0, 1\nJALR x1, 2000(x0)").unwrap().unwrap_err(),
        "Validation error: Test 1: Execution error: Program counter out of bounds: 0x7D0"
    );
    assert_eq!(validate_challenge(0, "HALT").unwrap().unwrap_err(), "Challenge 0 not found");
}
