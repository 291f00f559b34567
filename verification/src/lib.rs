//! A RISC-V RV32I teaching emulator: an assembler for a small instruction subset, a CPU
//! simulator, and a challenge system that runs programs against test cases.
pub mod assembler;
pub mod challenge;
pub mod cpu;
pub mod session;
pub mod text;
pub mod ui;

pub use assembler::{assemble, try_assemble, AssemblyError, AssemblyOutput};
pub use challenge::{Challenge, Difficulty, TestCase, TestResult, ValidationResult};
pub use cpu::{execute, CpuError, CpuState, Instruction, StatusFlags};
pub use session::WasmCpu;
