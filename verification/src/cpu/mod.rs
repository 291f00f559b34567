//! The simulated CPU: instructions, state, and the execution of one instruction.
pub mod instruction;
pub mod state;
pub mod executor;

pub use executor::execute;
pub use instruction::Instruction;
pub use state::{CpuError, CpuState, StatusFlags};
