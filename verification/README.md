# riscv_emulator

A RISC-V RV32I teaching emulator with its behaviour proved in Verus: an assembler for a
small instruction subset, a CPU simulator with 32 registers and 1 KiB of memory, a
challenge system that runs programs against test cases, and the decisions of the game
screen.

## Layout

- `src/text.rs`: character-level helpers (whitespace, decimal and hexadecimal text,
  integer parsing, lines and words) with their specifications.
- `src/cpu/`: instructions and their text, the CPU state (`CpuState`, viewed as
  `CpuModel`), and `execute`, specified instruction by instruction (arithmetic, logic,
  shifts, signed and unsigned compares, loads, stores, branches, jumps, `LUI`, `AUIPC`,
  `NOP`, `HALT`).
- `src/assembler.rs`: two-pass assembly of source text into instructions and a listing,
  with the `MV` and `LI` pseudo-instructions (`LI` becomes `LUI` and `ADDI` when its value
  does not fit 12 bits).
- `src/challenge.rs`: test cases, challenges, and validation of a solution.
- `src/session.rs`: a CPU with its assembled program, stepped and run by the program
  counter, and the challenge entry points with text errors.
- `src/ui.rs`: what each button of the game screen does, and what the register panel,
  the listing highlight and the challenge banner show.
- `app/`: the browser bindings (`wasm-bindgen`, JSON through `serde`).

The laws of the library are the `law_*` proof functions: `x0` is hardwired, writes read
back, execution keeps the state well formed, only stores change memory and only the
destination register changes, where the program counter goes, a failed instruction is
only counted, a halted CPU refuses instructions, the text of an instruction assembles
back to it, distinct instructions have distinct mnemonics, the listing lines follow the
statements, the listing line at the program counter is the one highlighted, and others.
