# chip8

A CHIP-8 interpreter whose instruction semantics are verified with Verus.

- `src/model.rs`: the mathematical machine (`CpuModel`) and the meaning of
  every instruction (`execute`, `step`) together with the conditions under
  which an instruction is defined (`execute_defined`, `step_defined`).
- `src/cpu.rs`: the executable machine `CPU`; each operation is proved to
  refine the model.
- `src/laws.rs`: properties of the instruction set proved over the model
  (call/return, drawing twice, store/load, carries, key wait, ...).
- `src/emulator.rs`, `src/game.rs`, `src/display.rs`, `src/keys.rs`: the
  state behind the web and desktop front ends.
- `app/`: the command-line runner, the ggez desktop front end and the
  WebAssembly bindings.
