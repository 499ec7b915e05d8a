# ruvm

An interpreter for 8086 programs in MINIX a.out format.

- `src/binary.rs`: the a.out image and its text and data segments.
- `src/machine.rs`: the semantics of one machine step as spec functions
  (decoding, execution, faults, the initial stack), with the laws proved
  over them.
- `src/runtime.rs`: the machine itself; `Runtime::step` runs one instruction
  and is proved to do what `step_spec` says, `Runtime::init_stack` builds the
  argument and environment frame.
- `src/disasm.rs`: the listing line printed for each instruction.
- `src/minix.rs`: decoding of MINIX system-call messages.
- `src/text.rs`: hexadecimal formatting.
- `app/main.rs`: command line, file reading, printing, the `write` and `exit`
  system calls, and the loop that runs the machine step by step.
