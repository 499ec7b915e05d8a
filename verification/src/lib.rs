//! An 8086 interpreter for MINIX a.out executables: the image loader, the
//! instruction decoder and executor, the MINIX system-call decoder and the
//! disassembly listing that the interpreter prints while it runs.
pub mod binary;
pub mod disasm;
pub mod laws;
pub mod machine;
pub mod minix;
pub mod runtime;
pub mod text;
