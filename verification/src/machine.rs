//! The semantics of the interpreter as spec functions over `RuntimeView`.
//!
//! Each function follows one part of an instruction step and gives the state
//! after it together with its result, or the `Fault` that stops the machine and
//! the state at that point.
use vstd::prelude::*;
use crate::runtime::{StackFrame, RuntimeView, OpView, cleared_op, with_flags, flag_c, fields_ok, machine_wf, MEM_SIZE};
use crate::disasm::{
    rm_renderable, add_text, xor_text, jnb_text, sub_text, cmp_text, mov_rm_text, lea_text, mov_text,
    test_text, syscall_text, log_text, reg_state_text,
};
use crate::text::hex;
use crate::minix::{SyscallRequest, syscall_request_spec};

verus! {

/// How the interpreter stops on an input that it does not handle.
#[derive(Clone, Copy, Debug, PartialEq, Eq, Structural)]
pub enum Fault {
    /// panics with "not implemented yet"
    NotImplementedYet,
    /// panics with "not yet implemented"
    NotYetImplemented,
    /// panics with "to register not implemented yet"
    ToRegisterNotImplemented,
    /// panics with "no such op"
    NoSuchOp,
    /// panics with "no such reg pattern"
    NoSuchRegPattern,
    /// panics with "no such pattern"
    NoSuchPattern,
    /// a write to an 8-bit register: prints "not impleented 0 in writeToReg"
    /// and exits with status 1
    ByteRegisterWrite,
    /// an opcode it does not know: prints "unrecognized operator" and the
    /// opcode, and exits with status 1
    UnrecognizedOperator(u8),
    /// a MINIX message type it does not know: panics with "not supported"
    UnsupportedSyscall(u16),
    /// an operand width other than 0 or 1: panics with "no such w"
    NoSuchW(u8),
    /// an index past the end of the text or of the data memory
    IndexOutOfBounds,
    /// an addition that overflows its integer type
    ArithmeticOverflow,
}

/// Which listing an executed instruction prints.
#[derive(Clone, Copy, Debug, PartialEq, Eq, Structural)]
pub enum Listing {
    Add,
    Xor,
    Jnb,
    Sub,
    Cmp,
    MovRm,
    Lea,
    MovImm,
    Test,
    Syscall,
}

/// The outcome of one step, strings taken as characters.
#[allow(inconsistent_fields)]
pub enum StepView {
    Executed { log: Option<Seq<char>>, halted: bool },
    SystemCall { log: Seq<char>, request: Result<SyscallRequest, Fault>, halted: bool },
    Faulted(Fault),
}

/// The 16-bit word with low byte `lo` and high byte `hi`.
pub open spec fn word(lo: u8, hi: u8) -> u16 {
    (hi as nat * 256 + lo as nat) as u16
}

/// A word read as a two's complement number.
pub open spec fn s16(v: u16) -> int {
    if v >= 0x8000 { v as int - 0x10000 } else { v as int }
}

/// A byte read as a two's complement number.
pub open spec fn s8(b: u8) -> int {
    if b >= 0x80 { b as int - 0x100 } else { b as int }
}

pub open spec fn fits_i16(x: int) -> bool {
    -0x8000 <= x <= 0x7fff
}

/// `x` modulo 2^16.
pub open spec fn wrap16(x: int) -> u16 {
    (x % 0x10000) as u16
}

pub open spec fn with_oi(v: RuntimeView, oi: OpView) -> RuntimeView {
    RuntimeView { oi: oi, ..v }
}

/// Reads the byte at `pc`, appends it to the listing bytes when listing,
/// and advances `pc`.
pub open spec fn fetch_spec(v: RuntimeView) -> (RuntimeView, Result<u8, Fault>) {
    if v.pc >= v.text.len() {
        (v, Err(Fault::IndexOutOfBounds))
    } else if v.pc == 0xffff {
        (v, Err(Fault::ArithmeticOverflow))
    } else {
        let b = v.text[v.pc as int];
        (RuntimeView { pc: (v.pc + 1) as u16, raw: if v.debug { v.raw.push(b) } else { v.raw }, ..v }, Ok(b))
    }
}

/// Two bytes in little-endian order.
pub open spec fn fetch2_spec(v: RuntimeView) -> (RuntimeView, Result<u16, Fault>) {
    let (v1, r1) = fetch_spec(v);
    match r1 {
        Err(e) => (v1, Err(e)),
        Ok(d1) => {
            let (v2, r2) = fetch_spec(v1);
            match r2 {
                Err(e) => (v2, Err(e)),
                Ok(d2) => (v2, Ok(word(d1, d2))),
            }
        },
    }
}

/// The mod, reg and r/m fields of a ModR/M byte.
pub open spec fn modrm_fields(b: u8) -> (u8, u8, u8) {
    ((b / 64) as u8, ((b / 8) % 8) as u8, (b % 8) as u8)
}

/// A ModR/M byte is its three fields put back together: `mod` in the top two
/// bits, `reg` in the next three, `r/m` in the low three.
pub proof fn lemma_modrm_recombine(b: u8)
    ensures
        modrm_fields(b).0 < 4,
        modrm_fields(b).1 < 8,
        modrm_fields(b).2 < 8,
        modrm_fields(b).0 as int * 64 + modrm_fields(b).1 as int * 8 + modrm_fields(b).2 as int == b as int,
{
}

/// The effective address of the r/m operand: a direct address (mod 0, r/m 6),
/// BX plus displacement (r/m 7), or the register number (mod 3).
pub open spec fn eaddr_spec(v: RuntimeView) -> (RuntimeView, Result<(), Fault>) {
    let oi = v.oi;
    if oi.m == 0 && oi.rm == 6 {
        let (v1, r) = fetch2_spec(v);
        match r {
            Err(e) => (v1, Err(e)),
            Ok(a) => (with_oi(v1, OpView { eaddr: a, ..v1.oi }), Ok(())),
        }
    } else if oi.m == 2 {
        (v, Err(Fault::NotYetImplemented))
    } else if oi.m == 3 {
        (with_oi(v, OpView { eaddr: oi.rm as u16, ..oi }), Ok(()))
    } else {
        let (v1, r) = if oi.m == 1 {
            let (v0, r0) = fetch_spec(v);
            match r0 {
                Err(e) => (v0, Err(e)),
                Ok(b) => (with_oi(v0, OpView { disp: s8(b) as i16, ..v0.oi }), Ok(())),
            }
        } else {
            (v, Ok(()))
        };
        match r {
            Err(e) => (v1, Err(e)),
            Ok(_) => if v1.oi.rm == 7 {
                (with_oi(v1, OpView { eaddr: wrap16(v1.regs[3] as int + v1.oi.disp as int), ..v1.oi }), Ok(()))
            } else {
                (v1, Err(Fault::NotImplementedYet))
            },
        }
    }
}

/// Register `reg` in the width of the current instruction: for 8 bits,
/// AL CL DL BL are the low bytes of AX CX DX BX and AH CH DH BH their high bytes.
pub open spec fn read_register_spec(v: RuntimeView, reg: u8) -> u16 {
    if v.oi.w == 0 {
        if reg < 4 {
            (v.regs[reg as int] % 256) as u16
        } else {
            (v.regs[reg - 4] / 256) as u16
        }
    } else {
        v.regs[reg as int]
    }
}

/// The little-endian word at `addr`; only 16-bit reads are implemented.
pub open spec fn read_memory_spec(v: RuntimeView, addr: u16) -> Result<u16, Fault> {
    if v.oi.w == 0 {
        Err(Fault::NotImplementedYet)
    } else if addr as int + 1 >= v.data.len() {
        Err(Fault::IndexOutOfBounds)
    } else {
        Ok(word(v.data[addr as int], v.data[addr + 1]))
    }
}

/// The memory note of the listing: ` ;[addr]value`.
pub open spec fn meminfo_text(addr: u16, val: u16) -> Seq<char> {
    seq![' ', ';', '['] + hex(addr as nat, 4) + seq![']'] + hex(val as nat, 4)
}

/// Records the memory note when listing.
pub open spec fn note_memory(v: RuntimeView, val: u16) -> RuntimeView {
    if v.debug {
        with_oi(v, OpView { memval: Some(meminfo_text(v.oi.eaddr, val)), ..v.oi })
    } else {
        v
    }
}

/// The value of the r/m operand.
pub open spec fn read_effective_spec(v: RuntimeView) -> (RuntimeView, Result<u16, Fault>) {
    if v.oi.m <= 2 {
        match read_memory_spec(v, v.oi.eaddr) {
            Err(e) => (v, Err(e)),
            Ok(val) => (note_memory(v, val), Ok(val)),
        }
    } else {
        (v, Ok(read_register_spec(v, v.oi.eaddr as u8)))
    }
}

/// Writes a 16-bit register; 8-bit register writes are not implemented, and
/// a width other than 0 or 1 is refused.
pub open spec fn write_register_spec(v: RuntimeView, reg: u8, w: u8, val: u16) -> (RuntimeView, Result<(), Fault>) {
    if w == 0 {
        (v, Err(Fault::ByteRegisterWrite))
    } else if w == 1 {
        (RuntimeView { regs: v.regs.update(reg as int, val), ..v }, Ok(()))
    } else {
        (v, Err(Fault::NoSuchW(w)))
    }
}

/// Writes the r/m operand. For `mod == 3` the register is written, and then,
/// as for a memory operand, the memory at the effective address too.
pub open spec fn write_effective_spec(v: RuntimeView, val: u16) -> (RuntimeView, Result<(), Fault>) {
    let (v1, r1) = if v.oi.m == 3 {
        write_register_spec(v, v.oi.eaddr as u8, v.oi.w, val)
    } else {
        (v, Ok(()))
    };
    match r1 {
        Err(e) => (v1, Err(e)),
        Ok(_) => {
            let a = v1.oi.eaddr as int;
            let d1 = v1.data.update(a, (val % 256) as u8);
            if v1.oi.w == 0 {
                (RuntimeView { data: d1, ..v1 }, Ok(()))
            } else if a + 1 < v1.data.len() {
                (RuntimeView { data: d1.update(a + 1, (val / 256) as u8), ..v1 }, Ok(()))
            } else {
                (RuntimeView { data: d1, ..v1 }, Err(Fault::IndexOutOfBounds))
            }
        },
    }
}

pub open spec fn set_flags_spec(v: RuntimeView, c: bool, z: bool, s: bool, o: bool) -> RuntimeView {
    RuntimeView { sreg: with_flags(v.sreg, c, z, s, o), ..v }
}

/// Reads an immediate of width `w` into `imd16`; a width other than 0 or 1
/// is refused.
pub open spec fn get_data_spec(v: RuntimeView, w: u8) -> (RuntimeView, Result<u16, Fault>) {
    if w == 0 {
        let (v1, r) = fetch_spec(v);
        match r {
            Err(e) => (v1, Err(e)),
            Ok(b) => (with_oi(v1, OpView { imd16: b as u16, ..v1.oi }), Ok(b as u16)),
        }
    } else if w > 1 {
        (v, Err(Fault::NoSuchW(w)))
    } else {
        let (v1, r) = fetch2_spec(v);
        match r {
            Err(e) => (v1, Err(e)),
            Ok(x) => (with_oi(v1, OpView { imd16: x, ..v1.oi }), Ok(x)),
        }
    }
}

/// The immediate of a group-1 instruction: 16 bits for `s == 0, w == 1`,
/// one byte otherwise.
pub open spec fn get_data_sw_spec(v: RuntimeView) -> (RuntimeView, Result<u16, Fault>) {
    if v.oi.s == 0 && v.oi.w == 1 {
        get_data_spec(v, 1)
    } else {
        get_data_spec(v, 0)
    }
}

/// Reads the ModR/M byte into `m`, `reg`, `rm`.
pub open spec fn mrrm_spec(v: RuntimeView) -> (RuntimeView, Result<(), Fault>) {
    let (v1, r) = fetch_spec(v);
    match r {
        Err(e) => (v1, Err(e)),
        Ok(b) => {
            let (m, reg, rm) = modrm_fields(b);
            (with_oi(v1, OpView { m: m, reg: reg, rm: rm, ..v1.oi }), Ok(()))
        },
    }
}

/// Takes `d` and `w` from the opcode, then the ModR/M byte.
pub open spec fn dwmrrm_spec(v: RuntimeView, op: u8) -> (RuntimeView, Result<(), Fault>) {
    mrrm_spec(with_oi(v, OpView { d: ((op / 2) % 2) as u8, w: (op % 2) as u8, ..v.oi }))
}

/// The ModR/M byte, the effective address and the r/m operand's value.
pub open spec fn operand_spec(v: RuntimeView, op: u8) -> (RuntimeView, Result<u16, Fault>) {
    let (v1, r1) = dwmrrm_spec(v, op);
    match r1 {
        Err(e) => (v1, Err(e)),
        Ok(_) => {
            let (v2, r2) = eaddr_spec(v1);
            match r2 {
                Err(e) => (v2, Err(e)),
                Ok(_) => read_effective_spec(v2),
            }
        },
    }
}

/// `add r/m, reg` (0x00..0x03); only the 16-bit form to r/m (0x01) is implemented.
pub open spec fn exec_add_spec(v: RuntimeView, op: u8) -> (RuntimeView, Result<Listing, Fault>) {
    let (v1, r1) = operand_spec(v, op);
    match r1 {
        Err(e) => (v1, Err(e)),
        Ok(eval) => {
            let rval = read_register_spec(v1, v1.oi.reg);
            if op != 1 {
                (v1, Err(Fault::NotImplementedYet))
            } else {
                let sum = eval as int + rval as int;
                let res = wrap16(sum);
                let (v2, r2) = write_effective_spec(v1, res);
                match r2 {
                    Err(e) => (v2, Err(e)),
                    Ok(_) => (
                        set_flags_spec(v2, sum > 0xffff, res == 0, res >= 0x8000, !fits_i16(s16(eval) + s16(rval))),
                        Ok(Listing::Add),
                    ),
                }
            }
        },
    }
}

/// `xor r/m, reg` (0x30..0x33); only the form to r/m is implemented, and the
/// flags only for 16 bits.
pub open spec fn exec_xor_spec(v: RuntimeView, op: u8) -> (RuntimeView, Result<Listing, Fault>) {
    let (v1, r1) = operand_spec(v, op);
    match r1 {
        Err(e) => (v1, Err(e)),
        Ok(eval) => {
            let rval = read_register_spec(v1, v1.oi.reg);
            let val = eval ^ rval;
            let (v2, r2) = if v1.oi.d == 0 {
                write_effective_spec(v1, val)
            } else {
                (v1, Err(Fault::ToRegisterNotImplemented))
            };
            match r2 {
                Err(e) => (v2, Err(e)),
                Ok(_) => if v2.oi.w == 0 {
                    (v2, Err(Fault::NotImplementedYet))
                } else {
                    (set_flags_spec(v2, false, val == 0, val >= 0x8000, false), Ok(Listing::Xor))
                },
            }
        },
    }
}

/// `jnb rel8` (0x73): jumps when the carry flag is clear.
pub open spec fn exec_jnb_spec(v: RuntimeView) -> (RuntimeView, Result<Listing, Fault>) {
    let (v1, r1) = fetch_spec(v);
    match r1 {
        Err(e) => (v1, Err(e)),
        Ok(b) => {
            let jpc = wrap16(v1.pc as int + s8(b));
            let v2 = with_oi(v1, OpView { jpc: jpc, ..v1.oi });
            if !flag_c(v2.sreg) {
                (RuntimeView { pc: jpc, ..v2 }, Ok(Listing::Jnb))
            } else {
                (v2, Ok(Listing::Jnb))
            }
        },
    }
}

/// Group 1 with an immediate (0x80..0x83); only the 16-bit `sub` (reg 5) and
/// `cmp` (reg 7) of 0x81 are implemented.
pub open spec fn exec_sub_spec(v: RuntimeView, op: u8) -> (RuntimeView, Result<Listing, Fault>) {
    let v0 = with_oi(v, OpView { s: ((op / 2) % 2) as u8, w: (op % 2) as u8, ..v.oi });
    let (v1, r1) = mrrm_spec(v0);
    match r1 {
        Err(e) => (v1, Err(e)),
        Ok(_) => {
            let (v2, r2) = eaddr_spec(v1);
            match r2 {
                Err(e) => (v2, Err(e)),
                Ok(_) => {
                    let (v3, r3) = read_effective_spec(v2);
                    match r3 {
                        Err(e) => (v3, Err(e)),
                        Ok(dst) => {
                            let (v4, r4) = get_data_sw_spec(v3);
                            match r4 {
                                Err(e) => (v4, Err(e)),
                                Ok(imd) => group1_finish_spec(v4, op, dst, imd),
                            }
                        },
                    }
                },
            }
        },
    }
}

/// The arithmetic of group 1 once both operands are read.
pub open spec fn group1_finish_spec(v: RuntimeView, op: u8, dst: u16, imd: u16) -> (RuntimeView, Result<Listing, Fault>) {
    if op == 0x81 {
        let diff = dst as int - imd as int;
        let res = wrap16(diff);
        let v5 = set_flags_spec(v, diff < 0, res == 0, res >= 0x8000, !fits_i16(s16(dst) - s16(imd)));
        if v5.oi.reg == 5 {
            let (v6, r6) = write_effective_spec(v5, res);
            match r6 {
                Err(e) => (v6, Err(e)),
                Ok(_) => (v6, Ok(Listing::Sub)),
            }
        } else if v5.oi.reg == 7 {
            (v5, Ok(Listing::Cmp))
        } else {
            (v5, Err(Fault::NoSuchRegPattern))
        }
    } else if op == 0x82 {
        (v, Err(Fault::NoSuchOp))
    } else {
        (v, Err(Fault::NotYetImplemented))
    }
}

/// `mov` between r/m and a register (0x88..0x8b).
pub open spec fn exec_mov_spec(v: RuntimeView, op: u8) -> (RuntimeView, Result<Listing, Fault>) {
    let (v1, r1) = operand_spec(v, op);
    match r1 {
        Err(e) => (v1, Err(e)),
        Ok(eval) => {
            let rval = read_register_spec(v1, v1.oi.reg);
            let (v2, r2) = if v1.oi.d == 0 {
                write_effective_spec(v1, rval)
            } else {
                write_register_spec(v1, v1.oi.reg, v1.oi.w, eval)
            };
            match r2 {
                Err(e) => (v2, Err(e)),
                Ok(_) => (v2, Ok(Listing::MovRm)),
            }
        },
    }
}

/// `lea reg, m` (0x8d); when listing, the word at the address is noted too.
pub open spec fn exec_lea_spec(v: RuntimeView) -> (RuntimeView, Result<Listing, Fault>) {
    let (v1, r1) = mrrm_spec(v);
    match r1 {
        Err(e) => (v1, Err(e)),
        Ok(_) => {
            let (v2, r2) = eaddr_spec(v1);
            match r2 {
                Err(e) => (v2, Err(e)),
                Ok(_) => {
                    let v3 = with_oi(v2, OpView { w: 1, ..v2.oi });
                    let v4 = RuntimeView { regs: v3.regs.update(v3.oi.reg as int, v3.oi.eaddr), ..v3 };
                    if v4.debug {
                        match read_memory_spec(v4, v4.oi.eaddr) {
                            Err(e) => (v4, Err(e)),
                            Ok(val) => (note_memory(v4, val), Ok(Listing::Lea)),
                        }
                    } else {
                        (v4, Ok(Listing::Lea))
                    }
                },
            }
        },
    }
}

/// `mov reg, imm` (0xbb: `mov bx, imm16`).
pub open spec fn exec_mov_imm_spec(v: RuntimeView, op: u8) -> (RuntimeView, Result<Listing, Fault>) {
    let v0 = with_oi(v, OpView { w: ((op / 8) % 2) as u8, reg: (op % 8) as u8, ..v.oi });
    let (v1, r1) = get_data_spec(v0, v0.oi.w);
    match r1 {
        Err(e) => (v1, Err(e)),
        Ok(x) => {
            let (v2, r2) = write_register_spec(v1, v1.oi.reg, v1.oi.w, v1.oi.imd16);
            match r2 {
                Err(e) => (v2, Err(e)),
                Ok(_) => (v2, Ok(Listing::MovImm)),
            }
        },
    }
}

/// `test r/m, imm` (0xf6, 0xf7 with reg 0); the immediate is read before
/// the displacement.
pub open spec fn exec_test_spec(v: RuntimeView, op: u8) -> (RuntimeView, Result<Listing, Fault>) {
    let v0 = with_oi(v, OpView { w: (op % 2) as u8, ..v.oi });
    let (v1, r1) = mrrm_spec(v0);
    match r1 {
        Err(e) => (v1, Err(e)),
        Ok(_) => if v1.oi.reg != 0 {
            (v1, Err(Fault::NoSuchPattern))
        } else {
            let (v2, r2) = get_data_spec(v1, v1.oi.w);
            match r2 {
                Err(e) => (v2, Err(e)),
                Ok(data) => {
                    let (v3, r3) = eaddr_spec(v2);
                    match r3 {
                        Err(e) => (v3, Err(e)),
                        Ok(_) => {
                            let (v4, r4) = read_effective_spec(v3);
                            match r4 {
                                Err(e) => (v4, Err(e)),
                                Ok(edata) => if v4.oi.w == 0 {
                                    let val = ((data % 256) as u8) & ((edata % 256) as u8);
                                    (set_flags_spec(v4, false, val == 0, val >= 0x80, false), Ok(Listing::Test))
                                } else {
                                    let val = data & edata;
                                    (set_flags_spec(v4, false, val == 0, val >= 0x8000, false), Ok(Listing::Test))
                                },
                            }
                        },
                    }
                },
            }
        },
    }
}

/// `int` (0xcd): reads the interrupt number, which is not looked at.
pub open spec fn exec_syscall_spec(v: RuntimeView) -> (RuntimeView, Result<Listing, Fault>) {
    let (v1, r1) = fetch_spec(v);
    match r1 {
        Err(e) => (v1, Err(e)),
        Ok(_) => (v1, Ok(Listing::Syscall)),
    }
}

/// Executes the instruction with opcode `op`, whose byte has been read.
#[verifier::opaque]
pub open spec fn execute_spec(v: RuntimeView, op: u8) -> (RuntimeView, Result<Listing, Fault>) {
    if op <= 0x03 {
        exec_add_spec(v, op)
    } else if 0x30 <= op <= 0x33 {
        exec_xor_spec(v, op)
    } else if op == 0x73 {
        exec_jnb_spec(v)
    } else if 0x80 <= op <= 0x83 {
        exec_sub_spec(v, op)
    } else if 0x88 <= op <= 0x8b {
        exec_mov_spec(v, op)
    } else if op == 0x8d {
        exec_lea_spec(v)
    } else if op == 0xbb {
        exec_mov_imm_spec(v, op)
    } else if op == 0xcd {
        exec_syscall_spec(v)
    } else if 0xf6 <= op <= 0xf7 {
        exec_test_spec(v, op)
    } else {
        (v, Err(Fault::UnrecognizedOperator(op)))
    }
}

/// The disassembly of an executed instruction, or `None` where its r/m
/// operand cannot be rendered.
pub open spec fn listing_text(l: Listing, oi: OpView) -> Option<Seq<char>> {
    match l {
        Listing::Add => if rm_renderable(oi.m, oi.rm) { Some(add_text(oi)) } else { None },
        Listing::Xor => if rm_renderable(oi.m, oi.rm) { Some(xor_text(oi)) } else { None },
        Listing::Jnb => Some(jnb_text(oi)),
        Listing::Sub => if rm_renderable(oi.m, oi.rm) { Some(sub_text(oi)) } else { None },
        Listing::Cmp => if rm_renderable(oi.m, oi.rm) { Some(cmp_text(oi)) } else { None },
        Listing::MovRm => if rm_renderable(oi.m, oi.rm) { Some(mov_rm_text(oi)) } else { None },
        Listing::Lea => Some(lea_text(oi)),
        Listing::MovImm => Some(mov_text(oi)),
        Listing::Test => if rm_renderable(oi.m, oi.rm) { Some(test_text(oi)) } else { None },
        Listing::Syscall => Some(syscall_text()),
    }
}

/// Clears the listing bytes (when listing) and the instruction fields.
pub open spec fn end_step(v: RuntimeView) -> RuntimeView {
    RuntimeView { raw: if v.debug { Seq::empty() } else { v.raw }, oi: cleared_op(), ..v }
}

/// The run ends when `pc` equals the text length taken modulo 2^16.
pub open spec fn halted(v: RuntimeView) -> bool {
    v.pc as int == v.text.len() as int % 0x10000
}

/// The end of a step once the instruction has run: the listing line, the
/// system-call request, the cleared instruction state and the end test.
pub open spec fn complete_spec(v2: RuntimeView, regstatus: Seq<char>, l: Listing) -> (RuntimeView, StepView) {
    match l {
        Listing::Syscall => {
            let log = log_text(regstatus, v2.raw, syscall_text(), v2.oi.memval);
            let v3 = end_step(v2);
            (v3, StepView::SystemCall {
                log: log,
                request: syscall_request_spec(v2.regs[3], v2.data),
                halted: halted(v3),
            })
        },
        _ => if v2.debug {
            match listing_text(l, v2.oi) {
                None => (v2, StepView::Faulted(Fault::NotImplementedYet)),
                Some(t) => {
                    let v3 = end_step(v2);
                    (v3, StepView::Executed {
                        log: Some(log_text(regstatus, v2.raw, t, v2.oi.memval)),
                        halted: halted(v3),
                    })
                },
            }
        } else {
            let v3 = end_step(v2);
            (v3, StepView::Executed { log: None, halted: halted(v3) })
        },
    }
}

/// One step of the machine: fetch the opcode, execute it, and produce the
/// listing line of the instruction (when listing).
pub open spec fn step_spec(v: RuntimeView) -> (RuntimeView, StepView) {
    let v0 = RuntimeView { prev_pc: v.pc, ..v };
    let (v1, r1) = fetch_spec(v0);
    match r1 {
        Err(e) => (v1, StepView::Faulted(e)),
        Ok(op) => {
            let regstatus = if v1.debug { reg_state_text(v1.regs, v1.sreg, v1.prev_pc) } else { Seq::empty() };
            let (v2, r2) = execute_spec(v1, op);
            match r2 {
                Err(e) => (v2, StepView::Faulted(e)),
                Ok(l) => complete_spec(v2, regstatus, l),
            }
        },
    }
}

/// One byte write of the initial stack: `Store` stores a byte, `Add` adds one
/// to the byte already there.
pub ghost enum StackOp {
    Store(int, u8),
    Add(int, u8),
}

/// Applies one write: an index outside the memory, or an `Add` past 255, stops it.
pub open spec fn apply_stack_op(mem: Seq<u8>, op: StackOp) -> (Seq<u8>, Option<Fault>) {
    match op {
        StackOp::Store(i, b) => if 0 <= i < mem.len() {
            (mem.update(i, b), None)
        } else {
            (mem, Some(Fault::IndexOutOfBounds))
        },
        StackOp::Add(i, b) => if !(0 <= i < mem.len()) {
            (mem, Some(Fault::IndexOutOfBounds))
        } else if mem[i] as int + b as int > 255 {
            (mem, Some(Fault::ArithmeticOverflow))
        } else {
            (mem.update(i, (mem[i] + b) as u8), None)
        },
    }
}

/// Applies the writes in order, stopping at the first that fails.
pub open spec fn apply_stack_ops(mem: Seq<u8>, ops: Seq<StackOp>) -> (Seq<u8>, Option<Fault>)
    decreases ops.len(),
{
    if ops.len() == 0 {
        (mem, None)
    } else {
        let (m, f) = apply_stack_ops(mem, ops.drop_last());
        if f is Some {
            (m, f)
        } else {
            apply_stack_op(m, ops.last())
        }
    }
}

/// The environment string of the new process.
pub open spec fn env_chars() -> Seq<char> {
    seq!['P', 'A', 'T', 'H', '=', '/', 'u', 's', 'r', ':', '/', 'u', 's', 'r', '/', 'b', 'i', 'n']
}

pub open spec fn env_bytes() -> Seq<u8> {
    vstd::utf8::encode_utf8(env_chars())
}

/// The UTF-8 bytes of each argument.
pub open spec fn arg_bytes(args: Seq<String>) -> Seq<Seq<u8>> {
    args.map_values(|s: String| vstd::utf8::encode_utf8(s@))
}

/// Frame size and pointer-area size for the arguments, as 16-bit sums of
/// `len + 1 + 2` and `2` per argument (the length taken modulo 2^16);
/// `None` where a sum overflows.
pub open spec fn args_frame(args: Seq<Seq<u8>>) -> Option<(int, int)>
    decreases args.len(),
{
    if args.len() == 0 {
        Some((0, 0))
    } else {
        match args_frame(args.drop_last()) {
            None => None,
            Some((f, o)) => {
                let l = args.last().len() as int % 0x10000;
                if l + 1 > 0xffff || f + l + 3 > 0xffff || o + 2 > 0xffff {
                    None
                } else {
                    Some((f + l + 3, o + 2))
                }
            },
        }
    }
}

/// The whole frame: the arguments, the environment string and its pointer,
/// the null pointer and the argument count, rounded up to an even size; and
/// the offset of the strings from the stack pointer.
pub open spec fn stack_frame(args: Seq<Seq<u8>>) -> Option<(int, int)> {
    match args_frame(args) {
        None => None,
        Some((f, o)) => {
            let f3 = f + env_bytes().len() + 1 + 2 + 6;
            let o2 = o + 2 + 6;
            if f3 > 0xffff || o2 > 0xffff {
                None
            } else {
                let f4 = if f3 % 2 == 1 { f3 + 1 } else { f3 };
                if f4 > 0xffff {
                    None
                } else {
                    Some((f4, o2))
                }
            }
        },
    }
}

/// The total length of the argument strings with their terminating zeros.
pub open spec fn strings_len(args: Seq<Seq<u8>>) -> int
    decreases args.len(),
{
    if args.len() == 0 {
        0
    } else {
        strings_len(args.drop_last()) + args.last().len() + 1
    }
}

/// A pointer stored little-endian at `at`.
pub open spec fn pointer_ops(at: int, ptr: int) -> Seq<StackOp> {
    seq![StackOp::Store(at, (ptr % 256) as u8), StackOp::Store(at + 1, ((ptr / 256) % 256) as u8)]
}

/// The writes for one argument: its pointer at `vp`, its bytes and a zero at
/// `strp`, and a zero word after the pointer.
pub open spec fn arg_ops(bytes: Seq<u8>, vp: int, strp: int) -> Seq<StackOp> {
    pointer_ops(vp, strp)
        + Seq::new(bytes.len(), |j: int| StackOp::Store(strp + j, bytes[j]))
        + seq![StackOp::Store(strp + bytes.len(), 0), StackOp::Store(vp + 2, 0), StackOp::Store(vp + 3, 0)]
}

/// The writes for all arguments; the `i`-th pointer is at `vp + 4 i`.
pub open spec fn args_ops(args: Seq<Seq<u8>>, vp: int, strp: int) -> Seq<StackOp>
    decreases args.len(),
{
    if args.len() == 0 {
        Seq::empty()
    } else {
        let k = args.len() - 1;
        args_ops(args.drop_last(), vp, strp) + arg_ops(args.last(), vp + 4 * k, strp + strings_len(args.drop_last()))
    }
}

/// The writes for the environment: its pointer, its bytes added into memory,
/// and a terminating zero.
pub open spec fn env_ops(vp: int, strp: int) -> Seq<StackOp> {
    pointer_ops(vp, strp)
        + Seq::new(env_bytes().len(), |j: int| StackOp::Add(strp + j, env_bytes()[j]))
        + seq![StackOp::Store(strp + env_bytes().len(), 0)]
}

/// All writes of the initial stack at `nsp`: argument count, arguments, environment.
pub open spec fn stack_ops(args: Seq<Seq<u8>>, nsp: int, offset: int) -> Seq<StackOp> {
    let n = args.len() as int;
    let strp = nsp + offset;
    seq![StackOp::Store(nsp, (n % 256) as u8), StackOp::Store(nsp + 1, ((n / 256) % 256) as u8)]
        + args_ops(args, nsp + 2, strp)
        + env_ops(nsp + 2 + 4 * n, strp + strings_len(args))
}

/// `p` is an initial part of `q`.
pub open spec fn is_prefix(p: Seq<StackOp>, q: Seq<StackOp>) -> bool {
    &&& p.len() <= q.len()
    &&& forall|k: int| 0 <= k < p.len() ==> p[k] == q[k]
}

/// The machine after `init_stack` with arguments `args`: SP at the frame, and
/// the frame written into memory; the frame's addresses and the first write
/// that failed, or the overflow that stops the frame computation.
pub open spec fn init_stack_spec(v: RuntimeView, args: Seq<String>) -> (RuntimeView, Result<StackFrame, Fault>) {
    let bytes = arg_bytes(args);
    match stack_frame(bytes) {
        None => (v, Err(Fault::ArithmeticOverflow)),
        Some((frame, offset)) => {
            let nsp = v.data.len() - frame;
            let v1 = RuntimeView { regs: v.regs.update(4, nsp as u16), ..v };
            let (mem, f) = apply_stack_ops(v1.data, stack_ops(bytes, nsp, offset));
            (RuntimeView { data: mem, ..v1 }, Ok(StackFrame {
                nsp: nsp as usize,
                vp: (nsp + 2) as usize,
                strp: (nsp + offset) as usize,
                fault: f,
            }))
        },
    }
}

/// Once a write has failed, the writes after it change nothing.
pub proof fn lemma_apply_fault_extends(mem: Seq<u8>, p: Seq<StackOp>, full: Seq<StackOp>)
    requires
        is_prefix(p, full),
        apply_stack_ops(mem, p).1 is Some,
    ensures
        apply_stack_ops(mem, full) == apply_stack_ops(mem, p),
    decreases full.len(),
{
    if full.len() == p.len() {
        assert(full =~= p);
    } else {
        lemma_apply_fault_extends(mem, p, full.drop_last());
    }
}

/// Applying one more write.
pub proof fn lemma_apply_push(mem: Seq<u8>, done: Seq<StackOp>, op: StackOp)
    ensures
        apply_stack_ops(mem, done.push(op)) == (if apply_stack_ops(mem, done).1 is Some {
            apply_stack_ops(mem, done)
        } else {
            apply_stack_op(apply_stack_ops(mem, done).0, op)
        }),
{
    assert(done.push(op).drop_last() =~= done);
}

/// The writes of the first `k` arguments come first among those of all.
pub proof fn lemma_args_ops_prefix(args: Seq<Seq<u8>>, k: int, vp: int, strp: int)
    requires
        0 <= k <= args.len(),
    ensures
        is_prefix(args_ops(args.take(k), vp, strp), args_ops(args, vp, strp)),
    decreases args.len(),
{
    if k == args.len() {
        assert(args.take(k) =~= args);
    } else {
        assert(args.drop_last().take(k) =~= args.take(k));
        lemma_args_ops_prefix(args.drop_last(), k, vp, strp);
    }
}

/// A frame that overflows for the first `k` arguments overflows for all.
pub proof fn lemma_args_frame_none(args: Seq<Seq<u8>>, k: int)
    requires
        0 <= k <= args.len(),
        args_frame(args.take(k)) is None,
    ensures
        args_frame(args) is None,
    decreases args.len(),
{
    if k == args.len() {
        assert(args.take(k) =~= args);
    } else {
        assert(args.drop_last().take(k) =~= args.take(k));
        lemma_args_frame_none(args.drop_last(), k);
    }
}

/// An initial part of an initial part.
pub proof fn lemma_prefix_take(all: Seq<StackOp>, full: Seq<StackOp>, k: int)
    requires
        is_prefix(all, full),
        0 <= k <= all.len(),
    ensures
        is_prefix(all.take(k), full),
{
}

/// An initial part stays one behind a common beginning and before an ending.
pub proof fn lemma_prefix_concat(h: Seq<StackOp>, p: Seq<StackOp>, q: Seq<StackOp>, e: Seq<StackOp>)
    requires
        is_prefix(p, q),
    ensures
        is_prefix(h + p, h + q + e),
{
    assert forall|k: int| 0 <= k < (h + p).len() implies (h + p)[k] == (h + q + e)[k] by {
        if k >= h.len() {
            assert((h + p)[k] == p[k - h.len()]);
            assert((h + q + e)[k] == (h + q)[k]);
        }
    }
}

/// A state within a step: 64 KiB of memory, twelve registers and decoder
/// fields in range.
pub open spec fn in_step(v: RuntimeView) -> bool {
    &&& v.data.len() == MEM_SIZE
    &&& v.regs.len() == 12
    &&& fields_ok(v.oi)
}

/// `b` has the text, listing switches, memory size, register count and
/// instruction address of `a`.
pub open spec fn keeps(a: RuntimeView, b: RuntimeView) -> bool {
    &&& b.text == a.text
    &&& b.debug == a.debug
    &&& b.os_debug == a.os_debug
    &&& b.data.len() == a.data.len()
    &&& b.regs.len() == a.regs.len()
    &&& b.prev_pc == a.prev_pc
    &&& in_step(b)
}

pub broadcast proof fn lemma_fetch_keeps(v: RuntimeView)
    requires
        in_step(v),
    ensures
        keeps(v, #[trigger] fetch_spec(v).0),
{
}

pub broadcast proof fn lemma_fetch2_keeps(v: RuntimeView)
    requires
        in_step(v),
    ensures
        keeps(v, #[trigger] fetch2_spec(v).0),
{
    lemma_fetch_keeps(v);
    lemma_fetch_keeps(fetch_spec(v).0);
}

pub broadcast proof fn lemma_eaddr_keeps(v: RuntimeView)
    requires
        in_step(v),
    ensures
        keeps(v, #[trigger] eaddr_spec(v).0),
{
    lemma_fetch_keeps(v);
    lemma_fetch2_keeps(v);
}

pub broadcast proof fn lemma_read_effective_keeps(v: RuntimeView)
    requires
        in_step(v),
    ensures
        keeps(v, #[trigger] read_effective_spec(v).0),
{
}

pub broadcast proof fn lemma_write_register_keeps(v: RuntimeView, reg: u8, w: u8, val: u16)
    requires
        in_step(v),
        reg < 12,
    ensures
        keeps(v, #[trigger] write_register_spec(v, reg, w, val).0),
{
}

pub broadcast proof fn lemma_write_effective_keeps(v: RuntimeView, val: u16)
    requires
        in_step(v),
    ensures
        keeps(v, #[trigger] write_effective_spec(v, val).0),
{
}

pub broadcast proof fn lemma_get_data_keeps(v: RuntimeView, w: u8)
    requires
        in_step(v),
    ensures
        keeps(v, #[trigger] get_data_spec(v, w).0),
{
    lemma_fetch_keeps(v);
    lemma_fetch2_keeps(v);
}

pub broadcast proof fn lemma_mrrm_keeps(v: RuntimeView)
    requires
        in_step(v),
        v.oi.eaddr <= 7,
    ensures
        keeps(v, #[trigger] mrrm_spec(v).0),
{
    lemma_fetch_keeps(v);
}

pub broadcast group group_keeps {
    lemma_fetch_keeps,
    lemma_fetch2_keeps,
    lemma_eaddr_keeps,
    lemma_read_effective_keeps,
    lemma_write_register_keeps,
    lemma_write_effective_keeps,
    lemma_get_data_keeps,
    lemma_mrrm_keeps,
}

proof fn lemma_operand_keeps(v: RuntimeView, op: u8)
    requires
        in_step(v),
        v.oi.eaddr <= 7,
    ensures
        keeps(v, operand_spec(v, op).0),
{
    broadcast use group_keeps;
    let v0 = with_oi(v, OpView { d: ((op / 2) % 2) as u8, w: (op % 2) as u8, ..v.oi });
    lemma_mrrm_keeps(v0);
}

proof fn lemma_add_keeps(v: RuntimeView, op: u8)
    requires
        in_step(v),
        v.oi.eaddr <= 7,
    ensures
        keeps(v, exec_add_spec(v, op).0),
{
    broadcast use group_keeps;
    lemma_operand_keeps(v, op);
}

proof fn lemma_xor_keeps(v: RuntimeView, op: u8)
    requires
        in_step(v),
        v.oi.eaddr <= 7,
    ensures
        keeps(v, exec_xor_spec(v, op).0),
{
    broadcast use group_keeps;
    lemma_operand_keeps(v, op);
}

proof fn lemma_jnb_keeps(v: RuntimeView)
    requires
        in_step(v),
    ensures
        keeps(v, exec_jnb_spec(v).0),
{
    broadcast use group_keeps;
}

proof fn lemma_group1_finish_keeps(v: RuntimeView, op: u8, dst: u16, imd: u16)
    requires
        in_step(v),
    ensures
        keeps(v, group1_finish_spec(v, op, dst, imd).0),
{
    broadcast use group_keeps;
}

proof fn lemma_sub_keeps(v: RuntimeView, op: u8)
    requires
        in_step(v),
        v.oi.eaddr <= 7,
    ensures
        keeps(v, exec_sub_spec(v, op).0),
{
    let v0 = with_oi(v, OpView { s: ((op / 2) % 2) as u8, w: (op % 2) as u8, ..v.oi });
    lemma_mrrm_keeps(v0);
    let v1 = mrrm_spec(v0).0;
    lemma_eaddr_keeps(v1);
    let v2 = eaddr_spec(v1).0;
    lemma_read_effective_keeps(v2);
    let v3 = read_effective_spec(v2).0;
    lemma_get_data_keeps(v3, 0);
    lemma_get_data_keeps(v3, 1);
    let v4 = get_data_sw_spec(v3).0;
    let dst = read_effective_spec(v2).1->Ok_0;
    let imd = get_data_sw_spec(v3).1->Ok_0;
    lemma_group1_finish_keeps(v4, op, dst, imd);
}

proof fn lemma_mov_keeps(v: RuntimeView, op: u8)
    requires
        in_step(v),
        v.oi.eaddr <= 7,
    ensures
        keeps(v, exec_mov_spec(v, op).0),
{
    broadcast use group_keeps;
    lemma_operand_keeps(v, op);
}

proof fn lemma_lea_keeps(v: RuntimeView)
    requires
        in_step(v),
        v.oi.eaddr <= 7,
    ensures
        keeps(v, exec_lea_spec(v).0),
{
    broadcast use group_keeps;
}

proof fn lemma_mov_imm_keeps(v: RuntimeView, op: u8)
    requires
        in_step(v),
    ensures
        keeps(v, exec_mov_imm_spec(v, op).0),
{
    broadcast use group_keeps;
}

proof fn lemma_test_keeps(v: RuntimeView, op: u8)
    requires
        in_step(v),
        v.oi.eaddr <= 7,
    ensures
        keeps(v, exec_test_spec(v, op).0),
{
    broadcast use group_keeps;
    let v0 = with_oi(v, OpView { w: (op % 2) as u8, ..v.oi });
    lemma_mrrm_keeps(v0);
}

proof fn lemma_execute_keeps(v: RuntimeView, op: u8)
    requires
        in_step(v),
        v.oi.eaddr == 0,
    ensures
        keeps(v, execute_spec(v, op).0),
{
    reveal(execute_spec);
    lemma_add_keeps(v, op);
    lemma_xor_keeps(v, op);
    lemma_jnb_keeps(v);
    lemma_sub_keeps(v, op);
    lemma_mov_keeps(v, op);
    lemma_lea_keeps(v);
    lemma_mov_imm_keeps(v, op);
    lemma_test_keeps(v, op);
    lemma_fetch_keeps(v);
}

/// Every step keeps the text, the listing switches, 64 KiB of memory and the
/// twelve registers, and records the address of the instruction it ran in
/// `prev_pc`; a step that does not stop the machine leaves it between two
/// instructions again.
pub proof fn lemma_step_invariant(v: RuntimeView)
    requires
        machine_wf(v),
    ensures
        step_spec(v).0.text == v.text,
        step_spec(v).0.debug == v.debug,
        step_spec(v).0.data.len() == MEM_SIZE,
        step_spec(v).0.regs.len() == 12,
        step_spec(v).0.prev_pc == v.pc,
        !(step_spec(v).1 is Faulted) ==> machine_wf(step_spec(v).0),
{
    broadcast use group_keeps;
    let v0 = RuntimeView { prev_pc: v.pc, ..v };
    lemma_fetch_keeps(v0);
    let v1 = fetch_spec(v0).0;
    lemma_execute_keeps(v1, fetch_spec(v0).1->Ok_0);
}

/// The memory index a stack write touches.
pub open spec fn op_index(op: StackOp) -> int {
    match op {
        StackOp::Store(i, _) => i,
        StackOp::Add(i, _) => i,
    }
}

/// Writes that all succeed leave the bytes they do not touch as they were.
pub proof fn lemma_apply_untouched(mem: Seq<u8>, ops: Seq<StackOp>, k: int)
    requires
        forall|j: int| 0 <= j < ops.len() ==> op_index(#[trigger] ops[j]) != k,
        apply_stack_ops(mem, ops).1 is None,
    ensures
        apply_stack_ops(mem, ops).0.len() == mem.len(),
        0 <= k < mem.len() ==> apply_stack_ops(mem, ops).0[k] == mem[k],
    decreases ops.len(),
{
    if ops.len() > 0 {
        let p = ops.drop_last();
        assert forall|j: int| 0 <= j < p.len() implies op_index(#[trigger] p[j]) != k by {
            assert(p[j] == ops[j]);
        }
        lemma_apply_untouched(mem, p, k);
        assert(op_index(ops[ops.len() - 1]) != k);
    }
}

pub proof fn lemma_strings_len_nonneg(args: Seq<Seq<u8>>)
    ensures
        strings_len(args) >= 0,
    decreases args.len(),
{
    if args.len() > 0 {
        lemma_strings_len_nonneg(args.drop_last());
    }
}

/// The argument writes touch nothing below `low` when the pointers and the
/// strings start at or above it.
pub proof fn lemma_args_ops_above(args: Seq<Seq<u8>>, vp: int, strp: int, low: int)
    requires
        vp >= low,
        strp >= low,
    ensures
        forall|j: int| 0 <= j < args_ops(args, vp, strp).len() ==> op_index(#[trigger] args_ops(args, vp, strp)[j]) >= low,
    decreases args.len(),
{
    if args.len() > 0 {
        let p = args.drop_last();
        lemma_args_ops_above(p, vp, strp, low);
        lemma_strings_len_nonneg(p);
        let a = args_ops(p, vp, strp);
        let b = arg_ops(args.last(), vp + 4 * (args.len() - 1), strp + strings_len(p));
        assert forall|j: int| 0 <= j < (a + b).len() implies op_index(#[trigger] (a + b)[j]) >= low by {
            if j >= a.len() {
                assert((a + b)[j] == b[j - a.len()]);
            }
        }
    }
}

/// After `init_stack` has written its whole frame, the word at SP is the
/// number of arguments (modulo 2^16).
pub proof fn lemma_argc_at_sp(v: RuntimeView, args: Seq<String>)
    requires
        machine_wf(v),
        init_stack_spec(v, args).1 matches Ok(f) && f.fault is None,
    ensures
        ({
            let w = init_stack_spec(v, args).0;
            let sp = w.regs[4] as int;
            &&& sp == init_stack_spec(v, args).1->Ok_0.nsp
            &&& word(w.data[sp], w.data[sp + 1]) as int == args.len() % 0x10000
        }),
{
    let bytes = arg_bytes(args);
    let (frame, offset) = stack_frame(bytes)->Some_0;
    assert(frame >= 9) by {
        assert(args_frame(bytes) is Some);
        lemma_args_frame_nonneg(bytes);
    }
    let nsp = v.data.len() - frame;
    let n = bytes.len() as int;
    let header = seq![
        StackOp::Store(nsp, (n % 256) as u8),
        StackOp::Store(nsp + 1, ((n / 256) % 256) as u8),
    ];
    let rest = args_ops(bytes, nsp + 2, nsp + offset) + env_ops(nsp + 2 + 4 * n, nsp + offset + strings_len(bytes));
    let full = stack_ops(bytes, nsp, offset);
    assert(full =~= header + rest);
    lemma_args_frame_nonneg(bytes);
    lemma_strings_len_nonneg(bytes);
    lemma_args_ops_above(bytes, nsp + 2, nsp + offset, nsp + 2);
    let a = args_ops(bytes, nsp + 2, nsp + offset);
    let e = env_ops(nsp + 2 + 4 * n, nsp + offset + strings_len(bytes));
    assert forall|j: int| 0 <= j < rest.len() implies op_index(#[trigger] rest[j]) >= nsp + 2 by {
        if j >= a.len() {
            assert(rest[j] == e[j - a.len()]);
        } else {
            assert(rest[j] == a[j]);
        }
    }
    let mem1 = v.data;
    let m_h = apply_stack_ops(mem1, header);
    assert(header.drop_last() =~= seq![StackOp::Store(nsp, (n % 256) as u8)]);
    assert(header.drop_last().drop_last() =~= Seq::<StackOp>::empty());
    lemma_apply_split(mem1, header, rest);
    lemma_apply_untouched(m_h.0, rest, nsp);
    lemma_apply_untouched(m_h.0, rest, nsp + 1);
    assert(n == args.len());
    assert(0 < nsp && nsp + 1 < mem1.len());
    let lo = (n % 256) as u8;
    let hi = ((n / 256) % 256) as u8;
    let h1 = header.drop_last();
    assert(apply_stack_ops(mem1, h1.drop_last()) == (mem1, None::<Fault>));
    assert(h1.last() == StackOp::Store(nsp, lo));
    assert(apply_stack_op(mem1, StackOp::Store(nsp, lo)) == (mem1.update(nsp, lo), None::<Fault>));
    assert(apply_stack_ops(mem1, h1) == (mem1.update(nsp, lo), None::<Fault>));
    assert(m_h == (mem1.update(nsp, lo).update(nsp + 1, hi), None::<Fault>));
    let w = init_stack_spec(v, args).0;
    assert(w.data == apply_stack_ops(mem1, full).0);
    assert(w.data[nsp] == lo);
    assert(w.data[nsp + 1] == hi);
    vstd::arithmetic::div_mod::lemma_mod_breakdown(n, 256, 256);
    assert(word(lo, hi) as int == n % 0x10000);
}

/// The frame and string-area sizes of the arguments are never negative.
pub proof fn lemma_args_frame_nonneg(args: Seq<Seq<u8>>)
    ensures
        args_frame(args) matches Some((f, o)) ==> f >= 0 && o >= 0,
    decreases args.len(),
{
    if args.len() > 0 {
        lemma_args_frame_nonneg(args.drop_last());
    }
}

/// Applying `a + b` applies `a`, then (if nothing failed) `b`.
pub proof fn lemma_apply_split(mem: Seq<u8>, a: Seq<StackOp>, b: Seq<StackOp>)
    ensures
        apply_stack_ops(mem, a).1 is None ==> apply_stack_ops(mem, a + b) == apply_stack_ops(apply_stack_ops(mem, a).0, b),
        apply_stack_ops(mem, a).1 is Some ==> apply_stack_ops(mem, a + b) == apply_stack_ops(mem, a),
    decreases b.len(),
{
    if b.len() == 0 {
        assert(a + b =~= a);
    } else {
        assert((a + b).drop_last() =~= a + b.drop_last());
        lemma_apply_split(mem, a, b.drop_last());
    }
}

} // verus!
