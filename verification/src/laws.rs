//! What the instructions and the listing do, stated over the bytes of the
//! program, the registers and the flags.
use vstd::prelude::*;
use crate::runtime::{RuntimeView, machine_wf, flag_c, flag_z};
use crate::machine::{step_spec, StepView};
use crate::disasm::{reg_name, reg_state_text, flag_char, raw_text};
use crate::text::{hex, lemma_hex_width};
use crate::runtime::{AX, BX, CX, DX, SP, BP, SI, DI, flag_o, flag_s};

verus! {

/// The machine is between instructions and the two bytes at `pc` can be read
/// without passing the end of the text or of the 16-bit address space.
pub open spec fn two_bytes_ahead(v: RuntimeView) -> bool {
    &&& machine_wf(v)
    &&& v.pc as int + 2 <= v.text.len()
    &&& v.pc as int + 2 < 0xffff
}

/// The top bit of a word: its sign when read as a two's complement number.
pub open spec fn sign_bit(x: u16) -> bool {
    x >= 0x8000
}

/// `jnb rel8` jumps exactly when the carry flag is clear, whatever the other
/// flags say: to the address after the instruction plus the sign-extended
/// displacement (modulo 2^16), or else to the next instruction. It changes no
/// flag and no register.
pub proof fn lemma_jnb_jumps_on_clear_carry(v: RuntimeView)
    requires
        two_bytes_ahead(v),
        v.text[v.pc as int] == 0x73,
    ensures
        ({
            let b = v.text[v.pc + 1];
            let disp: int = if b >= 0x80 { b as int - 0x100 } else { b as int };
            let (w, r) = step_spec(v);
            &&& r is Executed
            &&& w.pc as int == if flag_c(v.sreg) {
                v.pc as int + 2
            } else {
                (v.pc as int + 2 + disp) % 0x10000
            }
            &&& w.sreg == v.sreg
            &&& w.regs == v.regs
            &&& w.data == v.data
        }),
{
    reveal(crate::machine::execute_spec);
}

/// `add r/m16, r16` with a register operand (opcode 0x01, mod 3): the
/// register named by the r/m field receives its old value plus the register
/// named by the reg field, modulo 2^16; carry is set exactly when the sum
/// passes 16 bits, zero exactly when the result is 0, sign exactly when its
/// top bit is set, and overflow exactly when both operands have the same
/// sign and the result another; the other registers keep their values.
pub proof fn lemma_add_adds_reg_into_rm(v: RuntimeView)
    requires
        two_bytes_ahead(v),
        v.text[v.pc as int] == 0x01,
        v.text[v.pc + 1] >= 0xc0,
    ensures
        ({
            let b = v.text[v.pc + 1];
            let reg = (b / 8) % 8;
            let rm = b % 8;
            let sum = v.regs[rm as int] as int + v.regs[reg as int] as int;
            let (w, r) = step_spec(v);
            &&& r is Executed
            &&& w.regs[rm as int] as int == sum % 0x10000
            &&& forall|i: int| 0 <= i < 12 && i != rm ==> w.regs[i] == v.regs[i]
            &&& flag_c(w.sreg) == (sum > 0xffff)
            &&& flag_z(w.sreg) == (sum % 0x10000 == 0)
            &&& flag_s(w.sreg) == (sum % 0x10000 >= 0x8000)
            &&& flag_o(w.sreg) == (sign_bit(v.regs[rm as int]) == sign_bit(v.regs[reg as int])
                && sign_bit((sum % 0x10000) as u16) != sign_bit(v.regs[rm as int]))
            &&& w.pc == v.pc + 2
        }),
{
    reveal(crate::machine::execute_spec);
    let b = v.text[v.pc + 1];
    let sum = v.regs[(b % 8) as int] as int + v.regs[((b / 8) % 8) as int] as int;
    let sreg0 = step_spec(v).0.sreg;
    assert(sreg0 == crate::runtime::with_flags(
        v.sreg,
        sum > 0xffff,
        sum % 0x10000 == 0,
        sum % 0x10000 >= 0x8000,
        !crate::machine::fits_i16(crate::machine::s16(v.regs[(b % 8) as int]) + crate::machine::s16(v.regs[((b / 8) % 8) as int])),
    ));
    crate::runtime::lemma_flags_read_back(
        v.sreg,
        sum > 0xffff,
        sum % 0x10000 == 0,
        sum % 0x10000 >= 0x8000,
        !crate::machine::fits_i16(crate::machine::s16(v.regs[(b % 8) as int]) + crate::machine::s16(v.regs[((b / 8) % 8) as int])),
    );
}

/// `xor r/m16, r16` with a register operand (opcode 0x31, mod 3): the
/// register named by the r/m field receives the bitwise exclusive or of its
/// old value and the register named by the reg field; carry and overflow are
/// cleared, zero is set exactly when the result is 0 and sign exactly when
/// its top bit is set; the other registers keep their values.
pub proof fn lemma_xor_into_rm(v: RuntimeView)
    requires
        two_bytes_ahead(v),
        v.text[v.pc as int] == 0x31,
        v.text[v.pc + 1] >= 0xc0,
    ensures
        ({
            let b = v.text[v.pc + 1];
            let reg = (b / 8) % 8;
            let rm = b % 8;
            let x = v.regs[rm as int] ^ v.regs[reg as int];
            let (w, r) = step_spec(v);
            &&& r is Executed
            &&& w.regs[rm as int] == x
            &&& forall|i: int| 0 <= i < 12 && i != rm ==> w.regs[i] == v.regs[i]
            &&& !flag_c(w.sreg)
            &&& !flag_o(w.sreg)
            &&& flag_z(w.sreg) == (x == 0)
            &&& flag_s(w.sreg) == sign_bit(x)
            &&& w.pc == v.pc + 2
        }),
{
    reveal(crate::machine::execute_spec);
    let b = v.text[v.pc + 1];
    let x = v.regs[(b % 8) as int] ^ v.regs[((b / 8) % 8) as int];
    crate::runtime::lemma_flags_read_back(v.sreg, false, x == 0, x >= 0x8000, false);
}

/// `sub r/m16, imm16` and `cmp r/m16, imm16` with a register operand (opcode
/// 0x81, mod 3, reg field 5 or 7): both compare the register named by the r/m
/// field with the little-endian immediate that follows the ModR/M byte; carry
/// is set exactly when the register is below the immediate, zero exactly
/// when the two are equal, sign exactly when the difference modulo 2^16 has
/// its top bit set, overflow exactly when the operands differ in sign and the
/// difference's sign is not the register's. `sub` stores the difference
/// modulo 2^16 in the register; `cmp` changes no register.
#[verifier::rlimit(40)]
pub proof fn lemma_sub_compare_immediate(v: RuntimeView)
    requires
        machine_wf(v),
        v.pc as int + 4 <= v.text.len(),
        v.pc as int + 4 < 0xffff,
        v.text[v.pc as int] == 0x81,
        v.text[v.pc + 1] >= 0xc0,
        (v.text[v.pc + 1] / 8) % 8 == 5 || (v.text[v.pc + 1] / 8) % 8 == 7,
    ensures
        ({
            let b = v.text[v.pc + 1];
            let rm = b % 8;
            let imm = v.text[v.pc + 2] as int + 256 * v.text[v.pc + 3] as int;
            let dst = v.regs[rm as int] as int;
            let diff = (dst - imm) % 0x10000;
            let (w, r) = step_spec(v);
            &&& r is Executed
            &&& w.regs[rm as int] as int == if (b / 8) % 8 == 5 { diff } else { dst }
            &&& forall|i: int| 0 <= i < 12 && i != rm ==> w.regs[i] == v.regs[i]
            &&& flag_c(w.sreg) == (dst < imm)
            &&& flag_z(w.sreg) == (dst == imm)
            &&& flag_s(w.sreg) == (diff >= 0x8000)
            &&& flag_o(w.sreg) == ((dst >= 0x8000) != (imm >= 0x8000) && (diff >= 0x8000) != (dst >= 0x8000))
            &&& w.pc == v.pc + 4
        }),
{
    reveal(crate::machine::execute_spec);
    let b = v.text[v.pc + 1];
    let imm = crate::machine::word(v.text[v.pc + 2], v.text[v.pc + 3]);
    let dst = v.regs[(b % 8) as int];
    let diff = dst as int - imm as int;
    let res = crate::machine::wrap16(diff);
    crate::runtime::lemma_flags_read_back(
        v.sreg,
        diff < 0,
        res == 0,
        res >= 0x8000,
        !crate::machine::fits_i16(crate::machine::s16(dst) - crate::machine::s16(imm)),
    );
}

/// `test r/m16, imm16` with a register operand (opcode 0xf7, mod 3, reg
/// field 0): the flags describe the bitwise and of the register named by the
/// r/m field and the immediate (zero exactly when it is 0, sign exactly when
/// its top bit is set, carry and overflow cleared); no register and no byte
/// of memory changes.
pub proof fn lemma_test_immediate(v: RuntimeView)
    requires
        machine_wf(v),
        v.pc as int + 4 <= v.text.len(),
        v.pc as int + 4 < 0xffff,
        v.text[v.pc as int] == 0xf7,
        v.text[v.pc + 1] >= 0xc0,
        (v.text[v.pc + 1] / 8) % 8 == 0,
    ensures
        ({
            let rm = v.text[v.pc + 1] % 8;
            let imm = crate::machine::word(v.text[v.pc + 2], v.text[v.pc + 3]);
            let x = v.regs[rm as int] & imm;
            let (w, r) = step_spec(v);
            &&& imm as int == v.text[v.pc + 2] as int + 256 * v.text[v.pc + 3] as int
            &&& r is Executed
            &&& w.regs == v.regs
            &&& w.data == v.data
            &&& !flag_c(w.sreg)
            &&& !flag_o(w.sreg)
            &&& flag_z(w.sreg) == (x == 0)
            &&& flag_s(w.sreg) == sign_bit(x)
            &&& w.pc == v.pc + 4
        }),
{
    reveal(crate::machine::execute_spec);
    let rm = v.text[v.pc + 1] % 8;
    let imm = crate::machine::word(v.text[v.pc + 2], v.text[v.pc + 3]);
    let a = v.regs[rm as int];
    let x = imm & a;
    assert(imm & a == a & imm) by (bit_vector);
    crate::runtime::lemma_flags_read_back(v.sreg, false, x == 0, x >= 0x8000, false);
}

/// `mov bx, imm16` (opcode 0xbb): BX receives the little-endian word that
/// follows the opcode; no other register, no flag and no byte of memory
/// changes.
pub proof fn lemma_mov_bx_immediate(v: RuntimeView)
    requires
        machine_wf(v),
        v.pc as int + 3 <= v.text.len(),
        v.pc as int + 3 < 0xffff,
        v.text[v.pc as int] == 0xbb,
    ensures
        ({
            let (w, r) = step_spec(v);
            &&& r is Executed
            &&& w.regs[3] as int == v.text[v.pc + 1] as int + 256 * v.text[v.pc + 2] as int
            &&& forall|i: int| 0 <= i < 12 && i != 3 ==> w.regs[i] == v.regs[i]
            &&& w.sreg == v.sreg
            &&& w.data == v.data
            &&& w.pc == v.pc + 3
        }),
{
    reveal(crate::machine::execute_spec);
}

/// `lea r16, [bx + disp8]` (opcode 0x8d, mod 1, r/m 7): the register named
/// by the reg field receives BX plus the sign-extended displacement, modulo
/// 2^16; nothing else changes. While listing, the word at that address is
/// read for the listing's memory note, so the step faults exactly when the
/// address is the last byte of memory.
pub proof fn lemma_lea_bx_displacement(v: RuntimeView)
    requires
        machine_wf(v),
        v.pc as int + 3 <= v.text.len(),
        v.pc as int + 3 < 0xffff,
        v.text[v.pc as int] == 0x8d,
        v.text[v.pc + 1] / 64 == 1,
        v.text[v.pc + 1] % 8 == 7,
    ensures
        ({
            let reg = (v.text[v.pc + 1] / 8) % 8;
            let d = v.text[v.pc + 2];
            let disp: int = if d >= 0x80 { d as int - 0x100 } else { d as int };
            let addr = (v.regs[3] as int + disp) % 0x10000;
            let (w, r) = step_spec(v);
            &&& (r is Executed) == (addr < 0xffff)
            &&& r is Executed ==> {
                &&& w.regs[reg as int] as int == addr
                &&& forall|i: int| 0 <= i < 12 && i != reg ==> w.regs[i] == v.regs[i]
                &&& w.sreg == v.sreg
                &&& w.data == v.data
                &&& w.pc == v.pc + 3
            }
        }),
{
    reveal(crate::machine::execute_spec);
}

/// `mov r16, r/m16` with a register operand (opcode 0x8b, mod 3): the
/// register named by the reg field receives the value of the register named
/// by the r/m field; every other register, and the memory, keep their values.
pub proof fn lemma_mov_to_reg_copies_rm(v: RuntimeView)
    requires
        two_bytes_ahead(v),
        v.text[v.pc as int] == 0x8b,
        v.text[v.pc + 1] >= 0xc0,
    ensures
        ({
            let b = v.text[v.pc + 1];
            let reg = (b / 8) % 8;
            let rm = b % 8;
            let (w, r) = step_spec(v);
            &&& r is Executed
            &&& w.regs[reg as int] == v.regs[rm as int]
            &&& forall|i: int| 0 <= i < 12 && i != reg ==> w.regs[i] == v.regs[i]
            &&& w.data == v.data
            &&& w.sreg == v.sreg
            &&& w.pc == v.pc + 2
        }),
{
    reveal(crate::machine::execute_spec);
}

/// `mov r/m16, r16` with a register operand (opcode 0x89, mod 3): the
/// register named by the r/m field receives the value of the register named
/// by the reg field; every other register keeps its value.
pub proof fn lemma_mov_to_rm_copies_reg(v: RuntimeView)
    requires
        two_bytes_ahead(v),
        v.text[v.pc as int] == 0x89,
        v.text[v.pc + 1] >= 0xc0,
    ensures
        ({
            let b = v.text[v.pc + 1];
            let reg = (b / 8) % 8;
            let rm = b % 8;
            let (w, r) = step_spec(v);
            &&& r is Executed
            &&& w.regs[rm as int] == v.regs[reg as int]
            &&& forall|i: int| 0 <= i < 12 && i != rm ==> w.regs[i] == v.regs[i]
            &&& w.sreg == v.sreg
            &&& w.pc == v.pc + 2
        }),
{
    reveal(crate::machine::execute_spec);
}

/// `mov r16, [addr]` (opcode 0x8b, mod 0, r/m 6): the register named by the
/// reg field receives the little-endian word at the address that follows the
/// ModR/M byte; the memory keeps its bytes.
pub proof fn lemma_mov_loads_word(v: RuntimeView)
    requires
        machine_wf(v),
        v.pc as int + 4 <= v.text.len(),
        v.pc as int + 4 < 0xffff,
        v.text[v.pc as int] == 0x8b,
        v.text[v.pc + 1] / 64 == 0,
        v.text[v.pc + 1] % 8 == 6,
        v.text[v.pc + 2] as int + 256 * v.text[v.pc + 3] as int + 1 < 0x10000,
    ensures
        ({
            let reg = (v.text[v.pc + 1] / 8) % 8;
            let addr = v.text[v.pc + 2] as int + 256 * v.text[v.pc + 3] as int;
            let (w, r) = step_spec(v);
            &&& r is Executed
            &&& w.regs[reg as int] as int == v.data[addr] as int + 256 * v.data[addr + 1] as int
            &&& forall|i: int| 0 <= i < 12 && i != reg ==> w.regs[i] == v.regs[i]
            &&& w.data == v.data
            &&& w.pc == v.pc + 4
        }),
{
    reveal(crate::machine::execute_spec);
}

/// The listing line of `add`, `xor` and `mov` between two 16-bit registers
/// (opcodes 0x01, 0x31, 0x89, 0x8b with mod 3): the register column as it was
/// before the instruction, `:`, the two bytes of the instruction padded to
/// fourteen characters, then the mnemonic and the two operands. The listing
/// renders a register r/m operand by the name of the register in the reg
/// field, so both operands read as that register.
#[verifier::rlimit(40)]
pub proof fn lemma_register_pair_listing(v: RuntimeView)
    requires
        two_bytes_ahead(v),
        v.text[v.pc as int] == 0x01 || v.text[v.pc as int] == 0x31 || v.text[v.pc as int] == 0x89
            || v.text[v.pc as int] == 0x8b,
        v.text[v.pc + 1] >= 0xc0,
    ensures
        ({
            let op = v.text[v.pc as int];
            let b = v.text[v.pc + 1];
            let reg = reg_name(((b / 8) % 8) as u8, 1);
            let mnemonic = if op == 0x01 {
                seq!['a', 'd', 'd']
            } else if op == 0x31 {
                seq!['x', 'o', 'r']
            } else {
                seq!['m', 'o', 'v']
            };
            let (w, r) = step_spec(v);
            r == StepView::Executed {
                log: Some(reg_state_text(v.regs, v.sreg, v.pc) + seq![':'] + raw_text(seq![op, b])
                    + mnemonic + seq![' '] + reg + seq![',', ' '] + reg),
                halted: w.pc as int == v.text.len() as int % 0x10000,
            }
        }),
{
    reveal(crate::machine::execute_spec);
    let op = v.text[v.pc as int];
    let b = v.text[v.pc + 1];
    assert(seq![].push(op).push(b) =~= seq![op, b]);
    let head = reg_state_text(v.regs, v.sreg, v.pc) + seq![':'] + raw_text(seq![op, b]);
    let reg = reg_name(((b / 8) % 8) as u8, 1);
    let mnemonic = if op == 0x01 {
        seq!['a', 'd', 'd']
    } else if op == 0x31 {
        seq!['x', 'o', 'r']
    } else {
        seq!['m', 'o', 'v']
    };
    let t = mnemonic + seq![' '] + reg + seq![',', ' '] + reg;
    assert(head + t + Seq::<char>::empty() =~= head + mnemonic + seq![' '] + reg + seq![',', ' '] + reg);
    let v0 = RuntimeView { prev_pc: v.pc, ..v };
    let (v1, r1) = crate::machine::fetch_spec(v0);
    let (v2, r2) = crate::machine::execute_spec(v1, op);
    assert(v2.raw == seq![op, b]);
    assert(v2.oi.memval is None);
    assert(v2.oi.m == 3 && v2.oi.reg == (b / 8) % 8 && v2.oi.rm == b % 8 && v2.oi.w == 1);
    assert(v2.oi.d == 1 <==> op == 0x8b);
    if op == 0x01 {
        assert(crate::machine::listing_text(crate::machine::Listing::Add, v2.oi) == Some(t));
    } else if op == 0x31 {
        assert(crate::machine::listing_text(crate::machine::Listing::Xor, v2.oi) == Some(t));
    } else {
        assert(crate::machine::listing_text(crate::machine::Listing::MovRm, v2.oi) == Some(t));
    }
}

/// The listing line of `jnb rel8` (opcode 0x73): the register column as it
/// was before the instruction, `:`, the two bytes of the instruction padded
/// to fourteen characters, and `jnb` with the jump target (the address after
/// the instruction plus the sign-extended displacement, modulo 2^16) in four
/// hex digits, whether or not the jump is taken.
pub proof fn lemma_jnb_listing(v: RuntimeView)
    requires
        two_bytes_ahead(v),
        v.text[v.pc as int] == 0x73,
    ensures
        ({
            let b = v.text[v.pc + 1];
            let disp: int = if b >= 0x80 { b as int - 0x100 } else { b as int };
            let target = (v.pc as int + 2 + disp) % 0x10000;
            let (w, r) = step_spec(v);
            r == StepView::Executed {
                log: Some(reg_state_text(v.regs, v.sreg, v.pc) + seq![':'] + raw_text(seq![0x73u8, b])
                    + seq!['j', 'n', 'b', ' '] + hex(target as nat, 4)),
                halted: w.pc as int == v.text.len() as int % 0x10000,
            }
        }),
{
    reveal(crate::machine::execute_spec);
    let b = v.text[v.pc + 1];
    let disp: int = if b >= 0x80 { b as int - 0x100 } else { b as int };
    let target = (v.pc as int + 2 + disp) % 0x10000;
    assert(seq![].push(0x73u8).push(b) =~= seq![0x73u8, b]);
    let head = reg_state_text(v.regs, v.sreg, v.pc) + seq![':'] + raw_text(seq![0x73u8, b]);
    let t = seq!['j', 'n', 'b', ' '] + hex(target as nat, 4);
    assert(head + t + Seq::<char>::empty() =~= head + seq!['j', 'n', 'b', ' '] + hex(target as nat, 4));
    let v0 = RuntimeView { prev_pc: v.pc, ..v };
    let (v1, r1) = crate::machine::fetch_spec(v0);
    let (v2, r2) = crate::machine::execute_spec(v1, 0x73u8);
    assert(v2.raw == seq![0x73u8, b]);
    assert(v2.oi.jpc as nat == target as nat);
    assert(crate::machine::listing_text(crate::machine::Listing::Jnb, v2.oi) == Some(t));
}

/// The listing names the 16-bit registers 0..7 ax cx dx bx sp bp si di and
/// the 8-bit registers 0..7 al cl dl bl ah ch dh bh. No two registers of one
/// width share a name, and each 8-bit register 0..3 is named after the low
/// byte (`l`) of the 16-bit register of the same number, 4..7 after the high
/// byte (`h`) of register number minus four.
pub proof fn lemma_register_names()
    ensures
        reg_name(0, 1) == seq!['a', 'x'],
        reg_name(1, 1) == seq!['c', 'x'],
        reg_name(2, 1) == seq!['d', 'x'],
        reg_name(3, 1) == seq!['b', 'x'],
        reg_name(4, 1) == seq!['s', 'p'],
        reg_name(5, 1) == seq!['b', 'p'],
        reg_name(6, 1) == seq!['s', 'i'],
        reg_name(7, 1) == seq!['d', 'i'],
        reg_name(0, 0) == seq!['a', 'l'],
        reg_name(1, 0) == seq!['c', 'l'],
        reg_name(2, 0) == seq!['d', 'l'],
        reg_name(3, 0) == seq!['b', 'l'],
        reg_name(4, 0) == seq!['a', 'h'],
        reg_name(5, 0) == seq!['c', 'h'],
        reg_name(6, 0) == seq!['d', 'h'],
        reg_name(7, 0) == seq!['b', 'h'],
        forall|i: u8, j: u8, w: u8| i < 8 && j < 8 && w < 2 && i != j ==> reg_name(i, w) != reg_name(j, w),
        forall|i: u8, w: u8| i < 8 && w < 2 ==> reg_name(i, w).len() == 2,
        forall|i: u8| i < 4 ==> reg_name(i, 0) == seq![reg_name(i, 1)[0], 'l'],
        forall|i: u8| 4 <= i < 8 ==> reg_name(i, 0) == seq![reg_name((i - 4) as u8, 1)[0], 'h'],
{
    assert forall|i: u8, j: u8, w: u8| i < 8 && j < 8 && w < 2 && i != j implies reg_name(i, w) != reg_name(j, w) by {
        if reg_name(i, w) == reg_name(j, w) {
            assert(reg_name(i, w)[0] == reg_name(j, w)[0]);
            assert(reg_name(i, w)[1] == reg_name(j, w)[1]);
        }
    }
    assert forall|i: u8| i < 4 implies reg_name(i, 0) == seq![reg_name(i, 1)[0], 'l'] by {
        assert(reg_name(i, 0) =~= seq![reg_name(i, 1)[0], 'l']);
    }
    assert forall|i: u8| 4 <= i < 8 implies reg_name(i, 0) == seq![reg_name((i - 4) as u8, 1)[0], 'h'] by {
        assert(reg_name(i, 0) =~= seq![reg_name((i - 4) as u8, 1)[0], 'h']);
    }
}

/// The register column of the listing follows its header
/// ` AX   BX   CX   DX   SP   BP   SI   DI  FLAGS IP`: the k-th field of four
/// hex digits, each followed by a space, holds AX, BX, CX, DX, SP, BP, SI, DI
/// in that order (registers 0, 3, 1, 2, 4, 5, 6, 7); then come the flags O S
/// Z C, each its letter when set and `-` when clear, a space, and the address
/// of the instruction in four hex digits.
pub proof fn lemma_reg_state_columns(regs: Seq<u16>, sreg: u16, prev_pc: u16)
    requires
        regs.len() == 12,
    ensures
        ({
            let t = reg_state_text(regs, sreg, prev_pc);
            let order = seq![AX, BX, CX, DX, SP, BP, SI, DI];
            &&& t.len() == 49
            &&& forall|k: int| 0 <= k < 8 ==> t.subrange(5 * k, 5 * k + 4) == hex(regs[order[k] as int] as nat, 4)
            &&& t[4] == ' ' && t[9] == ' ' && t[14] == ' ' && t[19] == ' ' && t[24] == ' '
            &&& t[29] == ' ' && t[34] == ' ' && t[39] == ' ' && t[44] == ' '
            &&& t[40] == flag_char(flag_o(sreg), 'O')
            &&& t[41] == flag_char(flag_s(sreg), 'S')
            &&& t[42] == flag_char(flag_z(sreg), 'Z')
            &&& t[43] == flag_char(flag_c(sreg), 'C')
            &&& t.subrange(45, 49) == hex(prev_pc as nat, 4)
        }),
{
    let t = reg_state_text(regs, sreg, prev_pc);
    let order = seq![AX, BX, CX, DX, SP, BP, SI, DI];
    assert forall|k: int| 0 <= k < 8 implies hex(regs[order[k] as int] as nat, 4).len() == 4 by {
        lemma_hex_width(regs[order[k] as int] as nat, 4);
    }
    lemma_hex_width(prev_pc as nat, 4);
    let h = |k: int| hex(regs[order[k] as int] as nat, 4);
    let sp = seq![' '];
    let f = seq![
        flag_char(flag_o(sreg), 'O'),
        flag_char(flag_s(sreg), 'S'),
        flag_char(flag_z(sreg), 'Z'),
        flag_char(flag_c(sreg), 'C'),
    ];
    assert(t == h(0) + sp + h(1) + sp + h(2) + sp + h(3) + sp + h(4) + sp + h(5) + sp + h(6) + sp + h(7) + sp
        + f + sp + hex(prev_pc as nat, 4));
    assert(t.len() == 49);
    assert forall|k: int| 0 <= k < 8 implies t.subrange(5 * k, 5 * k + 4) == hex(regs[order[k] as int] as nat, 4) by {
        assert(t.subrange(5 * k, 5 * k + 4) =~= h(k));
    }
    assert(t.subrange(45, 49) =~= hex(prev_pc as nat, 4));
}

} // verus!
