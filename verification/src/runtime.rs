use vstd::prelude::*;
use crate::disasm::{Disasm, opt_chars};
use crate::minix::{Minix, SyscallRequest};
use crate::machine::{
    operand_spec, exec_add_spec, exec_xor_spec, exec_jnb_spec, exec_sub_spec, exec_mov_spec, exec_lea_spec,
    exec_mov_imm_spec, exec_test_spec, group1_finish_spec, exec_syscall_spec, execute_spec,
    StackOp, apply_stack_ops, is_prefix, lemma_apply_fault_extends, lemma_apply_push, arg_ops, env_ops, env_chars,
    env_bytes, arg_bytes, args_frame, stack_frame, strings_len, args_ops, stack_ops, init_stack_spec,
    lemma_args_ops_prefix, lemma_args_frame_none, lemma_prefix_take, lemma_prefix_concat,
    Fault, Listing, StepView, step_spec, complete_spec, listing_text, end_step, halted, word, s8, s16, wrap16, with_oi, fetch_spec, fetch2_spec, modrm_fields,
    eaddr_spec, get_data_spec, get_data_sw_spec, read_register_spec, meminfo_text, read_memory_spec,
    read_effective_spec, write_register_spec, write_effective_spec, dwmrrm_spec, mrrm_spec, set_flags_spec,
};
use crate::text::push_hex;

verus! {

pub const O_BIT: u16 = 0x0800;
pub const S_BIT: u16 = 0x0080;
pub const Z_BIT: u16 = 0x0040;
pub const C_BIT: u16 = 0x0001;

pub const AX: u8 = 0;
pub const CX: u8 = 1;
pub const DX: u8 = 2;
pub const BX: u8 = 3;
pub const SP: u8 = 4;
pub const BP: u8 = 5;
pub const SI: u8 = 6;
pub const DI: u8 = 7;

/// Size of the data memory of the machine.
pub const MEM_SIZE: usize = 0x10000;

pub open spec fn flag_c(sreg: u16) -> bool {
    sreg & C_BIT != 0
}

pub open spec fn flag_z(sreg: u16) -> bool {
    sreg & Z_BIT != 0
}

pub open spec fn flag_s(sreg: u16) -> bool {
    sreg & S_BIT != 0
}

pub open spec fn flag_o(sreg: u16) -> bool {
    sreg & O_BIT != 0
}

/// The status register with C, Z, S and O set to `c`, `z`, `s`, `o` and every
/// other bit kept.
pub open spec fn with_flags(sreg: u16, c: bool, z: bool, s: bool, o: bool) -> u16 {
    (sreg & !(C_BIT | Z_BIT | S_BIT | O_BIT))
        | (if c { C_BIT } else { 0 })
        | (if z { Z_BIT } else { 0 })
        | (if s { S_BIT } else { 0 })
        | (if o { O_BIT } else { 0 })
}

/// The fields of one decoded instruction.
pub struct OpInfo {
    pub d: u8,
    pub s: u8,
    pub w: u8,
    pub m: u8,
    pub reg: u8,
    pub rm: u8,
    /// immediate data
    pub imd16: u16,
    /// effective address
    pub eaddr: u16,
    /// displacement
    pub disp: i16,
    /// target of a jump
    pub jpc: u16,
    /// the memory operand that was read, for the listing
    pub memval: Option<String>,
}

/// The value of an `OpInfo`, its note taken as characters.
pub struct OpView {
    pub d: u8,
    pub s: u8,
    pub w: u8,
    pub m: u8,
    pub reg: u8,
    pub rm: u8,
    pub imd16: u16,
    pub eaddr: u16,
    pub disp: i16,
    pub jpc: u16,
    pub memval: Option<Seq<char>>,
}

impl View for OpInfo {
    type V = OpView;

    open spec fn view(&self) -> OpView {
        OpView {
            d: self.d,
            s: self.s,
            w: self.w,
            m: self.m,
            reg: self.reg,
            rm: self.rm,
            imd16: self.imd16,
            eaddr: self.eaddr,
            disp: self.disp,
            jpc: self.jpc,
            memval: match self.memval {
                Some(s) => Some(s@),
                None => None,
            },
        }
    }
}

/// Every field zero and no note.
pub open spec fn cleared_op() -> OpView {
    OpView { d: 0, s: 0, w: 0, m: 0, reg: 0, rm: 0, imd16: 0, eaddr: 0, disp: 0, jpc: 0, memval: None }
}

impl OpInfo {
    pub fn new() -> (r: Self)
        ensures
            r@ == cleared_op(),
    {
        OpInfo { d: 0, s: 0, w: 0, m: 0, reg: 0, rm: 0, imd16: 0, eaddr: 0, disp: 0, jpc: 0, memval: None }
    }

    pub fn clear(&mut self)
        ensures
            final(self)@ == cleared_op(),
    {
        self.d = 0;
        self.s = 0;
        self.w = 0;
        self.m = 0;
        self.reg = 0;
        self.rm = 0;
        self.imd16 = 0;
        self.eaddr = 0;
        self.disp = 0;
        self.jpc = 0;
        self.memval = None;
    }
}

/// The machine state as a value.
pub struct RuntimeView {
    pub text: Seq<u8>,
    pub data: Seq<u8>,
    pub regs: Seq<u16>,
    pub sreg: u16,
    pub pc: u16,
    pub prev_pc: u16,
    pub debug: bool,
    /// the bytes of the current instruction fetched so far
    pub raw: Seq<u8>,
    pub oi: OpView,
    pub os_debug: bool,
}

/// The 8086 machine: text segment, 64 KiB data memory, registers
/// AX CX DX BX SP BP SI DI ES CS SS DS (in that order), status register and
/// program counter.
pub struct Runtime<'a> {
    text: &'a [u8],
    data: Vec<u8>,
    regs: [u16; 12],
    sreg: u16,
    pc: u16,
    prev_pc: u16,
    debug: bool,
    disasm: Disasm,
    os: Minix,
    oi: OpInfo,
}

impl<'a> View for Runtime<'a> {
    type V = RuntimeView;

    closed spec fn view(&self) -> RuntimeView {
        RuntimeView {
            text: self.text@,
            data: self.data@,
            regs: self.regs@,
            sreg: self.sreg,
            pc: self.pc,
            prev_pc: self.prev_pc,
            debug: self.debug,
            raw: self.disasm@,
            oi: self.oi@,
            os_debug: self.os@,
        }
    }
}

/// A state between two instructions: 64 KiB of memory, twelve registers, no
/// instruction bytes pending, the instruction fields cleared, and listing on
/// (a runtime always lists).
pub open spec fn machine_wf(v: RuntimeView) -> bool {
    &&& v.debug
    &&& v.data.len() == MEM_SIZE
    &&& v.regs.len() == 12
    &&& v.raw.len() == 0
    &&& v.oi == cleared_op()
}

impl<'a> Runtime<'a> {
    pub open spec fn wf(&self) -> bool {
        machine_wf(self@)
    }

    pub fn new(text: &'a [u8]) -> (r: Self)
        ensures
            r.wf(),
            r@.text == text@,
            r@.data == Seq::new(MEM_SIZE as nat, |i: int| 0u8),
            r@.regs == Seq::new(12, |i: int| 0u16),
            r@.sreg == 0,
            r@.pc == 0,
            r@.prev_pc == 0,
            r@.debug,
            r@.os_debug,
    {
        let r = Runtime {
            text: text,
            data: vec![0u8; MEM_SIZE],
            regs: [0u16; 12],
            sreg: 0,
            pc: 0,
            prev_pc: 0,
            debug: true,
            disasm: Disasm::new(),
            oi: OpInfo::new(),
            os: Minix::new(true),
        };
        assert(r.regs@ == Seq::new(12, |i: int| 0u16));
        r
    }
}


/// The instruction fields as the decoder leaves them: one-bit `d`, `s`, `w`,
/// two-bit `m`, three-bit `reg` and `rm`, and a register number as effective
/// address for a register operand.
pub open spec fn fields_ok(oi: OpView) -> bool {
    &&& oi.d <= 1
    &&& oi.s <= 1
    &&& oi.w <= 1
    &&& oi.m <= 3
    &&& oi.reg <= 7
    &&& oi.rm <= 7
    &&& (oi.m == 3 ==> oi.eaddr <= 7)
}

/// The parts of the machine that a step never changes.
pub open spec fn frame_kept(a: RuntimeView, b: RuntimeView) -> bool {
    &&& a.text == b.text
    &&& a.debug == b.debug
    &&& a.os_debug == b.os_debug
}

/// A state inside a step: 64 KiB of memory, twelve registers, decoder fields in range.
pub open spec fn step_ok(v: RuntimeView) -> bool {
    &&& v.data.len() == MEM_SIZE
    &&& v.regs.len() == 12
    &&& fields_ok(v.oi)
}

/// BX plus a displacement, modulo 2^16.
fn add_disp(bx: u16, disp: i16) -> (r: u16)
    ensures
        r == wrap16(bx as int + disp as int),
{
    let t: i32 = bx as i32 + disp as i32;
    if t < 0 {
        (t + 0x10000) as u16
    } else if t >= 0x10000 {
        (t - 0x10000) as u16
    } else {
        t as u16
    }
}

/// A byte sign-extended to 16 bits.
fn sign_extend(b: u8) -> (r: i16)
    ensures
        r as int == s8(b),
{
    if b >= 0x80 {
        b as i16 - 0x100
    } else {
        b as i16
    }
}

/// The meaning of `s16` on the exec side.
fn signed16(v: u16) -> (r: i32)
    ensures
        r as int == s16(v),
{
    if v >= 0x8000 {
        v as i32 - 0x10000
    } else {
        v as i32
    }
}

fn meminfo(addr: u16, val: u16) -> (r: String)
    ensures
        r@ == meminfo_text(addr, val),
{
    let mut s = String::new();
    s.push(' ');
    s.push(';');
    s.push('[');
    push_hex(&mut s, addr, 4);
    s.push(']');
    push_hex(&mut s, val, 4);
    s
}

impl<'a> Runtime<'a> {
    fn fetch(&mut self) -> (r: Result<u8, Fault>)
        ensures
            (final(self)@, r) == fetch_spec(old(self)@),
            frame_kept(old(self)@, final(self)@),
            final(self)@.raw.len() <= old(self)@.raw.len() + 1,
    {
        if self.pc as usize >= self.text.len() {
            return Err(Fault::IndexOutOfBounds);
        }
        let val = self.text[self.pc as usize];
        if self.pc == 0xffff {
            return Err(Fault::ArithmeticOverflow);
        }
        self.pc += 1;
        if self.debug {
            self.disasm.add(&val)
        }
        Ok(val)
    }

    fn fetch2(&mut self) -> (r: Result<u16, Fault>)
        ensures
            (final(self)@, r) == fetch2_spec(old(self)@),
            frame_kept(old(self)@, final(self)@),
            final(self)@.raw.len() <= old(self)@.raw.len() + 2,
    {
        let d1 = match self.fetch() {
            Ok(b) => b,
            Err(e) => return Err(e),
        };
        let d2 = match self.fetch() {
            Ok(b) => b,
            Err(e) => return Err(e),
        };
        let r = (d2 as u16) << 8 | d1 as u16;
        assert(r == word(d1, d2)) by {
            assert((d2 as u16) << 8 | d1 as u16 == d2 as u16 * 256 + d1 as u16) by (bit_vector);
        }
        Ok(r)
    }

    fn get_reg_w(op: u8) -> (r: (u8, u8))
        ensures
            r == (((op / 8) % 2) as u8, (op % 8) as u8),
    {
        assert(op >> 3 & 1 == (op / 8) % 2 && op & 7 == op % 8) by (bit_vector);
        (op >> 3 & 1, op & 7)
    }

    fn get_mod_reg_rm(arg: u8) -> (r: (u8, u8, u8))
        ensures
            r == modrm_fields(arg),
            r.0 < 4 && r.1 < 8 && r.2 < 8,
            r.0 as int * 64 + r.1 as int * 8 + r.2 as int == arg as int,
    {
        assert(arg >> 6 & 3 == arg / 64 && arg >> 3 & 7 == (arg / 8) % 8 && arg & 7 == arg % 8) by (bit_vector);
        (arg >> 6 & 3, arg >> 3 & 7, arg & 7)
    }

    fn get_sw(arg: u8) -> (r: (u8, u8))
        ensures
            r == (((arg / 2) % 2) as u8, (arg % 2) as u8),
    {
        assert(arg >> 1 & 1 == (arg / 2) % 2 && arg & 1 == arg % 2) by (bit_vector);
        (arg >> 1 & 1, arg & 1)
    }

    fn get_dw(arg: u8) -> (r: (u8, u8))
        ensures
            r == (((arg / 2) % 2) as u8, (arg % 2) as u8),
    {
        assert(arg >> 1 & 1 == (arg / 2) % 2 && arg & 1 == arg % 2) by (bit_vector);
        (arg >> 1 & 1, arg & 1)
    }

    fn get_w(arg: u8) -> (r: u8)
        ensures
            r == arg % 2,
    {
        assert(arg & 1 == arg % 2) by (bit_vector);
        arg & 1
    }

    fn get_eaddr(&mut self) -> (r: Result<(), Fault>)
        requires
            step_ok(old(self)@),
        ensures
            (final(self)@, r) == eaddr_spec(old(self)@),
            step_ok(final(self)@),
            frame_kept(old(self)@, final(self)@),
            final(self)@.raw.len() <= old(self)@.raw.len() + 2,
    {
        if self.oi.m == 0 && self.oi.rm == 6 {
            match self.fetch2() {
                Ok(a) => {
                    self.oi.eaddr = a;
                    return Ok(());
                },
                Err(e) => return Err(e),
            }
        }
        if self.oi.m == 2 {
            return Err(Fault::NotYetImplemented);
        }
        if self.oi.m == 3 {
            self.oi.eaddr = self.oi.rm as u16;
            return Ok(());
        }
        if self.oi.m == 1 {
            match self.fetch() {
                Ok(b) => {
                    self.oi.disp = sign_extend(b);
                },
                Err(e) => return Err(e),
            }
        }
        if self.oi.rm == 7 {
            self.oi.eaddr = add_disp(self.regs[3], self.oi.disp);
            Ok(())
        } else {
            Err(Fault::NotImplementedYet)
        }
    }

    fn get_data(&mut self, w: u8) -> (r: Result<u16, Fault>)
        requires
            step_ok(old(self)@),
        ensures
            (final(self)@, r) == get_data_spec(old(self)@, w),
            step_ok(final(self)@),
            frame_kept(old(self)@, final(self)@),
            final(self)@.raw.len() <= old(self)@.raw.len() + 2,
    {
        if w == 0 {
            match self.fetch() {
                Ok(b) => {
                    self.oi.imd16 = b as u16;
                },
                Err(e) => return Err(e),
            }
        } else if w > 1 {
            return Err(Fault::NoSuchW(w));
        } else {
            match self.fetch2() {
                Ok(x) => {
                    self.oi.imd16 = x;
                },
                Err(e) => return Err(e),
            }
        }
        Ok(self.oi.imd16)
    }

    fn get_data_sw(&mut self) -> (r: Result<u16, Fault>)
        requires
            step_ok(old(self)@),
        ensures
            (final(self)@, r) == get_data_sw_spec(old(self)@),
            step_ok(final(self)@),
            frame_kept(old(self)@, final(self)@),
            final(self)@.raw.len() <= old(self)@.raw.len() + 2,
    {
        if self.oi.s == 0 && self.oi.w == 1 {
            self.get_data(1)
        } else {
            self.get_data(0)
        }
    }

    fn read_register(&self, reg: u8) -> (r: u16)
        requires
            step_ok(self@),
            reg < 12,
            self@.oi.w == 0 ==> reg < 8,
        ensures
            r == read_register_spec(self@, reg),
    {
        if self.oi.w == 0 {
            if reg < 4 {
                let x = self.regs[reg as usize];
                assert(x & 0xff == x % 256) by (bit_vector);
                x & 0xff
            } else {
                let x = self.regs[(reg - 4) as usize];
                assert(x >> 8 == x / 256) by (bit_vector);
                x >> 8
            }
        } else {
            self.regs[reg as usize]
        }
    }

    fn add_meminfo(&mut self, val: u16)
        requires
            old(self)@.oi.w == 1,
        ensures
            final(self)@ == with_oi(old(self)@, OpView { memval: Some(meminfo_text(old(self)@.oi.eaddr, val)), ..old(self)@.oi }),
    {
        self.oi.memval = Some(meminfo(self.oi.eaddr, val));
    }

    fn read_memory(&self, addr: u16) -> (r: Result<u16, Fault>)
        requires
            step_ok(self@),
        ensures
            r == read_memory_spec(self@, addr),
    {
        if self.oi.w == 0 {
            return Err(Fault::NotImplementedYet);
        }
        if addr as usize + 1 >= self.data.len() {
            return Err(Fault::IndexOutOfBounds);
        }
        let lo = self.data[addr as usize];
        let hi = self.data[addr as usize + 1];
        let val: u16 = lo as u16 | (hi as u16) << 8;
        assert(lo as u16 | (hi as u16) << 8 == hi as u16 * 256 + lo as u16) by (bit_vector);
        Ok(val)
    }

    fn read_effective(&mut self) -> (r: Result<u16, Fault>)
        requires
            step_ok(old(self)@),
        ensures
            (final(self)@, r) == read_effective_spec(old(self)@),
            step_ok(final(self)@),
            frame_kept(old(self)@, final(self)@),
            final(self)@.raw == old(self)@.raw,
    {
        if self.oi.m <= 2 {
            let val = match self.read_memory(self.oi.eaddr) {
                Ok(v) => v,
                Err(e) => return Err(e),
            };
            if self.debug {
                self.add_meminfo(val);
            }
            Ok(val)
        } else {
            Ok(self.read_register(self.oi.eaddr as u8))
        }
    }

    fn write_register(&mut self, reg: u8, w: u8, data: u16) -> (r: Result<(), Fault>)
        requires
            step_ok(old(self)@),
            reg < 12,
        ensures
            (final(self)@, r) == write_register_spec(old(self)@, reg, w, data),
            step_ok(final(self)@),
            frame_kept(old(self)@, final(self)@),
            final(self)@.raw == old(self)@.raw,
    {
        if w == 0 {
            return Err(Fault::ByteRegisterWrite);
        }
        if w > 1 {
            return Err(Fault::NoSuchW(w));
        }
        self.regs[reg as usize] = data;
        Ok(())
    }

    fn write_effective(&mut self, val: u16) -> (r: Result<(), Fault>)
        requires
            step_ok(old(self)@),
        ensures
            (final(self)@, r) == write_effective_spec(old(self)@, val),
            step_ok(final(self)@),
            frame_kept(old(self)@, final(self)@),
            final(self)@.raw == old(self)@.raw,
    {
        if self.oi.m == 3 {
            match self.write_register(self.oi.eaddr as u8, self.oi.w, val) {
                Ok(_) => {},
                Err(e) => return Err(e),
            }
        }
        let a = self.oi.eaddr as usize;
        assert(val & 0xff == val % 256) by (bit_vector);
        assert((val >> 8) & 0xff == val / 256) by (bit_vector);
        self.data.set(a, (val & 0xff) as u8);
        if self.oi.w == 0 {
            Ok(())
        } else if a + 1 < self.data.len() {
            self.data.set(a + 1, ((val >> 8) & 0xff) as u8);
            Ok(())
        } else {
            Err(Fault::IndexOutOfBounds)
        }
    }

    fn get_dwmrrm(&mut self, op: &u8) -> (r: Result<(), Fault>)
        requires
            step_ok(old(self)@),
            old(self)@.oi.eaddr <= 7,
        ensures
            (final(self)@, r) == dwmrrm_spec(old(self)@, *op),
            step_ok(final(self)@),
            frame_kept(old(self)@, final(self)@),
            final(self)@.raw.len() <= old(self)@.raw.len() + 1,
    {
        let (d, w) = Runtime::get_dw(*op);
        self.oi.d = d;
        self.oi.w = w;
        self.get_mrrm()
    }

    fn get_mrrm(&mut self) -> (r: Result<(), Fault>)
        requires
            step_ok(old(self)@),
            old(self)@.oi.eaddr <= 7,
        ensures
            (final(self)@, r) == mrrm_spec(old(self)@),
            step_ok(final(self)@),
            frame_kept(old(self)@, final(self)@),
            final(self)@.raw.len() <= old(self)@.raw.len() + 1,
    {
        let b = match self.fetch() {
            Ok(b) => b,
            Err(e) => return Err(e),
        };
        let (m, reg, rm) = Runtime::get_mod_reg_rm(b);
        self.oi.m = m;
        self.oi.reg = reg;
        self.oi.rm = rm;
        Ok(())
    }

    fn set_flags(&mut self, c: bool, z: bool, s: bool, o: bool)
        ensures
            final(self)@ == set_flags_spec(old(self)@, c, z, s, o),
            flag_c(final(self)@.sreg) == c,
            flag_z(final(self)@.sreg) == z,
            flag_s(final(self)@.sreg) == s,
            flag_o(final(self)@.sreg) == o,
            final(self)@.sreg & !(C_BIT | Z_BIT | S_BIT | O_BIT) == old(self)@.sreg & !(C_BIT | Z_BIT | S_BIT | O_BIT),
    {
        proof {
            lemma_flags_read_back(self.sreg, c, z, s, o);
        }
        let ghost s0 = self.sreg;
        if c { self.sreg |= C_BIT; } else { self.sreg &= !C_BIT }
        let ghost s1 = self.sreg;
        if z { self.sreg |= Z_BIT; } else { self.sreg &= !Z_BIT }
        let ghost s2 = self.sreg;
        if s { self.sreg |= S_BIT; } else { self.sreg &= !S_BIT }
        let ghost s3 = self.sreg;
        if o { self.sreg |= O_BIT; } else { self.sreg &= !O_BIT }
        let ghost s4 = self.sreg;
        assert(s4 == with_flags(s0, c, z, s, o)) by (bit_vector)
            requires
                s1 == (if c { s0 | C_BIT } else { s0 & !C_BIT }),
                s2 == (if z { s1 | Z_BIT } else { s1 & !Z_BIT }),
                s3 == (if s { s2 | S_BIT } else { s2 & !S_BIT }),
                s4 == (if o { s3 | O_BIT } else { s3 & !O_BIT }),
        ;
    }
}


impl<'a> Runtime<'a> {
    /// The program counter plus a signed displacement, modulo 2^16.
    fn calc_disp(&self, addr: i16) -> (r: u16)
        ensures
            r == wrap16(self@.pc as int + addr as int),
    {
        add_disp(self.pc, addr)
    }

    /// The ModR/M byte, the effective address, and the value of the r/m operand.
    fn operand(&mut self, op: u8) -> (r: Result<u16, Fault>)
        requires
            step_ok(old(self)@),
            old(self)@.oi.eaddr <= 7,
        ensures
            (final(self)@, r) == operand_spec(old(self)@, op),
            step_ok(final(self)@),
            frame_kept(old(self)@, final(self)@),
            final(self)@.raw.len() <= old(self)@.raw.len() + 3,
    {
        match self.get_dwmrrm(&op) {
            Ok(_) => {},
            Err(e) => return Err(e),
        }
        match self.get_eaddr() {
            Ok(_) => {},
            Err(e) => return Err(e),
        }
        self.read_effective()
    }

    fn exec_add(&mut self, op: u8) -> (r: Result<Listing, Fault>)
        requires
            step_ok(old(self)@),
            old(self)@.oi.eaddr <= 7,
        ensures
            (final(self)@, r) == exec_add_spec(old(self)@, op),
            step_ok(final(self)@),
            frame_kept(old(self)@, final(self)@),
            final(self)@.raw.len() <= old(self)@.raw.len() + 5,
    {
        let eval = match self.operand(op) {
            Ok(v) => v,
            Err(e) => return Err(e),
        };
        let rval = self.read_register(self.oi.reg);
        if op != 1 {
            return Err(Fault::NotImplementedYet);
        }
        let sum: u32 = eval as u32 + rval as u32;
        let c_flg = sum > 0xffff;
        let val: u16 = (sum % 0x10000) as u16;
        let ssum: i32 = signed16(eval) + signed16(rval);
        let o_flg = !(-0x8000 <= ssum && ssum <= 0x7fff);
        match self.write_effective(val) {
            Ok(_) => {},
            Err(e) => return Err(e),
        }
        self.set_flags(c_flg, val == 0, val >= 0x8000, o_flg);
        Ok(Listing::Add)
    }

    fn exec_xor(&mut self, op: u8) -> (r: Result<Listing, Fault>)
        requires
            step_ok(old(self)@),
            old(self)@.oi.eaddr <= 7,
        ensures
            (final(self)@, r) == exec_xor_spec(old(self)@, op),
            step_ok(final(self)@),
            frame_kept(old(self)@, final(self)@),
            final(self)@.raw.len() <= old(self)@.raw.len() + 5,
    {
        let eval = match self.operand(op) {
            Ok(v) => v,
            Err(e) => return Err(e),
        };
        let rval = self.read_register(self.oi.reg);
        let val16 = eval ^ rval;
        if self.oi.d == 0 {
            match self.write_effective(val16) {
                Ok(_) => {},
                Err(e) => return Err(e),
            }
        } else {
            return Err(Fault::ToRegisterNotImplemented);
        }
        if self.oi.w == 0 {
            return Err(Fault::NotImplementedYet);
        }
        self.set_flags(false, val16 == 0, val16 >= 0x8000, false);
        Ok(Listing::Xor)
    }

    fn exec_jnb(&mut self) -> (r: Result<Listing, Fault>)
        requires
            step_ok(old(self)@),
        ensures
            (final(self)@, r) == exec_jnb_spec(old(self)@),
            step_ok(final(self)@),
            frame_kept(old(self)@, final(self)@),
            final(self)@.raw.len() <= old(self)@.raw.len() + 5,
    {
        let disp = match self.fetch() {
            Ok(b) => b,
            Err(e) => return Err(e),
        };
        self.oi.jpc = self.calc_disp(sign_extend(disp));
        if self.c() == false {
            self.pc = self.oi.jpc;
        }
        Ok(Listing::Jnb)
    }

    fn exec_sub(&mut self, op: u8) -> (r: Result<Listing, Fault>)
        requires
            step_ok(old(self)@),
            old(self)@.oi.eaddr <= 7,
        ensures
            (final(self)@, r) == exec_sub_spec(old(self)@, op),
            step_ok(final(self)@),
            frame_kept(old(self)@, final(self)@),
            final(self)@.raw.len() <= old(self)@.raw.len() + 5,
    {
        let (s, w) = Runtime::get_sw(op);
        self.oi.s = s;
        self.oi.w = w;
        match self.get_mrrm() {
            Ok(_) => {},
            Err(e) => return Err(e),
        }
        match self.get_eaddr() {
            Ok(_) => {},
            Err(e) => return Err(e),
        }
        let dst = match self.read_effective() {
            Ok(v) => v,
            Err(e) => return Err(e),
        };
        let imd = match self.get_data_sw() {
            Ok(v) => v,
            Err(e) => return Err(e),
        };
        self.group1_finish(op, dst, imd)
    }

    fn group1_finish(&mut self, op: u8, dst: u16, imd: u16) -> (r: Result<Listing, Fault>)
        requires
            step_ok(old(self)@),
        ensures
            (final(self)@, r) == group1_finish_spec(old(self)@, op, dst, imd),
            step_ok(final(self)@),
            frame_kept(old(self)@, final(self)@),
            final(self)@.raw == old(self)@.raw,
    {
        if op == 0x81 {
            let c_flg = dst < imd;
            let val: u16 = if dst >= imd { dst - imd } else { (dst as u32 + 0x10000 - imd as u32) as u16 };
            let sdiff: i32 = signed16(dst) - signed16(imd);
            let o_flg = !(-0x8000 <= sdiff && sdiff <= 0x7fff);
            self.set_flags(c_flg, val == 0, val >= 0x8000, o_flg);
            if self.oi.reg == 5 {
                match self.write_effective(val) {
                    Ok(_) => Ok(Listing::Sub),
                    Err(e) => Err(e),
                }
            } else if self.oi.reg == 7 {
                Ok(Listing::Cmp)
            } else {
                Err(Fault::NoSuchRegPattern)
            }
        } else if op == 0x82 {
            Err(Fault::NoSuchOp)
        } else {
            Err(Fault::NotYetImplemented)
        }
    }

    fn exec_mov(&mut self, op: u8) -> (r: Result<Listing, Fault>)
        requires
            step_ok(old(self)@),
            old(self)@.oi.eaddr <= 7,
        ensures
            (final(self)@, r) == exec_mov_spec(old(self)@, op),
            step_ok(final(self)@),
            frame_kept(old(self)@, final(self)@),
            final(self)@.raw.len() <= old(self)@.raw.len() + 5,
    {
        let eval = match self.operand(op) {
            Ok(v) => v,
            Err(e) => return Err(e),
        };
        let rval = self.read_register(self.oi.reg);
        let res = if self.oi.d == 0 {
            self.write_effective(rval)
        } else {
            self.write_register(self.oi.reg, self.oi.w, eval)
        };
        match res {
            Ok(_) => Ok(Listing::MovRm),
            Err(e) => Err(e),
        }
    }

    fn exec_lea(&mut self) -> (r: Result<Listing, Fault>)
        requires
            step_ok(old(self)@),
            old(self)@.oi.eaddr <= 7,
        ensures
            (final(self)@, r) == exec_lea_spec(old(self)@),
            step_ok(final(self)@),
            frame_kept(old(self)@, final(self)@),
            final(self)@.raw.len() <= old(self)@.raw.len() + 5,
    {
        match self.get_mrrm() {
            Ok(_) => {},
            Err(e) => return Err(e),
        }
        match self.get_eaddr() {
            Ok(_) => {},
            Err(e) => return Err(e),
        }
        self.oi.w = 1;
        let _ = self.write_register(self.oi.reg, self.oi.w, self.oi.eaddr);
        if self.debug {
            let val = match self.read_memory(self.oi.eaddr) {
                Ok(v) => v,
                Err(e) => return Err(e),
            };
            self.add_meminfo(val);
        }
        Ok(Listing::Lea)
    }

    fn exec_mov_imm(&mut self, op: u8) -> (r: Result<Listing, Fault>)
        requires
            step_ok(old(self)@),
        ensures
            (final(self)@, r) == exec_mov_imm_spec(old(self)@, op),
            step_ok(final(self)@),
            frame_kept(old(self)@, final(self)@),
            final(self)@.raw.len() <= old(self)@.raw.len() + 5,
    {
        let (w, reg) = Runtime::get_reg_w(op);
        self.oi.w = w;
        self.oi.reg = reg;
        match self.get_data(self.oi.w) {
            Ok(_) => {},
            Err(e) => return Err(e),
        }
        match self.write_register(self.oi.reg, self.oi.w, self.oi.imd16) {
            Ok(_) => Ok(Listing::MovImm),
            Err(e) => Err(e),
        }
    }

    fn exec_test(&mut self, op: u8) -> (r: Result<Listing, Fault>)
        requires
            step_ok(old(self)@),
            old(self)@.oi.eaddr <= 7,
        ensures
            (final(self)@, r) == exec_test_spec(old(self)@, op),
            step_ok(final(self)@),
            frame_kept(old(self)@, final(self)@),
            final(self)@.raw.len() <= old(self)@.raw.len() + 5,
    {
        self.oi.w = Runtime::get_w(op);
        match self.get_mrrm() {
            Ok(_) => {},
            Err(e) => return Err(e),
        }
        if self.oi.reg != 0 {
            return Err(Fault::NoSuchPattern);
        }
        let data = match self.get_data(self.oi.w) {
            Ok(v) => v,
            Err(e) => return Err(e),
        };
        match self.get_eaddr() {
            Ok(_) => {},
            Err(e) => return Err(e),
        }
        let edata = match self.read_effective() {
            Ok(v) => v,
            Err(e) => return Err(e),
        };
        if self.oi.w == 0 {
            let val: u8 = (data & 0xff) as u8 & (edata & 0xff) as u8;
            assert((data & 0xff) as u8 == (data % 256) as u8 && (edata & 0xff) as u8 == (edata % 256) as u8)
                by (bit_vector);
            self.set_flags(false, val == 0, val >= 0x80, false);
        } else {
            let val: u16 = data & edata;
            self.set_flags(false, val == 0, val >= 0x8000, false);
        }
        Ok(Listing::Test)
    }

    fn exec_syscall(&mut self) -> (r: Result<Listing, Fault>)
        requires
            step_ok(old(self)@),
        ensures
            (final(self)@, r) == exec_syscall_spec(old(self)@),
            step_ok(final(self)@),
            frame_kept(old(self)@, final(self)@),
            final(self)@.raw.len() <= old(self)@.raw.len() + 5,
    {
        match self.fetch() {
            Ok(_) => Ok(Listing::Syscall),
            Err(e) => Err(e),
        }
    }

    /// Executes the instruction whose opcode byte has been read.
    fn execute(&mut self, op: u8) -> (r: Result<Listing, Fault>)
        requires
            step_ok(old(self)@),
            old(self)@.oi.eaddr == 0,
        ensures
            (final(self)@, r) == execute_spec(old(self)@, op),
            step_ok(final(self)@),
            frame_kept(old(self)@, final(self)@),
            final(self)@.raw.len() <= old(self)@.raw.len() + 5,
    {
        reveal(execute_spec);
        match op {
            0x00..=0x03 => self.exec_add(op),
            0x30..=0x33 => self.exec_xor(op),
            0x73 => self.exec_jnb(),
            0x80..=0x83 => self.exec_sub(op),
            0x88..=0x8b => self.exec_mov(op),
            0x8d => self.exec_lea(),
            0xbb => self.exec_mov_imm(op),
            0xcd => self.exec_syscall(),
            0xf6..=0xf7 => self.exec_test(op),
            _ => Err(Fault::UnrecognizedOperator(op)),
        }
    }

    pub fn c(&self) -> (r: bool)
        ensures
            r == flag_c(self@.sreg),
    {
        Runtime::f_check(self.sreg, C_BIT)
    }

    pub fn z(&self) -> (r: bool)
        ensures
            r == flag_z(self@.sreg),
    {
        Runtime::f_check(self.sreg, Z_BIT)
    }

    pub fn s(&self) -> (r: bool)
        ensures
            r == flag_s(self@.sreg),
    {
        Runtime::f_check(self.sreg, S_BIT)
    }

    pub fn o(&self) -> (r: bool)
        ensures
            r == flag_o(self@.sreg),
    {
        Runtime::f_check(self.sreg, O_BIT)
    }

    fn f_check(val: u16, mask: u16) -> (r: bool)
        ensures
            r == (val & mask != 0),
    {
        if val & mask == 0 { false } else { true }
    }
}

impl<'a> Runtime<'a> {
    /// The registers AX CX DX BX SP BP SI DI ES CS SS DS.
    pub fn get_regs(&self) -> (r: &[u16; 12])
        ensures
            r@ == self@.regs,
    {
        &self.regs
    }

    /// The address of the instruction being executed.
    pub fn get_prev_pc(&self) -> (r: u16)
        ensures
            r == self@.prev_pc,
    {
        self.prev_pc
    }
}

/// What one step of the machine did.
#[allow(inconsistent_fields)]
pub enum StepResult {
    /// An instruction ran: its listing line (when listing), and whether the
    /// run is over.
    Executed { log: Option<String>, halted: bool },
    /// A system call: the listing line printed before it, the decoded
    /// request, and whether the run is over once it is served.
    SystemCall { log: String, request: Result<SyscallRequest, Fault>, halted: bool },
    /// The machine stops.
    Faulted(Fault),
}

impl View for StepResult {
    type V = StepView;

    open spec fn view(&self) -> StepView {
        match self {
            StepResult::Executed { log, halted } => StepView::Executed { log: opt_chars(*log), halted: *halted },
            StepResult::SystemCall { log, request, halted } => StepView::SystemCall {
                log: log@,
                request: *request,
                halted: *halted,
            },
            StepResult::Faulted(f) => StepView::Faulted(*f),
        }
    }
}

impl<'a> Runtime<'a> {
    /// The disassembly of the executed instruction.
    fn render(&self, l: Listing) -> (r: Option<String>)
        requires
            step_ok(self@),
        ensures
            opt_chars(r) == listing_text(l, self@.oi),
    {
        let oi = &self.oi;
        match l {
            Listing::Jnb => Some(Disasm::show_jnb(oi)),
            Listing::Lea => Some(Disasm::show_lea(oi)),
            Listing::MovImm => Some(Disasm::show_mov(oi)),
            Listing::Syscall => Some(Disasm::show_syscall(oi)),
            _ => {
                if !((oi.m == 0 && oi.rm == 6) || oi.m == 3 || oi.rm == 0) {
                    return None;
                }
                match l {
                    Listing::Add => Some(Disasm::show_add(oi)),
                    Listing::Xor => Some(Disasm::show_xor(oi)),
                    Listing::Sub => Some(Disasm::show_sub(oi)),
                    Listing::Cmp => Some(Disasm::show_cmp(oi)),
                    Listing::MovRm => Some(Disasm::show_mov2(oi)),
                    _ => Some(Disasm::show_test(oi)),
                }
            },
        }
    }

    fn end_step(&mut self)
        ensures
            final(self)@ == end_step(old(self)@),
    {
        if self.debug {
            self.disasm.clear();
        }
        self.oi.clear();
    }

    fn is_halted(&self) -> (r: bool)
        ensures
            r == halted(self@),
    {
        self.pc == (self.text.len() % 0x10000) as u16
    }

    /// Runs one instruction.
    pub fn step(&mut self) -> (r: StepResult)
        requires
            old(self).wf(),
        ensures
            (final(self)@, r@) == step_spec(old(self)@),
            !(r is Faulted) ==> final(self).wf(),
    {
        self.prev_pc = self.pc;
        let op = match self.fetch() {
            Ok(b) => b,
            Err(e) => return StepResult::Faulted(e),
        };
        let regstatus = if self.debug { Disasm::get_reg_state(self) } else { String::new() };
        let l = match self.execute(op) {
            Ok(l) => l,
            Err(e) => return StepResult::Faulted(e),
        };
        self.complete(regstatus, l)
    }

    fn complete(&mut self, regstatus: String, l: Listing) -> (r: StepResult)
        requires
            step_ok(old(self)@),
            old(self)@.raw.len() <= 7,
            old(self)@.debug,
        ensures
            (final(self)@, r@) == complete_spec(old(self)@, regstatus@, l),
            !(r is Faulted) ==> final(self).wf(),
    {
        match l {
            Listing::Syscall => {
                let call = Disasm::show_syscall(&self.oi);
                let log = self.disasm.get_log(regstatus.as_str(), call.as_str(), &self.oi.memval);
                let request = self.os.syscall(self.regs[3], self.data.as_slice());
                self.end_step();
                let halted = self.is_halted();
                StepResult::SystemCall { log: log, request: request, halted: halted }
            },
            _ => {
                let log = if self.debug {
                    match self.render(l) {
                        Some(t) => Some(self.disasm.get_log(regstatus.as_str(), t.as_str(), &self.oi.memval)),
                        None => return StepResult::Faulted(Fault::NotImplementedYet),
                    }
                } else {
                    None
                };
                self.end_step();
                let halted = self.is_halted();
                StepResult::Executed { log: log, halted: halted }
            },
        }
    }

    /// Stores the result of a `write` request into the message at BX (the
    /// word at BX + 2).
    pub fn finish_write(&mut self, ret: u16)
        requires
            old(self).wf(),
            old(self)@.regs[3] <= 0xfffc,
        ensures
            final(self).wf(),
            final(self)@ == (RuntimeView {
                data: old(self)@.data.update(old(self)@.regs[3] + 2, (ret % 256) as u8).update(
                    old(self)@.regs[3] + 3,
                    (ret / 256) as u8,
                ),
                ..old(self)@
            }),
    {
        let bx = self.regs[3];
        Minix::store_reply(bx, ret, &mut self.data);
    }
}

/// Where `init_stack` put the frame: the stack pointer, the first argument
/// pointer and the first string; and the write that failed, if one did.
pub struct StackFrame {
    pub nsp: usize,
    pub vp: usize,
    pub strp: usize,
    pub fault: Option<Fault>,
}

impl<'a> Runtime<'a> {
    /// Stores one byte of the initial stack.
    fn stack_store(
        &mut self,
        i: usize,
        b: u8,
        Ghost(mem0): Ghost<Seq<u8>>,
        Ghost(done): Ghost<Seq<StackOp>>,
        Ghost(full): Ghost<Seq<StackOp>>,
    ) -> (ok: bool)
        requires
            apply_stack_ops(mem0, done) == (old(self)@.data, None::<Fault>),
            is_prefix(done.push(StackOp::Store(i as int, b)), full),
        ensures
            final(self)@ == (RuntimeView { data: final(self)@.data, ..old(self)@ }),
            final(self)@.data.len() == old(self)@.data.len(),
            ok ==> apply_stack_ops(mem0, done.push(StackOp::Store(i as int, b))) == (final(self)@.data, None::<Fault>),
            ok ==> i < old(self)@.data.len(),
            !ok ==> apply_stack_ops(mem0, full) == (final(self)@.data, Some(Fault::IndexOutOfBounds)),
    {
        proof {
            lemma_apply_push(mem0, done, StackOp::Store(i as int, b));
        }
        if i < self.data.len() {
            self.data.set(i, b);
            true
        } else {
            proof {
                lemma_apply_fault_extends(mem0, done.push(StackOp::Store(i as int, b)), full);
            }
            false
        }
    }

    /// Adds one byte into the initial stack.
    fn stack_add(
        &mut self,
        i: usize,
        b: u8,
        Ghost(mem0): Ghost<Seq<u8>>,
        Ghost(done): Ghost<Seq<StackOp>>,
        Ghost(full): Ghost<Seq<StackOp>>,
    ) -> (r: Option<Fault>)
        requires
            apply_stack_ops(mem0, done) == (old(self)@.data, None::<Fault>),
            is_prefix(done.push(StackOp::Add(i as int, b)), full),
        ensures
            final(self)@ == (RuntimeView { data: final(self)@.data, ..old(self)@ }),
            final(self)@.data.len() == old(self)@.data.len(),
            r is None ==> apply_stack_ops(mem0, done.push(StackOp::Add(i as int, b))) == (final(self)@.data, None::<Fault>),
            r is None ==> i < old(self)@.data.len(),
            r is Some ==> apply_stack_ops(mem0, full) == (final(self)@.data, r),
    {
        proof {
            lemma_apply_push(mem0, done, StackOp::Add(i as int, b));
        }
        if i >= self.data.len() {
            proof {
                lemma_apply_fault_extends(mem0, done.push(StackOp::Add(i as int, b)), full);
            }
            return Some(Fault::IndexOutOfBounds);
        }
        if self.data[i] as u16 + b as u16 > 255 {
            proof {
                lemma_apply_fault_extends(mem0, done.push(StackOp::Add(i as int, b)), full);
            }
            return Some(Fault::ArithmeticOverflow);
        }
        let x = self.data[i] + b;
        self.data.set(i, x);
        None
    }
}

impl<'a> Runtime<'a> {
    /// Writes one argument: its pointer at `vp`, its bytes and a zero at
    /// `strp`, and a zero word at `vp + 2`.
    fn write_arg(
        &mut self,
        vp: usize,
        strp: usize,
        s: &[u8],
        Ghost(mem0): Ghost<Seq<u8>>,
        Ghost(done): Ghost<Seq<StackOp>>,
        Ghost(full): Ghost<Seq<StackOp>>,
    ) -> (ok: bool)
        requires
            apply_stack_ops(mem0, done) == (old(self)@.data, None::<Fault>),
            is_prefix(done + arg_ops(s@, vp as int, strp as int), full),
            old(self)@.data.len() == MEM_SIZE,
            vp <= 0x10002,
            strp <= 0x20000,
        ensures
            final(self)@ == (RuntimeView { data: final(self)@.data, ..old(self)@ }),
            final(self)@.data.len() == MEM_SIZE,
            ok ==> apply_stack_ops(mem0, done + arg_ops(s@, vp as int, strp as int)) == (final(self)@.data, None::<Fault>),
            ok ==> vp + 4 <= MEM_SIZE && strp + s@.len() + 1 <= MEM_SIZE,
            !ok ==> apply_stack_ops(mem0, full) == (final(self)@.data, Some(Fault::IndexOutOfBounds)),
    {
        let ghost all = done + arg_ops(s@, vp as int, strp as int);
        let ghost n: int = done.len() as int;
        let ghost mut d = done;
        let lo = (strp & 0xff) as u8;
        let hi = ((strp >> 8) & 0xff) as u8;
        assert(lo == (strp % 256) as u8 && hi == ((strp / 256) % 256) as u8) by (bit_vector)
            requires
                lo == (strp & 0xff) as u8,
                hi == ((strp >> 8) & 0xff) as u8,
        ;
        proof {
            assert(d.push(all[n]) =~= all.take(n + 1));
            lemma_prefix_take(all, full, n + 1);
        }
        if !self.stack_store(vp, lo, Ghost(mem0), Ghost(d), Ghost(full)) {
            return false;
        }
        proof {
            d = d.push(all[n]);
            assert(d.push(all[n + 1]) =~= all.take(n + 2));
            lemma_prefix_take(all, full, n + 2);
        }
        if !self.stack_store(vp + 1, hi, Ghost(mem0), Ghost(d), Ghost(full)) {
            return false;
        }
        proof {
            d = d.push(all[n + 1]);
        }
        let mut p = strp;
        let mut j: usize = 0;
        while j < s.len()
            invariant
                all == done + arg_ops(s@, vp as int, strp as int),
                n == done.len(),
                is_prefix(all, full),
                j <= s@.len(),
                p == strp + j,
                p <= 0x20000,
                d =~= all.take(n + 2 + j),
                apply_stack_ops(mem0, d) == (self@.data, None::<Fault>),
                self@ == (RuntimeView { data: self@.data, ..old(self)@ }),
                self@.data.len() == MEM_SIZE,
            decreases s@.len() - j,
        {
            proof {
                assert(all[n + 2 + j] == StackOp::Store(p as int, s@[j as int]));
                assert(d.push(all[n + 2 + j]) =~= all.take(n + 2 + j + 1));
                lemma_prefix_take(all, full, n + 2 + j + 1);
            }
            if !self.stack_store(p, s[j], Ghost(mem0), Ghost(d), Ghost(full)) {
                return false;
            }
            proof {
                d = d.push(all[n + 2 + j]);
            }
            p += 1;
            j += 1;
        }
        let ghost k: int = n + 2 + s@.len();
        proof {
            assert(all[k] == StackOp::Store(p as int, 0u8));
            assert(d.push(all[k]) =~= all.take(k + 1));
            lemma_prefix_take(all, full, k + 1);
        }
        if !self.stack_store(p, 0, Ghost(mem0), Ghost(d), Ghost(full)) {
            return false;
        }
        proof {
            d = d.push(all[k]);
            assert(all[k + 1] == StackOp::Store(vp + 2, 0u8));
            assert(d.push(all[k + 1]) =~= all.take(k + 2));
            lemma_prefix_take(all, full, k + 2);
        }
        if !self.stack_store(vp + 2, 0, Ghost(mem0), Ghost(d), Ghost(full)) {
            return false;
        }
        proof {
            d = d.push(all[k + 1]);
            assert(all[k + 2] == StackOp::Store(vp + 3, 0u8));
            assert(d.push(all[k + 2]) =~= all.take(k + 3));
            lemma_prefix_take(all, full, k + 3);
        }
        if !self.stack_store(vp + 3, 0, Ghost(mem0), Ghost(d), Ghost(full)) {
            return false;
        }
        proof {
            d = d.push(all[k + 2]);
            assert(d =~= all);
        }
        true
    }

    /// Writes the environment: its pointer at `vp`, its bytes added into
    /// memory at `strp`, and a zero after them.
    fn write_env(
        &mut self,
        vp: usize,
        strp: usize,
        s: &[u8],
        Ghost(mem0): Ghost<Seq<u8>>,
        Ghost(done): Ghost<Seq<StackOp>>,
        Ghost(full): Ghost<Seq<StackOp>>,
    ) -> (r: Option<Fault>)
        requires
            s@ == env_bytes(),
            apply_stack_ops(mem0, done) == (old(self)@.data, None::<Fault>),
            is_prefix(done + env_ops(vp as int, strp as int), full),
            old(self)@.data.len() == MEM_SIZE,
            vp <= 0x10002,
            strp <= 0x20000,
        ensures
            final(self)@ == (RuntimeView { data: final(self)@.data, ..old(self)@ }),
            final(self)@.data.len() == MEM_SIZE,
            r is None ==> apply_stack_ops(mem0, done + env_ops(vp as int, strp as int)) == (final(self)@.data, None::<Fault>),
            r is Some ==> apply_stack_ops(mem0, full) == (final(self)@.data, r),
    {
        let ghost all = done + env_ops(vp as int, strp as int);
        let ghost n: int = done.len() as int;
        let ghost mut d = done;
        let lo = (strp & 0xff) as u8;
        let hi = ((strp >> 8) & 0xff) as u8;
        assert(lo == (strp % 256) as u8 && hi == ((strp / 256) % 256) as u8) by (bit_vector)
            requires
                lo == (strp & 0xff) as u8,
                hi == ((strp >> 8) & 0xff) as u8,
        ;
        proof {
            assert(d.push(all[n]) =~= all.take(n + 1));
            lemma_prefix_take(all, full, n + 1);
        }
        if !self.stack_store(vp, lo, Ghost(mem0), Ghost(d), Ghost(full)) {
            return Some(Fault::IndexOutOfBounds);
        }
        proof {
            d = d.push(all[n]);
            assert(d.push(all[n + 1]) =~= all.take(n + 2));
            lemma_prefix_take(all, full, n + 2);
        }
        if !self.stack_store(vp + 1, hi, Ghost(mem0), Ghost(d), Ghost(full)) {
            return Some(Fault::IndexOutOfBounds);
        }
        proof {
            d = d.push(all[n + 1]);
        }
        let mut p = strp;
        let mut j: usize = 0;
        while j < s.len()
            invariant
                s@ == env_bytes(),
                all == done + env_ops(vp as int, strp as int),
                n == done.len(),
                is_prefix(all, full),
                j <= s@.len(),
                p == strp + j,
                p <= 0x20000,
                d =~= all.take(n + 2 + j),
                apply_stack_ops(mem0, d) == (self@.data, None::<Fault>),
                self@ == (RuntimeView { data: self@.data, ..old(self)@ }),
                self@.data.len() == MEM_SIZE,
            decreases s@.len() - j,
        {
            proof {
                assert(all[n + 2 + j] == StackOp::Add(p as int, s@[j as int]));
                assert(d.push(all[n + 2 + j]) =~= all.take(n + 2 + j + 1));
                lemma_prefix_take(all, full, n + 2 + j + 1);
            }
            let f = self.stack_add(p, s[j], Ghost(mem0), Ghost(d), Ghost(full));
            if f.is_some() {
                return f;
            }
            proof {
                d = d.push(all[n + 2 + j]);
            }
            p += 1;
            j += 1;
        }
        let ghost k: int = n + 2 + s@.len();
        proof {
            assert(all[k] == StackOp::Store(p as int, 0u8));
            assert(d.push(all[k]) =~= all.take(k + 1));
            lemma_prefix_take(all, full, k + 1);
        }
        if !self.stack_store(p, 0, Ghost(mem0), Ghost(d), Ghost(full)) {
            return Some(Fault::IndexOutOfBounds);
        }
        proof {
            d = d.push(all[k]);
            assert(d =~= all);
        }
        None
    }
}

impl<'a> Runtime<'a> {
    /// Register setup. Register values live in `regs`, and the 8-bit
    /// registers are read and written as bytes of them, so there is nothing
    /// to set up: the machine is left as it is.
    pub fn init(&mut self)
        ensures
            final(self)@ == old(self)@,
    {
    }

    fn get_reg(&self, reg: u8) -> (r: u16)
        requires
            reg < 12,
            self@.regs.len() == 12,
        ensures
            r == self@.regs[reg as int],
    {
        self.regs[reg as usize]
    }

    fn set_reg(&mut self, reg: u8, val: u16)
        requires
            reg < 12,
        ensures
            final(self)@ == (RuntimeView { regs: old(self)@.regs.update(reg as int, val), ..old(self)@ }),
    {
        self.regs[reg as usize] = val;
    }

    fn set_sp(&mut self, val: u16)
        ensures
            final(self)@ == (RuntimeView { regs: old(self)@.regs.update(SP as int, val), ..old(self)@ }),
    {
        self.set_reg(SP, val);
    }

    fn get_sp(&self) -> (r: u16)
        requires
            self@.regs.len() == 12,
        ensures
            r == self@.regs[SP as int],
    {
        self.get_reg(SP)
    }

    /// Pushes a byte: SP goes down by one (modulo 2^16), then the byte is
    /// stored at SP.
    fn push_byte(&mut self, val: u8)
        requires
            old(self).wf(),
        ensures
            final(self).wf(),
            final(self)@ == (RuntimeView {
                regs: old(self)@.regs.update(SP as int, wrap16(old(self)@.regs[SP as int] - 1)),
                data: old(self)@.data.update(wrap16(old(self)@.regs[SP as int] - 1) as int, val),
                ..old(self)@
            }),
    {
        self.dec_sp();
        let sp = self.get_sp() as usize;
        self.data.set(sp, val);
    }

    /// SP goes down by one, modulo 2^16.
    pub fn dec_sp(&mut self)
        requires
            old(self).wf(),
        ensures
            final(self).wf(),
            final(self)@ == (RuntimeView {
                regs: old(self)@.regs.update(SP as int, wrap16(old(self)@.regs[SP as int] - 1)),
                ..old(self)@
            }),
    {
        let sp = self.get_sp();
        self.set_sp(sp.wrapping_sub(1));
    }

    /// SP goes up by one, modulo 2^16.
    pub fn inc_sp(&mut self)
        requires
            old(self).wf(),
        ensures
            final(self).wf(),
            final(self)@ == (RuntimeView {
                regs: old(self)@.regs.update(SP as int, wrap16(old(self)@.regs[SP as int] + 1)),
                ..old(self)@
            }),
    {
        let sp = self.get_sp();
        self.set_sp(sp.wrapping_add(1));
    }

    /// Copies `data` to the start of the data memory.
    pub fn load_data(&mut self, data: &[u8])
        requires
            old(self).wf(),
            data@.len() <= MEM_SIZE,
        ensures
            final(self).wf(),
            final(self)@ == (RuntimeView {
                data: data@ + old(self)@.data.subrange(data@.len() as int, MEM_SIZE as int),
                ..old(self)@
            }),
    {
        let mut i: usize = 0;
        assert(data@.subrange(0, 0) + old(self)@.data.subrange(0, MEM_SIZE as int) =~= old(self)@.data);
        while i < data.len()
            invariant
                i <= data@.len() <= MEM_SIZE,
                self@ == (RuntimeView {
                    data: data@.subrange(0, i as int) + old(self)@.data.subrange(i as int, MEM_SIZE as int),
                    ..old(self)@
                }),
                old(self).wf(),
            decreases data@.len() - i,
        {
            self.data.set(i, data[i]);
            proof {
                assert(data@.subrange(0, i + 1) + old(self)@.data.subrange(i + 1, MEM_SIZE as int)
                    =~= (data@.subrange(0, i as int) + old(self)@.data.subrange(i as int, MEM_SIZE as int)).update(i as int, data@[i as int]));
            }
            i += 1;
        }
        assert(data@.subrange(0, i as int) =~= data@);
    }

    /// The address of the next instruction.
    pub fn get_pc(&self) -> (r: u16)
        ensures
            r == self@.pc,
    {
        self.pc
    }

    /// The data memory.
    pub fn memory(&self) -> (r: &[u8])
        ensures
            r@ == self@.data,
    {
        self.data.as_slice()
    }

    /// Whether the machine prints a listing line for each instruction.
    pub fn is_debug(&self) -> (r: bool)
        ensures
            r == self@.debug,
    {
        self.debug
    }

    /// The system-call layer.
    pub fn os(&self) -> (r: &Minix)
        ensures
            r@ == self@.os_debug,
    {
        &self.os
    }

    /// Builds the initial stack of the process: the argument count, a pointer
    /// (and a zero word) for each argument, a pointer to the environment
    /// `PATH=/usr:/usr/bin`, then the strings, with SP at the start of the frame.
    pub fn init_stack(&mut self, args: &[String]) -> (r: Result<StackFrame, Fault>)
        requires
            old(self).wf(),
        ensures
            (final(self)@, r) == init_stack_spec(old(self)@, args@),
            final(self).wf(),
    {
        let psize: u16 = 2;
        let env = "PATH=/usr:/usr/bin";
        proof {
            reveal_strlit("PATH=/usr:/usr/bin");
        }
        assert(env@ == env_chars());
        let ghost bytes = arg_bytes(args@);
        let mut frame_size: u16 = 0;
        let mut offset: u16 = 0;
        let mut i: usize = 0;
        while i < args.len()
            invariant
                i <= args@.len(),
                bytes == arg_bytes(args@),
                args_frame(bytes.take(i as int)) == Some((frame_size as int, offset as int)),
                self@ == old(self)@,
                machine_wf(self@),
                psize == 2,
            decreases args@.len() - i,
        {
            let st = args[i].as_str().as_bytes();
            let len = st.len();
            proof {
                assert(bytes[i as int] == vstd::utf8::encode_utf8(args@[i as int]@));
                assert(len == bytes[i as int].len());
                assert(bytes.take(i + 1).drop_last() =~= bytes.take(i as int));
                assert(bytes.take(i + 1).last() == bytes[i as int]);
            }
            let l = (len % 0x10000) as u16;
            if l == 0xffff || frame_size as u32 + l as u32 + 3 > 0xffff || offset > 0xfffd {
                proof {
                    lemma_args_frame_none(bytes, i + 1);
                }
                return Err(Fault::ArithmeticOverflow);
            }
            frame_size += l + 1;
            frame_size += psize;
            offset += psize;
            i += 1;
        }
        assert(bytes.take(args@.len() as int) =~= bytes);
        let envlen = env.as_bytes().len();
        assert(envlen == env_bytes().len());
        if envlen > 0xffff || frame_size as usize + envlen + 9 > 0xffff || offset > 0xfff7 {
            return Err(Fault::ArithmeticOverflow);
        }
        frame_size += envlen as u16 + 1;
        frame_size += psize;
        offset += psize;
        frame_size += psize + psize + 2;
        offset += psize + psize + 2;
        if frame_size % 2 == 1 {
            if frame_size == 0xffff {
                return Err(Fault::ArithmeticOverflow);
            }
            frame_size += 1;
        }
        assert(stack_frame(bytes) == Some((frame_size as int, offset as int)));
        Ok(self.write_frame(args, frame_size, offset, env))
    }

    /// Sets SP to the frame and writes it.
    fn write_frame(&mut self, args: &[String], frame_size: u16, offset: u16, env: &str) -> (r: StackFrame)
        requires
            old(self).wf(),
            stack_frame(arg_bytes(args@)) == Some((frame_size as int, offset as int)),
            frame_size >= 9,
            env@ == env_chars(),
        ensures
            init_stack_spec(old(self)@, args@) == (final(self)@, Ok::<StackFrame, Fault>(r)),
            final(self).wf(),
    {
        self.set_sp((self.data.len() - frame_size as usize) as u16);
        let nsp = self.get_sp() as usize;
        let fault = self.write_stack(args, nsp, offset as usize, env);
        StackFrame { nsp: nsp, vp: nsp + 2, strp: nsp + offset as usize, fault: fault }
    }

    /// Writes the frame at `nsp`.
    #[verifier::rlimit(40)]
    fn write_stack(&mut self, args: &[String], nsp: usize, offset: usize, env: &str) -> (r: Option<Fault>)
        requires
            old(self).wf(),
            nsp <= 0xffff,
            offset <= 0xffff,
            env@ == env_chars(),
        ensures
            final(self)@ == (RuntimeView {
                data: apply_stack_ops(old(self)@.data, stack_ops(arg_bytes(args@), nsp as int, offset as int)).0,
                ..old(self)@
            }),
            r == apply_stack_ops(old(self)@.data, stack_ops(arg_bytes(args@), nsp as int, offset as int)).1,
            final(self).wf(),
    {
        let ghost bytes = arg_bytes(args@);
        let ghost v1 = self@;
        let ghost mem0 = self@.data;
        let ghost n = args@.len() as int;
        let ghost full = stack_ops(bytes, nsp as int, offset as int);
        let ghost header = seq![
            StackOp::Store(nsp as int, (n % 256) as u8),
            StackOp::Store(nsp + 1, ((n / 256) % 256) as u8),
        ];
        let ghost rest_args = args_ops(bytes, nsp + 2, nsp + offset);
        let ghost rest_env = env_ops(nsp + 2 + 4 * n, nsp + offset + strings_len(bytes));
        assert(full == header + rest_args + rest_env);
        let len = args.len();
        let arg_size = (len % 0x10000) as u16;
        let b0 = (arg_size & 0xff) as u8;
        let b1 = (arg_size >> 8 & 0xff) as u8;
        assert(b0 == (arg_size % 256) as u8 && b1 == (arg_size / 256) as u8) by (bit_vector)
            requires
                b0 == (arg_size & 0xff) as u8,
                b1 == (arg_size >> 8 & 0xff) as u8,
        ;
        proof {
            vstd::arithmetic::div_mod::lemma_mod_mod(len as int, 256, 256);
            vstd::arithmetic::div_mod::lemma_mod_breakdown(len as int, 256, 256);
            assert(b0 == (len % 256) as u8);
            assert(b1 == ((len / 256) % 256) as u8);
        }
        let ghost mut done: Seq<StackOp> = Seq::empty();
        proof {
            assert(done.push(header[0]) =~= full.take(1));
            lemma_prefix_take(full, full, 1);
        }
        if !self.stack_store(nsp, b0, Ghost(mem0), Ghost(done), Ghost(full)) {
            return Some(Fault::IndexOutOfBounds);
        }
        proof {
            done = done.push(header[0]);
            assert(done.push(header[1]) =~= full.take(2));
            lemma_prefix_take(full, full, 2);
        }
        if !self.stack_store(nsp + 1, b1, Ghost(mem0), Ghost(done), Ghost(full)) {
            return Some(Fault::IndexOutOfBounds);
        }
        proof {
            done = done.push(header[1]);
            assert(done =~= header);
        }
        match self.write_args(args, nsp, offset, Ghost(mem0), Ghost(header), Ghost(full)) {
            None => Some(Fault::IndexOutOfBounds),
            Some((vp, strp)) => {
                proof {
                    assert(header + rest_args + rest_env =~= full);
                }
                self.write_env(vp, strp, env.as_bytes(), Ghost(mem0), Ghost(header + rest_args), Ghost(full))
            },
        }
    }

    /// Writes the arguments after the argument count.
    #[verifier::rlimit(40)]
    fn write_args(
        &mut self,
        args: &[String],
        nsp: usize,
        offset: usize,
        Ghost(mem0): Ghost<Seq<u8>>,
        Ghost(header): Ghost<Seq<StackOp>>,
        Ghost(full): Ghost<Seq<StackOp>>,
    ) -> (r: Option<(usize, usize)>)
        requires
            apply_stack_ops(mem0, header) == (old(self)@.data, None::<Fault>),
            full == header + args_ops(arg_bytes(args@), nsp + 2, nsp + offset) + env_ops(
                nsp + 2 + 4 * args@.len(),
                nsp + offset + strings_len(arg_bytes(args@)),
            ),
            nsp <= 0xffff,
            offset <= 0xffff,
            old(self)@.data.len() == MEM_SIZE,
        ensures
            final(self)@ == (RuntimeView { data: final(self)@.data, ..old(self)@ }),
            final(self)@.data.len() == MEM_SIZE,
            r matches Some((vp, strp)) ==> {
                &&& vp == nsp + 2 + 4 * args@.len()
                &&& strp == nsp + offset + strings_len(arg_bytes(args@))
                &&& vp <= 0x10002
                &&& strp <= 0x20000
                &&& apply_stack_ops(mem0, header + args_ops(arg_bytes(args@), nsp + 2, nsp + offset)) == (final(self)@.data, None::<Fault>)
            },
            r is None ==> apply_stack_ops(mem0, full) == (final(self)@.data, Some(Fault::IndexOutOfBounds)),
    {
        let ghost bytes = arg_bytes(args@);
        let ghost rest_args = args_ops(bytes, nsp + 2, nsp + offset);
        let ghost rest_env = env_ops(nsp + 2 + 4 * args@.len(), nsp + offset + strings_len(bytes));
        let ghost mut done = header;
        proof {
            assert(bytes.take(0) =~= Seq::<Seq<u8>>::empty());
            assert(header + args_ops(bytes.take(0), nsp + 2, nsp + offset) =~= header);
        }
        let mut vp = nsp + 2;
        let mut strp = nsp + offset;
        let mut i: usize = 0;
        while i < args.len()
            invariant
                i <= args@.len(),
                bytes == arg_bytes(args@),
                nsp <= 0xffff,
                offset <= 0xffff,
                vp == nsp + 2 + 4 * i,
                strp == nsp + offset + strings_len(bytes.take(i as int)),
                vp <= 0x10002,
                strp <= 0x20000,
                done == header + args_ops(bytes.take(i as int), nsp + 2, nsp + offset),
                full == header + rest_args + rest_env,
                rest_args == args_ops(bytes, nsp + 2, nsp + offset),
                apply_stack_ops(mem0, done) == (self@.data, None::<Fault>),
                self@ == (RuntimeView { data: self@.data, ..old(self)@ }),
                self@.data.len() == MEM_SIZE,
            decreases args@.len() - i,
        {
            let ghost next = header + args_ops(bytes.take(i + 1), nsp + 2, nsp + offset);
            proof {
                let t = bytes.take(i + 1);
                assert(t.drop_last() =~= bytes.take(i as int));
                assert(t.last() == bytes[i as int]);
                assert(next =~= done + arg_ops(bytes[i as int], vp as int, strp as int));
                lemma_args_ops_prefix(bytes, i + 1, nsp + 2, nsp + offset);
                lemma_prefix_concat(header, args_ops(t, nsp + 2, nsp + offset), rest_args, rest_env);
            }
            let ary = args[i].as_str().as_bytes();
            if !self.write_arg(vp, strp, ary, Ghost(mem0), Ghost(done), Ghost(full)) {
                return None;
            }
            proof {
                done = next;
                let t = bytes.take(i + 1);
                assert(strings_len(t) == strings_len(bytes.take(i as int)) + bytes[i as int].len() + 1);
            }
            strp = strp + ary.len() + 1;
            vp += 4;
            i += 1;
        }
        proof {
            assert(bytes.take(args@.len() as int) =~= bytes);
        }
        Some((vp, strp))
    }
}

/// Setting the flags and reading them back: each of C, Z, S, O reads as it
/// was set, and the other bits of the status register are kept.
pub proof fn lemma_flags_read_back(sreg: u16, c: bool, z: bool, s: bool, o: bool)
    ensures
        flag_c(with_flags(sreg, c, z, s, o)) == c,
        flag_z(with_flags(sreg, c, z, s, o)) == z,
        flag_s(with_flags(sreg, c, z, s, o)) == s,
        flag_o(with_flags(sreg, c, z, s, o)) == o,
        with_flags(sreg, c, z, s, o) & !(C_BIT | Z_BIT | S_BIT | O_BIT) == sreg & !(C_BIT | Z_BIT | S_BIT | O_BIT),
{
    let f = with_flags(sreg, c, z, s, o);
    assert(f & C_BIT != 0 <==> c) by (bit_vector)
        requires f == with_flags(sreg, c, z, s, o);
    assert(f & Z_BIT != 0 <==> z) by (bit_vector)
        requires f == with_flags(sreg, c, z, s, o);
    assert(f & S_BIT != 0 <==> s) by (bit_vector)
        requires f == with_flags(sreg, c, z, s, o);
    assert(f & O_BIT != 0 <==> o) by (bit_vector)
        requires f == with_flags(sreg, c, z, s, o);
    assert(f & !(C_BIT | Z_BIT | S_BIT | O_BIT) == sreg & !(C_BIT | Z_BIT | S_BIT | O_BIT)) by (bit_vector)
        requires f == with_flags(sreg, c, z, s, o);
}

/// `inc_sp` undoes `dec_sp`, and `dec_sp` undoes `inc_sp`.
pub proof fn lemma_sp_inverse(sp: u16)
    ensures
        wrap16(wrap16(sp - 1) + 1) == sp,
        wrap16(wrap16(sp + 1) - 1) == sp,
{
}

/// A 16-bit register reads back what was written to it.
pub proof fn lemma_register_read_back(v: RuntimeView, reg: u8, val: u16)
    requires
        v.oi.w == 1,
        reg <= 7,
        v.regs.len() == 12,
    ensures
        write_register_spec(v, reg, 1, val).1 is Ok,
        read_register_spec(write_register_spec(v, reg, 1, val).0, reg) == val,
{
}

/// The 8-bit registers are the bytes of AX, CX, DX and BX: AL..BL the low
/// bytes, AH..BH the high bytes.
pub proof fn lemma_byte_registers(v: RuntimeView, reg: u8)
    requires
        v.oi.w == 0,
        reg < 4,
        v.regs.len() == 12,
    ensures
        read_register_spec(v, reg) as int + 256 * read_register_spec(v, (reg + 4) as u8) as int == v.regs[reg as int],
{
}

/// After `finish_write(ret)`, the word of the message at BX + 2 reads as `ret`.
pub proof fn lemma_write_result_in_message(v: RuntimeView, ret: u16)
    requires
        machine_wf(v),
        v.regs[3] <= 0xfffc,
    ensures
        crate::minix::message_word(
            v.data.update(v.regs[3] + 2, (ret % 256) as u8).update(v.regs[3] + 3, (ret / 256) as u8),
            (v.regs[3] + 2) as u16,
        ) == Ok::<u16, Fault>(ret),
{
    crate::minix::lemma_write2_then_fetch2(v.data, v.regs[3] + 2, ret);
}

} // verus!
