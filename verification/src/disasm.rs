use vstd::prelude::*;
use crate::runtime::{OpInfo, OpView, Runtime};
use crate::text::{hex, hex_digits, repeat_char, push_hex, push_spaces, lemma_hex_width};

verus! {

/// Name of register `reg` (0..7) in the 16-bit (`w == 1`) or 8-bit (`w == 0`)
/// register file; empty for any other pair.
pub open spec fn reg_name(reg: u8, w: u8) -> Seq<char> {
    if w == 1 && reg < 8 {
        seq![
            seq!['a', 'x'], seq!['c', 'x'], seq!['d', 'x'], seq!['b', 'x'],
            seq!['s', 'p'], seq!['b', 'p'], seq!['s', 'i'], seq!['d', 'i'],
        ][reg as int]
    } else if w == 0 && reg < 8 {
        seq![
            seq!['a', 'l'], seq!['c', 'l'], seq!['d', 'l'], seq!['b', 'l'],
            seq!['a', 'h'], seq!['c', 'h'], seq!['d', 'h'], seq!['b', 'h'],
        ][reg as int]
    } else {
        Seq::empty()
    }
}

/// The mod/rm combinations that `get_rm` can render: a direct address, a
/// register operand, or `rm == 0` (rendered as the empty text).
pub open spec fn rm_renderable(m: u8, rm: u8) -> bool {
    (m == 0 && rm == 6) || m == 3 || rm == 0
}

/// The text of the r/m operand: `[addr]` for a direct address, the name of
/// register `reg` for `m == 3`, and the empty text otherwise.
pub open spec fn rm_text(m: u8, rm: u8, w: u8, reg: u8, eaddr: u16) -> Seq<char> {
    if m == 0 && rm == 6 {
        seq!['['] + hex(eaddr as nat, 4) + seq![']']
    } else if m == 3 {
        reg_name(reg, w)
    } else {
        Seq::empty()
    }
}

/// An immediate value: its low byte in plain hexadecimal for `w == 0`, the
/// whole word in four digits for `w == 1`.
pub open spec fn val_text(w: u8, data: u16) -> Seq<char> {
    if w == 0 {
        hex_digits((data % 256) as nat)
    } else {
        hex(data as nat, 4)
    }
}

/// `mnemonic a, b`.
pub open spec fn operands(mnemonic: Seq<char>, a: Seq<char>, b: Seq<char>) -> Seq<char> {
    mnemonic + seq![' '] + a + seq![',', ' '] + b
}

/// A register / r-m instruction: the register first when `d == 1`.
pub open spec fn reg_rm_text(mnemonic: Seq<char>, oi: OpView) -> Seq<char> {
    let reg = reg_name(oi.reg, oi.w);
    let rm = rm_text(oi.m, oi.rm, oi.w, oi.reg, oi.eaddr);
    if oi.d == 1 {
        operands(mnemonic, reg, rm)
    } else {
        operands(mnemonic, rm, reg)
    }
}

/// An r-m / immediate instruction: four immediate digits for a 16-bit
/// immediate (`s == 0 && w == 1`), at least two otherwise.
pub open spec fn rm_imm_text(mnemonic: Seq<char>, oi: OpView) -> Seq<char> {
    let rm = rm_text(oi.m, oi.rm, oi.w, oi.reg, oi.eaddr);
    let width: nat = if oi.s == 0 && oi.w == 1 { 4 } else { 2 };
    operands(mnemonic, rm, hex(oi.imd16 as nat, width))
}

pub open spec fn mov_text(oi: OpView) -> Seq<char> {
    operands(seq!['m', 'o', 'v'], reg_name(oi.reg, oi.w), val_text(oi.w, oi.imd16))
}

pub open spec fn sub_text(oi: OpView) -> Seq<char> {
    rm_imm_text(seq!['s', 'u', 'b'], oi)
}

pub open spec fn cmp_text(oi: OpView) -> Seq<char> {
    rm_imm_text(seq!['c', 'm', 'p'], oi)
}

pub open spec fn xor_text(oi: OpView) -> Seq<char> {
    reg_rm_text(seq!['x', 'o', 'r'], oi)
}

pub open spec fn add_text(oi: OpView) -> Seq<char> {
    reg_rm_text(seq!['a', 'd', 'd'], oi)
}

pub open spec fn mov_rm_text(oi: OpView) -> Seq<char> {
    reg_rm_text(seq!['m', 'o', 'v'], oi)
}

pub open spec fn jnb_text(oi: OpView) -> Seq<char> {
    seq!['j', 'n', 'b', ' '] + hex(oi.jpc as nat, 4)
}

pub open spec fn lea_text(oi: OpView) -> Seq<char> {
    operands(seq!['l', 'e', 'a'], reg_name(oi.reg, 1), seq!['['] + hex(oi.eaddr as nat, 4) + seq![']'])
}

pub open spec fn test_text(oi: OpView) -> Seq<char> {
    operands(
        seq!['t', 'e', 's', 't'],
        rm_text(oi.m, oi.rm, oi.w, oi.reg, oi.eaddr),
        val_text(oi.w, oi.imd16),
    )
}

pub open spec fn syscall_text() -> Seq<char> {
    seq!['i', 'n', 't', ' ', '2', '0']
}

/// The bytes in two-digit hexadecimal, one after the other.
pub open spec fn bytes_hex(bytes: Seq<u8>) -> Seq<char>
    decreases bytes.len(),
{
    if bytes.len() == 0 {
        Seq::empty()
    } else {
        bytes_hex(bytes.drop_last()) + hex(bytes.last() as nat, 2)
    }
}

/// The raw-bytes column of the listing: the bytes in hexadecimal, padded with
/// spaces to 14 characters.
pub open spec fn raw_text(bytes: Seq<u8>) -> Seq<char> {
    bytes_hex(bytes) + repeat_char(' ', (14 - bytes_hex(bytes).len()) as nat)
}

/// One listing line: register state, `:`, raw bytes, disassembly, memory note.
pub open spec fn log_text(reginfo: Seq<char>, bytes: Seq<u8>, listing: Seq<char>, meminfo: Option<Seq<char>>) -> Seq<char> {
    reginfo + seq![':'] + raw_text(bytes) + listing + match meminfo {
        Some(m) => m,
        None => Seq::empty(),
    }
}

/// `c` when `b` holds, `-` otherwise.
pub open spec fn flag_char(b: bool, c: char) -> char {
    if b { c } else { '-' }
}

/// The register column of the listing: AX BX CX DX SP BP SI DI in four hex
/// digits, the flags O S Z C, and the address of the instruction.
pub open spec fn reg_state_text(regs: Seq<u16>, sreg: u16, prev_pc: u16) -> Seq<char> {
    hex(regs[0] as nat, 4) + seq![' '] + hex(regs[3] as nat, 4) + seq![' ']
        + hex(regs[1] as nat, 4) + seq![' '] + hex(regs[2] as nat, 4) + seq![' ']
        + hex(regs[4] as nat, 4) + seq![' '] + hex(regs[5] as nat, 4) + seq![' ']
        + hex(regs[6] as nat, 4) + seq![' '] + hex(regs[7] as nat, 4) + seq![' ']
        + seq![
            flag_char(crate::runtime::flag_o(sreg), 'O'),
            flag_char(crate::runtime::flag_s(sreg), 'S'),
            flag_char(crate::runtime::flag_z(sreg), 'Z'),
            flag_char(crate::runtime::flag_c(sreg), 'C'),
        ] + seq![' '] + hex(prev_pc as nat, 4)
}

/// The bytes of the instruction being listed.
pub struct Disasm {
    buffer: Vec<u8>,
}

impl View for Disasm {
    type V = Seq<u8>;

    closed spec fn view(&self) -> Seq<u8> {
        self.buffer@
    }
}

impl Disasm {
    pub fn new() -> (r: Self)
        ensures
            r@ == Seq::<u8>::empty(),
    {
        Disasm { buffer: Vec::<u8>::new() }
    }

    pub fn add(&mut self, vref: &u8)
        ensures
            final(self)@ == old(self)@.push(*vref),
    {
        self.buffer.push(*vref);
    }

    pub fn clear(&mut self)
        ensures
            final(self)@ == Seq::<u8>::empty(),
    {
        self.buffer.clear()
    }

    /// The raw-bytes column: each byte in two hex digits, padded to 14 characters.
    pub fn get_raw(&self) -> (r: String)
        requires
            self@.len() <= 7,
        ensures
            r@ == raw_text(self@),
            r@.len() == 14,
    {
        let mut result = String::new();
        let mut i: usize = 0;
        while i < self.buffer.len()
            invariant
                i <= self.buffer@.len() <= 7,
                result@ == bytes_hex(self.buffer@.subrange(0, i as int)),
                result@.len() == 2 * i,
            decreases self.buffer@.len() - i,
        {
            let ghost before = result@;
            push_hex(&mut result, self.buffer[i] as u16, 2);
            proof {
                let s = self.buffer@.subrange(0, i + 1);
                assert(s.drop_last() == self.buffer@.subrange(0, i as int));
                assert(s.last() == self.buffer@[i as int]);
                lemma_hex_width(self.buffer@[i as int] as nat, 2);
            }
            i = i + 1;
        }
        assert(self.buffer@.subrange(0, i as int) == self.buffer@);
        let len = result.as_str().unicode_len();
        push_spaces(&mut result, 14 - len);
        result
    }

    /// The names of the eight 16-bit and the eight 8-bit registers.
    fn get_reg<'a>(reg: &'a u8, w: &'a u8) -> (r: &'a str)
        ensures
            r@ == reg_name(*reg, *w),
    {
        match (*w, *reg) {
            (1, 0x00) => { proof { reveal_strlit("ax"); } "ax" },
            (1, 0x01) => { proof { reveal_strlit("cx"); } "cx" },
            (1, 0x02) => { proof { reveal_strlit("dx"); } "dx" },
            (1, 0x03) => { proof { reveal_strlit("bx"); } "bx" },
            (1, 0x04) => { proof { reveal_strlit("sp"); } "sp" },
            (1, 0x05) => { proof { reveal_strlit("bp"); } "bp" },
            (1, 0x06) => { proof { reveal_strlit("si"); } "si" },
            (1, 0x07) => { proof { reveal_strlit("di"); } "di" },
            (0, 0x00) => { proof { reveal_strlit("al"); } "al" },
            (0, 0x01) => { proof { reveal_strlit("cl"); } "cl" },
            (0, 0x02) => { proof { reveal_strlit("dl"); } "dl" },
            (0, 0x03) => { proof { reveal_strlit("bl"); } "bl" },
            (0, 0x04) => { proof { reveal_strlit("ah"); } "ah" },
            (0, 0x05) => { proof { reveal_strlit("ch"); } "ch" },
            (0, 0x06) => { proof { reveal_strlit("dh"); } "dh" },
            (0, 0x07) => { proof { reveal_strlit("bh"); } "bh" },
            _ => { proof { reveal_strlit(""); } "" },
        }
    }

    /// The r/m operand; only the forms of `rm_renderable` are rendered.
    fn get_rm(m: &u8, rm: &u8, w: &u8, reg: &u8, eaddr: &u16) -> (r: String)
        requires
            rm_renderable(*m, *rm),
        ensures
            r@ == rm_text(*m, *rm, *w, *reg, *eaddr),
    {
        if *m == 0 && *rm == 6 {
            let mut s = String::new();
            s.push('[');
            push_hex(&mut s, *eaddr, 4);
            s.push(']');
            return s;
        }
        if *m == 3 {
            return String::from_str(Disasm::get_reg(reg, w));
        }
        String::new()
    }

    fn format_val16(val: &u16) -> (r: String)
        ensures
            r@ == hex(*val as nat, 4),
    {
        let mut s = String::new();
        push_hex(&mut s, *val, 4);
        s
    }

    fn format_val8(val: &u8) -> (r: String)
        ensures
            r@ == hex_digits(*val as nat),
    {
        let mut s = String::new();
        push_hex(&mut s, *val as u16, 0);
        proof {
            let d = hex_digits(*val as nat);
            assert(hex(*val as nat, 0) == d);
        }
        s
    }

    fn to_string(w: &u8, data: &u16) -> (r: String)
        requires
            *w <= 1,
        ensures
            r@ == val_text(*w, *data),
    {
        match *w {
            0 => {
                let v = *data;
                assert(v & 0xff == v % 256) by (bit_vector);
                Disasm::format_val8(&((*data & 0xff) as u8))
            },
            _ => Disasm::format_val16(data),
        }
    }
}

/// The characters of an optional string.
pub open spec fn opt_chars(o: Option<String>) -> Option<Seq<char>> {
    match o {
        Some(s) => Some(s@),
        None => None,
    }
}

/// Appends a word in four hex digits and a space.
fn push_word(s: &mut String, v: u16)
    ensures
        final(s)@ == old(s)@ + hex(v as nat, 4) + seq![' '],
{
    push_hex(s, v, 4);
    s.push(' ');
    assert(s@ =~= old(s)@ + hex(v as nat, 4) + seq![' ']);
}

/// `mnemonic a, b`.
fn join_operands(mnemonic: &str, a: &str, b: &str) -> (r: String)
    ensures
        r@ == operands(mnemonic@, a@, b@),
{
    let mut r = String::from_str(mnemonic);
    r.push(' ');
    r.append(a);
    r.push(',');
    r.push(' ');
    r.append(b);
    r
}

impl Disasm {
    /// A register / r-m instruction, the register first when `d == 1`.
    fn show_reg_rm(mnemonic: &str, opinfo: &OpInfo) -> (r: String)
        requires
            rm_renderable(opinfo.m, opinfo.rm),
        ensures
            r@ == reg_rm_text(mnemonic@, opinfo@),
    {
        let reg_str = Disasm::get_reg(&opinfo.reg, &opinfo.w);
        let rm_str = Disasm::get_rm(&opinfo.m, &opinfo.rm, &opinfo.w, &opinfo.reg, &opinfo.eaddr);
        if opinfo.d == 1 {
            join_operands(mnemonic, reg_str, rm_str.as_str())
        } else {
            join_operands(mnemonic, rm_str.as_str(), reg_str)
        }
    }

    /// An r-m / immediate instruction.
    fn show_rm_imm(mnemonic: &str, opinfo: &OpInfo) -> (r: String)
        requires
            rm_renderable(opinfo.m, opinfo.rm),
        ensures
            r@ == rm_imm_text(mnemonic@, opinfo@),
    {
        let rm = Disasm::get_rm(&opinfo.m, &opinfo.rm, &opinfo.w, &opinfo.reg, &opinfo.eaddr);
        let mut imd = String::new();
        match (opinfo.s, opinfo.w) {
            (0, 1) => push_hex(&mut imd, opinfo.imd16, 4),
            _ => push_hex(&mut imd, opinfo.imd16, 2),
        }
        join_operands(mnemonic, rm.as_str(), imd.as_str())
    }

    /// `mov reg, data` for a move of an immediate into a register.
    pub fn show_mov(opinfo: &OpInfo) -> (r: String)
        requires
            opinfo.w <= 1,
        ensures
            r@ == mov_text(opinfo@),
    {
        let data_str = Disasm::to_string(&opinfo.w, &opinfo.imd16);
        let reg_str = Disasm::get_reg(&opinfo.reg, &opinfo.w);
        proof { reveal_strlit("mov"); }
        join_operands("mov", reg_str, data_str.as_str())
    }

    /// `sub r/m, imm`.
    pub fn show_sub(opinfo: &OpInfo) -> (r: String)
        requires
            rm_renderable(opinfo.m, opinfo.rm),
        ensures
            r@ == sub_text(opinfo@),
    {
        proof { reveal_strlit("sub"); }
        Disasm::show_rm_imm("sub", opinfo)
    }

    /// `cmp r/m, imm`.
    pub fn show_cmp(opinfo: &OpInfo) -> (r: String)
        requires
            rm_renderable(opinfo.m, opinfo.rm),
        ensures
            r@ == cmp_text(opinfo@),
    {
        proof { reveal_strlit("cmp"); }
        Disasm::show_rm_imm("cmp", opinfo)
    }

    /// `xor` between r/m and a register.
    pub fn show_xor(opinfo: &OpInfo) -> (r: String)
        requires
            rm_renderable(opinfo.m, opinfo.rm),
        ensures
            r@ == xor_text(opinfo@),
    {
        proof { reveal_strlit("xor"); }
        Disasm::show_reg_rm("xor", opinfo)
    }

    /// `add` between r/m and a register.
    pub fn show_add(opinfo: &OpInfo) -> (r: String)
        requires
            rm_renderable(opinfo.m, opinfo.rm),
        ensures
            r@ == add_text(opinfo@),
    {
        proof { reveal_strlit("add"); }
        Disasm::show_reg_rm("add", opinfo)
    }

    /// `mov` between r/m and a register.
    pub fn show_mov2(opinfo: &OpInfo) -> (r: String)
        requires
            rm_renderable(opinfo.m, opinfo.rm),
        ensures
            r@ == mov_rm_text(opinfo@),
    {
        proof { reveal_strlit("mov"); }
        Disasm::show_reg_rm("mov", opinfo)
    }

    /// `jnb target`.
    pub fn show_jnb(opinfo: &OpInfo) -> (r: String)
        ensures
            r@ == jnb_text(opinfo@),
    {
        let mut r = String::from_str("jnb ");
        proof { reveal_strlit("jnb "); }
        push_hex(&mut r, opinfo.jpc, 4);
        r
    }

    /// `lea reg, [address]`.
    pub fn show_lea(opinfo: &OpInfo) -> (r: String)
        ensures
            r@ == lea_text(opinfo@),
    {
        let mut addr = String::new();
        addr.push('[');
        push_hex(&mut addr, opinfo.eaddr, 4);
        addr.push(']');
        proof { reveal_strlit("lea"); }
        join_operands("lea", Disasm::get_reg(&opinfo.reg, &1u8), addr.as_str())
    }

    /// `test r/m, imm`.
    pub fn show_test(opinfo: &OpInfo) -> (r: String)
        requires
            rm_renderable(opinfo.m, opinfo.rm),
            opinfo.w <= 1,
        ensures
            r@ == test_text(opinfo@),
    {
        let rm = Disasm::get_rm(&opinfo.m, &opinfo.rm, &opinfo.w, &opinfo.reg, &opinfo.eaddr);
        let data_str = Disasm::to_string(&opinfo.w, &opinfo.imd16);
        proof { reveal_strlit("test"); }
        join_operands("test", rm.as_str(), data_str.as_str())
    }

    /// `int 20`.
    pub fn show_syscall(_opinfo: &OpInfo) -> (r: String)
        ensures
            r@ == syscall_text(),
    {
        proof { reveal_strlit("int 20"); }
        String::from_str("int 20")
    }

    /// The listing line: register state, `:`, the raw bytes padded to 14
    /// characters, the disassembly and the memory note.
    pub fn get_log(&self, reginfo: &str, listing: &str, meminfo: &Option<String>) -> (r: String)
        requires
            self@.len() <= 7,
        ensures
            r@ == log_text(reginfo@, self@, listing@, opt_chars(*meminfo)),
    {
        let rawinfo = self.get_raw();
        let mut log_str = String::from_str(reginfo);
        log_str.push(':');
        log_str.append(rawinfo.as_str());
        let n = rawinfo.as_str().unicode_len();
        push_spaces(&mut log_str, 14 - n);
        assert(repeat_char(' ', 0) == Seq::<char>::empty());
        log_str.append(listing);
        if let Some(v) = meminfo {
            log_str.append(v.as_str());
        }
        proof {
            if meminfo.is_none() {
                assert(log_str@ == log_str@ + Seq::<char>::empty());
            }
        }
        log_str
    }

    /// The register column: AX BX CX DX SP BP SI DI, the flags, and the
    /// address of the current instruction.
    pub fn get_reg_state(runtime: &Runtime) -> (r: String)
        requires
            runtime@.regs.len() == 12,
        ensures
            r@ == reg_state_text(runtime@.regs, runtime@.sreg, runtime@.prev_pc),
    {
        let regs = runtime.get_regs();
        let ghost rv = runtime@.regs;
        let mut s = String::new();
        push_word(&mut s, regs[0]);
        assert(s@ =~= hex(rv[0] as nat, 4) + seq![' ']);
        push_word(&mut s, regs[3]);
        push_word(&mut s, regs[1]);
        push_word(&mut s, regs[2]);
        push_word(&mut s, regs[4]);
        push_word(&mut s, regs[5]);
        push_word(&mut s, regs[6]);
        push_word(&mut s, regs[7]);
        let ghost words = s@;
        s.push(if runtime.o() { 'O' } else { '-' });
        s.push(if runtime.s() { 'S' } else { '-' });
        s.push(if runtime.z() { 'Z' } else { '-' });
        s.push(if runtime.c() { 'C' } else { '-' });
        s.push(' ');
        let ghost flags = s@;
        push_hex(&mut s, runtime.get_prev_pc(), 4);
        proof {
            let sreg = runtime@.sreg;
            assert(flags =~= words + seq![
                flag_char(crate::runtime::flag_o(sreg), 'O'),
                flag_char(crate::runtime::flag_s(sreg), 'S'),
                flag_char(crate::runtime::flag_z(sreg), 'Z'),
                flag_char(crate::runtime::flag_c(sreg), 'C'),
            ] + seq![' ']);
        }
        s
    }
}

} // verus!
