use ruvm::binary::Binary;
use ruvm::disasm::Disasm;
use ruvm::machine::Fault;
use ruvm::minix::{Minix, SyscallRequest};
use ruvm::runtime::{OpInfo, Runtime};

fn image(text: &[u8], data: &[u8]) -> Vec<u8> {
    let mut v = vec![0u8; 32];
    v[8] = text.len() as u8;
    v[12] = data.len() as u8;
    v.extend_from_slice(text);
    v.extend_from_slice(data);
    v
}

#[test]
fn fetch4_combines_bytes_with_or() {
    assert_eq!(Binary::fetch4(0, &[1, 2, 4, 8]), 15);
    assert_eq!(Binary::fetch4(1, &[0, 0x10, 0x01, 0x00, 0x20]), 0x31);
    assert_eq!(Binary::fetch4(0, &[0xff, 0, 0, 0]), 0xff);
}

#[test]
fn text_and_data_segments() {
    let b = Binary::new("a.out", image(&[0xbb, 0x34, 0x12], &[0xde, 0xad]));
    assert!(b.has_text());
    assert!(b.has_data());
    assert_eq!(b.get_text(), &[0xbb, 0x34, 0x12]);
    assert_eq!(b.get_data(), &[0xde, 0xad]);
    assert_eq!(b.image().len(), 37);
    // the data segment follows the text segment
    let mut both = b.get_text().to_vec();
    both.extend_from_slice(b.get_data());
    assert_eq!(&b.image()[32..37], both.as_slice());
}

#[test]
fn segments_that_do_not_fit() {
    assert!(!Binary::new("x", vec![0u8; 10]).has_text());
    let mut v = image(&[1, 2], &[3]);
    v.truncate(34);
    let b = Binary::new("x", v);
    assert!(b.has_text());
    assert!(!b.has_data());
    assert_eq!(b.get_text(), &[1, 2]);
}

#[test]
fn raw_bytes_column() {
    let mut d = Disasm::new();
    assert_eq!(d.get_raw(), " ".repeat(14));
    d.add(&0xbb);
    d.add(&0x04);
    assert_eq!(d.get_raw(), "bb04          ");
    d.clear();
    assert_eq!(d.get_raw().len(), 14);
    for b in [1u8, 2, 3, 4, 5, 6, 7] {
        d.add(&b);
    }
    assert_eq!(d.get_raw(), "01020304050607");
}

#[test]
fn listing_line() {
    let mut d = Disasm::new();
    d.add(&0xcd);
    d.add(&0x20);
    assert_eq!(d.get_log("R", "int 20", &None), "R:cd20          int 20");
    assert_eq!(d.get_log("", "x", &Some(" ;[0010]0001".to_string())), ":cd20          x ;[0010]0001");
}

fn op(d: u8, s: u8, w: u8, m: u8, reg: u8, rm: u8, imd16: u16, eaddr: u16) -> OpInfo {
    let mut o = OpInfo::new();
    o.d = d;
    o.s = s;
    o.w = w;
    o.m = m;
    o.reg = reg;
    o.rm = rm;
    o.imd16 = imd16;
    o.eaddr = eaddr;
    o
}

#[test]
fn show_mov_immediates() {
    assert_eq!(Disasm::show_mov(&op(0, 0, 1, 0, 3, 0, 0x1234, 0)), "mov bx, 1234");
    assert_eq!(Disasm::show_mov(&op(0, 0, 1, 0, 0, 0, 0x0a, 0)), "mov ax, 000a");
    assert_eq!(Disasm::show_mov(&op(0, 0, 0, 0, 4, 0, 0x1a0b, 0)), "mov ah, b");
    assert_eq!(Disasm::show_mov(&op(0, 0, 0, 0, 7, 0, 0xff, 0)), "mov bh, ff");
}

#[test]
fn show_sub_and_cmp() {
    assert_eq!(Disasm::show_sub(&op(0, 0, 1, 0, 5, 6, 0x10, 0x0200)), "sub [0200], 0010");
    assert_eq!(Disasm::show_sub(&op(0, 1, 1, 3, 5, 4, 0x10, 4)), "sub bp, 10");
    assert_eq!(Disasm::show_sub(&op(0, 0, 0, 0, 5, 0, 0x123, 0)), "sub , 123");
    assert_eq!(Disasm::show_cmp(&op(0, 0, 1, 0, 7, 6, 0x8000, 0xfffe)), "cmp [fffe], 8000");
}

#[test]
fn show_register_forms() {
    assert_eq!(Disasm::show_xor(&op(0, 0, 1, 3, 5, 5, 0, 5)), "xor bp, bp");
    assert_eq!(Disasm::show_xor(&op(1, 0, 1, 0, 2, 6, 0, 0x44)), "xor dx, [0044]");
    assert_eq!(Disasm::show_xor(&op(0, 0, 0, 0, 1, 6, 0, 0x44)), "xor [0044], cl");
    assert_eq!(Disasm::show_add(&op(0, 0, 1, 3, 3, 0, 0, 0)), "add bx, bx");
    assert_eq!(Disasm::show_mov2(&op(1, 0, 1, 0, 0, 6, 0, 0x10)), "mov ax, [0010]");
    assert_eq!(Disasm::show_test(&op(0, 0, 0, 3, 0, 7, 0x0f, 7)), "test al, f");
    assert_eq!(Disasm::show_syscall(&OpInfo::new()), "int 20");
    let mut j = OpInfo::new();
    j.jpc = 0x1b;
    assert_eq!(Disasm::show_jnb(&j), "jnb 001b");
    assert_eq!(Disasm::show_lea(&op(0, 0, 1, 1, 2, 7, 0, 0x102)), "lea dx, [0102]");
}

#[test]
fn register_state_column() {
    let text = [0xbbu8, 0xcd, 0xab];
    let mut rt = Runtime::new(&text);
    assert_eq!(Disasm::get_reg_state(&rt), "0000 0000 0000 0000 0000 0000 0000 0000 ---- 0000");
    rt.step();
    rt.dec_sp();
    assert_eq!(Disasm::get_reg_state(&rt), "0000 abcd 0000 0000 ffff 0000 0000 0000 ---- 0000");
}

#[test]
fn op_info_clear_is_new() {
    let mut o = op(1, 1, 1, 3, 7, 7, 9, 9);
    o.memval = Some("x".to_string());
    o.disp = -3;
    o.jpc = 4;
    o.clear();
    let n = OpInfo::new();
    assert_eq!((o.d, o.s, o.w, o.m, o.reg, o.rm), (n.d, n.s, n.w, n.m, n.reg, n.rm));
    assert_eq!((o.imd16, o.eaddr, o.disp, o.jpc), (0, 0, 0, 0));
    assert!(o.memval.is_none());
}

#[test]
fn minix_messages() {
    let os = Minix::new(true);
    assert!(os.is_debug());
    assert!(!Minix::new(false).is_debug());
    let mut mem = vec![0u8; 0x10000];
    mem[0x202] = 4;
    mem[0x204] = 2;
    mem[0x206] = 0x34;
    mem[0x207] = 0x12;
    mem[0x20a] = 0xcd;
    mem[0x20b] = 0xab;
    assert_eq!(os.syscall(0x200, &mem), Ok(SyscallRequest::Write { fd: 2, nbytes: 0x1234, buffer: 0xabcd }));
    assert_eq!(os.write(0x204, &mem), Ok(SyscallRequest::Write { fd: 2, nbytes: 0x1234, buffer: 0xabcd }));
    mem[0x202] = 1;
    assert_eq!(os.syscall(0x200, &mem), Ok(SyscallRequest::Exit));
    mem[0x202] = 2;
    mem[0x203] = 1;
    assert_eq!(os.syscall(0x200, &mem), Err(Fault::UnsupportedSyscall(0x102)));
    assert_eq!(os.syscall(0xffff, &mem), Err(Fault::ArithmeticOverflow));
    assert_eq!(os.syscall(0xfffd, &mem), Err(Fault::ArithmeticOverflow));
    mem[0xfffc] = 4;
    assert_eq!(os.syscall(0xfffa, &mem), Err(Fault::ArithmeticOverflow));
    assert_eq!(os.write(0xfff9, &mem), Err(Fault::ArithmeticOverflow));
    assert_eq!(os.write(0xfffa, &mem), Err(Fault::ArithmeticOverflow));
    assert_eq!(os.write(0xfffe, &mem), Err(Fault::ArithmeticOverflow));
    assert_eq!(os.write(0xfff8, &mem), Ok(SyscallRequest::Write { fd: 0, nbytes: 0, buffer: 0 }));
    assert_eq!(os.write(0xfff5, &mem), Ok(SyscallRequest::Write { fd: 0, nbytes: 0, buffer: 0x0400 }));
}

#[test]
fn minix_message_past_the_memory() {
    let os = Minix::new(false);
    assert_eq!(os.syscall(0, &[0, 0, 4]), Err(Fault::IndexOutOfBounds));
    assert_eq!(os.syscall(3, &[0, 0, 4]), Err(Fault::IndexOutOfBounds));
    assert_eq!(os.syscall(0, &[0, 0, 1, 0]), Ok(SyscallRequest::Exit));
    assert_eq!(os.syscall(0, &[0, 0, 4, 0, 1, 0]), Err(Fault::IndexOutOfBounds));
}

#[test]
fn minix_write_buffer_past_the_memory() {
    let os = Minix::new(false);
    assert_eq!(os.write(0, &[1, 0, 5, 0, 0, 0, 9, 0]), Err(Fault::IndexOutOfBounds));
    assert_eq!(
        os.write(0, &[1, 0, 5, 0, 0, 0, 7, 0]),
        Ok(SyscallRequest::Write { fd: 1, nbytes: 5, buffer: 7 })
    );
}

#[test]
fn minix_reply_into_a_short_message() {
    let mut msg = vec![0u8, 0, 4, 0, 0xaa];
    Minix::store_reply(0, 0x1234, &mut msg);
    assert_eq!(msg, vec![0, 0, 0x34, 0x12, 0xaa]);
    let os = Minix::new(false);
    assert_eq!(os.syscall(0, &msg), Err(Fault::UnsupportedSyscall(0x1234)));
}
