use ruvm::machine::Fault;
use ruvm::minix::SyscallRequest;
use ruvm::runtime::{Runtime, StepResult};

fn idle_state() -> String {
    "0000 0000 0000 0000 0000 0000 0000 0000 ---- 0000".to_string()
}

fn expect_executed(r: StepResult) -> (Option<String>, bool) {
    match r {
        StepResult::Executed { log, halted } => (log, halted),
        StepResult::SystemCall { .. } => panic!("unexpected system call"),
        StepResult::Faulted(f) => panic!("unexpected fault {:?}", f),
    }
}

fn expect_fault(r: StepResult) -> Fault {
    match r {
        StepResult::Faulted(f) => f,
        _ => panic!("expected a fault"),
    }
}

#[test]
fn new_runtime_is_cleared() {
    let text = [0xbbu8, 0x34, 0x12];
    let rt = Runtime::new(&text);
    assert_eq!(rt.get_regs(), &[0u16; 12]);
    assert_eq!(rt.get_pc(), 0);
    assert_eq!(rt.get_prev_pc(), 0);
    assert!(!rt.c() && !rt.z() && !rt.s() && !rt.o());
    assert_eq!(rt.memory().len(), 0x10000);
    assert!(rt.memory().iter().all(|b| *b == 0));
    assert!(rt.is_debug());
    assert!(rt.os().is_debug());
}

#[test]
fn mov_immediate_to_bx() {
    let text = [0xbbu8, 0x34, 0x12];
    let mut rt = Runtime::new(&text);
    let (log, halted) = expect_executed(rt.step());
    assert_eq!(rt.get_regs()[3], 0x1234);
    assert_eq!(rt.get_pc(), 3);
    assert_eq!(rt.get_prev_pc(), 0);
    assert!(halted);
    assert_eq!(log.unwrap(), format!("{}:bb3412        mov bx, 1234", idle_state()));
}

#[test]
fn xor_register_with_itself() {
    // mov bx, 0x00ff ; xor bx, bx
    let text = [0xbbu8, 0xff, 0x00, 0x31, 0xdb];
    let mut rt = Runtime::new(&text);
    let (_, halted) = expect_executed(rt.step());
    assert!(!halted);
    let (log, halted) = expect_executed(rt.step());
    assert!(halted);
    assert_eq!(rt.get_regs()[3], 0);
    assert!(rt.z());
    assert!(!rt.s() && !rt.c() && !rt.o());
    // the register operand is also written to memory at the register number
    assert_eq!(rt.memory()[3], 0);
    assert_eq!(
        log.unwrap(),
        "0000 00ff 0000 0000 0000 0000 0000 0000 ---- 0003:31db          xor bx, bx"
    );
}

#[test]
fn add_sets_carry_and_writes_memory_at_register_number() {
    // mov bx, 0xffff ; add bx, bx  (01 db: mod 3, reg 3, rm 3)
    let text = [0xbbu8, 0xff, 0xff, 0x01, 0xdb];
    let mut rt = Runtime::new(&text);
    expect_executed(rt.step());
    let (log, _) = expect_executed(rt.step());
    assert_eq!(rt.get_regs()[3], 0xfffe);
    assert!(rt.c());
    assert!(rt.s());
    assert!(!rt.z());
    assert!(!rt.o());
    assert_eq!(rt.memory()[3], 0xfe);
    assert_eq!(rt.memory()[4], 0xff);
    assert_eq!(
        log.unwrap(),
        "0000 ffff 0000 0000 0000 0000 0000 0000 ---- 0003:01db          add bx, bx"
    );
}

#[test]
fn add_signed_overflow() {
    // mov bx, 0x7fff ; add bx, bx
    let text = [0xbbu8, 0xff, 0x7f, 0x01, 0xdb];
    let mut rt = Runtime::new(&text);
    expect_executed(rt.step());
    expect_executed(rt.step());
    assert_eq!(rt.get_regs()[3], 0xfffe);
    assert!(rt.o());
    assert!(rt.s());
    assert!(!rt.c());
}

#[test]
fn mov_register_to_register_operand() {
    // mov bx, 0x0042 ; mov sp, bx  (89 dc: d 0, w 1, mod 3, reg 3 (bx), rm 4 (sp))
    let text = [0xbbu8, 0x42, 0x00, 0x89, 0xdc];
    let mut rt = Runtime::new(&text);
    expect_executed(rt.step());
    let (log, _) = expect_executed(rt.step());
    assert_eq!(rt.get_regs()[4], 0x42);
    assert_eq!(rt.memory()[4], 0x42);
    assert_eq!(rt.memory()[5], 0x00);
    assert_eq!(
        log.unwrap(),
        "0000 0042 0000 0000 0000 0000 0000 0000 ---- 0003:89dc          mov bx, bx"
    );
}

#[test]
fn mov_from_direct_address_to_register() {
    // mov ax, [0x0010]  (8b 06 10 00)
    let text = [0x8bu8, 0x06, 0x10, 0x00];
    let mut rt = Runtime::new(&text);
    rt.load_data(&[0u8; 0x10].iter().copied().chain([0x78u8, 0x56]).collect::<Vec<u8>>());
    let (log, _) = expect_executed(rt.step());
    assert_eq!(rt.get_regs()[0], 0x5678);
    assert_eq!(log.unwrap(), format!("{}:8b061000      mov ax, [0010] ;[0010]5678", idle_state()));
}

#[test]
fn lea_with_displacement() {
    // mov bx, 0x0100 ; lea dx, [bx+2]  (8d 57 02)
    let text = [0xbbu8, 0x00, 0x01, 0x8d, 0x57, 0x02];
    let mut rt = Runtime::new(&text);
    expect_executed(rt.step());
    let (log, _) = expect_executed(rt.step());
    assert_eq!(rt.get_regs()[2], 0x0102);
    assert_eq!(
        log.unwrap(),
        "0000 0100 0000 0000 0000 0000 0000 0000 ---- 0003:8d5702        lea dx, [0102] ;[0102]0000"
    );
}

#[test]
fn lea_negative_displacement_wraps() {
    // lea dx, [bx-1] with bx = 0  (8d 57 ff)
    let text = [0x8du8, 0x57, 0xff];
    let mut rt = Runtime::new(&text);
    let r = rt.step();
    // the listing reads the word at 0xffff, past the end of memory
    assert_eq!(expect_fault(r), Fault::IndexOutOfBounds);
}

#[test]
fn sub_immediate_from_register() {
    // mov bx, 3 ; sub bx, 5   (81 eb 05 00: mod 3, reg 5, rm 3)
    let text = [0xbbu8, 0x03, 0x00, 0x81, 0xeb, 0x05, 0x00];
    let mut rt = Runtime::new(&text);
    expect_executed(rt.step());
    let (log, halted) = expect_executed(rt.step());
    assert!(halted);
    assert_eq!(rt.get_regs()[3], 0xfffe);
    assert!(rt.c());
    assert!(rt.s());
    assert!(!rt.z());
    assert!(!rt.o());
    assert_eq!(
        log.unwrap(),
        "0000 0003 0000 0000 0000 0000 0000 0000 ---- 0003:81eb0500      sub bp, 0005"
    );
}

#[test]
fn cmp_sets_flags_only() {
    // mov bx, 5 ; cmp bx, 5   (81 fb 05 00: mod 3, reg 7, rm 3)
    let text = [0xbbu8, 0x05, 0x00, 0x81, 0xfb, 0x05, 0x00];
    let mut rt = Runtime::new(&text);
    expect_executed(rt.step());
    let (log, _) = expect_executed(rt.step());
    assert_eq!(rt.get_regs()[3], 5);
    assert!(rt.z());
    assert!(!rt.c());
    assert_eq!(
        log.unwrap(),
        "0000 0005 0000 0000 0000 0000 0000 0000 ---- 0003:81fb0500      cmp di, 0005"
    );
}

#[test]
fn jnb_taken_when_carry_clear() {
    // jnb +2 ; (skipped) ; mov bx, 1
    let text = [0x73u8, 0x02, 0x90, 0x90, 0xbb, 0x01, 0x00];
    let mut rt = Runtime::new(&text);
    let (log, _) = expect_executed(rt.step());
    assert_eq!(rt.get_pc(), 4);
    assert_eq!(log.unwrap(), format!("{}:7302          jnb 0004", idle_state()));
    expect_executed(rt.step());
    assert_eq!(rt.get_regs()[3], 1);
}

#[test]
fn jnb_not_taken_when_carry_set() {
    // mov bx, 3 ; sub bx, 5 (sets C) ; jnb -2
    let text = [0xbbu8, 0x03, 0x00, 0x81, 0xeb, 0x05, 0x00, 0x73, 0xfe];
    let mut rt = Runtime::new(&text);
    expect_executed(rt.step());
    expect_executed(rt.step());
    assert!(rt.c());
    let (log, halted) = expect_executed(rt.step());
    assert_eq!(rt.get_pc(), 9);
    assert!(halted);
    assert!(log.unwrap().ends_with("jnb 0007"));
}

#[test]
fn jnb_backwards() {
    // jnb -2 loops to itself
    let text = [0x73u8, 0xfe];
    let mut rt = Runtime::new(&text);
    let (_, halted) = expect_executed(rt.step());
    assert_eq!(rt.get_pc(), 0);
    assert!(!halted);
}

#[test]
fn test_word_immediate() {
    // mov bx, 0x8001 ; test bx, 0x8000  (f7 c3 00 80)
    let text = [0xbbu8, 0x01, 0x80, 0xf7, 0xc3, 0x00, 0x80];
    let mut rt = Runtime::new(&text);
    expect_executed(rt.step());
    let (log, _) = expect_executed(rt.step());
    assert!(rt.s());
    assert!(!rt.z());
    assert_eq!(rt.get_regs()[3], 0x8001);
    assert_eq!(
        log.unwrap(),
        "0000 8001 0000 0000 0000 0000 0000 0000 ---- 0003:f7c30080      test ax, 8000"
    );
}

#[test]
fn test_byte_immediate() {
    // mov bx, 0x0f00 ; test bh, 0x0f  (f6 c7 0f: mod 3, reg 0, rm 7 = bh)
    let text = [0xbbu8, 0x00, 0x0f, 0xf6, 0xc7, 0x0f];
    let mut rt = Runtime::new(&text);
    expect_executed(rt.step());
    let (log, _) = expect_executed(rt.step());
    assert!(!rt.z());
    assert!(!rt.s());
    assert!(log.unwrap().ends_with("f6c70f        test al, f"));
}

#[test]
fn system_call_write_and_result() {
    // mov bx, 0x0100 ; int 0x20
    let text = [0xbbu8, 0x00, 0x01, 0xcd, 0x20];
    let mut rt = Runtime::new(&text);
    let mut mem = vec![0u8; 0x120];
    // message at 0x100: source 0, type 4 (write), fd 1, nbytes 5, (skip), buffer 0x0110
    mem[0x102] = 4;
    mem[0x104] = 1;
    mem[0x106] = 5;
    mem[0x10a] = 0x10;
    mem[0x10b] = 0x01;
    rt.load_data(&mem);
    expect_executed(rt.step());
    match rt.step() {
        StepResult::SystemCall { log, request, halted } => {
            assert_eq!(log, "0000 0100 0000 0000 0000 0000 0000 0000 ---- 0003:cd20          int 20");
            assert_eq!(request, Ok(SyscallRequest::Write { fd: 1, nbytes: 5, buffer: 0x110 }));
            assert!(halted);
        },
        _ => panic!("expected a system call"),
    }
    rt.finish_write(5);
    assert_eq!(rt.memory()[0x102], 5);
    assert_eq!(rt.memory()[0x103], 0);
}

#[test]
fn system_call_exit_and_unsupported() {
    let text = [0xcdu8, 0x20, 0xcd, 0x20];
    let mut rt = Runtime::new(&text);
    let mut mem = vec![0u8; 4];
    mem[2] = 1;
    rt.load_data(&mem);
    match rt.step() {
        StepResult::SystemCall { request, halted, .. } => {
            assert_eq!(request, Ok(SyscallRequest::Exit));
            assert!(!halted);
        },
        _ => panic!("expected a system call"),
    }
    rt.load_data(&[0, 0, 9, 0]);
    match rt.step() {
        StepResult::SystemCall { request, .. } => assert_eq!(request, Err(Fault::UnsupportedSyscall(9))),
        _ => panic!("expected a system call"),
    }
}

#[test]
fn faults_of_the_interpreter() {
    let text = [0x90u8];
    assert_eq!(expect_fault(Runtime::new(&text).step()), Fault::UnrecognizedOperator(0x90));
    let text = [0xbbu8, 0x34];
    assert_eq!(expect_fault(Runtime::new(&text).step()), Fault::IndexOutOfBounds);
    let text = [0x00u8, 0xc0];
    assert_eq!(expect_fault(Runtime::new(&text).step()), Fault::NotImplementedYet);
    let text = [0x33u8, 0xc0];
    assert_eq!(expect_fault(Runtime::new(&text).step()), Fault::ToRegisterNotImplemented);
    let text = [0x31u8, 0x80, 0x00, 0x00];
    assert_eq!(expect_fault(Runtime::new(&text).step()), Fault::NotYetImplemented);
    let text = [0x82u8, 0xc0, 0x01];
    assert_eq!(expect_fault(Runtime::new(&text).step()), Fault::NoSuchOp);
    let text = [0x83u8, 0xc0, 0x01];
    assert_eq!(expect_fault(Runtime::new(&text).step()), Fault::NotYetImplemented);
    let text = [0x81u8, 0xc0, 0x01, 0x00];
    assert_eq!(expect_fault(Runtime::new(&text).step()), Fault::NoSuchRegPattern);
    let text = [0xf7u8, 0xc8];
    assert_eq!(expect_fault(Runtime::new(&text).step()), Fault::NoSuchPattern);
    let text = [0x8au8, 0xc0];
    assert_eq!(expect_fault(Runtime::new(&text).step()), Fault::ByteRegisterWrite);
    // r/m 0 (BX + SI) is not decoded
    let text = [0x31u8, 0x00];
    assert_eq!(expect_fault(Runtime::new(&text).step()), Fault::NotImplementedYet);
}

#[test]
fn listing_of_a_based_operand_is_not_implemented() {
    // xor [bx+2], ax runs, but its r/m operand cannot be listed
    let text = [0x31u8, 0x47, 0x02];
    let mut rt = Runtime::new(&text);
    assert_eq!(expect_fault(rt.step()), Fault::NotImplementedYet);
    assert!(rt.z());
}

#[test]
fn stack_pointer_steps() {
    let text = [0x90u8];
    let mut rt = Runtime::new(&text);
    rt.dec_sp();
    assert_eq!(rt.get_regs()[4], 0xffff);
    rt.inc_sp();
    assert_eq!(rt.get_regs()[4], 0);
    rt.inc_sp();
    rt.dec_sp();
    assert_eq!(rt.get_regs()[4], 0);
    rt.init();
    assert_eq!(rt.get_regs()[4], 0);
}

#[test]
fn load_data_copies_prefix() {
    let text = [0x90u8];
    let mut rt = Runtime::new(&text);
    rt.load_data(&[1, 2, 3]);
    assert_eq!(&rt.memory()[0..4], &[1, 2, 3, 0]);
    rt.load_data(&[9]);
    assert_eq!(&rt.memory()[0..4], &[9, 2, 3, 0]);
}

#[test]
fn initial_stack_with_one_argument() {
    let text = [0x90u8];
    let mut rt = Runtime::new(&text);
    let args = vec!["prog".to_string()];
    let frame = rt.init_stack(&args).unwrap();
    assert_eq!(frame.nsp, 0xffde);
    assert_eq!(frame.vp, 0xffe0);
    assert_eq!(frame.strp, 0xffe8);
    assert_eq!(frame.fault, None);
    assert_eq!(rt.get_regs()[4], 0xffde);
    let m = rt.memory();
    assert_eq!(&m[0xffde..0xffe8], &[1, 0, 0xe8, 0xff, 0, 0, 0xed, 0xff, 0, 0]);
    assert_eq!(&m[0xffe8..0xffed], b"prog\0");
    assert_eq!(&m[0xffed..0xffff], b"PATH=/usr:/usr/bin");
    assert_eq!(m[0xffff], 0);
}

#[test]
fn initial_stack_with_odd_frame_is_aligned() {
    let text = [0x90u8];
    let mut rt = Runtime::new(&text);
    let args = vec!["ab".to_string()];
    let frame = rt.init_stack(&args).unwrap();
    // 3 + 2 + 19 + 2 + 6 = 32 bytes
    assert_eq!(frame.nsp, 0x10000 - 32);
    assert_eq!(frame.fault, None);
    let args = vec!["abc".to_string()];
    let mut rt = Runtime::new(&text);
    let frame = rt.init_stack(&args).unwrap();
    // 4 + 2 + 19 + 2 + 6 = 33, rounded up to 34
    assert_eq!(frame.nsp, 0x10000 - 34);
    let m = rt.memory();
    assert_eq!(m[0x10000 - 34], 1);
    assert_eq!(&m[frame.strp..frame.strp + 4], b"abc\0");
}

#[test]
fn initial_stack_overflows() {
    let text = [0x90u8];
    let mut rt = Runtime::new(&text);
    let args = vec!["x".repeat(0xffff)];
    assert_eq!(rt.init_stack(&args).err(), Some(Fault::ArithmeticOverflow));
    assert_eq!(rt.get_regs()[4], 0);
    let args = vec!["x".repeat(0xfff0)];
    assert_eq!(rt.init_stack(&args).err(), Some(Fault::ArithmeticOverflow));
}

#[test]
fn initial_stack_with_many_empty_arguments() {
    // the pointer words overlap the strings; the environment is added onto them
    let text = [0x90u8];
    let mut rt = Runtime::new(&text);
    let args: Vec<String> = (0..6).map(|_| String::new()).collect();
    let frame = rt.init_stack(&args).unwrap();
    assert_eq!(frame.nsp, 0x10000 - (6 * 3 + 27 + 1));
    assert_eq!(rt.memory()[frame.nsp], 6);
    // the environment string starts on its own pointer, and 'P' added to the
    // pointer's low byte overflows
    assert_eq!(frame.fault, Some(Fault::ArithmeticOverflow));
}
