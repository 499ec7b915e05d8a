use vstd::prelude::*;
use crate::machine::{Fault, word};

verus! {

/// What a MINIX message asks of the system.
#[derive(Clone, Copy, Debug, PartialEq, Eq, Structural)]
pub enum SyscallRequest {
    /// `exit`: the process ends with status 0.
    Exit,
    /// `write(fd, buffer, nbytes)`; its result is stored back into the message.
    Write { fd: u16, nbytes: u16, buffer: u16 },
}

/// The little-endian word at `idx` of the memory.
pub open spec fn mem_word(mem: Seq<u8>, idx: int) -> u16 {
    word(mem[idx], mem[idx + 1])
}

/// Reads the word at `idx` as `fetch2` does: the first byte must be in the
/// memory, `idx + 1` must not overflow 16 bits, and the second byte must be
/// in the memory.
pub open spec fn message_word(mem: Seq<u8>, idx: u16) -> Result<u16, Fault> {
    if idx as int >= mem.len() {
        Err(Fault::IndexOutOfBounds)
    } else if idx == 0xffff {
        Err(Fault::ArithmeticOverflow)
    } else if idx as int + 1 >= mem.len() {
        Err(Fault::IndexOutOfBounds)
    } else {
        Ok(mem_word(mem, idx as int))
    }
}

/// `idx + k` in 16 bits, or the overflow.
pub open spec fn advance(idx: u16, k: int) -> Result<u16, Fault> {
    if idx as int + k > 0xffff {
        Err(Fault::ArithmeticOverflow)
    } else {
        Ok((idx as int + k) as u16)
    }
}

/// Decodes the arguments of a `write` message whose fields start at `idx`:
/// the file descriptor, the byte count, and (after a skipped word) the buffer,
/// which must lie in the memory.
pub open spec fn write_request_spec(idx: u16, mem: Seq<u8>) -> Result<SyscallRequest, Fault> {
    match message_word(mem, idx) {
        Err(e) => Err(e),
        Ok(fd) => match advance(idx, 2) {
            Err(e) => Err(e),
            Ok(i2) => match message_word(mem, i2) {
                Err(e) => Err(e),
                Ok(nbytes) => match advance(i2, 4) {
                    Err(e) => Err(e),
                    Ok(i3) => match message_word(mem, i3) {
                        Err(e) => Err(e),
                        Ok(buffer) => if buffer as int >= mem.len() {
                            Err(Fault::IndexOutOfBounds)
                        } else {
                            Ok(SyscallRequest::Write { fd: fd, nbytes: nbytes, buffer: buffer })
                        },
                    },
                },
            },
        },
    }
}

/// Decodes the MINIX message at `bx`: source word, type word, then the
/// arguments. Type 1 is `exit`, type 4 is `write`.
pub open spec fn syscall_request_spec(bx: u16, mem: Seq<u8>) -> Result<SyscallRequest, Fault> {
    match message_word(mem, bx) {
        Err(e) => Err(e),
        Ok(_) => match advance(bx, 2) {
            Err(e) => Err(e),
            Ok(idx) => match message_word(mem, idx) {
                Err(e) => Err(e),
                Ok(m_type) => match advance(idx, 2) {
                    Err(e) => Err(e),
                    Ok(args) => if m_type == 1 {
                        Ok(SyscallRequest::Exit)
                    } else if m_type == 4 {
                        write_request_spec(args, mem)
                    } else {
                        Err(Fault::UnsupportedSyscall(m_type))
                    },
                },
            },
        },
    }
}

/// The MINIX system-call layer.
pub struct Minix {
    debug: bool,
}

impl View for Minix {
    type V = bool;

    closed spec fn view(&self) -> bool {
        self.debug
    }
}

impl Minix {
    pub fn new(dbg: bool) -> (r: Self)
        ensures
            r@ == dbg,
    {
        Self { debug: dbg }
    }

    /// Whether system calls are traced.
    pub fn is_debug(&self) -> (r: bool)
        ensures
            r == self@,
    {
        self.debug
    }

    /// The little-endian word at `idx`.
    pub(crate) fn fetch2(idx: u16, data: &[u8]) -> (r: Result<u16, Fault>)
        ensures
            r == message_word(data@, idx),
    {
        if idx as usize >= data.len() {
            return Err(Fault::IndexOutOfBounds);
        }
        let val1 = data[idx as usize];
        if idx == 0xffff {
            return Err(Fault::ArithmeticOverflow);
        }
        if (idx + 1) as usize >= data.len() {
            return Err(Fault::IndexOutOfBounds);
        }
        let val2 = data[(idx + 1) as usize];
        let r = (val2 as u16) << 8 | val1 as u16;
        assert(r == word(val1, val2)) by {
            assert((val2 as u16) << 8 | val1 as u16 == val2 as u16 * 256 + val1 as u16) by (bit_vector);
        }
        Ok(r)
    }

    /// Stores `val` little-endian at `idx`.
    pub(crate) fn write2(idx: u16, val: u16, data: &mut Vec<u8>)
        requires
            idx < 0xffff,
            idx + 1 < old(data)@.len(),
        ensures
            final(data)@ == old(data)@.update(idx as int, (val % 256) as u8).update(idx + 1, (val / 256) as u8),
    {
        assert(val & 0xff == val % 256) by (bit_vector);
        assert((val >> 8) & 0xff == val / 256) by (bit_vector);
        data.set(idx as usize, (val & 0xff) as u8);
        data.set((idx + 1) as usize, ((val >> 8) & 0xff) as u8);
    }

    /// Stores the result of a `write` into the message at `bx`: the word at
    /// `bx + 2`, over the message type.
    pub fn store_reply(bx: u16, ret: u16, dmem: &mut Vec<u8>)
        requires
            bx <= 0xfffc,
            bx + 3 < old(dmem)@.len(),
        ensures
            final(dmem)@ == old(dmem)@.update(bx + 2, (ret % 256) as u8).update(bx + 3, (ret / 256) as u8),
            message_word(final(dmem)@, (bx + 2) as u16) == Ok::<u16, Fault>(ret),
    {
        Minix::write2(bx + 2, ret, dmem);
        proof {
            lemma_write2_then_fetch2(old(dmem)@, bx + 2, ret);
        }
    }

    /// Decodes the MINIX message at `bx` into a request, or the fault with
    /// which the message is refused.
    pub fn syscall(&self, bx: u16, dmem: &[u8]) -> (r: Result<SyscallRequest, Fault>)
        ensures
            r == syscall_request_spec(bx, dmem@),
    {
        let mut idx = bx;
        let _m_source = match Minix::fetch2(idx, dmem) {
            Ok(v) => v,
            Err(e) => return Err(e),
        };
        if idx > 0xfffd {
            return Err(Fault::ArithmeticOverflow);
        }
        idx += 2;
        let m_type = match Minix::fetch2(idx, dmem) {
            Ok(v) => v,
            Err(e) => return Err(e),
        };
        if idx > 0xfffd {
            return Err(Fault::ArithmeticOverflow);
        }
        idx += 2;
        match m_type {
            1 => Ok(SyscallRequest::Exit),
            4 => self.write(idx, dmem),
            _ => Err(Fault::UnsupportedSyscall(m_type)),
        }
    }

    /// Decodes the arguments of a `write` message whose fields start at `idx_`.
    pub fn write(&self, idx_: u16, dmem: &[u8]) -> (r: Result<SyscallRequest, Fault>)
        ensures
            r == write_request_spec(idx_, dmem@),
    {
        let mut idx = idx_;
        let fd = match Minix::fetch2(idx, dmem) {
            Ok(v) => v,
            Err(e) => return Err(e),
        };
        if idx > 0xfffd {
            return Err(Fault::ArithmeticOverflow);
        }
        idx += 2;
        let nbytes = match Minix::fetch2(idx, dmem) {
            Ok(v) => v,
            Err(e) => return Err(e),
        };
        if idx > 0xfffb {
            return Err(Fault::ArithmeticOverflow);
        }
        idx += 4;
        let buffer = match Minix::fetch2(idx, dmem) {
            Ok(v) => v,
            Err(e) => return Err(e),
        };
        if buffer as usize >= dmem.len() {
            return Err(Fault::IndexOutOfBounds);
        }
        Ok(SyscallRequest::Write { fd: fd, nbytes: nbytes, buffer: buffer })
    }
}

/// Reading back a word stored little-endian gives the word: what `fetch2`
/// reads at `idx` after `write2` stored `val` there.
pub proof fn lemma_write2_then_fetch2(mem: Seq<u8>, idx: int, val: u16)
    requires
        0 <= idx,
        idx + 1 < mem.len(),
        idx < 0xffff,
    ensures
        mem_word(mem.update(idx, (val % 256) as u8).update(idx + 1, (val / 256) as u8), idx) == val,
        message_word(mem.update(idx, (val % 256) as u8).update(idx + 1, (val / 256) as u8), idx as u16)
            == Ok::<u16, Fault>(val),
{
}

/// Storing a word changes no byte outside its two bytes.
pub proof fn lemma_write2_frame(mem: Seq<u8>, idx: int, val: u16, k: int)
    requires
        0 <= idx,
        idx + 1 < mem.len(),
        0 <= k < mem.len(),
        k != idx,
        k != idx + 1,
    ensures
        mem.update(idx, (val % 256) as u8).update(idx + 1, (val / 256) as u8)[k] == mem[k],
{
}

} // verus!
