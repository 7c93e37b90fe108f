//! The instruction-level emulator: one tick executes one instruction.

use std::collections::VecDeque;
use vstd::prelude::*;
use crate::common::{
    opcode_to_instruction, spec_opcode_to_instruction, Imm, Instruction, Nimm, Ofst, Size,
    TickTrap, Tickable, DISPLAY_BUFFER, DISPLAY_BUFFER_LEN, MEM_SIZE, STDIO_BUFFER, spec_decoded_valid,
    spec_byte_bit,
};

verus! {

/// The registers of the microprocessor.
#[derive(Clone, Copy, Debug, PartialEq, Eq, Structural)]
pub struct Microprocessor {
    /// Instruction pointer.
    pub ip: u8,
    /// Stack pointer.
    pub sp: u8,
    /// Carry flag.
    pub cf: bool,
}

/// A microcomputer: memory and microprocessor.
pub struct Microcomputer {
    pub mem: [u8; MEM_SIZE],
    pub mp: Microprocessor,
}

/// The state that a tick reads and changes: memory, registers, and the peripherals.
pub struct EmuState {
    pub mem: Seq<u8>,
    pub ip: u8,
    pub sp: u8,
    pub cf: bool,
    pub stdin: Seq<u8>,
    pub stdout: Seq<u8>,
    pub display: Seq<u8>,
    pub controller: u8,
}

/// Whether the state has the sizes of the machine.
pub open spec fn spec_state_wf(s: EmuState) -> bool {
    s.mem.len() == MEM_SIZE && s.display.len() == DISPLAY_BUFFER_LEN
}

/// Reading a byte: address `0x00` is standard input, which yields the controller state when it
/// is empty.
pub open spec fn spec_read(s: EmuState, addr: u8) -> (EmuState, u8) {
    if addr == STDIO_BUFFER {
        if s.stdin.len() > 0 {
            (EmuState { stdin: s.stdin.drop_first(), ..s }, s.stdin[0])
        } else {
            (s, s.controller)
        }
    } else {
        (s, s.mem[addr as int])
    }
}

/// Writing a byte: address `0x00` is standard output; addresses `0xE0..=0xFF` are mirrored to
/// the display.
pub open spec fn spec_write(s: EmuState, addr: u8, v: u8) -> EmuState {
    let s1 = if addr == STDIO_BUFFER {
        EmuState { stdout: s.stdout.push(v), ..s }
    } else {
        EmuState { mem: s.mem.update(addr as int, v), ..s }
    };
    if addr >= DISPLAY_BUFFER {
        EmuState { display: s1.display.update(addr - DISPLAY_BUFFER, v), ..s1 }
    } else {
        s1
    }
}

/// Pushing a byte: the stack grows downward.
pub open spec fn spec_push(s: EmuState, v: u8) -> EmuState {
    let sp = (s.sp - 1) as u8;
    spec_write(EmuState { sp: if s.sp == 0 { 0xFF } else { sp }, ..s }, if s.sp == 0 {
        0xFF
    } else {
        sp
    }, v)
}

/// Popping a byte.
pub open spec fn spec_pop(s: EmuState) -> (EmuState, u8) {
    let (s1, v) = spec_read(s, s.sp);
    (EmuState { sp: spec_wrapping_add(s.sp, 1), ..s1 }, v)
}

pub open spec fn spec_wrapping_add(a: u8, b: u8) -> u8 {
    ((a + b) % 256) as u8
}

pub open spec fn spec_wrapping_sub(a: u8, b: u8) -> u8 {
    ((a - b + 256) % 256) as u8
}

pub open spec fn spec_with_cf(s: EmuState, cf: bool) -> EmuState {
    EmuState { cf, ..s }
}

/// Rotation of a byte left by `n % 8` places.
pub open spec fn spec_rotate(v: u8, n: u8) -> u8 {
    let k = n % 8;
    (v << k) | (v >> (8 - k) as u8)
}

/// The effect of an arithmetic or logic instruction on the operand `size` bytes above the top of
/// the stack, given the byte popped off the stack.
pub open spec fn spec_alu(
    s: EmuState,
    i: Instruction,
    size: u8,
) -> (EmuState, Result<u128, TickTrap>) {
    let addr = spec_wrapping_add(s.sp, size);
    match i {
        Instruction::Add(_) => {
            let (s1, a) = spec_read(s, addr);
            let (s2, b) = spec_pop(s1);
            let res = a + b + if s.cf {
                1int
            } else {
                0int
            };
            (spec_with_cf(spec_write(s2, addr, (res % 256) as u8), res > 0xFF), Ok((14 + size) as u128))
        },
        Instruction::Sub(_) => {
            let (s1, a) = spec_read(s, addr);
            let (s2, b) = spec_pop(s1);
            let res = a - b - if s.cf {
                1int
            } else {
                0int
            };
            (spec_with_cf(spec_write(s2, addr, ((res + 512) % 256) as u8), res < 0), Ok((14 + size) as u128))
        },
        Instruction::Iff(_) => {
            let (s1, top) = spec_pop(s);
            if s.cf {
                (spec_write(s1, addr, top), Ok((13 + size) as u128))
            } else {
                let (s2, v) = spec_read(s1, addr);
                (spec_write(s2, addr, v), Ok((13 + size) as u128))
            }
        },
        Instruction::Swp(_) => {
            let (s1, top) = spec_pop(s);
            let (s2, v) = spec_read(s1, addr);
            (spec_write(spec_push(s2, v), addr, top), Ok((13 + size) as u128))
        },
        Instruction::Rot(_) => {
            let (s1, top) = spec_pop(s);
            let (s2, v) = spec_read(s1, addr);
            (spec_with_cf(spec_write(s2, addr, spec_rotate(v, top)), false), Ok(
                ((18 + size) * (top + 1)) as u128,
            ))
        },
        Instruction::Orr(_) => {
            let (s1, top) = spec_pop(s);
            let (s2, v) = spec_read(s1, addr);
            let res = top | v;
            (spec_with_cf(spec_write(s2, addr, res), res == 0), Ok((14 + size) as u128))
        },
        Instruction::And(_) => {
            let (s1, top) = spec_pop(s);
            let (s2, v) = spec_read(s1, addr);
            let res = top & v;
            (spec_with_cf(spec_write(s2, addr, res), res == 0), Ok((11 + size) as u128))
        },
        Instruction::Xor(_) => {
            let (s1, top) = spec_pop(s);
            let (s2, v) = spec_read(s1, addr);
            let res = top ^ v;
            (spec_with_cf(spec_write(s2, addr, res), res == 0), Ok((22 + size) as u128))
        },
        _ => {
            let (s1, _top) = spec_pop(s);
            (spec_with_cf(spec_write(s1, addr, 0), true), Ok((8 + size) as u128))
        },
    }
}

/// The effect of executing a decoded instruction.
pub open spec fn spec_execute(s: EmuState, i: Instruction) -> (EmuState, Result<u128, TickTrap>) {
    match i {
        Instruction::Psh(Imm(imm)) => (spec_push(s, imm), Ok(10)),
        Instruction::Add(Size(size)) => spec_alu(s, i, size),
        Instruction::Sub(Size(size)) => spec_alu(s, i, size),
        Instruction::Iff(Size(size)) => spec_alu(s, i, size),
        Instruction::Swp(Size(size)) => spec_alu(s, i, size),
        Instruction::Rot(Size(size)) => spec_alu(s, i, size),
        Instruction::Orr(Size(size)) => spec_alu(s, i, size),
        Instruction::And(Size(size)) => spec_alu(s, i, size),
        Instruction::Xor(Size(size)) => spec_alu(s, i, size),
        Instruction::Xnd(Size(size)) => spec_alu(s, i, size),
        Instruction::Inc => {
            let (s1, v) = spec_pop(s);
            (spec_push(s1, spec_wrapping_add(v, 1)), Ok(6))
        },
        Instruction::Dec => {
            let (s1, v) = spec_pop(s);
            (spec_push(s1, spec_wrapping_sub(v, 1)), Ok(8))
        },
        Instruction::Neg => {
            let (s1, v) = spec_pop(s);
            (spec_push(s1, spec_wrapping_sub(0, v)), Ok(11))
        },
        Instruction::Shl => {
            let (s1, v) = spec_pop(s);
            let res = ((v * 2) % 256 + if s.cf {
                1int
            } else {
                0int
            }) as u8;
            (spec_with_cf(spec_push(s1, res), v >= 0x80), Ok(9))
        },
        Instruction::Shr => {
            let (s1, v) = spec_pop(s);
            let res = (v / 2 + if s.cf {
                0x80int
            } else {
                0int
            }) as u8;
            (spec_with_cf(spec_push(s1, res), v % 2 == 1), Ok(16))
        },
        Instruction::Not => {
            let (s1, v) = spec_pop(s);
            let res = (255 - v) as u8;
            (spec_with_cf(spec_push(s1, res), res == 0), Ok(8))
        },
        Instruction::Buf => {
            let (s1, v) = spec_pop(s);
            (spec_with_cf(spec_push(s1, v), v == 0), Ok(9))
        },
        Instruction::Dbg => (s, Err(TickTrap::DebugRequest)),
        Instruction::Ldo(Ofst(ofst)) => {
            let (s1, v) = spec_read(s, spec_wrapping_add(s.sp, ofst));
            (spec_push(s1, v), Ok((12 + ofst) as u128))
        },
        Instruction::Sto(Ofst(ofst)) => {
            let (s1, top) = spec_pop(s);
            (spec_write(s1, spec_wrapping_add(s1.sp, ofst), top), Ok((11 + ofst) as u128))
        },
        Instruction::Lda => {
            let (s1, a) = spec_pop(s);
            let (s2, v) = spec_read(s1, a);
            (spec_push(s2, v), Ok(9))
        },
        Instruction::Sta => {
            let (s1, a) = spec_pop(s);
            let (s2, v) = spec_pop(s1);
            (spec_write(s2, a, v), Ok(15))
        },
        Instruction::Ldi => (spec_push(s, s.ip), Ok(9)),
        Instruction::Sti => {
            let (s1, v) = spec_pop(s);
            (EmuState { ip: v, ..s1 }, Ok(6))
        },
        Instruction::Lds => (spec_push(s, s.sp), Ok(10)),
        Instruction::Sts => {
            let (s1, v) = spec_pop(s);
            (EmuState { sp: v, ..s1 }, Ok(5))
        },
        Instruction::Clc => (spec_with_cf(s, false), Ok(6)),
        Instruction::Sec => (spec_with_cf(s, true), Ok(6)),
        Instruction::Flc => (spec_with_cf(s, !s.cf), Ok(6)),
        Instruction::Nop => (s, Ok(3)),
        Instruction::Pop => (EmuState { sp: spec_wrapping_add(s.sp, 1), ..s }, Ok(5)),
        Instruction::Phn(Nimm(nimm)) => (spec_push(s, nimm), Ok(10)),
    }
}

/// One tick: fetch the opcode at the instruction pointer, advance it, decode and execute. An
/// opcode that encodes nothing traps as illegal.
pub open spec fn spec_tick(s: EmuState) -> (EmuState, Result<u128, TickTrap>) {
    let (s1, opcode) = spec_read(s, s.ip);
    let s2 = EmuState { ip: spec_wrapping_add(s.ip, 1), ..s1 };
    match spec_opcode_to_instruction(opcode) {
        Ok(i) => spec_execute(s2, i),
        Err(_) => (s2, Err(TickTrap::IllegalOpcode)),
    }
}

/// The state after a reset: registers cleared, standard output emptied, standard input holding
/// the byte at the standard input address, and the display showing the display buffer.
pub open spec fn spec_reset(s: EmuState) -> EmuState {
    EmuState {
        ip: 0,
        sp: 0,
        cf: false,
        stdin: seq![s.mem[STDIO_BUFFER as int]],
        stdout: Seq::empty(),
        display: s.mem.subrange(DISPLAY_BUFFER as int, (DISPLAY_BUFFER + DISPLAY_BUFFER_LEN) as int),
        ..s
    }
}

/// Whether the display shows the display buffer, addresses `0xE0..=0xFF` of memory.
pub open spec fn spec_display_mirrors(s: EmuState) -> bool {
    s.display == s.mem.subrange(DISPLAY_BUFFER as int, MEM_SIZE as int)
}

/// Reading a byte changes neither memory nor the display.
pub broadcast proof fn lemma_read_keeps_memory(s: EmuState, addr: u8)
    ensures
        (#[trigger] spec_read(s, addr)).0.mem == s.mem,
        spec_read(s, addr).0.display == s.display,
{
}

/// Writing a byte keeps the sizes of the machine and the display showing the display buffer.
pub broadcast proof fn lemma_write_keeps_display_mirror(s: EmuState, addr: u8, v: u8)
    requires
        spec_state_wf(s),
        spec_display_mirrors(s),
    ensures
        spec_state_wf(#[trigger] spec_write(s, addr, v)),
        spec_display_mirrors(spec_write(s, addr, v)),
{
    let w = spec_write(s, addr, v);
    assert(w.display =~= w.mem.subrange(DISPLAY_BUFFER as int, MEM_SIZE as int));
}

/// An operation on the operand under the top of the stack keeps the display mirror.
proof fn lemma_alu_keeps_display_mirror(s: EmuState, i: Instruction, size: u8)
    requires
        spec_state_wf(s),
        spec_display_mirrors(s),
    ensures
        spec_state_wf(spec_alu(s, i, size).0),
        spec_display_mirrors(spec_alu(s, i, size).0),
{
    broadcast use lemma_read_keeps_memory, lemma_write_keeps_display_mirror;
}

/// Every tick keeps the display showing the display buffer: each write to addresses
/// `0xE0..=0xFF` also reaches the display, whatever the tick returns.
pub proof fn law_tick_keeps_display_mirror(s: EmuState)
    requires
        spec_state_wf(s),
        spec_display_mirrors(s),
    ensures
        spec_state_wf(spec_tick(s).0),
        spec_display_mirrors(spec_tick(s).0),
{
    broadcast use lemma_read_keeps_memory, lemma_write_keeps_display_mirror;
    let (s1, opcode) = spec_read(s, s.ip);
    let s2 = EmuState { ip: spec_wrapping_add(s.ip, 1), ..s1 };
    match spec_opcode_to_instruction(opcode) {
        Ok(i) => match i {
            Instruction::Add(Size(size)) | Instruction::Sub(Size(size)) | Instruction::Iff(Size(size))
            | Instruction::Swp(Size(size)) | Instruction::Rot(Size(size)) | Instruction::Orr(Size(size))
            | Instruction::And(Size(size)) | Instruction::Xor(Size(size)) | Instruction::Xnd(Size(size)) => {
                lemma_alu_keeps_display_mirror(s2, i, size);
            },
            _ => {},
        },
        Err(_) => {},
    }
}

/// After a reset the display shows the display buffer.
pub proof fn law_reset_shows_display_buffer(s: EmuState)
    requires
        spec_state_wf(s),
    ensures
        spec_state_wf(spec_reset(s)),
        spec_display_mirrors(spec_reset(s)),
{
}

/// Rotation of a byte left by `n % 8` places, as the emulator computes it in sixteen bits.
pub fn rotate(v: u8, n: u8) -> (r: u8)
    ensures
        r == spec_rotate(v, n),
{
    let k = n % 8;
    let temp: u16 = (v as u16) << k;
    let r = (temp & 0xFF) as u8 | (temp >> 8u16) as u8;
    proof {
        lemma_rotate(v, k);
    }
    r
}

proof fn lemma_rotate(v: u8, k: u8)
    requires
        k < 8,
    ensures
        (((v as u16) << k) & 0xFF) as u8 | (((v as u16) << k) >> 8u16) as u8 == (v << k) | (v >> (
        8 - k) as u8),
{
    assert((((v as u16) << k) & 0xFF) as u8 | (((v as u16) << k) >> 8u16) as u8 == (v << k) | (v
        >> (8 - k) as u8)) by (bit_vector)
        requires
            k < 8,
    ;
}

/// The state of a microcomputer with its peripherals.
pub open spec fn spec_emu_state(
    mc: Microcomputer,
    stdin: VecDeque<u8>,
    stdout: VecDeque<u8>,
    display: [u8; DISPLAY_BUFFER_LEN],
    controller: u8,
) -> EmuState {
    EmuState {
        mem: mc.mem@,
        ip: mc.mp.ip,
        sp: mc.mp.sp,
        cf: mc.mp.cf,
        stdin: stdin@,
        stdout: stdout@,
        display: display@,
        controller,
    }
}

impl Microcomputer {
    fn mem_read(
        &mut self,
        stdin: &mut VecDeque<u8>,
        stdout: &mut VecDeque<u8>,
        display: &mut [u8; DISPLAY_BUFFER_LEN],
        controller: u8,
        addr: u8,
    ) -> (v: u8)
        ensures
            spec_read(spec_emu_state(*old(self), *old(stdin), *old(stdout), *old(display), controller), addr)
                == (spec_emu_state(*final(self), *final(stdin), *final(stdout), *final(display), controller), v),
    {
        if addr as usize == STDIO_BUFFER {
            match stdin.pop_front() {
                Some(v) => v,
                None => controller,
            }
        } else {
            self.mem[addr as usize]
        }
    }

    fn mem_write(
        &mut self,
        stdin: &mut VecDeque<u8>,
        stdout: &mut VecDeque<u8>,
        display: &mut [u8; DISPLAY_BUFFER_LEN],
        controller: u8,
        addr: u8,
        v: u8,
    )
        ensures
            spec_write(spec_emu_state(*old(self), *old(stdin), *old(stdout), *old(display), controller), addr, v)
                == spec_emu_state(*final(self), *final(stdin), *final(stdout), *final(display), controller),
    {
        if addr as usize == STDIO_BUFFER {
            stdout.push_back(v);
        } else {
            self.mem[addr as usize] = v;
        }
        if addr as usize >= DISPLAY_BUFFER {
            display[addr as usize - DISPLAY_BUFFER] = v;
        }
    }

    fn sp_push(
        &mut self,
        stdin: &mut VecDeque<u8>,
        stdout: &mut VecDeque<u8>,
        display: &mut [u8; DISPLAY_BUFFER_LEN],
        controller: u8,
        v: u8,
    )
        ensures
            spec_push(spec_emu_state(*old(self), *old(stdin), *old(stdout), *old(display), controller), v) == spec_emu_state(*final(self), *final(stdin), *final(stdout), *final(display), controller),
    {
        self.mp.sp = if self.mp.sp == 0 {
            0xFF
        } else {
            self.mp.sp - 1
        };
        let sp = self.mp.sp;
        self.mem_write(stdin, stdout, display, controller, sp, v);
    }

    fn sp_pop(
        &mut self,
        stdin: &mut VecDeque<u8>,
        stdout: &mut VecDeque<u8>,
        display: &mut [u8; DISPLAY_BUFFER_LEN],
        controller: u8,
    ) -> (v: u8)
        ensures
            spec_pop(spec_emu_state(*old(self), *old(stdin), *old(stdout), *old(display), controller)) == (spec_emu_state(*final(self), *final(stdin), *final(stdout), *final(display), controller), v),
    {
        let sp = self.mp.sp;
        let v = self.mem_read(stdin, stdout, display, controller, sp);
        self.mp.sp = if sp == 0xFF {
            0
        } else {
            sp + 1
        };
        v
    }

    #[verifier::rlimit(40)]
    fn alu(
        &mut self,
        stdin: &mut VecDeque<u8>,
        stdout: &mut VecDeque<u8>,
        display: &mut [u8; DISPLAY_BUFFER_LEN],
        controller: u8,
        i: Instruction,
        size: u8,
    ) -> (r: Result<u128, TickTrap>)
        ensures
            spec_alu(spec_emu_state(*old(self), *old(stdin), *old(stdout), *old(display), controller), i, size) == (spec_emu_state(*final(self), *final(stdin), *final(stdout), *final(display), controller), r),
    {
        let addr = if self.mp.sp as u16 + size as u16 >= 256 {
            (self.mp.sp as u16 + size as u16 - 256) as u8
        } else {
            self.mp.sp + size
        };
        match i {
            Instruction::Add(_) => {
                let cf = self.mp.cf;
                let a = self.mem_read(stdin, stdout, display, controller, addr);
                let b = self.sp_pop(stdin, stdout, display, controller);
                let res: u16 = a as u16 + b as u16 + if cf {
                    1
                } else {
                    0
                };
                self.mem_write(stdin, stdout, display, controller, addr, (res % 256) as u8);
                self.mp.cf = res > 0xFF;
                Ok(14 + size as u128)
            },
            Instruction::Sub(_) => {
                let cf = self.mp.cf;
                let a = self.mem_read(stdin, stdout, display, controller, addr);
                let b = self.sp_pop(stdin, stdout, display, controller);
                let res: i32 = a as i32 - b as i32 - if cf {
                    1
                } else {
                    0
                };
                self.mem_write(stdin, stdout, display, controller, addr, ((res + 512) % 256) as u8);
                self.mp.cf = res < 0;
                Ok(14 + size as u128)
            },
            Instruction::Iff(_) => {
                let cf = self.mp.cf;
                let top = self.sp_pop(stdin, stdout, display, controller);
                let v = if cf {
                    top
                } else {
                    self.mem_read(stdin, stdout, display, controller, addr)
                };
                self.mem_write(stdin, stdout, display, controller, addr, v);
                Ok(13 + size as u128)
            },
            Instruction::Swp(_) => {
                let top = self.sp_pop(stdin, stdout, display, controller);
                let v = self.mem_read(stdin, stdout, display, controller, addr);
                self.sp_push(stdin, stdout, display, controller, v);
                self.mem_write(stdin, stdout, display, controller, addr, top);
                Ok(13 + size as u128)
            },
            Instruction::Rot(_) => {
                let top = self.sp_pop(stdin, stdout, display, controller);
                let v = self.mem_read(stdin, stdout, display, controller, addr);
                let res = rotate(v, top);
                self.mem_write(stdin, stdout, display, controller, addr, res);
                self.mp.cf = false;
                let cycles = 18 + size as u128;
                let times = top as u128 + 1;
                assert(cycles * times <= 273 * 256) by (nonlinear_arith)
                    requires
                        cycles <= 273,
                        times <= 256,
                ;
                Ok(cycles * times)
            },
            Instruction::Orr(_) => {
                let top = self.sp_pop(stdin, stdout, display, controller);
                let v = self.mem_read(stdin, stdout, display, controller, addr);
                let res = top | v;
                self.mem_write(stdin, stdout, display, controller, addr, res);
                self.mp.cf = res == 0;
                Ok(14 + size as u128)
            },
            Instruction::And(_) => {
                let top = self.sp_pop(stdin, stdout, display, controller);
                let v = self.mem_read(stdin, stdout, display, controller, addr);
                let res = top & v;
                self.mem_write(stdin, stdout, display, controller, addr, res);
                self.mp.cf = res == 0;
                Ok(11 + size as u128)
            },
            Instruction::Xor(_) => {
                let top = self.sp_pop(stdin, stdout, display, controller);
                let v = self.mem_read(stdin, stdout, display, controller, addr);
                let res = top ^ v;
                self.mem_write(stdin, stdout, display, controller, addr, res);
                self.mp.cf = res == 0;
                Ok(22 + size as u128)
            },
            _ => {
                let _top = self.sp_pop(stdin, stdout, display, controller);
                self.mem_write(stdin, stdout, display, controller, addr, 0);
                self.mp.cf = true;
                Ok(8 + size as u128)
            },
        }
    }

    #[verifier::spinoff_prover]
    #[verifier::rlimit(100)]
    fn execute(
        &mut self,
        stdin: &mut VecDeque<u8>,
        stdout: &mut VecDeque<u8>,
        display: &mut [u8; DISPLAY_BUFFER_LEN],
        controller: u8,
        i: Instruction,
    ) -> (r: Result<u128, TickTrap>)
        ensures
            spec_execute(spec_emu_state(*old(self), *old(stdin), *old(stdout), *old(display), controller), i) == (spec_emu_state(*final(self), *final(stdin), *final(stdout), *final(display), controller), r),
    {
        match i {
            Instruction::Psh(Imm(imm)) => {
                self.sp_push(stdin, stdout, display, controller, imm);
                Ok(10)
            },
            Instruction::Add(Size(size)) => self.alu(stdin, stdout, display, controller, i, size),
            Instruction::Sub(Size(size)) => self.alu(stdin, stdout, display, controller, i, size),
            Instruction::Iff(Size(size)) => self.alu(stdin, stdout, display, controller, i, size),
            Instruction::Swp(Size(size)) => self.alu(stdin, stdout, display, controller, i, size),
            Instruction::Rot(Size(size)) => self.alu(stdin, stdout, display, controller, i, size),
            Instruction::Orr(Size(size)) => self.alu(stdin, stdout, display, controller, i, size),
            Instruction::And(Size(size)) => self.alu(stdin, stdout, display, controller, i, size),
            Instruction::Xor(Size(size)) => self.alu(stdin, stdout, display, controller, i, size),
            Instruction::Xnd(Size(size)) => self.alu(stdin, stdout, display, controller, i, size),
            Instruction::Inc => {
                let v = self.sp_pop(stdin, stdout, display, controller);
                self.sp_push(stdin, stdout, display, controller, if v == 0xFF {
                    0
                } else {
                    v + 1
                });
                Ok(6)
            },
            Instruction::Dec => {
                let v = self.sp_pop(stdin, stdout, display, controller);
                self.sp_push(stdin, stdout, display, controller, if v == 0 {
                    0xFF
                } else {
                    v - 1
                });
                Ok(8)
            },
            Instruction::Neg => {
                let v = self.sp_pop(stdin, stdout, display, controller);
                self.sp_push(stdin, stdout, display, controller, if v == 0 {
                    0
                } else {
                    (256 - v as u16) as u8
                });
                Ok(11)
            },
            Instruction::Shl => {
                let cf = self.mp.cf;
                let v = self.sp_pop(stdin, stdout, display, controller);
                self.sp_push(stdin, stdout, display, controller, (v % 128) * 2 + if cf {
                    1
                } else {
                    0
                });
                self.mp.cf = v >= 0x80;
                Ok(9)
            },
            Instruction::Shr => {
                let cf = self.mp.cf;
                let v = self.sp_pop(stdin, stdout, display, controller);
                self.sp_push(stdin, stdout, display, controller, v / 2 + if cf {
                    0x80
                } else {
                    0
                });
                self.mp.cf = v % 2 == 1;
                Ok(16)
            },
            Instruction::Not => {
                let v = self.sp_pop(stdin, stdout, display, controller);
                let res = 255 - v;
                self.sp_push(stdin, stdout, display, controller, res);
                self.mp.cf = res == 0;
                Ok(8)
            },
            Instruction::Buf => {
                let v = self.sp_pop(stdin, stdout, display, controller);
                self.sp_push(stdin, stdout, display, controller, v);
                self.mp.cf = v == 0;
                Ok(9)
            },
            Instruction::Dbg => Err(TickTrap::DebugRequest),
            Instruction::Ldo(Ofst(ofst)) => {
                let addr = if self.mp.sp as u16 + ofst as u16 >= 256 {
                    (self.mp.sp as u16 + ofst as u16 - 256) as u8
                } else {
                    self.mp.sp + ofst
                };
                let v = self.mem_read(stdin, stdout, display, controller, addr);
                self.sp_push(stdin, stdout, display, controller, v);
                Ok(12 + ofst as u128)
            },
            Instruction::Sto(Ofst(ofst)) => {
                let top = self.sp_pop(stdin, stdout, display, controller);
                let addr = if self.mp.sp as u16 + ofst as u16 >= 256 {
                    (self.mp.sp as u16 + ofst as u16 - 256) as u8
                } else {
                    self.mp.sp + ofst
                };
                self.mem_write(stdin, stdout, display, controller, addr, top);
                Ok(11 + ofst as u128)
            },
            Instruction::Lda => {
                let a = self.sp_pop(stdin, stdout, display, controller);
                let v = self.mem_read(stdin, stdout, display, controller, a);
                self.sp_push(stdin, stdout, display, controller, v);
                Ok(9)
            },
            Instruction::Sta => {
                let a = self.sp_pop(stdin, stdout, display, controller);
                let v = self.sp_pop(stdin, stdout, display, controller);
                self.mem_write(stdin, stdout, display, controller, a, v);
                Ok(15)
            },
            Instruction::Ldi => {
                let ip = self.mp.ip;
                self.sp_push(stdin, stdout, display, controller, ip);
                Ok(9)
            },
            Instruction::Sti => {
                self.mp.ip = self.sp_pop(stdin, stdout, display, controller);
                Ok(6)
            },
            Instruction::Lds => {
                let sp = self.mp.sp;
                self.sp_push(stdin, stdout, display, controller, sp);
                Ok(10)
            },
            Instruction::Sts => {
                self.mp.sp = self.sp_pop(stdin, stdout, display, controller);
                Ok(5)
            },
            Instruction::Clc => {
                self.mp.cf = false;
                Ok(6)
            },
            Instruction::Sec => {
                self.mp.cf = true;
                Ok(6)
            },
            Instruction::Flc => {
                self.mp.cf = !self.mp.cf;
                Ok(6)
            },
            Instruction::Nop => Ok(3),
            Instruction::Pop => {
                self.mp.sp = if self.mp.sp == 0xFF {
                    0
                } else {
                    self.mp.sp + 1
                };
                Ok(5)
            },
            Instruction::Phn(Nimm(nimm)) => {
                self.sp_push(stdin, stdout, display, controller, nimm);
                Ok(10)
            },
        }
    }
}

impl Tickable for Microcomputer {
    /// The instruction-level machine can always be reset.
    open spec fn resettable(&self) -> bool {
        true
    }

    /// Clears the registers and the standard streams, queues the byte at the standard input
    /// address on standard input, and shows the display buffer on the display.
    fn reset(
        &mut self,
        stdin: &mut VecDeque<u8>,
        stdout: &mut VecDeque<u8>,
        display: &mut [u8; DISPLAY_BUFFER_LEN],
        controller: &mut u8,
    )
        ensures
            spec_emu_state(*final(self), *final(stdin), *final(stdout), *final(display), *final(controller))
                == spec_reset(spec_emu_state(*old(self), *old(stdin), *old(stdout), *old(display), *old(controller))),
    {
        self.mp.ip = 0x00;
        self.mp.sp = 0x00;
        self.mp.cf = false;
        stdin.clear();
        stdout.clear();
        stdin.push_back(self.mem[STDIO_BUFFER]);
        let mut i: usize = 0;
        while i < DISPLAY_BUFFER_LEN
            invariant
                i <= DISPLAY_BUFFER_LEN,
                self.mem@.len() == MEM_SIZE,
                forall|j: int| 0 <= j < i ==> display@[j] == self.mem@[DISPLAY_BUFFER + j],
            decreases DISPLAY_BUFFER_LEN - i,
        {
            display[i] = self.mem[DISPLAY_BUFFER + i];
            i = i + 1;
        }
        assert(display@ == self.mem@.subrange(DISPLAY_BUFFER as int, (DISPLAY_BUFFER + DISPLAY_BUFFER_LEN) as int));
    }

    /// Executes the instruction at the instruction pointer.
    fn tick(
        &mut self,
        stdin: &mut VecDeque<u8>,
        stdout: &mut VecDeque<u8>,
        display: &mut [u8; DISPLAY_BUFFER_LEN],
        controller: &mut u8,
    ) -> (r: Result<u128, TickTrap>)
        ensures
            *final(controller) == *old(controller),
            (spec_emu_state(*final(self), *final(stdin), *final(stdout), *final(display), *old(controller)), r)
                == spec_tick(spec_emu_state(*old(self), *old(stdin), *old(stdout), *old(display), *old(controller))),
    {
        let c = *controller;
        let ip = self.mp.ip;
        let opcode = self.mem_read(stdin, stdout, display, c, ip);
        self.mp.ip = if ip == 0xFF {
            0
        } else {
            ip + 1
        };
        match opcode_to_instruction(opcode) {
            Ok(instruction) => self.execute(stdin, stdout, display, c, instruction),
            Err(_) => Err(TickTrap::IllegalOpcode),
        }
    }
}


/// Whether an operation of `size` bytes reads its operands from memory: the stack pointer and
/// the operand below it point at memory, not at standard input.
pub open spec fn spec_operands_in_memory(s: EmuState, size: u8) -> bool {
    &&& spec_state_wf(s)
    &&& s.sp != 0
    &&& 1 <= size <= 8
    &&& spec_wrapping_add(s.sp, size) != 0
}

/// The byte on top of the stack and the operand `size` bytes above it.
pub open spec fn spec_operands(s: EmuState, size: u8) -> (u8, u8) {
    (s.mem[s.sp as int], s.mem[spec_wrapping_add(s.sp, size) as int])
}

/// The result of an operation of `size` bytes, where it is written.
pub open spec fn spec_result(s: EmuState, size: u8, after: EmuState) -> u8 {
    after.mem[spec_wrapping_add(s.sp, size) as int]
}

/// After `xor`, each bit of the result is set exactly where one operand has it and the other
/// does not; the top of the stack is popped.
pub proof fn law_xor_bits(s: EmuState, size: u8, k: u8)
    requires
        spec_operands_in_memory(s, size),
        k < 8,
    ensures
        ({
            let (t, r) = spec_execute(s, Instruction::Xor(Size(size)));
            let (a, b) = spec_operands(s, size);
            &&& r is Ok
            &&& t.sp == spec_wrapping_add(s.sp, 1)
            &&& spec_byte_bit(spec_result(s, size, t), k) == (spec_byte_bit(a, k) != spec_byte_bit(b, k))
        }),
{
    let (a, b) = spec_operands(s, size);
    assert(((a ^ b) >> k) & 1 == 1 <==> ((a >> k) & 1 == 1) != ((b >> k) & 1 == 1)) by (bit_vector)
        requires k < 8;
}

/// After `and`, each bit of the result is set exactly where both operands have it.
pub proof fn law_and_bits(s: EmuState, size: u8, k: u8)
    requires
        spec_operands_in_memory(s, size),
        k < 8,
    ensures
        ({
            let (t, r) = spec_execute(s, Instruction::And(Size(size)));
            let (a, b) = spec_operands(s, size);
            &&& r is Ok
            &&& t.sp == spec_wrapping_add(s.sp, 1)
            &&& spec_byte_bit(spec_result(s, size, t), k) == (spec_byte_bit(a, k) && spec_byte_bit(b, k))
        }),
{
    let (a, b) = spec_operands(s, size);
    assert(((a & b) >> k) & 1 == 1 <==> ((a >> k) & 1 == 1) && ((b >> k) & 1 == 1)) by (bit_vector)
        requires k < 8;
}

/// After `orr`, each bit of the result is set exactly where either operand has it.
pub proof fn law_orr_bits(s: EmuState, size: u8, k: u8)
    requires
        spec_operands_in_memory(s, size),
        k < 8,
    ensures
        ({
            let (t, r) = spec_execute(s, Instruction::Orr(Size(size)));
            let (a, b) = spec_operands(s, size);
            &&& r is Ok
            &&& t.sp == spec_wrapping_add(s.sp, 1)
            &&& spec_byte_bit(spec_result(s, size, t), k) == (spec_byte_bit(a, k) || spec_byte_bit(b, k))
        }),
{
    let (a, b) = spec_operands(s, size);
    assert(((a | b) >> k) & 1 == 1 <==> ((a >> k) & 1 == 1) || ((b >> k) & 1 == 1)) by (bit_vector)
        requires k < 8;
}

/// After `add`, the result with the new carry as its ninth bit is the sum of both operands and
/// the old carry.
pub proof fn law_add_carries(s: EmuState, size: u8)
    requires
        spec_operands_in_memory(s, size),
    ensures
        ({
            let (t, r) = spec_execute(s, Instruction::Add(Size(size)));
            let (a, b) = spec_operands(s, size);
            &&& r is Ok
            &&& t.sp == spec_wrapping_add(s.sp, 1)
            &&& spec_result(s, size, t) + 256 * (if t.cf { 1int } else { 0int }) == a + b + (if s.cf { 1int } else { 0int })
        }),
{
}

/// After `sub`, the result less the new carry as a borrow of 256 is the operand below less the
/// top and the old carry.
pub proof fn law_sub_borrows(s: EmuState, size: u8)
    requires
        spec_operands_in_memory(s, size),
    ensures
        ({
            let (t, r) = spec_execute(s, Instruction::Sub(Size(size)));
            let (a, b) = spec_operands(s, size);
            &&& r is Ok
            &&& t.sp == spec_wrapping_add(s.sp, 1)
            &&& spec_result(s, size, t) - 256 * (if t.cf { 1int } else { 0int }) == b - a - (if s.cf { 1int } else { 0int })
        }),
{
}

/// The top of the stack after a one-operand instruction, which pops and pushes in place.
pub open spec fn spec_new_top(s: EmuState, i: Instruction) -> u8 {
    spec_execute(s, i).0.mem[s.sp as int]
}

/// `inc` adds one to the top of the stack and `dec` takes one away, modulo 256, each undoing
/// the other; neither moves the stack pointer or touches the carry.
pub proof fn law_inc_dec(s: EmuState)
    requires
        spec_state_wf(s),
        s.sp != 0,
    ensures
        ({
            let v = s.mem[s.sp as int];
            let up = spec_execute(s, Instruction::Inc).0;
            let down = spec_execute(s, Instruction::Dec).0;
            &&& (spec_new_top(s, Instruction::Inc) + 256 - v) % 256 == 1
            &&& (v + 256 - spec_new_top(s, Instruction::Dec)) % 256 == 1
            &&& up.sp == s.sp && up.cf == s.cf && down.sp == s.sp && down.cf == s.cf
            &&& spec_new_top(up, Instruction::Dec) == v
        }),
{
    let v = s.mem[s.sp as int];
    let up = spec_execute(s, Instruction::Inc).0;
    assert(up.mem[s.sp as int] == spec_wrapping_add(v, 1));
    assert(spec_state_wf(up));
}

/// `neg` leaves the number that added to the top gives zero modulo 256.
pub proof fn law_neg(s: EmuState)
    requires
        spec_state_wf(s),
        s.sp != 0,
    ensures
        (spec_new_top(s, Instruction::Neg) + s.mem[s.sp as int]) % 256 == 0,
{
}

/// `shl` doubles the top with the carry shifted in as its lowest bit and its highest bit
/// shifted out to the carry; `shr` halves it with the carry shifted in as its highest bit and
/// its lowest bit shifted out to the carry.
pub proof fn law_shifts(s: EmuState)
    requires
        spec_state_wf(s),
        s.sp != 0,
    ensures
        ({
            let v = s.mem[s.sp as int];
            let c = if s.cf { 1int } else { 0int };
            let (l, _) = spec_execute(s, Instruction::Shl);
            let (r, _) = spec_execute(s, Instruction::Shr);
            &&& spec_new_top(s, Instruction::Shl) + 256 * (if l.cf { 1int } else { 0int }) == 2 * v + c
            &&& 2 * spec_new_top(s, Instruction::Shr) + (if r.cf { 1int } else { 0int }) == v + 256 * c
        }),
{
}

/// `not` leaves each bit of the top of the stack flipped.
pub proof fn law_not_bits(s: EmuState, k: u8)
    requires
        spec_state_wf(s),
        s.sp != 0,
        k < 8,
    ensures
        spec_byte_bit(spec_new_top(s, Instruction::Not), k) == !spec_byte_bit(s.mem[s.sp as int], k),
{
    let v = s.mem[s.sp as int];
    assert((((255 - v) as u8) >> k) & 1 == 1 <==> !((v >> k) & 1 == 1)) by (bit_vector)
        requires k < 8;
}


/// After `rot`, the byte `size` above the popped top holds itself rotated left by the top:
/// bit `j` of the result is the bit that stood `n` places below it, round the byte, and the
/// carry is clear.
pub proof fn law_rot_bits(s: EmuState, size: u8, j: u8)
    requires
        spec_operands_in_memory(s, size),
        j < 8,
    ensures
        ({
            let (t, r) = spec_execute(s, Instruction::Rot(Size(size)));
            let (n, v) = spec_operands(s, size);
            &&& r is Ok
            &&& t.sp == spec_wrapping_add(s.sp, 1)
            &&& !t.cf
            &&& spec_byte_bit(spec_result(s, size, t), j) == spec_byte_bit(v, ((j + 8 - n % 8) % 8) as u8)
        }),
{
    let (n, v) = spec_operands(s, size);
    let k = n % 8;
    assert(((((v << k) | (v >> (8 - k) as u8)) >> j) & 1 == 1) <==> ((v >> (((j + 8 - k) % 8) as u8)) & 1 == 1))
        by (bit_vector)
        requires
            j < 8,
            k < 8,
    ;
}

} // verus!
