//! The cycle-accurate simulator: one tick is one clock phase of the microarchitecture, driven by
//! the microcode.

use std::collections::VecDeque;
use vstd::prelude::*;
use crate::common::{
    spec_u16_into_result, u16_into_result, ControlWord, Signal, TickTrap, Tickable,
    DISPLAY_BUFFER, DISPLAY_BUFFER_LEN, MEM_SIZE, MIC_SIZE,
};

verus! {

/// The phase of the clock.
#[derive(Clone, Copy, Debug, PartialEq, Eq, Structural)]
pub enum Clock {
    Rising,
    High,
    Falling,
    Low,
}

/// The reset line.
#[derive(Clone, Copy, Debug, PartialEq, Eq, Structural)]
pub enum Reset {
    Asserted,
    Deasserted,
}

/// The registers and derived signals of the microprocessor.
pub struct Microprocessor {
    /// Instruction pointer.
    pub ip: u8,
    /// Stack pointer.
    pub sp: u8,
    /// Carry flag.
    pub cf: bool,
    /// Instruction latch.
    pub il: u8,
    /// Step counter.
    pub sc: u8,
    /// Address latch.
    pub al: u8,
    /// X latch.
    pub xl: u8,
    /// Y latch.
    pub yl: u8,
    /// Z latch.
    pub zl: u8,
    /// Control word derivation.
    pub ctrl: ControlWord,
    /// Pull-up derivation.
    pub pull: Signal,
    /// Ones derivation.
    pub ones: u8,
    /// Sum derivation.
    pub sum: u8,
    /// Not-and derivation.
    pub nand: u8,
    /// Sum carry-in derivation.
    pub cin: bool,
    /// Sum carry-out derivation.
    pub cout: bool,
    /// Not-and is-zero derivation.
    pub zero: bool,
    /// Microcode.
    pub mic: [u16; MIC_SIZE],
}

/// A microcomputer: memory, microprocessor and buses.
pub struct Microcomputer {
    pub mem: [u8; MEM_SIZE],
    pub mp: Microprocessor,
    /// Clock.
    pub clk: Clock,
    /// Reset.
    pub rst: Reset,
    /// Address bus.
    pub addr: u8,
    /// Data bus.
    pub data: u8,
    /// Memory read.
    pub read: Signal,
    /// Memory write.
    pub wrt: Signal,
}

/// The state of the simulated machine with its peripherals.
#[verifier::ext_equal]
pub struct SimState {
    pub mem: Seq<u8>,
    pub ip: u8,
    pub sp: u8,
    pub cf: bool,
    pub il: u8,
    pub sc: u8,
    pub al: u8,
    pub xl: u8,
    pub yl: u8,
    pub zl: u8,
    pub ctrl: ControlWord,
    pub pull: Signal,
    pub ones: u8,
    pub sum: u8,
    pub nand: u8,
    pub cin: bool,
    pub cout: bool,
    pub zero: bool,
    pub mic: Seq<u16>,
    pub clk: Clock,
    pub rst: Reset,
    pub addr: u8,
    pub data: u8,
    pub read: Signal,
    pub wrt: Signal,
    pub stdin: Seq<u8>,
    pub stdout: Seq<u8>,
    pub display: Seq<u8>,
    pub controller: u8,
}

/// The state of a microcomputer with its peripherals.
pub open spec fn spec_sim_state(
    mc: Microcomputer,
    stdin: VecDeque<u8>,
    stdout: VecDeque<u8>,
    display: [u8; DISPLAY_BUFFER_LEN],
    controller: u8,
) -> SimState {
    SimState {
        mem: mc.mem@,
        ip: mc.mp.ip,
        sp: mc.mp.sp,
        cf: mc.mp.cf,
        il: mc.mp.il,
        sc: mc.mp.sc,
        al: mc.mp.al,
        xl: mc.mp.xl,
        yl: mc.mp.yl,
        zl: mc.mp.zl,
        ctrl: mc.mp.ctrl,
        pull: mc.mp.pull,
        ones: mc.mp.ones,
        sum: mc.mp.sum,
        nand: mc.mp.nand,
        cin: mc.mp.cin,
        cout: mc.mp.cout,
        zero: mc.mp.zero,
        mic: mc.mp.mic@,
        clk: mc.clk,
        rst: mc.rst,
        addr: mc.addr,
        data: mc.data,
        read: mc.read,
        wrt: mc.wrt,
        stdin: stdin@,
        stdout: stdout@,
        display: display@,
        controller,
    }
}

pub open spec fn spec_active(s: Signal) -> bool {
    s == Signal::Active
}

/// The next phase of the clock; held low while reset is asserted.
pub open spec fn spec_clock(s: SimState) -> SimState {
    let next = match s.clk {
        Clock::Rising => Clock::High,
        Clock::High => Clock::Falling,
        Clock::Falling => Clock::Low,
        Clock::Low => Clock::Rising,
    };
    SimState { clk: if s.rst == Reset::Asserted { Clock::Low } else { next }, ..s }
}

/// The step counter advances on the falling edge, modulo 32.
pub open spec fn spec_step_counter(s: SimState) -> SimState {
    if s.clk == Clock::Falling {
        SimState { sc: ((s.sc + 1) % 32) as u8, ..s }
    } else {
        s
    }
}

/// Where the control word stands in the microcode: by instruction (a `psh` read as `phn`),
/// carry flag and step.
pub open spec fn spec_microcode_index(s: SimState) -> int {
    spec_index(s.il, s.cf, s.sc)
}

/// Where the control word for an instruction latch, carry flag and step stands: the row of the
/// instruction, the carry flag and the step, their bits combined.
pub open spec fn spec_index(il: u8, cf: bool, sc: u8) -> int {
    let row: u16 = if il < 0x80 { (0x70 + il % 16) as u16 } else { (il - 0x80) as u16 };
    ((row << 6u16) | (if cf { 0x20u16 } else { 0u16 }) | (sc as u16)) as int
}

/// How many of the drivers of the data bus are active.
pub open spec fn spec_drivers(c: ControlWord) -> int {
    (if spec_active(c.ip_data) { 1int } else { 0int }) + (if spec_active(c.sp_data) { 1int } else { 0int })
        + (if spec_active(c.mem_data) { 1int } else { 0int }) + (if spec_active(c.sum_data) { 1int } else { 0int })
        + (if spec_active(c.nand_data) { 1int } else { 0int })
}

/// The registers: the instruction latch and step counter, the instruction pointer and the stack
/// pointer take their inputs; then the carry flag, where taking it from both or neither of sum
/// and not-and is a bus fault (the other registers have changed by then).
pub open spec fn spec_registers(s: SimState) -> (SimState, bool) {
    let rising = s.clk == Clock::Rising;
    let reset = s.rst == Reset::Asserted;
    let c = s.ctrl;
    let data0 = if spec_active(s.pull) { 0xFFu8 } else { s.data };
    let il1 = if rising && spec_active(c.data_il) { data0 } else { s.il };
    let sc1 = if spec_active(c.clr_sc) { 0u8 } else { s.sc };
    let ip1 = if rising && spec_active(c.data_ip) { data0 } else { s.ip };
    let data1 = if spec_active(c.ip_data) { ip1 } else { data0 };
    let sp1 = if rising && spec_active(c.data_sp) { data1 } else { s.sp };
    let data2 = if spec_active(c.sp_data) { sp1 } else { data1 };
    let partial = SimState {
        ones: 0xFF,
        data: data2,
        il: if reset { 0 } else { il1 },
        sc: if reset { 0 } else { sc1 },
        ip: if reset { 0 } else { ip1 },
        sp: if reset { 0 } else { sp1 },
        ..s
    };
    if rising && spec_active(c.data_cf) && spec_active(c.sum_data) == spec_active(c.nand_data) {
        (partial, true)
    } else {
        let cf1 = if rising && spec_active(c.data_cf) {
            if spec_active(c.sum_data) { s.cout } else { s.zero }
        } else {
            s.cf
        };
        (SimState { cf: if reset { false } else { cf1 }, ..partial }, false)
    }
}

/// The address latch and memory: a write on the rising edge goes to memory, to standard output
/// at address `0x00`, and to the display at `0xE0..=0xFF`; a read takes standard input (or the
/// controller state) at address `0x00`, consuming it on the rising edge.
pub open spec fn spec_memory(s: SimState) -> SimState {
    let al1 = if s.clk == Clock::Rising && spec_active(s.ctrl.data_al) { s.data } else { s.al };
    spec_memory_reset(SimState { al: al1, ..spec_memory_read(spec_memory_write(s)) })
}

/// The buses take the address latch and the memory signals; a write on the rising edge.
pub open spec fn spec_memory_write(s: SimState) -> SimState {
    let addr = s.al;
    let s1 = SimState { addr, read: s.ctrl.mem_data, wrt: s.ctrl.data_mem, ..s };
    if s.clk == Clock::Rising && spec_active(s.ctrl.data_mem) {
        SimState {
            stdout: if addr == 0 { s1.stdout.push(s.data) } else { s1.stdout },
            display: if addr >= DISPLAY_BUFFER { s1.display.update(addr - DISPLAY_BUFFER, s.data) } else { s1.display },
            mem: s1.mem.update(addr as int, s.data),
            ..s1
        }
    } else {
        s1
    }
}

/// A read from the address bus.
pub open spec fn spec_memory_read(s: SimState) -> SimState {
    if spec_active(s.read) {
        if s.addr == 0 {
            SimState {
                data: if s.stdin.len() > 0 { s.stdin[0] } else { s.controller },
                stdin: if s.clk == Clock::Rising && s.stdin.len() > 0 { s.stdin.drop_first() } else { s.stdin },
                ..s
            }
        } else {
            SimState { data: s.mem[s.addr as int], ..s }
        }
    } else {
        s
    }
}

/// Under reset: the address latch clears, standard input gets the byte at `0x00`, and the
/// display shows the display buffer.
pub open spec fn spec_memory_reset(s: SimState) -> SimState {
    if s.rst == Reset::Asserted {
        SimState {
            al: 0,
            stdin: s.stdin.push(s.mem[0]),
            display: s.mem.subrange(DISPLAY_BUFFER as int, (DISPLAY_BUFFER + DISPLAY_BUFFER_LEN) as int),
            ..s
        }
    } else {
        s
    }
}

/// The X, Y and Z latches with the adder and the not-and gate.
pub open spec fn spec_latches(s: SimState) -> SimState {
    let rising = s.clk == Clock::Rising;
    let c = s.ctrl;
    let total = s.xl + s.yl + if s.cin { 1int } else { 0int };
    let sum = (total % 256) as u8;
    let nand = !(s.yl & s.zl);
    let data1 = if spec_active(c.sum_data) { sum } else { s.data };
    let data2 = if spec_active(c.nand_data) { nand } else { data1 };
    let reset = s.rst == Reset::Asserted;
    SimState {
        sum,
        cout: total > 0xFF,
        nand,
        zero: nand == 0,
        cin: spec_active(c.set_cin),
        xl: if reset { 0 } else if rising && spec_active(c.data_xl) { s.data } else { s.xl },
        yl: if reset { 0 } else if rising && spec_active(c.data_yl) { s.data } else { s.yl },
        zl: if reset { 0 } else if rising && spec_active(c.data_zl) { s.data } else { s.zl },
        data: data2,
        ..s
    }
}

/// One clock phase: the clock and step counter advance, the control word is read from the
/// microcode (a trap word traps), the data bus is pulled up when nothing drives it (two drivers
/// are a bus fault), and the registers, memory and latches take their inputs. A rising edge
/// counts as one clock cycle.
pub open spec fn spec_sim_tick(s0: SimState) -> (SimState, Result<u128, TickTrap>) {
    let s1 = spec_step_counter(spec_clock(s0));
    match spec_u16_into_result(s1.mic[spec_microcode_index(s1)]) {
        Err(t) => (s1, Err(t)),
        Ok(ctrl) => {
            let s2 = SimState { ctrl, ..s1 };
            let n = spec_drivers(ctrl);
            if n > 1 {
                (s2, Err(TickTrap::BusFault))
            } else {
                let s3 = SimState { pull: if n == 0 { Signal::Active } else { Signal::Inactive }, ..s2 };
                let (s4, fault) = spec_registers(s3);
                if fault {
                    (s4, Err(TickTrap::BusFault))
                } else {
                    let s5 = spec_latches(spec_memory(s4));
                    (s5, Ok(if s5.clk == Clock::Rising { 1 } else { 0 }))
                }
            }
        },
    }
}

fn active(s: Signal) -> (r: bool)
    ensures
        r == spec_active(s),
{
    match s {
        Signal::Active => true,
        Signal::Inactive => false,
    }
}

/// How many drivers of the data bus a control word activates.
fn drivers_of(c: ControlWord) -> (r: u8)
    ensures
        r as int == spec_drivers(c),
{
    (if active(c.ip_data) { 1u8 } else { 0 }) + (if active(c.sp_data) { 1u8 } else { 0 })
        + (if active(c.mem_data) { 1u8 } else { 0 }) + (if active(c.sum_data) { 1u8 } else { 0 })
        + (if active(c.nand_data) { 1u8 } else { 0 })
}

impl Microcomputer {
    fn stage_clock(&mut self, stdin: &mut VecDeque<u8>,
        stdout: &mut VecDeque<u8>,
        display: &mut [u8; DISPLAY_BUFFER_LEN],
        controller: u8,)
        ensures
            spec_sim_state(*final(self), *final(stdin), *final(stdout), *final(display), controller) == spec_step_counter(spec_clock(spec_sim_state(*old(self), *old(stdin), *old(stdout), *old(display), controller))),
            *final(stdin) == *old(stdin),
            *final(stdout) == *old(stdout),
            *final(display) == *old(display),
    {
        self.clk = match self.clk {
            Clock::Rising => Clock::High,
            Clock::High => Clock::Falling,
            Clock::Falling => Clock::Low,
            Clock::Low => Clock::Rising,
        };
        if self.rst == Reset::Asserted {
            self.clk = Clock::Low;
        }
        if self.clk == Clock::Falling {
            self.mp.sc = ((self.mp.sc as u16 + 1) % 32) as u8;
        }
    }

    fn microcode_index(&self) -> (r: usize)
        ensures
            r as int == spec_index(self.mp.il, self.mp.cf, self.mp.sc),
            r < MIC_SIZE,
    {
        let row: u16 = if self.mp.il < 0x80 {
            0x70 + (self.mp.il % 16) as u16
        } else {
            (self.mp.il - 0x80) as u16
        };
        let flag: u16 = if self.mp.cf { 0x20 } else { 0 };
        let step: u16 = self.mp.sc as u16;
        let index: u16 = (row << 6u16) | flag | step;
        assert(index < 0x2000) by (bit_vector)
            requires
                row < 0x80,
                flag == 0 || flag == 0x20,
                step < 0x100,
                index == (row << 6u16) | flag | step,
        ;
        index as usize
    }

    fn drivers(&self) -> (r: u8)
        ensures
            r as int == spec_drivers(self.mp.ctrl),
    {
        drivers_of(self.mp.ctrl)
    }

    #[verifier::spinoff_prover]
    #[verifier::rlimit(100)]
    fn stage_registers(&mut self, stdin: &mut VecDeque<u8>,
        stdout: &mut VecDeque<u8>,
        display: &mut [u8; DISPLAY_BUFFER_LEN],
        controller: u8,) -> (fault: bool)
        ensures
            (spec_sim_state(*final(self), *final(stdin), *final(stdout), *final(display), controller), fault) == spec_registers(spec_sim_state(*old(self), *old(stdin), *old(stdout), *old(display), controller)),
            *final(stdin) == *old(stdin),
            *final(stdout) == *old(stdout),
            *final(display) == *old(display),
    {
        let rising = self.clk == Clock::Rising;
        let reset = self.rst == Reset::Asserted;
        let c = self.mp.ctrl;
        let data0 = if active(self.mp.pull) { 0xFFu8 } else { self.data };
        let il1 = if rising && active(c.data_il) { data0 } else { self.mp.il };
        let sc1 = if active(c.clr_sc) { 0u8 } else { self.mp.sc };
        let ip1 = if rising && active(c.data_ip) { data0 } else { self.mp.ip };
        let data1 = if active(c.ip_data) { ip1 } else { data0 };
        let sp1 = if rising && active(c.data_sp) { data1 } else { self.mp.sp };
        let data2 = if active(c.sp_data) { sp1 } else { data1 };
        let fault = rising && active(c.data_cf) && active(c.sum_data) == active(c.nand_data);
        let cf1 = if rising && active(c.data_cf) {
            if active(c.sum_data) { self.mp.cout } else { self.mp.zero }
        } else {
            self.mp.cf
        };
        self.mp.ones = 0xFF;
        self.data = data2;
        self.mp.il = if reset { 0 } else { il1 };
        self.mp.sc = if reset { 0 } else { sc1 };
        self.mp.ip = if reset { 0 } else { ip1 };
        self.mp.sp = if reset { 0 } else { sp1 };
        if !fault {
            self.mp.cf = if reset { false } else { cf1 };
        }
        fault
    }

    #[verifier::spinoff_prover]
    #[verifier::rlimit(100)]
    fn memory_write(&mut self, stdin: &mut VecDeque<u8>,
        stdout: &mut VecDeque<u8>,
        display: &mut [u8; DISPLAY_BUFFER_LEN],
        controller: u8,)
        ensures
            spec_sim_state(*final(self), *final(stdin), *final(stdout), *final(display), controller) == spec_memory_write(spec_sim_state(*old(self), *old(stdin), *old(stdout), *old(display), controller)),
            *final(stdin) == *old(stdin),
            final(self).mp.sc == old(self).mp.sc,
    {
        let c = self.mp.ctrl;
        let addr = self.mp.al;
        let data = self.data;
        self.addr = addr;
        self.read = c.mem_data;
        self.wrt = c.data_mem;
        if self.clk == Clock::Rising && active(c.data_mem) {
            if addr == 0 {
                stdout.push_back(data);
            }
            if addr as usize >= DISPLAY_BUFFER {
                display[addr as usize - DISPLAY_BUFFER] = data;
            }
            self.mem[addr as usize] = data;
        }
    }

    #[verifier::spinoff_prover]
    fn read_stdin(&mut self, stdin: &mut VecDeque<u8>,
        stdout: &mut VecDeque<u8>,
        display: &mut [u8; DISPLAY_BUFFER_LEN],
        controller: u8,)
        ensures
            spec_sim_state(*final(self), *final(stdin), *final(stdout), *final(display), controller) == ({
                let s = spec_sim_state(*old(self), *old(stdin), *old(stdout), *old(display), controller);
                SimState {
                    data: if s.stdin.len() > 0 { s.stdin[0] } else { s.controller },
                    stdin: if s.clk == Clock::Rising && s.stdin.len() > 0 { s.stdin.drop_first() } else { s.stdin },
                    ..s
                }
            }),
            *final(stdout) == *old(stdout),
            *final(display) == *old(display),
            final(self).mp.sc == old(self).mp.sc,
    {
        let v = if stdin.len() > 0 {
            stdin[0]
        } else {
            controller
        };
        if self.clk == Clock::Rising && stdin.len() > 0 {
            stdin.pop_front();
        }
        self.data = v;
    }

    #[verifier::spinoff_prover]
    fn read_memory(&mut self, stdin: &mut VecDeque<u8>,
        stdout: &mut VecDeque<u8>,
        display: &mut [u8; DISPLAY_BUFFER_LEN],
        controller: u8,)
        ensures
            spec_sim_state(*final(self), *final(stdin), *final(stdout), *final(display), controller) == ({
                let s = spec_sim_state(*old(self), *old(stdin), *old(stdout), *old(display), controller);
                SimState { data: s.mem[s.addr as int], ..s }
            }),
            *final(stdin) == *old(stdin),
            *final(stdout) == *old(stdout),
            *final(display) == *old(display),
            final(self).mp.sc == old(self).mp.sc,
    {
        self.data = self.mem[self.addr as usize];
    }

    fn memory_read(&mut self, stdin: &mut VecDeque<u8>,
        stdout: &mut VecDeque<u8>,
        display: &mut [u8; DISPLAY_BUFFER_LEN],
        controller: u8,)
        ensures
            spec_sim_state(*final(self), *final(stdin), *final(stdout), *final(display), controller) == spec_memory_read(spec_sim_state(*old(self), *old(stdin), *old(stdout), *old(display), controller)),
            *final(stdout) == *old(stdout),
            *final(display) == *old(display),
            final(self).mp.sc == old(self).mp.sc,
    {
        if active(self.read) {
            if self.addr == 0 {
                self.read_stdin(stdin, stdout, display, controller);
            } else {
                self.read_memory(stdin, stdout, display, controller);
            }
        }
    }

    fn memory_reset(&mut self, stdin: &mut VecDeque<u8>,
        stdout: &mut VecDeque<u8>,
        display: &mut [u8; DISPLAY_BUFFER_LEN],
        controller: u8,)
        ensures
            spec_sim_state(*final(self), *final(stdin), *final(stdout), *final(display), controller) == spec_memory_reset(spec_sim_state(*old(self), *old(stdin), *old(stdout), *old(display), controller)),
            *final(stdout) == *old(stdout),
            final(self).mp.sc == old(self).mp.sc,
    {
        if self.rst == Reset::Asserted {
            self.mp.al = 0;
            stdin.push_back(self.mem[0]);
            let mut i: usize = 0;
            while i < DISPLAY_BUFFER_LEN
                invariant
                    i <= DISPLAY_BUFFER_LEN,
                    self.mem@.len() == MEM_SIZE,
                    forall|j: int| 0 <= j < i ==> display@[j] == self.mem@[DISPLAY_BUFFER + j],
                decreases DISPLAY_BUFFER_LEN - i,
            {
                display[i] = self.mem[DISPLAY_BUFFER + i];
                i = i + 1;
            }
            assert(display@ =~= self.mem@.subrange(DISPLAY_BUFFER as int, (DISPLAY_BUFFER + DISPLAY_BUFFER_LEN) as int));
        }
    }

    fn stage_memory(&mut self, stdin: &mut VecDeque<u8>,
        stdout: &mut VecDeque<u8>,
        display: &mut [u8; DISPLAY_BUFFER_LEN],
        controller: u8,)
        ensures
            spec_sim_state(*final(self), *final(stdin), *final(stdout), *final(display), controller) == spec_memory(spec_sim_state(*old(self), *old(stdin), *old(stdout), *old(display), controller)),
            final(self).mp.sc == old(self).mp.sc,
    {
        let al1 = if self.clk == Clock::Rising && active(self.mp.ctrl.data_al) {
            self.data
        } else {
            self.mp.al
        };
        self.memory_write(stdin, stdout, display, controller);
        self.memory_read(stdin, stdout, display, controller);
        self.mp.al = al1;
        self.memory_reset(stdin, stdout, display, controller);
    }

    #[verifier::spinoff_prover]
    #[verifier::rlimit(100)]
    fn stage_latches(&mut self, stdin: &mut VecDeque<u8>,
        stdout: &mut VecDeque<u8>,
        display: &mut [u8; DISPLAY_BUFFER_LEN],
        controller: u8,)
        ensures
            spec_sim_state(*final(self), *final(stdin), *final(stdout), *final(display), controller) == spec_latches(spec_sim_state(*old(self), *old(stdin), *old(stdout), *old(display), controller)),
            *final(stdin) == *old(stdin),
            *final(stdout) == *old(stdout),
            *final(display) == *old(display),
            final(self).mp.sc == old(self).mp.sc,
    {
        let rising = self.clk == Clock::Rising;
        let c = self.mp.ctrl;
        let total: u16 = self.mp.xl as u16 + self.mp.yl as u16 + if self.mp.cin { 1 } else { 0 };
        let nand: u8 = !(self.mp.yl & self.mp.zl);
        self.mp.sum = (total % 256) as u8;
        self.mp.cout = total > 0xFF;
        self.mp.nand = nand;
        self.mp.zero = nand == 0;
        self.mp.cin = active(c.set_cin);
        if rising {
            if active(c.data_xl) {
                self.mp.xl = self.data;
            }
            if active(c.data_yl) {
                self.mp.yl = self.data;
            }
            if active(c.data_zl) {
                self.mp.zl = self.data;
            }
        }
        if active(c.sum_data) {
            self.data = self.mp.sum;
        }
        if active(c.nand_data) {
            self.data = self.mp.nand;
        }
        if self.rst == Reset::Asserted {
            self.mp.xl = 0;
            self.mp.yl = 0;
            self.mp.zl = 0;
        }
    }
}

/// One clock phase with reset asserted, after which reset is deasserted.
pub open spec fn spec_sim_reset(s: SimState) -> SimState {
    let (s1, _) = spec_sim_tick(SimState { rst: Reset::Asserted, ..s });
    SimState { rst: Reset::Deasserted, ..s1 }
}

/// Whether the control word that a reset reads exists and drives the data bus at most once.
pub open spec fn spec_sim_resettable(mc: Microcomputer) -> bool {
    match spec_u16_into_result(mc.mp.mic@[spec_index(mc.mp.il, mc.mp.cf, mc.mp.sc)]) {
        Ok(ctrl) => spec_drivers(ctrl) <= 1,
        Err(_) => false,
    }
}

impl Microcomputer {
    /// Whether the machine can be reset from its present state without a trap.
    pub fn can_reset(&self) -> (r: bool)
        ensures
            r == spec_sim_resettable(*self),
    {
        let index = self.microcode_index();
        match u16_into_result(self.mp.mic[index]) {
            Ok(ctrl) => drivers_of(ctrl) <= 1,
            Err(_) => false,
        }
    }
}

impl Tickable for Microcomputer {
    open spec fn resettable(&self) -> bool {
        spec_sim_resettable(*self)
    }

    /// Runs one clock phase with reset asserted: the registers and latches clear, standard input
    /// gets the byte at `0x00` and the display shows the display buffer.
    fn reset(
        &mut self,
        stdin: &mut VecDeque<u8>,
        stdout: &mut VecDeque<u8>,
        display: &mut [u8; DISPLAY_BUFFER_LEN],
        controller: &mut u8,
    )
        ensures
            *final(controller) == *old(controller),
            spec_sim_state(*final(self), *final(stdin), *final(stdout), *final(display), *old(controller))
                == spec_sim_reset(spec_sim_state(*old(self), *old(stdin), *old(stdout), *old(display), *old(controller))),
    {
        self.rst = Reset::Asserted;
        let r = self.tick(stdin, stdout, display, controller);
        assert(r is Ok);
        self.rst = Reset::Deasserted;
    }

    /// Runs one clock phase; a rising edge counts as one clock cycle.
    #[verifier::spinoff_prover]
    #[verifier::rlimit(100)]
    fn tick(
        &mut self,
        stdin: &mut VecDeque<u8>,
        stdout: &mut VecDeque<u8>,
        display: &mut [u8; DISPLAY_BUFFER_LEN],
        controller: &mut u8,
    ) -> (r: Result<u128, TickTrap>)
        ensures
            *final(controller) == *old(controller),
            (spec_sim_state(*final(self), *final(stdin), *final(stdout), *final(display), *old(controller)), r)
                == spec_sim_tick(spec_sim_state(*old(self), *old(stdin), *old(stdout), *old(display), *old(controller))),
    {
        let c = *controller;
        self.stage_clock(stdin, stdout, display, c);
        let index = self.microcode_index();
        match u16_into_result(self.mp.mic[index]) {
            Err(t) => {
                return Err(t);
            },
            Ok(ctrl) => {
                self.mp.ctrl = ctrl;
            },
        }
        let n = self.drivers();
        if n > 1 {
            return Err(TickTrap::BusFault);
        }
        self.mp.pull = if n == 0 {
            Signal::Active
        } else {
            Signal::Inactive
        };
        let fault = self.stage_registers(stdin, stdout, display, c);
        if fault {
            return Err(TickTrap::BusFault);
        }
        self.stage_memory(stdin, stdout, display, c);
        self.stage_latches(stdin, stdout, display, c);
        Ok(if self.clk == Clock::Rising {
            1
        } else {
            0
        })
    }
}

/// A phase advances the clock by one step and leaves reset alone, and counts a clock cycle
/// exactly when it rises.
proof fn lemma_tick_clock(s: SimState)
    ensures
        spec_sim_tick(s).0.clk == spec_clock(s).clk,
        spec_sim_tick(s).0.rst == s.rst,
        spec_sim_tick(s).1 is Ok ==> spec_sim_tick(s).1 == Ok::<u128, TickTrap>(if spec_clock(s).clk == Clock::Rising { 1 } else { 0 }),
{
}

/// With reset deasserted, four phases that do not trap make up exactly one clock cycle.
pub proof fn law_sim_one_cycle_per_four_phases(s0: SimState)
    requires
        s0.rst == Reset::Deasserted,
        spec_sim_tick(s0).1 is Ok,
        spec_sim_tick(spec_sim_tick(s0).0).1 is Ok,
        spec_sim_tick(spec_sim_tick(spec_sim_tick(s0).0).0).1 is Ok,
        spec_sim_tick(spec_sim_tick(spec_sim_tick(spec_sim_tick(s0).0).0).0).1 is Ok,
    ensures
        ({
            let s1 = spec_sim_tick(s0);
            let s2 = spec_sim_tick(s1.0);
            let s3 = spec_sim_tick(s2.0);
            let s4 = spec_sim_tick(s3.0);
            s1.1->Ok_0 + s2.1->Ok_0 + s3.1->Ok_0 + s4.1->Ok_0 == 1
        }),
{
    let s1 = spec_sim_tick(s0);
    let s2 = spec_sim_tick(s1.0);
    let s3 = spec_sim_tick(s2.0);
    lemma_tick_clock(s0);
    lemma_tick_clock(s1.0);
    lemma_tick_clock(s2.0);
    lemma_tick_clock(s3.0);
}

} // verus!
