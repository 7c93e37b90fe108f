//! An emulator for the work-pointer variant of the instruction set: besides the instruction and
//! stack pointers, a work pointer `WP` names the operand of unary operations and the second
//! operand of binary ones. Popping writes zero where the top of the stack was.

use vstd::prelude::*;
use crate::cc::literal::{lower_hex_digit, spec_lower_hex_digit};
use crate::common::{DISPLAY_BUFFER_LEN, MEM_SIZE};
use crate::render::{push_display_line, spec_display_blocks};
use crate::text::string_from_chars;

verus! {

/// The state of the machine: 256 bytes of memory, the stack, work and instruction pointers,
/// and the carry and debug flags.
pub struct WpMachine {
    pub memory: Vec<u8>,
    pub sp: u8,
    pub wp: u8,
    pub ip: u8,
    pub cf: bool,
    pub debug: bool,
}

/// The state of the machine, its memory taken as a sequence.
pub struct WpState {
    pub memory: Seq<u8>,
    pub sp: u8,
    pub wp: u8,
    pub ip: u8,
    pub cf: bool,
    pub debug: bool,
}

impl View for WpMachine {
    type V = WpState;

    open spec fn view(&self) -> WpState {
        WpState { memory: self.memory@, sp: self.sp, wp: self.wp, ip: self.ip, cf: self.cf, debug: self.debug }
    }
}

/// Whether the memory of a state has its 256 bytes.
pub open spec fn spec_wp_wf(s: WpState) -> bool {
    s.memory.len() == 256
}

/// `a + 1` modulo 256.
pub open spec fn spec_up(a: u8) -> u8 {
    ((a + 1) % 256) as u8
}

/// `a - 1` modulo 256.
pub open spec fn spec_down(a: u8) -> u8 {
    ((a + 255) % 256) as u8
}

/// Whether an opcode is an instruction: the machine stops on any other.
pub open spec fn spec_wp_known(op: u8) -> bool {
    ||| op == 0x80 || op == 0x81 || op == 0x83 || op == 0x84 || op == 0x85 || op == 0x88
    ||| 0xA0 <= op <= 0xAA
    ||| 0x90 <= op <= 0x9B
    ||| op < 0x80
    ||| op >= 0xC0
}

/// A binary operation: pop `a` (writing zero), move `WP` up and store `f(a, b)` where `b` was,
/// at the new `WP`, with carry `c(a, b)`.
pub open spec fn spec_binary(s: WpState, result: u8, carry: bool) -> WpState {
    let m = s.memory.update(s.sp as int, 0);
    let wp = spec_up(s.wp);
    WpState { memory: m.update(wp as int, result), sp: spec_up(s.sp), wp, cf: carry, ..s }
}

/// Pushing a byte: both pointers move down and the byte goes to the new top of the stack.
pub open spec fn spec_push(s: WpState, value: u8) -> WpState {
    let sp = spec_down(s.sp);
    WpState { memory: s.memory.update(sp as int, value), sp, wp: spec_down(s.wp), ..s }
}

/// The state after the instruction at `IP` and whether the machine halted; `IP` has moved past
/// the opcode.
pub open spec fn spec_wp_step(s0: WpState) -> (WpState, bool) {
    spec_wp_execute(WpState { ip: spec_up(s0.ip), ..s0 }, s0.memory[s0.ip as int])
}

/// Executing the instruction `op`, `IP` having moved past it.
pub open spec fn spec_wp_execute(s: WpState, op: u8) -> (WpState, bool) {
    let m = s.memory;
    let top = m[s.sp as int];
    let work = m[s.wp as int];
    let second = m[spec_up(s.wp) as int];
    let cf: u8 = if s.cf { 1 } else { 0 };
    if op == 0x80 {
        (s, false)
    } else if op == 0x81 {
        (s, true)
    } else if op == 0x88 {
        (WpState { debug: true, ..s }, false)
    } else if op == 0x83 {
        (WpState { cf: false, ..s }, false)
    } else if op == 0x84 {
        (WpState { cf: true, ..s }, false)
    } else if op == 0x85 {
        (WpState { cf: !s.cf, ..s }, false)
    } else if op == 0xA0 {
        (WpState { memory: m.update(s.wp as int, spec_up(work)), ..s }, false)
    } else if op == 0xA1 {
        (WpState { memory: m.update(s.wp as int, spec_down(work)), ..s }, false)
    } else if op == 0xA2 {
        let b = m.update(s.sp as int, 0)[spec_up(s.wp) as int];
        let sum = b + top + cf;
        (spec_binary(s, (sum % 256) as u8, sum > 0xFF), false)
    } else if op == 0xA3 {
        let b = m.update(s.sp as int, 0)[spec_up(s.wp) as int];
        let diff = b - top - cf;
        (spec_binary(s, (diff % 256) as u8, diff > 0xFF), false)
    } else if op == 0xA4 {
        (WpState { memory: m.update(s.wp as int, (((work * 2) % 256) as u8 | cf) as u8), cf: work >= 0x80, ..s }, false)
    } else if op == 0xA5 {
        (WpState { memory: m.update(s.wp as int, (work / 2) as u8 | cf), cf: work % 2 == 1, ..s }, false)
    } else if op == 0xA6 {
        let b = m.update(s.sp as int, 0)[spec_up(s.wp) as int];
        (spec_binary(s, top | b, (top | b) == 0), false)
    } else if op == 0xA7 {
        let b = m.update(s.sp as int, 0)[spec_up(s.wp) as int];
        (spec_binary(s, top & b, (top & b) == 0), false)
    } else if op == 0xA8 {
        let b = m.update(s.sp as int, 0)[spec_up(s.wp) as int];
        (spec_binary(s, top ^ b, (top ^ b) == 0), false)
    } else if op == 0xA9 {
        (spec_binary(s, 0, true), false)
    } else if op == 0xAA {
        let r = (255 - work) as u8;
        (WpState { memory: m.update(s.wp as int, r), cf: r == 0, ..s }, false)
    } else if op == 0x90 {
        let m1 = m.update(s.sp as int, 0);
        let sp = spec_up(s.sp);
        let b = m1[sp as int];
        (WpState { memory: m1.update(sp as int, if s.cf { top } else { b }), sp, wp: spec_up(s.wp), cf: false, ..s }, false)
    } else if op == 0x91 {
        let b = second;
        let m1 = m.update(spec_up(s.wp) as int, top);
        (WpState { memory: m1.update(s.wp as int, b), ..s }, false)
    } else if op == 0x92 {
        (spec_push(s, work), false)
    } else if op == 0x93 {
        let m1 = m.update(s.sp as int, 0);
        let wp = spec_up(s.wp);
        (WpState { memory: m1.update(wp as int, top), sp: spec_up(s.sp), wp, ..s }, false)
    } else if op == 0x94 {
        (WpState { memory: m.update(s.sp as int, 0), sp: spec_up(s.sp), wp: spec_up(s.wp), ..s }, false)
    } else if op < 0x40 || op >= 0xC0 {
        (spec_push(s, op), false)
    } else if op == 0x95 {
        let a = m[s.ip as int];
        (spec_push(WpState { ip: spec_up(s.ip), ..s }, a), false)
    } else if op < 0x80 {
        (WpState { wp: ((s.sp + op % 64) % 256) as u8, ..s }, false)
    } else if op == 0x96 {
        (spec_push(s, s.ip), false)
    } else if op == 0x97 {
        (WpState { ip: top, memory: m.update(s.sp as int, 0), sp: spec_up(s.sp), wp: spec_up(s.wp), ..s }, false)
    } else if op == 0x98 {
        (spec_push(s, spec_down(s.wp)), false)
    } else if op == 0x99 {
        (WpState { wp: top, memory: m.update(s.sp as int, 0), sp: spec_up(s.sp), ..s }, false)
    } else if op == 0x9A {
        (spec_push(s, spec_down(s.sp)), false)
    } else {
        (WpState { sp: top, memory: m.update(top as int, 0), ..s }, false)
    }
}

fn up(a: u8) -> (r: u8)
    ensures
        r == spec_up(a),
{
    if a == 255 { 0 } else { a + 1 }
}

fn down(a: u8) -> (r: u8)
    ensures
        r == spec_down(a),
{
    if a == 0 { 255 } else { a - 1 }
}

impl WpMachine {
    /// Pushes a byte.
    fn push(&mut self, value: u8)
        requires
            spec_wp_wf(old(self)@),
        ensures
            final(self)@ == spec_push(old(self)@, value),
    {
        self.sp = down(self.sp);
        self.wp = down(self.wp);
        self.memory.set(self.sp as usize, value);
    }

    /// Pops the top of the stack for a binary operation: writes zero there and moves both
    /// pointers up; returns the popped byte and the byte now at `WP`.
    fn pop_operands(&mut self) -> (r: (u8, u8))
        requires
            spec_wp_wf(old(self)@),
        ensures
            r.0 == old(self)@.memory[old(self)@.sp as int],
            r.1 == old(self)@.memory.update(old(self)@.sp as int, 0)[spec_up(old(self)@.wp) as int],
            final(self)@ == (WpState {
                memory: old(self)@.memory.update(old(self)@.sp as int, 0),
                sp: spec_up(old(self)@.sp),
                wp: spec_up(old(self)@.wp),
                ..old(self)@
            }),
    {
        let a = self.memory[self.sp as usize];
        self.memory.set(self.sp as usize, 0);
        self.sp = up(self.sp);
        self.wp = up(self.wp);
        let b = self.memory[self.wp as usize];
        (a, b)
    }

    /// Executes a flag instruction, `nop` or `hlt`.
    fn execute_control(&mut self, op: u8) -> (halted: bool)
        requires
            spec_wp_wf(old(self)@),
            op == 0x80 || op == 0x81 || op == 0x83 || op == 0x84 || op == 0x85 || op == 0x88,
        ensures
            spec_wp_wf(final(self)@),
            (final(self)@, halted) == spec_wp_execute(old(self)@, op),
    {
        if op == 0x81 {
            return true;
        } else if op == 0x88 {
            self.debug = true;
        } else if op == 0x83 {
            self.cf = false;
        } else if op == 0x84 {
            self.cf = true;
        } else if op == 0x85 {
            self.cf = !self.cf;
        }
        false
    }

    /// Executes a unary instruction on the byte at `WP`.
    fn execute_unary(&mut self, op: u8)
        requires
            spec_wp_wf(old(self)@),
            op == 0xA0 || op == 0xA1 || op == 0xA4 || op == 0xA5 || op == 0xAA,
        ensures
            spec_wp_wf(final(self)@),
            (final(self)@, false) == spec_wp_execute(old(self)@, op),
    {
        let cf: u8 = if self.cf { 1 } else { 0 };
        let wp = self.wp as usize;
        let a = self.memory[wp];
        if op == 0xA0 {
            self.memory.set(wp, up(a));
        } else if op == 0xA1 {
            self.memory.set(wp, down(a));
        } else if op == 0xA4 {
            let r: u8 = ((a % 128) * 2) | cf;
            assert(((a * 2) % 256) as u8 == (a % 128) * 2);
            self.memory.set(wp, r);
            self.cf = a >= 0x80;
        } else if op == 0xA5 {
            self.memory.set(wp, (a / 2) | cf);
            self.cf = a % 2 == 1;
        } else {
            let r: u8 = 255 - a;
            self.memory.set(wp, r);
            self.cf = r == 0;
        }
    }

    /// Executes `add` or `sub` on the popped byte and the byte at the new `WP`.
    fn execute_arithmetic(&mut self, op: u8)
        requires
            spec_wp_wf(old(self)@),
            op == 0xA2 || op == 0xA3,
        ensures
            spec_wp_wf(final(self)@),
            (final(self)@, false) == spec_wp_execute(old(self)@, op),
    {
        let cf: u8 = if self.cf { 1 } else { 0 };
        let (a, b) = self.pop_operands();
        let wp = self.wp as usize;
        if op == 0xA2 {
            let sum: u16 = b as u16 + a as u16 + cf as u16;
            self.memory.set(wp, (sum % 256) as u8);
            self.cf = sum > 0xFF;
        } else {
            let r: u16 = (b as u16 + 512 - a as u16 - cf as u16) % 256;
            assert(r == (b - a - cf) % 256) by (nonlinear_arith)
                requires
                    r == (b as u16 + 512 - a as u16 - cf as u16) % 256,
                    cf <= 1,
            ;
            self.memory.set(wp, r as u8);
            self.cf = false;
        }
    }

    /// Executes `oor`, `and`, `xor` or `xnd` on the popped byte and the byte at the new `WP`.
    fn execute_logical(&mut self, op: u8)
        requires
            spec_wp_wf(old(self)@),
            op == 0xA6 || op == 0xA7 || op == 0xA8 || op == 0xA9,
        ensures
            spec_wp_wf(final(self)@),
            (final(self)@, false) == spec_wp_execute(old(self)@, op),
    {
        let (a, b) = self.pop_operands();
        let wp = self.wp as usize;
        let r: u8 = if op == 0xA6 {
            a | b
        } else if op == 0xA7 {
            a & b
        } else if op == 0xA8 {
            a ^ b
        } else {
            0
        };
        self.memory.set(wp, r);
        self.cf = r == 0;
    }

    /// Executes `iif`, `swp`, `dup`, `str` or `pop`.
    fn execute_stack(&mut self, op: u8)
        requires
            spec_wp_wf(old(self)@),
            0x90 <= op <= 0x94,
        ensures
            spec_wp_wf(final(self)@),
            (final(self)@, false) == spec_wp_execute(old(self)@, op),
    {
        let sp = self.sp as usize;
        let wp = self.wp as usize;
        if op == 0x90 {
            let a = self.memory[sp];
            self.memory.set(sp, 0);
            self.sp = up(self.sp);
            self.wp = up(self.wp);
            let b = self.memory[self.sp as usize];
            self.memory.set(self.sp as usize, if self.cf { a } else { b });
            self.cf = false;
        } else if op == 0x91 {
            let a = self.memory[sp];
            let w2 = up(self.wp) as usize;
            let b = self.memory[w2];
            self.memory.set(w2, a);
            self.memory.set(wp, b);
        } else if op == 0x92 {
            let a = self.memory[wp];
            self.push(a);
        } else if op == 0x93 {
            let a = self.memory[sp];
            self.memory.set(sp, 0);
            self.sp = up(self.sp);
            self.wp = up(self.wp);
            self.memory.set(self.wp as usize, a);
        } else {
            self.memory.set(sp, 0);
            self.sp = up(self.sp);
            self.wp = up(self.wp);
        }
    }

    /// Executes a push, `@WW`, or an instruction on the pointers.
    fn execute_pointers(&mut self, op: u8)
        requires
            spec_wp_wf(old(self)@),
            op < 0x80 || op >= 0xC0 || 0x95 <= op <= 0x9B,
        ensures
            spec_wp_wf(final(self)@),
            (final(self)@, false) == spec_wp_execute(old(self)@, op),
    {
        let sp = self.sp as usize;
        if op < 0x40 || op >= 0xC0 {
            self.push(op);
        } else if op == 0x95 {
            let a = self.memory[self.ip as usize];
            self.ip = up(self.ip);
            self.push(a);
        } else if op < 0x80 {
            self.wp = ((self.sp as u16 + (op % 64) as u16) % 256) as u8;
        } else if op == 0x96 {
            let ip = self.ip;
            self.push(ip);
        } else if op == 0x97 {
            let a = self.memory[sp];
            self.ip = a;
            self.memory.set(sp, 0);
            self.sp = up(self.sp);
            self.wp = up(self.wp);
        } else if op == 0x98 {
            let w = down(self.wp);
            self.push(w);
        } else if op == 0x99 {
            let a = self.memory[sp];
            self.wp = a;
            self.memory.set(sp, 0);
            self.sp = up(self.sp);
        } else if op == 0x9A {
            let s2 = down(self.sp);
            self.push(s2);
        } else {
            let a = self.memory[sp];
            self.sp = a;
            self.memory.set(a as usize, 0);
        }
    }

    /// Executes the instruction at `IP`; returns whether the machine halted.
    pub fn step(&mut self) -> (halted: bool)
        requires
            spec_wp_wf(old(self)@),
            spec_wp_known(old(self)@.memory[old(self)@.ip as int]),
        ensures
            spec_wp_wf(final(self)@),
            final(self)@ == spec_wp_step(old(self)@).0,
            halted == spec_wp_step(old(self)@).1,
    {
        let op = self.memory[self.ip as usize];
        self.ip = up(self.ip);
        if op == 0x80 || op == 0x81 || op == 0x83 || op == 0x84 || op == 0x85 || op == 0x88 {
            self.execute_control(op)
        } else if op == 0xA0 || op == 0xA1 || op == 0xA4 || op == 0xA5 || op == 0xAA {
            self.execute_unary(op);
            false
        } else if op == 0xA2 || op == 0xA3 {
            self.execute_arithmetic(op);
            false
        } else if 0xA6 <= op && op <= 0xA9 {
            self.execute_logical(op);
            false
        } else if 0x90 <= op && op <= 0x94 {
            self.execute_stack(op);
            false
        } else {
            self.execute_pointers(op);
            false
        }
    }
}

/// Whether an opcode is an instruction.
pub fn known(op: u8) -> (r: bool)
    ensures
        r == spec_wp_known(op),
{
    op == 0x80 || op == 0x81 || op == 0x83 || op == 0x84 || op == 0x85 || op == 0x88 || (0xA0 <= op
        && op <= 0xAA) || (0x90 <= op && op <= 0x9B) || op < 0x80 || op >= 0xC0
}

/// A frame line of the display: a corner, eighteen dashes and a corner.
pub open spec fn spec_wp_frame(corner: char) -> Seq<char> {
    seq![corner] + Seq::new(18, |_i: int| '-') + seq![corner, '\n']
}

/// The first `n` lines of the display, each between bars.
pub open spec fn spec_wp_display_lines(display: Seq<u8>, n: nat) -> Seq<char>
    decreases n,
{
    if n == 0 {
        Seq::empty()
    } else {
        spec_wp_display_lines(display, (n - 1) as nat) + seq!['|', ' '] + spec_display_blocks(display, n - 1, 16)
            + seq![' ', '|', '\n']
    }
}

/// The rendering of the display: eight lines of half-block characters in a frame.
pub open spec fn spec_render_wp_display(display: Seq<u8>) -> Seq<char> {
    spec_wp_frame('.') + spec_wp_display_lines(display, 8) + spec_wp_frame('\'')
}

fn push_frame(out: &mut Vec<char>, corner: char)
    ensures
        final(out)@ == old(out)@ + spec_wp_frame(corner),
{
    let ghost start = out@;
    out.push(corner);
    let mut i: usize = 0;
    while i < 18
        invariant
            i <= 18,
            out@ == start + seq![corner] + Seq::new(i as nat, |_i: int| '-'),
        decreases 18 - i,
    {
        out.push('-');
        i = i + 1;
        assert(out@ =~= start + seq![corner] + Seq::new(i as nat, |_i: int| '-'));
    }
    out.push(corner);
    out.push('\n');
    assert(out@ =~= start + spec_wp_frame(corner));
}

/// Renders the display as eight lines of half-block characters, two pixel rows per line, in
/// a frame of dashes and bars.
pub fn render_wp_display(display: &[u8; DISPLAY_BUFFER_LEN]) -> (r: String)
    ensures
        r@ == spec_render_wp_display(display@),
{
    let mut out: Vec<char> = Vec::new();
    push_frame(&mut out, '.');
    let ghost top = out@;
    let mut line: usize = 0;
    while line < 8
        invariant
            line <= 8,
            top == spec_wp_frame('.'),
            out@ == top + spec_wp_display_lines(display@, line as nat),
        decreases 8 - line,
    {
        let ghost before = out@;
        out.push('|');
        out.push(' ');
        push_display_line(&mut out, display, line);
        out.push(' ');
        out.push('|');
        out.push('\n');
        line = line + 1;
        assert(out@ =~= top + spec_wp_display_lines(display@, line as nat));
    }
    push_frame(&mut out, '\'');
    string_from_chars(&out)
}

/// The first `n` bytes of row `y` of memory, each as two lowercase hexadecimal digits and a
/// space.
pub open spec fn spec_wp_memory_row(memory: Seq<u8>, y: int, n: nat) -> Seq<char>
    decreases n,
{
    if n == 0 {
        Seq::empty()
    } else {
        let b = memory[16 * y + n - 1];
        spec_wp_memory_row(memory, y, (n - 1) as nat) + seq![
            spec_lower_hex_digit((b / 16) as int),
            spec_lower_hex_digit((b % 16) as int),
            ' ',
        ]
    }
}

/// The first `n` rows of memory, each ending a line.
pub open spec fn spec_wp_memory_rows(memory: Seq<u8>, n: nat) -> Seq<char>
    decreases n,
{
    if n == 0 {
        Seq::empty()
    } else {
        spec_wp_memory_rows(memory, (n - 1) as nat) + spec_wp_memory_row(memory, n - 1, 16) + seq!['\n']
    }
}

/// Renders memory as sixteen rows of sixteen bytes in lowercase hexadecimal.
pub fn render_wp_memory(memory: &[u8; MEM_SIZE]) -> (r: String)
    ensures
        r@ == spec_wp_memory_rows(memory@, 16),
{
    let mut out: Vec<char> = Vec::new();
    let mut y: usize = 0;
    while y < 16
        invariant
            y <= 16,
            memory@.len() == MEM_SIZE,
            out@ == spec_wp_memory_rows(memory@, y as nat),
        decreases 16 - y,
    {
        let ghost start = out@;
        let mut x: usize = 0;
        while x < 16
            invariant
                x <= 16,
                y < 16,
                memory@.len() == MEM_SIZE,
                out@ == start + spec_wp_memory_row(memory@, y as int, x as nat),
            decreases 16 - x,
        {
            let b = memory[16 * y + x];
            out.push(lower_hex_digit(b / 16));
            out.push(lower_hex_digit(b % 16));
            out.push(' ');
            x = x + 1;
            assert(out@ =~= start + spec_wp_memory_row(memory@, y as int, x as nat));
        }
        out.push('\n');
        y = y + 1;
        assert(out@ =~= spec_wp_memory_rows(memory@, y as nat));
    }
    string_from_chars(&out)
}

} // verus!
