//! Text renderings of the machine state for a terminal: memory, display and controller.

use vstd::prelude::*;
use crate::common::{ControlWord, Signal, DISPLAY_BUFFER_LEN, MEM_SIZE};
use crate::emu;
use crate::sim;
use crate::text::{push_hex2, push_str, spec_hex2, string_chars, string_from_chars};

verus! {

/// The marker after a memory cell: the top of the stack (showing the carry flag), then the
/// cells before and at the instruction pointer.
pub open spec fn spec_memory_marker(a: u8, ip: u8, sp: u8, cf: bool) -> char {
    if a as int == (sp as int + 255) % 256 {
        if cf {
            '/'
        } else {
            '|'
        }
    } else if a as int == (ip as int + 255) % 256 {
        '['
    } else if a == ip {
        ']'
    } else {
        ' '
    }
}

/// A memory cell: its byte in hexadecimal and its marker.
pub open spec fn spec_memory_cell(mem: Seq<u8>, a: int, ip: u8, sp: u8, cf: bool) -> Seq<char> {
    spec_hex2(mem[a]).push(spec_memory_marker(a as u8, ip, sp, cf))
}

/// The cells `from..from + n`.
pub open spec fn spec_memory_cells(mem: Seq<u8>, from: int, n: nat, ip: u8, sp: u8, cf: bool) -> Seq<
    char,
>
    decreases n,
{
    if n == 0 {
        Seq::empty()
    } else {
        spec_memory_cells(mem, from, (n - 1) as nat, ip, sp, cf) + spec_memory_cell(
            mem,
            from + n - 1,
            ip,
            sp,
            cf,
        )
    }
}

/// The first `n` rows of sixteen cells, each ending a line.
pub open spec fn spec_memory_rows(mem: Seq<u8>, n: nat, ip: u8, sp: u8, cf: bool) -> Seq<char>
    decreases n,
{
    if n == 0 {
        Seq::empty()
    } else {
        spec_memory_rows(mem, (n - 1) as nat, ip, sp, cf) + spec_memory_cells(
            mem,
            16 * (n - 1),
            16,
            ip,
            sp,
            cf,
        ) + seq!['\r', '\n']
    }
}

/// The rendering of memory: a heading, then sixteen rows of sixteen cells.
pub open spec fn spec_render_memory(mem: Seq<u8>, ip: u8, sp: u8, cf: bool) -> Seq<char> {
    seq!['M', 'E', 'M', '\r', '\n'] + spec_memory_rows(mem, 16, ip, sp, cf)
}

/// Renders memory as sixteen rows of sixteen hexadecimal bytes, marking the top of the stack
/// (`/` with the carry flag set, `|` without) and the instruction pointer (`[` before, `]` at).
pub fn render_memory(memory: &[u8; MEM_SIZE], ip: u8, sp: u8, cf: bool) -> (r: String)
    ensures
        r@ == spec_render_memory(memory@, ip, sp, cf),
{
    let mut out: Vec<char> = vec!['M', 'E', 'M', '\r', '\n'];
    let ghost mem = memory@;
    let mut y: usize = 0;
    while y < 16
        invariant
            y <= 16,
            mem == memory@,
            mem.len() == MEM_SIZE,
            out@ == seq!['M', 'E', 'M', '\r', '\n'] + spec_memory_rows(mem, y as nat, ip, sp, cf),
        decreases 16 - y,
    {
        let ghost before = out@;
        let mut x: usize = 0;
        while x < 16
            invariant
                x <= 16,
                y < 16,
                mem == memory@,
                mem.len() == MEM_SIZE,
                out@ == before + spec_memory_cells(mem, 16 * y as int, x as nat, ip, sp, cf),
            decreases 16 - x,
        {
            let address: u8 = (y * 16 + x) as u8;
            push_hex2(&mut out, memory[address as usize]);
            let marker = if address as u16 == (sp as u16 + 255) % 256 {
                if cf {
                    '/'
                } else {
                    '|'
                }
            } else if address as u16 == (ip as u16 + 255) % 256 {
                '['
            } else if address == ip {
                ']'
            } else {
                ' '
            };
            out.push(marker);
            x = x + 1;
            assert(out@ == before + spec_memory_cells(mem, 16 * y as int, x as nat, ip, sp, cf));
        }
        out.push('\r');
        out.push('\n');
        y = y + 1;
        assert(out@ == seq!['M', 'E', 'M', '\r', '\n'] + spec_memory_rows(mem, y as nat, ip, sp, cf));
    }
    string_from_chars(&out)
}

/// The pixel at column `x` and row `y` of the 16-by-16 display: bit `7 - x % 8` of byte
/// `x / 8 + 2 * y`.
pub open spec fn spec_pixel(display: Seq<u8>, x: int, y: int) -> u8 {
    (display[x / 8 + 2 * y] >> (7 - x % 8) as u8) & 1
}

/// The block character for two vertically adjacent pixels.
pub open spec fn spec_block(upper: u8, lower: u8) -> char {
    if upper == 0 && lower == 0 {
        ' '
    } else if lower == 0 {
        '\u{2580}'
    } else if upper == 0 {
        '\u{2584}'
    } else {
        '\u{2588}'
    }
}

/// The blocks of columns `0..n` of the line showing rows `2 * line` and `2 * line + 1`.
pub open spec fn spec_display_blocks(display: Seq<u8>, line: int, n: nat) -> Seq<char>
    decreases n,
{
    if n == 0 {
        Seq::empty()
    } else {
        spec_display_blocks(display, line, (n - 1) as nat).push(
            spec_block(
                spec_pixel(display, n - 1, 2 * line),
                spec_pixel(display, n - 1, 2 * line + 1),
            ),
        )
    }
}

/// The first `n` lines of the display, each framed by spaces and ending a line.
pub open spec fn spec_display_lines(display: Seq<u8>, n: nat) -> Seq<char>
    decreases n,
{
    if n == 0 {
        Seq::empty()
    } else {
        spec_display_lines(display, (n - 1) as nat) + seq![' '] + spec_display_blocks(
            display,
            n - 1,
            16,
        ) + seq![' ', '\r', '\n']
    }
}

/// The top and bottom frame line of the display.
pub open spec fn spec_display_frame() -> Seq<char> {
    seq!['\u{25aa}'] + Seq::new(16, |_i: int| ' ') + seq!['\u{25aa}', '\r', '\n']
}

/// The rendering of the display: a frame line, eight lines of half-block characters, a frame
/// line and an empty line.
pub open spec fn spec_render_display(display: Seq<u8>) -> Seq<char> {
    spec_display_frame() + spec_display_lines(display, 8) + spec_display_frame() + seq!['\r', '\n']
}

fn push_frame(out: &mut Vec<char>)
    ensures
        final(out)@ == old(out)@ + spec_display_frame(),
{
    let ghost start = out@;
    out.push('\u{25aa}');
    let mut i: usize = 0;
    while i < 16
        invariant
            i <= 16,
            out@ == start + seq!['\u{25aa}'] + Seq::new(i as nat, |_i: int| ' '),
        decreases 16 - i,
    {
        out.push(' ');
        i = i + 1;
        assert(out@ == start + seq!['\u{25aa}'] + Seq::new(i as nat, |_i: int| ' '));
    }
    out.push('\u{25aa}');
    out.push('\r');
    out.push('\n');
    assert(out@ == start + spec_display_frame());
}

/// Appends the half-block characters of one line of the display.
pub(crate) fn push_display_line(out: &mut Vec<char>, display: &[u8; DISPLAY_BUFFER_LEN], line: usize)
    requires
        line < 8,
    ensures
        final(out)@ == old(out)@ + spec_display_blocks(display@, line as int, 16),
{
    let ghost d = display@;
    let ghost before = out@;
    let mut x: usize = 0;
    while x < 16
        invariant
            x <= 16,
            line < 8,
            d == display@,
            d.len() == DISPLAY_BUFFER_LEN,
            out@ == before + spec_display_blocks(d, line as int, x as nat),
        decreases 16 - x,
    {
        let shift: u8 = (7 - x % 8) as u8;
        let upper = (display[x / 8 + 2 * (2 * line)] >> shift) & 1;
        let lower = (display[x / 8 + 2 * (2 * line + 1)] >> shift) & 1;
        let block = if upper == 0 && lower == 0 {
            ' '
        } else if lower == 0 {
            '\u{2580}'
        } else if upper == 0 {
            '\u{2584}'
        } else {
            '\u{2588}'
        };
        out.push(block);
        x = x + 1;
    }
}

/// Renders the display as eight lines of half-block characters, two pixel rows per line,
/// framed.
pub fn render_display(display: &[u8; DISPLAY_BUFFER_LEN]) -> (r: String)
    ensures
        r@ == spec_render_display(display@),
{
    let ghost d = display@;
    let mut out: Vec<char> = Vec::new();
    push_frame(&mut out);
    let ghost top = out@;
    let mut line: usize = 0;
    while line < 8
        invariant
            line <= 8,
            d == display@,
            d.len() == DISPLAY_BUFFER_LEN,
            top == spec_display_frame(),
            out@ == top + spec_display_lines(d, line as nat),
        decreases 8 - line,
    {
        out.push(' ');
        push_display_line(&mut out, display, line);
        out.push(' ');
        out.push('\r');
        out.push('\n');
        line = line + 1;
        assert(out@ == top + spec_display_lines(d, line as nat));
    }
    push_frame(&mut out);
    out.push('\r');
    out.push('\n');
    string_from_chars(&out)
}

/// The two characters showing a controller button: light shade when released, full block when
/// pressed.
pub open spec fn spec_button(controller: u8, bit: u8) -> Seq<char> {
    if (controller >> bit) & 1 == 0 {
        seq!['\u{2591}', '\u{2591}']
    } else {
        seq!['\u{2588}', '\u{2588}']
    }
}

pub open spec fn spec_spaces(n: nat) -> Seq<char> {
    Seq::new(n, |_i: int| ' ')
}

/// The rendering of the controller: the two D-pads side by side, up above, left and right in
/// the middle, down below.
pub open spec fn spec_render_controller(c: u8) -> Seq<char> {
    spec_spaces(4) + spec_button(c, 0) + spec_spaces(6) + spec_button(c, 4) + spec_spaces(4)
        + seq!['\r', '\n'] + spec_spaces(2) + spec_button(c, 2) + spec_spaces(2) + spec_button(c, 3)
        + spec_spaces(2) + spec_button(c, 6) + spec_spaces(2) + spec_button(c, 7) + spec_spaces(2)
        + seq!['\r', '\n'] + spec_spaces(4) + spec_button(c, 1) + spec_spaces(6) + spec_button(c, 5)
        + spec_spaces(4) + seq!['\r', '\n']
}

fn push_spaces(out: &mut Vec<char>, n: usize)
    ensures
        final(out)@ == old(out)@ + spec_spaces(n as nat),
{
    let ghost start = out@;
    let mut i: usize = 0;
    while i < n
        invariant
            i <= n,
            out@ == start + spec_spaces(i as nat),
        decreases n - i,
    {
        out.push(' ');
        i = i + 1;
        assert(out@ == start + spec_spaces(i as nat));
    }
}

fn push_button(out: &mut Vec<char>, controller: u8, bit: u8)
    requires
        bit < 8,
    ensures
        final(out)@ == old(out)@ + spec_button(controller, bit),
{
    if (controller >> bit) & 1 == 0 {
        out.push('\u{2591}');
        out.push('\u{2591}');
    } else {
        out.push('\u{2588}');
        out.push('\u{2588}');
    }
}

/// Renders the controller state: each of the eight buttons as two characters.
#[verifier::spinoff_prover]
#[verifier::rlimit(50)]
pub fn render_controller(controller: &u8) -> (r: String)
    ensures
        r@ == spec_render_controller(*controller),
{
    let c = *controller;
    let mut out: Vec<char> = Vec::new();
    push_spaces(&mut out, 4);
    push_button(&mut out, c, 0);
    push_spaces(&mut out, 6);
    push_button(&mut out, c, 4);
    push_spaces(&mut out, 4);
    out.push('\r');
    out.push('\n');
    push_spaces(&mut out, 2);
    push_button(&mut out, c, 2);
    push_spaces(&mut out, 2);
    push_button(&mut out, c, 3);
    push_spaces(&mut out, 2);
    push_button(&mut out, c, 6);
    push_spaces(&mut out, 2);
    push_button(&mut out, c, 7);
    push_spaces(&mut out, 2);
    out.push('\r');
    out.push('\n');
    push_spaces(&mut out, 4);
    push_button(&mut out, c, 1);
    push_spaces(&mut out, 6);
    push_button(&mut out, c, 5);
    push_spaces(&mut out, 4);
    out.push('\r');
    out.push('\n');
    string_from_chars(&out)
}


/// A flag as one digit.
pub open spec fn spec_bit(b: bool) -> Seq<char> {
    if b { seq!['1'] } else { seq!['0'] }
}

fn push_bit(out: &mut Vec<char>, b: bool)
    ensures
        final(out)@ == old(out)@ + spec_bit(b),
{
    out.push(if b { '1' } else { '0' });
}

/// The state of the instruction-level machine: its registers, then its memory.
pub open spec fn spec_render_emu_state(mem: Seq<u8>, ip: u8, sp: u8, cf: bool) -> Seq<char> {
    "IP  SP  CF\r\n"@ + spec_hex2(ip) + "  "@ + spec_hex2(sp) + "  "@ + spec_bit(cf) + " \r\n\r\n"@
        + spec_render_memory(mem, ip, sp, cf)
}

/// The state of the instruction-level machine: its registers, then its memory.
pub fn render_emu_state(mc: &emu::Microcomputer) -> (r: String)
    ensures
        r@ == spec_render_emu_state(mc.mem@, mc.mp.ip, mc.mp.sp, mc.mp.cf),
{
    let mut out: Vec<char> = Vec::new();
    push_str(&mut out, "IP  SP  CF\r\n");
    push_hex2(&mut out, mc.mp.ip);
    push_str(&mut out, "  ");
    push_hex2(&mut out, mc.mp.sp);
    push_str(&mut out, "  ");
    push_bit(&mut out, mc.mp.cf);
    push_str(&mut out, " \r\n\r\n");
    let mut m = string_chars(&render_memory(&mc.mem, mc.mp.ip, mc.mp.sp, mc.mp.cf));
    out.append(&mut m);
    string_from_chars(&out)
}

/// A signal as a terminal shows it.
pub open spec fn spec_signal_text(s: Signal) -> Seq<char> {
    match s {
        Signal::Active => "HI"@,
        Signal::Inactive => "LO"@,
    }
}

fn push_signal(out: &mut Vec<char>, s: Signal)
    ensures
        final(out)@ == old(out)@ + spec_signal_text(s),
{
    match s {
        Signal::Active => push_str(out, "HI"),
        Signal::Inactive => push_str(out, "LO"),
    }
}

/// The clock phase drawn as a wave: low `_`, high `‾`, rising and falling edges between.
pub open spec fn spec_clock_text(c: sim::Clock) -> Seq<char> {
    match c {
        sim::Clock::Rising => seq!['_', '/', '\u{203E}'],
        sim::Clock::High => seq!['\u{203E}', '\u{203E}', '\u{203E}'],
        sim::Clock::Falling => seq!['\u{203E}', '\\', '_'],
        sim::Clock::Low => seq!['_', '_', '_'],
    }
}

/// The reset line as a box, filled while asserted.
pub open spec fn spec_reset_text(r: sim::Reset) -> Seq<char> {
    match r {
        sim::Reset::Asserted => "[#]"@,
        sim::Reset::Deasserted => "[ ]"@,
    }
}

/// The registers line of the simulated microprocessor.
pub open spec fn spec_sim_registers(mp: &sim::Microprocessor) -> Seq<char> {
    "IP  SP  CF  IL  SC  AL  XL  YL  ZL\r\n"@ + spec_hex2(mp.ip) + "  "@ + spec_hex2(mp.sp) + "  "@ + spec_bit(mp.cf)
        + "   "@ + spec_hex2(mp.il) + "  "@ + spec_hex2(mp.sc) + "  "@ + spec_hex2(mp.al) + "  "@ + spec_hex2(mp.xl)
        + "  "@ + spec_hex2(mp.yl) + "  "@ + spec_hex2(mp.zl) + "\r\n"@
}

/// Four signals separated by spaces.
#[verifier::opaque]
pub open spec fn spec_four_signals(a: Signal, b: Signal, c: Signal, d: Signal) -> Seq<char> {
    spec_signal_text(a) + " "@ + spec_signal_text(b) + " "@ + spec_signal_text(c) + " "@ + spec_signal_text(d)
}

/// The control word of the simulated microprocessor, in two rows of eight signals.
pub open spec fn spec_sim_control(c: ControlWord) -> Seq<char> {
    "CTRL  "@ + spec_four_signals(c.clr_sc, c.data_il, c.data_cf, c.ip_data) + " "@
        + spec_four_signals(c.data_ip, c.sp_data, c.data_sp, c.data_al) + "\r\n      "@
        + spec_four_signals(c.mem_data, c.data_mem, c.data_xl, c.data_yl) + " "@
        + spec_four_signals(c.data_zl, c.set_cin, c.sum_data, c.nand_data) + "\r\n"@
}

fn four_signals(out: &mut Vec<char>, a: Signal, b: Signal, c: Signal, d: Signal)
    ensures
        final(out)@ == old(out)@ + spec_four_signals(a, b, c, d),
{
    let ghost o = out@;
    push_signal(out, a);
    push_str(out, " ");
    let ghost o1 = out@;
    assert(o1 =~= o + (spec_signal_text(a) + " "@));
    push_signal(out, b);
    push_str(out, " ");
    let ghost o2 = out@;
    assert(o2 =~= o + (spec_signal_text(a) + " "@ + spec_signal_text(b) + " "@));
    push_signal(out, c);
    push_str(out, " ");
    let ghost o3 = out@;
    assert(o3 =~= o + (spec_signal_text(a) + " "@ + spec_signal_text(b) + " "@ + spec_signal_text(c) + " "@));
    push_signal(out, d);
    reveal(spec_four_signals);
    assert(out@ =~= o + spec_four_signals(a, b, c, d));
}

/// The derived signals of the simulated microprocessor.
pub open spec fn spec_sim_signals(mp: &sim::Microprocessor) -> Seq<char> {
    "PULL  ONES  SUM  NAND  CIN  COUT  ZERO\r\n"@ + spec_signal_text(mp.pull) + "    "@ + spec_hex2(mp.ones) + "    "@
        + spec_hex2(mp.sum) + "   "@ + spec_hex2(mp.nand) + "    "@ + spec_bit(mp.cin) + "    "@ + spec_bit(mp.cout)
        + "     "@ + spec_bit(mp.zero) + "\r\n"@
}

/// The bus of the simulated microcomputer.
pub open spec fn spec_sim_bus(mc: &sim::Microcomputer) -> Seq<char> {
    "CLK  RST  ADDR  DATA  READ  WRT\r\n"@ + spec_clock_text(mc.clk) + "  "@ + spec_reset_text(mc.rst) + "  "@
        + spec_hex2(mc.addr) + "    "@ + spec_hex2(mc.data) + "    "@ + spec_signal_text(mc.read) + "    "@
        + spec_signal_text(mc.wrt) + "\r\n"@
}

/// The state of the simulated microcomputer: registers, control word, derived signals, the size
/// of the microcode, the bus, then memory.
pub open spec fn spec_render_sim_state(mc: &sim::Microcomputer) -> Seq<char> {
    spec_sim_registers(&mc.mp) + "\r\n"@ + spec_sim_control(mc.mp.ctrl) + "\r\n"@ + spec_sim_signals(&mc.mp) + "\r\n"@
        + "MIC  (0x2000 words)\r\n"@ + "\r\n"@ + spec_sim_bus(mc) + "\r\n"@
        + spec_render_memory(mc.mem@, mc.mp.ip, mc.mp.sp, mc.mp.cf)
}

fn sim_registers(mp: &sim::Microprocessor, out: &mut Vec<char>)
    ensures
        final(out)@ == old(out)@ + spec_sim_registers(mp),
{
    let ghost o = out@;
    push_str(out, "IP  SP  CF  IL  SC  AL  XL  YL  ZL\r\n");
    push_hex2(out, mp.ip);
    push_str(out, "  ");
    push_hex2(out, mp.sp);
    push_str(out, "  ");
    push_bit(out, mp.cf);
    push_str(out, "   ");
    push_hex2(out, mp.il);
    push_str(out, "  ");
    push_hex2(out, mp.sc);
    push_str(out, "  ");
    push_hex2(out, mp.al);
    push_str(out, "  ");
    push_hex2(out, mp.xl);
    push_str(out, "  ");
    push_hex2(out, mp.yl);
    push_str(out, "  ");
    push_hex2(out, mp.zl);
    push_str(out, "\r\n");
    assert(out@ =~= o + spec_sim_registers(mp));
}

fn control_row(
    out: &mut Vec<char>,
    a: Signal,
    b: Signal,
    c: Signal,
    d: Signal,
    e: Signal,
    f: Signal,
    g: Signal,
    h: Signal,
)
    ensures
        final(out)@ == old(out)@ + spec_four_signals(a, b, c, d) + " "@ + spec_four_signals(e, f, g, h),
{
    let ghost o = out@;
    four_signals(out, a, b, c, d);
    push_str(out, " ");
    four_signals(out, e, f, g, h);
    assert(out@ =~= o + spec_four_signals(a, b, c, d) + " "@ + spec_four_signals(e, f, g, h));
}

fn sim_control(c: ControlWord, out: &mut Vec<char>)
    ensures
        final(out)@ == old(out)@ + spec_sim_control(c),
{
    let ghost o = out@;
    push_str(out, "CTRL  ");
    control_row(out, c.clr_sc, c.data_il, c.data_cf, c.ip_data, c.data_ip, c.sp_data, c.data_sp, c.data_al);
    push_str(out, "\r\n      ");
    control_row(out, c.mem_data, c.data_mem, c.data_xl, c.data_yl, c.data_zl, c.set_cin, c.sum_data, c.nand_data);
    push_str(out, "\r\n");
    assert(out@ =~= o + spec_sim_control(c));
}

fn sim_signals(mp: &sim::Microprocessor, out: &mut Vec<char>)
    ensures
        final(out)@ == old(out)@ + spec_sim_signals(mp),
{
    let ghost o = out@;
    push_str(out, "PULL  ONES  SUM  NAND  CIN  COUT  ZERO\r\n");
    push_signal(out, mp.pull);
    push_str(out, "    ");
    push_hex2(out, mp.ones);
    push_str(out, "    ");
    push_hex2(out, mp.sum);
    push_str(out, "   ");
    push_hex2(out, mp.nand);
    push_str(out, "    ");
    push_bit(out, mp.cin);
    push_str(out, "    ");
    push_bit(out, mp.cout);
    push_str(out, "     ");
    push_bit(out, mp.zero);
    push_str(out, "\r\n");
    assert(out@ =~= o + spec_sim_signals(mp));
}

fn push_clock(out: &mut Vec<char>, c: sim::Clock)
    ensures
        final(out)@ == old(out)@ + spec_clock_text(c),
{
    let ghost o = out@;
    let (a, b, d) = match c {
        sim::Clock::Rising => ('_', '/', '\u{203E}'),
        sim::Clock::High => ('\u{203E}', '\u{203E}', '\u{203E}'),
        sim::Clock::Falling => ('\u{203E}', '\\', '_'),
        sim::Clock::Low => ('_', '_', '_'),
    };
    out.push(a);
    out.push(b);
    out.push(d);
    assert(out@ =~= o + spec_clock_text(c));
}

fn sim_bus(mc: &sim::Microcomputer, out: &mut Vec<char>)
    ensures
        final(out)@ == old(out)@ + spec_sim_bus(mc),
{
    let ghost o = out@;
    push_str(out, "CLK  RST  ADDR  DATA  READ  WRT\r\n");
    push_clock(out, mc.clk);
    push_str(out, "  ");
    match mc.rst {
        sim::Reset::Asserted => push_str(out, "[#]"),
        sim::Reset::Deasserted => push_str(out, "[ ]"),
    }
    push_str(out, "  ");
    push_hex2(out, mc.addr);
    push_str(out, "    ");
    push_hex2(out, mc.data);
    push_str(out, "    ");
    push_signal(out, mc.read);
    push_str(out, "    ");
    push_signal(out, mc.wrt);
    push_str(out, "\r\n");
    assert(out@ =~= o + spec_sim_bus(mc));
}

/// The state of the simulated microcomputer.
pub fn render_sim_state(mc: &sim::Microcomputer) -> (r: String)
    ensures
        r@ == spec_render_sim_state(mc),
{
    let mut out: Vec<char> = Vec::new();
    let ghost o = out@;
    sim_registers(&mc.mp, &mut out);
    push_str(&mut out, "\r\n");
    sim_control(mc.mp.ctrl, &mut out);
    push_str(&mut out, "\r\n");
    sim_signals(&mc.mp, &mut out);
    push_str(&mut out, "\r\n");
    push_str(&mut out, "MIC  (0x2000 words)\r\n");
    push_str(&mut out, "\r\n");
    sim_bus(mc, &mut out);
    push_str(&mut out, "\r\n");
    let mut m = string_chars(&render_memory(&mc.mem, mc.mp.ip, mc.mp.sp, mc.mp.cf));
    out.append(&mut m);
    assert(out@ =~= spec_render_sim_state(mc));
    string_from_chars(&out)
}

} // verus!
