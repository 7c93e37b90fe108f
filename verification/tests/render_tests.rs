use atto8::common::{ControlWord, Signal, DISPLAY_BUFFER_LEN, MEM_SIZE, MIC_SIZE};
use atto8::emu;
use atto8::render::{render_controller, render_display, render_emu_state, render_memory, render_sim_state};
use atto8::sim;

#[test]
fn memory_rendering_marks_stack_and_instruction_pointer() {
    let mut mem = [0u8; MEM_SIZE];
    mem[0x00] = 0xAB;
    mem[0xFF] = 0x12;
    let text = render_memory(&mem, 0x01, 0x00, true);
    let lines: Vec<&str> = text.split("\r\n").collect();
    assert_eq!(lines[0], "MEM");
    assert_eq!(lines.len(), 18);
    assert!(lines[1].starts_with("AB[00]00 "));
    assert!(lines[16].ends_with("12/"));
    let text = render_memory(&mem, 0x01, 0x00, false);
    assert!(text.split("\r\n").nth(16).unwrap().ends_with("12|"));
    assert_eq!(lines[1].len(), 16 * 3);
}

#[test]
fn display_rendering_uses_half_blocks() {
    let mut display = [0u8; DISPLAY_BUFFER_LEN];
    display[0] = 0x80; // row 0, column 0
    display[2] = 0x40; // row 1, column 1
    display[3] = 0x01; // row 1, column 15
    display[1] = 0x01; // row 0, column 15
    let text = render_display(&display);
    let lines: Vec<&str> = text.split("\r\n").collect();
    assert_eq!(lines[0], "\u{25aa}                \u{25aa}");
    assert_eq!(
        lines[1],
        " \u{2580}\u{2584}             \u{2588} "
    );
    assert_eq!(lines[9], "\u{25aa}                \u{25aa}");
    assert_eq!(lines.len(), 12);
}

#[test]
fn controller_rendering_shows_each_button() {
    assert_eq!(
        render_controller(&0x00),
        "    \u{2591}\u{2591}      \u{2591}\u{2591}    \r\n  \u{2591}\u{2591}  \u{2591}\u{2591}  \u{2591}\u{2591}  \u{2591}\u{2591}  \r\n    \u{2591}\u{2591}      \u{2591}\u{2591}    \r\n"
    );
    let pressed = render_controller(&0x01);
    assert!(pressed.starts_with("    \u{2588}\u{2588}      \u{2591}\u{2591}"));
    let all = render_controller(&0xFF);
    assert!(!all.contains('\u{2591}'));
}

#[test]
fn emulator_state_shows_registers_then_memory() {
    let mut mem = [0u8; MEM_SIZE];
    mem[0x10] = 0x5A;
    let mc = emu::Microcomputer { mem, mp: emu::Microprocessor { ip: 0x3C, sp: 0xF1, cf: true } };
    let text = render_emu_state(&mc);
    let head = "IP  SP  CF\r\n3C  F1  1 \r\n\r\n";
    assert!(text.starts_with(head));
    assert_eq!(&text[head.len()..], render_memory(&mc.mem, 0x3C, 0xF1, true));
}

#[test]
fn simulator_state_shows_each_block() {
    let mut ctrl = ControlWord::default();
    ctrl.clr_sc = Signal::Active;
    ctrl.nand_data = Signal::Active;
    let mc = sim::Microcomputer {
        mem: [0u8; MEM_SIZE],
        mp: sim::Microprocessor {
            ip: 0x01,
            sp: 0x02,
            cf: false,
            il: 0x03,
            sc: 0x04,
            al: 0x05,
            xl: 0x06,
            yl: 0x07,
            zl: 0x08,
            ctrl,
            pull: Signal::Active,
            ones: 0xFF,
            sum: 0x0A,
            nand: 0x0B,
            cin: true,
            cout: false,
            zero: true,
            mic: [0u16; MIC_SIZE],
        },
        clk: sim::Clock::Rising,
        rst: sim::Reset::Asserted,
        addr: 0x0C,
        data: 0x0D,
        read: Signal::Active,
        wrt: Signal::Inactive,
    };
    let text = render_sim_state(&mc);
    let expected_head = String::new()
        + "IP  SP  CF  IL  SC  AL  XL  YL  ZL\r\n01  02  0   03  04  05  06  07  08\r\n\r\n"
        + "CTRL  HI LO LO LO LO LO LO LO\r\n      LO LO LO LO LO LO LO HI\r\n\r\n"
        + "PULL  ONES  SUM  NAND  CIN  COUT  ZERO\r\nHI    FF    0A   0B    1    0     1\r\n\r\n"
        + "MIC  (0x2000 words)\r\n\r\n"
        + "CLK  RST  ADDR  DATA  READ  WRT\r\n_/\u{203E}  [#]  0C    0D    HI    LO\r\n\r\n";
    assert!(text.starts_with(&expected_head));
    assert_eq!(&text[expected_head.len()..], render_memory(&mc.mem, 0x01, 0x02, false));
}
