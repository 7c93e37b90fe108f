use atto8::wp_emu::{known, render_wp_display, render_wp_memory, WpMachine};

fn machine(program: &[u8]) -> WpMachine {
    let mut memory = vec![0u8; 0x100];
    memory[..program.len()].copy_from_slice(program);
    WpMachine { memory, sp: 0, wp: 0, ip: 0, cf: false, debug: false }
}

#[test]
fn push_and_add_with_carry() {
    // x05 x03 add hlt
    let mut m = machine(&[0x05, 0x03, 0xA2, 0x81]);
    assert!(!m.step());
    assert_eq!((m.sp, m.wp, m.memory[0xFF]), (0xFF, 0xFF, 0x05));
    assert!(!m.step());
    assert_eq!((m.sp, m.wp, m.memory[0xFE]), (0xFE, 0xFE, 0x03));
    assert!(!m.step());
    assert_eq!((m.sp, m.wp), (0xFF, 0xFF));
    assert_eq!(m.memory[0xFE], 0x00);
    assert_eq!(m.memory[0xFF], 0x08);
    assert!(!m.cf);
    assert!(m.step());
    assert_eq!(m.ip, 0x04);
}

#[test]
fn add_sets_carry_on_overflow() {
    let mut m = machine(&[0xF0, 0xF0, 0xA2]);
    m.step();
    m.step();
    m.step();
    assert_eq!(m.memory[0xFF], 0xE0);
    assert!(m.cf);
}

#[test]
fn subtraction_never_sets_carry() {
    let mut m = machine(&[0x01, 0x02, 0xA3]);
    m.step();
    m.step();
    m.step();
    assert_eq!(m.memory[0xFF], 0xFF);
    assert!(!m.cf);
}

#[test]
fn rotate_left_brings_in_carry() {
    let mut m = machine(&[0x84, 0xA4]);
    m.memory[0x00] = 0x84;
    m.wp = 0x10;
    m.memory[0x10] = 0x81;
    m.step();
    assert!(m.cf);
    m.step();
    assert_eq!(m.memory[0x10], 0x03);
    assert!(m.cf);
}

#[test]
fn immediate_after_opcode_is_pushed() {
    let mut m = machine(&[0x95, 0x9C]);
    m.step();
    assert_eq!(m.ip, 0x02);
    assert_eq!(m.memory[0xFF], 0x9C);
}

#[test]
fn work_pointer_is_set_from_stack_pointer() {
    let mut m = machine(&[0x43]);
    m.sp = 0xFE;
    m.step();
    assert_eq!(m.wp, 0x01);
}

#[test]
fn unknown_opcodes() {
    assert!(known(0x80));
    assert!(known(0x45));
    assert!(!known(0x82));
    assert!(!known(0xAB));
    assert!(!known(0x9C));
}

#[test]
fn memory_renders_in_lowercase_rows() {
    let mut memory = [0u8; 0x100];
    memory[0x00] = 0xAB;
    memory[0x11] = 0x0F;
    let text = render_wp_memory(&memory);
    let lines: Vec<&str> = text.lines().collect();
    assert_eq!(lines.len(), 16);
    assert!(lines[0].starts_with("ab 00 "));
    assert!(lines[1].starts_with("00 0f 00 "));
    assert_eq!(lines[0].len(), 48);
}

#[test]
fn display_renders_in_a_frame() {
    let mut display = [0u8; 0x20];
    display[0x00] = 0x80;
    display[0x02] = 0x80;
    let text = render_wp_display(&display);
    let lines: Vec<&str> = text.lines().collect();
    assert_eq!(lines.len(), 10);
    assert_eq!(lines[0], ".------------------.");
    assert_eq!(lines[9], "'------------------'");
    assert!(lines[1].starts_with("| \u{2588} "));
    assert!(lines[1].ends_with(" |"));
}
