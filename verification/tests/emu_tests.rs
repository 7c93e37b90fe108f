use atto8::common::{TickTrap, Tickable, DISPLAY_BUFFER_LEN, MEM_SIZE};
use atto8::emu::{Microcomputer, Microprocessor};
use std::collections::VecDeque;

struct Machine {
    mc: Microcomputer,
    stdin: VecDeque<u8>,
    stdout: VecDeque<u8>,
    display: [u8; DISPLAY_BUFFER_LEN],
    controller: u8,
}

fn machine(program: &[u8]) -> Machine {
    let mut mem = [0u8; MEM_SIZE];
    mem[..program.len()].copy_from_slice(program);
    let mut m = Machine {
        mc: Microcomputer { mem, mp: Microprocessor { ip: 0, sp: 0, cf: false } },
        stdin: VecDeque::new(),
        stdout: VecDeque::new(),
        display: [0; DISPLAY_BUFFER_LEN],
        controller: 0,
    };
    // the first opcode is fetched from standard input, where a reset puts it
    m.mc.reset(&mut m.stdin, &mut m.stdout, &mut m.display, &mut m.controller);
    m
}

fn step(m: &mut Machine) -> Result<u128, TickTrap> {
    m.mc.tick(&mut m.stdin, &mut m.stdout, &mut m.display, &mut m.controller)
}

#[test]
fn push_and_add() {
    // psh 5; psh 3; add
    let mut m = machine(&[0x05, 0x03, 0x80]);
    assert_eq!(step(&mut m), Ok(10));
    assert_eq!(m.mc.mp.sp, 0xFF);
    assert_eq!(m.mc.mem[0xFF], 0x05);
    assert_eq!(step(&mut m), Ok(10));
    assert_eq!(step(&mut m), Ok(15));
    assert_eq!(m.mc.mp.sp, 0xFF);
    assert_eq!(m.mc.mem[0xFF], 0x08);
    assert!(!m.mc.mp.cf);
    assert_eq!(m.mc.mp.ip, 3);
}

#[test]
fn subtraction_borrows_into_carry() {
    // psh 3; psh 5; sub: 3 - 5
    let mut m = machine(&[0x03, 0x05, 0x84]);
    step(&mut m).unwrap();
    step(&mut m).unwrap();
    assert_eq!(step(&mut m), Ok(15));
    assert_eq!(m.mc.mem[0xFF], 0xFE);
    assert!(m.mc.mp.cf);
}

#[test]
fn display_mirrors_top_of_memory() {
    // psh 0x2A lands at 0xFF, which is the last display byte
    let mut m = machine(&[0x2A]);
    step(&mut m).unwrap();
    assert_eq!(m.display[DISPLAY_BUFFER_LEN - 1], 0x2A);
}

#[test]
fn store_to_address_zero_goes_to_stdout() {
    // psh 0x41; psh 0x00; sta
    let mut m = machine(&[0x41, 0x00, 0xE1]);
    step(&mut m).unwrap();
    step(&mut m).unwrap();
    assert_eq!(step(&mut m), Ok(15));
    assert_eq!(m.stdout, VecDeque::from(vec![0x41]));
}

#[test]
fn load_from_address_zero_reads_stdin_then_controller() {
    // psh 0; lda; psh 0; lda
    let mut m = machine(&[0x00, 0xE0, 0x00, 0xE0]);
    step(&mut m).unwrap();
    m.stdin.push_back(0x61);
    m.controller = 0x0C;
    step(&mut m).unwrap();
    assert_eq!(m.mc.mem[0xFF], 0x61);
    step(&mut m).unwrap();
    step(&mut m).unwrap();
    assert_eq!(m.mc.mem[0xFE], 0x0C);
}

#[test]
fn traps() {
    let mut m = machine(&[0xBB, 0xB3]);
    assert_eq!(step(&mut m), Err(TickTrap::DebugRequest));
    assert_eq!(step(&mut m), Err(TickTrap::IllegalOpcode));
    assert_eq!(m.mc.mp.ip, 2);
}

#[test]
fn rotation_counts_cycles_per_place() {
    // psh 0x81; psh 1; rot
    let mut m = machine(&[0x7F, 0xB0, 0x01, 0x98]);
    step(&mut m).unwrap();
    step(&mut m).unwrap();
    assert_eq!(m.mc.mem[0xFF], 0x80);
    step(&mut m).unwrap();
    assert_eq!(step(&mut m), Ok((18 + 1) * 2));
    assert_eq!(m.mc.mem[0xFF], 0x01);
}

#[test]
fn reset_clears_registers_and_loads_peripherals() {
    let mut m = machine(&[0x77]);
    m.mc.mem[0xE0] = 0x99;
    m.mc.mp = Microprocessor { ip: 9, sp: 9, cf: true };
    m.stdout.push_back(1);
    m.mc.reset(&mut m.stdin, &mut m.stdout, &mut m.display, &mut m.controller);
    assert_eq!(m.mc.mp, Microprocessor { ip: 0, sp: 0, cf: false });
    assert_eq!(m.stdin, VecDeque::from(vec![0x77]));
    assert!(m.stdout.is_empty());
    assert_eq!(m.display[0], 0x99);
}
