use atto8::common::{
    result_into_u16, ControlWord, Signal, TickTrap, Tickable, DISPLAY_BUFFER_LEN, MEM_SIZE, MIC_SIZE,
};
use atto8::mic::build_microcode;
use atto8::sim::{Clock, Microcomputer, Microprocessor, Reset};
use std::collections::VecDeque;

struct Machine {
    mc: Microcomputer,
    stdin: VecDeque<u8>,
    stdout: VecDeque<u8>,
    display: [u8; DISPLAY_BUFFER_LEN],
    controller: u8,
}

fn microcode() -> [u16; MIC_SIZE] {
    let mut errors = vec![];
    let image = build_microcode(&mut errors);
    assert!(errors.is_empty());
    image.try_into().unwrap()
}

fn machine(program: &[u8]) -> Machine {
    let mut mem = [0u8; MEM_SIZE];
    mem[..program.len()].copy_from_slice(program);
    let mut m = Machine {
        mc: Microcomputer {
            mem,
            mp: Microprocessor {
                ip: 0,
                sp: 0,
                cf: false,
                il: 0,
                sc: 0,
                al: 0,
                xl: 0,
                yl: 0,
                zl: 0,
                ctrl: ControlWord::default(),
                pull: Signal::Inactive,
                ones: 0,
                sum: 0,
                nand: 0,
                cin: false,
                cout: false,
                zero: false,
                mic: microcode(),
            },
            clk: Clock::Low,
            rst: Reset::Deasserted,
            addr: 0,
            data: 0,
            read: Signal::Inactive,
            wrt: Signal::Inactive,
        },
        stdin: VecDeque::new(),
        stdout: VecDeque::new(),
        display: [0; DISPLAY_BUFFER_LEN],
        controller: 0,
    };
    m.mc.reset(&mut m.stdin, &mut m.stdout, &mut m.display, &mut m.controller);
    m
}

fn step(m: &mut Machine) -> Result<u128, TickTrap> {
    m.mc.tick(&mut m.stdin, &mut m.stdout, &mut m.display, &mut m.controller)
}

/// Ticks until the instruction pointer reaches `ip`, at most `limit` times.
fn run_until_ip(m: &mut Machine, ip: u8, limit: usize) {
    for _ in 0..limit {
        if m.mc.mp.ip == ip {
            return;
        }
        step(m).unwrap();
    }
    panic!("instruction pointer never reached {:#04X}", ip);
}

#[test]
fn microcode_image_has_a_word_for_every_instruction_carry_and_step() {
    let mut errors = vec![];
    let image = build_microcode(&mut errors);
    assert!(errors.is_empty());
    assert_eq!(image.len(), 0x2000);
    // the last step of every program is a control word that does nothing
    assert_eq!(image[0x1F], result_into_u16(Ok(ControlWord::default())));
    assert_eq!(image[0x1FFF], result_into_u16(Ok(ControlWord::default())));
}

#[test]
fn sim_reset_clears_registers_and_loads_peripherals() {
    let mut m = machine(&[0x77]);
    assert_eq!(m.stdin, VecDeque::from(vec![0x77]));
    m.mc.mem[0xE0] = 0x99;
    m.mc.mp.ip = 9;
    m.mc.mp.sp = 9;
    m.mc.mp.xl = 9;
    m.stdin.clear();
    m.mc.reset(&mut m.stdin, &mut m.stdout, &mut m.display, &mut m.controller);
    assert_eq!(m.mc.mp.ip, 0);
    assert_eq!(m.mc.mp.sp, 0);
    assert_eq!(m.mc.mp.xl, 0);
    assert_eq!(m.mc.mp.sc, 0);
    assert_eq!(m.mc.clk, Clock::Low);
    assert_eq!(m.mc.rst, Reset::Deasserted);
    assert_eq!(m.stdin, VecDeque::from(vec![0x77]));
    assert_eq!(m.display[0], 0x99);
}

#[test]
fn one_clock_cycle_every_four_phases() {
    let mut m = machine(&[0xEE, 0xEE, 0xEE, 0xEE]);
    let mut cycles = 0;
    for _ in 0..16 {
        cycles += step(&mut m).unwrap();
    }
    assert_eq!(cycles, 4);
}

#[test]
fn sim_push_and_add() {
    // psh 5; psh 3; add
    let mut m = machine(&[0x05, 0x03, 0x80]);
    run_until_ip(&mut m, 4, 10_000);
    assert_eq!(m.mc.mp.sp, 0xFF);
    assert_eq!(m.mc.mem[0xFF], 0x08);
    assert!(!m.mc.mp.cf);
}

#[test]
fn sim_subtraction_borrows_into_carry() {
    // psh 3; psh 5; sub: 3 - 5
    let mut m = machine(&[0x03, 0x05, 0x84]);
    run_until_ip(&mut m, 4, 10_000);
    assert_eq!(m.mc.mem[0xFF], 0xFE);
    assert!(m.mc.mp.cf);
}

#[test]
fn sim_store_to_address_zero_goes_to_stdout() {
    // psh 0x41; psh 0x00; sta
    let mut m = machine(&[0x41, 0x00, 0xE1]);
    run_until_ip(&mut m, 4, 10_000);
    assert_eq!(m.stdout, VecDeque::from(vec![0x41]));
}

#[test]
fn debug_request_traps() {
    let mut m = machine(&[0xBB]);
    let mut trap = None;
    for _ in 0..10_000 {
        if let Err(t) = step(&mut m) {
            trap = Some(t);
            break;
        }
    }
    assert_eq!(trap, Some(TickTrap::DebugRequest));
}
