use atto8::bf::build_microcode;
use atto8::common::{result_into_u16, TickTrap, MIC_SIZE};

fn index(opcode: u8, carry: usize, step: usize) -> usize {
    0x40 * (opcode as usize - 0x80) + 0x20 * carry + step
}

#[test]
fn bf_microcode_has_every_word() {
    let mut errors = vec![];
    let image = build_microcode(&mut errors);
    assert!(errors.is_empty());
    assert_eq!(image.len(), MIC_SIZE);
}

#[test]
fn end_of_program_steps_back_and_pads_with_faults() {
    let mut errors = vec![];
    let image = build_microcode(&mut errors);
    let eof = !0u8;
    let fault = result_into_u16(Err(TickTrap::MicrocodeFault));
    // fetch (4), clear YL (2), step IP back (1), clear the step counter
    assert_eq!(image[index(eof, 0, 7)], image[index(eof, 0, 31)]);
    assert_eq!(image[index(eof, 0, 8)], fault);
    assert_eq!(image[index(eof, 0, 30)], fault);
}

#[test]
fn debug_request_traps_unless_walking() {
    let mut errors = vec![];
    let image = build_microcode(&mut errors);
    let hash = !b'#';
    assert_eq!(
        image[index(hash, 0, 6)],
        result_into_u16(Err(TickTrap::DebugRequest))
    );
    assert_ne!(
        image[index(hash, 1, 6)],
        result_into_u16(Err(TickTrap::DebugRequest))
    );
}

#[test]
fn loop_brackets_fill_all_steps() {
    let mut errors = vec![];
    let image = build_microcode(&mut errors);
    let fault = result_into_u16(Err(TickTrap::MicrocodeFault));
    for opcode in [!b'[', !b']'] {
        for carry in 0..2 {
            for step in 0..32 {
                assert_ne!(image[index(opcode, carry, step)], fault);
            }
        }
    }
}
