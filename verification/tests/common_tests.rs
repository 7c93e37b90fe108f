use atto8::common::{
    control_word_from_u16, control_word_into_u16, instruction_to_opcode, opcode_to_instruction,
    result_into_u16, u16_into_result, ControlWord, Imm, Instruction, Nimm, Ofst, Signal, Size,
    TickTrap,
};

#[test]
fn control_word_decodes_most_significant_bit_as_data_ip() {
    let c = control_word_from_u16(0x8000);
    assert_eq!(c.data_ip, Signal::Active);
    assert_eq!(c.nand_data, Signal::Inactive);
    let c = control_word_from_u16(0x0001);
    assert_eq!(c.data_ip, Signal::Inactive);
    assert_eq!(c.nand_data, Signal::Active);
}

#[test]
fn control_word_roundtrips_through_u16() {
    for w in [0x0000u16, 0x1234, 0x8001, 0xABCD, 0xFFFB, 0x7FFF] {
        assert_eq!(control_word_into_u16(control_word_from_u16(w)), w);
    }
}

#[test]
fn default_control_word_is_all_inactive() {
    let c = ControlWord::default();
    assert_eq!(control_word_into_u16(c), 0x0000);
    assert_eq!(Signal::default(), Signal::Inactive);
}

#[test]
fn sentinels_decode_to_traps() {
    assert_eq!(u16_into_result(0xFFFF), Err(TickTrap::MicrocodeFault));
    assert_eq!(u16_into_result(0xFFFE), Err(TickTrap::IllegalOpcode));
    assert_eq!(u16_into_result(0xFFFD), Err(TickTrap::DebugRequest));
    assert_eq!(u16_into_result(0xFFFC), Err(TickTrap::BusFault));
    assert_eq!(u16_into_result(0x0003), Ok(control_word_from_u16(0x0003)));
}

#[test]
fn traps_encode_to_sentinels() {
    assert_eq!(result_into_u16(Err(TickTrap::MicrocodeFault)), 0xFFFF);
    assert_eq!(result_into_u16(Err(TickTrap::IllegalOpcode)), 0xFFFE);
    assert_eq!(result_into_u16(Err(TickTrap::DebugRequest)), 0xFFFD);
    assert_eq!(result_into_u16(Err(TickTrap::BusFault)), 0xFFFC);
    assert_eq!(result_into_u16(Ok(control_word_from_u16(0x0102))), 0x0102);
}

#[test]
fn every_word_survives_interpretation_and_encoding() {
    for w in 0..=0xFFFFu16 {
        assert_eq!(result_into_u16(u16_into_result(w)), w);
    }
}

#[test]
fn operand_constructors_check_ranges() {
    assert_eq!(Imm::new(0x7F), Some(Imm(0x7F)));
    assert_eq!(Imm::new(0x80), None);
    assert_eq!(Size::new(4), Some(Size(4)));
    assert_eq!(Size::new(3), None);
    assert_eq!(Size::new(16), None);
    assert_eq!(Ofst::new(0x0F), Some(Ofst(0x0F)));
    assert_eq!(Ofst::new(0x10), None);
    assert_eq!(Nimm::new(0xF0), Some(Nimm(0xF0)));
    assert_eq!(Nimm::new(0xEF), None);
    assert_eq!(Imm::asserted(5), Imm(5));
    assert_eq!(Size::asserted(8), Size(8));
    assert_eq!(Ofst::asserted(0), Ofst(0));
    assert_eq!(Nimm::asserted(0xFF), Nimm(0xFF));
}

#[test]
fn opcodes_decode_to_instructions() {
    assert_eq!(opcode_to_instruction(0x05), Ok(Instruction::Psh(Imm(0x05))));
    assert_eq!(opcode_to_instruction(0x80), Ok(Instruction::Add(Size(1))));
    assert_eq!(opcode_to_instruction(0x87), Ok(Instruction::Sub(Size(8))));
    assert_eq!(opcode_to_instruction(0x9A), Ok(Instruction::Rot(Size(4))));
    assert_eq!(opcode_to_instruction(0xAD), Ok(Instruction::Xnd(Size(2))));
    assert_eq!(opcode_to_instruction(0xB0), Ok(Instruction::Inc));
    assert_eq!(opcode_to_instruction(0xBB), Ok(Instruction::Dbg));
    assert_eq!(opcode_to_instruction(0xB3), Err(0xB3));
    assert_eq!(opcode_to_instruction(0x88), Err(0x88));
    assert_eq!(opcode_to_instruction(0xC3), Ok(Instruction::Ldo(Ofst(3))));
    assert_eq!(opcode_to_instruction(0xDF), Ok(Instruction::Sto(Ofst(0xF))));
    assert_eq!(opcode_to_instruction(0xE5), Ok(Instruction::Sts));
    assert_eq!(opcode_to_instruction(0xE6), Err(0xE6));
    assert_eq!(opcode_to_instruction(0xEF), Ok(Instruction::Pop));
    assert_eq!(opcode_to_instruction(0xF7), Ok(Instruction::Phn(Nimm(0xF7))));
}

#[test]
fn instructions_encode_to_opcodes() {
    assert_eq!(instruction_to_opcode(Ok(Instruction::Psh(Imm(0x7F)))), 0x7F);
    assert_eq!(instruction_to_opcode(Ok(Instruction::Xor(Size(2)))), 0xA9);
    assert_eq!(instruction_to_opcode(Ok(Instruction::Sta)), 0xE1);
    assert_eq!(instruction_to_opcode(Ok(Instruction::Phn(Nimm(0xFA)))), 0xFA);
    assert_eq!(instruction_to_opcode(Err(0x42)), 0x42);
}

#[test]
fn every_opcode_survives_decoding_and_encoding() {
    for b in 0..=0xFFu8 {
        assert_eq!(instruction_to_opcode(opcode_to_instruction(b)), b);
    }
}

#[test]
fn every_valid_instruction_survives_encoding_and_decoding() {
    let sizes = [1u8, 2, 4, 8];
    let mut instructions = vec![
        Instruction::Inc,
        Instruction::Dec,
        Instruction::Neg,
        Instruction::Shl,
        Instruction::Shr,
        Instruction::Not,
        Instruction::Buf,
        Instruction::Dbg,
        Instruction::Lda,
        Instruction::Sta,
        Instruction::Ldi,
        Instruction::Sti,
        Instruction::Lds,
        Instruction::Sts,
        Instruction::Clc,
        Instruction::Sec,
        Instruction::Flc,
        Instruction::Nop,
        Instruction::Pop,
    ];
    for s in sizes {
        instructions.push(Instruction::Add(Size(s)));
        instructions.push(Instruction::Iff(Size(s)));
        instructions.push(Instruction::Xnd(Size(s)));
    }
    for o in 0..16u8 {
        instructions.push(Instruction::Ldo(Ofst(o)));
        instructions.push(Instruction::Sto(Ofst(o)));
    }
    for v in 0..0x80u8 {
        instructions.push(Instruction::Psh(Imm(v)));
    }
    for n in 0xF0..=0xFFu8 {
        instructions.push(Instruction::Phn(Nimm(n)));
    }
    for i in instructions {
        assert_eq!(opcode_to_instruction(instruction_to_opcode(Ok(i))), Ok(i));
    }
}
