//! The Atto-8 instruction set: control words, opcodes, instructions and their encodings.

use std::collections::VecDeque;
use vstd::prelude::*;
pub use crate::graph::reflexive_transitive_closure;

verus! {

/// Size of the main memory in bytes.
pub const MEM_SIZE: usize = 0x100;

/// Size of the microcode memory in words.
pub const MIC_SIZE: usize = 0x2000;

/// Address of the display buffer in memory.
pub const DISPLAY_BUFFER: usize = 0xE0;

/// Length of the display buffer in bytes.
pub const DISPLAY_BUFFER_LEN: usize = 0x20;

/// Address of the standard input/output port.
pub const STDIO_BUFFER: usize = 0x00;

/// A control signal of the microarchitecture.
#[derive(Clone, Copy, Debug, PartialEq, Eq, Structural)]
pub enum Signal {
    Inactive,
    Active,
}

impl Default for Signal {
    fn default() -> (r: Signal)
        ensures
            r == Signal::Inactive,
    {
        Signal::Inactive
    }
}

/// The sixteen control signals driven by the microcode, in microcode bit order
/// (`data_ip` is the most significant bit, `nand_data` the least significant).
#[derive(Clone, Copy, Debug, PartialEq, Eq, Structural)]
pub struct ControlWord {
    pub data_ip: Signal,
    pub data_sp: Signal,
    pub data_cf: Signal,
    pub data_il: Signal,
    pub data_al: Signal,
    pub data_xl: Signal,
    pub data_yl: Signal,
    pub data_zl: Signal,
    pub mem_data: Signal,
    pub data_mem: Signal,
    pub ip_data: Signal,
    pub sp_data: Signal,
    pub clr_sc: Signal,
    pub set_cin: Signal,
    pub sum_data: Signal,
    pub nand_data: Signal,
}

impl Default for ControlWord {
    fn default() -> (r: ControlWord)
        ensures
            r == spec_inactive_control_word(),
    {
        ControlWord {
            data_ip: Signal::Inactive,
            data_sp: Signal::Inactive,
            data_cf: Signal::Inactive,
            data_il: Signal::Inactive,
            data_al: Signal::Inactive,
            data_xl: Signal::Inactive,
            data_yl: Signal::Inactive,
            data_zl: Signal::Inactive,
            mem_data: Signal::Inactive,
            data_mem: Signal::Inactive,
            ip_data: Signal::Inactive,
            sp_data: Signal::Inactive,
            clr_sc: Signal::Inactive,
            set_cin: Signal::Inactive,
            sum_data: Signal::Inactive,
            nand_data: Signal::Inactive,
        }
    }
}

/// The control word with every signal inactive.
pub open spec fn spec_inactive_control_word() -> ControlWord {
    ControlWord {
        data_ip: Signal::Inactive,
        data_sp: Signal::Inactive,
        data_cf: Signal::Inactive,
        data_il: Signal::Inactive,
        data_al: Signal::Inactive,
        data_xl: Signal::Inactive,
        data_yl: Signal::Inactive,
        data_zl: Signal::Inactive,
        mem_data: Signal::Inactive,
        data_mem: Signal::Inactive,
        ip_data: Signal::Inactive,
        sp_data: Signal::Inactive,
        clr_sc: Signal::Inactive,
        set_cin: Signal::Inactive,
        sum_data: Signal::Inactive,
        nand_data: Signal::Inactive,
    }
}

/// A fault raised by a tick of a microcomputer.
#[derive(Clone, Copy, Debug, PartialEq, Eq, Structural)]
pub enum TickTrap {
    MicrocodeFault,
    IllegalOpcode,
    DebugRequest,
    BusFault,
}

/// The signal that a bit stands for.
#[verifier::opaque]
pub open spec fn spec_signal_of(b: u16) -> Signal {
    if b == 1 {
        Signal::Active
    } else {
        Signal::Inactive
    }
}

/// The signal that bit `i` of `w` stands for.
pub open spec fn spec_bit_signal(w: u16, i: u16) -> Signal {
    spec_signal_of((w >> i) & 1)
}

/// The bit that a signal stands for.
#[verifier::opaque]
pub open spec fn spec_signal_bit(s: Signal) -> u16 {
    match s {
        Signal::Active => 1,
        Signal::Inactive => 0,
    }
}

/// Decoding of a microcode word into its control signals.
pub open spec fn spec_control_word_from_u16(w: u16) -> ControlWord {
    ControlWord {
        data_ip: spec_bit_signal(w, 15),
        data_sp: spec_bit_signal(w, 14),
        data_cf: spec_bit_signal(w, 13),
        data_il: spec_bit_signal(w, 12),
        data_al: spec_bit_signal(w, 11),
        data_xl: spec_bit_signal(w, 10),
        data_yl: spec_bit_signal(w, 9),
        data_zl: spec_bit_signal(w, 8),
        mem_data: spec_bit_signal(w, 7),
        data_mem: spec_bit_signal(w, 6),
        ip_data: spec_bit_signal(w, 5),
        sp_data: spec_bit_signal(w, 4),
        clr_sc: spec_bit_signal(w, 3),
        set_cin: spec_bit_signal(w, 2),
        sum_data: spec_bit_signal(w, 1),
        nand_data: spec_bit_signal(w, 0),
    }
}

/// Packs sixteen bits, most significant first, into a word.
#[verifier::opaque]
pub open spec fn spec_pack16(b15: u16, b14: u16, b13: u16, b12: u16, b11: u16, b10: u16, b9: u16, b8: u16, b7: u16, b6: u16, b5: u16, b4: u16, b3: u16, b2: u16, b1: u16, b0: u16) -> u16 {
    (b15 << 15u16) | (b14 << 14u16) | (b13 << 13u16) | (b12 << 12u16) | (b11 << 11u16) | (b10 << 10u16) | (b9 << 9u16) | (b8 << 8u16) | (b7 << 7u16) | (b6 << 6u16) | (b5 << 5u16) | (b4 << 4u16) | (b3 << 3u16) | (b2 << 2u16) | (b1 << 1u16) | b0
}

/// Encoding of control signals into a microcode word.
pub open spec fn spec_control_word_into_u16(c: ControlWord) -> u16 {
    spec_pack16(
        spec_signal_bit(c.data_ip),
        spec_signal_bit(c.data_sp),
        spec_signal_bit(c.data_cf),
        spec_signal_bit(c.data_il),
        spec_signal_bit(c.data_al),
        spec_signal_bit(c.data_xl),
        spec_signal_bit(c.data_yl),
        spec_signal_bit(c.data_zl),
        spec_signal_bit(c.mem_data),
        spec_signal_bit(c.data_mem),
        spec_signal_bit(c.ip_data),
        spec_signal_bit(c.sp_data),
        spec_signal_bit(c.clr_sc),
        spec_signal_bit(c.set_cin),
        spec_signal_bit(c.sum_data),
        spec_signal_bit(c.nand_data),
    )
}

fn bit_signal(w: u16, i: u16) -> (r: Signal)
    requires
        i < 16,
    ensures
        r == spec_bit_signal(w, i),
{
    reveal(spec_signal_of);
    if (w >> i) & 1 == 1 {
        Signal::Active
    } else {
        Signal::Inactive
    }
}

fn signal_bit(s: Signal) -> (r: u16)
    ensures
        r == spec_signal_bit(s),
        r <= 1,
{
    reveal(spec_signal_bit);
    match s {
        Signal::Active => 1,
        Signal::Inactive => 0,
    }
}

/// Decodes a microcode word into control signals.
pub fn control_word_from_u16(w: u16) -> (r: ControlWord)
    ensures
        r == spec_control_word_from_u16(w),
{
    ControlWord {
        data_ip: bit_signal(w, 15),
        data_sp: bit_signal(w, 14),
        data_cf: bit_signal(w, 13),
        data_il: bit_signal(w, 12),
        data_al: bit_signal(w, 11),
        data_xl: bit_signal(w, 10),
        data_yl: bit_signal(w, 9),
        data_zl: bit_signal(w, 8),
        mem_data: bit_signal(w, 7),
        data_mem: bit_signal(w, 6),
        ip_data: bit_signal(w, 5),
        sp_data: bit_signal(w, 4),
        clr_sc: bit_signal(w, 3),
        set_cin: bit_signal(w, 2),
        sum_data: bit_signal(w, 1),
        nand_data: bit_signal(w, 0),
    }
}

/// Encodes control signals into a microcode word, `data_ip` in the most significant bit.
pub fn control_word_into_u16(c: ControlWord) -> (r: u16)
    ensures
        r == spec_control_word_into_u16(c),
{
    reveal(spec_pack16);
    (signal_bit(c.data_ip) << 15u16) | (signal_bit(c.data_sp) << 14u16) | (signal_bit(c.data_cf)
        << 13u16) | (signal_bit(c.data_il) << 12u16) | (signal_bit(c.data_al) << 11u16) | (
    signal_bit(c.data_xl) << 10u16) | (signal_bit(c.data_yl) << 9u16) | (signal_bit(c.data_zl)
        << 8u16) | (signal_bit(c.mem_data) << 7u16) | (signal_bit(c.data_mem) << 6u16) | (
    signal_bit(c.ip_data) << 5u16) | (signal_bit(c.sp_data) << 4u16) | (signal_bit(c.clr_sc)
        << 3u16) | (signal_bit(c.set_cin) << 2u16) | (signal_bit(c.sum_data) << 1u16)
        | signal_bit(c.nand_data)
}

proof fn lemma_u16_bits(w: u16)
    ensures
        w == ((((w >> 15u16) & 1) << 15u16) | (((w >> 14u16) & 1) << 14u16) | (((w >> 13u16) & 1)
            << 13u16) | (((w >> 12u16) & 1) << 12u16) | (((w >> 11u16) & 1) << 11u16) | (((w
            >> 10u16) & 1) << 10u16) | (((w >> 9u16) & 1) << 9u16) | (((w >> 8u16) & 1) << 8u16)
            | (((w >> 7u16) & 1) << 7u16) | (((w >> 6u16) & 1) << 6u16) | (((w >> 5u16) & 1)
            << 5u16) | (((w >> 4u16) & 1) << 4u16) | (((w >> 3u16) & 1) << 3u16) | (((w >> 2u16)
            & 1) << 2u16) | (((w >> 1u16) & 1) << 1u16) | ((w >> 0u16) & 1)),
        forall|i: u16| i < 16 ==> #[trigger] ((w >> i) & 1) <= 1,
{
    assert(w == ((((w >> 15u16) & 1) << 15u16) | (((w >> 14u16) & 1) << 14u16) | (((w >> 13u16)
        & 1) << 13u16) | (((w >> 12u16) & 1) << 12u16) | (((w >> 11u16) & 1) << 11u16) | (((w
        >> 10u16) & 1) << 10u16) | (((w >> 9u16) & 1) << 9u16) | (((w >> 8u16) & 1) << 8u16) | (((
    w >> 7u16) & 1) << 7u16) | (((w >> 6u16) & 1) << 6u16) | (((w >> 5u16) & 1) << 5u16) | (((w
        >> 4u16) & 1) << 4u16) | (((w >> 3u16) & 1) << 3u16) | (((w >> 2u16) & 1) << 2u16) | (((
    w >> 1u16) & 1) << 1u16) | ((w >> 0u16) & 1))) by (bit_vector);
    assert forall|i: u16| i < 16 implies #[trigger] ((w >> i) & 1) <= 1 by {
        assert((w >> i) & 1 <= 1) by (bit_vector);
    }
}

proof fn lemma_bits_u16_raw(w: u16, b15: u16, b14: u16, b13: u16, b12: u16, b11: u16, b10: u16, b9: u16, b8: u16, b7: u16, b6: u16, b5: u16, b4: u16, b3: u16, b2: u16, b1: u16, b0: u16)
    by (bit_vector)
    requires
        b15 <= 1,
        b14 <= 1,
        b13 <= 1,
        b12 <= 1,
        b11 <= 1,
        b10 <= 1,
        b9 <= 1,
        b8 <= 1,
        b7 <= 1,
        b6 <= 1,
        b5 <= 1,
        b4 <= 1,
        b3 <= 1,
        b2 <= 1,
        b1 <= 1,
        b0 <= 1,
        w == (b15 << 15u16) | (b14 << 14u16) | (b13 << 13u16) | (b12 << 12u16) | (b11 << 11u16) | (b10 << 10u16) | (b9 << 9u16) | (b8 << 8u16) | (b7 << 7u16) | (b6 << 6u16) | (b5 << 5u16) | (b4 << 4u16) | (b3 << 3u16) | (b2 << 2u16) | (b1 << 1u16) | b0,
    ensures
        (w >> 15u16) & 1 == b15,
        (w >> 14u16) & 1 == b14,
        (w >> 13u16) & 1 == b13,
        (w >> 12u16) & 1 == b12,
        (w >> 11u16) & 1 == b11,
        (w >> 10u16) & 1 == b10,
        (w >> 9u16) & 1 == b9,
        (w >> 8u16) & 1 == b8,
        (w >> 7u16) & 1 == b7,
        (w >> 6u16) & 1 == b6,
        (w >> 5u16) & 1 == b5,
        (w >> 4u16) & 1 == b4,
        (w >> 3u16) & 1 == b3,
        (w >> 2u16) & 1 == b2,
        (w >> 1u16) & 1 == b1,
        (w >> 0u16) & 1 == b0,
{
}

proof fn lemma_bits_u16(w: u16, b15: u16, b14: u16, b13: u16, b12: u16, b11: u16, b10: u16, b9: u16, b8: u16, b7: u16, b6: u16, b5: u16, b4: u16, b3: u16, b2: u16, b1: u16, b0: u16)
    requires
        b15 <= 1,
        b14 <= 1,
        b13 <= 1,
        b12 <= 1,
        b11 <= 1,
        b10 <= 1,
        b9 <= 1,
        b8 <= 1,
        b7 <= 1,
        b6 <= 1,
        b5 <= 1,
        b4 <= 1,
        b3 <= 1,
        b2 <= 1,
        b1 <= 1,
        b0 <= 1,
        w == spec_pack16(b15, b14, b13, b12, b11, b10, b9, b8, b7, b6, b5, b4, b3, b2, b1, b0),
    ensures
        (w >> 15u16) & 1 == b15,
        (w >> 14u16) & 1 == b14,
        (w >> 13u16) & 1 == b13,
        (w >> 12u16) & 1 == b12,
        (w >> 11u16) & 1 == b11,
        (w >> 10u16) & 1 == b10,
        (w >> 9u16) & 1 == b9,
        (w >> 8u16) & 1 == b8,
        (w >> 7u16) & 1 == b7,
        (w >> 6u16) & 1 == b6,
        (w >> 5u16) & 1 == b5,
        (w >> 4u16) & 1 == b4,
        (w >> 3u16) & 1 == b3,
        (w >> 2u16) & 1 == b2,
        (w >> 1u16) & 1 == b1,
        (w >> 0u16) & 1 == b0,
{
    reveal(spec_pack16);
    lemma_bits_u16_raw(w, b15, b14, b13, b12, b11, b10, b9, b8, b7, b6, b5, b4, b3, b2, b1, b0);
}

/// Encoding a decoded microcode word gives back the word.
pub proof fn law_control_word_u16_roundtrip(w: u16)
    ensures
        spec_control_word_into_u16(spec_control_word_from_u16(w)) == w,
{
    reveal(spec_pack16);
    reveal(spec_signal_of);
    reveal(spec_signal_bit);
    lemma_u16_bits(w);
    let c = spec_control_word_from_u16(w);
    assert forall|i: u16| i < 16 implies spec_signal_bit(#[trigger] spec_bit_signal(w, i)) == (w
        >> i) & 1 by {
        assert((w >> i) & 1 <= 1);
    }
    assert(spec_signal_bit(spec_bit_signal(w, 0)) == (w >> 0u16) & 1);
    assert(spec_signal_bit(spec_bit_signal(w, 1)) == (w >> 1u16) & 1);
    assert(spec_signal_bit(spec_bit_signal(w, 2)) == (w >> 2u16) & 1);
    assert(spec_signal_bit(spec_bit_signal(w, 3)) == (w >> 3u16) & 1);
    assert(spec_signal_bit(spec_bit_signal(w, 4)) == (w >> 4u16) & 1);
    assert(spec_signal_bit(spec_bit_signal(w, 5)) == (w >> 5u16) & 1);
    assert(spec_signal_bit(spec_bit_signal(w, 6)) == (w >> 6u16) & 1);
    assert(spec_signal_bit(spec_bit_signal(w, 7)) == (w >> 7u16) & 1);
    assert(spec_signal_bit(spec_bit_signal(w, 8)) == (w >> 8u16) & 1);
    assert(spec_signal_bit(spec_bit_signal(w, 9)) == (w >> 9u16) & 1);
    assert(spec_signal_bit(spec_bit_signal(w, 10)) == (w >> 10u16) & 1);
    assert(spec_signal_bit(spec_bit_signal(w, 11)) == (w >> 11u16) & 1);
    assert(spec_signal_bit(spec_bit_signal(w, 12)) == (w >> 12u16) & 1);
    assert(spec_signal_bit(spec_bit_signal(w, 13)) == (w >> 13u16) & 1);
    assert(spec_signal_bit(spec_bit_signal(w, 14)) == (w >> 14u16) & 1);
    assert(spec_signal_bit(spec_bit_signal(w, 15)) == (w >> 15u16) & 1);
}

proof fn lemma_signal_bit_small(s: Signal)
    ensures
        spec_signal_bit(s) <= 1,
{
    reveal(spec_signal_bit);
}

/// Decoding an encoded control word gives back the control word.
pub proof fn law_u16_control_word_roundtrip(c: ControlWord)
    ensures
        spec_control_word_from_u16(spec_control_word_into_u16(c)) == c,
{
    lemma_decode_encoded(c);
}

proof fn lemma_field(w: u16, i: u16, s: Signal)
    requires
        (w >> i) & 1 == spec_signal_bit(s),
    ensures
        spec_bit_signal(w, i) == s,
{
    reveal(spec_signal_of);
    reveal(spec_signal_bit);
}

#[verifier::spinoff_prover]
#[verifier::rlimit(100)]
proof fn lemma_decode_encoded(c: ControlWord)
    ensures
        spec_control_word_from_u16(spec_control_word_into_u16(c)) == c,
{
    lemma_signal_bit_small(c.data_ip);
    lemma_signal_bit_small(c.data_sp);
    lemma_signal_bit_small(c.data_cf);
    lemma_signal_bit_small(c.data_il);
    lemma_signal_bit_small(c.data_al);
    lemma_signal_bit_small(c.data_xl);
    lemma_signal_bit_small(c.data_yl);
    lemma_signal_bit_small(c.data_zl);
    lemma_signal_bit_small(c.mem_data);
    lemma_signal_bit_small(c.data_mem);
    lemma_signal_bit_small(c.ip_data);
    lemma_signal_bit_small(c.sp_data);
    lemma_signal_bit_small(c.clr_sc);
    lemma_signal_bit_small(c.set_cin);
    lemma_signal_bit_small(c.sum_data);
    lemma_signal_bit_small(c.nand_data);
    let w = spec_control_word_into_u16(c);
    lemma_bits_u16(w, spec_signal_bit(c.data_ip), spec_signal_bit(c.data_sp), spec_signal_bit(c.data_cf), spec_signal_bit(c.data_il), spec_signal_bit(c.data_al), spec_signal_bit(c.data_xl), spec_signal_bit(c.data_yl), spec_signal_bit(c.data_zl), spec_signal_bit(c.mem_data), spec_signal_bit(c.data_mem), spec_signal_bit(c.ip_data), spec_signal_bit(c.sp_data), spec_signal_bit(c.clr_sc), spec_signal_bit(c.set_cin), spec_signal_bit(c.sum_data), spec_signal_bit(c.nand_data));
    lemma_field(w, 15u16, c.data_ip);
    lemma_field(w, 14u16, c.data_sp);
    lemma_field(w, 13u16, c.data_cf);
    lemma_field(w, 12u16, c.data_il);
    lemma_field(w, 11u16, c.data_al);
    lemma_field(w, 10u16, c.data_xl);
    lemma_field(w, 9u16, c.data_yl);
    lemma_field(w, 8u16, c.data_zl);
    lemma_field(w, 7u16, c.mem_data);
    lemma_field(w, 6u16, c.data_mem);
    lemma_field(w, 5u16, c.ip_data);
    lemma_field(w, 4u16, c.sp_data);
    lemma_field(w, 3u16, c.clr_sc);
    lemma_field(w, 2u16, c.set_cin);
    lemma_field(w, 1u16, c.sum_data);
    lemma_field(w, 0u16, c.nand_data);
}

/// Sentinel microcode words standing for the tick traps.
pub const MICROCODE_FAULT_SENTINEL: u16 = 0xFFFF;

pub const ILLEGAL_OPCODE_SENTINEL: u16 = 0xFFFE;

pub const DEBUG_REQUEST_SENTINEL: u16 = 0xFFFD;

pub const BUS_FAULT_SENTINEL: u16 = 0xFFFC;

/// Interpretation of a microcode word: a sentinel stands for a trap, any other word for its
/// control signals.
pub open spec fn spec_u16_into_result(w: u16) -> Result<ControlWord, TickTrap> {
    if w == MICROCODE_FAULT_SENTINEL {
        Err(TickTrap::MicrocodeFault)
    } else if w == ILLEGAL_OPCODE_SENTINEL {
        Err(TickTrap::IllegalOpcode)
    } else if w == DEBUG_REQUEST_SENTINEL {
        Err(TickTrap::DebugRequest)
    } else if w == BUS_FAULT_SENTINEL {
        Err(TickTrap::BusFault)
    } else {
        Ok(spec_control_word_from_u16(w))
    }
}

/// Encoding of a microcode step result into a microcode word.
pub open spec fn spec_result_into_u16(r: Result<ControlWord, TickTrap>) -> u16 {
    match r {
        Err(TickTrap::MicrocodeFault) => MICROCODE_FAULT_SENTINEL,
        Err(TickTrap::IllegalOpcode) => ILLEGAL_OPCODE_SENTINEL,
        Err(TickTrap::DebugRequest) => DEBUG_REQUEST_SENTINEL,
        Err(TickTrap::BusFault) => BUS_FAULT_SENTINEL,
        Ok(c) => spec_control_word_into_u16(c),
    }
}

/// Interprets a microcode word as a trap or as control signals.
pub fn u16_into_result(w: u16) -> (r: Result<ControlWord, TickTrap>)
    ensures
        r == spec_u16_into_result(w),
{
    if w == MICROCODE_FAULT_SENTINEL {
        Err(TickTrap::MicrocodeFault)
    } else if w == ILLEGAL_OPCODE_SENTINEL {
        Err(TickTrap::IllegalOpcode)
    } else if w == DEBUG_REQUEST_SENTINEL {
        Err(TickTrap::DebugRequest)
    } else if w == BUS_FAULT_SENTINEL {
        Err(TickTrap::BusFault)
    } else {
        Ok(control_word_from_u16(w))
    }
}

/// Encodes a trap or control signals into a microcode word.
pub fn result_into_u16(r: Result<ControlWord, TickTrap>) -> (w: u16)
    ensures
        w == spec_result_into_u16(r),
{
    match r {
        Err(TickTrap::MicrocodeFault) => MICROCODE_FAULT_SENTINEL,
        Err(TickTrap::IllegalOpcode) => ILLEGAL_OPCODE_SENTINEL,
        Err(TickTrap::DebugRequest) => DEBUG_REQUEST_SENTINEL,
        Err(TickTrap::BusFault) => BUS_FAULT_SENTINEL,
        Ok(c) => control_word_into_u16(c),
    }
}

/// Every microcode word survives interpretation and encoding.
pub proof fn law_u16_result_roundtrip(w: u16)
    ensures
        spec_result_into_u16(spec_u16_into_result(w)) == w,
{
    law_control_word_u16_roundtrip(w);
}

/// Every trap, and every control word whose encoding is not a sentinel, survives encoding and
/// interpretation.
pub proof fn law_result_u16_roundtrip(r: Result<ControlWord, TickTrap>)
    requires
        r matches Ok(c) ==> spec_control_word_into_u16(c) < BUS_FAULT_SENTINEL,
    ensures
        spec_u16_into_result(spec_result_into_u16(r)) == r,
{
    if let Ok(c) = r {
        law_u16_control_word_roundtrip(c);
    }
}

} // verus!

verus! {

/// An immediate pushed by `psh`, in `0x00..=0x7F`.
#[derive(Clone, Copy, Debug, PartialEq, Eq, Structural)]
pub struct Imm(pub u8);

/// An operand size in bytes: 1, 2, 4 or 8.
#[derive(Clone, Copy, Debug, PartialEq, Eq, Structural)]
pub struct Size(pub u8);

/// A stack offset of `ldo` and `sto`, in `0x0..=0xF`.
#[derive(Clone, Copy, Debug, PartialEq, Eq, Structural)]
pub struct Ofst(pub u8);

/// A negative immediate pushed by `phn`, in `0xF0..=0xFF`.
#[derive(Clone, Copy, Debug, PartialEq, Eq, Structural)]
pub struct Nimm(pub u8);

pub open spec fn spec_imm_valid(imm: u8) -> bool {
    imm <= 0x7F
}

pub open spec fn spec_size_valid(size: u8) -> bool {
    size == 1 || size == 2 || size == 4 || size == 8
}

pub open spec fn spec_ofst_valid(ofst: u8) -> bool {
    ofst <= 0x0F
}

pub open spec fn spec_nimm_valid(nimm: u8) -> bool {
    nimm >= 0xF0
}

impl Imm {
    /// The immediate `imm`, if it fits in seven bits.
    pub fn new(imm: u8) -> (r: Option<Imm>)
        ensures
            r == (if spec_imm_valid(imm) { Some(Imm(imm)) } else { None::<Imm> }),
    {
        if imm <= 0x7F {
            Some(Imm(imm))
        } else {
            None
        }
    }

    /// The immediate `imm`, which must fit in seven bits.
    pub fn asserted(imm: u8) -> (r: Imm)
        requires
            spec_imm_valid(imm),
        ensures
            r == Imm(imm),
    {
        match Imm::new(imm) {
            Some(r) => r,
            None => Imm(0),
        }
    }
}

impl Size {
    /// The size `size`, if it is 1, 2, 4 or 8.
    pub fn new(size: u8) -> (r: Option<Size>)
        ensures
            r == (if spec_size_valid(size) { Some(Size(size)) } else { None::<Size> }),
    {
        if size == 1 || size == 2 || size == 4 || size == 8 {
            Some(Size(size))
        } else {
            None
        }
    }

    /// The size `size`, which must be 1, 2, 4 or 8.
    pub fn asserted(size: u8) -> (r: Size)
        requires
            spec_size_valid(size),
        ensures
            r == Size(size),
    {
        match Size::new(size) {
            Some(r) => r,
            None => Size(1),
        }
    }
}

impl Ofst {
    /// The offset `ofst`, if it fits in four bits.
    pub fn new(ofst: u8) -> (r: Option<Ofst>)
        ensures
            r == (if spec_ofst_valid(ofst) { Some(Ofst(ofst)) } else { None::<Ofst> }),
    {
        if ofst <= 0x0F {
            Some(Ofst(ofst))
        } else {
            None
        }
    }

    /// The offset `ofst`, which must fit in four bits.
    pub fn asserted(ofst: u8) -> (r: Ofst)
        requires
            spec_ofst_valid(ofst),
        ensures
            r == Ofst(ofst),
    {
        match Ofst::new(ofst) {
            Some(r) => r,
            None => Ofst(0),
        }
    }
}

impl Nimm {
    /// The negative immediate `nimm`, if it lies in `0xF0..=0xFF`.
    pub fn new(nimm: u8) -> (r: Option<Nimm>)
        ensures
            r == (if spec_nimm_valid(nimm) { Some(Nimm(nimm)) } else { None::<Nimm> }),
    {
        if nimm >= 0xF0 {
            Some(Nimm(nimm))
        } else {
            None
        }
    }

    /// The negative immediate `nimm`, which must lie in `0xF0..=0xFF`.
    pub fn asserted(nimm: u8) -> (r: Nimm)
        requires
            spec_nimm_valid(nimm),
        ensures
            r == Nimm(nimm),
    {
        match Nimm::new(nimm) {
            Some(r) => r,
            None => Nimm(0xF0),
        }
    }
}

/// An Atto-8 instruction.
#[derive(Clone, Copy, Debug, PartialEq, Eq, Structural)]
pub enum Instruction {
    Psh(Imm),
    Add(Size),
    Sub(Size),
    Iff(Size),
    Swp(Size),
    Rot(Size),
    Orr(Size),
    And(Size),
    Xor(Size),
    Xnd(Size),
    Inc,
    Dec,
    Neg,
    Shl,
    Shr,
    Not,
    Buf,
    Dbg,
    Ldo(Ofst),
    Sto(Ofst),
    Lda,
    Sta,
    Ldi,
    Sti,
    Lds,
    Sts,
    Clc,
    Sec,
    Flc,
    Nop,
    Pop,
    Phn(Nimm),
}

/// Whether the operand of an instruction lies in its range.
pub open spec fn spec_instruction_valid(i: Instruction) -> bool {
    match i {
        Instruction::Psh(Imm(v)) => spec_imm_valid(v),
        Instruction::Add(Size(s)) => spec_size_valid(s),
        Instruction::Sub(Size(s)) => spec_size_valid(s),
        Instruction::Iff(Size(s)) => spec_size_valid(s),
        Instruction::Swp(Size(s)) => spec_size_valid(s),
        Instruction::Rot(Size(s)) => spec_size_valid(s),
        Instruction::Orr(Size(s)) => spec_size_valid(s),
        Instruction::And(Size(s)) => spec_size_valid(s),
        Instruction::Xor(Size(s)) => spec_size_valid(s),
        Instruction::Xnd(Size(s)) => spec_size_valid(s),
        Instruction::Ldo(Ofst(o)) => spec_ofst_valid(o),
        Instruction::Sto(Ofst(o)) => spec_ofst_valid(o),
        Instruction::Phn(Nimm(n)) => spec_nimm_valid(n),
        _ => true,
    }
}

/// Whether every operand in a decoding result lies in its range.
pub open spec fn spec_decoded_valid(r: Result<Instruction, u8>) -> bool {
    match r {
        Ok(i) => spec_instruction_valid(i),
        Err(_) => true,
    }
}

/// The size whose code is the two low bits of an opcode.
pub open spec fn spec_decode_size(code: u8) -> Size {
    if code == 0 {
        Size(1)
    } else if code == 1 {
        Size(2)
    } else if code == 2 {
        Size(4)
    } else {
        Size(8)
    }
}

/// The two-bit code of a size (its base-two logarithm).
pub open spec fn spec_size_code(size: Size) -> u8 {
    if size.0 == 1 {
        0
    } else if size.0 == 2 {
        1
    } else if size.0 == 4 {
        2
    } else {
        3
    }
}

/// Decoding of an opcode. Bit 7 clear is `psh`; bits 7..6 `10` are the arithmetic and logic
/// group, where bits 5..2 select the operation and bits 1..0 the size; bits 7..5 `110` are the
/// offset operations, bit 4 selecting `sto`; bits 7..4 `1110` are the carry, flag and stack
/// operations; bits 7..4 `1111` are `phn`.
pub open spec fn spec_opcode_to_instruction(op: u8) -> Result<Instruction, u8> {
    if op < 0x80 {
        Ok(Instruction::Psh(Imm(op)))
    } else if op < 0xC0 {
        let size = spec_decode_size(op % 4);
        let group = (op % 0x40) / 4;
        if group == 0x0 {
            Ok(Instruction::Add(size))
        } else if group == 0x1 {
            Ok(Instruction::Sub(size))
        } else if group == 0x4 {
            Ok(Instruction::Iff(size))
        } else if group == 0x5 {
            Ok(Instruction::Swp(size))
        } else if group == 0x6 {
            Ok(Instruction::Rot(size))
        } else if group == 0x8 {
            Ok(Instruction::Orr(size))
        } else if group == 0x9 {
            Ok(Instruction::And(size))
        } else if group == 0xA {
            Ok(Instruction::Xor(size))
        } else if group == 0xB {
            Ok(Instruction::Xnd(size))
        } else if op == 0xB0 {
            Ok(Instruction::Inc)
        } else if op == 0xB1 {
            Ok(Instruction::Dec)
        } else if op == 0xB2 {
            Ok(Instruction::Neg)
        } else if op == 0xB4 {
            Ok(Instruction::Shl)
        } else if op == 0xB5 {
            Ok(Instruction::Shr)
        } else if op == 0xB6 {
            Ok(Instruction::Not)
        } else if op == 0xB7 {
            Ok(Instruction::Buf)
        } else if op == 0xBB {
            Ok(Instruction::Dbg)
        } else {
            Err(op)
        }
    } else if op < 0xD0 {
        Ok(Instruction::Ldo(Ofst(op % 0x10)))
    } else if op < 0xE0 {
        Ok(Instruction::Sto(Ofst(op % 0x10)))
    } else if op < 0xF0 {
        let low = op % 0x10;
        if low == 0x0 {
            Ok(Instruction::Lda)
        } else if low == 0x1 {
            Ok(Instruction::Sta)
        } else if low == 0x2 {
            Ok(Instruction::Ldi)
        } else if low == 0x3 {
            Ok(Instruction::Sti)
        } else if low == 0x4 {
            Ok(Instruction::Lds)
        } else if low == 0x5 {
            Ok(Instruction::Sts)
        } else if low == 0x8 {
            Ok(Instruction::Clc)
        } else if low == 0x9 {
            Ok(Instruction::Sec)
        } else if low == 0xA {
            Ok(Instruction::Flc)
        } else if low == 0xE {
            Ok(Instruction::Nop)
        } else if low == 0xF {
            Ok(Instruction::Pop)
        } else {
            Err(op)
        }
    } else {
        Ok(Instruction::Phn(Nimm(op)))
    }
}

/// Encoding of an instruction; an undecodable byte encodes as itself.
pub open spec fn spec_instruction_to_opcode(r: Result<Instruction, u8>) -> u8 {
    match r {
        Ok(Instruction::Psh(Imm(v))) => v,
        Ok(Instruction::Add(s)) => (0x80 + spec_size_code(s)) as u8,
        Ok(Instruction::Sub(s)) => (0x84 + spec_size_code(s)) as u8,
        Ok(Instruction::Iff(s)) => (0x90 + spec_size_code(s)) as u8,
        Ok(Instruction::Swp(s)) => (0x94 + spec_size_code(s)) as u8,
        Ok(Instruction::Rot(s)) => (0x98 + spec_size_code(s)) as u8,
        Ok(Instruction::Orr(s)) => (0xA0 + spec_size_code(s)) as u8,
        Ok(Instruction::And(s)) => (0xA4 + spec_size_code(s)) as u8,
        Ok(Instruction::Xor(s)) => (0xA8 + spec_size_code(s)) as u8,
        Ok(Instruction::Xnd(s)) => (0xAC + spec_size_code(s)) as u8,
        Ok(Instruction::Inc) => 0xB0,
        Ok(Instruction::Dec) => 0xB1,
        Ok(Instruction::Neg) => 0xB2,
        Ok(Instruction::Shl) => 0xB4,
        Ok(Instruction::Shr) => 0xB5,
        Ok(Instruction::Not) => 0xB6,
        Ok(Instruction::Buf) => 0xB7,
        Ok(Instruction::Dbg) => 0xBB,
        Ok(Instruction::Ldo(Ofst(o))) => (0xC0 + o) as u8,
        Ok(Instruction::Sto(Ofst(o))) => (0xD0 + o) as u8,
        Ok(Instruction::Lda) => 0xE0,
        Ok(Instruction::Sta) => 0xE1,
        Ok(Instruction::Ldi) => 0xE2,
        Ok(Instruction::Sti) => 0xE3,
        Ok(Instruction::Lds) => 0xE4,
        Ok(Instruction::Sts) => 0xE5,
        Ok(Instruction::Clc) => 0xE8,
        Ok(Instruction::Sec) => 0xE9,
        Ok(Instruction::Flc) => 0xEA,
        Ok(Instruction::Nop) => 0xEE,
        Ok(Instruction::Pop) => 0xEF,
        Ok(Instruction::Phn(Nimm(n))) => (0xF0 + n % 0x10) as u8,
        Err(op) => op,
    }
}

fn decode_size(opcode: u8) -> (r: Size)
    ensures
        r == spec_decode_size(opcode % 4),
        spec_size_valid(r.0),
{
    let code = opcode % 4;
    if code == 0 {
        Size(1)
    } else if code == 1 {
        Size(2)
    } else if code == 2 {
        Size(4)
    } else {
        Size(8)
    }
}

fn encode_size(size: Size) -> (r: u8)
    requires
        spec_size_valid(size.0),
    ensures
        r == spec_size_code(size),
        r < 4,
{
    let Size(size) = Size::asserted(size.0);
    if size == 1 {
        0
    } else if size == 2 {
        1
    } else if size == 4 {
        2
    } else {
        3
    }
}

/// Decodes an opcode into an instruction; an opcode that encodes nothing comes back as `Err`.
pub fn opcode_to_instruction(opcode: u8) -> (r: Result<Instruction, u8>)
    ensures
        r == spec_opcode_to_instruction(opcode),
        spec_decoded_valid(r),
{
    if opcode < 0x80 {
        Ok(Instruction::Psh(Imm::asserted(opcode % 0x80)))
    } else if opcode < 0xC0 {
        let group = (opcode % 0x40) / 4;
        match group {
            0x0 => Ok(Instruction::Add(decode_size(opcode))),
            0x1 => Ok(Instruction::Sub(decode_size(opcode))),
            0x4 => Ok(Instruction::Iff(decode_size(opcode))),
            0x5 => Ok(Instruction::Swp(decode_size(opcode))),
            0x6 => Ok(Instruction::Rot(decode_size(opcode))),
            0x8 => Ok(Instruction::Orr(decode_size(opcode))),
            0x9 => Ok(Instruction::And(decode_size(opcode))),
            0xA => Ok(Instruction::Xor(decode_size(opcode))),
            0xB => Ok(Instruction::Xnd(decode_size(opcode))),
            _ => match opcode {
                0xB0 => Ok(Instruction::Inc),
                0xB1 => Ok(Instruction::Dec),
                0xB2 => Ok(Instruction::Neg),
                0xB4 => Ok(Instruction::Shl),
                0xB5 => Ok(Instruction::Shr),
                0xB6 => Ok(Instruction::Not),
                0xB7 => Ok(Instruction::Buf),
                0xBB => Ok(Instruction::Dbg),
                _ => Err(opcode),
            },
        }
    } else if opcode < 0xD0 {
        Ok(Instruction::Ldo(Ofst::asserted(opcode % 0x10)))
    } else if opcode < 0xE0 {
        Ok(Instruction::Sto(Ofst::asserted(opcode % 0x10)))
    } else if opcode < 0xF0 {
        match opcode % 0x10 {
            0x0 => Ok(Instruction::Lda),
            0x1 => Ok(Instruction::Sta),
            0x2 => Ok(Instruction::Ldi),
            0x3 => Ok(Instruction::Sti),
            0x4 => Ok(Instruction::Lds),
            0x5 => Ok(Instruction::Sts),
            0x8 => Ok(Instruction::Clc),
            0x9 => Ok(Instruction::Sec),
            0xA => Ok(Instruction::Flc),
            0xE => Ok(Instruction::Nop),
            0xF => Ok(Instruction::Pop),
            _ => Err(opcode),
        }
    } else {
        Ok(Instruction::Phn(Nimm::asserted(opcode)))
    }
}

/// Encodes an instruction into its opcode; an undecodable byte encodes as itself. Every operand
/// must lie in its range.
pub fn instruction_to_opcode(instruction: Result<Instruction, u8>) -> (r: u8)
    requires
        spec_decoded_valid(instruction),
    ensures
        r == spec_instruction_to_opcode(instruction),
{
    match instruction {
        Ok(Instruction::Psh(Imm(imm))) => Imm::asserted(imm).0,
        Ok(Instruction::Add(size)) => 0x80 + encode_size(size),
        Ok(Instruction::Sub(size)) => 0x84 + encode_size(size),
        Ok(Instruction::Iff(size)) => 0x90 + encode_size(size),
        Ok(Instruction::Swp(size)) => 0x94 + encode_size(size),
        Ok(Instruction::Rot(size)) => 0x98 + encode_size(size),
        Ok(Instruction::Orr(size)) => 0xA0 + encode_size(size),
        Ok(Instruction::And(size)) => 0xA4 + encode_size(size),
        Ok(Instruction::Xor(size)) => 0xA8 + encode_size(size),
        Ok(Instruction::Xnd(size)) => 0xAC + encode_size(size),
        Ok(Instruction::Inc) => 0xB0,
        Ok(Instruction::Dec) => 0xB1,
        Ok(Instruction::Neg) => 0xB2,
        Ok(Instruction::Shl) => 0xB4,
        Ok(Instruction::Shr) => 0xB5,
        Ok(Instruction::Not) => 0xB6,
        Ok(Instruction::Buf) => 0xB7,
        Ok(Instruction::Dbg) => 0xBB,
        Ok(Instruction::Ldo(Ofst(ofst))) => 0xC0 + Ofst::asserted(ofst).0,
        Ok(Instruction::Sto(Ofst(ofst))) => 0xD0 + Ofst::asserted(ofst).0,
        Ok(Instruction::Lda) => 0xE0,
        Ok(Instruction::Sta) => 0xE1,
        Ok(Instruction::Ldi) => 0xE2,
        Ok(Instruction::Sti) => 0xE3,
        Ok(Instruction::Lds) => 0xE4,
        Ok(Instruction::Sts) => 0xE5,
        Ok(Instruction::Clc) => 0xE8,
        Ok(Instruction::Sec) => 0xE9,
        Ok(Instruction::Flc) => 0xEA,
        Ok(Instruction::Nop) => 0xEE,
        Ok(Instruction::Pop) => 0xEF,
        Ok(Instruction::Phn(Nimm(nimm))) => 0xF0 + Nimm::asserted(nimm).0 % 0x10,
        Err(opcode) => opcode,
    }
}

/// Every byte decodes to an instruction, or to itself, that encodes back to the byte.
pub proof fn law_opcode_roundtrip(opcode: u8)
    ensures
        spec_decoded_valid(spec_opcode_to_instruction(opcode)),
        spec_instruction_to_opcode(spec_opcode_to_instruction(opcode)) == opcode,
{
}

/// Every instruction whose operands lie in their ranges survives encoding and decoding.
pub proof fn law_instruction_roundtrip(instruction: Instruction)
    requires
        spec_instruction_valid(instruction),
    ensures
        spec_opcode_to_instruction(spec_instruction_to_opcode(Ok::<Instruction, u8>(instruction)))
            == Ok::<Instruction, u8>(instruction),
{
}

/// A machine that the execution loop drives one tick at a time, with standard input, standard
/// output, the display and the controller as its peripherals.
pub trait Tickable {
    /// Whether the machine can be reset from its present state without a trap.
    spec fn resettable(&self) -> bool;

    /// Puts the machine and its peripherals in their initial state.
    fn reset(
        &mut self,
        stdin: &mut VecDeque<u8>,
        stdout: &mut VecDeque<u8>,
        display: &mut [u8; DISPLAY_BUFFER_LEN],
        controller: &mut u8,
    )
        requires
            old(self).resettable(),
    ;

    /// Advances the machine by one step, returning the clock cycles it took or the trap it hit.
    fn tick(
        &mut self,
        stdin: &mut VecDeque<u8>,
        stdout: &mut VecDeque<u8>,
        display: &mut [u8; DISPLAY_BUFFER_LEN],
        controller: &mut u8,
    ) -> Result<u128, TickTrap>;
}


/// Whether bit `k` (0 the least significant) of a byte is set.
pub open spec fn spec_byte_bit(v: u8, k: u8) -> bool {
    (v >> k) & 1 == 1
}

} // verus!
