//! The register transfers of the microarchitecture, one microcode step at a time, and laws that
//! the microcode of instructions changes the machine as the instruction-level emulator does.

use vstd::prelude::*;
use crate::common::{spec_result_into_u16, spec_opcode_to_instruction, ControlWord, Instruction, Signal, TickTrap, DISPLAY_BUFFER};
use crate::emu::{spec_tick, EmuState};
use crate::mic::{
    law_microcode_fits, spec_clr_sc, spec_is_microcode, spec_mic_index, spec_opcode_steps, spec_padded,
    spec_program, spec_cinsum_xlylcf, spec_sum_xlylcf, spec_cinsum_spxl, spec_sp_xl, spec_sum_spal, spec_mem_xlyl, spec_nand_ylcf, spec_nand_zlcf, spec_noop, spec_nand_mem, spec_sp_al, spec_set_xlylzl, spec_nand_memyl, spec_mem_yl, spec_nand_ylzl, spec_mem_xl, spec_cinsum_xlcf, spec_sum_xlcf, spec_cinsum_alxl, spec_cinsum_mem, spec_cinsum_sp, spec_cinsum_yl, spec_fetch_steps, spec_instruction_steps,
    spec_mem_zl, spec_nand_memcf, spec_nand_xl, spec_nand_yl, spec_nand_zl, spec_set_yl, spec_set_ylzl,
    spec_set_zl, spec_sp_alxl, Step,
};
use crate::common::Size;

verus! {

/// The registers, latches and memory that microcode steps move bytes between.
pub struct Datapath {
    pub mem: Seq<u8>,
    pub ip: u8,
    pub sp: u8,
    pub cf: bool,
    pub il: u8,
    pub al: u8,
    pub xl: u8,
    pub yl: u8,
    pub zl: u8,
}

pub open spec fn spec_on(s: Signal) -> bool {
    s == Signal::Active
}

/// The output of the adder: X plus Y plus the carry in that the step sets.
pub open spec fn spec_adder(d: Datapath, c: ControlWord) -> int {
    d.xl + d.yl + if spec_on(c.set_cin) { 1int } else { 0int }
}

/// The output of the not-and gate of Y and Z.
pub open spec fn spec_nand(d: Datapath) -> u8 {
    !(d.yl & d.zl)
}

/// The byte on the data bus: from the register or memory that drives it, or pulled up to `0xFF`
/// where nothing does.
pub open spec fn spec_bus(d: Datapath, c: ControlWord) -> u8 {
    if spec_on(c.ip_data) {
        d.ip
    } else if spec_on(c.sp_data) {
        d.sp
    } else if spec_on(c.mem_data) {
        d.mem[d.al as int]
    } else if spec_on(c.sum_data) {
        (spec_adder(d, c) % 256) as u8
    } else if spec_on(c.nand_data) {
        spec_nand(d)
    } else {
        0xFF
    }
}

/// One step: every register the control word selects takes the byte on the bus, memory at the
/// address latch too, and the carry flag takes the adder's carry out or whether the not-and is
/// zero.
pub open spec fn spec_transfer(d: Datapath, c: ControlWord) -> Datapath {
    let b = spec_bus(d, c);
    Datapath {
        mem: if spec_on(c.data_mem) { d.mem.update(d.al as int, b) } else { d.mem },
        ip: if spec_on(c.data_ip) { b } else { d.ip },
        sp: if spec_on(c.data_sp) { b } else { d.sp },
        cf: if spec_on(c.data_cf) {
            if spec_on(c.sum_data) { spec_adder(d, c) > 0xFF } else { spec_nand(d) == 0 }
        } else {
            d.cf
        },
        il: if spec_on(c.data_il) { b } else { d.il },
        al: if spec_on(c.data_al) { b } else { d.al },
        xl: if spec_on(c.data_xl) { b } else { d.xl },
        yl: if spec_on(c.data_yl) { b } else { d.yl },
        zl: if spec_on(c.data_zl) { b } else { d.zl },
    }
}

/// Steps one after another; nothing at a step that traps.
pub open spec fn spec_transfers(d: Datapath, steps: Seq<Step>) -> Option<Datapath>
    decreases steps.len(),
{
    if steps.len() == 0 {
        Some(d)
    } else {
        match steps[0] {
            Ok(c) => spec_transfers(spec_transfer(d, c), steps.drop_first()),
            Err(_) => None,
        }
    }
}

/// Facts of the not-and gate on bytes that the microcode relies on.
proof fn lemma_gates(a: u8, b: u8)
    by (bit_vector)
    ensures
        !(0xFFu8 & 0xFFu8) == 0u8,
        !(0u8 & 0u8) == 0xFFu8,
        !(0xFFu8 & a) == !a,
        !(a & 0xFFu8) == !a,
        !(0xFFu8 & !a) == a,
        !(0xFFu8 & !(0xFFu8 & a)) == a,
        !(a & a) == (255 - a) as u8,
        !(!(a & a) & !(a & a)) == a,
        !(!(a & !b) & !(!a & b)) == a ^ b,
        !(!(b & a) & !(b & a)) == b & a,
        !(!a & !b) == a | b,
        b & a == a & b,
        !(0xFFu8 & b) == !b,
{
}

/// The emulator's view of the machine: its memory and registers, with no input waiting.
pub open spec fn spec_emu_view(d: Datapath) -> EmuState {
    EmuState {
        mem: d.mem,
        ip: d.ip,
        sp: d.sp,
        cf: d.cf,
        stdin: Seq::empty(),
        stdout: Seq::empty(),
        display: d.mem.subrange(DISPLAY_BUFFER as int, 0x100),
        controller: 0,
    }
}

/// Whether a machine is ready to run the instruction `i`: the Y latch is clear between
/// instructions, the instruction pointer and the stack pointer point at memory, not at standard
/// input, and the instruction is the one at the instruction pointer.
pub open spec fn spec_ready(d: Datapath, i: Instruction) -> bool {
    &&& d.mem.len() == 0x100
    &&& d.yl == 0
    &&& d.ip != 0
    &&& d.sp != 0
    &&& spec_opcode_to_instruction(d.mem[d.ip as int]) == Ok::<Instruction, u8>(i)
}

/// Whether running the given steps leaves the machine as one tick of the emulator does, in as
/// many clock cycles as there are steps, with the Y latch clear again.
pub open spec fn spec_steps_agree_with_tick(d: Datapath, steps: Seq<Step>) -> bool {
    match spec_transfers(d, steps) {
        Some(e) => {
            let (t, r) = spec_tick(spec_emu_view(d));
            &&& r == Ok::<u128, TickTrap>(steps.len() as u128)
            &&& e.mem == t.mem
            &&& e.ip == t.ip
            &&& e.sp == t.sp
            &&& e.cf == t.cf
            &&& e.yl == 0
        },
        None => false,
    }
}

/// Whether the microcode of `i`, run as the machine reads it, leaves the machine as one tick of
/// the emulator does, in as many clock cycles as its row has steps, with the Y latch clear
/// again.
pub open spec fn spec_agrees_with_tick(d: Datapath, i: Instruction) -> bool {
    match spec_run_rows(d, i, 0) {
        Some(e) => {
            let (t, r) = spec_tick(spec_emu_view(d));
            &&& r == Ok::<u128, TickTrap>(spec_instruction_steps(i, d.cf).len() as u128)
            &&& e.mem == t.mem
            &&& e.ip == t.ip
            &&& e.sp == t.sp
            &&& e.cf == t.cf
            &&& e.yl == 0
        },
        None => false,
    }
}

/// The microcode of `inc` adds one to the top of the stack, as the emulator does.
pub proof fn law_inc_microcode(d: Datapath)
    requires
        spec_ready(d, Instruction::Inc),
    ensures
        spec_agrees_with_tick(d, Instruction::Inc),
{
    let steps = spec_instruction_steps(Instruction::Inc, d.cf);
    assert(spec_steps_agree_with_tick(d, steps)) by {
        reveal_with_fuel(spec_transfers, 7);
        let steps = spec_instruction_steps(Instruction::Inc, d.cf);
        assert(steps.len() == 6);
        let e = spec_transfers(d, steps)->0;
        let t = spec_tick(spec_emu_view(d)).0;
        assert(e.mem =~= t.mem);
    }
    assert(steps.subrange(0, steps.len() as int) =~= steps);
    assert(spec_instruction_steps(Instruction::Inc, true) =~= spec_instruction_steps(Instruction::Inc, false));
    lemma_rows_same(d, spec_instruction_steps(Instruction::Inc, true), 0);
}

/// The microcode of `dec` takes one from the top of the stack, as the emulator does.
pub proof fn law_dec_microcode(d: Datapath)
    requires
        spec_ready(d, Instruction::Dec),
    ensures
        spec_agrees_with_tick(d, Instruction::Dec),
{
    let steps = spec_instruction_steps(Instruction::Dec, d.cf);
    assert(spec_steps_agree_with_tick(d, steps)) by {
        reveal_with_fuel(spec_transfers, 9);
        let steps = spec_instruction_steps(Instruction::Dec, d.cf);
        assert(steps.len() == 8);
        lemma_gates(0u8, 0u8);
        let e = spec_transfers(d, steps)->0;
        let t = spec_tick(spec_emu_view(d)).0;
        assert(e.mem =~= t.mem);
    }
    assert(steps.subrange(0, steps.len() as int) =~= steps);
    assert(spec_instruction_steps(Instruction::Dec, true) =~= spec_instruction_steps(Instruction::Dec, false));
    lemma_rows_same(d, spec_instruction_steps(Instruction::Dec, true), 0);
}

/// The microcode of `not` complements the top of the stack and sets the carry where the result
/// is zero, as the emulator does.
pub proof fn law_not_microcode(d: Datapath)
    requires
        spec_ready(d, Instruction::Not),
    ensures
        spec_agrees_with_tick(d, Instruction::Not),
{
    let steps = spec_instruction_steps(Instruction::Not, d.cf);
    assert(spec_steps_agree_with_tick(d, steps)) by {
        reveal_with_fuel(spec_transfers, 9);
        let steps = spec_instruction_steps(Instruction::Not, d.cf);
        assert(steps.len() == 8);
        let v = d.mem[d.sp as int];
        lemma_gates(v, v);
        lemma_gates(0u8, 0u8);
        let e = spec_transfers(d, steps)->0;
        let t = spec_tick(spec_emu_view(d)).0;
        assert(e.mem =~= t.mem);
    }
    assert(steps.subrange(0, steps.len() as int) =~= steps);
    assert(spec_instruction_steps(Instruction::Not, true) =~= spec_instruction_steps(Instruction::Not, false));
    lemma_rows_same(d, spec_instruction_steps(Instruction::Not, true), 0);
}

/// The microcode of `pop` moves the stack pointer up by one, as the emulator does.
pub proof fn law_pop_microcode(d: Datapath)
    requires
        spec_ready(d, Instruction::Pop),
    ensures
        spec_agrees_with_tick(d, Instruction::Pop),
{
    let steps = spec_instruction_steps(Instruction::Pop, d.cf);
    assert(spec_steps_agree_with_tick(d, steps)) by {
        reveal_with_fuel(spec_transfers, 6);
        let steps = spec_instruction_steps(Instruction::Pop, d.cf);
        assert(steps.len() == 5);
    }
    assert(steps.subrange(0, steps.len() as int) =~= steps);
    assert(spec_instruction_steps(Instruction::Pop, true) =~= spec_instruction_steps(Instruction::Pop, false));
    lemma_rows_same(d, spec_instruction_steps(Instruction::Pop, true), 0);
}


/// The microcode of `neg` leaves the negation of the top of the stack modulo 256, as the emulator does.
pub proof fn law_neg_microcode(d: Datapath)
    requires
        spec_ready(d, Instruction::Neg),
    ensures
        spec_agrees_with_tick(d, Instruction::Neg),
{
    let steps = spec_instruction_steps(Instruction::Neg, d.cf);
    assert(spec_steps_agree_with_tick(d, steps)) by {
        reveal_with_fuel(spec_transfers, 12);
        let steps = spec_instruction_steps(Instruction::Neg, d.cf);
        assert(steps.len() == 11);
        lemma_gates(0u8, 0u8);
        let v = d.mem[d.sp as int];
        lemma_gates(v, v);
        let e = spec_transfers(d, steps)->0;
        let t = spec_tick(spec_emu_view(d)).0;
        assert(e.mem =~= t.mem);
    }
    assert(steps.subrange(0, steps.len() as int) =~= steps);
    assert(spec_instruction_steps(Instruction::Neg, true) =~= spec_instruction_steps(Instruction::Neg, false));
    lemma_rows_same(d, spec_instruction_steps(Instruction::Neg, true), 0);
}

/// The microcode of `shl` shifts the top of the stack left with the carry in and out, as the emulator does.
pub proof fn law_shl_microcode(d: Datapath)
    requires
        spec_ready(d, Instruction::Shl),
    ensures
        spec_agrees_with_tick(d, Instruction::Shl),
{
    let steps = spec_instruction_steps(Instruction::Shl, d.cf);
    assert(spec_steps_agree_with_tick(d, steps)) by {
        reveal_with_fuel(spec_transfers, 10);
        let steps = spec_instruction_steps(Instruction::Shl, d.cf);
        assert(steps.len() == 9);
        lemma_gates(0u8, 0u8);
        let e = spec_transfers(d, steps)->0;
        let t = spec_tick(spec_emu_view(d)).0;
        assert(e.mem =~= t.mem);
    }
    assert(steps.subrange(0, steps.len() as int) =~= steps);
    lemma_rows_shl(d, Instruction::Shl);
}

/// The microcode of `buf` leaves the top of the stack and sets the carry where it is zero, as the emulator does.
pub proof fn law_buf_microcode(d: Datapath)
    requires
        spec_ready(d, Instruction::Buf),
    ensures
        spec_agrees_with_tick(d, Instruction::Buf),
{
    let steps = spec_instruction_steps(Instruction::Buf, d.cf);
    assert(spec_steps_agree_with_tick(d, steps)) by {
        reveal_with_fuel(spec_transfers, 10);
        let steps = spec_instruction_steps(Instruction::Buf, d.cf);
        assert(steps.len() == 9);
        lemma_gates(0u8, 0u8);
        let v = d.mem[d.sp as int];
        lemma_gates(v, v);
        let e = spec_transfers(d, steps)->0;
        let t = spec_tick(spec_emu_view(d)).0;
        assert(e.mem =~= t.mem);
    }
    assert(steps.subrange(0, steps.len() as int) =~= steps);
    assert(spec_instruction_steps(Instruction::Buf, true) =~= spec_instruction_steps(Instruction::Buf, false));
    lemma_rows_same(d, spec_instruction_steps(Instruction::Buf, true), 0);
}

/// The microcode of `clc` clears the carry, as the emulator does.
pub proof fn law_clc_microcode(d: Datapath)
    requires
        spec_ready(d, Instruction::Clc),
    ensures
        spec_agrees_with_tick(d, Instruction::Clc),
{
    let steps = spec_instruction_steps(Instruction::Clc, d.cf);
    assert(spec_steps_agree_with_tick(d, steps)) by {
        reveal_with_fuel(spec_transfers, 7);
        let steps = spec_instruction_steps(Instruction::Clc, d.cf);
        assert(steps.len() == 6);
        lemma_gates(0u8, 0u8);
        let e = spec_transfers(d, steps)->0;
        let t = spec_tick(spec_emu_view(d)).0;
        assert(e.mem =~= t.mem);
    }
    assert(steps.subrange(0, steps.len() as int) =~= steps);
    assert(spec_instruction_steps(Instruction::Clc, true) =~= spec_instruction_steps(Instruction::Clc, false));
    lemma_rows_same(d, spec_instruction_steps(Instruction::Clc, true), 0);
}

/// The microcode of `sec` sets the carry, as the emulator does.
pub proof fn law_sec_microcode(d: Datapath)
    requires
        spec_ready(d, Instruction::Sec),
    ensures
        spec_agrees_with_tick(d, Instruction::Sec),
{
    let steps = spec_instruction_steps(Instruction::Sec, d.cf);
    assert(spec_steps_agree_with_tick(d, steps)) by {
        reveal_with_fuel(spec_transfers, 7);
        let steps = spec_instruction_steps(Instruction::Sec, d.cf);
        assert(steps.len() == 6);
        lemma_gates(0u8, 0u8);
        let e = spec_transfers(d, steps)->0;
        let t = spec_tick(spec_emu_view(d)).0;
        assert(e.mem =~= t.mem);
    }
    assert(steps.subrange(0, steps.len() as int) =~= steps);
    assert(spec_instruction_steps(Instruction::Sec, true) =~= spec_instruction_steps(Instruction::Sec, false));
    lemma_rows_same(d, spec_instruction_steps(Instruction::Sec, true), 0);
}

/// The microcode of `flc` flips the carry, as the emulator does.
pub proof fn law_flc_microcode(d: Datapath)
    requires
        spec_ready(d, Instruction::Flc),
    ensures
        spec_agrees_with_tick(d, Instruction::Flc),
{
    let steps = spec_instruction_steps(Instruction::Flc, d.cf);
    assert(spec_steps_agree_with_tick(d, steps)) by {
        reveal_with_fuel(spec_transfers, 7);
        let steps = spec_instruction_steps(Instruction::Flc, d.cf);
        assert(steps.len() == 6);
        lemma_gates(0u8, 0u8);
        let e = spec_transfers(d, steps)->0;
        let t = spec_tick(spec_emu_view(d)).0;
        assert(e.mem =~= t.mem);
    }
    assert(steps.subrange(0, steps.len() as int) =~= steps);
    lemma_rows_until_last(d, spec_instruction_steps(Instruction::Flc, true), spec_instruction_steps(Instruction::Flc, false), steps, 0);
}

/// The microcode of `nop` only fetches, as the emulator does.
pub proof fn law_nop_microcode(d: Datapath)
    requires
        spec_ready(d, Instruction::Nop),
    ensures
        spec_agrees_with_tick(d, Instruction::Nop),
{
    let steps = spec_instruction_steps(Instruction::Nop, d.cf);
    assert(spec_steps_agree_with_tick(d, steps)) by {
        reveal_with_fuel(spec_transfers, 4);
        let steps = spec_instruction_steps(Instruction::Nop, d.cf);
        assert(steps.len() == 3);
        let e = spec_transfers(d, steps)->0;
        let t = spec_tick(spec_emu_view(d)).0;
        assert(e.mem =~= t.mem);
    }
    assert(steps.subrange(0, steps.len() as int) =~= steps);
    assert(spec_instruction_steps(Instruction::Nop, true) =~= spec_instruction_steps(Instruction::Nop, false));
    lemma_rows_same(d, spec_instruction_steps(Instruction::Nop, true), 0);
}

/// The microcode of `sts` sets the stack pointer to the byte on top of the stack, as the emulator does.
pub proof fn law_sts_microcode(d: Datapath)
    requires
        spec_ready(d, Instruction::Sts),
    ensures
        spec_agrees_with_tick(d, Instruction::Sts),
{
    let steps = spec_instruction_steps(Instruction::Sts, d.cf);
    assert(spec_steps_agree_with_tick(d, steps)) by {
        reveal_with_fuel(spec_transfers, 6);
        let steps = spec_instruction_steps(Instruction::Sts, d.cf);
        assert(steps.len() == 5);
        let e = spec_transfers(d, steps)->0;
        let t = spec_tick(spec_emu_view(d)).0;
        assert(e.mem =~= t.mem);
    }
    assert(steps.subrange(0, steps.len() as int) =~= steps);
    assert(spec_instruction_steps(Instruction::Sts, true) =~= spec_instruction_steps(Instruction::Sts, false));
    lemma_rows_same(d, spec_instruction_steps(Instruction::Sts, true), 0);
}

/// The microcode of `sti` pops the byte on top of the stack into the instruction pointer, as the emulator does.
pub proof fn law_sti_microcode(d: Datapath)
    requires
        spec_ready(d, Instruction::Sti),
    ensures
        spec_agrees_with_tick(d, Instruction::Sti),
{
    let steps = spec_instruction_steps(Instruction::Sti, d.cf);
    assert(spec_steps_agree_with_tick(d, steps)) by {
        reveal_with_fuel(spec_transfers, 7);
        let steps = spec_instruction_steps(Instruction::Sti, d.cf);
        assert(steps.len() == 6);
        let e = spec_transfers(d, steps)->0;
        let t = spec_tick(spec_emu_view(d)).0;
        assert(e.mem =~= t.mem);
    }
    assert(steps.subrange(0, steps.len() as int) =~= steps);
    assert(spec_instruction_steps(Instruction::Sti, true) =~= spec_instruction_steps(Instruction::Sti, false));
    lemma_rows_same(d, spec_instruction_steps(Instruction::Sti, true), 0);
}

/// The microcode of `lds` pushes the stack pointer, as the emulator does.
pub proof fn law_lds_microcode(d: Datapath)
    requires
        spec_ready(d, Instruction::Lds),
        d.sp != 1,
    ensures
        spec_agrees_with_tick(d, Instruction::Lds),
{
    let steps = spec_instruction_steps(Instruction::Lds, d.cf);
    assert(spec_steps_agree_with_tick(d, steps)) by {
        reveal_with_fuel(spec_transfers, 11);
        let steps = spec_instruction_steps(Instruction::Lds, d.cf);
        assert(steps.len() == 10);
        lemma_gates(0u8, 0u8);
        let p = d.sp;
        lemma_gates(p, p);
        let e = spec_transfers(d, steps)->0;
        let t = spec_tick(spec_emu_view(d)).0;
        assert(e.mem =~= t.mem);
    }
    assert(steps.subrange(0, steps.len() as int) =~= steps);
    assert(spec_instruction_steps(Instruction::Lds, true) =~= spec_instruction_steps(Instruction::Lds, false));
    lemma_rows_same(d, spec_instruction_steps(Instruction::Lds, true), 0);
}

/// The microcode of `psh` pushes its immediate, the opcode itself, as the emulator does.
pub proof fn law_psh_microcode(d: Datapath, imm: u8)
    requires
        spec_ready(d, Instruction::Psh(crate::common::Imm(imm))),
        d.sp != 1,
    ensures
        spec_agrees_with_tick(d, Instruction::Psh(crate::common::Imm(imm))),
{
    let steps = spec_instruction_steps(Instruction::Psh(crate::common::Imm(imm)), d.cf);
    assert(spec_steps_agree_with_tick(d, steps)) by {
        reveal_with_fuel(spec_transfers, 11);
        let steps = spec_instruction_steps(Instruction::Psh(crate::common::Imm(imm)), d.cf);
        assert(steps.len() == 10);
        lemma_gates(0u8, 0u8);
        let o = d.mem[d.ip as int];
        lemma_gates(o, o);
        let e = spec_transfers(d, steps)->0;
        let t = spec_tick(spec_emu_view(d)).0;
        assert(e.mem =~= t.mem);
    }
    assert(steps.subrange(0, steps.len() as int) =~= steps);
    assert(spec_instruction_steps(Instruction::Psh(crate::common::Imm(imm)), true) =~= spec_instruction_steps(Instruction::Psh(crate::common::Imm(imm)), false));
    lemma_rows_same(d, spec_instruction_steps(Instruction::Psh(crate::common::Imm(imm)), true), 0);
}


/// Running two runs of steps one after the other.
proof fn lemma_transfers_append(d: Datapath, a: Seq<Step>, b: Seq<Step>)
    ensures
        spec_transfers(d, a + b) == match spec_transfers(d, a) {
            Some(e) => spec_transfers(e, b),
            None => None,
        },
    decreases a.len(),
{
    if a.len() > 0 {
        assert((a + b).drop_first() =~= a.drop_first() + b);
        assert((a + b)[0] == a[0]);
        match a[0] {
            Ok(c) => lemma_transfers_append(spec_transfer(d, c), a.drop_first(), b),
            Err(_) => {},
        }
    } else {
        assert(a + b =~= b);
    }
}

/// `n` steps that add one to the address latch and the X latch together.
pub open spec fn spec_advance(n: nat) -> Seq<Step> {
    Seq::new(n, |_i: int| Ok::<ControlWord, TickTrap>(spec_cinsum_alxl()))
}

/// Advancing the address latch, with X equal to it and Y clear, by `n` steps moves both `n`
/// bytes up.
proof fn lemma_advance(d: Datapath, n: nat)
    requires
        d.yl == 0,
        d.al == d.xl,
    ensures
        spec_transfers(d, spec_advance(n)) == Some(
            Datapath { al: ((d.al + n) % 256) as u8, xl: ((d.al + n) % 256) as u8, ..d },
        ),
    decreases n,
{
    if n == 0 {
        assert(spec_advance(0) =~= Seq::<Step>::empty());
        assert(Datapath { al: ((d.al + 0) % 256) as u8, xl: ((d.al + 0) % 256) as u8, ..d } == d);
    } else {
        let d1 = spec_transfer(d, spec_cinsum_alxl());
        assert(spec_advance(n).drop_first() =~= spec_advance((n - 1) as nat));
        lemma_advance(d1, (n - 1) as nat);
        assert(((d.al + 1) % 256 + (n - 1)) % 256 == (d.al + n) % 256) by {
            vstd::arithmetic::div_mod::lemma_add_mod_noop(d.al + 1, (n - 1) as int, 256);
            vstd::arithmetic::div_mod::lemma_add_mod_noop((d.al + 1) % 256, (n - 1) as int, 256);
            vstd::arithmetic::div_mod::lemma_mod_twice(d.al + 1, 256);
        }
    }
}


/// The steps before the operand below the top is reached: fetch, take the stack pointer, pop,
/// and latch the top of the stack in Z.
pub open spec fn spec_operand_prefix() -> Seq<Step> {
    spec_fetch_steps() + seq![Ok(spec_sp_alxl())] + seq![Ok(spec_cinsum_sp())] + seq![Ok(spec_mem_zl())]
}

/// After the prefix and `size` advances: the address latch on the operand below, Z holding the
/// popped top, the stack pointer one up, the instruction pointer past the opcode.
#[verifier::spinoff_prover]
proof fn lemma_operand_prefix(d: Datapath, size: u8)
    requires
        d.mem.len() == 0x100,
        d.yl == 0,
    ensures
        ({
            let addr = ((d.sp + size) % 256) as u8;
            spec_transfers(d, spec_operand_prefix() + spec_advance(size as nat)) == Some(
                Datapath {
                    ip: ((d.ip + 1) % 256) as u8,
                    sp: ((d.sp + 1) % 256) as u8,
                    il: d.mem[d.ip as int],
                    al: addr,
                    xl: addr,
                    zl: d.mem[d.sp as int],
                    ..d
                },
            )
        }),
{
    reveal_with_fuel(spec_transfers, 7);
    lemma_transfers_append(d, spec_operand_prefix(), spec_advance(size as nat));
    let d1 = spec_transfers(d, spec_operand_prefix())->0;
    assert(spec_operand_prefix().len() == 6);
    assert(d1 == Datapath {
        ip: ((d.ip + 1) % 256) as u8,
        sp: ((d.sp + 1) % 256) as u8,
        il: d.mem[d.ip as int],
        al: d.sp,
        xl: d.sp,
        zl: d.mem[d.sp as int],
        ..d
    });
    lemma_advance(d1, size as nat);
}

pub open spec fn spec_xor_first() -> Seq<Step> {
    seq![Ok(spec_set_yl())] + seq![Ok(spec_nand_zl())] + seq![Ok(spec_nand_xl())] + seq![Ok(spec_mem_zl())]
        + seq![Ok(spec_nand_zl())] + seq![Ok(spec_cinsum_yl())] + seq![Ok(spec_nand_xl())]
}

pub open spec fn spec_xor_second() -> Seq<Step> {
    seq![Ok(spec_set_zl())] + seq![Ok(spec_nand_yl())] + seq![Ok(spec_mem_zl())] + seq![Ok(spec_nand_zl())]
        + seq![Ok(spec_set_yl())] + seq![Ok(spec_cinsum_yl())] + seq![Ok(spec_nand_memcf())]
}

pub open spec fn spec_clear_y() -> Seq<Step> {
    seq![Ok(spec_set_ylzl())] + seq![Ok(spec_nand_yl())]
}

proof fn lemma_xor_steps(size: u8, carry: bool)
    ensures
        spec_instruction_steps(Instruction::Xor(Size(size)), carry) == spec_operand_prefix() + spec_advance(
            size as nat,
        ) + spec_xor_first() + spec_xor_second() + spec_clear_y(),
{
    assert(spec_instruction_steps(Instruction::Xor(Size(size)), carry) =~= spec_operand_prefix() + spec_advance(
        size as nat,
    ) + spec_xor_first() + spec_xor_second() + spec_clear_y());
}

/// Clearing Y leaves it zero and Z all ones.
proof fn lemma_clear_y(d: Datapath)
    ensures
        spec_transfers(d, spec_clear_y()) == Some(Datapath { yl: 0, zl: 0xFF, ..d }),
{
    reveal_with_fuel(spec_transfers, 3);
    lemma_gates(0u8, 0u8);
}

proof fn lemma_xor_first(d: Datapath)
    requires
        d.mem.len() == 0x100,
        d.yl == 0,
    ensures
        spec_transfers(d, spec_xor_first()) == Some(
            Datapath { yl: d.zl, xl: !(d.zl & !d.mem[d.al as int]), zl: !d.mem[d.al as int], ..d },
        ),
{
    reveal_with_fuel(spec_transfers, 8);
    let a = d.zl;
    let b = d.mem[d.al as int];
    lemma_gates(a, a);
    lemma_gates(b, b);
}

proof fn lemma_xor_second(d: Datapath, a: u8)
    requires
        d.mem.len() == 0x100,
        d.yl == a,
        d.xl == !(a & !d.mem[d.al as int]),
    ensures
        ({
            let b = d.mem[d.al as int];
            spec_transfers(d, spec_xor_second()) == Some(
                Datapath {
                    mem: d.mem.update(d.al as int, a ^ b),
                    cf: (a ^ b) == 0,
                    yl: d.xl,
                    zl: !(!a & b),
                    ..d
                },
            )
        }),
{
    reveal_with_fuel(spec_transfers, 8);
    let b = d.mem[d.al as int];
    lemma_gates(a, a);
    lemma_gates(a, b);
}

/// The microcode of `xor` leaves the exclusive or of the top of the stack and the byte `size`
/// above it there, popping the top and setting the carry where the result is zero, as the
/// emulator does.
#[verifier::spinoff_prover]
pub proof fn law_xor_microcode(d: Datapath, size: u8)
    requires
        spec_ready(d, Instruction::Xor(Size(size))),
        1 <= size <= 8,
        (d.sp + size) % 256 != 0,
    ensures
        spec_agrees_with_tick(d, Instruction::Xor(Size(size))),
{
    let steps = spec_instruction_steps(Instruction::Xor(Size(size)), d.cf);
    assert(spec_steps_agree_with_tick(d, steps)) by {
        let pa = spec_operand_prefix() + spec_advance(size as nat);
        let q1 = spec_xor_first();
        let q2 = spec_xor_second();
        let q3 = spec_clear_y();
        lemma_xor_steps(size, d.cf);
        lemma_transfers_append(d, pa + q1 + q2, q3);
        lemma_transfers_append(d, pa + q1, q2);
        lemma_transfers_append(d, pa, q1);
        lemma_operand_prefix(d, size);
        let d2 = spec_transfers(d, pa)->0;
        lemma_xor_first(d2);
        let d3 = spec_transfers(d2, q1)->0;
        lemma_xor_second(d3, d.mem[d.sp as int]);
        let d4 = spec_transfers(d3, q2)->0;
        lemma_clear_y(d4);
        let d5 = spec_transfers(d4, q3)->0;
        let t = spec_tick(spec_emu_view(d)).0;
        assert(d5.mem =~= t.mem);
    }
    assert(steps.subrange(0, steps.len() as int) =~= steps);
    assert(spec_instruction_steps(Instruction::Xor(Size(size)), true) =~= spec_instruction_steps(Instruction::Xor(Size(size)), false));
    lemma_rows_same(d, spec_instruction_steps(Instruction::Xor(Size(size)), true), 0);
}


pub open spec fn spec_and_tail() -> Seq<Step> {
    seq![Ok(spec_mem_yl())] + seq![Ok(spec_nand_ylzl())] + seq![Ok(spec_nand_memcf())]
}

proof fn lemma_and_tail(d: Datapath)
    requires
        d.mem.len() == 0x100,
    ensures
        ({
            let a = d.zl;
            let b = d.mem[d.al as int];
            spec_transfers(d, spec_and_tail()) == Some(
                Datapath { mem: d.mem.update(d.al as int, b & a), cf: (b & a) == 0, yl: !(b & a), zl: !(b & a), ..d },
            )
        }),
{
    reveal_with_fuel(spec_transfers, 4);
    let a = d.zl;
    let b = d.mem[d.al as int];
    lemma_gates(a, b);
}

/// The microcode of `and` leaves the bitwise and of the top of the stack and the byte `size`
/// above it there, popping the top and setting the carry where the result is zero, as the
/// emulator does.
#[verifier::spinoff_prover]
pub proof fn law_and_microcode(d: Datapath, size: u8)
    requires
        spec_ready(d, Instruction::And(Size(size))),
        1 <= size <= 8,
        (d.sp + size) % 256 != 0,
    ensures
        spec_agrees_with_tick(d, Instruction::And(Size(size))),
{
    let steps = spec_instruction_steps(Instruction::And(Size(size)), d.cf);
    assert(spec_steps_agree_with_tick(d, steps)) by {
        let pa = spec_operand_prefix() + spec_advance(size as nat);
        let q1 = spec_and_tail();
        let q3 = spec_clear_y();
        assert(spec_instruction_steps(Instruction::And(Size(size)), d.cf) =~= pa + q1 + q3);
        lemma_transfers_append(d, pa + q1, q3);
        lemma_transfers_append(d, pa, q1);
        lemma_operand_prefix(d, size);
        let d2 = spec_transfers(d, pa)->0;
        lemma_and_tail(d2);
        let d3 = spec_transfers(d2, q1)->0;
        lemma_clear_y(d3);
        let d5 = spec_transfers(d3, q3)->0;
        let t = spec_tick(spec_emu_view(d)).0;
        let a = d.mem[d.sp as int];
        let b = d.mem[d2.al as int];
        lemma_gates(a, b);
        assert(d5.mem =~= t.mem);
    }
    assert(steps.subrange(0, steps.len() as int) =~= steps);
    assert(spec_instruction_steps(Instruction::And(Size(size)), true) =~= spec_instruction_steps(Instruction::And(Size(size)), false));
    lemma_rows_same(d, spec_instruction_steps(Instruction::And(Size(size)), true), 0);
}

pub open spec fn spec_orr_tail() -> Seq<Step> {
    seq![Ok(spec_set_yl())] + seq![Ok(spec_nand_xl())] + seq![Ok(spec_mem_zl())] + seq![Ok(spec_nand_zl())]
        + seq![Ok(spec_cinsum_yl())] + seq![Ok(spec_nand_memcf())]
}

proof fn lemma_orr_tail(d: Datapath)
    requires
        d.mem.len() == 0x100,
    ensures
        ({
            let a = d.zl;
            let b = d.mem[d.al as int];
            spec_transfers(d, spec_orr_tail()) == Some(
                Datapath { mem: d.mem.update(d.al as int, a | b), cf: (a | b) == 0, xl: !a, yl: !a, zl: !b, ..d },
            )
        }),
{
    reveal_with_fuel(spec_transfers, 7);
    let a = d.zl;
    let b = d.mem[d.al as int];
    lemma_gates(a, a);
    lemma_gates(b, b);
    lemma_gates(a, b);
}

/// The microcode of `orr` leaves the bitwise or of the top of the stack and the byte `size`
/// above it there, popping the top and setting the carry where the result is zero, as the
/// emulator does.
#[verifier::spinoff_prover]
pub proof fn law_orr_microcode(d: Datapath, size: u8)
    requires
        spec_ready(d, Instruction::Orr(Size(size))),
        1 <= size <= 8,
        (d.sp + size) % 256 != 0,
    ensures
        spec_agrees_with_tick(d, Instruction::Orr(Size(size))),
{
    let steps = spec_instruction_steps(Instruction::Orr(Size(size)), d.cf);
    assert(spec_steps_agree_with_tick(d, steps)) by {
        let pa = spec_operand_prefix() + spec_advance(size as nat);
        let q1 = spec_orr_tail();
        let q3 = spec_clear_y();
        assert(spec_instruction_steps(Instruction::Orr(Size(size)), d.cf) =~= pa + q1 + q3);
        lemma_transfers_append(d, pa + q1, q3);
        lemma_transfers_append(d, pa, q1);
        lemma_operand_prefix(d, size);
        let d2 = spec_transfers(d, pa)->0;
        lemma_orr_tail(d2);
        let d3 = spec_transfers(d2, q1)->0;
        lemma_clear_y(d3);
        let d5 = spec_transfers(d3, q3)->0;
        let t = spec_tick(spec_emu_view(d)).0;
        assert(d5.mem =~= t.mem);
    }
    assert(steps.subrange(0, steps.len() as int) =~= steps);
    assert(spec_instruction_steps(Instruction::Orr(Size(size)), true) =~= spec_instruction_steps(Instruction::Orr(Size(size)), false));
    lemma_rows_same(d, spec_instruction_steps(Instruction::Orr(Size(size)), true), 0);
}

pub open spec fn spec_add_tail(carry: bool) -> Seq<Step> {
    seq![Ok(spec_set_yl())] + seq![Ok(spec_nand_zl())] + seq![Ok(spec_nand_yl())] + seq![Ok(spec_mem_xl())]
        + (if carry { seq![Ok(spec_cinsum_xlcf())] } else { seq![Ok(spec_sum_xlcf())] }) + seq![Ok(spec_set_ylzl())]
        + seq![Ok(spec_cinsum_mem())] + seq![Ok(spec_nand_yl())]
}

proof fn lemma_add_tail(d: Datapath)
    requires
        d.mem.len() == 0x100,
    ensures
        ({
            let a = d.zl;
            let b = d.mem[d.al as int];
            let total = b + a + if d.cf { 1int } else { 0int };
            spec_transfers(d, spec_add_tail(d.cf)) == Some(
                Datapath {
                    mem: d.mem.update(d.al as int, (total % 256) as u8),
                    cf: total > 0xFF,
                    xl: (total % 256) as u8,
                    yl: 0,
                    zl: 0xFF,
                    ..d
                },
            )
        }),
{
    reveal_with_fuel(spec_transfers, 9);
    let a = d.zl;
    let b = d.mem[d.al as int];
    lemma_gates(a, a);
    lemma_gates(0u8, 0u8);
}

/// The microcode of `add` leaves the sum of the byte `size` above the top of the stack, the
/// top and the carry there, popping the top and setting the carry where the sum overflows, as
/// the emulator does.
#[verifier::spinoff_prover]
pub proof fn law_add_microcode(d: Datapath, size: u8)
    requires
        spec_ready(d, Instruction::Add(Size(size))),
        1 <= size <= 8,
        (d.sp + size) % 256 != 0,
    ensures
        spec_agrees_with_tick(d, Instruction::Add(Size(size))),
{
    let steps = spec_instruction_steps(Instruction::Add(Size(size)), d.cf);
    assert(spec_steps_agree_with_tick(d, steps)) by {
        let pa = spec_operand_prefix() + spec_advance(size as nat);
        let q1 = spec_add_tail(d.cf);
        assert(spec_instruction_steps(Instruction::Add(Size(size)), d.cf) =~= pa + q1);
        lemma_transfers_append(d, pa, q1);
        lemma_operand_prefix(d, size);
        let d2 = spec_transfers(d, pa)->0;
        lemma_add_tail(d2);
        let d3 = spec_transfers(d2, q1)->0;
        let t = spec_tick(spec_emu_view(d)).0;
        assert(d3.mem =~= t.mem);
    }
    assert(steps.subrange(0, steps.len() as int) =~= steps);
    lemma_rows_add(d, Instruction::Add(Size(size)));
}


pub open spec fn spec_iff_tail(carry: bool) -> Seq<Step> {
    seq![Ok(spec_mem_xl())] + seq![Ok(spec_set_yl())] + (if carry {
        seq![Ok(spec_nand_zl())] + seq![Ok(spec_nand_xl())]
    } else {
        seq![Ok(spec_noop())] + seq![Ok(spec_noop())]
    }) + seq![Ok(spec_cinsum_mem())]
}

proof fn lemma_iff_tail(d: Datapath)
    requires
        d.mem.len() == 0x100,
    ensures
        ({
            let a = d.zl;
            let b = d.mem[d.al as int];
            let r = if d.cf { a } else { b };
            spec_transfers(d, spec_iff_tail(d.cf)) == Some(
                Datapath {
                    mem: d.mem.update(d.al as int, r),
                    xl: r,
                    yl: 0xFF,
                    zl: if d.cf { !a } else { a },
                    ..d
                },
            )
        }),
{
    reveal_with_fuel(spec_transfers, 6);
    let a = d.zl;
    lemma_gates(a, a);
}

/// The microcode of `iff` leaves, `size` bytes above the top of the stack, the top where the
/// carry is set and the byte already there where it is clear, popping the top, as the emulator
/// does.
#[verifier::spinoff_prover]
pub proof fn law_iff_microcode(d: Datapath, size: u8)
    requires
        spec_ready(d, Instruction::Iff(Size(size))),
        1 <= size <= 8,
        (d.sp + size) % 256 != 0,
    ensures
        spec_agrees_with_tick(d, Instruction::Iff(Size(size))),
{
    let steps = spec_instruction_steps(Instruction::Iff(Size(size)), d.cf);
    assert(spec_steps_agree_with_tick(d, steps)) by {
        let pa = spec_operand_prefix() + spec_advance(size as nat);
        let q1 = spec_iff_tail(d.cf);
        let q3 = spec_clear_y();
        assert(spec_instruction_steps(Instruction::Iff(Size(size)), d.cf) =~= pa + q1 + q3);
        lemma_transfers_append(d, pa + q1, q3);
        lemma_transfers_append(d, pa, q1);
        lemma_operand_prefix(d, size);
        let d2 = spec_transfers(d, pa)->0;
        lemma_iff_tail(d2);
        let d3 = spec_transfers(d2, q1)->0;
        lemma_clear_y(d3);
        let d5 = spec_transfers(d3, q3)->0;
        let t = spec_tick(spec_emu_view(d)).0;
        assert(d5.mem =~= t.mem);
    }
    assert(steps.subrange(0, steps.len() as int) =~= steps);
    lemma_rows_until_last(d, spec_instruction_steps(Instruction::Iff(Size(size)), true), spec_instruction_steps(Instruction::Iff(Size(size)), false), steps, 0);
}

pub open spec fn spec_swap_prefix() -> Seq<Step> {
    spec_fetch_steps() + seq![Ok(spec_sp_alxl())] + seq![Ok(spec_mem_zl())]
}

pub open spec fn spec_swp_tail() -> Seq<Step> {
    seq![Ok(spec_mem_xl())] + seq![Ok(spec_set_yl())] + seq![Ok(spec_nand_zl())] + seq![Ok(spec_nand_mem())]
        + seq![Ok(spec_sp_al())] + seq![Ok(spec_cinsum_mem())]
}

#[verifier::spinoff_prover]
proof fn lemma_swap_prefix(d: Datapath, size: u8)
    requires
        d.mem.len() == 0x100,
        d.yl == 0,
    ensures
        ({
            let addr = ((d.sp + size) % 256) as u8;
            spec_transfers(d, spec_swap_prefix() + spec_advance(size as nat)) == Some(
                Datapath {
                    ip: ((d.ip + 1) % 256) as u8,
                    il: d.mem[d.ip as int],
                    al: addr,
                    xl: addr,
                    zl: d.mem[d.sp as int],
                    ..d
                },
            )
        }),
{
    reveal_with_fuel(spec_transfers, 6);
    lemma_transfers_append(d, spec_swap_prefix(), spec_advance(size as nat));
    let d1 = spec_transfers(d, spec_swap_prefix())->0;
    assert(spec_swap_prefix().len() == 5);
    assert(d1 == Datapath {
        ip: ((d.ip + 1) % 256) as u8,
        il: d.mem[d.ip as int],
        al: d.sp,
        xl: d.sp,
        zl: d.mem[d.sp as int],
        ..d
    });
    lemma_advance(d1, size as nat);
}

proof fn lemma_swp_tail(d: Datapath, sp: u8)
    requires
        d.mem.len() == 0x100,
        d.sp == sp,
    ensures
        ({
            let a = d.zl;
            let b = d.mem[d.al as int];
            spec_transfers(d, spec_swp_tail()) == Some(
                Datapath {
                    mem: d.mem.update(d.al as int, a).update(sp as int, b),
                    al: sp,
                    xl: b,
                    yl: 0xFF,
                    zl: !a,
                    ..d
                },
            )
        }),
{
    reveal_with_fuel(spec_transfers, 7);
    let a = d.zl;
    lemma_gates(a, a);
}

/// The microcode of `swp` exchanges the top of the stack with the byte `size` above it, as the
/// emulator does.
#[verifier::spinoff_prover]
pub proof fn law_swp_microcode(d: Datapath, size: u8)
    requires
        spec_ready(d, Instruction::Swp(Size(size))),
        1 <= size <= 8,
        (d.sp + size) % 256 != 0,
    ensures
        spec_agrees_with_tick(d, Instruction::Swp(Size(size))),
{
    let steps = spec_instruction_steps(Instruction::Swp(Size(size)), d.cf);
    assert(spec_steps_agree_with_tick(d, steps)) by {
        let pa = spec_swap_prefix() + spec_advance(size as nat);
        let q1 = spec_swp_tail();
        let q3 = spec_clear_y();
        assert(spec_instruction_steps(Instruction::Swp(Size(size)), d.cf) =~= pa + q1 + q3);
        lemma_transfers_append(d, pa + q1, q3);
        lemma_transfers_append(d, pa, q1);
        lemma_swap_prefix(d, size);
        let d2 = spec_transfers(d, pa)->0;
        lemma_swp_tail(d2, d.sp);
        let d3 = spec_transfers(d2, q1)->0;
        lemma_clear_y(d3);
        let d5 = spec_transfers(d3, q3)->0;
        let t = spec_tick(spec_emu_view(d)).0;
        assert(d5.mem =~= t.mem);
    }
    assert(steps.subrange(0, steps.len() as int) =~= steps);
    assert(spec_instruction_steps(Instruction::Swp(Size(size)), true) =~= spec_instruction_steps(Instruction::Swp(Size(size)), false));
    lemma_rows_same(d, spec_instruction_steps(Instruction::Swp(Size(size)), true), 0);
}

pub open spec fn spec_pop_prefix() -> Seq<Step> {
    spec_fetch_steps() + seq![Ok(spec_sp_alxl())] + seq![Ok(spec_cinsum_sp())]
}

pub open spec fn spec_xnd_tail() -> Seq<Step> {
    seq![Ok(spec_set_xlylzl())] + seq![Ok(spec_sum_xlcf())] + seq![Ok(spec_nand_memyl())]
}

/// The microcode of `xnd` clears the byte `size` above the top of the stack and sets the
/// carry, popping the top, as the emulator does.
#[verifier::spinoff_prover]
pub proof fn law_xnd_microcode(d: Datapath, size: u8)
    requires
        spec_ready(d, Instruction::Xnd(Size(size))),
        1 <= size <= 8,
        (d.sp + size) % 256 != 0,
    ensures
        spec_agrees_with_tick(d, Instruction::Xnd(Size(size))),
{
    let steps = spec_instruction_steps(Instruction::Xnd(Size(size)), d.cf);
    assert(spec_steps_agree_with_tick(d, steps)) by {
        let p = spec_pop_prefix();
        let a = spec_advance(size as nat);
        let q = spec_xnd_tail();
        assert(spec_instruction_steps(Instruction::Xnd(Size(size)), d.cf) =~= p + a + q);
        lemma_transfers_append(d, p + a, q);
        lemma_transfers_append(d, p, a);
        assert(spec_transfers(d, p) == Some(Datapath {
            ip: ((d.ip + 1) % 256) as u8,
            sp: ((d.sp + 1) % 256) as u8,
            il: d.mem[d.ip as int],
            al: d.sp,
            xl: d.sp,
            zl: d.mem[d.ip as int],
            ..d
        })) by {
            reveal_with_fuel(spec_transfers, 6);
        }
        let d1 = spec_transfers(d, p)->0;
        lemma_advance(d1, size as nat);
        let d2 = spec_transfers(d1, a)->0;
        assert(spec_transfers(d2, q) == Some(Datapath {
            mem: d2.mem.update(d2.al as int, 0),
            cf: true,
            xl: 0xFE,
            yl: 0,
            zl: 0xFF,
            ..d2
        })) by {
            reveal_with_fuel(spec_transfers, 4);
            lemma_gates(0u8, 0u8);
        }
        let d3 = spec_transfers(d2, q)->0;
        let t = spec_tick(spec_emu_view(d)).0;
        assert(d3.mem =~= t.mem);
    }
    assert(steps.subrange(0, steps.len() as int) =~= steps);
    assert(spec_instruction_steps(Instruction::Xnd(Size(size)), true) =~= spec_instruction_steps(Instruction::Xnd(Size(size)), false));
    lemma_rows_same(d, spec_instruction_steps(Instruction::Xnd(Size(size)), true), 0);
}

/// The microcode of `phn` pushes its immediate, the opcode itself, as the emulator does.
pub proof fn law_phn_microcode(d: Datapath, nimm: u8)
    requires
        spec_ready(d, Instruction::Phn(crate::common::Nimm(nimm))),
        d.sp != 1,
    ensures
        spec_agrees_with_tick(d, Instruction::Phn(crate::common::Nimm(nimm))),
{
    let steps = spec_instruction_steps(Instruction::Phn(crate::common::Nimm(nimm)), d.cf);
    assert(spec_steps_agree_with_tick(d, steps)) by {
        reveal_with_fuel(spec_transfers, 11);
        let steps = spec_instruction_steps(Instruction::Phn(crate::common::Nimm(nimm)), d.cf);
        assert(steps.len() == 10);
        lemma_gates(0u8, 0u8);
        let o = d.mem[d.ip as int];
        lemma_gates(o, o);
        let e = spec_transfers(d, steps)->0;
        let t = spec_tick(spec_emu_view(d)).0;
        assert(e.mem =~= t.mem);
    }
    assert(steps.subrange(0, steps.len() as int) =~= steps);
    assert(spec_instruction_steps(Instruction::Phn(crate::common::Nimm(nimm)), true) =~= spec_instruction_steps(Instruction::Phn(crate::common::Nimm(nimm)), false));
    lemma_rows_same(d, spec_instruction_steps(Instruction::Phn(crate::common::Nimm(nimm)), true), 0);
}


/// The steps of `sub` up to the one that reads the carry: fetch, pop the top into Z, reach the
/// operand below, complement the top into Y and the operand into X.
pub open spec fn spec_sub_pre(n: nat) -> Seq<Step> {
    spec_operand_prefix() + spec_advance(n) + seq![Ok(spec_set_yl())] + seq![Ok(spec_nand_yl())] + seq![Ok(spec_mem_xl())]
}

/// The steps of `sub` from the one that reads the carry, in the row of carry `c`.
pub open spec fn spec_sub_rest(c: bool) -> Seq<Step> {
    (if c { seq![Ok(spec_sum_xlcf())] } else { seq![Ok(spec_cinsum_xlcf())] }) + seq![Ok(spec_set_ylzl())]
        + seq![Ok(spec_cinsum_mem())] + (if c {
        seq![Ok(spec_nand_ylzl())] + seq![Ok(spec_nand_zlcf())]
    } else {
        seq![Ok(spec_noop())] + seq![Ok(spec_nand_ylcf())]
    })
}

/// Running the two rows of `sub`: the difference with borrow lands in memory and the carry
/// ends as the borrow.
#[verifier::spinoff_prover]
#[verifier::rlimit(60)]
proof fn lemma_sub_run(d: Datapath, size: u8, rt: Seq<Step>, rf: Seq<Step>)
    requires
        d.mem.len() == 0x100,
        d.yl == 0,
        1 <= size <= 8,
        rt == spec_sub_pre(size as nat) + spec_sub_rest(true),
        rf == spec_sub_pre(size as nat) + spec_sub_rest(false),
    ensures
        ({
            let addr = ((d.sp + size) % 256) as u8;
            let a = d.mem[d.sp as int];
            let b = d.mem[addr as int];
            let total = b + (255 - a) + if d.cf { 0int } else { 1int };
            spec_run_two_rows(d, rt, rf, 0) matches Some(e) && e.mem == d.mem.update(addr as int, (total % 256) as u8)
                && e.cf == (total <= 255) && e.yl == 0 && e.sp == ((d.sp + 1) % 256) as u8 && e.ip == ((d.ip + 1)
                % 256) as u8
        }),
{
    let n = size as nat;
    let k = 9 + n;
    let pa = spec_operand_prefix() + spec_advance(n);
    let mid = seq![Ok(spec_set_yl())] + seq![Ok(spec_nand_yl())] + seq![Ok(spec_mem_xl())];
    let pre = spec_sub_pre(n);
    assert(pre.len() == k);
    assert forall|j: int| 0 <= j < k implies #[trigger] rt[j] == rf[j] by {
        assert(rt[j] == pre[j]);
        assert(rf[j] == pre[j]);
    }
    lemma_rows_agree(d, rt, rf, 0, k);
    assert(rt.subrange(0, k as int) =~= pa + mid);
    lemma_transfers_append(d, pa, mid);
    lemma_operand_prefix(d, size);
    let d2 = spec_transfers(d, pa)->0;
    let a = d.mem[d.sp as int];
    let b = d.mem[d2.al as int];
    lemma_gates(a, b);
    let d3 = Datapath { yl: !a, xl: b, ..d2 };
    assert(spec_transfers(d2, mid) == Some(d3)) by {
        reveal_with_fuel(spec_transfers, 4);
    }
    assert(!a == (255 - a) as u8) by {
        lemma_gates(a, a);
    }
    let total = b + (255 - a) + if d.cf { 0int } else { 1int };
    let d4 = Datapath { xl: (total % 256) as u8, cf: total > 255, ..d3 };
    assert((if d3.cf { rt } else { rf })[k as int] == spec_sub_rest(d.cf)[0]);
    assert(spec_run_two_rows(d3, rt, rf, k) == spec_run_two_rows(d4, rt, rf, k + 1)) by {
        reveal_with_fuel(spec_run_two_rows, 2);
    }
    assert forall|j: int| k + 1 <= j < k + 3 implies #[trigger] rt[j] == rf[j] by {
        assert(rt[j] == spec_sub_rest(true)[j - k]);
        assert(rf[j] == spec_sub_rest(false)[j - k]);
    }
    lemma_rows_agree(d4, rt, rf, k + 1, 2);
    assert(rt.subrange((k + 1) as int, (k + 3) as int) =~= seq![Ok(spec_set_ylzl())] + seq![Ok(spec_cinsum_mem())]);
    let d5 = Datapath { mem: d4.mem.update(d4.al as int, (total % 256) as u8), yl: 0xFF, zl: 0xFF, ..d4 };
    assert(spec_transfers(d4, rt.subrange((k + 1) as int, (k + 3) as int)) == Some(d5)) by {
        reveal_with_fuel(spec_transfers, 3);
    }
    let d6 = Datapath { yl: 0, zl: 0xFF, cf: !d4.cf, ..d5 };
    assert((if d5.cf { rt } else { rf })[(k + 3) as int] == spec_sub_rest(d5.cf)[3]);
    assert((if d5.cf { rt } else { rf })[(k + 4) as int] == spec_sub_rest(d5.cf)[4]);
    assert((if d5.cf { rt } else { rf }).len() == k + 5);
    assert(spec_run_two_rows(d5, rt, rf, k + 3) == Some(d6)) by {
        reveal_with_fuel(spec_run_two_rows, 4);
    }
}

/// The microcode of `sub`, read row by row as the carry changes, leaves the byte `size` above
/// the top of the stack less the top and the carry there, popping the top and setting the
/// carry where that borrows, as the emulator does.
#[verifier::spinoff_prover]
pub proof fn law_sub_microcode(d: Datapath, size: u8)
    requires
        spec_ready(d, Instruction::Sub(Size(size))),
        1 <= size <= 8,
        (d.sp + size) % 256 != 0,
    ensures
        spec_agrees_with_tick(d, Instruction::Sub(Size(size))),
{
    let i = Instruction::Sub(Size(size));
    let rt = spec_instruction_steps(i, true);
    let rf = spec_instruction_steps(i, false);
    assert(rt =~= spec_sub_pre(size as nat) + spec_sub_rest(true));
    assert(rf =~= spec_sub_pre(size as nat) + spec_sub_rest(false));
    lemma_sub_run(d, size, rt, rf);
    let e = spec_run_rows(d, i, 0)->0;
    let t = spec_tick(spec_emu_view(d)).0;
    assert(e.mem =~= t.mem);
}

/// The microcode of `lda` replaces the address on top of the stack with the byte at that
/// address, as the emulator does.
pub proof fn law_lda_microcode(d: Datapath)
    requires
        spec_ready(d, Instruction::Lda),
        d.mem[d.sp as int] != 0,
    ensures
        spec_agrees_with_tick(d, Instruction::Lda),
{
    let steps = spec_instruction_steps(Instruction::Lda, d.cf);
    assert(spec_steps_agree_with_tick(d, steps)) by {
        reveal_with_fuel(spec_transfers, 10);
        let steps = spec_instruction_steps(Instruction::Lda, d.cf);
        assert(steps.len() == 9);
        let e = spec_transfers(d, steps)->0;
        let t = spec_tick(spec_emu_view(d)).0;
        assert(e.mem =~= t.mem);
    }
    assert(steps.subrange(0, steps.len() as int) =~= steps);
    assert(spec_instruction_steps(Instruction::Lda, true) =~= spec_instruction_steps(Instruction::Lda, false));
    lemma_rows_same(d, spec_instruction_steps(Instruction::Lda, true), 0);
}

/// The microcode of `ldi` pushes the address of the next instruction, as the emulator does.
pub proof fn law_ldi_microcode(d: Datapath)
    requires
        spec_ready(d, Instruction::Ldi),
        d.sp != 1,
    ensures
        spec_agrees_with_tick(d, Instruction::Ldi),
{
    let steps = spec_instruction_steps(Instruction::Ldi, d.cf);
    assert(spec_steps_agree_with_tick(d, steps)) by {
        reveal_with_fuel(spec_transfers, 10);
        let steps = spec_instruction_steps(Instruction::Ldi, d.cf);
        assert(steps.len() == 9);
        lemma_gates(0u8, 0u8);
        let e = spec_transfers(d, steps)->0;
        let t = spec_tick(spec_emu_view(d)).0;
        assert(e.mem =~= t.mem);
    }
    assert(steps.subrange(0, steps.len() as int) =~= steps);
    assert(spec_instruction_steps(Instruction::Ldi, true) =~= spec_instruction_steps(Instruction::Ldi, false));
    lemma_rows_same(d, spec_instruction_steps(Instruction::Ldi, true), 0);
}

/// The microcode of `sta` pops an address and then a byte, and stores the byte at the address,
/// as the emulator does.
pub proof fn law_sta_microcode(d: Datapath)
    requires
        spec_ready(d, Instruction::Sta),
        d.sp != 0xFF,
        d.mem[d.sp as int] != 0,
    ensures
        spec_agrees_with_tick(d, Instruction::Sta),
{
    let steps = spec_instruction_steps(Instruction::Sta, d.cf);
    assert(spec_steps_agree_with_tick(d, steps)) by {
        reveal_with_fuel(spec_transfers, 16);
        let steps = spec_instruction_steps(Instruction::Sta, d.cf);
        assert(steps.len() == 15);
        let a = d.mem[d.sp as int];
        lemma_gates(a, a);
        let e = spec_transfers(d, steps)->0;
        let t = spec_tick(spec_emu_view(d)).0;
        assert(e.mem =~= t.mem);
    }
    assert(steps.subrange(0, steps.len() as int) =~= steps);
    assert(spec_instruction_steps(Instruction::Sta, true) =~= spec_instruction_steps(Instruction::Sta, false));
    lemma_rows_same(d, spec_instruction_steps(Instruction::Sta, true), 0);
}


/// Running the microcode of an instruction from step `k` as the machine reads it: each step from
/// the row of the carry flag as it stands at that step, until the row ends.
pub open spec fn spec_run_rows(d: Datapath, i: Instruction, k: nat) -> Option<Datapath> {
    spec_run_two_rows(d, spec_instruction_steps(i, true), spec_instruction_steps(i, false), k)
}

/// Running steps from `k` on, each from `rt` where the carry is set and from `rf` where it is
/// clear, until the row of the carry ends.
pub open spec fn spec_run_two_rows(d: Datapath, rt: Seq<Step>, rf: Seq<Step>, k: nat) -> Option<Datapath>
    decreases 64 - k,
{
    let steps = if d.cf { rt } else { rf };
    if k >= steps.len() || k >= 64 {
        Some(d)
    } else {
        match steps[k as int] {
            Ok(c) => spec_run_two_rows(spec_transfer(d, c), rt, rf, k + 1),
            Err(_) => None,
        }
    }
}

/// Whether a step is a control word that does not write the carry.
pub open spec fn spec_keeps_carry(s: Step) -> bool {
    s matches Ok(w) && !spec_on(w.data_cf)
}

/// Where both rows are the same, running them is running the row.
proof fn lemma_rows_same(d: Datapath, row: Seq<Step>, k: nat)
    requires
        row.len() <= 64,
        k <= row.len(),
    ensures
        spec_run_two_rows(d, row, row, k) == spec_transfers(d, row.subrange(k as int, row.len() as int)),
    decreases row.len() - k,
{
    let t = row.subrange(k as int, row.len() as int);
    if k == row.len() {
        assert(t =~= Seq::<Step>::empty());
    } else {
        assert(t[0] == row[k as int]);
        assert(t.drop_first() =~= row.subrange((k + 1) as int, row.len() as int));
        match row[k as int] {
            Ok(c) => lemma_rows_same(spec_transfer(d, c), row, k + 1),
            Err(_) => {},
        }
    }
}

/// Where no step of the row of the carry but the last writes the carry, running the rows is
/// running that row.
proof fn lemma_rows_until_last(d: Datapath, rt: Seq<Step>, rf: Seq<Step>, row: Seq<Step>, k: nat)
    requires
        row == (if d.cf { rt } else { rf }),
        rt.len() == rf.len(),
        row.len() <= 64,
        k < row.len(),
        forall|j: int| k <= j < row.len() - 1 ==> spec_keeps_carry(#[trigger] row[j]),
    ensures
        spec_run_two_rows(d, rt, rf, k) == spec_transfers(d, row.subrange(k as int, row.len() as int)),
    decreases row.len() - k,
{
    let t = row.subrange(k as int, row.len() as int);
    assert(t[0] == row[k as int]);
    assert(t.drop_first() =~= row.subrange((k + 1) as int, row.len() as int));
    if k + 1 == row.len() {
        assert(t.drop_first() =~= Seq::<Step>::empty());
        match row[k as int] {
            Ok(w) => {
                let e = spec_transfer(d, w);
                assert(spec_run_two_rows(e, rt, rf, k + 1) == Some(e));
                assert(spec_transfers(d, t) == Some(e)) by {
                    reveal_with_fuel(spec_transfers, 2);
                }
            },
            Err(_) => {},
        }
    } else {
        assert(spec_keeps_carry(row[k as int]));
        let w = row[k as int]->Ok_0;
        lemma_rows_until_last(spec_transfer(d, w), rt, rf, row, k + 1);
    }
}

/// One step that both rows have.
proof fn lemma_rows_step(d: Datapath, rt: Seq<Step>, rf: Seq<Step>, k: nat)
    requires
        k < 64,
        k < rt.len(),
        k < rf.len(),
        rt[k as int] == rf[k as int],
    ensures
        spec_run_two_rows(d, rt, rf, k) == match rt[k as int] {
            Ok(c) => spec_run_two_rows(spec_transfer(d, c), rt, rf, k + 1),
            Err(_) => None,
        },
{
}

/// Running steps: the first, then the rest.
proof fn lemma_transfers_step(d: Datapath, t: Seq<Step>)
    requires
        t.len() > 0,
    ensures
        spec_transfers(d, t) == match t[0] {
            Ok(c) => spec_transfers(spec_transfer(d, c), t.drop_first()),
            Err(_) => None,
        },
{
}

/// Where both rows have the same `m` steps from `k` on, running the rows is running those
/// steps first.
#[verifier::spinoff_prover]
proof fn lemma_rows_agree(d: Datapath, rt: Seq<Step>, rf: Seq<Step>, k: nat, m: nat)
    requires
        k + m <= 64,
        k + m <= rt.len(),
        k + m <= rf.len(),
        forall|j: int| k <= j < k + m ==> #[trigger] rt[j] == rf[j],
    ensures
        spec_run_two_rows(d, rt, rf, k) == match spec_transfers(d, rt.subrange(k as int, (k + m) as int)) {
            Some(e) => spec_run_two_rows(e, rt, rf, k + m),
            None => None,
        },
    decreases m,
{
    let t = rt.subrange(k as int, (k + m) as int);
    if m == 0 {
        assert(t =~= Seq::<Step>::empty());
    } else {
        assert(rt[k as int] == rf[k as int]);
        lemma_rows_step(d, rt, rf, k);
        lemma_transfers_step(d, t);
        assert(t[0] == rt[k as int]);
        assert(t.drop_first() =~= rt.subrange((k + 1) as int, (k + m) as int));
        match rt[k as int] {
            Ok(c) => {
                lemma_rows_agree(spec_transfer(d, c), rt, rf, k + 1, (m - 1) as nat);
            },
            Err(_) => {},
        }
    }
}

/// Steps that write no carry leave it as it was, and none traps.
proof fn lemma_no_carry_writes(d: Datapath, steps: Seq<Step>)
    requires
        forall|j: int| 0 <= j < steps.len() ==> spec_keeps_carry(#[trigger] steps[j]),
    ensures
        spec_transfers(d, steps) matches Some(e) && e.cf == d.cf,
    decreases steps.len(),
{
    if steps.len() > 0 {
        assert(spec_keeps_carry(steps[0]));
        let w = steps[0]->Ok_0;
        assert(forall|j: int| 0 <= j < steps.drop_first().len() ==> steps.drop_first()[j] == steps[j + 1]);
        lemma_no_carry_writes(spec_transfer(d, w), steps.drop_first());
    }
}

/// Where the two rows differ in one step, before which no step writes the carry, running the
/// rows is running the row of the carry.
#[verifier::spinoff_prover]
proof fn lemma_rows_one_carry_step(
    d: Datapath,
    rt: Seq<Step>,
    rf: Seq<Step>,
    pre: Seq<Step>,
    wt: ControlWord,
    wf: ControlWord,
    post: Seq<Step>,
)
    requires
        rt == pre + seq![Ok::<ControlWord, TickTrap>(wt)] + post,
        rf == pre + seq![Ok::<ControlWord, TickTrap>(wf)] + post,
        pre.len() + 1 + post.len() <= 64,
        forall|j: int| 0 <= j < pre.len() ==> spec_keeps_carry(#[trigger] pre[j]),
    ensures
        spec_run_two_rows(d, rt, rf, 0) == spec_transfers(d, if d.cf { rt } else { rf }),
{
    let k = pre.len();
    assert forall|j: int| 0 <= j < k implies rt[j] == rf[j] by {
        assert(rt[j] == pre[j]);
        assert(rf[j] == pre[j]);
    }
    lemma_rows_agree(d, rt, rf, 0, k);
    assert(rt.subrange(0, k as int) =~= pre);
    lemma_no_carry_writes(d, pre);
    let e1 = spec_transfers(d, pre)->0;
    let w = if d.cf { wt } else { wf };
    let e2 = spec_transfer(e1, w);
    assert((if e1.cf { rt } else { rf })[k as int] == Ok::<ControlWord, TickTrap>(w));
    assert(spec_run_two_rows(e1, rt, rf, k) == spec_run_two_rows(e2, rt, rf, k + 1)) by {
        reveal_with_fuel(spec_run_two_rows, 2);
    }
    assert forall|j: int| k + 1 <= j < k + 1 + post.len() implies rt[j] == rf[j] by {
        assert(rt[j] == post[j - k - 1]);
        assert(rf[j] == post[j - k - 1]);
    }
    lemma_rows_agree(e2, rt, rf, k + 1, post.len());
    assert(rt.subrange((k + 1) as int, (k + 1 + post.len()) as int) =~= post);
    let row = if d.cf { rt } else { rf };
    assert(row == pre + seq![Ok::<ControlWord, TickTrap>(w)] + post);
    lemma_transfers_append(d, pre + seq![Ok::<ControlWord, TickTrap>(w)], post);
    lemma_transfers_append(d, pre, seq![Ok::<ControlWord, TickTrap>(w)]);
    assert(spec_transfers(e1, seq![Ok::<ControlWord, TickTrap>(w)]) == Some(e2)) by {
        reveal_with_fuel(spec_transfers, 2);
    }
    let e3 = spec_transfers(e2, post);
    assert(e3 matches Some(x) ==> spec_run_two_rows(x, rt, rf, k + 1 + post.len()) == Some(x));
}

proof fn lemma_rows_add(d: Datapath, i: Instruction)
    requires
        i matches Instruction::Add(Size(size)) && 1 <= size <= 8,
    ensures
        spec_run_rows(d, i, 0) == spec_transfers(d, spec_instruction_steps(i, d.cf)),
{
    let size = i->Add_0.0;
    let n = size as nat;
    let pre = spec_operand_prefix() + spec_advance(n) + seq![Ok(spec_set_yl())] + seq![Ok(spec_nand_zl())]
        + seq![Ok(spec_nand_yl())] + seq![Ok(spec_mem_xl())];
    let post = seq![Ok(spec_set_ylzl())] + seq![Ok(spec_cinsum_mem())] + seq![Ok(spec_nand_yl())];
    let rt = spec_instruction_steps(i, true);
    let rf = spec_instruction_steps(i, false);
    assert(rt =~= pre + seq![Ok::<ControlWord, TickTrap>(spec_cinsum_xlcf())] + post);
    assert(rf =~= pre + seq![Ok::<ControlWord, TickTrap>(spec_sum_xlcf())] + post);
    assert forall|j: int| 0 <= j < pre.len() implies spec_keeps_carry(#[trigger] pre[j]) by {
        if 6 <= j < 6 + n {
            assert(pre[j] == spec_advance(n)[j - 6]);
        }
    }
    lemma_rows_one_carry_step(d, rt, rf, pre, spec_cinsum_xlcf(), spec_sum_xlcf(), post);
}

proof fn lemma_rows_shl(d: Datapath, i: Instruction)
    requires
        i == Instruction::Shl,
    ensures
        spec_run_rows(d, i, 0) == spec_transfers(d, spec_instruction_steps(i, d.cf)),
{
    let pre = spec_fetch_steps() + seq![Ok(spec_sp_al())] + seq![Ok(spec_mem_xlyl())];
    let post = seq![Ok(spec_set_ylzl())] + seq![Ok(spec_cinsum_mem())] + seq![Ok(spec_nand_yl())];
    let rt = spec_instruction_steps(i, true);
    let rf = spec_instruction_steps(i, false);
    assert(rt =~= pre + seq![Ok::<ControlWord, TickTrap>(spec_cinsum_xlcf())] + post);
    assert(rf =~= pre + seq![Ok::<ControlWord, TickTrap>(spec_sum_xlcf())] + post);
    lemma_rows_one_carry_step(d, rt, rf, pre, spec_cinsum_xlcf(), spec_sum_xlcf(), post);
}


/// The microcode of `ldo` pushes the byte `ofst` bytes above the top of the stack, as the
/// emulator does.
#[verifier::spinoff_prover]
pub proof fn law_ldo_microcode(d: Datapath, ofst: u8)
    requires
        spec_ready(d, Instruction::Ldo(crate::common::Ofst(ofst))),
        ofst <= 0x0F,
        d.sp != 1,
        (d.sp + ofst) % 256 != 0,
    ensures
        spec_agrees_with_tick(d, Instruction::Ldo(crate::common::Ofst(ofst))),
{
    let i = Instruction::Ldo(crate::common::Ofst(ofst));
    let n = ofst as nat;
    let pre = spec_fetch_steps() + seq![Ok(spec_sp_alxl())];
    let post = seq![Ok(spec_mem_zl())] + seq![Ok(spec_sp_xl())] + seq![Ok(spec_set_yl())] + seq![Ok(spec_sum_spal())]
        + seq![Ok(spec_nand_zl())] + seq![Ok(spec_nand_mem())] + spec_clear_y();
    let steps = spec_instruction_steps(i, d.cf);
    assert(steps =~= pre + spec_advance(n) + post);
    assert(spec_instruction_steps(i, true) =~= spec_instruction_steps(i, false));
    lemma_rows_same(d, spec_instruction_steps(i, true), 0);
    assert(steps.subrange(0, steps.len() as int) =~= steps);
    lemma_transfers_append(d, pre + spec_advance(n), post);
    lemma_transfers_append(d, pre, spec_advance(n));
    let d1 = Datapath { ip: ((d.ip + 1) % 256) as u8, il: d.mem[d.ip as int], al: d.sp, xl: d.sp, zl: d.mem[d.ip as int], ..d };
    assert(spec_transfers(d, pre) == Some(d1)) by {
        reveal_with_fuel(spec_transfers, 5);
    }
    lemma_advance(d1, n);
    let d2 = spec_transfers(d1, spec_advance(n))->0;
    let v = d.mem[d2.al as int];
    lemma_gates(v, v);
    lemma_gates(0u8, 0u8);
    let sp1 = ((d.sp + 0xFF) % 256) as u8;
    let d3 = Datapath { mem: d2.mem.update(sp1 as int, v), sp: sp1, al: sp1, xl: d.sp, yl: 0, zl: 0xFF, ..d2 };
    assert(spec_transfers(d2, post) == Some(d3)) by {
        reveal_with_fuel(spec_transfers, 9);
    }
    let t = spec_tick(spec_emu_view(d)).0;
    assert(d3.mem =~= t.mem);
}

/// The microcode of `sto` pops the top of the stack and stores it `ofst` bytes above the new
/// top, as the emulator does.
#[verifier::spinoff_prover]
pub proof fn law_sto_microcode(d: Datapath, ofst: u8)
    requires
        spec_ready(d, Instruction::Sto(crate::common::Ofst(ofst))),
        ofst <= 0x0F,
        (d.sp + 1 + ofst) % 256 != 0,
    ensures
        spec_agrees_with_tick(d, Instruction::Sto(crate::common::Ofst(ofst))),
{
    let i = Instruction::Sto(crate::common::Ofst(ofst));
    let n = ofst as nat;
    let pre = spec_fetch_steps() + seq![Ok(spec_sp_alxl())] + seq![Ok(spec_mem_zl())] + seq![Ok(spec_cinsum_spxl())];
    let post = seq![Ok(spec_set_yl())] + seq![Ok(spec_nand_zl())] + seq![Ok(spec_nand_mem())] + spec_clear_y();
    let steps = spec_instruction_steps(i, d.cf);
    assert(steps =~= pre + spec_advance(n) + post);
    assert(spec_instruction_steps(i, true) =~= spec_instruction_steps(i, false));
    lemma_rows_same(d, spec_instruction_steps(i, true), 0);
    assert(steps.subrange(0, steps.len() as int) =~= steps);
    lemma_transfers_append(d, pre + spec_advance(n), post);
    lemma_transfers_append(d, pre, spec_advance(n));
    let sp1 = ((d.sp + 1) % 256) as u8;
    let top = d.mem[d.sp as int];
    let d1 = Datapath { ip: ((d.ip + 1) % 256) as u8, il: d.mem[d.ip as int], sp: sp1, al: sp1, xl: sp1, zl: top, ..d };
    assert(spec_transfers(d, pre) == Some(d1)) by {
        reveal_with_fuel(spec_transfers, 7);
    }
    lemma_advance(d1, n);
    let d2 = spec_transfers(d1, spec_advance(n))->0;
    lemma_gates(top, top);
    lemma_gates(0u8, 0u8);
    let d3 = Datapath { mem: d2.mem.update(d2.al as int, top), yl: 0, zl: 0xFF, ..d2 };
    assert(spec_transfers(d2, post) == Some(d3)) by {
        reveal_with_fuel(spec_transfers, 6);
    }
    let t = spec_tick(spec_emu_view(d)).0;
    assert(d3.mem =~= t.mem);
}


/// A byte with the carry above it as a ninth bit, rotated left by one within the nine bits.
pub open spec fn spec_rotl9(w: u16) -> u16 {
    ((w << 1u16) | (w >> 8u16)) & 0x1FFu16
}

/// Rotating the nine bits left `m` times.
pub open spec fn spec_rotl9_times(w: u16, m: nat) -> u16
    decreases m,
{
    if m == 0 {
        w
    } else {
        spec_rotl9_times(spec_rotl9(w), (m - 1) as nat)
    }
}

/// The carry and a byte as nine bits.
pub open spec fn spec_nine(x: u8, c: bool) -> u16 {
    ((x as int) + if c { 256int } else { 0int }) as u16
}

/// Adding a byte to itself with the carry in is rotating the nine bits left by one.
proof fn lemma_double_rotates(x: u8, c: bool)
    ensures
        spec_nine(((2 * x + if c { 1int } else { 0int }) % 256) as u8, 2 * x + (if c { 1int } else { 0int }) > 255)
            == spec_rotl9(spec_nine(x, c)),
{
    let w = spec_nine(x, c);
    assert(w < 512);
    assert(((w << 1u16) | (w >> 8u16)) & 0x1FFu16 == ((2 * w + w / 256) % 512) as u16) by (bit_vector)
        requires
            w < 512,
    ;
}

/// Rotating nine bits left eight times is rotating them right once.
proof fn lemma_rotl9_eight(w: u16)
    requires
        w < 512,
    ensures
        spec_rotl9_times(w, 8) == (w / 2 + 256 * (w % 2)) as u16,
{
    reveal_with_fuel(spec_rotl9_times, 9);
    assert(spec_rotl9(spec_rotl9(spec_rotl9(spec_rotl9(spec_rotl9(spec_rotl9(spec_rotl9(spec_rotl9(w))))))))
        == (w / 2 + 256 * (w % 2)) as u16) by (bit_vector)
        requires
            w < 512,
    ;
}

/// The doubling steps of `shr`, taken from the row of the carry as it stands, rotate X, Y and
/// the carry left within nine bits, once per step.
#[verifier::spinoff_prover]
proof fn lemma_shr_loop(d: Datapath, rt: Seq<Step>, rf: Seq<Step>, k: nat, m: nat)
    requires
        k + m <= 64,
        k + m <= rt.len(),
        k + m <= rf.len(),
        forall|j: int| k <= j < k + m ==> #[trigger] rt[j] == Ok::<ControlWord, TickTrap>(spec_cinsum_xlylcf()),
        forall|j: int| k <= j < k + m ==> #[trigger] rf[j] == Ok::<ControlWord, TickTrap>(spec_sum_xlylcf()),
        d.xl == d.yl,
    ensures
        ({
            let w = spec_rotl9_times(spec_nine(d.xl, d.cf), m);
            let x = (w % 256) as u8;
            spec_run_two_rows(d, rt, rf, k) == spec_run_two_rows(
                Datapath { xl: x, yl: x, cf: w >= 256, ..d },
                rt,
                rf,
                k + m,
            )
        }),
    decreases m,
{
    if m == 0 {
        assert(Datapath { xl: (spec_nine(d.xl, d.cf) % 256) as u8, yl: (spec_nine(d.xl, d.cf) % 256) as u8, cf: spec_nine(d.xl, d.cf) >= 256, ..d } == d);
    } else {
        let c = d.cf;
        let w = if c { spec_cinsum_xlylcf() } else { spec_sum_xlylcf() };
        let total = 2 * d.xl + if c { 1int } else { 0int };
        let d1 = Datapath { xl: (total % 256) as u8, yl: (total % 256) as u8, cf: total > 255, ..d };
        assert(spec_transfer(d, w) == d1);
        assert((if d.cf { rt } else { rf })[k as int] == Ok::<ControlWord, TickTrap>(w));
        assert(spec_run_two_rows(d, rt, rf, k) == spec_run_two_rows(d1, rt, rf, k + 1));
        lemma_double_rotates(d.xl, c);
        lemma_shr_loop(d1, rt, rf, k + 1, (m - 1) as nat);
        assert(spec_nine(d1.xl, d1.cf) == spec_rotl9(spec_nine(d.xl, d.cf)));
        let wn = spec_rotl9_times(spec_nine(d1.xl, d1.cf), (m - 1) as nat);
        assert(wn == spec_rotl9_times(spec_nine(d.xl, d.cf), m));
        assert(Datapath { xl: (wn % 256) as u8, yl: (wn % 256) as u8, cf: wn >= 256, ..d1 } == Datapath {
            xl: (wn % 256) as u8,
            yl: (wn % 256) as u8,
            cf: wn >= 256,
            ..d
        });
    }
}


/// The microcode of `shr`, which doubles X and Y eight times with the carry as it stands,
/// rotating nine bits once round to the right, halves the top of the stack with the carry
/// shifted in as its highest bit and its lowest bit shifted out to the carry, as the emulator
/// does.
#[verifier::spinoff_prover]
pub proof fn law_shr_microcode(d: Datapath)
    requires
        spec_ready(d, Instruction::Shr),
    ensures
        spec_agrees_with_tick(d, Instruction::Shr),
{
    let i = Instruction::Shr;
    let rt = spec_instruction_steps(i, true);
    let rf = spec_instruction_steps(i, false);
    let pre = spec_fetch_steps() + seq![Ok(spec_sp_al())] + seq![Ok(spec_mem_xlyl())];
    let post = seq![Ok(spec_set_ylzl())] + seq![Ok(spec_cinsum_mem())] + seq![Ok(spec_nand_yl())];
    let lt = Seq::new(8, |_i: int| Ok::<ControlWord, TickTrap>(spec_cinsum_xlylcf()));
    let lf = Seq::new(8, |_i: int| Ok::<ControlWord, TickTrap>(spec_sum_xlylcf()));
    assert(rt =~= pre + lt + post);
    assert(rf =~= pre + lf + post);
    assert forall|j: int| 0 <= j < 5 implies #[trigger] rt[j] == rf[j] by {
        assert(rt[j] == pre[j]);
        assert(rf[j] == pre[j]);
    }
    lemma_rows_agree(d, rt, rf, 0, 5);
    assert(rt.subrange(0, 5) =~= pre);
    let v = d.mem[d.sp as int];
    let d1 = Datapath { ip: ((d.ip + 1) % 256) as u8, il: d.mem[d.ip as int], zl: d.mem[d.ip as int], al: d.sp, xl: v, yl: v, ..d };
    assert(spec_transfers(d, pre) == Some(d1)) by {
        reveal_with_fuel(spec_transfers, 6);
    }
    assert forall|j: int| 5 <= j < 13 implies #[trigger] rt[j] == Ok::<ControlWord, TickTrap>(spec_cinsum_xlylcf()) by {
        assert(rt[j] == lt[j - 5]);
    }
    assert forall|j: int| 5 <= j < 13 implies #[trigger] rf[j] == Ok::<ControlWord, TickTrap>(spec_sum_xlylcf()) by {
        assert(rf[j] == lf[j - 5]);
    }
    lemma_shr_loop(d1, rt, rf, 5, 8);
    let w = spec_nine(v, d.cf);
    lemma_rotl9_eight(w);
    let w8 = spec_rotl9_times(w, 8);
    let x8 = (w8 % 256) as u8;
    let d2 = Datapath { xl: x8, yl: x8, cf: w8 >= 256, ..d1 };
    assert forall|j: int| 13 <= j < 16 implies #[trigger] rt[j] == rf[j] by {
        assert(rt[j] == post[j - 13]);
        assert(rf[j] == post[j - 13]);
    }
    lemma_rows_agree(d2, rt, rf, 13, 3);
    assert(rt.subrange(13, 16) =~= post);
    lemma_gates(0u8, 0u8);
    let d3 = Datapath { mem: d2.mem.update(d.sp as int, x8), yl: 0, zl: 0xFF, ..d2 };
    assert(spec_transfers(d2, post) == Some(d3)) by {
        reveal_with_fuel(spec_transfers, 4);
    }
    assert(spec_run_two_rows(d3, rt, rf, 16) == Some(d3));
    assert(x8 == (v / 2 + if d.cf { 0x80int } else { 0int }) as u8);
    assert((w8 >= 256) == (v % 2 == 1));
    let t = spec_tick(spec_emu_view(d)).0;
    assert(d3.mem =~= t.mem);
}


/// A microcode image holds, for each opcode from `0x80` and each carry, the steps of the
/// opcode's instruction in its row, encoded, and after them the step that clears the step
/// counter: the rows that the laws above run are the ones the simulator reads.
pub proof fn law_image_holds_rows(image: Seq<u16>, o: int, c: bool, i: Instruction, s: int)
    requires
        spec_is_microcode(image),
        0 <= o < 0x80,
        spec_opcode_to_instruction((o + 0x80) as u8) == Ok::<Instruction, u8>(i),
        0 <= s < spec_instruction_steps(i, c).len(),
    ensures
        image[spec_mic_index(o, if c { 1 } else { 0 }, s)] == spec_result_into_u16(spec_instruction_steps(i, c)[s]),
        image[spec_mic_index(o, if c { 1 } else { 0 }, spec_instruction_steps(i, c).len() as int)]
            == spec_result_into_u16(Ok::<ControlWord, TickTrap>(spec_clr_sc())),
{
    let op = (o + 0x80) as u8;
    law_microcode_fits(op, c);
    let cc: int = if c { 1 } else { 0 };
    let steps = spec_instruction_steps(i, c);
    assert(spec_opcode_steps(op, c) == steps);
    let pre = spec_program(op, c);
    assert(pre == steps.push(Ok(spec_clr_sc())));
    assert(spec_padded(op, c)[s] == steps[s]);
    assert(spec_padded(op, c)[steps.len() as int] == Ok::<ControlWord, TickTrap>(spec_clr_sc()));
    assert(image[spec_mic_index(o, cc, s)] == crate::mic::spec_microcode_word(o, cc, s));
    assert(image[spec_mic_index(o, cc, steps.len() as int)] == crate::mic::spec_microcode_word(o, cc, steps.len() as int));
}

} // verus!
