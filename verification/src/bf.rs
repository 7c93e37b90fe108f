//! The microcode of a Brainfuck frontend for the microprocessor: every opcode is a
//! Brainfuck instruction, fetched with its bits inverted so that its top bit is set; `IP`
//! points at the next instruction and `SP` serves as the head. While the carry flag is set,
//! the microcode walks to the matching bracket of a loop.

use vstd::prelude::*;
use crate::common::{result_into_u16, spec_inactive_control_word, spec_result_into_u16, ControlWord, Signal, TickTrap, MIC_SIZE};
use crate::mic::{
    cw_cinsum_ip, cw_cinsum_mem, cw_cinsum_sp, cw_clr_sc, cw_ip_alxl, cw_mem_xl, cw_mem_yl,
    cw_mem_ylzl, cw_nand_mem, cw_nand_yl, cw_nand_ylcf, cw_nand_ylzl, cw_noop, cw_set_yl,
    cw_set_ylzl, cw_sp_al, cw_sp_alxl, cw_sp_xl, cw_sum_mem, cw_sum_spal, cw_sum_xl, push_clr_cf,
    push_clr_yl, push_ok, push_repeated, push_set_cf, spec_cinsum_ip, spec_cinsum_mem,
    spec_cinsum_sp, spec_clr_cf_steps, spec_clr_sc, spec_clr_yl_steps, spec_ip_alxl,
    spec_mem_xl, spec_mem_yl, spec_mem_ylzl, spec_mic_index, spec_nand_mem, spec_nand_yl,
    spec_nand_ylcf, spec_nand_ylzl, spec_noop, spec_set_cf_steps, spec_set_yl, spec_set_ylzl,
    spec_sp_al, spec_sp_alxl, spec_sp_xl, spec_sum_mem, spec_sum_spal, spec_sum_xl, Step,
};
use crate::token::Error;

verus! {

pub open spec fn spec_cinsum_al() -> ControlWord {
    ControlWord { set_cin: Signal::Active, sum_data: Signal::Active, data_al: Signal::Active, ..spec_inactive_control_word() }
}

pub open spec fn spec_nand_il() -> ControlWord {
    ControlWord { nand_data: Signal::Active, data_il: Signal::Active, ..spec_inactive_control_word() }
}

pub open spec fn spec_sum_ip() -> ControlWord {
    ControlWord { sum_data: Signal::Active, data_ip: Signal::Active, ..spec_inactive_control_word() }
}

pub open spec fn spec_nand_ylal() -> ControlWord {
    ControlWord { nand_data: Signal::Active, data_yl: Signal::Active, data_al: Signal::Active, ..spec_inactive_control_word() }
}

pub open spec fn spec_set_al() -> ControlWord {
    ControlWord { data_al: Signal::Active, ..spec_inactive_control_word() }
}

pub open spec fn spec_set_mem() -> ControlWord {
    ControlWord { data_mem: Signal::Active, ..spec_inactive_control_word() }
}

pub open spec fn spec_set_alylzl() -> ControlWord {
    ControlWord { data_al: Signal::Active, data_yl: Signal::Active, data_zl: Signal::Active, ..spec_inactive_control_word() }
}

pub open spec fn spec_nand_xlyl() -> ControlWord {
    ControlWord { nand_data: Signal::Active, data_xl: Signal::Active, data_yl: Signal::Active, ..spec_inactive_control_word() }
}

pub open spec fn spec_sum_memyl() -> ControlWord {
    ControlWord { sum_data: Signal::Active, data_mem: Signal::Active, data_yl: Signal::Active, ..spec_inactive_control_word() }
}

pub open spec fn spec_cinsum_memyl() -> ControlWord {
    ControlWord { set_cin: Signal::Active, sum_data: Signal::Active, data_mem: Signal::Active, data_yl: Signal::Active, ..spec_inactive_control_word() }
}

fn cw_cinsum_al() -> (c: ControlWord)
    ensures
        c == spec_cinsum_al(),
{
    let mut c = cw_noop();
    c.set_cin = Signal::Active;
    c.sum_data = Signal::Active;
    c.data_al = Signal::Active;
    c
}

fn cw_nand_il() -> (c: ControlWord)
    ensures
        c == spec_nand_il(),
{
    let mut c = cw_noop();
    c.nand_data = Signal::Active;
    c.data_il = Signal::Active;
    c
}

fn cw_sum_ip() -> (c: ControlWord)
    ensures
        c == spec_sum_ip(),
{
    let mut c = cw_noop();
    c.sum_data = Signal::Active;
    c.data_ip = Signal::Active;
    c
}

fn cw_nand_ylal() -> (c: ControlWord)
    ensures
        c == spec_nand_ylal(),
{
    let mut c = cw_noop();
    c.nand_data = Signal::Active;
    c.data_yl = Signal::Active;
    c.data_al = Signal::Active;
    c
}

fn cw_set_al() -> (c: ControlWord)
    ensures
        c == spec_set_al(),
{
    let mut c = cw_noop();
    c.data_al = Signal::Active;
    c
}

fn cw_set_mem() -> (c: ControlWord)
    ensures
        c == spec_set_mem(),
{
    let mut c = cw_noop();
    c.data_mem = Signal::Active;
    c
}

fn cw_set_alylzl() -> (c: ControlWord)
    ensures
        c == spec_set_alylzl(),
{
    let mut c = cw_noop();
    c.data_al = Signal::Active;
    c.data_yl = Signal::Active;
    c.data_zl = Signal::Active;
    c
}

fn cw_nand_xlyl() -> (c: ControlWord)
    ensures
        c == spec_nand_xlyl(),
{
    let mut c = cw_noop();
    c.nand_data = Signal::Active;
    c.data_xl = Signal::Active;
    c.data_yl = Signal::Active;
    c
}

fn cw_sum_memyl() -> (c: ControlWord)
    ensures
        c == spec_sum_memyl(),
{
    let mut c = cw_noop();
    c.sum_data = Signal::Active;
    c.data_mem = Signal::Active;
    c.data_yl = Signal::Active;
    c
}

fn cw_cinsum_memyl() -> (c: ControlWord)
    ensures
        c == spec_cinsum_memyl(),
{
    let mut c = cw_noop();
    c.set_cin = Signal::Active;
    c.sum_data = Signal::Active;
    c.data_mem = Signal::Active;
    c.data_yl = Signal::Active;
    c
}

/// `k` no-ops.
pub open spec fn spec_noops(k: nat) -> Seq<Step> {
    Seq::new(k, |_i: int| Ok::<ControlWord, TickTrap>(spec_noop()))
}

/// Fetching an instruction: `IP` is incremented and the inverted opcode goes into `IL`.
pub open spec fn spec_nfetch_steps() -> Seq<Step> {
    seq![Ok(spec_ip_alxl()), Ok(spec_cinsum_ip()), Ok(spec_mem_ylzl()), Ok(spec_nand_il())]
}

/// One step of a walk to the matching bracket: `IP` moves by the walking direction.
pub open spec fn spec_walk_steps() -> Seq<Step> {
    seq![Ok(spec_set_al()), Ok(spec_mem_yl()), Ok(spec_sum_ip())]
}

/// The steps of a simple instruction: a walk step while walking, `rest` otherwise.
pub open spec fn spec_simple_steps(first: Seq<Step>, carry: bool, rest: Seq<Step>) -> Seq<Step> {
    spec_nfetch_steps() + first + if carry { spec_walk_steps() + spec_clr_yl_steps() } else { rest }
}

/// The steps of `[`.
pub open spec fn spec_loop_begin_steps(carry: bool) -> Seq<Step> {
    spec_nfetch_steps() + seq![Ok(spec_set_alylzl()), Ok(spec_nand_xlyl())]
        + (if carry {
        seq![Ok(spec_cinsum_al()), Ok(spec_mem_xl()), Ok(spec_cinsum_memyl())]
    } else {
        seq![Ok(spec_noop()), Ok(spec_cinsum_al()), Ok(spec_sum_memyl())]
    }) + seq![Ok(spec_nand_yl()), Ok(spec_nand_ylcf())]
        + (if carry { spec_clr_cf_steps() } else { spec_set_cf_steps() })
        + (if carry {
        spec_noops(8)
    } else {
        seq![
            Ok(spec_set_al()),
            Ok(spec_cinsum_mem()),
            Ok(spec_cinsum_al()),
            Ok(spec_cinsum_mem()),
            Ok(spec_sp_al()),
            Ok(spec_mem_ylzl()),
            Ok(spec_nand_ylzl()),
            Ok(spec_nand_ylcf()),
        ]
    }) + (if carry {
        seq![Ok(spec_ip_alxl()), Ok(spec_set_yl()), Ok(spec_sum_xl())] + spec_walk_steps()
    } else {
        spec_noops(6)
    }) + spec_clr_yl_steps()
}

/// The steps of `]`.
pub open spec fn spec_loop_end_steps(carry: bool) -> Seq<Step> {
    spec_nfetch_steps() + seq![Ok(spec_set_alylzl()), Ok(spec_nand_xlyl())]
        + (if carry {
        seq![Ok(spec_cinsum_al()), Ok(spec_mem_xl()), Ok(spec_set_yl()), Ok(spec_sum_memyl())]
    } else {
        seq![Ok(spec_noop()), Ok(spec_noop()), Ok(spec_cinsum_al()), Ok(spec_sum_memyl())]
    }) + seq![Ok(spec_nand_yl()), Ok(spec_nand_ylcf())]
        + (if carry {
        seq![
            Ok(spec_set_alylzl()),
            Ok(spec_set_mem()),
            Ok(spec_nand_xlyl()),
            Ok(spec_cinsum_al()),
            Ok(spec_nand_mem()),
            Ok(spec_sp_al()),
            Ok(spec_mem_ylzl()),
            Ok(spec_nand_ylzl()),
            Ok(spec_nand_ylcf()),
        ]
    } else {
        spec_noops(9)
    }) + (if carry {
        spec_noops(6)
    } else {
        seq![Ok(spec_ip_alxl()), Ok(spec_set_yl()), Ok(spec_sum_xl())] + spec_walk_steps()
    }) + (if carry { spec_clr_cf_steps() } else { spec_set_cf_steps() })
}

/// The steps of the instruction whose opcode is `opcode`: the Brainfuck character is the
/// opcode with its bits inverted, and a character that is no instruction does nothing.
pub open spec fn spec_bf_steps(opcode: u8, carry: bool) -> Seq<Step> {
    let c = (255 - opcode) as u8;
    if c == 0x3E {
        spec_simple_steps(seq![Ok(spec_set_ylzl())], carry, seq![Ok(spec_sp_xl()), Ok(spec_sum_spal()), Ok(spec_nand_yl())])
    } else if c == 0x3C {
        spec_simple_steps(spec_clr_yl_steps(), carry, seq![Ok(spec_sp_alxl()), Ok(spec_cinsum_sp())])
    } else if c == 0x2B {
        spec_simple_steps(spec_clr_yl_steps(), carry, seq![Ok(spec_sp_al()), Ok(spec_mem_xl()), Ok(spec_cinsum_mem())])
    } else if c == 0x2D {
        spec_simple_steps(
            seq![Ok(spec_set_ylzl())],
            carry,
            seq![Ok(spec_sp_al()), Ok(spec_mem_xl()), Ok(spec_sum_mem()), Ok(spec_nand_yl())],
        )
    } else if c == 0x2E {
        spec_simple_steps(
            seq![Ok(spec_set_ylzl())],
            carry,
            seq![Ok(spec_sp_al()), Ok(spec_mem_xl()), Ok(spec_nand_ylal()), Ok(spec_sum_mem())],
        )
    } else if c == 0x2C {
        spec_simple_steps(
            seq![Ok(spec_set_ylzl())],
            carry,
            seq![Ok(spec_nand_ylal()), Ok(spec_mem_xl()), Ok(spec_sp_al()), Ok(spec_sum_mem())],
        )
    } else if c == 0x5B {
        spec_loop_begin_steps(carry)
    } else if c == 0x5D {
        spec_loop_end_steps(carry)
    } else if c == 0x23 {
        spec_simple_steps(spec_clr_yl_steps(), carry, seq![Err(TickTrap::DebugRequest)])
    } else if c == 0x00 {
        spec_nfetch_steps() + spec_clr_yl_steps() + seq![Ok(spec_sum_ip())]
    } else {
        spec_simple_steps(spec_clr_yl_steps(), carry, Seq::empty())
    }
}

/// The steps of an instruction followed by clearing the step counter.
pub open spec fn spec_bf_program(opcode: u8, carry: bool) -> Seq<Step> {
    spec_bf_steps(opcode, carry).push(Ok(spec_clr_sc()))
}

/// The 32 steps of an opcode with the carry flag as given: its program, microcode faults, and a
/// final clearing of the step counter; all faults where the program does not fit.
pub open spec fn spec_bf_padded(opcode: u8, carry: bool) -> Seq<Step> {
    let pre = spec_bf_program(opcode, carry);
    if pre.len() + 1 <= 32 {
        pre + Seq::new((31 - pre.len()) as nat, |_i: int| Err::<ControlWord, TickTrap>(TickTrap::MicrocodeFault))
            + seq![Ok(spec_clr_sc())]
    } else {
        Seq::new(32, |_i: int| Err::<ControlWord, TickTrap>(TickTrap::MicrocodeFault))
    }
}

/// The microcode word for opcode `0x80 + o`, the carry flag and the step.
pub open spec fn spec_bf_word(o: int, c: int, step: int) -> u16 {
    spec_result_into_u16(spec_bf_padded((o + 0x80) as u8, c == 1)[step])
}

/// Whether `image` is the microcode of the frontend: the word for opcode `0x80 + o`, carry `c`
/// and step `s` stands at `0x40 * o + 0x20 * c + s`.
pub open spec fn spec_is_bf_microcode(image: Seq<u16>) -> bool {
    &&& image.len() == MIC_SIZE
    &&& forall|o: int, c: int, s: int|
        0 <= o < 0x80 && 0 <= c < 2 && 0 <= s < 32 ==> image[spec_mic_index(o, c, s)]
            == spec_bf_word(o, c, s)
}

/// Every program of the frontend fits in the 32 steps of the microcode with the final clearing
/// of the step counter.
pub proof fn law_bf_microcode_fits(opcode: u8, carry: bool)
    ensures
        spec_bf_program(opcode, carry).len() + 1 <= 32,
{
}

fn push_nfetch(out: &mut Vec<Step>)
    ensures
        final(out)@ == old(out)@ + spec_nfetch_steps(),
{
    let ghost start = out@;
    push_ok(out, cw_ip_alxl());
    push_ok(out, cw_cinsum_ip());
    push_ok(out, cw_mem_ylzl());
    push_ok(out, cw_nand_il());
    assert(out@ =~= start + spec_nfetch_steps());
}

fn push_walk(out: &mut Vec<Step>)
    ensures
        final(out)@ == old(out)@ + spec_walk_steps(),
{
    let ghost start = out@;
    push_ok(out, cw_set_al());
    push_ok(out, cw_mem_yl());
    push_ok(out, cw_sum_ip());
    assert(out@ =~= start + spec_walk_steps());
}

fn push_noops(out: &mut Vec<Step>, k: u8)
    ensures
        final(out)@ == old(out)@ + spec_noops(k as nat),
{
    push_repeated(out, cw_noop(), k);
}

/// The steps of a simple instruction, given its first steps and the steps when not walking.
fn push_simple(out: &mut Vec<Step>, first: Vec<Step>, carry: bool, rest: Vec<Step>)
    ensures
        final(out)@ == old(out)@ + spec_simple_steps(first@, carry, rest@),
{
    let ghost start = out@;
    let ghost f = first@;
    let ghost r = rest@;
    push_nfetch(out);
    let mut first = first;
    out.append(&mut first);
    if carry {
        push_walk(out);
        push_clr_yl(out);
    } else {
        let mut rest = rest;
        out.append(&mut rest);
    }
    assert(out@ =~= start + spec_simple_steps(f, carry, r));
}

fn clr_yl_steps() -> (r: Vec<Step>)
    ensures
        r@ == spec_clr_yl_steps(),
{
    let mut r: Vec<Step> = Vec::new();
    push_clr_yl(&mut r);
    assert(r@ =~= spec_clr_yl_steps());
    r
}

fn push_loop_begin(out: &mut Vec<Step>, carry: bool)
    ensures
        final(out)@ == old(out)@ + spec_loop_begin_steps(carry),
{
    let ghost start = out@;
    push_nfetch(out);
    push_ok(out, cw_set_alylzl());
    push_ok(out, cw_nand_xlyl());
    if carry {
        push_ok(out, cw_cinsum_al());
        push_ok(out, cw_mem_xl());
        push_ok(out, cw_cinsum_memyl());
    } else {
        push_ok(out, cw_noop());
        push_ok(out, cw_cinsum_al());
        push_ok(out, cw_sum_memyl());
    }
    push_ok(out, cw_nand_yl());
    push_ok(out, cw_nand_ylcf());
    if carry {
        push_clr_cf(out);
        push_noops(out, 8);
        push_ok(out, cw_ip_alxl());
        push_ok(out, cw_set_yl());
        push_ok(out, cw_sum_xl());
        push_walk(out);
    } else {
        push_set_cf(out);
        push_ok(out, cw_set_al());
        push_ok(out, cw_cinsum_mem());
        push_ok(out, cw_cinsum_al());
        push_ok(out, cw_cinsum_mem());
        push_ok(out, cw_sp_al());
        push_ok(out, cw_mem_ylzl());
        push_ok(out, cw_nand_ylzl());
        push_ok(out, cw_nand_ylcf());
        push_noops(out, 6);
    }
    push_clr_yl(out);
    assert(out@ =~= start + spec_loop_begin_steps(carry));
}

fn push_loop_end(out: &mut Vec<Step>, carry: bool)
    ensures
        final(out)@ == old(out)@ + spec_loop_end_steps(carry),
{
    let ghost start = out@;
    push_nfetch(out);
    push_ok(out, cw_set_alylzl());
    push_ok(out, cw_nand_xlyl());
    if carry {
        push_ok(out, cw_cinsum_al());
        push_ok(out, cw_mem_xl());
        push_ok(out, cw_set_yl());
        push_ok(out, cw_sum_memyl());
    } else {
        push_ok(out, cw_noop());
        push_ok(out, cw_noop());
        push_ok(out, cw_cinsum_al());
        push_ok(out, cw_sum_memyl());
    }
    push_ok(out, cw_nand_yl());
    push_ok(out, cw_nand_ylcf());
    if carry {
        push_ok(out, cw_set_alylzl());
        push_ok(out, cw_set_mem());
        push_ok(out, cw_nand_xlyl());
        push_ok(out, cw_cinsum_al());
        push_ok(out, cw_nand_mem());
        push_ok(out, cw_sp_al());
        push_ok(out, cw_mem_ylzl());
        push_ok(out, cw_nand_ylzl());
        push_ok(out, cw_nand_ylcf());
        push_noops(out, 6);
        push_clr_cf(out);
    } else {
        push_noops(out, 9);
        push_ok(out, cw_ip_alxl());
        push_ok(out, cw_set_yl());
        push_ok(out, cw_sum_xl());
        push_walk(out);
        push_set_cf(out);
    }
    assert(out@ =~= start + spec_loop_end_steps(carry));
}

/// The steps of the instruction whose opcode is `opcode`.
fn bf_steps(opcode: u8, carry: bool) -> (r: Vec<Step>)
    ensures
        r@ == spec_bf_steps(opcode, carry),
{
    let c: u8 = 255 - opcode;
    let mut out: Vec<Step> = Vec::new();
    if c == 0x3E {
        push_simple(&mut out, vec![Ok(cw_set_ylzl())], carry, vec![Ok(cw_sp_xl()), Ok(cw_sum_spal()), Ok(cw_nand_yl())]);
    } else if c == 0x3C {
        push_simple(&mut out, clr_yl_steps(), carry, vec![Ok(cw_sp_alxl()), Ok(cw_cinsum_sp())]);
    } else if c == 0x2B {
        push_simple(&mut out, clr_yl_steps(), carry, vec![Ok(cw_sp_al()), Ok(cw_mem_xl()), Ok(cw_cinsum_mem())]);
    } else if c == 0x2D {
        push_simple(
            &mut out,
            vec![Ok(cw_set_ylzl())],
            carry,
            vec![Ok(cw_sp_al()), Ok(cw_mem_xl()), Ok(cw_sum_mem()), Ok(cw_nand_yl())],
        );
    } else if c == 0x2E {
        push_simple(
            &mut out,
            vec![Ok(cw_set_ylzl())],
            carry,
            vec![Ok(cw_sp_al()), Ok(cw_mem_xl()), Ok(cw_nand_ylal()), Ok(cw_sum_mem())],
        );
    } else if c == 0x2C {
        push_simple(
            &mut out,
            vec![Ok(cw_set_ylzl())],
            carry,
            vec![Ok(cw_nand_ylal()), Ok(cw_mem_xl()), Ok(cw_sp_al()), Ok(cw_sum_mem())],
        );
    } else if c == 0x5B {
        push_loop_begin(&mut out, carry);
    } else if c == 0x5D {
        push_loop_end(&mut out, carry);
    } else if c == 0x23 {
        push_simple(&mut out, clr_yl_steps(), carry, vec![Err(TickTrap::DebugRequest)]);
    } else if c == 0x00 {
        push_nfetch(&mut out);
        push_clr_yl(&mut out);
        push_ok(&mut out, cw_sum_ip());
    } else {
        push_simple(&mut out, clr_yl_steps(), carry, Vec::new());
    }
    assert(out@ =~= spec_bf_steps(opcode, carry));
    out
}

fn bf_padded(opcode: u8, carry: bool) -> (r: Vec<Step>)
    ensures
        r@ == spec_bf_padded(opcode, carry),
        r@.len() == 32,
{
    let mut steps = bf_steps(opcode, carry);
    steps.push(Ok(cw_clr_sc()));
    proof {
        law_bf_microcode_fits(opcode, carry);
    }
    let ghost pre = steps@;
    while steps.len() < 31
        invariant
            pre == spec_bf_program(opcode, carry),
            pre.len() <= steps@.len() <= 31,
            steps@ == pre + Seq::new((steps@.len() - pre.len()) as nat, |_i: int| Err::<ControlWord, TickTrap>(TickTrap::MicrocodeFault)),
        decreases 31 - steps.len(),
    {
        steps.push(Err(TickTrap::MicrocodeFault));
        assert(steps@ =~= pre + Seq::new((steps@.len() - pre.len()) as nat, |_i: int| Err::<ControlWord, TickTrap>(TickTrap::MicrocodeFault)));
    }
    steps.push(Ok(cw_clr_sc()));
    assert(steps@ =~= spec_bf_padded(opcode, carry));
    steps
}

/// Builds the microcode image of the frontend. No program overflows its 32 steps, so no error
/// is reported.
pub fn build_microcode(errors: &mut Vec<Error>) -> (r: Vec<u16>)
    ensures
        spec_is_bf_microcode(r@),
        final(errors)@ == old(errors)@,
{
    let mut image: Vec<u16> = Vec::new();
    let mut o: usize = 0;
    while o < 0x80
        invariant
            o <= 0x80,
            image@.len() == 0x40 * o,
            forall|o2: int, c: int, s: int|
                0 <= o2 < o && 0 <= c < 2 && 0 <= s < 32 ==> image@[spec_mic_index(o2, c, s)]
                    == spec_bf_word(o2, c, s),
        decreases 0x80 - o,
    {
        let mut c: usize = 0;
        while c < 2
            invariant
                o < 0x80,
                c <= 2,
                image@.len() == 0x40 * o + 0x20 * c,
                forall|o2: int, c2: int, s: int|
                    0 <= o2 < o && 0 <= c2 < 2 && 0 <= s < 32 ==> image@[spec_mic_index(o2, c2, s)]
                        == spec_bf_word(o2, c2, s),
                forall|c2: int, s: int|
                    0 <= c2 < c && 0 <= s < 32 ==> image@[spec_mic_index(o as int, c2, s)]
                        == spec_bf_word(o as int, c2, s),
            decreases 2 - c,
        {
            let steps = bf_padded((o + 0x80) as u8, c == 1);
            let mut s: usize = 0;
            while s < 32
                invariant
                    o < 0x80,
                    c < 2,
                    s <= 32,
                    steps@ == spec_bf_padded((o + 0x80) as u8, c == 1),
                    steps@.len() == 32,
                    image@.len() == 0x40 * o + 0x20 * c + s,
                    forall|o2: int, c2: int, s2: int|
                        0 <= o2 < o && 0 <= c2 < 2 && 0 <= s2 < 32 ==> image@[spec_mic_index(o2, c2, s2)]
                            == spec_bf_word(o2, c2, s2),
                    forall|c2: int, s2: int|
                        0 <= c2 < c && 0 <= s2 < 32 ==> image@[spec_mic_index(o as int, c2, s2)]
                            == spec_bf_word(o as int, c2, s2),
                    forall|s2: int|
                        0 <= s2 < s ==> image@[spec_mic_index(o as int, c as int, s2)]
                            == spec_bf_word(o as int, c as int, s2),
                decreases 32 - s,
            {
                image.push(result_into_u16(steps[s]));
                s = s + 1;
            }
            c = c + 1;
        }
        o = o + 1;
    }
    image
}

} // verus!
