//! The microcode: for every opcode, carry and step, the control word that drives the
//! microarchitecture.

use vstd::prelude::*;
use crate::common::{
    opcode_to_instruction, result_into_u16, spec_inactive_control_word, spec_opcode_to_instruction,
    spec_result_into_u16, ControlWord, Instruction, Ofst, Signal, Size, TickTrap, MIC_SIZE,
};
use crate::token::Error;

verus! {

/// A microcode step: a control word, or a trap.
pub type Step = Result<ControlWord, TickTrap>;

pub open spec fn spec_sp_xl() -> ControlWord {
    ControlWord { sp_data: Signal::Active, data_xl: Signal::Active, ..spec_inactive_control_word() }
}

pub open spec fn spec_ip_alxl() -> ControlWord {
    ControlWord { ip_data: Signal::Active, data_al: Signal::Active, data_xl: Signal::Active, ..spec_inactive_control_word() }
}

pub open spec fn spec_mem_ilzl() -> ControlWord {
    ControlWord { mem_data: Signal::Active, data_il: Signal::Active, data_zl: Signal::Active, ..spec_inactive_control_word() }
}

pub open spec fn spec_nand_ylzl() -> ControlWord {
    ControlWord { nand_data: Signal::Active, data_yl: Signal::Active, data_zl: Signal::Active, ..spec_inactive_control_word() }
}

pub open spec fn spec_sum_spal() -> ControlWord {
    ControlWord { sum_data: Signal::Active, data_sp: Signal::Active, data_al: Signal::Active, ..spec_inactive_control_word() }
}

pub open spec fn spec_cinsum_ip() -> ControlWord {
    ControlWord { set_cin: Signal::Active, sum_data: Signal::Active, data_ip: Signal::Active, ..spec_inactive_control_word() }
}

pub open spec fn spec_nand_mem() -> ControlWord {
    ControlWord { nand_data: Signal::Active, data_mem: Signal::Active, ..spec_inactive_control_word() }
}

pub open spec fn spec_mem_zl() -> ControlWord {
    ControlWord { mem_data: Signal::Active, data_zl: Signal::Active, ..spec_inactive_control_word() }
}

pub open spec fn spec_mem_xl() -> ControlWord {
    ControlWord { mem_data: Signal::Active, data_xl: Signal::Active, ..spec_inactive_control_word() }
}

pub open spec fn spec_sum_mem() -> ControlWord {
    ControlWord { sum_data: Signal::Active, data_mem: Signal::Active, ..spec_inactive_control_word() }
}

pub open spec fn spec_set_yl() -> ControlWord {
    ControlWord { data_yl: Signal::Active, ..spec_inactive_control_word() }
}

pub open spec fn spec_sp_al() -> ControlWord {
    ControlWord { sp_data: Signal::Active, data_al: Signal::Active, ..spec_inactive_control_word() }
}

pub open spec fn spec_sp_alxl() -> ControlWord {
    ControlWord { sp_data: Signal::Active, data_al: Signal::Active, data_xl: Signal::Active, ..spec_inactive_control_word() }
}

pub open spec fn spec_sum_al() -> ControlWord {
    ControlWord { sum_data: Signal::Active, data_al: Signal::Active, ..spec_inactive_control_word() }
}

pub open spec fn spec_nand_xl() -> ControlWord {
    ControlWord { nand_data: Signal::Active, data_xl: Signal::Active, ..spec_inactive_control_word() }
}

pub open spec fn spec_mem_ylzl() -> ControlWord {
    ControlWord { mem_data: Signal::Active, data_yl: Signal::Active, data_zl: Signal::Active, ..spec_inactive_control_word() }
}

pub open spec fn spec_nand_zl() -> ControlWord {
    ControlWord { nand_data: Signal::Active, data_zl: Signal::Active, ..spec_inactive_control_word() }
}

pub open spec fn spec_cinsum_yl() -> ControlWord {
    ControlWord { set_cin: Signal::Active, sum_data: Signal::Active, data_yl: Signal::Active, ..spec_inactive_control_word() }
}

pub open spec fn spec_cinsum_mem() -> ControlWord {
    ControlWord { set_cin: Signal::Active, sum_data: Signal::Active, data_mem: Signal::Active, ..spec_inactive_control_word() }
}

pub open spec fn spec_set_ylzl() -> ControlWord {
    ControlWord { data_yl: Signal::Active, data_zl: Signal::Active, ..spec_inactive_control_word() }
}

pub open spec fn spec_sp_xlzl() -> ControlWord {
    ControlWord { sp_data: Signal::Active, data_xl: Signal::Active, data_zl: Signal::Active, ..spec_inactive_control_word() }
}

pub open spec fn spec_set_zl() -> ControlWord {
    ControlWord { data_zl: Signal::Active, ..spec_inactive_control_word() }
}

pub open spec fn spec_nand_yl() -> ControlWord {
    ControlWord { nand_data: Signal::Active, data_yl: Signal::Active, ..spec_inactive_control_word() }
}

pub open spec fn spec_mem_ip() -> ControlWord {
    ControlWord { mem_data: Signal::Active, data_ip: Signal::Active, ..spec_inactive_control_word() }
}

pub open spec fn spec_cinsum_sp() -> ControlWord {
    ControlWord { set_cin: Signal::Active, sum_data: Signal::Active, data_sp: Signal::Active, ..spec_inactive_control_word() }
}

pub open spec fn spec_nand_memcf() -> ControlWord {
    ControlWord { nand_data: Signal::Active, data_mem: Signal::Active, data_cf: Signal::Active, ..spec_inactive_control_word() }
}

pub open spec fn spec_mem_sp() -> ControlWord {
    ControlWord { mem_data: Signal::Active, data_sp: Signal::Active, ..spec_inactive_control_word() }
}

pub open spec fn spec_nand_ylcf() -> ControlWord {
    ControlWord { nand_data: Signal::Active, data_yl: Signal::Active, data_cf: Signal::Active, ..spec_inactive_control_word() }
}

pub open spec fn spec_mem_xlyl() -> ControlWord {
    ControlWord { mem_data: Signal::Active, data_xl: Signal::Active, data_yl: Signal::Active, ..spec_inactive_control_word() }
}

pub open spec fn spec_nand_al() -> ControlWord {
    ControlWord { nand_data: Signal::Active, data_al: Signal::Active, ..spec_inactive_control_word() }
}

pub open spec fn spec_cinsum_spxl() -> ControlWord {
    ControlWord { set_cin: Signal::Active, sum_data: Signal::Active, data_sp: Signal::Active, data_al: Signal::Active, data_xl: Signal::Active, ..spec_inactive_control_word() }
}

pub open spec fn spec_cinsum_alxl() -> ControlWord {
    ControlWord { set_cin: Signal::Active, sum_data: Signal::Active, data_al: Signal::Active, data_xl: Signal::Active, ..spec_inactive_control_word() }
}

pub open spec fn spec_nand_zlcf() -> ControlWord {
    ControlWord { nand_data: Signal::Active, data_zl: Signal::Active, data_cf: Signal::Active, ..spec_inactive_control_word() }
}

pub open spec fn spec_cinsum_xlcf() -> ControlWord {
    ControlWord { set_cin: Signal::Active, sum_data: Signal::Active, data_xl: Signal::Active, data_cf: Signal::Active, ..spec_inactive_control_word() }
}

pub open spec fn spec_sum_xlcf() -> ControlWord {
    ControlWord { sum_data: Signal::Active, data_xl: Signal::Active, data_cf: Signal::Active, ..spec_inactive_control_word() }
}

pub open spec fn spec_cinsum_xlylcf() -> ControlWord {
    ControlWord { set_cin: Signal::Active, sum_data: Signal::Active, data_xl: Signal::Active, data_yl: Signal::Active, data_cf: Signal::Active, ..spec_inactive_control_word() }
}

pub open spec fn spec_sum_xlylcf() -> ControlWord {
    ControlWord { sum_data: Signal::Active, data_xl: Signal::Active, data_yl: Signal::Active, data_cf: Signal::Active, ..spec_inactive_control_word() }
}

pub open spec fn spec_mem_yl() -> ControlWord {
    ControlWord { mem_data: Signal::Active, data_yl: Signal::Active, ..spec_inactive_control_word() }
}

pub open spec fn spec_cinsum_xl() -> ControlWord {
    ControlWord { set_cin: Signal::Active, sum_data: Signal::Active, data_xl: Signal::Active, ..spec_inactive_control_word() }
}

pub open spec fn spec_sum_xl() -> ControlWord {
    ControlWord { sum_data: Signal::Active, data_xl: Signal::Active, ..spec_inactive_control_word() }
}

pub open spec fn spec_nand_memyl() -> ControlWord {
    ControlWord { nand_data: Signal::Active, data_mem: Signal::Active, data_yl: Signal::Active, ..spec_inactive_control_word() }
}

pub open spec fn spec_set_xlylzl() -> ControlWord {
    ControlWord { data_xl: Signal::Active, data_yl: Signal::Active, data_zl: Signal::Active, ..spec_inactive_control_word() }
}

pub open spec fn spec_ip_mem() -> ControlWord {
    ControlWord { ip_data: Signal::Active, data_mem: Signal::Active, ..spec_inactive_control_word() }
}

pub open spec fn spec_clr_sc() -> ControlWord {
    ControlWord { clr_sc: Signal::Active, ..spec_inactive_control_word() }
}

pub open spec fn spec_nand_xlylcf() -> ControlWord {
    ControlWord { nand_data: Signal::Active, data_xl: Signal::Active, data_yl: Signal::Active, data_cf: Signal::Active, ..spec_inactive_control_word() }
}

pub open spec fn spec_nand_xlylzl() -> ControlWord {
    ControlWord { nand_data: Signal::Active, data_xl: Signal::Active, data_yl: Signal::Active, data_zl: Signal::Active, ..spec_inactive_control_word() }
}

pub open spec fn spec_noop() -> ControlWord {
    spec_inactive_control_word()
}

pub(crate) fn cw_sp_xl() -> (c: ControlWord)
    ensures
        c == spec_sp_xl(),
{
    ControlWord {
        data_ip: Signal::Inactive,
        data_sp: Signal::Inactive,
        data_cf: Signal::Inactive,
        data_il: Signal::Inactive,
        data_al: Signal::Inactive,
        data_xl: Signal::Active,
        data_yl: Signal::Inactive,
        data_zl: Signal::Inactive,
        mem_data: Signal::Inactive,
        data_mem: Signal::Inactive,
        ip_data: Signal::Inactive,
        sp_data: Signal::Active,
        clr_sc: Signal::Inactive,
        set_cin: Signal::Inactive,
        sum_data: Signal::Inactive,
        nand_data: Signal::Inactive,
    }
}

pub(crate) fn cw_ip_alxl() -> (c: ControlWord)
    ensures
        c == spec_ip_alxl(),
{
    ControlWord {
        data_ip: Signal::Inactive,
        data_sp: Signal::Inactive,
        data_cf: Signal::Inactive,
        data_il: Signal::Inactive,
        data_al: Signal::Active,
        data_xl: Signal::Active,
        data_yl: Signal::Inactive,
        data_zl: Signal::Inactive,
        mem_data: Signal::Inactive,
        data_mem: Signal::Inactive,
        ip_data: Signal::Active,
        sp_data: Signal::Inactive,
        clr_sc: Signal::Inactive,
        set_cin: Signal::Inactive,
        sum_data: Signal::Inactive,
        nand_data: Signal::Inactive,
    }
}

pub(crate) fn cw_mem_ilzl() -> (c: ControlWord)
    ensures
        c == spec_mem_ilzl(),
{
    ControlWord {
        data_ip: Signal::Inactive,
        data_sp: Signal::Inactive,
        data_cf: Signal::Inactive,
        data_il: Signal::Active,
        data_al: Signal::Inactive,
        data_xl: Signal::Inactive,
        data_yl: Signal::Inactive,
        data_zl: Signal::Active,
        mem_data: Signal::Active,
        data_mem: Signal::Inactive,
        ip_data: Signal::Inactive,
        sp_data: Signal::Inactive,
        clr_sc: Signal::Inactive,
        set_cin: Signal::Inactive,
        sum_data: Signal::Inactive,
        nand_data: Signal::Inactive,
    }
}

pub(crate) fn cw_nand_ylzl() -> (c: ControlWord)
    ensures
        c == spec_nand_ylzl(),
{
    ControlWord {
        data_ip: Signal::Inactive,
        data_sp: Signal::Inactive,
        data_cf: Signal::Inactive,
        data_il: Signal::Inactive,
        data_al: Signal::Inactive,
        data_xl: Signal::Inactive,
        data_yl: Signal::Active,
        data_zl: Signal::Active,
        mem_data: Signal::Inactive,
        data_mem: Signal::Inactive,
        ip_data: Signal::Inactive,
        sp_data: Signal::Inactive,
        clr_sc: Signal::Inactive,
        set_cin: Signal::Inactive,
        sum_data: Signal::Inactive,
        nand_data: Signal::Active,
    }
}

pub(crate) fn cw_sum_spal() -> (c: ControlWord)
    ensures
        c == spec_sum_spal(),
{
    ControlWord {
        data_ip: Signal::Inactive,
        data_sp: Signal::Active,
        data_cf: Signal::Inactive,
        data_il: Signal::Inactive,
        data_al: Signal::Active,
        data_xl: Signal::Inactive,
        data_yl: Signal::Inactive,
        data_zl: Signal::Inactive,
        mem_data: Signal::Inactive,
        data_mem: Signal::Inactive,
        ip_data: Signal::Inactive,
        sp_data: Signal::Inactive,
        clr_sc: Signal::Inactive,
        set_cin: Signal::Inactive,
        sum_data: Signal::Active,
        nand_data: Signal::Inactive,
    }
}

pub(crate) fn cw_cinsum_ip() -> (c: ControlWord)
    ensures
        c == spec_cinsum_ip(),
{
    ControlWord {
        data_ip: Signal::Active,
        data_sp: Signal::Inactive,
        data_cf: Signal::Inactive,
        data_il: Signal::Inactive,
        data_al: Signal::Inactive,
        data_xl: Signal::Inactive,
        data_yl: Signal::Inactive,
        data_zl: Signal::Inactive,
        mem_data: Signal::Inactive,
        data_mem: Signal::Inactive,
        ip_data: Signal::Inactive,
        sp_data: Signal::Inactive,
        clr_sc: Signal::Inactive,
        set_cin: Signal::Active,
        sum_data: Signal::Active,
        nand_data: Signal::Inactive,
    }
}

pub(crate) fn cw_nand_mem() -> (c: ControlWord)
    ensures
        c == spec_nand_mem(),
{
    ControlWord {
        data_ip: Signal::Inactive,
        data_sp: Signal::Inactive,
        data_cf: Signal::Inactive,
        data_il: Signal::Inactive,
        data_al: Signal::Inactive,
        data_xl: Signal::Inactive,
        data_yl: Signal::Inactive,
        data_zl: Signal::Inactive,
        mem_data: Signal::Inactive,
        data_mem: Signal::Active,
        ip_data: Signal::Inactive,
        sp_data: Signal::Inactive,
        clr_sc: Signal::Inactive,
        set_cin: Signal::Inactive,
        sum_data: Signal::Inactive,
        nand_data: Signal::Active,
    }
}

pub(crate) fn cw_mem_zl() -> (c: ControlWord)
    ensures
        c == spec_mem_zl(),
{
    ControlWord {
        data_ip: Signal::Inactive,
        data_sp: Signal::Inactive,
        data_cf: Signal::Inactive,
        data_il: Signal::Inactive,
        data_al: Signal::Inactive,
        data_xl: Signal::Inactive,
        data_yl: Signal::Inactive,
        data_zl: Signal::Active,
        mem_data: Signal::Active,
        data_mem: Signal::Inactive,
        ip_data: Signal::Inactive,
        sp_data: Signal::Inactive,
        clr_sc: Signal::Inactive,
        set_cin: Signal::Inactive,
        sum_data: Signal::Inactive,
        nand_data: Signal::Inactive,
    }
}

pub(crate) fn cw_mem_xl() -> (c: ControlWord)
    ensures
        c == spec_mem_xl(),
{
    ControlWord {
        data_ip: Signal::Inactive,
        data_sp: Signal::Inactive,
        data_cf: Signal::Inactive,
        data_il: Signal::Inactive,
        data_al: Signal::Inactive,
        data_xl: Signal::Active,
        data_yl: Signal::Inactive,
        data_zl: Signal::Inactive,
        mem_data: Signal::Active,
        data_mem: Signal::Inactive,
        ip_data: Signal::Inactive,
        sp_data: Signal::Inactive,
        clr_sc: Signal::Inactive,
        set_cin: Signal::Inactive,
        sum_data: Signal::Inactive,
        nand_data: Signal::Inactive,
    }
}

pub(crate) fn cw_sum_mem() -> (c: ControlWord)
    ensures
        c == spec_sum_mem(),
{
    ControlWord {
        data_ip: Signal::Inactive,
        data_sp: Signal::Inactive,
        data_cf: Signal::Inactive,
        data_il: Signal::Inactive,
        data_al: Signal::Inactive,
        data_xl: Signal::Inactive,
        data_yl: Signal::Inactive,
        data_zl: Signal::Inactive,
        mem_data: Signal::Inactive,
        data_mem: Signal::Active,
        ip_data: Signal::Inactive,
        sp_data: Signal::Inactive,
        clr_sc: Signal::Inactive,
        set_cin: Signal::Inactive,
        sum_data: Signal::Active,
        nand_data: Signal::Inactive,
    }
}

pub(crate) fn cw_set_yl() -> (c: ControlWord)
    ensures
        c == spec_set_yl(),
{
    ControlWord {
        data_ip: Signal::Inactive,
        data_sp: Signal::Inactive,
        data_cf: Signal::Inactive,
        data_il: Signal::Inactive,
        data_al: Signal::Inactive,
        data_xl: Signal::Inactive,
        data_yl: Signal::Active,
        data_zl: Signal::Inactive,
        mem_data: Signal::Inactive,
        data_mem: Signal::Inactive,
        ip_data: Signal::Inactive,
        sp_data: Signal::Inactive,
        clr_sc: Signal::Inactive,
        set_cin: Signal::Inactive,
        sum_data: Signal::Inactive,
        nand_data: Signal::Inactive,
    }
}

pub(crate) fn cw_sp_al() -> (c: ControlWord)
    ensures
        c == spec_sp_al(),
{
    ControlWord {
        data_ip: Signal::Inactive,
        data_sp: Signal::Inactive,
        data_cf: Signal::Inactive,
        data_il: Signal::Inactive,
        data_al: Signal::Active,
        data_xl: Signal::Inactive,
        data_yl: Signal::Inactive,
        data_zl: Signal::Inactive,
        mem_data: Signal::Inactive,
        data_mem: Signal::Inactive,
        ip_data: Signal::Inactive,
        sp_data: Signal::Active,
        clr_sc: Signal::Inactive,
        set_cin: Signal::Inactive,
        sum_data: Signal::Inactive,
        nand_data: Signal::Inactive,
    }
}

pub(crate) fn cw_sp_alxl() -> (c: ControlWord)
    ensures
        c == spec_sp_alxl(),
{
    ControlWord {
        data_ip: Signal::Inactive,
        data_sp: Signal::Inactive,
        data_cf: Signal::Inactive,
        data_il: Signal::Inactive,
        data_al: Signal::Active,
        data_xl: Signal::Active,
        data_yl: Signal::Inactive,
        data_zl: Signal::Inactive,
        mem_data: Signal::Inactive,
        data_mem: Signal::Inactive,
        ip_data: Signal::Inactive,
        sp_data: Signal::Active,
        clr_sc: Signal::Inactive,
        set_cin: Signal::Inactive,
        sum_data: Signal::Inactive,
        nand_data: Signal::Inactive,
    }
}

pub(crate) fn cw_sum_al() -> (c: ControlWord)
    ensures
        c == spec_sum_al(),
{
    ControlWord {
        data_ip: Signal::Inactive,
        data_sp: Signal::Inactive,
        data_cf: Signal::Inactive,
        data_il: Signal::Inactive,
        data_al: Signal::Active,
        data_xl: Signal::Inactive,
        data_yl: Signal::Inactive,
        data_zl: Signal::Inactive,
        mem_data: Signal::Inactive,
        data_mem: Signal::Inactive,
        ip_data: Signal::Inactive,
        sp_data: Signal::Inactive,
        clr_sc: Signal::Inactive,
        set_cin: Signal::Inactive,
        sum_data: Signal::Active,
        nand_data: Signal::Inactive,
    }
}

pub(crate) fn cw_nand_xl() -> (c: ControlWord)
    ensures
        c == spec_nand_xl(),
{
    ControlWord {
        data_ip: Signal::Inactive,
        data_sp: Signal::Inactive,
        data_cf: Signal::Inactive,
        data_il: Signal::Inactive,
        data_al: Signal::Inactive,
        data_xl: Signal::Active,
        data_yl: Signal::Inactive,
        data_zl: Signal::Inactive,
        mem_data: Signal::Inactive,
        data_mem: Signal::Inactive,
        ip_data: Signal::Inactive,
        sp_data: Signal::Inactive,
        clr_sc: Signal::Inactive,
        set_cin: Signal::Inactive,
        sum_data: Signal::Inactive,
        nand_data: Signal::Active,
    }
}

pub(crate) fn cw_mem_ylzl() -> (c: ControlWord)
    ensures
        c == spec_mem_ylzl(),
{
    ControlWord {
        data_ip: Signal::Inactive,
        data_sp: Signal::Inactive,
        data_cf: Signal::Inactive,
        data_il: Signal::Inactive,
        data_al: Signal::Inactive,
        data_xl: Signal::Inactive,
        data_yl: Signal::Active,
        data_zl: Signal::Active,
        mem_data: Signal::Active,
        data_mem: Signal::Inactive,
        ip_data: Signal::Inactive,
        sp_data: Signal::Inactive,
        clr_sc: Signal::Inactive,
        set_cin: Signal::Inactive,
        sum_data: Signal::Inactive,
        nand_data: Signal::Inactive,
    }
}

pub(crate) fn cw_nand_zl() -> (c: ControlWord)
    ensures
        c == spec_nand_zl(),
{
    ControlWord {
        data_ip: Signal::Inactive,
        data_sp: Signal::Inactive,
        data_cf: Signal::Inactive,
        data_il: Signal::Inactive,
        data_al: Signal::Inactive,
        data_xl: Signal::Inactive,
        data_yl: Signal::Inactive,
        data_zl: Signal::Active,
        mem_data: Signal::Inactive,
        data_mem: Signal::Inactive,
        ip_data: Signal::Inactive,
        sp_data: Signal::Inactive,
        clr_sc: Signal::Inactive,
        set_cin: Signal::Inactive,
        sum_data: Signal::Inactive,
        nand_data: Signal::Active,
    }
}

pub(crate) fn cw_cinsum_yl() -> (c: ControlWord)
    ensures
        c == spec_cinsum_yl(),
{
    ControlWord {
        data_ip: Signal::Inactive,
        data_sp: Signal::Inactive,
        data_cf: Signal::Inactive,
        data_il: Signal::Inactive,
        data_al: Signal::Inactive,
        data_xl: Signal::Inactive,
        data_yl: Signal::Active,
        data_zl: Signal::Inactive,
        mem_data: Signal::Inactive,
        data_mem: Signal::Inactive,
        ip_data: Signal::Inactive,
        sp_data: Signal::Inactive,
        clr_sc: Signal::Inactive,
        set_cin: Signal::Active,
        sum_data: Signal::Active,
        nand_data: Signal::Inactive,
    }
}

pub(crate) fn cw_cinsum_mem() -> (c: ControlWord)
    ensures
        c == spec_cinsum_mem(),
{
    ControlWord {
        data_ip: Signal::Inactive,
        data_sp: Signal::Inactive,
        data_cf: Signal::Inactive,
        data_il: Signal::Inactive,
        data_al: Signal::Inactive,
        data_xl: Signal::Inactive,
        data_yl: Signal::Inactive,
        data_zl: Signal::Inactive,
        mem_data: Signal::Inactive,
        data_mem: Signal::Active,
        ip_data: Signal::Inactive,
        sp_data: Signal::Inactive,
        clr_sc: Signal::Inactive,
        set_cin: Signal::Active,
        sum_data: Signal::Active,
        nand_data: Signal::Inactive,
    }
}

pub(crate) fn cw_set_ylzl() -> (c: ControlWord)
    ensures
        c == spec_set_ylzl(),
{
    ControlWord {
        data_ip: Signal::Inactive,
        data_sp: Signal::Inactive,
        data_cf: Signal::Inactive,
        data_il: Signal::Inactive,
        data_al: Signal::Inactive,
        data_xl: Signal::Inactive,
        data_yl: Signal::Active,
        data_zl: Signal::Active,
        mem_data: Signal::Inactive,
        data_mem: Signal::Inactive,
        ip_data: Signal::Inactive,
        sp_data: Signal::Inactive,
        clr_sc: Signal::Inactive,
        set_cin: Signal::Inactive,
        sum_data: Signal::Inactive,
        nand_data: Signal::Inactive,
    }
}

pub(crate) fn cw_sp_xlzl() -> (c: ControlWord)
    ensures
        c == spec_sp_xlzl(),
{
    ControlWord {
        data_ip: Signal::Inactive,
        data_sp: Signal::Inactive,
        data_cf: Signal::Inactive,
        data_il: Signal::Inactive,
        data_al: Signal::Inactive,
        data_xl: Signal::Active,
        data_yl: Signal::Inactive,
        data_zl: Signal::Active,
        mem_data: Signal::Inactive,
        data_mem: Signal::Inactive,
        ip_data: Signal::Inactive,
        sp_data: Signal::Active,
        clr_sc: Signal::Inactive,
        set_cin: Signal::Inactive,
        sum_data: Signal::Inactive,
        nand_data: Signal::Inactive,
    }
}

pub(crate) fn cw_set_zl() -> (c: ControlWord)
    ensures
        c == spec_set_zl(),
{
    ControlWord {
        data_ip: Signal::Inactive,
        data_sp: Signal::Inactive,
        data_cf: Signal::Inactive,
        data_il: Signal::Inactive,
        data_al: Signal::Inactive,
        data_xl: Signal::Inactive,
        data_yl: Signal::Inactive,
        data_zl: Signal::Active,
        mem_data: Signal::Inactive,
        data_mem: Signal::Inactive,
        ip_data: Signal::Inactive,
        sp_data: Signal::Inactive,
        clr_sc: Signal::Inactive,
        set_cin: Signal::Inactive,
        sum_data: Signal::Inactive,
        nand_data: Signal::Inactive,
    }
}

pub(crate) fn cw_nand_yl() -> (c: ControlWord)
    ensures
        c == spec_nand_yl(),
{
    ControlWord {
        data_ip: Signal::Inactive,
        data_sp: Signal::Inactive,
        data_cf: Signal::Inactive,
        data_il: Signal::Inactive,
        data_al: Signal::Inactive,
        data_xl: Signal::Inactive,
        data_yl: Signal::Active,
        data_zl: Signal::Inactive,
        mem_data: Signal::Inactive,
        data_mem: Signal::Inactive,
        ip_data: Signal::Inactive,
        sp_data: Signal::Inactive,
        clr_sc: Signal::Inactive,
        set_cin: Signal::Inactive,
        sum_data: Signal::Inactive,
        nand_data: Signal::Active,
    }
}

pub(crate) fn cw_mem_ip() -> (c: ControlWord)
    ensures
        c == spec_mem_ip(),
{
    ControlWord {
        data_ip: Signal::Active,
        data_sp: Signal::Inactive,
        data_cf: Signal::Inactive,
        data_il: Signal::Inactive,
        data_al: Signal::Inactive,
        data_xl: Signal::Inactive,
        data_yl: Signal::Inactive,
        data_zl: Signal::Inactive,
        mem_data: Signal::Active,
        data_mem: Signal::Inactive,
        ip_data: Signal::Inactive,
        sp_data: Signal::Inactive,
        clr_sc: Signal::Inactive,
        set_cin: Signal::Inactive,
        sum_data: Signal::Inactive,
        nand_data: Signal::Inactive,
    }
}

pub(crate) fn cw_cinsum_sp() -> (c: ControlWord)
    ensures
        c == spec_cinsum_sp(),
{
    ControlWord {
        data_ip: Signal::Inactive,
        data_sp: Signal::Active,
        data_cf: Signal::Inactive,
        data_il: Signal::Inactive,
        data_al: Signal::Inactive,
        data_xl: Signal::Inactive,
        data_yl: Signal::Inactive,
        data_zl: Signal::Inactive,
        mem_data: Signal::Inactive,
        data_mem: Signal::Inactive,
        ip_data: Signal::Inactive,
        sp_data: Signal::Inactive,
        clr_sc: Signal::Inactive,
        set_cin: Signal::Active,
        sum_data: Signal::Active,
        nand_data: Signal::Inactive,
    }
}

pub(crate) fn cw_nand_memcf() -> (c: ControlWord)
    ensures
        c == spec_nand_memcf(),
{
    ControlWord {
        data_ip: Signal::Inactive,
        data_sp: Signal::Inactive,
        data_cf: Signal::Active,
        data_il: Signal::Inactive,
        data_al: Signal::Inactive,
        data_xl: Signal::Inactive,
        data_yl: Signal::Inactive,
        data_zl: Signal::Inactive,
        mem_data: Signal::Inactive,
        data_mem: Signal::Active,
        ip_data: Signal::Inactive,
        sp_data: Signal::Inactive,
        clr_sc: Signal::Inactive,
        set_cin: Signal::Inactive,
        sum_data: Signal::Inactive,
        nand_data: Signal::Active,
    }
}

pub(crate) fn cw_mem_sp() -> (c: ControlWord)
    ensures
        c == spec_mem_sp(),
{
    ControlWord {
        data_ip: Signal::Inactive,
        data_sp: Signal::Active,
        data_cf: Signal::Inactive,
        data_il: Signal::Inactive,
        data_al: Signal::Inactive,
        data_xl: Signal::Inactive,
        data_yl: Signal::Inactive,
        data_zl: Signal::Inactive,
        mem_data: Signal::Active,
        data_mem: Signal::Inactive,
        ip_data: Signal::Inactive,
        sp_data: Signal::Inactive,
        clr_sc: Signal::Inactive,
        set_cin: Signal::Inactive,
        sum_data: Signal::Inactive,
        nand_data: Signal::Inactive,
    }
}

pub(crate) fn cw_nand_ylcf() -> (c: ControlWord)
    ensures
        c == spec_nand_ylcf(),
{
    ControlWord {
        data_ip: Signal::Inactive,
        data_sp: Signal::Inactive,
        data_cf: Signal::Active,
        data_il: Signal::Inactive,
        data_al: Signal::Inactive,
        data_xl: Signal::Inactive,
        data_yl: Signal::Active,
        data_zl: Signal::Inactive,
        mem_data: Signal::Inactive,
        data_mem: Signal::Inactive,
        ip_data: Signal::Inactive,
        sp_data: Signal::Inactive,
        clr_sc: Signal::Inactive,
        set_cin: Signal::Inactive,
        sum_data: Signal::Inactive,
        nand_data: Signal::Active,
    }
}

pub(crate) fn cw_mem_xlyl() -> (c: ControlWord)
    ensures
        c == spec_mem_xlyl(),
{
    ControlWord {
        data_ip: Signal::Inactive,
        data_sp: Signal::Inactive,
        data_cf: Signal::Inactive,
        data_il: Signal::Inactive,
        data_al: Signal::Inactive,
        data_xl: Signal::Active,
        data_yl: Signal::Active,
        data_zl: Signal::Inactive,
        mem_data: Signal::Active,
        data_mem: Signal::Inactive,
        ip_data: Signal::Inactive,
        sp_data: Signal::Inactive,
        clr_sc: Signal::Inactive,
        set_cin: Signal::Inactive,
        sum_data: Signal::Inactive,
        nand_data: Signal::Inactive,
    }
}

pub(crate) fn cw_nand_al() -> (c: ControlWord)
    ensures
        c == spec_nand_al(),
{
    ControlWord {
        data_ip: Signal::Inactive,
        data_sp: Signal::Inactive,
        data_cf: Signal::Inactive,
        data_il: Signal::Inactive,
        data_al: Signal::Active,
        data_xl: Signal::Inactive,
        data_yl: Signal::Inactive,
        data_zl: Signal::Inactive,
        mem_data: Signal::Inactive,
        data_mem: Signal::Inactive,
        ip_data: Signal::Inactive,
        sp_data: Signal::Inactive,
        clr_sc: Signal::Inactive,
        set_cin: Signal::Inactive,
        sum_data: Signal::Inactive,
        nand_data: Signal::Active,
    }
}

pub(crate) fn cw_cinsum_spxl() -> (c: ControlWord)
    ensures
        c == spec_cinsum_spxl(),
{
    ControlWord {
        data_ip: Signal::Inactive,
        data_sp: Signal::Active,
        data_cf: Signal::Inactive,
        data_il: Signal::Inactive,
        data_al: Signal::Active,
        data_xl: Signal::Active,
        data_yl: Signal::Inactive,
        data_zl: Signal::Inactive,
        mem_data: Signal::Inactive,
        data_mem: Signal::Inactive,
        ip_data: Signal::Inactive,
        sp_data: Signal::Inactive,
        clr_sc: Signal::Inactive,
        set_cin: Signal::Active,
        sum_data: Signal::Active,
        nand_data: Signal::Inactive,
    }
}

pub(crate) fn cw_cinsum_alxl() -> (c: ControlWord)
    ensures
        c == spec_cinsum_alxl(),
{
    ControlWord {
        data_ip: Signal::Inactive,
        data_sp: Signal::Inactive,
        data_cf: Signal::Inactive,
        data_il: Signal::Inactive,
        data_al: Signal::Active,
        data_xl: Signal::Active,
        data_yl: Signal::Inactive,
        data_zl: Signal::Inactive,
        mem_data: Signal::Inactive,
        data_mem: Signal::Inactive,
        ip_data: Signal::Inactive,
        sp_data: Signal::Inactive,
        clr_sc: Signal::Inactive,
        set_cin: Signal::Active,
        sum_data: Signal::Active,
        nand_data: Signal::Inactive,
    }
}

pub(crate) fn cw_nand_zlcf() -> (c: ControlWord)
    ensures
        c == spec_nand_zlcf(),
{
    ControlWord {
        data_ip: Signal::Inactive,
        data_sp: Signal::Inactive,
        data_cf: Signal::Active,
        data_il: Signal::Inactive,
        data_al: Signal::Inactive,
        data_xl: Signal::Inactive,
        data_yl: Signal::Inactive,
        data_zl: Signal::Active,
        mem_data: Signal::Inactive,
        data_mem: Signal::Inactive,
        ip_data: Signal::Inactive,
        sp_data: Signal::Inactive,
        clr_sc: Signal::Inactive,
        set_cin: Signal::Inactive,
        sum_data: Signal::Inactive,
        nand_data: Signal::Active,
    }
}

pub(crate) fn cw_cinsum_xlcf() -> (c: ControlWord)
    ensures
        c == spec_cinsum_xlcf(),
{
    ControlWord {
        data_ip: Signal::Inactive,
        data_sp: Signal::Inactive,
        data_cf: Signal::Active,
        data_il: Signal::Inactive,
        data_al: Signal::Inactive,
        data_xl: Signal::Active,
        data_yl: Signal::Inactive,
        data_zl: Signal::Inactive,
        mem_data: Signal::Inactive,
        data_mem: Signal::Inactive,
        ip_data: Signal::Inactive,
        sp_data: Signal::Inactive,
        clr_sc: Signal::Inactive,
        set_cin: Signal::Active,
        sum_data: Signal::Active,
        nand_data: Signal::Inactive,
    }
}

pub(crate) fn cw_sum_xlcf() -> (c: ControlWord)
    ensures
        c == spec_sum_xlcf(),
{
    ControlWord {
        data_ip: Signal::Inactive,
        data_sp: Signal::Inactive,
        data_cf: Signal::Active,
        data_il: Signal::Inactive,
        data_al: Signal::Inactive,
        data_xl: Signal::Active,
        data_yl: Signal::Inactive,
        data_zl: Signal::Inactive,
        mem_data: Signal::Inactive,
        data_mem: Signal::Inactive,
        ip_data: Signal::Inactive,
        sp_data: Signal::Inactive,
        clr_sc: Signal::Inactive,
        set_cin: Signal::Inactive,
        sum_data: Signal::Active,
        nand_data: Signal::Inactive,
    }
}

pub(crate) fn cw_cinsum_xlylcf() -> (c: ControlWord)
    ensures
        c == spec_cinsum_xlylcf(),
{
    ControlWord {
        data_ip: Signal::Inactive,
        data_sp: Signal::Inactive,
        data_cf: Signal::Active,
        data_il: Signal::Inactive,
        data_al: Signal::Inactive,
        data_xl: Signal::Active,
        data_yl: Signal::Active,
        data_zl: Signal::Inactive,
        mem_data: Signal::Inactive,
        data_mem: Signal::Inactive,
        ip_data: Signal::Inactive,
        sp_data: Signal::Inactive,
        clr_sc: Signal::Inactive,
        set_cin: Signal::Active,
        sum_data: Signal::Active,
        nand_data: Signal::Inactive,
    }
}

pub(crate) fn cw_sum_xlylcf() -> (c: ControlWord)
    ensures
        c == spec_sum_xlylcf(),
{
    ControlWord {
        data_ip: Signal::Inactive,
        data_sp: Signal::Inactive,
        data_cf: Signal::Active,
        data_il: Signal::Inactive,
        data_al: Signal::Inactive,
        data_xl: Signal::Active,
        data_yl: Signal::Active,
        data_zl: Signal::Inactive,
        mem_data: Signal::Inactive,
        data_mem: Signal::Inactive,
        ip_data: Signal::Inactive,
        sp_data: Signal::Inactive,
        clr_sc: Signal::Inactive,
        set_cin: Signal::Inactive,
        sum_data: Signal::Active,
        nand_data: Signal::Inactive,
    }
}

pub(crate) fn cw_mem_yl() -> (c: ControlWord)
    ensures
        c == spec_mem_yl(),
{
    ControlWord {
        data_ip: Signal::Inactive,
        data_sp: Signal::Inactive,
        data_cf: Signal::Inactive,
        data_il: Signal::Inactive,
        data_al: Signal::Inactive,
        data_xl: Signal::Inactive,
        data_yl: Signal::Active,
        data_zl: Signal::Inactive,
        mem_data: Signal::Active,
        data_mem: Signal::Inactive,
        ip_data: Signal::Inactive,
        sp_data: Signal::Inactive,
        clr_sc: Signal::Inactive,
        set_cin: Signal::Inactive,
        sum_data: Signal::Inactive,
        nand_data: Signal::Inactive,
    }
}

pub(crate) fn cw_cinsum_xl() -> (c: ControlWord)
    ensures
        c == spec_cinsum_xl(),
{
    ControlWord {
        data_ip: Signal::Inactive,
        data_sp: Signal::Inactive,
        data_cf: Signal::Inactive,
        data_il: Signal::Inactive,
        data_al: Signal::Inactive,
        data_xl: Signal::Active,
        data_yl: Signal::Inactive,
        data_zl: Signal::Inactive,
        mem_data: Signal::Inactive,
        data_mem: Signal::Inactive,
        ip_data: Signal::Inactive,
        sp_data: Signal::Inactive,
        clr_sc: Signal::Inactive,
        set_cin: Signal::Active,
        sum_data: Signal::Active,
        nand_data: Signal::Inactive,
    }
}

pub(crate) fn cw_sum_xl() -> (c: ControlWord)
    ensures
        c == spec_sum_xl(),
{
    ControlWord {
        data_ip: Signal::Inactive,
        data_sp: Signal::Inactive,
        data_cf: Signal::Inactive,
        data_il: Signal::Inactive,
        data_al: Signal::Inactive,
        data_xl: Signal::Active,
        data_yl: Signal::Inactive,
        data_zl: Signal::Inactive,
        mem_data: Signal::Inactive,
        data_mem: Signal::Inactive,
        ip_data: Signal::Inactive,
        sp_data: Signal::Inactive,
        clr_sc: Signal::Inactive,
        set_cin: Signal::Inactive,
        sum_data: Signal::Active,
        nand_data: Signal::Inactive,
    }
}

pub(crate) fn cw_nand_memyl() -> (c: ControlWord)
    ensures
        c == spec_nand_memyl(),
{
    ControlWord {
        data_ip: Signal::Inactive,
        data_sp: Signal::Inactive,
        data_cf: Signal::Inactive,
        data_il: Signal::Inactive,
        data_al: Signal::Inactive,
        data_xl: Signal::Inactive,
        data_yl: Signal::Active,
        data_zl: Signal::Inactive,
        mem_data: Signal::Inactive,
        data_mem: Signal::Active,
        ip_data: Signal::Inactive,
        sp_data: Signal::Inactive,
        clr_sc: Signal::Inactive,
        set_cin: Signal::Inactive,
        sum_data: Signal::Inactive,
        nand_data: Signal::Active,
    }
}

pub(crate) fn cw_set_xlylzl() -> (c: ControlWord)
    ensures
        c == spec_set_xlylzl(),
{
    ControlWord {
        data_ip: Signal::Inactive,
        data_sp: Signal::Inactive,
        data_cf: Signal::Inactive,
        data_il: Signal::Inactive,
        data_al: Signal::Inactive,
        data_xl: Signal::Active,
        data_yl: Signal::Active,
        data_zl: Signal::Active,
        mem_data: Signal::Inactive,
        data_mem: Signal::Inactive,
        ip_data: Signal::Inactive,
        sp_data: Signal::Inactive,
        clr_sc: Signal::Inactive,
        set_cin: Signal::Inactive,
        sum_data: Signal::Inactive,
        nand_data: Signal::Inactive,
    }
}

pub(crate) fn cw_ip_mem() -> (c: ControlWord)
    ensures
        c == spec_ip_mem(),
{
    ControlWord {
        data_ip: Signal::Inactive,
        data_sp: Signal::Inactive,
        data_cf: Signal::Inactive,
        data_il: Signal::Inactive,
        data_al: Signal::Inactive,
        data_xl: Signal::Inactive,
        data_yl: Signal::Inactive,
        data_zl: Signal::Inactive,
        mem_data: Signal::Inactive,
        data_mem: Signal::Active,
        ip_data: Signal::Active,
        sp_data: Signal::Inactive,
        clr_sc: Signal::Inactive,
        set_cin: Signal::Inactive,
        sum_data: Signal::Inactive,
        nand_data: Signal::Inactive,
    }
}

pub(crate) fn cw_clr_sc() -> (c: ControlWord)
    ensures
        c == spec_clr_sc(),
{
    ControlWord {
        data_ip: Signal::Inactive,
        data_sp: Signal::Inactive,
        data_cf: Signal::Inactive,
        data_il: Signal::Inactive,
        data_al: Signal::Inactive,
        data_xl: Signal::Inactive,
        data_yl: Signal::Inactive,
        data_zl: Signal::Inactive,
        mem_data: Signal::Inactive,
        data_mem: Signal::Inactive,
        ip_data: Signal::Inactive,
        sp_data: Signal::Inactive,
        clr_sc: Signal::Active,
        set_cin: Signal::Inactive,
        sum_data: Signal::Inactive,
        nand_data: Signal::Inactive,
    }
}

pub(crate) fn cw_nand_xlylcf() -> (c: ControlWord)
    ensures
        c == spec_nand_xlylcf(),
{
    ControlWord {
        data_ip: Signal::Inactive,
        data_sp: Signal::Inactive,
        data_cf: Signal::Active,
        data_il: Signal::Inactive,
        data_al: Signal::Inactive,
        data_xl: Signal::Active,
        data_yl: Signal::Active,
        data_zl: Signal::Inactive,
        mem_data: Signal::Inactive,
        data_mem: Signal::Inactive,
        ip_data: Signal::Inactive,
        sp_data: Signal::Inactive,
        clr_sc: Signal::Inactive,
        set_cin: Signal::Inactive,
        sum_data: Signal::Inactive,
        nand_data: Signal::Active,
    }
}

pub(crate) fn cw_nand_xlylzl() -> (c: ControlWord)
    ensures
        c == spec_nand_xlylzl(),
{
    ControlWord {
        data_ip: Signal::Inactive,
        data_sp: Signal::Inactive,
        data_cf: Signal::Inactive,
        data_il: Signal::Inactive,
        data_al: Signal::Inactive,
        data_xl: Signal::Active,
        data_yl: Signal::Active,
        data_zl: Signal::Active,
        mem_data: Signal::Inactive,
        data_mem: Signal::Inactive,
        ip_data: Signal::Inactive,
        sp_data: Signal::Inactive,
        clr_sc: Signal::Inactive,
        set_cin: Signal::Inactive,
        sum_data: Signal::Inactive,
        nand_data: Signal::Active,
    }
}

pub(crate) fn cw_noop() -> (c: ControlWord)
    ensures
        c == spec_noop(),
{
    ControlWord {
        data_ip: Signal::Inactive,
        data_sp: Signal::Inactive,
        data_cf: Signal::Inactive,
        data_il: Signal::Inactive,
        data_al: Signal::Inactive,
        data_xl: Signal::Inactive,
        data_yl: Signal::Inactive,
        data_zl: Signal::Inactive,
        mem_data: Signal::Inactive,
        data_mem: Signal::Inactive,
        ip_data: Signal::Inactive,
        sp_data: Signal::Inactive,
        clr_sc: Signal::Inactive,
        set_cin: Signal::Inactive,
        sum_data: Signal::Inactive,
        nand_data: Signal::Inactive,
    }
}

pub open spec fn spec_fetch_steps() -> Seq<Step> {
    seq![Ok(spec_ip_alxl())] + seq![Ok(spec_cinsum_ip())] + seq![Ok(spec_mem_ilzl())]
}

pub open spec fn spec_clr_yl_steps() -> Seq<Step> {
    seq![Ok(spec_set_ylzl())] + seq![Ok(spec_nand_yl())]
}

pub open spec fn spec_set_cf_steps() -> Seq<Step> {
    seq![Ok(spec_set_xlylzl())] + seq![Ok(spec_set_xlylzl())] + seq![Ok(spec_nand_xlylcf())]
}

pub open spec fn spec_clr_cf_steps() -> Seq<Step> {
    seq![Ok(spec_set_xlylzl())] + seq![Ok(spec_nand_xlylzl())] + seq![Ok(spec_nand_zlcf())]
}

/// The steps of `add`.
pub open spec fn spec_add_steps(carry: bool, size: u8) -> Seq<Step> {
    spec_fetch_steps() + seq![Ok(spec_sp_alxl())] + seq![Ok(spec_cinsum_sp())] + seq![Ok(spec_mem_zl())] + Seq::new(size as nat, |_i: int| Ok::<ControlWord, TickTrap>(spec_cinsum_alxl())) + seq![Ok(spec_set_yl())] + seq![Ok(spec_nand_zl())] + seq![Ok(spec_nand_yl())] + seq![Ok(spec_mem_xl())] + (if carry { seq![Ok(spec_cinsum_xlcf())] } else { seq![Ok(spec_sum_xlcf())] }) + seq![Ok(spec_set_ylzl())] + seq![Ok(spec_cinsum_mem())] + seq![Ok(spec_nand_yl())]
}

/// The steps of `sub`.
pub open spec fn spec_sub_steps(carry: bool, size: u8) -> Seq<Step> {
    spec_fetch_steps() + seq![Ok(spec_sp_alxl())] + seq![Ok(spec_cinsum_sp())] + seq![Ok(spec_mem_zl())] + Seq::new(size as nat, |_i: int| Ok::<ControlWord, TickTrap>(spec_cinsum_alxl())) + seq![Ok(spec_set_yl())] + seq![Ok(spec_nand_yl())] + seq![Ok(spec_mem_xl())] + (if carry { seq![Ok(spec_sum_xlcf())] } else { seq![Ok(spec_cinsum_xlcf())] }) + seq![Ok(spec_set_ylzl())] + seq![Ok(spec_cinsum_mem())] + (if carry { seq![Ok(spec_nand_ylzl())] + seq![Ok(spec_nand_zlcf())] } else { seq![Ok(spec_noop())] + seq![Ok(spec_nand_ylcf())] })
}

/// The steps of `iff`.
pub open spec fn spec_iff_steps(carry: bool, size: u8) -> Seq<Step> {
    spec_fetch_steps() + seq![Ok(spec_sp_alxl())] + seq![Ok(spec_cinsum_sp())] + seq![Ok(spec_mem_zl())] + Seq::new(size as nat, |_i: int| Ok::<ControlWord, TickTrap>(spec_cinsum_alxl())) + seq![Ok(spec_mem_xl())] + seq![Ok(spec_set_yl())] + (if carry { seq![Ok(spec_nand_zl())] + seq![Ok(spec_nand_xl())] } else { seq![Ok(spec_noop())] + seq![Ok(spec_noop())] }) + seq![Ok(spec_cinsum_mem())] + spec_clr_yl_steps()
}

/// The steps of `swp`.
pub open spec fn spec_swp_steps(carry: bool, size: u8) -> Seq<Step> {
    spec_fetch_steps() + seq![Ok(spec_sp_alxl())] + seq![Ok(spec_mem_zl())] + Seq::new(size as nat, |_i: int| Ok::<ControlWord, TickTrap>(spec_cinsum_alxl())) + seq![Ok(spec_mem_xl())] + seq![Ok(spec_set_yl())] + seq![Ok(spec_nand_zl())] + seq![Ok(spec_nand_mem())] + seq![Ok(spec_sp_al())] + seq![Ok(spec_cinsum_mem())] + spec_clr_yl_steps()
}

/// The steps of `rot`.
pub open spec fn spec_rot_steps(carry: bool, size: u8) -> Seq<Step> {
    (if carry { spec_clr_yl_steps() + seq![Ok(spec_noop())] } else { spec_fetch_steps() }) + seq![Ok(spec_sp_alxl())] + seq![Ok(spec_mem_zl())] + Seq::new(size as nat, |_i: int| Ok::<ControlWord, TickTrap>(spec_cinsum_alxl())) + seq![Ok(spec_mem_xlyl())] + seq![Ok(spec_cinsum_xlcf())] + seq![Ok(spec_set_yl())] + (if carry { seq![Ok(spec_cinsum_xl())] } else { seq![Ok(spec_sum_xl())] }) + seq![Ok(spec_nand_zl())] + seq![Ok(spec_nand_zlcf())] + (if carry { spec_clr_yl_steps() + seq![Ok(spec_sp_alxl())] + seq![Ok(spec_cinsum_sp())] + spec_clr_cf_steps() } else { seq![Ok(spec_cinsum_mem())] + seq![Ok(spec_sp_al())] + seq![Ok(spec_mem_xl())] + seq![Ok(spec_sum_mem())] + spec_set_cf_steps() })
}

/// The steps of `orr`.
pub open spec fn spec_orr_steps(carry: bool, size: u8) -> Seq<Step> {
    spec_fetch_steps() + seq![Ok(spec_sp_alxl())] + seq![Ok(spec_cinsum_sp())] + seq![Ok(spec_mem_zl())] + Seq::new(size as nat, |_i: int| Ok::<ControlWord, TickTrap>(spec_cinsum_alxl())) + seq![Ok(spec_set_yl())] + seq![Ok(spec_nand_xl())] + seq![Ok(spec_mem_zl())] + seq![Ok(spec_nand_zl())] + seq![Ok(spec_cinsum_yl())] + seq![Ok(spec_nand_memcf())] + spec_clr_yl_steps()
}

/// The steps of `and`.
pub open spec fn spec_and_steps(carry: bool, size: u8) -> Seq<Step> {
    spec_fetch_steps() + seq![Ok(spec_sp_alxl())] + seq![Ok(spec_cinsum_sp())] + seq![Ok(spec_mem_zl())] + Seq::new(size as nat, |_i: int| Ok::<ControlWord, TickTrap>(spec_cinsum_alxl())) + seq![Ok(spec_mem_yl())] + seq![Ok(spec_nand_ylzl())] + seq![Ok(spec_nand_memcf())] + spec_clr_yl_steps()
}

/// The steps of `xor`.
pub open spec fn spec_xor_steps(carry: bool, size: u8) -> Seq<Step> {
    spec_fetch_steps() + seq![Ok(spec_sp_alxl())] + seq![Ok(spec_cinsum_sp())] + seq![Ok(spec_mem_zl())] + Seq::new(size as nat, |_i: int| Ok::<ControlWord, TickTrap>(spec_cinsum_alxl())) + seq![Ok(spec_set_yl())] + seq![Ok(spec_nand_zl())] + seq![Ok(spec_nand_xl())] + seq![Ok(spec_mem_zl())] + seq![Ok(spec_nand_zl())] + seq![Ok(spec_cinsum_yl())] + seq![Ok(spec_nand_xl())] + seq![Ok(spec_set_zl())] + seq![Ok(spec_nand_yl())] + seq![Ok(spec_mem_zl())] + seq![Ok(spec_nand_zl())] + seq![Ok(spec_set_yl())] + seq![Ok(spec_cinsum_yl())] + seq![Ok(spec_nand_memcf())] + spec_clr_yl_steps()
}

/// The steps of `xnd`.
pub open spec fn spec_xnd_steps(carry: bool, size: u8) -> Seq<Step> {
    spec_fetch_steps() + seq![Ok(spec_sp_alxl())] + seq![Ok(spec_cinsum_sp())] + Seq::new(size as nat, |_i: int| Ok::<ControlWord, TickTrap>(spec_cinsum_alxl())) + seq![Ok(spec_set_xlylzl())] + seq![Ok(spec_sum_xlcf())] + seq![Ok(spec_nand_memyl())]
}

/// The steps of `inc`.
pub open spec fn spec_inc_steps(carry: bool) -> Seq<Step> {
    spec_fetch_steps() + seq![Ok(spec_sp_al())] + seq![Ok(spec_mem_xl())] + seq![Ok(spec_cinsum_mem())]
}

/// The steps of `dec`.
pub open spec fn spec_dec_steps(carry: bool) -> Seq<Step> {
    spec_fetch_steps() + seq![Ok(spec_sp_al())] + seq![Ok(spec_mem_xl())] + seq![Ok(spec_set_ylzl())] + seq![Ok(spec_sum_mem())] + seq![Ok(spec_nand_yl())]
}

/// The steps of `neg`.
pub open spec fn spec_neg_steps(carry: bool) -> Seq<Step> {
    spec_fetch_steps() + seq![Ok(spec_set_ylzl())] + seq![Ok(spec_nand_xl())] + seq![Ok(spec_sp_al())] + seq![Ok(spec_mem_ylzl())] + seq![Ok(spec_nand_ylzl())] + seq![Ok(spec_cinsum_mem())] + spec_clr_yl_steps()
}

/// The steps of `shl`.
pub open spec fn spec_shl_steps(carry: bool) -> Seq<Step> {
    spec_fetch_steps() + seq![Ok(spec_sp_al())] + seq![Ok(spec_mem_xlyl())] + (if carry { seq![Ok(spec_cinsum_xlcf())] } else { seq![Ok(spec_sum_xlcf())] }) + seq![Ok(spec_set_ylzl())] + seq![Ok(spec_cinsum_mem())] + seq![Ok(spec_nand_yl())]
}

/// The steps of `shr`.
pub open spec fn spec_shr_steps(carry: bool) -> Seq<Step> {
    spec_fetch_steps() + seq![Ok(spec_sp_al())] + seq![Ok(spec_mem_xlyl())] + (if carry { Seq::new(8, |_i: int| Ok::<ControlWord, TickTrap>(spec_cinsum_xlylcf())) } else { Seq::new(8, |_i: int| Ok::<ControlWord, TickTrap>(spec_sum_xlylcf())) }) + seq![Ok(spec_set_ylzl())] + seq![Ok(spec_cinsum_mem())] + seq![Ok(spec_nand_yl())]
}

/// The steps of `not`.
pub open spec fn spec_not_steps(carry: bool) -> Seq<Step> {
    spec_fetch_steps() + seq![Ok(spec_sp_al())] + seq![Ok(spec_mem_ylzl())] + seq![Ok(spec_nand_memcf())] + spec_clr_yl_steps()
}

/// The steps of `buf`.
pub open spec fn spec_buf_steps(carry: bool) -> Seq<Step> {
    spec_fetch_steps() + seq![Ok(spec_sp_al())] + seq![Ok(spec_mem_ylzl())] + seq![Ok(spec_nand_ylzl())] + seq![Ok(spec_nand_memcf())] + spec_clr_yl_steps()
}

/// The steps of `dbg`.
pub open spec fn spec_dbg_steps(carry: bool) -> Seq<Step> {
    spec_fetch_steps() + seq![Err::<ControlWord, TickTrap>(TickTrap::DebugRequest)]
}

/// The steps of `ldo`.
pub open spec fn spec_ldo_steps(carry: bool, ofst: u8) -> Seq<Step> {
    spec_fetch_steps() + seq![Ok(spec_sp_alxl())] + Seq::new(ofst as nat, |_i: int| Ok::<ControlWord, TickTrap>(spec_cinsum_alxl())) + seq![Ok(spec_mem_zl())] + seq![Ok(spec_sp_xl())] + seq![Ok(spec_set_yl())] + seq![Ok(spec_sum_spal())] + seq![Ok(spec_nand_zl())] + seq![Ok(spec_nand_mem())] + spec_clr_yl_steps()
}

/// The steps of `sto`.
pub open spec fn spec_sto_steps(carry: bool, ofst: u8) -> Seq<Step> {
    spec_fetch_steps() + seq![Ok(spec_sp_alxl())] + seq![Ok(spec_mem_zl())] + seq![Ok(spec_cinsum_spxl())] + Seq::new(ofst as nat, |_i: int| Ok::<ControlWord, TickTrap>(spec_cinsum_alxl())) + seq![Ok(spec_set_yl())] + seq![Ok(spec_nand_zl())] + seq![Ok(spec_nand_mem())] + spec_clr_yl_steps()
}

/// The steps of `lda`.
pub open spec fn spec_lda_steps(carry: bool) -> Seq<Step> {
    spec_fetch_steps() + seq![Ok(spec_sp_al())] + seq![Ok(spec_mem_xl())] + seq![Ok(spec_sum_al())] + seq![Ok(spec_mem_xl())] + seq![Ok(spec_sp_al())] + seq![Ok(spec_sum_mem())]
}

/// The steps of `sta`.
pub open spec fn spec_sta_steps(carry: bool) -> Seq<Step> {
    spec_fetch_steps() + seq![Ok(spec_sp_alxl())] + seq![Ok(spec_cinsum_sp())] + seq![Ok(spec_mem_zl())] + seq![Ok(spec_sp_alxl())] + seq![Ok(spec_cinsum_sp())] + seq![Ok(spec_mem_xl())] + seq![Ok(spec_set_yl())] + seq![Ok(spec_nand_zl())] + seq![Ok(spec_nand_al())] + spec_clr_yl_steps() + seq![Ok(spec_sum_mem())]
}

/// The steps of `ldi`.
pub open spec fn spec_ldi_steps(carry: bool) -> Seq<Step> {
    spec_fetch_steps() + seq![Ok(spec_sp_xl())] + seq![Ok(spec_set_yl())] + seq![Ok(spec_sum_spal())] + seq![Ok(spec_ip_mem())] + spec_clr_yl_steps()
}

/// The steps of `sti`.
pub open spec fn spec_sti_steps(carry: bool) -> Seq<Step> {
    spec_fetch_steps() + seq![Ok(spec_sp_alxl())] + seq![Ok(spec_cinsum_sp())] + seq![Ok(spec_mem_ip())]
}

/// The steps of `lds`.
pub open spec fn spec_lds_steps(carry: bool) -> Seq<Step> {
    spec_fetch_steps() + seq![Ok(spec_sp_xlzl())] + seq![Ok(spec_set_yl())] + seq![Ok(spec_sum_spal())] + seq![Ok(spec_nand_zl())] + seq![Ok(spec_nand_mem())] + spec_clr_yl_steps()
}

/// The steps of `sts`.
pub open spec fn spec_sts_steps(carry: bool) -> Seq<Step> {
    spec_fetch_steps() + seq![Ok(spec_sp_al())] + seq![Ok(spec_mem_sp())]
}

/// The steps of `clc`.
pub open spec fn spec_clc_steps(carry: bool) -> Seq<Step> {
    spec_fetch_steps() + spec_clr_cf_steps()
}

/// The steps of `sec`.
pub open spec fn spec_sec_steps(carry: bool) -> Seq<Step> {
    spec_fetch_steps() + spec_set_cf_steps()
}

/// The steps of `flc`.
pub open spec fn spec_flc_steps(carry: bool) -> Seq<Step> {
    spec_fetch_steps() + (if carry { spec_clr_cf_steps() } else { spec_set_cf_steps() })
}

/// The steps of `nop`.
pub open spec fn spec_nop_steps(carry: bool) -> Seq<Step> {
    spec_fetch_steps()
}

/// The steps of `pop`.
pub open spec fn spec_pop_steps(carry: bool) -> Seq<Step> {
    spec_fetch_steps() + seq![Ok(spec_sp_xl())] + seq![Ok(spec_cinsum_sp())]
}

/// The steps of `phn`.
pub open spec fn spec_phn_steps(carry: bool) -> Seq<Step> {
    spec_fetch_steps() + seq![Ok(spec_sp_xl())] + seq![Ok(spec_set_yl())] + seq![Ok(spec_sum_spal())] + seq![Ok(spec_nand_zl())] + seq![Ok(spec_nand_mem())] + spec_clr_yl_steps()
}

/// The steps of an instruction, with the carry flag as given.
pub open spec fn spec_instruction_steps(i: Instruction, carry: bool) -> Seq<Step> {
    match i {
        Instruction::Add(Size(size)) => spec_add_steps(carry, size),
        Instruction::Sub(Size(size)) => spec_sub_steps(carry, size),
        Instruction::Iff(Size(size)) => spec_iff_steps(carry, size),
        Instruction::Swp(Size(size)) => spec_swp_steps(carry, size),
        Instruction::Rot(Size(size)) => spec_rot_steps(carry, size),
        Instruction::Orr(Size(size)) => spec_orr_steps(carry, size),
        Instruction::And(Size(size)) => spec_and_steps(carry, size),
        Instruction::Xor(Size(size)) => spec_xor_steps(carry, size),
        Instruction::Xnd(Size(size)) => spec_xnd_steps(carry, size),
        Instruction::Inc => spec_inc_steps(carry),
        Instruction::Dec => spec_dec_steps(carry),
        Instruction::Neg => spec_neg_steps(carry),
        Instruction::Shl => spec_shl_steps(carry),
        Instruction::Shr => spec_shr_steps(carry),
        Instruction::Not => spec_not_steps(carry),
        Instruction::Buf => spec_buf_steps(carry),
        Instruction::Dbg => spec_dbg_steps(carry),
        Instruction::Ldo(Ofst(ofst)) => spec_ldo_steps(carry, ofst),
        Instruction::Sto(Ofst(ofst)) => spec_sto_steps(carry, ofst),
        Instruction::Lda => spec_lda_steps(carry),
        Instruction::Sta => spec_sta_steps(carry),
        Instruction::Ldi => spec_ldi_steps(carry),
        Instruction::Sti => spec_sti_steps(carry),
        Instruction::Lds => spec_lds_steps(carry),
        Instruction::Sts => spec_sts_steps(carry),
        Instruction::Clc => spec_clc_steps(carry),
        Instruction::Sec => spec_sec_steps(carry),
        Instruction::Flc => spec_flc_steps(carry),
        Instruction::Nop => spec_nop_steps(carry),
        Instruction::Pop => spec_pop_steps(carry),
        Instruction::Phn(_) => spec_phn_steps(carry),
        Instruction::Psh(_) => spec_phn_steps(carry),
    }
}

/// The steps for an opcode: an undecodable one fetches and traps as illegal.
pub open spec fn spec_opcode_steps(opcode: u8, carry: bool) -> Seq<Step> {
    match spec_opcode_to_instruction(opcode) {
        Ok(i) => spec_instruction_steps(i, carry),
        Err(_) => spec_fetch_steps() + seq![Err::<ControlWord, TickTrap>(TickTrap::IllegalOpcode)],
    }
}

pub(crate) fn push_ok(out: &mut Vec<Step>, c: ControlWord)
    ensures
        final(out)@ == old(out)@.push(Ok(c)),
{
    out.push(Ok(c));
}

pub(crate) fn push_repeated(out: &mut Vec<Step>, c: ControlWord, n: u8)
    ensures
        final(out)@ == old(out)@ + Seq::new(n as nat, |_i: int| Ok::<ControlWord, TickTrap>(c)),
{
    let ghost start = out@;
    let mut i: u8 = 0;
    while i < n
        invariant
            i <= n,
            out@ == start + Seq::new(i as nat, |_i: int| Ok::<ControlWord, TickTrap>(c)),
        decreases n - i,
    {
        out.push(Ok(c));
        i = i + 1;
        assert(out@ == start + Seq::new(i as nat, |_i: int| Ok::<ControlWord, TickTrap>(c)));
    }
}

fn push_fetch(out: &mut Vec<Step>)
    ensures
        final(out)@ == old(out)@ + spec_fetch_steps(),
{
    let ghost start = out@;
    push_ok(out, cw_ip_alxl());
    push_ok(out, cw_cinsum_ip());
    push_ok(out, cw_mem_ilzl());
    assert(out@ == start + spec_fetch_steps());
}

pub(crate) fn push_clr_yl(out: &mut Vec<Step>)
    ensures
        final(out)@ == old(out)@ + spec_clr_yl_steps(),
{
    let ghost start = out@;
    push_ok(out, cw_set_ylzl());
    push_ok(out, cw_nand_yl());
    assert(out@ == start + spec_clr_yl_steps());
}

pub(crate) fn push_set_cf(out: &mut Vec<Step>)
    ensures
        final(out)@ == old(out)@ + spec_set_cf_steps(),
{
    let ghost start = out@;
    push_ok(out, cw_set_xlylzl());
    push_ok(out, cw_set_xlylzl());
    push_ok(out, cw_nand_xlylcf());
    assert(out@ == start + spec_set_cf_steps());
}

pub(crate) fn push_clr_cf(out: &mut Vec<Step>)
    ensures
        final(out)@ == old(out)@ + spec_clr_cf_steps(),
{
    let ghost start = out@;
    push_ok(out, cw_set_xlylzl());
    push_ok(out, cw_nand_xlylzl());
    push_ok(out, cw_nand_zlcf());
    assert(out@ == start + spec_clr_cf_steps());
}

fn push_add(out: &mut Vec<Step>, carry: bool, size: u8)
    ensures
        final(out)@ == old(out)@ + spec_add_steps(carry, size),
{
    let ghost start = out@;
    push_fetch(out);
    push_ok(out, cw_sp_alxl());
    push_ok(out, cw_cinsum_sp());
    push_ok(out, cw_mem_zl());
    push_repeated(out, cw_cinsum_alxl(), size);
    push_ok(out, cw_set_yl());
    push_ok(out, cw_nand_zl());
    push_ok(out, cw_nand_yl());
    push_ok(out, cw_mem_xl());
    if carry {
        push_ok(out, cw_cinsum_xlcf());
    } else {
        push_ok(out, cw_sum_xlcf());
    }
    push_ok(out, cw_set_ylzl());
    push_ok(out, cw_cinsum_mem());
    push_ok(out, cw_nand_yl());
    assert(out@ =~= start + spec_add_steps(carry, size));
}

fn push_sub(out: &mut Vec<Step>, carry: bool, size: u8)
    ensures
        final(out)@ == old(out)@ + spec_sub_steps(carry, size),
{
    let ghost start = out@;
    push_fetch(out);
    push_ok(out, cw_sp_alxl());
    push_ok(out, cw_cinsum_sp());
    push_ok(out, cw_mem_zl());
    push_repeated(out, cw_cinsum_alxl(), size);
    push_ok(out, cw_set_yl());
    push_ok(out, cw_nand_yl());
    push_ok(out, cw_mem_xl());
    if carry {
        push_ok(out, cw_sum_xlcf());
    } else {
        push_ok(out, cw_cinsum_xlcf());
    }
    push_ok(out, cw_set_ylzl());
    push_ok(out, cw_cinsum_mem());
    if carry {
        push_ok(out, cw_nand_ylzl());
        push_ok(out, cw_nand_zlcf());
    } else {
        push_ok(out, cw_noop());
        push_ok(out, cw_nand_ylcf());
    }
    assert(out@ =~= start + spec_sub_steps(carry, size));
}

fn push_iff(out: &mut Vec<Step>, carry: bool, size: u8)
    ensures
        final(out)@ == old(out)@ + spec_iff_steps(carry, size),
{
    let ghost start = out@;
    push_fetch(out);
    push_ok(out, cw_sp_alxl());
    push_ok(out, cw_cinsum_sp());
    push_ok(out, cw_mem_zl());
    push_repeated(out, cw_cinsum_alxl(), size);
    push_ok(out, cw_mem_xl());
    push_ok(out, cw_set_yl());
    if carry {
        push_ok(out, cw_nand_zl());
        push_ok(out, cw_nand_xl());
    } else {
        push_ok(out, cw_noop());
        push_ok(out, cw_noop());
    }
    push_ok(out, cw_cinsum_mem());
    push_clr_yl(out);
    assert(out@ =~= start + spec_iff_steps(carry, size));
}

fn push_swp(out: &mut Vec<Step>, carry: bool, size: u8)
    ensures
        final(out)@ == old(out)@ + spec_swp_steps(carry, size),
{
    let ghost start = out@;
    push_fetch(out);
    push_ok(out, cw_sp_alxl());
    push_ok(out, cw_mem_zl());
    push_repeated(out, cw_cinsum_alxl(), size);
    push_ok(out, cw_mem_xl());
    push_ok(out, cw_set_yl());
    push_ok(out, cw_nand_zl());
    push_ok(out, cw_nand_mem());
    push_ok(out, cw_sp_al());
    push_ok(out, cw_cinsum_mem());
    push_clr_yl(out);
    assert(out@ =~= start + spec_swp_steps(carry, size));
}

fn push_rot(out: &mut Vec<Step>, carry: bool, size: u8)
    ensures
        final(out)@ == old(out)@ + spec_rot_steps(carry, size),
{
    let ghost start = out@;
    if carry {
        push_clr_yl(out);
        push_ok(out, cw_noop());
    } else {
        push_fetch(out);
    }
    push_ok(out, cw_sp_alxl());
    push_ok(out, cw_mem_zl());
    push_repeated(out, cw_cinsum_alxl(), size);
    push_ok(out, cw_mem_xlyl());
    push_ok(out, cw_cinsum_xlcf());
    push_ok(out, cw_set_yl());
    if carry {
        push_ok(out, cw_cinsum_xl());
    } else {
        push_ok(out, cw_sum_xl());
    }
    push_ok(out, cw_nand_zl());
    push_ok(out, cw_nand_zlcf());
    if carry {
        push_clr_yl(out);
        push_ok(out, cw_sp_alxl());
        push_ok(out, cw_cinsum_sp());
        push_clr_cf(out);
    } else {
        push_ok(out, cw_cinsum_mem());
        push_ok(out, cw_sp_al());
        push_ok(out, cw_mem_xl());
        push_ok(out, cw_sum_mem());
        push_set_cf(out);
    }
    assert(out@ =~= start + spec_rot_steps(carry, size));
}

fn push_orr(out: &mut Vec<Step>, carry: bool, size: u8)
    ensures
        final(out)@ == old(out)@ + spec_orr_steps(carry, size),
{
    let ghost start = out@;
    push_fetch(out);
    push_ok(out, cw_sp_alxl());
    push_ok(out, cw_cinsum_sp());
    push_ok(out, cw_mem_zl());
    push_repeated(out, cw_cinsum_alxl(), size);
    push_ok(out, cw_set_yl());
    push_ok(out, cw_nand_xl());
    push_ok(out, cw_mem_zl());
    push_ok(out, cw_nand_zl());
    push_ok(out, cw_cinsum_yl());
    push_ok(out, cw_nand_memcf());
    push_clr_yl(out);
    assert(out@ =~= start + spec_orr_steps(carry, size));
}

fn push_and(out: &mut Vec<Step>, carry: bool, size: u8)
    ensures
        final(out)@ == old(out)@ + spec_and_steps(carry, size),
{
    let ghost start = out@;
    push_fetch(out);
    push_ok(out, cw_sp_alxl());
    push_ok(out, cw_cinsum_sp());
    push_ok(out, cw_mem_zl());
    push_repeated(out, cw_cinsum_alxl(), size);
    push_ok(out, cw_mem_yl());
    push_ok(out, cw_nand_ylzl());
    push_ok(out, cw_nand_memcf());
    push_clr_yl(out);
    assert(out@ =~= start + spec_and_steps(carry, size));
}

fn push_xor(out: &mut Vec<Step>, carry: bool, size: u8)
    ensures
        final(out)@ == old(out)@ + spec_xor_steps(carry, size),
{
    let ghost start = out@;
    push_fetch(out);
    push_ok(out, cw_sp_alxl());
    push_ok(out, cw_cinsum_sp());
    push_ok(out, cw_mem_zl());
    push_repeated(out, cw_cinsum_alxl(), size);
    push_ok(out, cw_set_yl());
    push_ok(out, cw_nand_zl());
    push_ok(out, cw_nand_xl());
    push_ok(out, cw_mem_zl());
    push_ok(out, cw_nand_zl());
    push_ok(out, cw_cinsum_yl());
    push_ok(out, cw_nand_xl());
    push_ok(out, cw_set_zl());
    push_ok(out, cw_nand_yl());
    push_ok(out, cw_mem_zl());
    push_ok(out, cw_nand_zl());
    push_ok(out, cw_set_yl());
    push_ok(out, cw_cinsum_yl());
    push_ok(out, cw_nand_memcf());
    push_clr_yl(out);
    assert(out@ =~= start + spec_xor_steps(carry, size));
}

fn push_xnd(out: &mut Vec<Step>, carry: bool, size: u8)
    ensures
        final(out)@ == old(out)@ + spec_xnd_steps(carry, size),
{
    let ghost start = out@;
    push_fetch(out);
    push_ok(out, cw_sp_alxl());
    push_ok(out, cw_cinsum_sp());
    push_repeated(out, cw_cinsum_alxl(), size);
    push_ok(out, cw_set_xlylzl());
    push_ok(out, cw_sum_xlcf());
    push_ok(out, cw_nand_memyl());
    assert(out@ =~= start + spec_xnd_steps(carry, size));
}

fn push_inc(out: &mut Vec<Step>, carry: bool)
    ensures
        final(out)@ == old(out)@ + spec_inc_steps(carry),
{
    let ghost start = out@;
    push_fetch(out);
    push_ok(out, cw_sp_al());
    push_ok(out, cw_mem_xl());
    push_ok(out, cw_cinsum_mem());
    assert(out@ =~= start + spec_inc_steps(carry));
}

fn push_dec(out: &mut Vec<Step>, carry: bool)
    ensures
        final(out)@ == old(out)@ + spec_dec_steps(carry),
{
    let ghost start = out@;
    push_fetch(out);
    push_ok(out, cw_sp_al());
    push_ok(out, cw_mem_xl());
    push_ok(out, cw_set_ylzl());
    push_ok(out, cw_sum_mem());
    push_ok(out, cw_nand_yl());
    assert(out@ =~= start + spec_dec_steps(carry));
}

fn push_neg(out: &mut Vec<Step>, carry: bool)
    ensures
        final(out)@ == old(out)@ + spec_neg_steps(carry),
{
    let ghost start = out@;
    push_fetch(out);
    push_ok(out, cw_set_ylzl());
    push_ok(out, cw_nand_xl());
    push_ok(out, cw_sp_al());
    push_ok(out, cw_mem_ylzl());
    push_ok(out, cw_nand_ylzl());
    push_ok(out, cw_cinsum_mem());
    push_clr_yl(out);
    assert(out@ =~= start + spec_neg_steps(carry));
}

fn push_shl(out: &mut Vec<Step>, carry: bool)
    ensures
        final(out)@ == old(out)@ + spec_shl_steps(carry),
{
    let ghost start = out@;
    push_fetch(out);
    push_ok(out, cw_sp_al());
    push_ok(out, cw_mem_xlyl());
    if carry {
        push_ok(out, cw_cinsum_xlcf());
    } else {
        push_ok(out, cw_sum_xlcf());
    }
    push_ok(out, cw_set_ylzl());
    push_ok(out, cw_cinsum_mem());
    push_ok(out, cw_nand_yl());
    assert(out@ =~= start + spec_shl_steps(carry));
}

fn push_shr(out: &mut Vec<Step>, carry: bool)
    ensures
        final(out)@ == old(out)@ + spec_shr_steps(carry),
{
    let ghost start = out@;
    push_fetch(out);
    push_ok(out, cw_sp_al());
    push_ok(out, cw_mem_xlyl());
    if carry {
        push_repeated(out, cw_cinsum_xlylcf(), 8);
    } else {
        push_repeated(out, cw_sum_xlylcf(), 8);
    }
    push_ok(out, cw_set_ylzl());
    push_ok(out, cw_cinsum_mem());
    push_ok(out, cw_nand_yl());
    assert(out@ =~= start + spec_shr_steps(carry));
}

fn push_not(out: &mut Vec<Step>, carry: bool)
    ensures
        final(out)@ == old(out)@ + spec_not_steps(carry),
{
    let ghost start = out@;
    push_fetch(out);
    push_ok(out, cw_sp_al());
    push_ok(out, cw_mem_ylzl());
    push_ok(out, cw_nand_memcf());
    push_clr_yl(out);
    assert(out@ =~= start + spec_not_steps(carry));
}

fn push_buf(out: &mut Vec<Step>, carry: bool)
    ensures
        final(out)@ == old(out)@ + spec_buf_steps(carry),
{
    let ghost start = out@;
    push_fetch(out);
    push_ok(out, cw_sp_al());
    push_ok(out, cw_mem_ylzl());
    push_ok(out, cw_nand_ylzl());
    push_ok(out, cw_nand_memcf());
    push_clr_yl(out);
    assert(out@ =~= start + spec_buf_steps(carry));
}

fn push_dbg(out: &mut Vec<Step>, carry: bool)
    ensures
        final(out)@ == old(out)@ + spec_dbg_steps(carry),
{
    let ghost start = out@;
    push_fetch(out);
    out.push(Err(TickTrap::DebugRequest));
    assert(out@ =~= start + spec_dbg_steps(carry));
}

fn push_ldo(out: &mut Vec<Step>, carry: bool, ofst: u8)
    ensures
        final(out)@ == old(out)@ + spec_ldo_steps(carry, ofst),
{
    let ghost start = out@;
    push_fetch(out);
    push_ok(out, cw_sp_alxl());
    push_repeated(out, cw_cinsum_alxl(), ofst);
    push_ok(out, cw_mem_zl());
    push_ok(out, cw_sp_xl());
    push_ok(out, cw_set_yl());
    push_ok(out, cw_sum_spal());
    push_ok(out, cw_nand_zl());
    push_ok(out, cw_nand_mem());
    push_clr_yl(out);
    assert(out@ =~= start + spec_ldo_steps(carry, ofst));
}

fn push_sto(out: &mut Vec<Step>, carry: bool, ofst: u8)
    ensures
        final(out)@ == old(out)@ + spec_sto_steps(carry, ofst),
{
    let ghost start = out@;
    push_fetch(out);
    push_ok(out, cw_sp_alxl());
    push_ok(out, cw_mem_zl());
    push_ok(out, cw_cinsum_spxl());
    push_repeated(out, cw_cinsum_alxl(), ofst);
    push_ok(out, cw_set_yl());
    push_ok(out, cw_nand_zl());
    push_ok(out, cw_nand_mem());
    push_clr_yl(out);
    assert(out@ =~= start + spec_sto_steps(carry, ofst));
}

fn push_lda(out: &mut Vec<Step>, carry: bool)
    ensures
        final(out)@ == old(out)@ + spec_lda_steps(carry),
{
    let ghost start = out@;
    push_fetch(out);
    push_ok(out, cw_sp_al());
    push_ok(out, cw_mem_xl());
    push_ok(out, cw_sum_al());
    push_ok(out, cw_mem_xl());
    push_ok(out, cw_sp_al());
    push_ok(out, cw_sum_mem());
    assert(out@ =~= start + spec_lda_steps(carry));
}

fn push_sta(out: &mut Vec<Step>, carry: bool)
    ensures
        final(out)@ == old(out)@ + spec_sta_steps(carry),
{
    let ghost start = out@;
    push_fetch(out);
    push_ok(out, cw_sp_alxl());
    push_ok(out, cw_cinsum_sp());
    push_ok(out, cw_mem_zl());
    push_ok(out, cw_sp_alxl());
    push_ok(out, cw_cinsum_sp());
    push_ok(out, cw_mem_xl());
    push_ok(out, cw_set_yl());
    push_ok(out, cw_nand_zl());
    push_ok(out, cw_nand_al());
    push_clr_yl(out);
    push_ok(out, cw_sum_mem());
    assert(out@ =~= start + spec_sta_steps(carry));
}

fn push_ldi(out: &mut Vec<Step>, carry: bool)
    ensures
        final(out)@ == old(out)@ + spec_ldi_steps(carry),
{
    let ghost start = out@;
    push_fetch(out);
    push_ok(out, cw_sp_xl());
    push_ok(out, cw_set_yl());
    push_ok(out, cw_sum_spal());
    push_ok(out, cw_ip_mem());
    push_clr_yl(out);
    assert(out@ =~= start + spec_ldi_steps(carry));
}

fn push_sti(out: &mut Vec<Step>, carry: bool)
    ensures
        final(out)@ == old(out)@ + spec_sti_steps(carry),
{
    let ghost start = out@;
    push_fetch(out);
    push_ok(out, cw_sp_alxl());
    push_ok(out, cw_cinsum_sp());
    push_ok(out, cw_mem_ip());
    assert(out@ =~= start + spec_sti_steps(carry));
}

fn push_lds(out: &mut Vec<Step>, carry: bool)
    ensures
        final(out)@ == old(out)@ + spec_lds_steps(carry),
{
    let ghost start = out@;
    push_fetch(out);
    push_ok(out, cw_sp_xlzl());
    push_ok(out, cw_set_yl());
    push_ok(out, cw_sum_spal());
    push_ok(out, cw_nand_zl());
    push_ok(out, cw_nand_mem());
    push_clr_yl(out);
    assert(out@ =~= start + spec_lds_steps(carry));
}

fn push_sts(out: &mut Vec<Step>, carry: bool)
    ensures
        final(out)@ == old(out)@ + spec_sts_steps(carry),
{
    let ghost start = out@;
    push_fetch(out);
    push_ok(out, cw_sp_al());
    push_ok(out, cw_mem_sp());
    assert(out@ =~= start + spec_sts_steps(carry));
}

fn push_clc(out: &mut Vec<Step>, carry: bool)
    ensures
        final(out)@ == old(out)@ + spec_clc_steps(carry),
{
    let ghost start = out@;
    push_fetch(out);
    push_clr_cf(out);
    assert(out@ =~= start + spec_clc_steps(carry));
}

fn push_sec(out: &mut Vec<Step>, carry: bool)
    ensures
        final(out)@ == old(out)@ + spec_sec_steps(carry),
{
    let ghost start = out@;
    push_fetch(out);
    push_set_cf(out);
    assert(out@ =~= start + spec_sec_steps(carry));
}

fn push_flc(out: &mut Vec<Step>, carry: bool)
    ensures
        final(out)@ == old(out)@ + spec_flc_steps(carry),
{
    let ghost start = out@;
    push_fetch(out);
    if carry {
        push_clr_cf(out);
    } else {
        push_set_cf(out);
    }
    assert(out@ =~= start + spec_flc_steps(carry));
}

fn push_nop(out: &mut Vec<Step>, carry: bool)
    ensures
        final(out)@ == old(out)@ + spec_nop_steps(carry),
{
    let ghost start = out@;
    push_fetch(out);
    assert(out@ =~= start + spec_nop_steps(carry));
}

fn push_pop(out: &mut Vec<Step>, carry: bool)
    ensures
        final(out)@ == old(out)@ + spec_pop_steps(carry),
{
    let ghost start = out@;
    push_fetch(out);
    push_ok(out, cw_sp_xl());
    push_ok(out, cw_cinsum_sp());
    assert(out@ =~= start + spec_pop_steps(carry));
}

fn push_phn(out: &mut Vec<Step>, carry: bool)
    ensures
        final(out)@ == old(out)@ + spec_phn_steps(carry),
{
    let ghost start = out@;
    push_fetch(out);
    push_ok(out, cw_sp_xl());
    push_ok(out, cw_set_yl());
    push_ok(out, cw_sum_spal());
    push_ok(out, cw_nand_zl());
    push_ok(out, cw_nand_mem());
    push_clr_yl(out);
    assert(out@ =~= start + spec_phn_steps(carry));
}

/// The steps for an opcode with the carry flag as given.
fn opcode_steps(opcode: u8, carry: bool) -> (r: Vec<Step>)
    ensures
        r@ == spec_opcode_steps(opcode, carry),
{
    let mut out: Vec<Step> = Vec::new();
    match opcode_to_instruction(opcode) {
        Err(_) => {
            push_fetch(&mut out);
            out.push(Err(TickTrap::IllegalOpcode));
        },
        Ok(Instruction::Add(Size(size))) => push_add(&mut out, carry, size),
        Ok(Instruction::Sub(Size(size))) => push_sub(&mut out, carry, size),
        Ok(Instruction::Iff(Size(size))) => push_iff(&mut out, carry, size),
        Ok(Instruction::Swp(Size(size))) => push_swp(&mut out, carry, size),
        Ok(Instruction::Rot(Size(size))) => push_rot(&mut out, carry, size),
        Ok(Instruction::Orr(Size(size))) => push_orr(&mut out, carry, size),
        Ok(Instruction::And(Size(size))) => push_and(&mut out, carry, size),
        Ok(Instruction::Xor(Size(size))) => push_xor(&mut out, carry, size),
        Ok(Instruction::Xnd(Size(size))) => push_xnd(&mut out, carry, size),
        Ok(Instruction::Inc) => push_inc(&mut out, carry),
        Ok(Instruction::Dec) => push_dec(&mut out, carry),
        Ok(Instruction::Neg) => push_neg(&mut out, carry),
        Ok(Instruction::Shl) => push_shl(&mut out, carry),
        Ok(Instruction::Shr) => push_shr(&mut out, carry),
        Ok(Instruction::Not) => push_not(&mut out, carry),
        Ok(Instruction::Buf) => push_buf(&mut out, carry),
        Ok(Instruction::Dbg) => push_dbg(&mut out, carry),
        Ok(Instruction::Ldo(Ofst(ofst))) => push_ldo(&mut out, carry, ofst),
        Ok(Instruction::Sto(Ofst(ofst))) => push_sto(&mut out, carry, ofst),
        Ok(Instruction::Lda) => push_lda(&mut out, carry),
        Ok(Instruction::Sta) => push_sta(&mut out, carry),
        Ok(Instruction::Ldi) => push_ldi(&mut out, carry),
        Ok(Instruction::Sti) => push_sti(&mut out, carry),
        Ok(Instruction::Lds) => push_lds(&mut out, carry),
        Ok(Instruction::Sts) => push_sts(&mut out, carry),
        Ok(Instruction::Clc) => push_clc(&mut out, carry),
        Ok(Instruction::Sec) => push_sec(&mut out, carry),
        Ok(Instruction::Flc) => push_flc(&mut out, carry),
        Ok(Instruction::Nop) => push_nop(&mut out, carry),
        Ok(Instruction::Pop) => push_pop(&mut out, carry),
        Ok(Instruction::Phn(_)) => push_phn(&mut out, carry),
        Ok(Instruction::Psh(_)) => push_phn(&mut out, carry),
    }
    assert(out@ =~= Seq::<Step>::empty() + spec_opcode_steps(opcode, carry));
    out
}

/// The steps for an opcode with the carry flag as given, ending by clearing the step counter.
pub open spec fn spec_program(opcode: u8, carry: bool) -> Seq<Step> {
    spec_opcode_steps(opcode, carry).push(Ok(spec_clr_sc()))
}

/// The 32 steps of an opcode with the carry flag as given: its program, microcode faults, and a
/// final no-op; all faults where the program does not fit.
pub open spec fn spec_padded(opcode: u8, carry: bool) -> Seq<Step> {
    let pre = spec_program(opcode, carry);
    if pre.len() + 1 <= 32 {
        pre + Seq::new((31 - pre.len()) as nat, |_i: int| Err::<ControlWord, TickTrap>(TickTrap::MicrocodeFault))
            + seq![Ok(spec_noop())]
    } else {
        Seq::new(32, |_i: int| Err::<ControlWord, TickTrap>(TickTrap::MicrocodeFault))
    }
}

/// The microcode word for opcode `0x80 + o`, the carry flag and the step.
pub open spec fn spec_microcode_word(o: int, c: int, step: int) -> u16 {
    spec_result_into_u16(spec_padded((o + 0x80) as u8, c == 1)[step])
}

/// Where the word for opcode `0x80 + o`, carry `c` and step `s` stands.
pub open spec fn spec_mic_index(o: int, c: int, s: int) -> int {
    0x40 * o + 0x20 * c + s
}

/// Whether `image` is the microcode: the word for opcode `0x80 + o`, carry `c` and step `s`
/// stands at `0x40 * o + 0x20 * c + s`. `psh` opcodes have no microcode of their own: the
/// simulator runs them as `phn`.
pub open spec fn spec_is_microcode(image: Seq<u16>) -> bool {
    &&& image.len() == MIC_SIZE
    &&& forall|o: int, c: int, s: int|
        0 <= o < 0x80 && 0 <= c < 2 && 0 <= s < 32 ==> image[spec_mic_index(o, c, s)]
            == spec_microcode_word(o, c, s)
}

/// Every program fits in the 32 steps of the microcode with the final no-op.
pub proof fn law_microcode_fits(opcode: u8, carry: bool)
    ensures
        spec_program(opcode, carry).len() + 1 <= 32,
{
    crate::common::law_opcode_roundtrip(opcode);
}

fn padded(opcode: u8, carry: bool) -> (r: Vec<Step>)
    ensures
        r@ == spec_padded(opcode, carry),
        r@.len() == 32,
{
    let mut steps = opcode_steps(opcode, carry);
    steps.push(Ok(cw_clr_sc()));
    proof {
        law_microcode_fits(opcode, carry);
    }
    let ghost pre = steps@;
    while steps.len() < 31
        invariant
            pre == spec_program(opcode, carry),
            pre.len() <= steps@.len() <= 31,
            steps@ == pre + Seq::new((steps@.len() - pre.len()) as nat, |_i: int| Err::<ControlWord, TickTrap>(TickTrap::MicrocodeFault)),
        decreases 31 - steps.len(),
    {
        steps.push(Err(TickTrap::MicrocodeFault));
        assert(steps@ =~= pre + Seq::new((steps@.len() - pre.len()) as nat, |_i: int| Err::<ControlWord, TickTrap>(TickTrap::MicrocodeFault)));
    }
    steps.push(Ok(cw_noop()));
    assert(steps@ =~= spec_padded(opcode, carry));
    steps
}

/// Builds the microcode image. No program overflows its 32 steps, so no error is reported.
pub fn build_microcode(errors: &mut Vec<Error>) -> (r: Vec<u16>)
    ensures
        spec_is_microcode(r@),
        final(errors)@ == old(errors)@,
{
    let mut image: Vec<u16> = Vec::new();
    let mut o: usize = 0;
    while o < 0x80
        invariant
            o <= 0x80,
            image@.len() == 0x40 * o,
            forall|o2: int, c: int, s: int|
                0 <= o2 < o && 0 <= c < 2 && 0 <= s < 32 ==> image@[spec_mic_index(o2, c, s)]
                    == spec_microcode_word(o2, c, s),
        decreases 0x80 - o,
    {
        let mut c: usize = 0;
        while c < 2
            invariant
                o < 0x80,
                c <= 2,
                image@.len() == 0x40 * o + 0x20 * c,
                forall|o2: int, c2: int, s: int|
                    0 <= o2 < o && 0 <= c2 < 2 && 0 <= s < 32 ==> image@[spec_mic_index(o2, c2, s)]
                        == spec_microcode_word(o2, c2, s),
                forall|c2: int, s: int|
                    0 <= c2 < c && 0 <= s < 32 ==> image@[spec_mic_index(o as int, c2, s)]
                        == spec_microcode_word(o as int, c2, s),
            decreases 2 - c,
        {
            let steps = padded((o + 0x80) as u8, c == 1);
            let mut s: usize = 0;
            while s < 32
                invariant
                    o < 0x80,
                    c < 2,
                    s <= 32,
                    steps@ == spec_padded((o + 0x80) as u8, c == 1),
                    steps@.len() == 32,
                    image@.len() == 0x40 * o + 0x20 * c + s,
                    forall|o2: int, c2: int, s2: int|
                        0 <= o2 < o && 0 <= c2 < 2 && 0 <= s2 < 32 ==> image@[spec_mic_index(o2, c2, s2)]
                            == spec_microcode_word(o2, c2, s2),
                    forall|c2: int, s2: int|
                        0 <= c2 < c && 0 <= s2 < 32 ==> image@[spec_mic_index(o as int, c2, s2)]
                            == spec_microcode_word(o as int, c2, s2),
                    forall|s2: int|
                        0 <= s2 < s ==> image@[spec_mic_index(o as int, c as int, s2)]
                            == spec_microcode_word(o as int, c as int, s2),
                decreases 32 - s,
            {
                image.push(result_into_u16(steps[s]));
                s = s + 1;
            }
            c = c + 1;
        }
        o = o + 1;
    }
    image
}

} // verus!
