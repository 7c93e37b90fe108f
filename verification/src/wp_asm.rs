//! The assembler of the work-pointer variant of the instruction set: macros expanded from an
//! entry point, constant pushes folded into nodes that are computed at assembly time, labels
//! resolved, and the instructions encoded as bytes.

use vstd::prelude::*;
use crate::text::{chars_of, string_from_chars};

verus! {

/// A token of work-pointer assembly.
#[derive(Clone, Debug, PartialEq, Eq)]
pub enum WpToken {
    LabelDef(String),
    LabelRef(String),
    MacroDef(String),
    MacroRef(String),
    Nop,
    Hlt,
    Dbg,
    Clc,
    Sec,
    Flc,
    Inc,
    Dec,
    Add,
    AdS(u8),
    Adc,
    AcS(u8),
    Sub,
    SuS(u8),
    Sbc,
    ScS(u8),
    Shf,
    ShS(u8),
    Rot,
    RoS(u8),
    Orr,
    OrS(u8),
    And,
    AnS(u8),
    Xor,
    XoS(u8),
    Xnd,
    XnS(u8),
    Not,
    Ntp,
    Buf,
    Bfp,
    Iff,
    IfS(u8),
    Swp,
    Pop,
    XXX(u8),
    Lda,
    Sta,
    Ldi,
    Sti,
    Lds,
    Sts,
    LdO(u8),
    StO(u8),
    DDD(u8),
}

/// An instruction of the work-pointer variant; sizes are `1`, `2`, `4` or `8`, offsets below
/// sixteen, pushed immediates below `0x80`.
#[derive(Clone, Copy, Debug, PartialEq, Eq, Structural)]
pub enum WpInstruction {
    Nop,
    Hlt,
    Dbg,
    Clc,
    Sec,
    Flc,
    Inc,
    Dec,
    Add(u8),
    Adc(u8),
    Sub(u8),
    Sbc(u8),
    Shf(u8),
    Rot(u8),
    Orr(u8),
    And(u8),
    Xor(u8),
    Xnd(u8),
    Not,
    Ntp,
    Buf,
    Bfp,
    Iff(u8),
    Swp,
    Pop,
    Psh(u8),
    Lda,
    Sta,
    Ldi,
    Sti,
    Lds,
    Sts,
    Ldo(u8),
    Sto(u8),
    Raw(u8),
}

/// A token with its names taken as characters; a token without a name is itself.
pub enum WpTokenView {
    LabelDef(Seq<char>),
    LabelRef(Seq<char>),
    MacroDef(Seq<char>),
    MacroRef(Seq<char>),
    Plain(WpToken),
}

impl View for WpToken {
    type V = WpTokenView;

    open spec fn view(&self) -> WpTokenView {
        match self {
            WpToken::LabelDef(l) => WpTokenView::LabelDef(l@),
            WpToken::LabelRef(l) => WpTokenView::LabelRef(l@),
            WpToken::MacroDef(m) => WpTokenView::MacroDef(m@),
            WpToken::MacroRef(m) => WpTokenView::MacroRef(m@),
            _ => WpTokenView::Plain(*self),
        }
    }
}

/// The views of tokens.
pub open spec fn spec_token_views(v: Seq<WpToken>) -> Seq<WpTokenView> {
    v.map_values(|t: WpToken| t@)
}

/// A value computed at assembly time. An operation on two nodes computes the second operand
/// with the first: `Sub(a, b)` is `b - a`, as the stack computes it.
pub enum WpNode {
    NextAddress,
    LabelRef(String),
    Immediate(u8),
    Not(Box<WpNode>),
    Add(Box<WpNode>, Box<WpNode>),
    Sub(Box<WpNode>, Box<WpNode>),
    Shf(Box<WpNode>, Box<WpNode>),
    Rot(Box<WpNode>, Box<WpNode>),
    Orr(Box<WpNode>, Box<WpNode>),
    And(Box<WpNode>, Box<WpNode>),
    Xor(Box<WpNode>, Box<WpNode>),
    Xnd(Box<WpNode>, Box<WpNode>),
}

/// A node with its labels taken as characters.
pub enum WpNodeView {
    NextAddress,
    LabelRef(Seq<char>),
    Immediate(u8),
    Not(Box<WpNodeView>),
    Add(Box<WpNodeView>, Box<WpNodeView>),
    Sub(Box<WpNodeView>, Box<WpNodeView>),
    Shf(Box<WpNodeView>, Box<WpNodeView>),
    Rot(Box<WpNodeView>, Box<WpNodeView>),
    Orr(Box<WpNodeView>, Box<WpNodeView>),
    And(Box<WpNodeView>, Box<WpNodeView>),
    Xor(Box<WpNodeView>, Box<WpNodeView>),
    Xnd(Box<WpNodeView>, Box<WpNodeView>),
}

/// The view of a node.
pub open spec fn spec_node_view(n: WpNode) -> WpNodeView
    decreases n,
{
    match n {
        WpNode::NextAddress => WpNodeView::NextAddress,
        WpNode::LabelRef(l) => WpNodeView::LabelRef(l@),
        WpNode::Immediate(v) => WpNodeView::Immediate(v),
        WpNode::Not(a) => WpNodeView::Not(Box::new(spec_node_view(*a))),
        WpNode::Add(a, b) => WpNodeView::Add(Box::new(spec_node_view(*a)), Box::new(spec_node_view(*b))),
        WpNode::Sub(a, b) => WpNodeView::Sub(Box::new(spec_node_view(*a)), Box::new(spec_node_view(*b))),
        WpNode::Shf(a, b) => WpNodeView::Shf(Box::new(spec_node_view(*a)), Box::new(spec_node_view(*b))),
        WpNode::Rot(a, b) => WpNodeView::Rot(Box::new(spec_node_view(*a)), Box::new(spec_node_view(*b))),
        WpNode::Orr(a, b) => WpNodeView::Orr(Box::new(spec_node_view(*a)), Box::new(spec_node_view(*b))),
        WpNode::And(a, b) => WpNodeView::And(Box::new(spec_node_view(*a)), Box::new(spec_node_view(*b))),
        WpNode::Xor(a, b) => WpNodeView::Xor(Box::new(spec_node_view(*a)), Box::new(spec_node_view(*b))),
        WpNode::Xnd(a, b) => WpNodeView::Xnd(Box::new(spec_node_view(*a)), Box::new(spec_node_view(*b))),
    }
}

impl View for WpNode {
    type V = WpNodeView;

    open spec fn view(&self) -> WpNodeView {
        spec_node_view(*self)
    }
}

/// An element of the intermediate representation: an instruction, a node, or a label
/// definition.
pub enum WpRoot {
    Instruction(WpInstruction),
    Node(WpNode),
    LabelDef(String),
}

/// A root with its names taken as characters.
pub enum WpRootView {
    Instruction(WpInstruction),
    Node(WpNodeView),
    LabelDef(Seq<char>),
}

impl View for WpRoot {
    type V = WpRootView;

    open spec fn view(&self) -> WpRootView {
        match self {
            WpRoot::Instruction(i) => WpRootView::Instruction(*i),
            WpRoot::Node(n) => WpRootView::Node(n@),
            WpRoot::LabelDef(l) => WpRootView::LabelDef(l@),
        }
    }
}

/// The views of roots.
pub open spec fn spec_root_views(v: Seq<WpRoot>) -> Seq<WpRootView> {
    v.map_values(|r: WpRoot| r@)
}

/// A size operand, which must be one, two, four or eight.
pub open spec fn spec_size_ok(size: u8) -> bool {
    size == 1 || size == 2 || size == 4 || size == 8
}

/// The root of a token, where its operand is valid; nothing for a macro token or an invalid
/// operand.
pub open spec fn spec_token_root(t: WpTokenView) -> Option<WpRootView> {
    match t {
        WpTokenView::LabelDef(l) => Some(WpRootView::LabelDef(l)),
        WpTokenView::LabelRef(l) => Some(WpRootView::Node(WpNodeView::LabelRef(l))),
        WpTokenView::MacroDef(_) | WpTokenView::MacroRef(_) => None,
        WpTokenView::Plain(t) => match t {
            WpToken::XXX(v) => Some(WpRootView::Node(WpNodeView::Immediate(v))),
            _ => match spec_plain_instruction(t) {
                Some(i) => Some(WpRootView::Instruction(i)),
                None => None,
            },
        },
    }
}

/// The instruction of a token without a name or value, where its operand is valid.
pub open spec fn spec_plain_instruction(t: WpToken) -> Option<WpInstruction> {
    match t {
        WpToken::Nop => Some(WpInstruction::Nop),
        WpToken::Hlt => Some(WpInstruction::Hlt),
        WpToken::Dbg => Some(WpInstruction::Dbg),
        WpToken::Clc => Some(WpInstruction::Clc),
        WpToken::Sec => Some(WpInstruction::Sec),
        WpToken::Flc => Some(WpInstruction::Flc),
        WpToken::Inc => Some(WpInstruction::Inc),
        WpToken::Dec => Some(WpInstruction::Dec),
        WpToken::Add => Some(WpInstruction::Add(1)),
        WpToken::AdS(s) => if spec_size_ok(s) { Some(WpInstruction::Add(s)) } else { None },
        WpToken::Adc => Some(WpInstruction::Adc(1)),
        WpToken::AcS(s) => if spec_size_ok(s) { Some(WpInstruction::Adc(s)) } else { None },
        WpToken::Sub => Some(WpInstruction::Sub(1)),
        WpToken::SuS(s) => if spec_size_ok(s) { Some(WpInstruction::Sub(s)) } else { None },
        WpToken::Sbc => Some(WpInstruction::Sbc(1)),
        WpToken::ScS(s) => if spec_size_ok(s) { Some(WpInstruction::Sbc(s)) } else { None },
        WpToken::Shf => Some(WpInstruction::Shf(1)),
        WpToken::ShS(s) => if spec_size_ok(s) { Some(WpInstruction::Shf(s)) } else { None },
        WpToken::Rot => Some(WpInstruction::Rot(1)),
        WpToken::RoS(s) => if spec_size_ok(s) { Some(WpInstruction::Rot(s)) } else { None },
        WpToken::Orr => Some(WpInstruction::Orr(1)),
        WpToken::OrS(s) => if spec_size_ok(s) { Some(WpInstruction::Orr(s)) } else { None },
        WpToken::And => Some(WpInstruction::And(1)),
        WpToken::AnS(s) => if spec_size_ok(s) { Some(WpInstruction::And(s)) } else { None },
        WpToken::Xor => Some(WpInstruction::Xor(1)),
        WpToken::XoS(s) => if spec_size_ok(s) { Some(WpInstruction::Xor(s)) } else { None },
        WpToken::Xnd => Some(WpInstruction::Xnd(1)),
        WpToken::XnS(s) => if spec_size_ok(s) { Some(WpInstruction::Xnd(s)) } else { None },
        WpToken::Not => Some(WpInstruction::Not),
        WpToken::Ntp => Some(WpInstruction::Ntp),
        WpToken::Buf => Some(WpInstruction::Buf),
        WpToken::Bfp => Some(WpInstruction::Bfp),
        WpToken::Iff => Some(WpInstruction::Iff(1)),
        WpToken::IfS(s) => if spec_size_ok(s) { Some(WpInstruction::Iff(s)) } else { None },
        WpToken::Swp => Some(WpInstruction::Swp),
        WpToken::Pop => Some(WpInstruction::Pop),
        WpToken::Lda => Some(WpInstruction::Lda),
        WpToken::Sta => Some(WpInstruction::Sta),
        WpToken::Ldi => Some(WpInstruction::Ldi),
        WpToken::Sti => Some(WpInstruction::Sti),
        WpToken::Lds => Some(WpInstruction::Lds),
        WpToken::Sts => Some(WpInstruction::Sts),
        WpToken::LdO(o) => if o <= 0x0F { Some(WpInstruction::Ldo(o)) } else { None },
        WpToken::StO(o) => if o <= 0x0F { Some(WpInstruction::Sto(o)) } else { None },
        WpToken::DDD(v) => Some(WpInstruction::Raw(v)),
        _ => None,
    }
}

fn size_ok(s: u8) -> (r: bool)
    ensures
        r == spec_size_ok(s),
{
    s == 1 || s == 2 || s == 4 || s == 8
}

/// The instruction of a token without a name or value.
fn plain_instruction(t: &WpToken) -> (r: Option<WpInstruction>)
    ensures
        r == spec_plain_instruction(*t),
{
    match t {
        WpToken::Nop => Some(WpInstruction::Nop),
        WpToken::Hlt => Some(WpInstruction::Hlt),
        WpToken::Dbg => Some(WpInstruction::Dbg),
        WpToken::Clc => Some(WpInstruction::Clc),
        WpToken::Sec => Some(WpInstruction::Sec),
        WpToken::Flc => Some(WpInstruction::Flc),
        WpToken::Inc => Some(WpInstruction::Inc),
        WpToken::Dec => Some(WpInstruction::Dec),
        WpToken::Add => Some(WpInstruction::Add(1)),
        WpToken::AdS(s) => if size_ok(*s) { Some(WpInstruction::Add(*s)) } else { None },
        WpToken::Adc => Some(WpInstruction::Adc(1)),
        WpToken::AcS(s) => if size_ok(*s) { Some(WpInstruction::Adc(*s)) } else { None },
        WpToken::Sub => Some(WpInstruction::Sub(1)),
        WpToken::SuS(s) => if size_ok(*s) { Some(WpInstruction::Sub(*s)) } else { None },
        WpToken::Sbc => Some(WpInstruction::Sbc(1)),
        WpToken::ScS(s) => if size_ok(*s) { Some(WpInstruction::Sbc(*s)) } else { None },
        WpToken::Shf => Some(WpInstruction::Shf(1)),
        WpToken::ShS(s) => if size_ok(*s) { Some(WpInstruction::Shf(*s)) } else { None },
        WpToken::Rot => Some(WpInstruction::Rot(1)),
        WpToken::RoS(s) => if size_ok(*s) { Some(WpInstruction::Rot(*s)) } else { None },
        WpToken::Orr => Some(WpInstruction::Orr(1)),
        WpToken::OrS(s) => if size_ok(*s) { Some(WpInstruction::Orr(*s)) } else { None },
        WpToken::And => Some(WpInstruction::And(1)),
        WpToken::AnS(s) => if size_ok(*s) { Some(WpInstruction::And(*s)) } else { None },
        WpToken::Xor => Some(WpInstruction::Xor(1)),
        WpToken::XoS(s) => if size_ok(*s) { Some(WpInstruction::Xor(*s)) } else { None },
        WpToken::Xnd => Some(WpInstruction::Xnd(1)),
        WpToken::XnS(s) => if size_ok(*s) { Some(WpInstruction::Xnd(*s)) } else { None },
        WpToken::Not => Some(WpInstruction::Not),
        WpToken::Ntp => Some(WpInstruction::Ntp),
        WpToken::Buf => Some(WpInstruction::Buf),
        WpToken::Bfp => Some(WpInstruction::Bfp),
        WpToken::Iff => Some(WpInstruction::Iff(1)),
        WpToken::IfS(s) => if size_ok(*s) { Some(WpInstruction::Iff(*s)) } else { None },
        WpToken::Swp => Some(WpInstruction::Swp),
        WpToken::Pop => Some(WpInstruction::Pop),
        WpToken::Lda => Some(WpInstruction::Lda),
        WpToken::Sta => Some(WpInstruction::Sta),
        WpToken::Ldi => Some(WpInstruction::Ldi),
        WpToken::Sti => Some(WpInstruction::Sti),
        WpToken::Lds => Some(WpInstruction::Lds),
        WpToken::Sts => Some(WpInstruction::Sts),
        WpToken::LdO(o) => if *o <= 0x0F { Some(WpInstruction::Ldo(*o)) } else { None },
        WpToken::StO(o) => if *o <= 0x0F { Some(WpInstruction::Sto(*o)) } else { None },
        WpToken::DDD(v) => Some(WpInstruction::Raw(*v)),
        _ => None,
    }
}

/// Whether an instruction's operand is one that the encoding accepts.
pub open spec fn spec_instruction_ok(i: WpInstruction) -> bool {
    match i {
        WpInstruction::Add(s) | WpInstruction::Adc(s) | WpInstruction::Sub(s) | WpInstruction::Sbc(s)
        | WpInstruction::Shf(s) | WpInstruction::Rot(s) | WpInstruction::Orr(s) | WpInstruction::And(s)
        | WpInstruction::Xor(s) | WpInstruction::Xnd(s) | WpInstruction::Iff(s) => spec_size_ok(s),
        WpInstruction::Psh(v) => v < 0x80,
        WpInstruction::Ldo(o) | WpInstruction::Sto(o) => o <= 0x0F,
        _ => true,
    }
}

/// Whether an instruction's operand is one that the encoding accepts.
pub fn instruction_ok(i: WpInstruction) -> (r: bool)
    ensures
        r == spec_instruction_ok(i),
{
    match i {
        WpInstruction::Add(s) | WpInstruction::Adc(s) | WpInstruction::Sub(s) | WpInstruction::Sbc(s)
        | WpInstruction::Shf(s) | WpInstruction::Rot(s) | WpInstruction::Orr(s) | WpInstruction::And(s)
        | WpInstruction::Xor(s) | WpInstruction::Xnd(s) | WpInstruction::Iff(s) => size_ok(s),
        WpInstruction::Psh(v) => v < 0x80,
        WpInstruction::Ldo(o) | WpInstruction::Sto(o) => o <= 0x0F,
        _ => true,
    }
}

/// The size field of an encoding, in bits 4 and 5.
pub open spec fn spec_size_bits(s: u8) -> u8 {
    if s == 1 { 0x00 } else if s == 2 { 0x10 } else if s == 4 { 0x20 } else { 0x30 }
}

/// The byte that encodes an instruction.
pub open spec fn spec_encode(i: WpInstruction) -> u8 {
    match i {
        WpInstruction::Nop => 0xA0,
        WpInstruction::Hlt => 0xAF,
        WpInstruction::Dbg => 0xAA,
        WpInstruction::Clc => 0xA1,
        WpInstruction::Sec => 0xA2,
        WpInstruction::Flc => 0xA3,
        WpInstruction::Inc => 0xC0,
        WpInstruction::Dec => 0xC1,
        WpInstruction::Add(s) => (0xC2 + spec_size_bits(s)) as u8,
        WpInstruction::Adc(s) => (0xC3 + spec_size_bits(s)) as u8,
        WpInstruction::Sub(s) => (0xC4 + spec_size_bits(s)) as u8,
        WpInstruction::Sbc(s) => (0xC5 + spec_size_bits(s)) as u8,
        WpInstruction::Shf(s) => (0xC6 + spec_size_bits(s)) as u8,
        WpInstruction::Rot(s) => (0xC7 + spec_size_bits(s)) as u8,
        WpInstruction::Orr(s) => (0xC8 + spec_size_bits(s)) as u8,
        WpInstruction::And(s) => (0xC9 + spec_size_bits(s)) as u8,
        WpInstruction::Xor(s) => (0xCA + spec_size_bits(s)) as u8,
        WpInstruction::Xnd(s) => (0xCB + spec_size_bits(s)) as u8,
        WpInstruction::Not => 0xCC,
        WpInstruction::Ntp => 0xDC,
        WpInstruction::Buf => 0xCD,
        WpInstruction::Bfp => 0xDD,
        WpInstruction::Iff(s) => (0xCE + spec_size_bits(s)) as u8,
        WpInstruction::Swp => 0xB0,
        WpInstruction::Pop => 0xB1,
        WpInstruction::Psh(v) => v,
        WpInstruction::Lda => 0xB8,
        WpInstruction::Sta => 0xB9,
        WpInstruction::Ldi => 0xBA,
        WpInstruction::Sti => 0xBB,
        WpInstruction::Lds => 0xBC,
        WpInstruction::Sts => 0xBD,
        WpInstruction::Ldo(o) => (0x80 + o) as u8,
        WpInstruction::Sto(o) => (0x90 + o) as u8,
        WpInstruction::Raw(v) => v,
    }
}

fn size_bits(s: u8) -> (r: u8)
    ensures
        r == spec_size_bits(s),
{
    if s == 1 { 0x00 } else if s == 2 { 0x10 } else if s == 4 { 0x20 } else { 0x30 }
}

/// The byte that encodes an instruction.
fn encode(i: WpInstruction) -> (b: u8)
    requires
        spec_instruction_ok(i),
    ensures
        b == spec_encode(i),
{
    match i {
        WpInstruction::Nop => 0xA0,
        WpInstruction::Hlt => 0xAF,
        WpInstruction::Dbg => 0xAA,
        WpInstruction::Clc => 0xA1,
        WpInstruction::Sec => 0xA2,
        WpInstruction::Flc => 0xA3,
        WpInstruction::Inc => 0xC0,
        WpInstruction::Dec => 0xC1,
        WpInstruction::Add(s) => 0xC2 + size_bits(s),
        WpInstruction::Adc(s) => 0xC3 + size_bits(s),
        WpInstruction::Sub(s) => 0xC4 + size_bits(s),
        WpInstruction::Sbc(s) => 0xC5 + size_bits(s),
        WpInstruction::Shf(s) => 0xC6 + size_bits(s),
        WpInstruction::Rot(s) => 0xC7 + size_bits(s),
        WpInstruction::Orr(s) => 0xC8 + size_bits(s),
        WpInstruction::And(s) => 0xC9 + size_bits(s),
        WpInstruction::Xor(s) => 0xCA + size_bits(s),
        WpInstruction::Xnd(s) => 0xCB + size_bits(s),
        WpInstruction::Not => 0xCC,
        WpInstruction::Ntp => 0xDC,
        WpInstruction::Buf => 0xCD,
        WpInstruction::Bfp => 0xDD,
        WpInstruction::Iff(s) => 0xCE + size_bits(s),
        WpInstruction::Swp => 0xB0,
        WpInstruction::Pop => 0xB1,
        WpInstruction::Psh(v) => v,
        WpInstruction::Lda => 0xB8,
        WpInstruction::Sta => 0xB9,
        WpInstruction::Ldi => 0xBA,
        WpInstruction::Sti => 0xBB,
        WpInstruction::Lds => 0xBC,
        WpInstruction::Sts => 0xBD,
        WpInstruction::Ldo(o) => 0x80 + o,
        WpInstruction::Sto(o) => 0x90 + o,
        WpInstruction::Raw(v) => v,
    }
}

/// Encodes instructions as bytes, one byte each: an operation with a size carries it in bits 4
/// and 5, a push its immediate, `ldo` and `sto` their offset, and a raw byte itself.
pub fn codegen(instructions: Vec<WpInstruction>) -> (r: Vec<u8>)
    requires
        forall|k: int| 0 <= k < instructions@.len() ==> spec_instruction_ok(#[trigger] instructions@[k]),
    ensures
        r@ == instructions@.map_values(|i: WpInstruction| spec_encode(i)),
{
    let mut r: Vec<u8> = Vec::new();
    let mut k: usize = 0;
    while k < instructions.len()
        invariant
            k <= instructions@.len(),
            forall|j: int| 0 <= j < instructions@.len() ==> spec_instruction_ok(#[trigger] instructions@[j]),
            r@ == instructions@.subrange(0, k as int).map_values(|i: WpInstruction| spec_encode(i)),
        decreases instructions.len() - k,
    {
        r.push(encode(instructions[k]));
        k = k + 1;
        assert(r@ =~= instructions@.subrange(0, k as int).map_values(|i: WpInstruction| spec_encode(i)));
    }
    assert(instructions@.subrange(0, k as int) =~= instructions@);
    r
}


/// Macro definitions: each name once, in order of first definition, with its body.
pub open spec fn spec_macro_index(defs: Seq<(Seq<char>, Seq<WpTokenView>)>, name: Seq<char>) -> Option<int>
    decreases defs.len(),
{
    if defs.len() == 0 {
        None
    } else if defs.last().0 == name {
        Some(defs.len() - 1)
    } else {
        spec_macro_index(defs.drop_last(), name)
    }
}

proof fn lemma_macro_index(defs: Seq<(Seq<char>, Seq<WpTokenView>)>, name: Seq<char>)
    ensures
        spec_macro_index(defs, name) matches Some(i) ==> 0 <= i < defs.len() && defs[i].0 == name,
    decreases defs.len(),
{
    if defs.len() > 0 && defs.last().0 != name {
        lemma_macro_index(defs.drop_last(), name);
    }
}

/// Collecting macros from the first tokens: the current macro's name and the definitions. A
/// macro definition makes its name current (defining it, empty, where it is new); any other
/// token goes to the end of the current macro, and a token before any macro has none to go to.
pub open spec fn spec_collect(tokens: Seq<WpTokenView>) -> Option<(Seq<char>, Seq<(Seq<char>, Seq<WpTokenView>)>)>
    decreases tokens.len(),
{
    if tokens.len() == 0 {
        Some((Seq::empty(), Seq::empty()))
    } else {
        match spec_collect(tokens.drop_last()) {
            None => None,
            Some((cur, defs)) => match tokens.last() {
                WpTokenView::MacroDef(n) => Some((n, if spec_macro_index(defs, n) is Some { defs } else { defs.push((n, Seq::empty())) })),
                t => match spec_macro_index(defs, cur) {
                    Some(i) => Some((cur, defs.update(i, (defs[i].0, defs[i].1.push(t))))),
                    None => None,
                },
            },
        }
    }
}

/// The definitions collected from tokens, where collecting succeeds.
pub open spec fn spec_collected(tokens: Seq<WpTokenView>) -> Seq<(Seq<char>, Seq<WpTokenView>)> {
    match spec_collect(tokens) {
        Some((_, d)) => d,
        None => Seq::empty(),
    }
}

/// The expansion of tokens with at most `fuel` nested macros: every macro reference replaced
/// by the expansion of its body; nothing where a macro is undefined or nested deeper.
pub open spec fn spec_expand(defs: Seq<(Seq<char>, Seq<WpTokenView>)>, tokens: Seq<WpTokenView>, fuel: nat) -> Option<Seq<WpTokenView>>
    decreases fuel, tokens.len(),
{
    if tokens.len() == 0 {
        Some(Seq::empty())
    } else {
        let first = match tokens[0] {
            WpTokenView::MacroRef(n) => if fuel == 0 {
                None
            } else {
                match spec_macro_index(defs, n) {
                    Some(i) => spec_expand(defs, defs[i].1, (fuel - 1) as nat),
                    None => None,
                }
            },
            t => Some(seq![t]),
        };
        match (first, spec_expand(defs, tokens.drop_first(), fuel)) {
            (Some(a), Some(b)) => Some(a + b),
            _ => None,
        }
    }
}

/// The views of macro definitions.
pub open spec fn spec_defs_view(names: Seq<String>, bodies: Seq<Vec<WpToken>>) -> Seq<(Seq<char>, Seq<WpTokenView>)> {
    Seq::new(names.len(), |i: int| (names[i]@, spec_token_views(bodies[i]@)))
}

/// Collecting fails on every extension of tokens on which it fails.
proof fn lemma_collect_fails_on(tokens: Seq<WpTokenView>, k: int)
    requires
        0 <= k <= tokens.len(),
        spec_collect(tokens.subrange(0, k)) is None,
    ensures
        spec_collect(tokens) is None,
    decreases tokens.len(),
{
    if k == tokens.len() {
        assert(tokens.subrange(0, k) =~= tokens);
    } else {
        assert(tokens.drop_last().subrange(0, k) =~= tokens.subrange(0, k));
        lemma_collect_fails_on(tokens.drop_last(), k);
    }
}

/// A copy of a token.
fn copy_token(t: &WpToken) -> (r: WpToken)
    ensures
        r@ == t@,
{
    match t {
        WpToken::LabelDef(l) => WpToken::LabelDef(l.clone()),
        WpToken::LabelRef(l) => WpToken::LabelRef(l.clone()),
        WpToken::MacroDef(m) => WpToken::MacroDef(m.clone()),
        WpToken::MacroRef(m) => WpToken::MacroRef(m.clone()),
        WpToken::Nop => WpToken::Nop,
        WpToken::Hlt => WpToken::Hlt,
        WpToken::Dbg => WpToken::Dbg,
        WpToken::Clc => WpToken::Clc,
        WpToken::Sec => WpToken::Sec,
        WpToken::Flc => WpToken::Flc,
        WpToken::Inc => WpToken::Inc,
        WpToken::Dec => WpToken::Dec,
        WpToken::Add => WpToken::Add,
        WpToken::AdS(s) => WpToken::AdS(*s),
        WpToken::Adc => WpToken::Adc,
        WpToken::AcS(s) => WpToken::AcS(*s),
        WpToken::Sub => WpToken::Sub,
        WpToken::SuS(s) => WpToken::SuS(*s),
        WpToken::Sbc => WpToken::Sbc,
        WpToken::ScS(s) => WpToken::ScS(*s),
        WpToken::Shf => WpToken::Shf,
        WpToken::ShS(s) => WpToken::ShS(*s),
        WpToken::Rot => WpToken::Rot,
        WpToken::RoS(s) => WpToken::RoS(*s),
        WpToken::Orr => WpToken::Orr,
        WpToken::OrS(s) => WpToken::OrS(*s),
        WpToken::And => WpToken::And,
        WpToken::AnS(s) => WpToken::AnS(*s),
        WpToken::Xor => WpToken::Xor,
        WpToken::XoS(s) => WpToken::XoS(*s),
        WpToken::Xnd => WpToken::Xnd,
        WpToken::XnS(s) => WpToken::XnS(*s),
        WpToken::Not => WpToken::Not,
        WpToken::Ntp => WpToken::Ntp,
        WpToken::Buf => WpToken::Buf,
        WpToken::Bfp => WpToken::Bfp,
        WpToken::Iff => WpToken::Iff,
        WpToken::IfS(s) => WpToken::IfS(*s),
        WpToken::Swp => WpToken::Swp,
        WpToken::Pop => WpToken::Pop,
        WpToken::XXX(v) => WpToken::XXX(*v),
        WpToken::Lda => WpToken::Lda,
        WpToken::Sta => WpToken::Sta,
        WpToken::Ldi => WpToken::Ldi,
        WpToken::Sti => WpToken::Sti,
        WpToken::Lds => WpToken::Lds,
        WpToken::Sts => WpToken::Sts,
        WpToken::LdO(o) => WpToken::LdO(*o),
        WpToken::StO(o) => WpToken::StO(*o),
        WpToken::DDD(v) => WpToken::DDD(*v),
    }
}

/// The index of the macro named `name`.
fn macro_index(names: &Vec<String>, Ghost(bodies): Ghost<Seq<Vec<WpToken>>>, name: &String) -> (r: Option<usize>)
    requires
        bodies.len() == names@.len(),
    ensures
        r matches Some(i) ==> spec_macro_index(spec_defs_view(names@, bodies), name@) == Some(i as int),
        r is None ==> spec_macro_index(spec_defs_view(names@, bodies), name@) is None,
{
    let mut j: usize = names.len();
    assert(names@.subrange(0, j as int) =~= names@);
    assert(bodies.subrange(0, j as int) =~= bodies);
    while j > 0
        invariant
            j <= names@.len(),
            bodies.len() == names@.len(),
            spec_macro_index(spec_defs_view(names@, bodies), name@) == spec_macro_index(spec_defs_view(names@.subrange(0, j as int), bodies.subrange(0, j as int)), name@),
        decreases j,
    {
        let ghost d = spec_defs_view(names@.subrange(0, j as int), bodies.subrange(0, j as int));
        assert(d.drop_last() =~= spec_defs_view(names@.subrange(0, j - 1), bodies.subrange(0, j - 1)));
        if names[j - 1] == *name {
            return Some(j - 1);
        }
        j = j - 1;
    }
    None
}

/// Collects macro definitions: names, and bodies in the same order.
fn collect(tokens: &Vec<WpToken>) -> (r: Option<(Vec<String>, Vec<Vec<WpToken>>)>)
    ensures
        r matches Some((names, bodies)) ==> (names@.len() == bodies@.len() && spec_collected(spec_token_views(tokens@)) == spec_defs_view(names@, bodies@)),
        r is None <==> spec_collect(spec_token_views(tokens@)) is None,
{
    let mut cur: String = String::new();
    let mut names: Vec<String> = Vec::new();
    let mut bodies: Vec<Vec<WpToken>> = Vec::new();
    let mut k: usize = 0;
    assert(spec_token_views(tokens@.subrange(0, 0)) =~= Seq::<WpTokenView>::empty());
    assert(spec_defs_view(names@, bodies@) =~= Seq::<(Seq<char>, Seq<WpTokenView>)>::empty());
    while k < tokens.len()
        invariant
            k <= tokens@.len(),
            names@.len() == bodies@.len(),
            spec_collect(spec_token_views(tokens@.subrange(0, k as int))) == Some((cur@, spec_defs_view(names@, bodies@))),
        decreases tokens.len() - k,
    {
        let ghost prefix = spec_token_views(tokens@.subrange(0, k + 1));
        assert(prefix.drop_last() =~= spec_token_views(tokens@.subrange(0, k as int)));
        assert(prefix.last() == tokens@[k as int]@);
        let ghost before = spec_defs_view(names@, bodies@);
        match &tokens[k] {
            WpToken::MacroDef(n) => {
                match macro_index(&names, Ghost(bodies@), n) {
                    Some(_) => {},
                    None => {
                        names.push(n.clone());
                        bodies.push(Vec::new());
                        assert(spec_token_views(Seq::<WpToken>::empty()) =~= Seq::<WpTokenView>::empty());
                        assert(spec_defs_view(names@, bodies@) =~= before.push((n@, Seq::empty())));
                    },
                }
                cur = n.clone();
            },
            t => {
                match macro_index(&names, Ghost(bodies@), &cur) {
                    Some(i) => {
                        proof {
                            lemma_macro_index(before, cur@);
                        }
                        let c = copy_token(t);
                        let ghost b0 = bodies@[i as int]@;
                        bodies[i].push(c);
                        assert(spec_token_views(bodies@[i as int]@) =~= spec_token_views(b0).push(tokens@[k as int]@));
                        assert(spec_defs_view(names@, bodies@) =~= before.update(i as int, (before[i as int].0, before[i as int].1.push(tokens@[k as int]@))));
                    },
                    None => {
                        proof {
                            assert(spec_token_views(tokens@).subrange(0, k + 1) =~= prefix);
                            lemma_collect_fails_on(spec_token_views(tokens@), k + 1);
                        }
                        return None;
                    },
                }
            },
        }
        k = k + 1;
    }
    assert(tokens@.subrange(0, k as int) =~= tokens@);
    Some((names, bodies))
}


proof fn lemma_token_views_add(a: Seq<WpToken>, b: Seq<WpToken>)
    ensures
        spec_token_views(a + b) == spec_token_views(a) + spec_token_views(b),
{
    assert(spec_token_views(a + b) =~= spec_token_views(a) + spec_token_views(b));
}

/// Expands macro references in `tokens` with at most `fuel` nested macros; nothing where the
/// expansion fails.
fn expand(names: &Vec<String>, bodies: &Vec<Vec<WpToken>>, tokens: &Vec<WpToken>, fuel: usize) -> (r: Option<Vec<WpToken>>)
    requires
        names@.len() == bodies@.len(),
    ensures
        r matches Some(v) ==> spec_expand(spec_defs_view(names@, bodies@), spec_token_views(tokens@), fuel as nat) == Some(spec_token_views(v@)),
        r is None ==> spec_expand(spec_defs_view(names@, bodies@), spec_token_views(tokens@), fuel as nat) is None,
    decreases fuel,
{
    let ghost defs = spec_defs_view(names@, bodies@);
    let ghost whole = spec_expand(defs, spec_token_views(tokens@), fuel as nat);
    let mut out: Vec<WpToken> = Vec::new();
    let mut k: usize = 0;
    assert(spec_token_views(out@) =~= Seq::<WpTokenView>::empty());
    assert(tokens@.subrange(0, tokens@.len() as int) =~= tokens@);
    proof {
        match spec_expand(defs, spec_token_views(tokens@), fuel as nat) {
            Some(rest) => {
                assert(Seq::<WpTokenView>::empty() + rest =~= rest);
            },
            None => {},
        }
    }
    while k < tokens.len()
        invariant
            k <= tokens@.len(),
            names@.len() == bodies@.len(),
            defs == spec_defs_view(names@, bodies@),
            whole == spec_expand(defs, spec_token_views(tokens@), fuel as nat),
            whole == match spec_expand(defs, spec_token_views(tokens@.subrange(k as int, tokens@.len() as int)), fuel as nat) {
                Some(rest) => Some(spec_token_views(out@) + rest),
                None => None,
            },
        decreases tokens.len() - k,
    {
        let ghost tail = spec_token_views(tokens@.subrange(k as int, tokens@.len() as int));
        let ghost next = spec_token_views(tokens@.subrange(k + 1, tokens@.len() as int));
        let ghost before = spec_token_views(out@);
        assert(tail.drop_first() =~= next);
        assert(tail[0] == tokens@[k as int]@);
        let ghost rest_next = spec_expand(defs, next, fuel as nat);
        match &tokens[k] {
            WpToken::MacroRef(n) => {
                if fuel == 0 {
                    return None;
                }
                let i = match macro_index(names, Ghost(bodies@), n) {
                    Some(i) => i,
                    None => {
                        return None;
                    },
                };
                proof {
                    lemma_macro_index(defs, n@);
                }
                assert(defs[i as int].1 == spec_token_views(bodies@[i as int]@));
                let w = match expand(names, bodies, &bodies[i], fuel - 1) {
                    Some(w) => w,
                    None => {
                        return None;
                    },
                };
                let ghost wv = spec_token_views(w@);
                let ghost ws = w@;
                let mut w = w;
                let ghost oldout = out@;
                out.append(&mut w);
                proof {
                    lemma_token_views_add(oldout, ws);
                    match rest_next {
                        Some(rn) => {
                            assert(before + (wv + rn) == (before + wv) + rn);
                        },
                        None => {},
                    }
                }
                assert(spec_token_views(out@) == before + wv);
            },
            t => {
                let c = copy_token(t);
                out.push(c);
                assert(spec_token_views(out@) =~= before.push(c@));
                proof {
                    match rest_next {
                        Some(rn) => {
                            assert(before + (seq![c@] + rn) == before.push(c@) + rn);
                        },
                        None => {},
                    }
                }
            },
        }
        k = k + 1;
    }
    assert(spec_token_views(tokens@.subrange(k as int, tokens@.len() as int)) =~= Seq::<WpTokenView>::empty());
    assert(spec_token_views(out@) + Seq::<WpTokenView>::empty() == spec_token_views(out@));
    Some(out)
}

/// The roots of tokens, one for one; nothing where a token has no root.
pub open spec fn spec_roots(tokens: Seq<WpTokenView>) -> Option<Seq<WpRootView>>
    decreases tokens.len(),
{
    if tokens.len() == 0 {
        Some(Seq::empty())
    } else {
        match (spec_roots(tokens.drop_last()), spec_token_root(tokens.last())) {
            (Some(rs), Some(r)) => Some(rs.push(r)),
            _ => None,
        }
    }
}

/// The roots of tokens; nothing where a token has none.
fn to_roots(tokens: &Vec<WpToken>) -> (r: Option<Vec<WpRoot>>)
    ensures
        r matches Some(v) ==> spec_roots(spec_token_views(tokens@)) == Some(spec_root_views(v@)),
        r is None ==> spec_roots(spec_token_views(tokens@)) is None,
{
    let mut out: Vec<WpRoot> = Vec::new();
    let mut k: usize = 0;
    assert(spec_root_views(out@) =~= Seq::<WpRootView>::empty());
    assert(spec_token_views(tokens@.subrange(0, 0)) =~= Seq::<WpTokenView>::empty());
    while k < tokens.len()
        invariant
            k <= tokens@.len(),
            Some(spec_root_views(out@)) == spec_roots(spec_token_views(tokens@.subrange(0, k as int))),
        decreases tokens.len() - k,
    {
        let ghost prefix = spec_token_views(tokens@.subrange(0, k + 1));
        assert(prefix.drop_last() =~= spec_token_views(tokens@.subrange(0, k as int)));
        assert(prefix.last() == tokens@[k as int]@);
        let ghost before = spec_root_views(out@);
        let root = match &tokens[k] {
            WpToken::LabelDef(l) => WpRoot::LabelDef(l.clone()),
            WpToken::LabelRef(l) => WpRoot::Node(WpNode::LabelRef(l.clone())),
            WpToken::XXX(v) => WpRoot::Node(WpNode::Immediate(*v)),
            t => match plain_instruction(t) {
                Some(i) => WpRoot::Instruction(i),
                None => {
                    proof {
                        assert(spec_token_views(tokens@).subrange(0, k + 1) =~= prefix);
                        lemma_roots_fail_on(spec_token_views(tokens@), k + 1);
                    }
                    return None;
                },
            },
        };
        out.push(root);
        assert(spec_root_views(out@) =~= before.push(root@));
        k = k + 1;
    }
    assert(tokens@.subrange(0, k as int) =~= tokens@);
    Some(out)
}

/// Roots fail on every extension of tokens on which they fail.
proof fn lemma_roots_fail_on(tokens: Seq<WpTokenView>, k: int)
    requires
        0 <= k <= tokens.len(),
        spec_roots(tokens.subrange(0, k)) is None,
    ensures
        spec_roots(tokens) is None,
    decreases tokens.len(),
{
    if k == tokens.len() {
        assert(tokens.subrange(0, k) =~= tokens);
    } else {
        assert(tokens.drop_last().subrange(0, k) =~= tokens.subrange(0, k));
        lemma_roots_fail_on(tokens.drop_last(), k);
    }
}

/// The width of the window that a pass of rewriting looks at: one for removing `nop`s, two for
/// folding a unary operation into a node, three for folding a binary operation, and two and
/// three for the final passes that turn repeated nodes into `ldo`s.
pub open spec fn spec_width(pass: int) -> int {
    if pass == 1 { 1 } else if pass == 2 || pass == 4 { 2 } else { 3 }
}

/// The node root of a view.
pub open spec fn spec_node_root(n: WpNodeView) -> WpRootView {
    WpRootView::Node(n)
}

/// What a pass of rewriting replaces a window with, where it does.
pub open spec fn spec_rule(pass: int, w: Seq<WpRootView>) -> Option<Seq<WpRootView>> {
    if pass == 1 {
        if w[0] == WpRootView::Instruction(WpInstruction::Nop) { Some(Seq::empty()) } else { None }
    } else if pass == 2 {
        match (w[0], w[1]) {
            (WpRootView::Node(n), WpRootView::Instruction(i)) => match i {
                WpInstruction::Inc => Some(seq![spec_node_root(WpNodeView::Add(Box::new(n), Box::new(WpNodeView::Immediate(1))))]),
                WpInstruction::Dec => Some(seq![spec_node_root(WpNodeView::Sub(Box::new(n), Box::new(WpNodeView::Immediate(1))))]),
                WpInstruction::Not => Some(seq![spec_node_root(WpNodeView::Not(Box::new(n)))]),
                WpInstruction::Ntp => Some(seq![spec_node_root(WpNodeView::Not(Box::new(WpNodeView::Not(Box::new(n)))))]),
                WpInstruction::Buf | WpInstruction::Bfp => Some(seq![spec_node_root(n)]),
                WpInstruction::Ldo(o) => if o == 0 { Some(seq![spec_node_root(n), spec_node_root(n)]) } else { None },
                WpInstruction::Pop => Some(Seq::empty()),
                _ => None,
            },
            _ => None,
        }
    } else if pass == 3 {
        match (w[0], w[1], w[2]) {
            (WpRootView::Node(n1), WpRootView::Node(n2), WpRootView::Instruction(i)) => match i {
                WpInstruction::Add(s) | WpInstruction::Adc(s) => if s == 1 { Some(seq![spec_node_root(WpNodeView::Add(Box::new(n2), Box::new(n1)))]) } else { None },
                WpInstruction::Sub(s) | WpInstruction::Sbc(s) => if s == 1 { Some(seq![spec_node_root(WpNodeView::Sub(Box::new(n2), Box::new(n1)))]) } else { None },
                WpInstruction::Shf(s) => if s == 1 { Some(seq![spec_node_root(WpNodeView::Shf(Box::new(n2), Box::new(n1)))]) } else { None },
                WpInstruction::Rot(s) => if s == 1 { Some(seq![spec_node_root(WpNodeView::Rot(Box::new(n2), Box::new(n1)))]) } else { None },
                WpInstruction::Orr(s) => if s == 1 { Some(seq![spec_node_root(WpNodeView::Orr(Box::new(n2), Box::new(n1)))]) } else { None },
                WpInstruction::And(s) => if s == 1 { Some(seq![spec_node_root(WpNodeView::And(Box::new(n2), Box::new(n1)))]) } else { None },
                WpInstruction::Xor(s) => if s == 1 { Some(seq![spec_node_root(WpNodeView::Xor(Box::new(n2), Box::new(n1)))]) } else { None },
                WpInstruction::Xnd(s) => if s == 1 { Some(seq![spec_node_root(WpNodeView::Xnd(Box::new(n2), Box::new(n1)))]) } else { None },
                WpInstruction::Swp => Some(seq![spec_node_root(n2), spec_node_root(n1)]),
                WpInstruction::Ldo(o) => if o == 1 { Some(seq![spec_node_root(n1), spec_node_root(n2), spec_node_root(n1)]) } else { None },
                _ => None,
            },
            _ => None,
        }
    } else if pass == 4 {
        match (w[0], w[1]) {
            (WpRootView::Node(n1), WpRootView::Node(n2)) => if n1 == n2 {
                Some(seq![spec_node_root(n1), WpRootView::Instruction(WpInstruction::Ldo(0))])
            } else {
                None
            },
            _ => None,
        }
    } else {
        match (w[0], w[1], w[2]) {
            (WpRootView::Node(n1), WpRootView::Node(n2), WpRootView::Node(n3)) => if n1 == n3 {
                Some(seq![spec_node_root(n1), spec_node_root(n2), WpRootView::Instruction(WpInstruction::Ldo(1))])
            } else {
                None
            },
            _ => None,
        }
    }
}

/// One pass of rewriting over roots, from the front: a window that a rule replaces is replaced
/// and the pass goes on after it; otherwise the first root stays and the pass goes on from the
/// next; fewer roots than the window stay as they are.
pub open spec fn spec_rewrite(pass: int, s: Seq<WpRootView>) -> Seq<WpRootView>
    decreases s.len(),
{
    if s.len() < spec_width(pass) || s.len() == 0 {
        s
    } else {
        match spec_rule(pass, s.subrange(0, spec_width(pass))) {
            Some(rep) => rep + spec_rewrite(pass, s.subrange(spec_width(pass), s.len() as int)),
            None => seq![s[0]] + spec_rewrite(pass, s.drop_first()),
        }
    }
}

/// A pass over roots; nothing where there are fewer roots than the window less one, where the
/// pass would compute the end of its windows below zero.
pub open spec fn spec_pass(pass: int, s: Seq<WpRootView>) -> Option<Seq<WpRootView>> {
    if s.len() + 1 < spec_width(pass) { None } else { Some(spec_rewrite(pass, s)) }
}

/// The number of instructions among roots.
pub open spec fn spec_instruction_count(s: Seq<WpRootView>) -> nat
    decreases s.len(),
{
    if s.len() == 0 {
        0
    } else {
        (if s[0] is Instruction { 1nat } else { 0nat }) + spec_instruction_count(s.drop_first())
    }
}

proof fn lemma_count_add(a: Seq<WpRootView>, b: Seq<WpRootView>)
    ensures
        spec_instruction_count(a + b) == spec_instruction_count(a) + spec_instruction_count(b),
    decreases a.len(),
{
    if a.len() > 0 {
        assert((a + b).drop_first() =~= a.drop_first() + b);
        lemma_count_add(a.drop_first(), b);
    } else {
        assert(a + b =~= b);
    }
}

/// Each rule of the folding passes removes an instruction and adds none.
proof fn lemma_rule_removes_instruction(pass: int, w: Seq<WpRootView>)
    requires
        1 <= pass <= 3,
        w.len() == spec_width(pass),
    ensures
        spec_rule(pass, w) matches Some(rep) ==> spec_instruction_count(rep) < spec_instruction_count(w),
{
    reveal_with_fuel(spec_instruction_count, 4);
}

/// A folding pass never adds instructions, and removes one wherever it changes anything.
proof fn lemma_rewrite_count(pass: int, s: Seq<WpRootView>)
    requires
        1 <= pass <= 3,
    ensures
        spec_instruction_count(spec_rewrite(pass, s)) <= spec_instruction_count(s),
        spec_rewrite(pass, s) != s ==> spec_instruction_count(spec_rewrite(pass, s)) < spec_instruction_count(s),
    decreases s.len(),
{
    let n = spec_width(pass);
    if s.len() < n || s.len() == 0 {
    } else {
        let w = s.subrange(0, n);
        let rest = s.subrange(n, s.len() as int);
        assert(s =~= w + rest);
        lemma_count_add(w, rest);
        match spec_rule(pass, w) {
            Some(rep) => {
                lemma_rule_removes_instruction(pass, w);
                lemma_rewrite_count(pass, rest);
                lemma_count_add(rep, spec_rewrite(pass, rest));
            },
            None => {
                lemma_rewrite_count(pass, s.drop_first());
                lemma_count_add(seq![s[0]], spec_rewrite(pass, s.drop_first()));
                lemma_count_add(seq![s[0]], s.drop_first());
                assert(seq![s[0]] + s.drop_first() =~= s);
            },
        }
    }
}


/// One round of folding: the three folding passes in turn.
pub open spec fn spec_round(s: Seq<WpRootView>) -> Option<Seq<WpRootView>> {
    match spec_pass(1, s) {
        None => None,
        Some(s1) => match spec_pass(2, s1) {
            None => None,
            Some(s2) => spec_pass(3, s2),
        },
    }
}

/// A round leaves roots as they are or removes instructions.
pub proof fn lemma_round_count(s: Seq<WpRootView>)
    ensures
        spec_round(s) matches Some(r) ==> (r == s || spec_instruction_count(r) < spec_instruction_count(s)),
{
    lemma_rewrite_count(1, s);
    let s1 = spec_rewrite(1, s);
    lemma_rewrite_count(2, s1);
    let s2 = spec_rewrite(2, s1);
    lemma_rewrite_count(3, s2);
}

/// Folding until a round changes nothing; every round that changes something removes an
/// instruction, so this ends.
pub open spec fn spec_fold(s: Seq<WpRootView>) -> Option<Seq<WpRootView>>
    decreases spec_instruction_count(s),
{
    match spec_round(s) {
        None => None,
        Some(r) => if r == s {
            Some(s)
        } else {
            proof {
                lemma_round_count(s);
            }
            spec_fold(r)
        },
    }
}

/// A copy of a node.
fn copy_node(n: &WpNode) -> (r: WpNode)
    ensures
        r@ == n@,
    decreases n,
{
    match n {
        WpNode::NextAddress => WpNode::NextAddress,
        WpNode::LabelRef(l) => WpNode::LabelRef(l.clone()),
        WpNode::Immediate(v) => WpNode::Immediate(*v),
        WpNode::Not(a) => WpNode::Not(Box::new(copy_node(a))),
        WpNode::Add(a, b) => WpNode::Add(Box::new(copy_node(a)), Box::new(copy_node(b))),
        WpNode::Sub(a, b) => WpNode::Sub(Box::new(copy_node(a)), Box::new(copy_node(b))),
        WpNode::Shf(a, b) => WpNode::Shf(Box::new(copy_node(a)), Box::new(copy_node(b))),
        WpNode::Rot(a, b) => WpNode::Rot(Box::new(copy_node(a)), Box::new(copy_node(b))),
        WpNode::Orr(a, b) => WpNode::Orr(Box::new(copy_node(a)), Box::new(copy_node(b))),
        WpNode::And(a, b) => WpNode::And(Box::new(copy_node(a)), Box::new(copy_node(b))),
        WpNode::Xor(a, b) => WpNode::Xor(Box::new(copy_node(a)), Box::new(copy_node(b))),
        WpNode::Xnd(a, b) => WpNode::Xnd(Box::new(copy_node(a)), Box::new(copy_node(b))),
    }
}

/// A copy of a root.
fn copy_root(r: &WpRoot) -> (c: WpRoot)
    ensures
        c@ == r@,
{
    match r {
        WpRoot::Instruction(i) => WpRoot::Instruction(*i),
        WpRoot::Node(n) => WpRoot::Node(copy_node(n)),
        WpRoot::LabelDef(l) => WpRoot::LabelDef(l.clone()),
    }
}

/// Whether two nodes are the same.
fn same_node(a: &WpNode, b: &WpNode) -> (r: bool)
    ensures
        r == (a@ == b@),
    decreases a,
{
    match (a, b) {
        (WpNode::NextAddress, WpNode::NextAddress) => true,
        (WpNode::LabelRef(x), WpNode::LabelRef(y)) => *x == *y,
        (WpNode::Immediate(x), WpNode::Immediate(y)) => *x == *y,
        (WpNode::Not(x), WpNode::Not(y)) => same_node(x, y),
        (WpNode::Add(x1, x2), WpNode::Add(y1, y2)) => same_node(x1, y1) && same_node(x2, y2),
        (WpNode::Sub(x1, x2), WpNode::Sub(y1, y2)) => same_node(x1, y1) && same_node(x2, y2),
        (WpNode::Shf(x1, x2), WpNode::Shf(y1, y2)) => same_node(x1, y1) && same_node(x2, y2),
        (WpNode::Rot(x1, x2), WpNode::Rot(y1, y2)) => same_node(x1, y1) && same_node(x2, y2),
        (WpNode::Orr(x1, x2), WpNode::Orr(y1, y2)) => same_node(x1, y1) && same_node(x2, y2),
        (WpNode::And(x1, x2), WpNode::And(y1, y2)) => same_node(x1, y1) && same_node(x2, y2),
        (WpNode::Xor(x1, x2), WpNode::Xor(y1, y2)) => same_node(x1, y1) && same_node(x2, y2),
        (WpNode::Xnd(x1, x2), WpNode::Xnd(y1, y2)) => same_node(x1, y1) && same_node(x2, y2),
        _ => false,
    }
}

fn node_root(n: WpNode) -> (r: WpRoot)
    ensures
        r@ == spec_node_root(n@),
{
    WpRoot::Node(n)
}

fn one(r: WpRoot) -> (v: Vec<WpRoot>)
    ensures
        spec_root_views(v@) == seq![r@],
{
    let v = vec![r];
    assert(spec_root_views(v@) =~= seq![r@]);
    v
}

fn two(r1: WpRoot, r2: WpRoot) -> (v: Vec<WpRoot>)
    ensures
        spec_root_views(v@) == seq![r1@, r2@],
{
    let v = vec![r1, r2];
    assert(spec_root_views(v@) =~= seq![r1@, r2@]);
    v
}

fn three(r1: WpRoot, r2: WpRoot, r3: WpRoot) -> (v: Vec<WpRoot>)
    ensures
        spec_root_views(v@) == seq![r1@, r2@, r3@],
{
    let v = vec![r1, r2, r3];
    assert(spec_root_views(v@) =~= seq![r1@, r2@, r3@]);
    v
}

fn empty_roots() -> (v: Vec<WpRoot>)
    ensures
        spec_root_views(v@) == Seq::<WpRootView>::empty(),
{
    let v: Vec<WpRoot> = Vec::new();
    assert(spec_root_views(v@) =~= Seq::<WpRootView>::empty());
    v
}

fn immediate(v: u8) -> (n: WpNode)
    ensures
        n@ == WpNodeView::Immediate(v),
{
    WpNode::Immediate(v)
}

fn not_node(a: WpNode) -> (n: WpNode)
    ensures
        n@ == WpNodeView::Not(Box::new(a@)),
{
    WpNode::Not(Box::new(a))
}

fn binary_node(k: u8, a: WpNode, b: WpNode) -> (n: WpNode)
    ensures
        k == 0 ==> n@ == WpNodeView::Add(Box::new(a@), Box::new(b@)),
        k == 1 ==> n@ == WpNodeView::Sub(Box::new(a@), Box::new(b@)),
        k == 2 ==> n@ == WpNodeView::Shf(Box::new(a@), Box::new(b@)),
        k == 3 ==> n@ == WpNodeView::Rot(Box::new(a@), Box::new(b@)),
        k == 4 ==> n@ == WpNodeView::Orr(Box::new(a@), Box::new(b@)),
        k == 5 ==> n@ == WpNodeView::And(Box::new(a@), Box::new(b@)),
        k == 6 ==> n@ == WpNodeView::Xor(Box::new(a@), Box::new(b@)),
        k >= 7 ==> n@ == WpNodeView::Xnd(Box::new(a@), Box::new(b@)),
{
    if k == 0 {
        WpNode::Add(Box::new(a), Box::new(b))
    } else if k == 1 {
        WpNode::Sub(Box::new(a), Box::new(b))
    } else if k == 2 {
        WpNode::Shf(Box::new(a), Box::new(b))
    } else if k == 3 {
        WpNode::Rot(Box::new(a), Box::new(b))
    } else if k == 4 {
        WpNode::Orr(Box::new(a), Box::new(b))
    } else if k == 5 {
        WpNode::And(Box::new(a), Box::new(b))
    } else if k == 6 {
        WpNode::Xor(Box::new(a), Box::new(b))
    } else {
        WpNode::Xnd(Box::new(a), Box::new(b))
    }
}

/// The rule of pass 1 at the window of roots starting at `i`.
fn rule1(roots: &Vec<WpRoot>, i: usize) -> (r: Option<Vec<WpRoot>>)
    requires
        i + spec_width(1) <= roots@.len(),
    ensures
        r matches Some(v) ==> spec_rule(1, spec_root_views(roots@).subrange(i as int, i + spec_width(1))) == Some(spec_root_views(v@)),
        r is None ==> spec_rule(1, spec_root_views(roots@).subrange(i as int, i + spec_width(1))) is None,
{
    let ghost w = spec_root_views(roots@).subrange(i as int, i + spec_width(1));
    let len = roots.len();
    assert(w[0] == roots@[i as int]@);
    match &roots[i] {
        WpRoot::Instruction(WpInstruction::Nop) => Some(empty_roots()),
        _ => None,
    }
}

/// The rule of pass 2 at the window of roots starting at `i`.
fn rule2(roots: &Vec<WpRoot>, i: usize) -> (r: Option<Vec<WpRoot>>)
    requires
        i + spec_width(2) <= roots@.len(),
    ensures
        r matches Some(v) ==> spec_rule(2, spec_root_views(roots@).subrange(i as int, i + spec_width(2))) == Some(spec_root_views(v@)),
        r is None ==> spec_rule(2, spec_root_views(roots@).subrange(i as int, i + spec_width(2))) is None,
{
    let ghost w = spec_root_views(roots@).subrange(i as int, i + spec_width(2));
    let len = roots.len();
    assert(w[0] == roots@[i as int]@);
    assert(w[1] == roots@[i + 1]@);
    match (&roots[i], &roots[i + 1]) {
        (WpRoot::Node(n), WpRoot::Instruction(ins)) => match ins {
            WpInstruction::Inc => Some(one(node_root(binary_node(0, copy_node(n), immediate(1))))),
            WpInstruction::Dec => Some(one(node_root(binary_node(1, copy_node(n), immediate(1))))),
            WpInstruction::Not => Some(one(node_root(not_node(copy_node(n))))),
            WpInstruction::Ntp => Some(one(node_root(not_node(not_node(copy_node(n)))))),
            WpInstruction::Buf | WpInstruction::Bfp => Some(one(node_root(copy_node(n)))),
            WpInstruction::Ldo(o) => if *o == 0 {
                Some(two(node_root(copy_node(n)), node_root(copy_node(n))))
            } else {
                None
            },
            WpInstruction::Pop => Some(empty_roots()),
            _ => None,
        },
        _ => None,
    }
}

/// The rule of pass 3 at the window of roots starting at `i`.
fn rule3(roots: &Vec<WpRoot>, i: usize) -> (r: Option<Vec<WpRoot>>)
    requires
        i + spec_width(3) <= roots@.len(),
    ensures
        r matches Some(v) ==> spec_rule(3, spec_root_views(roots@).subrange(i as int, i + spec_width(3))) == Some(spec_root_views(v@)),
        r is None ==> spec_rule(3, spec_root_views(roots@).subrange(i as int, i + spec_width(3))) is None,
{
    let ghost w = spec_root_views(roots@).subrange(i as int, i + spec_width(3));
    let len = roots.len();
    assert(w[0] == roots@[i as int]@);
    assert(w[1] == roots@[i + 1]@);
    assert(w[2] == roots@[i + 2]@);
    match (&roots[i], &roots[i + 1], &roots[i + 2]) {
        (WpRoot::Node(n1), WpRoot::Node(n2), WpRoot::Instruction(ins)) => {
            let k: u8 = match ins {
                WpInstruction::Add(s) | WpInstruction::Adc(s) => if *s == 1 { 0 } else { 9 },
                WpInstruction::Sub(s) | WpInstruction::Sbc(s) => if *s == 1 { 1 } else { 9 },
                WpInstruction::Shf(s) => if *s == 1 { 2 } else { 9 },
                WpInstruction::Rot(s) => if *s == 1 { 3 } else { 9 },
                WpInstruction::Orr(s) => if *s == 1 { 4 } else { 9 },
                WpInstruction::And(s) => if *s == 1 { 5 } else { 9 },
                WpInstruction::Xor(s) => if *s == 1 { 6 } else { 9 },
                WpInstruction::Xnd(s) => if *s == 1 { 7 } else { 9 },
                WpInstruction::Swp => 10,
                WpInstruction::Ldo(o) => if *o == 1 { 11 } else { 9 },
                _ => 9,
            };
            if k <= 7 {
                Some(one(node_root(binary_node(k, copy_node(n2), copy_node(n1)))))
            } else if k == 10 {
                Some(two(node_root(copy_node(n2)), node_root(copy_node(n1))))
            } else if k == 11 {
                Some(three(node_root(copy_node(n1)), node_root(copy_node(n2)), node_root(copy_node(n1))))
            } else {
                None
            }
        },
        _ => None,
    }
}

/// The rule of pass 4 at the window of roots starting at `i`.
fn rule4(roots: &Vec<WpRoot>, i: usize) -> (r: Option<Vec<WpRoot>>)
    requires
        i + spec_width(4) <= roots@.len(),
    ensures
        r matches Some(v) ==> spec_rule(4, spec_root_views(roots@).subrange(i as int, i + spec_width(4))) == Some(spec_root_views(v@)),
        r is None ==> spec_rule(4, spec_root_views(roots@).subrange(i as int, i + spec_width(4))) is None,
{
    let ghost w = spec_root_views(roots@).subrange(i as int, i + spec_width(4));
    let len = roots.len();
    assert(w[0] == roots@[i as int]@);
    assert(w[1] == roots@[i + 1]@);
    match (&roots[i], &roots[i + 1]) {
        (WpRoot::Node(n1), WpRoot::Node(n2)) => if same_node(n1, n2) {
            Some(two(node_root(copy_node(n1)), WpRoot::Instruction(WpInstruction::Ldo(0))))
        } else {
            None
        },
        _ => None,
    }
}

/// The rule of pass 5 at the window of roots starting at `i`.
fn rule5(roots: &Vec<WpRoot>, i: usize) -> (r: Option<Vec<WpRoot>>)
    requires
        i + spec_width(5) <= roots@.len(),
    ensures
        r matches Some(v) ==> spec_rule(5, spec_root_views(roots@).subrange(i as int, i + spec_width(5))) == Some(spec_root_views(v@)),
        r is None ==> spec_rule(5, spec_root_views(roots@).subrange(i as int, i + spec_width(5))) is None,
{
    let ghost w = spec_root_views(roots@).subrange(i as int, i + spec_width(5));
    let len = roots.len();
    assert(w[0] == roots@[i as int]@);
    assert(w[1] == roots@[i + 1]@);
    assert(w[2] == roots@[i + 2]@);
    match (&roots[i], &roots[i + 1], &roots[i + 2]) {
        (WpRoot::Node(n1), WpRoot::Node(n2), WpRoot::Node(n3)) => if same_node(n1, n3) {
            Some(three(node_root(copy_node(n1)), node_root(copy_node(n2)), WpRoot::Instruction(WpInstruction::Ldo(1))))
        } else {
            None
        },
        _ => None,
    }
}

/// The rule of a pass at the window of roots starting at `i`.
fn rule_at(pass: u8, roots: &Vec<WpRoot>, i: usize) -> (r: Option<Vec<WpRoot>>)
    requires
        1 <= pass <= 5,
        i + spec_width(pass as int) <= roots@.len(),
    ensures
        r matches Some(v) ==> spec_rule(pass as int, spec_root_views(roots@).subrange(i as int, i + spec_width(pass as int))) == Some(spec_root_views(v@)),
        r is None ==> spec_rule(pass as int, spec_root_views(roots@).subrange(i as int, i + spec_width(pass as int))) is None,
{
    if pass == 1 {
        rule1(roots, i)
    } else if pass == 2 {
        rule2(roots, i)
    } else if pass == 3 {
        rule3(roots, i)
    } else if pass == 4 {
        rule4(roots, i)
    } else {
        rule5(roots, i)
    }
}


proof fn lemma_root_views_push(v: Seq<WpRoot>, x: WpRoot)
    ensures
        spec_root_views(v.push(x)) == spec_root_views(v).push(x@),
{
    assert(spec_root_views(v.push(x)) =~= spec_root_views(v).push(x@));
}

proof fn lemma_root_views_add(a: Seq<WpRoot>, b: Seq<WpRoot>)
    ensures
        spec_root_views(a + b) == spec_root_views(a) + spec_root_views(b),
{
    assert(spec_root_views(a + b) =~= spec_root_views(a) + spec_root_views(b));
}

/// One pass of rewriting, and whether it changed anything.
fn rewrite(pass: u8, roots: &Vec<WpRoot>) -> (r: (Vec<WpRoot>, bool))
    requires
        1 <= pass <= 5,
    ensures
        spec_root_views(r.0@) == spec_rewrite(pass as int, spec_root_views(roots@)),
        pass <= 3 && r.1 ==> spec_instruction_count(spec_root_views(r.0@)) < spec_instruction_count(spec_root_views(roots@)),
        pass <= 3 && !r.1 ==> spec_root_views(r.0@) == spec_root_views(roots@),
{
    let ghost v = spec_root_views(roots@);
    let ghost w = spec_width(pass as int);
    let width: usize = if pass == 1 { 1 } else if pass == 2 || pass == 4 { 2 } else { 3 };
    let len = roots.len();
    let mut out: Vec<WpRoot> = Vec::new();
    let mut changed = false;
    let mut i: usize = 0;
    assert(v.subrange(0, len as int) =~= v);
    assert(spec_root_views(out@) =~= Seq::<WpRootView>::empty());
    assert(v.subrange(0, 0) =~= Seq::<WpRootView>::empty());
    while width <= len - i
        invariant
            1 <= pass <= 5,
            w == spec_width(pass as int),
            width == w,
            len == roots@.len(),
            v == spec_root_views(roots@),
            i <= len,
            spec_root_views(out@) + spec_rewrite(pass as int, v.subrange(i as int, len as int)) == spec_rewrite(pass as int, v),
            pass <= 3 && changed ==> spec_instruction_count(spec_root_views(out@)) < spec_instruction_count(v.subrange(0, i as int)),
            pass <= 3 && !changed ==> spec_root_views(out@) == v.subrange(0, i as int),
        decreases len - i,
    {
        let ghost tail = v.subrange(i as int, len as int);
        let ghost before = spec_root_views(out@);
        assert(tail.subrange(0, w) =~= v.subrange(i as int, i + w));
        match rule_at(pass, roots, i) {
            Some(rep) => {
                let ghost rv = spec_root_views(rep@);
                assert(tail.subrange(w, tail.len() as int) =~= v.subrange(i + w, len as int));
                proof {
                    lemma_root_views_add(out@, rep@);
                    if pass <= 3 {
                        lemma_rule_removes_instruction(pass as int, v.subrange(i as int, i + w));
                        lemma_count_add(before, rv);
                        lemma_count_add(v.subrange(0, i as int), v.subrange(i as int, i + w));
                        assert(v.subrange(0, i as int) + v.subrange(i as int, i + w) =~= v.subrange(0, i + w));
                        if !changed {
                            assert(before == v.subrange(0, i as int));
                        }
                    }
                }
                let mut rep = rep;
                out.append(&mut rep);
                assert(before + (rv + spec_rewrite(pass as int, v.subrange(i + w, len as int))) == (before + rv) + spec_rewrite(pass as int, v.subrange(i + w, len as int)));
                changed = true;
                i = i + width;
            },
            None => {
                assert(tail.drop_first() =~= v.subrange(i + 1, len as int));
                assert(tail[0] == roots@[i as int]@);
                let c = copy_root(&roots[i]);
                proof {
                    lemma_root_views_push(out@, c);
                }
                out.push(c);
                proof {
                    assert(v.subrange(0, i + 1) =~= v.subrange(0, i as int).push(c@));
                    if pass <= 3 {
                        lemma_count_add(before, seq![c@]);
                        lemma_count_add(v.subrange(0, i as int), seq![c@]);
                        assert(before.push(c@) =~= before + seq![c@]);
                        assert(v.subrange(0, i as int).push(c@) =~= v.subrange(0, i as int) + seq![c@]);
                    }
                }
                assert(before + (seq![c@] + spec_rewrite(pass as int, v.subrange(i + 1, len as int))) == before.push(c@) + spec_rewrite(pass as int, v.subrange(i + 1, len as int)));
                i = i + 1;
            },
        }
    }
    let ghost mid = spec_root_views(out@);
    let ghost mid_i = i;
    assert(spec_rewrite(pass as int, v.subrange(i as int, len as int)) == v.subrange(i as int, len as int));
    while i < len
        invariant
            mid_i <= i <= len,
            len == roots@.len(),
            v == spec_root_views(roots@),
            spec_root_views(out@) == mid + v.subrange(mid_i as int, i as int),
        decreases len - i,
    {
        let c = copy_root(&roots[i]);
        proof {
            lemma_root_views_push(out@, c);
        }
        out.push(c);
        assert(v.subrange(mid_i as int, i + 1) =~= v.subrange(mid_i as int, i as int).push(c@));
        i = i + 1;
    }
    proof {
        if pass <= 3 {
            lemma_count_add(mid, v.subrange(mid_i as int, len as int));
            lemma_count_add(v.subrange(0, mid_i as int), v.subrange(mid_i as int, len as int));
            assert(v.subrange(0, mid_i as int) + v.subrange(mid_i as int, len as int) =~= v);
        }
    }
    (out, changed)
}


/// Folds roots until a round changes nothing; nothing where a pass fails.
fn fold(roots: Vec<WpRoot>) -> (r: Option<Vec<WpRoot>>)
    ensures
        r matches Some(v) ==> spec_fold(spec_root_views(roots@)) == Some(spec_root_views(v@)),
        r is None ==> spec_fold(spec_root_views(roots@)) is None,
{
    let ghost r0 = roots@;
    let ghost goal = spec_fold(spec_root_views(roots@));
    let mut cur = roots;
    loop
        invariant
            r0 == roots@,
            goal == spec_fold(spec_root_views(r0)),
            spec_fold(spec_root_views(cur@)) == goal,
        decreases spec_instruction_count(spec_root_views(cur@)),
    {
        let ghost c = spec_root_views(cur@);
        let (s1, c1) = rewrite(1, &cur);
        if s1.len() == 0 {
            return None;
        }
        let (s2, c2) = rewrite(2, &s1);
        if s2.len() < 2 {
            return None;
        }
        let (s3, c3) = rewrite(3, &s2);
        proof {
            lemma_rewrite_count(1, c);
            lemma_rewrite_count(2, spec_root_views(s1@));
            lemma_rewrite_count(3, spec_root_views(s2@));
            assert(spec_round(c) == Some(spec_root_views(s3@)));
        }
        if !(c1 || c2 || c3) {
            assert(spec_root_views(s3@) == c);
            assert(spec_fold(c) == Some(c));
            return Some(cur);
        }
        assert(spec_root_views(s3@) != c);
        assert(spec_fold(c) == spec_fold(spec_root_views(s3@)));
        cur = s3;
    }
}

/// A label and its address.
pub open spec fn spec_label_address(labels: Seq<(Seq<char>, u8)>, l: Seq<char>) -> Option<u8>
    decreases labels.len(),
{
    if labels.len() == 0 {
        None
    } else if labels.last().0 == l {
        Some(labels.last().1)
    } else {
        spec_label_address(labels.drop_last(), l)
    }
}

/// The value of a node: a byte; unresolved, where it refers to a label not known; or an
/// overflow, where a shift is by sixteen places or more.
pub enum WpValue {
    Value(u8),
    Unresolved,
    Overflow,
}

/// The value of a node at `address` with the labels known. The second operand is evaluated
/// first; `Xnd` is zero whatever its operands.
pub open spec fn spec_eval(n: WpNodeView, labels: Seq<(Seq<char>, u8)>, address: u8) -> WpValue
    decreases n,
{
    match n {
        WpNodeView::NextAddress => WpValue::Value(address),
        WpNodeView::LabelRef(l) => match spec_label_address(labels, l) {
            Some(v) => WpValue::Value(v),
            None => WpValue::Unresolved,
        },
        WpNodeView::Immediate(v) => WpValue::Value(v),
        WpNodeView::Not(a) => match spec_eval(*a, labels, address) {
            WpValue::Value(v) => WpValue::Value(!v),
            e => e,
        },
        WpNodeView::Xnd(_, _) => WpValue::Value(0),
        WpNodeView::Add(a, b) | WpNodeView::Sub(a, b) | WpNodeView::Shf(a, b) | WpNodeView::Rot(a, b)
        | WpNodeView::Orr(a, b) | WpNodeView::And(a, b) | WpNodeView::Xor(a, b) => match spec_eval(*b, labels, address) {
            WpValue::Value(v2) => match spec_eval(*a, labels, address) {
                WpValue::Value(v1) => spec_combine(n, v2, v1),
                e => e,
            },
            e => e,
        },
    }
}

/// An operation of two operands on the value of its second operand and of its first.
pub open spec fn spec_combine(n: WpNodeView, v2: u8, v1: u8) -> WpValue {
    match n {
        WpNodeView::Add(_, _) => WpValue::Value(((v2 + v1) % 256) as u8),
        WpNodeView::Sub(_, _) => WpValue::Value(((v2 - v1 + 256) % 256) as u8),
        WpNodeView::Shf(_, _) => if v1 >= 16 {
            WpValue::Overflow
        } else {
            WpValue::Value((((v2 as u16) << (v1 as u16)) & 0xFF) as u8)
        },
        WpNodeView::Rot(_, _) => if v1 >= 16 {
            WpValue::Overflow
        } else {
            WpValue::Value(((((v2 as u16) << (v1 as u16)) & 0xFF) | ((((v2 as u16) << (v1 as u16)) >> 8u16) & 0xFF)) as u8)
        },
        WpNodeView::Orr(_, _) => WpValue::Value(v2 | v1),
        WpNodeView::And(_, _) => WpValue::Value(v2 & v1),
        _ => WpValue::Value(v2 ^ v1),
    }
}

/// The instructions that push a byte: `psh` of its low seven bits, or of their complement
/// followed by `ntp`, which complements the whole byte.
pub open spec fn spec_push(v: u8) -> Seq<WpInstruction> {
    if v < 0x80 {
        seq![WpInstruction::Psh(v)]
    } else {
        seq![WpInstruction::Psh(((v & 0x7F) ^ 0x7F) as u8), WpInstruction::Ntp]
    }
}


/// The views of labels and their addresses.
pub open spec fn spec_labels_view(labels: Seq<(String, u8)>) -> Seq<(Seq<char>, u8)> {
    Seq::new(labels.len(), |i: int| (labels[i].0@, labels[i].1))
}

/// The address of a label.
fn label_address(labels: &Vec<(String, u8)>, l: &String) -> (r: Option<u8>)
    ensures
        r == spec_label_address(spec_labels_view(labels@), l@),
{
    let mut j: usize = labels.len();
    assert(labels@.subrange(0, j as int) =~= labels@);
    while j > 0
        invariant
            j <= labels@.len(),
            spec_label_address(spec_labels_view(labels@), l@) == spec_label_address(spec_labels_view(labels@.subrange(0, j as int)), l@),
        decreases j,
    {
        let ghost d = spec_labels_view(labels@.subrange(0, j as int));
        assert(d.drop_last() =~= spec_labels_view(labels@.subrange(0, j - 1)));
        if labels[j - 1].0 == *l {
            return Some(labels[j - 1].1);
        }
        j = j - 1;
    }
    None
}

fn combine(kind: u8, v2: u8, v1: u8) -> (r: WpValue)
    requires
        kind <= 6,
    ensures
        kind == 0 ==> r == spec_combine(WpNodeView::Add(Box::new(WpNodeView::NextAddress), Box::new(WpNodeView::NextAddress)), v2, v1),
        kind == 1 ==> r == spec_combine(WpNodeView::Sub(Box::new(WpNodeView::NextAddress), Box::new(WpNodeView::NextAddress)), v2, v1),
        kind == 2 ==> r == spec_combine(WpNodeView::Shf(Box::new(WpNodeView::NextAddress), Box::new(WpNodeView::NextAddress)), v2, v1),
        kind == 3 ==> r == spec_combine(WpNodeView::Rot(Box::new(WpNodeView::NextAddress), Box::new(WpNodeView::NextAddress)), v2, v1),
        kind == 4 ==> r == spec_combine(WpNodeView::Orr(Box::new(WpNodeView::NextAddress), Box::new(WpNodeView::NextAddress)), v2, v1),
        kind == 5 ==> r == spec_combine(WpNodeView::And(Box::new(WpNodeView::NextAddress), Box::new(WpNodeView::NextAddress)), v2, v1),
        kind == 6 ==> r == spec_combine(WpNodeView::Xor(Box::new(WpNodeView::NextAddress), Box::new(WpNodeView::NextAddress)), v2, v1),
{
    if kind == 0 {
        WpValue::Value(((v2 as u16 + v1 as u16) % 256) as u8)
    } else if kind == 1 {
        WpValue::Value(((v2 as u16 + 256 - v1 as u16) % 256) as u8)
    } else if kind == 2 {
        if v1 >= 16 {
            WpValue::Overflow
        } else {
            WpValue::Value((((v2 as u16) << (v1 as u16)) & 0xFF) as u8)
        }
    } else if kind == 3 {
        if v1 >= 16 {
            WpValue::Overflow
        } else {
            let sh: u16 = (v2 as u16) << (v1 as u16);
            WpValue::Value(((sh & 0xFF) | ((sh >> 8u16) & 0xFF)) as u8)
        }
    } else if kind == 4 {
        WpValue::Value(v2 | v1)
    } else if kind == 5 {
        WpValue::Value(v2 & v1)
    } else {
        WpValue::Value(v2 ^ v1)
    }
}

/// The value of a node at `address`.
fn eval(n: &WpNode, labels: &Vec<(String, u8)>, address: u8) -> (r: WpValue)
    ensures
        r == spec_eval(n@, spec_labels_view(labels@), address),
    decreases n,
{
    let (kind, a, b): (u8, &WpNode, &WpNode) = match n {
        WpNode::NextAddress => { return WpValue::Value(address); },
        WpNode::LabelRef(l) => {
            return match label_address(labels, l) {
                Some(v) => WpValue::Value(v),
                None => WpValue::Unresolved,
            };
        },
        WpNode::Immediate(v) => { return WpValue::Value(*v); },
        WpNode::Not(a) => {
            return match eval(a, labels, address) {
                WpValue::Value(v) => WpValue::Value(!v),
                WpValue::Unresolved => WpValue::Unresolved,
                WpValue::Overflow => WpValue::Overflow,
            };
        },
        WpNode::Xnd(_, _) => { return WpValue::Value(0); },
        WpNode::Add(a, b) => (0, a, b),
        WpNode::Sub(a, b) => (1, a, b),
        WpNode::Shf(a, b) => (2, a, b),
        WpNode::Rot(a, b) => (3, a, b),
        WpNode::Orr(a, b) => (4, a, b),
        WpNode::And(a, b) => (5, a, b),
        WpNode::Xor(a, b) => (6, a, b),
    };
    match eval(b, labels, address) {
        WpValue::Value(v2) => match eval(a, labels, address) {
            WpValue::Value(v1) => combine(kind, v2, v1),
            WpValue::Unresolved => WpValue::Unresolved,
            WpValue::Overflow => WpValue::Overflow,
        },
        WpValue::Unresolved => WpValue::Unresolved,
        WpValue::Overflow => WpValue::Overflow,
    }
}


/// Instructions, labels with their addresses, and the nodes left to fill in with their
/// addresses.
pub type WpAssigned = (Seq<WpInstruction>, Seq<(Seq<char>, u8)>, Seq<(u8, WpNodeView)>);

/// Laying out the first roots at consecutive addresses from zero: an instruction takes one
/// byte; a node whose value is known pushes it, and any other reserves two bytes (`bfp bfp`) to
/// be filled in; a label takes the current address, except the empty label, which only blocks
/// folding. Nothing where the addresses pass `0xFF`, a label is defined twice, or a shift
/// overflows.
pub open spec fn spec_assign(roots: Seq<WpRootView>) -> Option<WpAssigned>
    decreases roots.len(),
{
    if roots.len() == 0 {
        Some((Seq::empty(), Seq::empty(), Seq::empty()))
    } else {
        match spec_assign(roots.drop_last()) {
            None => None,
            Some((ins, labels, nodes)) => match roots.last() {
                WpRootView::Instruction(i) => if ins.len() + 1 > 0xFF {
                    None
                } else {
                    Some((ins.push(i), labels, nodes))
                },
                WpRootView::Node(n) => match spec_eval(n, labels, ins.len() as u8) {
                    WpValue::Value(v) => if ins.len() + spec_push(v).len() > 0xFF {
                        None
                    } else {
                        Some((ins + spec_push(v), labels, nodes))
                    },
                    WpValue::Unresolved => if ins.len() + 2 > 0xFF {
                        None
                    } else {
                        Some((ins + seq![WpInstruction::Bfp, WpInstruction::Bfp], labels, nodes.push((ins.len() as u8, n))))
                    },
                    WpValue::Overflow => None,
                },
                WpRootView::LabelDef(l) => if l.len() == 0 {
                    Some((ins, labels, nodes))
                } else if spec_label_address(labels, l) is Some {
                    None
                } else {
                    Some((ins, labels.push((l, ins.len() as u8)), nodes))
                },
            },
        }
    }
}

/// `ins` with the pushes of `v` written from `a`.
pub open spec fn spec_write_push(ins: Seq<WpInstruction>, a: int, v: u8) -> Seq<WpInstruction> {
    let p = spec_push(v);
    if p.len() == 1 {
        ins.update(a, p[0])
    } else {
        ins.update(a, p[0]).update(a + 1, p[1])
    }
}

/// Filling in the first nodes with all labels known; nothing where one still cannot be
/// computed.
pub open spec fn spec_fill(ins: Seq<WpInstruction>, nodes: Seq<(u8, WpNodeView)>, labels: Seq<(Seq<char>, u8)>) -> Option<Seq<WpInstruction>>
    decreases nodes.len(),
{
    if nodes.len() == 0 {
        Some(ins)
    } else {
        match spec_fill(ins, nodes.drop_last(), labels) {
            None => None,
            Some(ins2) => match spec_eval(nodes.last().1, labels, nodes.last().0) {
                WpValue::Value(v) => Some(spec_write_push(ins2, nodes.last().0 as int, v)),
                _ => None,
            },
        }
    }
}

/// The assembly of tokens from the macro `entry`: the macros collected; the entry macro
/// expanded (a chain of nested macros is at most as long as there are macros, unless one is
/// nested in itself, so as many levels of nesting suffice); the tokens turned into roots; constant pushes folded into nodes until
/// nothing changes; repeated nodes turned into `ldo`s; the roots laid out; and the nodes filled
/// in. Nothing where the assembler fails: a token outside a macro, an undefined or self-nested
/// macro, an invalid operand, a program that folds to too few roots, a program beyond `0xFF`
/// bytes, a label defined twice or never, or a shift by sixteen or more.
pub open spec fn spec_compile(tokens: Seq<WpTokenView>, entry: Seq<char>) -> Option<Seq<WpInstruction>> {
    match spec_collect(tokens) {
        None => None,
        Some((_, defs)) => match spec_expand(defs, seq![WpTokenView::MacroRef(entry)], defs.len()) {
            None => None,
            Some(expanded) => match spec_roots(expanded) {
                None => None,
                Some(roots) => match spec_fold(roots) {
                    None => None,
                    Some(folded) => match spec_pass(4, folded) {
                        None => None,
                        Some(r4) => match spec_pass(5, r4) {
                            None => None,
                            Some(r5) => match spec_assign(r5) {
                                None => None,
                                Some((ins, labels, nodes)) => spec_fill(ins, nodes, labels),
                            },
                        },
                    },
                },
            },
        },
    }
}

/// The views of nodes to fill in.
pub open spec fn spec_nodes_view(nodes: Seq<(u8, WpNode)>) -> Seq<(u8, WpNodeView)> {
    Seq::new(nodes.len(), |i: int| (nodes[i].0, nodes[i].1@))
}



/// The instructions that push a byte.
fn push_instructions(v: u8) -> (r: Vec<WpInstruction>)
    ensures
        r@ == spec_push(v),
{
    if v < 0x80 {
        vec![WpInstruction::Psh(v)]
    } else {
        vec![WpInstruction::Psh((v & 0x7F) ^ 0x7F), WpInstruction::Ntp]
    }
}


/// Layout fails on every extension of roots on which it fails.
proof fn lemma_assign_fails_on(roots: Seq<WpRootView>, k: int)
    requires
        0 <= k <= roots.len(),
        spec_assign(roots.subrange(0, k)) is None,
    ensures
        spec_assign(roots) is None,
    decreases roots.len(),
{
    if k == roots.len() {
        assert(roots.subrange(0, k) =~= roots);
    } else {
        assert(roots.drop_last().subrange(0, k) =~= roots.subrange(0, k));
        lemma_assign_fails_on(roots.drop_last(), k);
    }
}

/// Filling in fails on every extension of nodes on which it fails.
proof fn lemma_fill_fails_on(ins: Seq<WpInstruction>, nodes: Seq<(u8, WpNodeView)>, labels: Seq<(Seq<char>, u8)>, k: int)
    requires
        0 <= k <= nodes.len(),
        spec_fill(ins, nodes.subrange(0, k), labels) is None,
    ensures
        spec_fill(ins, nodes, labels) is None,
    decreases nodes.len(),
{
    if k == nodes.len() {
        assert(nodes.subrange(0, k) =~= nodes);
    } else {
        assert(nodes.drop_last().subrange(0, k) =~= nodes.subrange(0, k));
        lemma_fill_fails_on(ins, nodes.drop_last(), labels, k);
    }
}

/// Lays out roots at consecutive addresses from zero; nothing where layout fails.
fn assign(roots: &Vec<WpRoot>) -> (r: Option<(Vec<WpInstruction>, Vec<(String, u8)>, Vec<(u8, WpNode)>)>)
    ensures
        r matches Some((ins, labels, nodes)) ==> (spec_assign(spec_root_views(roots@)) == Some((ins@, spec_labels_view(labels@), spec_nodes_view(nodes@)))
            && ins@.len() <= 0xFF && forall|j: int| 0 <= j < nodes@.len() ==> #[trigger] nodes@[j].0 + 2 <= ins@.len()),
        r is None ==> spec_assign(spec_root_views(roots@)) is None,
{
    let mut ins: Vec<WpInstruction> = Vec::new();
    let mut labels: Vec<(String, u8)> = Vec::new();
    let mut nodes: Vec<(u8, WpNode)> = Vec::new();
    let mut k: usize = 0;
    let ghost v = spec_root_views(roots@);
    assert(v.subrange(0, 0) =~= Seq::<WpRootView>::empty());
    assert(spec_labels_view(labels@) =~= Seq::<(Seq<char>, u8)>::empty());
    assert(spec_nodes_view(nodes@) =~= Seq::<(u8, WpNodeView)>::empty());
    while k < roots.len()
        invariant
            k <= roots@.len(),
            v == spec_root_views(roots@),
            spec_assign(v.subrange(0, k as int)) == Some((ins@, spec_labels_view(labels@), spec_nodes_view(nodes@))),
            ins@.len() <= 0xFF,
            forall|j: int| 0 <= j < nodes@.len() ==> #[trigger] nodes@[j].0 + 2 <= ins@.len(),
        decreases roots.len() - k,
    {
        let ghost prefix = v.subrange(0, k + 1);
        assert(prefix.drop_last() =~= v.subrange(0, k as int));
        assert(prefix.last() == roots@[k as int]@);
        assert(v.subrange(0, k + 1) == prefix);
        let ghost ins0 = ins@;
        let ghost labels0 = spec_labels_view(labels@);
        let ghost nodes0 = nodes@;
        match &roots[k] {
            WpRoot::Instruction(i) => {
                if ins.len() + 1 > 0xFF {
                    proof {
                        lemma_assign_fails_on(v, k + 1);
                    }
                    return None;
                }
                ins.push(*i);
            },
            WpRoot::Node(n) => {
                let address = ins.len() as u8;
                match eval(n, &labels, address) {
                    WpValue::Value(x) => {
                        let mut p = push_instructions(x);
                        if ins.len() + p.len() > 0xFF {
                            proof {
                                lemma_assign_fails_on(v, k + 1);
                            }
                            return None;
                        }
                        ins.append(&mut p);
                    },
                    WpValue::Unresolved => {
                        if ins.len() + 2 > 0xFF {
                            proof {
                                lemma_assign_fails_on(v, k + 1);
                            }
                            return None;
                        }
                        ins.push(WpInstruction::Bfp);
                        ins.push(WpInstruction::Bfp);
                        assert(ins@ =~= ins0 + seq![WpInstruction::Bfp, WpInstruction::Bfp]);
                        let c = copy_node(n);
                        nodes.push((address, c));
                        assert(spec_nodes_view(nodes@) =~= spec_nodes_view(nodes0).push((address, n@)));
                        assert forall|j: int| 0 <= j < nodes@.len() implies #[trigger] nodes@[j].0 + 2 <= ins@.len() by {
                            if j < nodes0.len() {
                                assert(nodes@[j] == nodes0[j]);
                            }
                        }
                    },
                    WpValue::Overflow => {
                        proof {
                            lemma_assign_fails_on(v, k + 1);
                        }
                        return None;
                    },
                }
            },
            WpRoot::LabelDef(l) => {
                if l.as_str().unicode_len() != 0 {
                    match label_address(&labels, l) {
                        Some(_) => {
                            proof {
                                lemma_assign_fails_on(v, k + 1);
                            }
                            return None;
                        },
                        None => {
                            let address = ins.len() as u8;
                            labels.push((l.clone(), address));
                            assert(spec_labels_view(labels@) =~= labels0.push((l@, address)));
                        },
                    }
                }
            },
        }
        k = k + 1;
    }
    assert(v.subrange(0, k as int) =~= v);
    Some((ins, labels, nodes))
}

/// Fills in the nodes with all labels known; nothing where one cannot be computed.
fn fill(instructions: Vec<WpInstruction>, nodes: &Vec<(u8, WpNode)>, labels: &Vec<(String, u8)>) -> (r: Option<Vec<WpInstruction>>)
    requires
        forall|j: int| 0 <= j < nodes@.len() ==> #[trigger] nodes@[j].0 + 2 <= instructions@.len(),
    ensures
        r matches Some(v) ==> spec_fill(instructions@, spec_nodes_view(nodes@), spec_labels_view(labels@)) == Some(v@),
        r is None ==> spec_fill(instructions@, spec_nodes_view(nodes@), spec_labels_view(labels@)) is None,
{
    let ghost ins0 = instructions@;
    let ghost nv = spec_nodes_view(nodes@);
    let ghost lv = spec_labels_view(labels@);
    let mut ins = instructions;
    let mut k: usize = 0;
    assert(nv.subrange(0, 0) =~= Seq::<(u8, WpNodeView)>::empty());
    while k < nodes.len()
        invariant
            k <= nodes@.len(),
            ins0 == instructions@,
            nv == spec_nodes_view(nodes@),
            lv == spec_labels_view(labels@),
            Some(ins@) == spec_fill(ins0, nv.subrange(0, k as int), lv),
            ins@.len() == ins0.len(),
            forall|j: int| 0 <= j < nodes@.len() ==> #[trigger] nodes@[j].0 + 2 <= ins0.len(),
        decreases nodes.len() - k,
    {
        let ghost prefix = nv.subrange(0, k + 1);
        assert(prefix.drop_last() =~= nv.subrange(0, k as int));
        assert(prefix.last() == (nodes@[k as int].0, nodes@[k as int].1@));
        let a = nodes[k].0;
        assert(nodes@[k as int].0 + 2 <= ins0.len());
        match eval(&nodes[k].1, labels, a) {
            WpValue::Value(x) => {
                let p = push_instructions(x);
                ins.set(a as usize, p[0]);
                if p.len() == 2 {
                    ins.set(a as usize + 1, p[1]);
                }
            },
            _ => {
                proof {
                    assert(spec_fill(ins0, prefix, lv) is None);
                    lemma_fill_fails_on(ins0, nv, lv, k + 1);
                }
                return None;
            },
        }
        k = k + 1;
    }
    assert(nv.subrange(0, k as int) =~= nv);
    Some(ins)
}

/// Assembles tokens from the macro `entry_point` into instructions; nothing exactly where
/// `spec_compile` gives nothing, the inputs on which the assembler fails.
pub fn compile(tokens: Vec<WpToken>, entry_point: &str) -> (r: Option<Vec<WpInstruction>>)
    ensures
        r matches Some(v) ==> spec_compile(spec_token_views(tokens@), entry_point@) == Some(v@),
        r is None ==> spec_compile(spec_token_views(tokens@), entry_point@) is None,
{
    let (names, bodies) = collect(&tokens)?;
    let ghost defs = spec_defs_view(names@, bodies@);
    let entry = vec![WpToken::MacroRef(string_from_chars(&chars_of(entry_point)))];
    assert(spec_token_views(entry@) =~= seq![WpTokenView::MacroRef(entry_point@)]);
    let expanded = expand(&names, &bodies, &entry, names.len())?;
    let roots = to_roots(&expanded)?;
    let folded = fold(roots)?;
    if folded.len() == 0 {
        return None;
    }
    let (r4, _) = rewrite(4, &folded);
    if r4.len() < 2 {
        return None;
    }
    let (r5, _) = rewrite(5, &r4);
    let (ins, labels, nodes) = assign(&r5)?;
    fill(ins, &nodes, &labels)
}


/// Whether a character has the Unicode White_Space property.
pub open spec fn spec_white_space(c: char) -> bool {
    ('\u{9}' <= c && c <= '\u{d}') || c == ' ' || c == '\u{85}' || c == '\u{a0}' || c == '\u{1680}'
        || ('\u{2000}' <= c && c <= '\u{200a}') || c == '\u{2028}' || c == '\u{2029}' || c == '\u{202f}'
        || c == '\u{205f}' || c == '\u{3000}'
}

/// Whether a character has the Unicode White_Space property.
pub fn white_space(c: char) -> (r: bool)
    ensures
        r == spec_white_space(c),
{
    ('\u{9}' <= c && c <= '\u{d}') || c == ' ' || c == '\u{85}' || c == '\u{a0}' || c == '\u{1680}'
        || ('\u{2000}' <= c && c <= '\u{200a}') || c == '\u{2028}' || c == '\u{2029}' || c == '\u{202f}'
        || c == '\u{205f}' || c == '\u{3000}'
}

/// Splitting the first characters into words separated by white space: the words completed
/// and the word begun.
pub open spec fn spec_split(s: Seq<char>) -> (Seq<Seq<char>>, Seq<char>)
    decreases s.len(),
{
    if s.len() == 0 {
        (Seq::empty(), Seq::empty())
    } else {
        let (words, cur) = spec_split(s.drop_last());
        if spec_white_space(s.last()) {
            if cur.len() > 0 { (words.push(cur), Seq::empty()) } else { (words, cur) }
        } else {
            (words, cur.push(s.last()))
        }
    }
}

/// The words of a text: its longest runs of characters without white space, in order.
pub open spec fn spec_words(s: Seq<char>) -> Seq<Seq<char>> {
    let (words, cur) = spec_split(s);
    if cur.len() > 0 { words.push(cur) } else { words }
}

/// The value of a hexadecimal digit of either case.
pub open spec fn spec_hex_digit(c: char) -> Option<int> {
    if '0' <= c && c <= '9' {
        Some(c as int - 48)
    } else if 'a' <= c && c <= 'f' {
        Some(c as int - 87)
    } else if 'A' <= c && c <= 'F' {
        Some(c as int - 55)
    } else {
        None
    }
}

/// The value of hexadecimal digits; nothing where one is not a digit.
pub open spec fn spec_hex_value(d: Seq<char>) -> Option<int>
    decreases d.len(),
{
    if d.len() == 0 {
        Some(0)
    } else {
        match (spec_hex_value(d.drop_last()), spec_hex_digit(d.last())) {
            (Some(v), Some(x)) => Some(16 * v + x),
            _ => None,
        }
    }
}

/// A byte written in hexadecimal, with an optional `+` before it, as the standard library
/// reads one: nothing where there is no digit, a character is not a digit, or the value passes
/// `0xFF`.
pub open spec fn spec_hex_byte(s: Seq<char>) -> Option<u8> {
    let d = if s.len() > 0 && s[0] == '+' { s.drop_first() } else { s };
    if d.len() == 0 {
        None
    } else {
        match spec_hex_value(d) {
            Some(v) => if v <= 0xFF { Some(v as u8) } else { None },
            None => None,
        }
    }
}

proof fn lemma_hex_value_grows(d: Seq<char>, k: int)
    requires
        0 <= k <= d.len(),
        spec_hex_value(d) is Some,
    ensures
        spec_hex_value(d.subrange(0, k)) is Some,
        spec_hex_value(d.subrange(0, k))->0 <= spec_hex_value(d)->0,
        spec_hex_value(d.subrange(0, k))->0 >= 0,
    decreases d.len(),
{
    if k == d.len() {
        assert(d.subrange(0, k) =~= d);
        lemma_hex_value_nonnegative(d);
    } else {
        assert(d.drop_last().subrange(0, k) =~= d.subrange(0, k));
        lemma_hex_value_grows(d.drop_last(), k);
        lemma_hex_value_nonnegative(d.drop_last());
    }
}

proof fn lemma_hex_value_nonnegative(d: Seq<char>)
    ensures
        spec_hex_value(d) matches Some(v) ==> v >= 0,
    decreases d.len(),
{
    if d.len() > 0 {
        lemma_hex_value_nonnegative(d.drop_last());
    }
}

proof fn lemma_hex_value_fails_on(d: Seq<char>, k: int)
    requires
        0 <= k <= d.len(),
        spec_hex_value(d.subrange(0, k)) is None,
    ensures
        spec_hex_value(d) is None,
    decreases d.len(),
{
    if k == d.len() {
        assert(d.subrange(0, k) =~= d);
    } else {
        assert(d.drop_last().subrange(0, k) =~= d.subrange(0, k));
        lemma_hex_value_fails_on(d.drop_last(), k);
    }
}

/// Reads a byte written in hexadecimal from the characters of `w` from `start`.
fn hex_byte(w: &Vec<char>, start: usize) -> (r: Option<u8>)
    requires
        start <= w@.len(),
    ensures
        r == spec_hex_byte(w@.subrange(start as int, w@.len() as int)),
{
    let ghost s = w@.subrange(start as int, w@.len() as int);
    let mut i = start;
    if i < w.len() && w[i] == '+' {
        i = i + 1;
    }
    let ghost d = w@.subrange(i as int, w@.len() as int);
    assert(s.len() > 0 && s[0] == '+' ==> d =~= s.drop_first());
    assert(!(s.len() > 0 && s[0] == '+') ==> d =~= s);
    if i == w.len() {
        return None;
    }
    let mut acc: u16 = 0;
    let mut j = i;
    assert(d.subrange(0, 0) =~= Seq::<char>::empty());
    while j < w.len()
        invariant
            i <= j <= w@.len(),
            i < w@.len(),
            d == w@.subrange(i as int, w@.len() as int),
            s == w@.subrange(start as int, w@.len() as int),
            s.len() > 0 && s[0] == '+' ==> d == s.drop_first(),
            !(s.len() > 0 && s[0] == '+') ==> d == s,
            spec_hex_value(d.subrange(0, j - i)) == Some(acc as int),
            acc <= 0xFF,
        decreases w.len() - j,
    {
        let c = w[j];
        let x: u16 = if '0' <= c && c <= '9' {
            (c as u32 - 48) as u16
        } else if 'a' <= c && c <= 'f' {
            (c as u32 - 87) as u16
        } else if 'A' <= c && c <= 'F' {
            (c as u32 - 55) as u16
        } else {
            proof {
                let p = d.subrange(0, j - i + 1);
                assert(p.drop_last() =~= d.subrange(0, j - i));
                assert(p.last() == c);
                lemma_hex_value_fails_on(d, j - i + 1);
            }
            return None;
        };
        proof {
            let p = d.subrange(0, j - i + 1);
            assert(p.drop_last() =~= d.subrange(0, j - i));
            assert(p.last() == c);
        }
        acc = acc * 16 + x;
        if acc > 0xFF {
            proof {
                assert(spec_hex_value(d.subrange(0, j - i + 1)) == Some(acc as int));
                if spec_hex_value(d) is Some {
                    lemma_hex_value_grows(d, j - i + 1);
                }
            }
            return None;
        }
        j = j + 1;
    }
    assert(d.subrange(0, j - i) =~= d);
    Some(acc as u8)
}


/// A token written with a size, offset or value: which one, applied to its operand.
pub open spec fn spec_sized(kind: int, v: u8) -> WpToken {
    if kind == 0 {
        WpToken::AdS(v)
    } else if kind == 1 {
        WpToken::AcS(v)
    } else if kind == 2 {
        WpToken::SuS(v)
    } else if kind == 3 {
        WpToken::ScS(v)
    } else if kind == 4 {
        WpToken::ShS(v)
    } else if kind == 5 {
        WpToken::RoS(v)
    } else if kind == 6 {
        WpToken::OrS(v)
    } else if kind == 7 {
        WpToken::AnS(v)
    } else if kind == 8 {
        WpToken::XoS(v)
    } else if kind == 9 {
        WpToken::XnS(v)
    } else if kind == 10 {
        WpToken::IfS(v)
    } else if kind == 11 {
        WpToken::XXX(v)
    } else if kind == 12 {
        WpToken::LdO(v)
    } else if kind == 13 {
        WpToken::StO(v)
    } else {
        WpToken::DDD(v)
    }
}

fn sized(kind: u8, v: u8) -> (t: WpToken)
    requires
        kind <= 14,
    ensures
        t == spec_sized(kind as int, v),
{
    if kind == 0 {
        WpToken::AdS(v)
    } else if kind == 1 {
        WpToken::AcS(v)
    } else if kind == 2 {
        WpToken::SuS(v)
    } else if kind == 3 {
        WpToken::ScS(v)
    } else if kind == 4 {
        WpToken::ShS(v)
    } else if kind == 5 {
        WpToken::RoS(v)
    } else if kind == 6 {
        WpToken::OrS(v)
    } else if kind == 7 {
        WpToken::AnS(v)
    } else if kind == 8 {
        WpToken::XoS(v)
    } else if kind == 9 {
        WpToken::XnS(v)
    } else if kind == 10 {
        WpToken::IfS(v)
    } else if kind == 11 {
        WpToken::XXX(v)
    } else if kind == 12 {
        WpToken::LdO(v)
    } else if kind == 13 {
        WpToken::StO(v)
    } else {
        WpToken::DDD(v)
    }
}

/// Whether `w` begins with `p`.
pub open spec fn spec_starts(w: Seq<char>, p: Seq<char>) -> bool {
    w.len() >= p.len() && w.subrange(0, p.len() as int) == p
}

/// Whether `w` ends with `c`.
pub open spec fn spec_ends(w: Seq<char>, c: char) -> bool {
    w.len() > 0 && w.last() == c
}

/// The token of kind `kind` with the byte written in hexadecimal from `start`.
pub open spec fn spec_hex_token(w: Seq<char>, start: int, kind: int) -> Option<WpTokenView> {
    match spec_hex_byte(w.subrange(start, w.len() as int)) {
        Some(v) => Some(WpTokenView::Plain(spec_sized(kind, v))),
        None => None,
    }
}

/// The token a word stands for: a label or macro definition ends with `:` or `%`, a reference
/// begins with one; a mnemonic stands for its instruction, and one that begins with the letters
/// of a sized instruction, `x`, `ld`, `st` or `d` carries a hexadecimal operand after them.
/// Nothing where the word is none of these or its operand is not a byte.
pub open spec fn spec_word_token(w: Seq<char>) -> Option<WpTokenView> {
    if spec_ends(w, ':') {
        Some(WpTokenView::LabelDef(w.drop_last()))
    } else if spec_starts(w, ":"@) {
        Some(WpTokenView::LabelRef(w.drop_first()))
    } else if spec_ends(w, '%') {
        Some(WpTokenView::MacroDef(w.drop_last()))
    } else if spec_starts(w, "%"@) {
        Some(WpTokenView::MacroRef(w.drop_first()))
    } else if w == "nop"@ {
        Some(WpTokenView::Plain(WpToken::Nop))
    } else if w == "hlt"@ {
        Some(WpTokenView::Plain(WpToken::Hlt))
    } else if w == "dbg"@ {
        Some(WpTokenView::Plain(WpToken::Dbg))
    } else if w == "clc"@ {
        Some(WpTokenView::Plain(WpToken::Clc))
    } else if w == "sec"@ {
        Some(WpTokenView::Plain(WpToken::Sec))
    } else if w == "flc"@ {
        Some(WpTokenView::Plain(WpToken::Flc))
    } else if w == "inc"@ {
        Some(WpTokenView::Plain(WpToken::Inc))
    } else if w == "dec"@ {
        Some(WpTokenView::Plain(WpToken::Dec))
    } else if w == "add"@ {
        Some(WpTokenView::Plain(WpToken::Add))
    } else if spec_starts(w, "ad"@) {
        spec_hex_token(w, 2, 0)
    } else if w == "adc"@ {
        Some(WpTokenView::Plain(WpToken::Adc))
    } else if spec_starts(w, "ac"@) {
        spec_hex_token(w, 2, 1)
    } else if w == "sub"@ {
        Some(WpTokenView::Plain(WpToken::Sub))
    } else if spec_starts(w, "su"@) {
        spec_hex_token(w, 2, 2)
    } else if w == "sbc"@ {
        Some(WpTokenView::Plain(WpToken::Sbc))
    } else if spec_starts(w, "sc"@) {
        spec_hex_token(w, 2, 3)
    } else if w == "shf"@ {
        Some(WpTokenView::Plain(WpToken::Shf))
    } else if spec_starts(w, "sh"@) {
        spec_hex_token(w, 2, 4)
    } else if w == "rot"@ {
        Some(WpTokenView::Plain(WpToken::Rot))
    } else if spec_starts(w, "ro"@) {
        spec_hex_token(w, 2, 5)
    } else if w == "orr"@ {
        Some(WpTokenView::Plain(WpToken::Orr))
    } else if spec_starts(w, "or"@) {
        spec_hex_token(w, 2, 6)
    } else if w == "and"@ {
        Some(WpTokenView::Plain(WpToken::And))
    } else if spec_starts(w, "an"@) {
        spec_hex_token(w, 2, 7)
    } else if w == "xor"@ {
        Some(WpTokenView::Plain(WpToken::Xor))
    } else if spec_starts(w, "xo"@) {
        spec_hex_token(w, 2, 8)
    } else if w == "xnd"@ {
        Some(WpTokenView::Plain(WpToken::Xnd))
    } else if spec_starts(w, "xn"@) {
        spec_hex_token(w, 2, 9)
    } else if w == "not"@ {
        Some(WpTokenView::Plain(WpToken::Not))
    } else if w == "ntp"@ {
        Some(WpTokenView::Plain(WpToken::Ntp))
    } else if w == "buf"@ {
        Some(WpTokenView::Plain(WpToken::Buf))
    } else if w == "bfp"@ {
        Some(WpTokenView::Plain(WpToken::Bfp))
    } else if w == "iff"@ {
        Some(WpTokenView::Plain(WpToken::Iff))
    } else if spec_starts(w, "if"@) {
        spec_hex_token(w, 2, 10)
    } else if w == "swp"@ {
        Some(WpTokenView::Plain(WpToken::Swp))
    } else if w == "pop"@ {
        Some(WpTokenView::Plain(WpToken::Pop))
    } else if spec_starts(w, "x"@) {
        spec_hex_token(w, 1, 11)
    } else if w == "lda"@ {
        Some(WpTokenView::Plain(WpToken::Lda))
    } else if w == "sta"@ {
        Some(WpTokenView::Plain(WpToken::Sta))
    } else if w == "ldi"@ {
        Some(WpTokenView::Plain(WpToken::Ldi))
    } else if w == "sti"@ {
        Some(WpTokenView::Plain(WpToken::Sti))
    } else if w == "lds"@ {
        Some(WpTokenView::Plain(WpToken::Lds))
    } else if w == "sts"@ {
        Some(WpTokenView::Plain(WpToken::Sts))
    } else if spec_starts(w, "ld"@) {
        spec_hex_token(w, 2, 12)
    } else if spec_starts(w, "st"@) {
        spec_hex_token(w, 2, 13)
    } else if spec_starts(w, "d"@) {
        spec_hex_token(w, 1, 14)
    } else {
        None
    }
}

/// The tokens of words; nothing where a word has none.
pub open spec fn spec_word_tokens(words: Seq<Seq<char>>) -> Option<Seq<WpTokenView>>
    decreases words.len(),
{
    if words.len() == 0 {
        Some(Seq::empty())
    } else {
        match (spec_word_tokens(words.drop_last()), spec_word_token(words.last())) {
            (Some(ts), Some(t)) => Some(ts.push(t)),
            _ => None,
        }
    }
}

/// The tokens of a source text.
pub open spec fn spec_tokenize(source: Seq<char>) -> Option<Seq<WpTokenView>> {
    spec_word_tokens(spec_words(source))
}

/// Whether `w` is `lit`.
fn word_is(w: &Vec<char>, lit: &str) -> (r: bool)
    ensures
        r == (w@ == lit@),
{
    let l = chars_of(lit);
    if w.len() != l.len() {
        return false;
    }
    let mut i: usize = 0;
    while i < w.len()
        invariant
            i <= w@.len(),
            w@.len() == l@.len(),
            l@ == lit@,
            forall|j: int| 0 <= j < i ==> w@[j] == l@[j],
        decreases w.len() - i,
    {
        if w[i] != l[i] {
            return false;
        }
        i = i + 1;
    }
    assert(w@ =~= l@);
    true
}

/// Whether `w` begins with `lit`.
fn starts_with(w: &Vec<char>, lit: &str) -> (r: bool)
    ensures
        r == spec_starts(w@, lit@),
{
    let l = chars_of(lit);
    if w.len() < l.len() {
        return false;
    }
    let mut i: usize = 0;
    while i < l.len()
        invariant
            i <= l@.len(),
            w@.len() >= l@.len(),
            l@ == lit@,
            forall|j: int| 0 <= j < i ==> w@[j] == l@[j],
        decreases l.len() - i,
    {
        if w[i] != l[i] {
            assert(w@.subrange(0, l@.len() as int)[i as int] != l@[i as int]);
            return false;
        }
        i = i + 1;
    }
    assert(w@.subrange(0, l@.len() as int) =~= l@);
    true
}

/// The token of kind `kind` with the byte written in hexadecimal from `start`.
fn hex_token(w: &Vec<char>, start: usize, kind: u8) -> (r: Option<WpToken>)
    requires
        start <= w@.len(),
        kind <= 14,
    ensures
        r matches Some(t) ==> spec_hex_token(w@, start as int, kind as int) == Some(t@),
        r is None ==> spec_hex_token(w@, start as int, kind as int) is None,
{
    match hex_byte(w, start) {
        Some(v) => Some(sized(kind, v)),
        None => None,
    }
}

/// The characters of `w` from `a` to `b`.
fn slice_chars(w: &Vec<char>, a: usize, b: usize) -> (r: Vec<char>)
    requires
        a <= b <= w@.len(),
    ensures
        r@ == w@.subrange(a as int, b as int),
{
    let mut r: Vec<char> = Vec::new();
    let mut i = a;
    while i < b
        invariant
            a <= i <= b,
            b <= w@.len(),
            r@ == w@.subrange(a as int, i as int),
        decreases b - i,
    {
        r.push(w[i]);
        i = i + 1;
        assert(r@ =~= w@.subrange(a as int, i as int));
    }
    r
}

/// The token a word stands for.
fn word_token(w: &Vec<char>) -> (r: Option<WpToken>)
    ensures
        r matches Some(t) ==> spec_word_token(w@) == Some(t@),
        r is None ==> spec_word_token(w@) is None,
{
    proof {
        reveal_strlit(":");
        reveal_strlit("%");
        reveal_strlit("ad");
        reveal_strlit("ac");
        reveal_strlit("su");
        reveal_strlit("sc");
        reveal_strlit("sh");
        reveal_strlit("ro");
        reveal_strlit("or");
        reveal_strlit("an");
        reveal_strlit("xo");
        reveal_strlit("xn");
        reveal_strlit("if");
        reveal_strlit("x");
        reveal_strlit("ld");
        reveal_strlit("st");
        reveal_strlit("d");
    }
    let n = w.len();
    if n > 0 && w[n - 1] == ':' {
        let v = slice_chars(w, 0, n - 1);
        assert(v@ =~= w@.drop_last());
        Some(WpToken::LabelDef(string_from_chars(&v)))
    } else if starts_with(w, ":") {
        let v = slice_chars(w, 1, n);
        assert(v@ =~= w@.drop_first());
        Some(WpToken::LabelRef(string_from_chars(&v)))
    } else if n > 0 && w[n - 1] == '%' {
        let v = slice_chars(w, 0, n - 1);
        assert(v@ =~= w@.drop_last());
        Some(WpToken::MacroDef(string_from_chars(&v)))
    } else if starts_with(w, "%") {
        let v = slice_chars(w, 1, n);
        assert(v@ =~= w@.drop_first());
        Some(WpToken::MacroRef(string_from_chars(&v)))
    } else if word_is(w, "nop") {
        Some(WpToken::Nop)
    } else if word_is(w, "hlt") {
        Some(WpToken::Hlt)
    } else if word_is(w, "dbg") {
        Some(WpToken::Dbg)
    } else if word_is(w, "clc") {
        Some(WpToken::Clc)
    } else if word_is(w, "sec") {
        Some(WpToken::Sec)
    } else if word_is(w, "flc") {
        Some(WpToken::Flc)
    } else if word_is(w, "inc") {
        Some(WpToken::Inc)
    } else if word_is(w, "dec") {
        Some(WpToken::Dec)
    } else if word_is(w, "add") {
        Some(WpToken::Add)
    } else if starts_with(w, "ad") {
        hex_token(w, 2, 0)
    } else if word_is(w, "adc") {
        Some(WpToken::Adc)
    } else if starts_with(w, "ac") {
        hex_token(w, 2, 1)
    } else if word_is(w, "sub") {
        Some(WpToken::Sub)
    } else if starts_with(w, "su") {
        hex_token(w, 2, 2)
    } else if word_is(w, "sbc") {
        Some(WpToken::Sbc)
    } else if starts_with(w, "sc") {
        hex_token(w, 2, 3)
    } else if word_is(w, "shf") {
        Some(WpToken::Shf)
    } else if starts_with(w, "sh") {
        hex_token(w, 2, 4)
    } else if word_is(w, "rot") {
        Some(WpToken::Rot)
    } else if starts_with(w, "ro") {
        hex_token(w, 2, 5)
    } else if word_is(w, "orr") {
        Some(WpToken::Orr)
    } else if starts_with(w, "or") {
        hex_token(w, 2, 6)
    } else if word_is(w, "and") {
        Some(WpToken::And)
    } else if starts_with(w, "an") {
        hex_token(w, 2, 7)
    } else if word_is(w, "xor") {
        Some(WpToken::Xor)
    } else if starts_with(w, "xo") {
        hex_token(w, 2, 8)
    } else if word_is(w, "xnd") {
        Some(WpToken::Xnd)
    } else if starts_with(w, "xn") {
        hex_token(w, 2, 9)
    } else if word_is(w, "not") {
        Some(WpToken::Not)
    } else if word_is(w, "ntp") {
        Some(WpToken::Ntp)
    } else if word_is(w, "buf") {
        Some(WpToken::Buf)
    } else if word_is(w, "bfp") {
        Some(WpToken::Bfp)
    } else if word_is(w, "iff") {
        Some(WpToken::Iff)
    } else if starts_with(w, "if") {
        hex_token(w, 2, 10)
    } else if word_is(w, "swp") {
        Some(WpToken::Swp)
    } else if word_is(w, "pop") {
        Some(WpToken::Pop)
    } else if starts_with(w, "x") {
        hex_token(w, 1, 11)
    } else if word_is(w, "lda") {
        Some(WpToken::Lda)
    } else if word_is(w, "sta") {
        Some(WpToken::Sta)
    } else if word_is(w, "ldi") {
        Some(WpToken::Ldi)
    } else if word_is(w, "sti") {
        Some(WpToken::Sti)
    } else if word_is(w, "lds") {
        Some(WpToken::Lds)
    } else if word_is(w, "sts") {
        Some(WpToken::Sts)
    } else if starts_with(w, "ld") {
        hex_token(w, 2, 12)
    } else if starts_with(w, "st") {
        hex_token(w, 2, 13)
    } else if starts_with(w, "d") {
        hex_token(w, 1, 14)
    } else {
        None
    }
}


/// The characters of words.
pub open spec fn spec_words_view(words: Seq<Vec<char>>) -> Seq<Seq<char>> {
    words.map_values(|w: Vec<char>| w@)
}

/// The words of a text.
fn words(source: &str) -> (r: Vec<Vec<char>>)
    ensures
        spec_words_view(r@) == spec_words(source@),
{
    let chars = chars_of(source);
    let mut words: Vec<Vec<char>> = Vec::new();
    let mut cur: Vec<char> = Vec::new();
    let mut i: usize = 0;
    assert(chars@.subrange(0, 0) =~= Seq::<char>::empty());
    assert(spec_words_view(words@) =~= Seq::<Seq<char>>::empty());
    while i < chars.len()
        invariant
            i <= chars@.len(),
            chars@ == source@,
            spec_split(chars@.subrange(0, i as int)) == (spec_words_view(words@), cur@),
        decreases chars.len() - i,
    {
        let ghost prefix = chars@.subrange(0, i + 1);
        assert(prefix.drop_last() =~= chars@.subrange(0, i as int));
        assert(prefix.last() == chars@[i as int]);
        let ghost wv = spec_words_view(words@);
        let c = chars[i];
        if white_space(c) {
            if cur.len() > 0 {
                let done = cur;
                words.push(done);
                assert(spec_words_view(words@) =~= wv.push(done@));
                cur = Vec::new();
                assert(cur@ =~= Seq::<char>::empty());
            }
        } else {
            cur.push(c);
        }
        i = i + 1;
    }
    assert(chars@.subrange(0, i as int) =~= chars@);
    if cur.len() > 0 {
        let ghost wv = spec_words_view(words@);
        let done = cur;
        words.push(done);
        assert(spec_words_view(words@) =~= wv.push(done@));
    }
    words
}

proof fn lemma_word_tokens_fail_on(words: Seq<Seq<char>>, k: int)
    requires
        0 <= k <= words.len(),
        spec_word_tokens(words.subrange(0, k)) is None,
    ensures
        spec_word_tokens(words) is None,
    decreases words.len(),
{
    if k == words.len() {
        assert(words.subrange(0, k) =~= words);
    } else {
        assert(words.drop_last().subrange(0, k) =~= words.subrange(0, k));
        lemma_word_tokens_fail_on(words.drop_last(), k);
    }
}

/// The tokens of a source text: its words, separated by white space, each read as a token;
/// nothing where a word is not one.
pub fn tokenize(source: &str) -> (r: Option<Vec<WpToken>>)
    ensures
        r matches Some(v) ==> spec_tokenize(source@) == Some(spec_token_views(v@)),
        r is None ==> spec_tokenize(source@) is None,
{
    let ws = words(source);
    let ghost wv = spec_words_view(ws@);
    let mut out: Vec<WpToken> = Vec::new();
    let mut k: usize = 0;
    assert(wv.subrange(0, 0) =~= Seq::<Seq<char>>::empty());
    assert(spec_token_views(out@) =~= Seq::<WpTokenView>::empty());
    while k < ws.len()
        invariant
            k <= ws@.len(),
            wv == spec_words_view(ws@),
            wv == spec_words(source@),
            spec_word_tokens(wv.subrange(0, k as int)) == Some(spec_token_views(out@)),
        decreases ws.len() - k,
    {
        let ghost prefix = wv.subrange(0, k + 1);
        assert(prefix.drop_last() =~= wv.subrange(0, k as int));
        assert(prefix.last() == ws@[k as int]@);
        let ghost before = spec_token_views(out@);
        match word_token(&ws[k]) {
            Some(t) => {
                out.push(t);
                assert(spec_token_views(out@) =~= before.push(t@));
            },
            None => {
                proof {
                    lemma_word_tokens_fail_on(wv, k + 1);
                }
                return None;
            },
        }
        k = k + 1;
    }
    assert(wv.subrange(0, k as int) =~= wv);
    Some(out)
}


/// The characters of `l` before the first `c`, or all of them.
pub open spec fn spec_before(l: Seq<char>, c: char) -> Seq<char>
    decreases l.len(),
{
    if l.len() == 0 || l[0] == c {
        Seq::empty()
    } else {
        seq![l[0]] + spec_before(l.drop_first(), c)
    }
}

/// The characters of `l` after the first `c`, if there is one.
pub open spec fn spec_after(l: Seq<char>, c: char) -> Option<Seq<char>>
    decreases l.len(),
{
    if l.len() == 0 {
        None
    } else if l[0] == c {
        Some(l.drop_first())
    } else {
        spec_after(l.drop_first(), c)
    }
}

/// `s` without white space at its start.
pub open spec fn spec_trim_start(s: Seq<char>) -> Seq<char>
    decreases s.len(),
{
    if s.len() > 0 && spec_white_space(s[0]) { spec_trim_start(s.drop_first()) } else { s }
}

/// `s` without white space at its end.
pub open spec fn spec_trim_end(s: Seq<char>) -> Seq<char>
    decreases s.len(),
{
    if s.len() > 0 && spec_white_space(s.last()) { spec_trim_end(s.drop_last()) } else { s }
}

/// What a source line holds once its comment, from `#`, is removed: text, or the path of a file
/// to include, the rest of the line after `@` with the white space around it removed.
pub enum LineItem {
    Text(String),
    Include(String),
}

/// What a source line holds, its characters taken as such.
pub open spec fn spec_line_item(l: Seq<char>) -> (bool, Seq<char>) {
    let text = spec_before(l, '#');
    match spec_after(text, '@') {
        Some(rest) => (true, spec_trim_end(spec_trim_start(rest))),
        None => (false, text),
    }
}

fn before(l: &Vec<char>, c: char) -> (r: Vec<char>)
    ensures
        r@ == spec_before(l@, c),
{
    let mut i: usize = 0;
    while i < l.len() && l[i] != c
        invariant
            i <= l@.len(),
            forall|j: int| 0 <= j < i ==> l@[j] != c,
        decreases l.len() - i,
    {
        i = i + 1;
    }
    proof {
        lemma_before(l@, c, i as int);
    }
    slice_chars(l, 0, i)
}

proof fn lemma_before(l: Seq<char>, c: char, i: int)
    requires
        0 <= i <= l.len(),
        forall|j: int| 0 <= j < i ==> l[j] != c,
        i == l.len() || l[i] == c,
    ensures
        spec_before(l, c) == l.subrange(0, i),
        spec_after(l, c) == (if i < l.len() { Some(l.subrange(i + 1, l.len() as int)) } else { None::<Seq<char>> }),
    decreases l.len(),
{
    if l.len() == 0 {
        assert(l.subrange(0, i) =~= Seq::<char>::empty());
    } else if l[0] == c {
        assert(i == 0);
        assert(l.subrange(0, i) =~= Seq::<char>::empty());
        assert(l.drop_first() =~= l.subrange(1, l.len() as int));
    } else {
        lemma_before(l.drop_first(), c, i - 1);
        assert(seq![l[0]] + l.drop_first().subrange(0, i - 1) =~= l.subrange(0, i));
        if i < l.len() {
            assert(l.drop_first().subrange(i, l.len() - 1) =~= l.subrange(i + 1, l.len() as int));
        }
    }
}

fn trimmed(s: &Vec<char>) -> (r: Vec<char>)
    ensures
        r@ == spec_trim_end(spec_trim_start(s@)),
{
    let mut a: usize = 0;
    assert(s@.subrange(0, s@.len() as int) =~= s@);
    while a < s.len() && white_space(s[a])
        invariant
            a <= s@.len(),
            spec_trim_start(s@) == spec_trim_start(s@.subrange(a as int, s@.len() as int)),
        decreases s.len() - a,
    {
        assert(s@.subrange(a as int, s@.len() as int).drop_first() =~= s@.subrange(a + 1, s@.len() as int));
        a = a + 1;
    }
    assert(s@.subrange(0, s@.len() as int) =~= s@);
    let ghost t = s@.subrange(a as int, s@.len() as int);
    assert(spec_trim_start(t) == t);
    let mut b: usize = s.len();
    assert(t.subrange(0, (b - a) as int) =~= t);
    while b > a && white_space(s[b - 1])
        invariant
            a <= b <= s@.len(),
            t == s@.subrange(a as int, s@.len() as int),
            spec_trim_end(t) == spec_trim_end(s@.subrange(a as int, b as int)),
        decreases b,
    {
        assert(s@.subrange(a as int, b as int).drop_last() =~= s@.subrange(a as int, b - 1));
        b = b - 1;
    }
    slice_chars(s, a, b)
}

/// What a source line holds once its comment is removed.
pub fn line_item(line: &str) -> (r: LineItem)
    ensures
        r matches LineItem::Include(p) ==> spec_line_item(line@) == (true, p@),
        r matches LineItem::Text(t) ==> spec_line_item(line@) == (false, t@),
{
    let l = chars_of(line);
    let text = before(&l, '#');
    let mut i: usize = 0;
    while i < text.len() && text[i] != '@'
        invariant
            i <= text@.len(),
            forall|j: int| 0 <= j < i ==> text@[j] != '@',
        decreases text.len() - i,
    {
        i = i + 1;
    }
    proof {
        lemma_before(text@, '@', i as int);
    }
    if i < text.len() {
        let rest = slice_chars(&text, i + 1, text.len());
        LineItem::Include(string_from_chars(&trimmed(&rest)))
    } else {
        LineItem::Text(string_from_chars(&text))
    }
}

} // verus!
