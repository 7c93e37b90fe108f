//! The assembler: from source lines to mnemonics, tokens, instructions and opcodes, with the
//! assembly-time evaluation of expressions over labels.

use vstd::prelude::*;
use crate::common::{
    instruction_to_opcode, spec_byte_bit, spec_decoded_valid, spec_instruction_to_opcode, Imm, Instruction, Nimm,
    MEM_SIZE,
};
use crate::emu::{
    rotate, spec_execute, spec_push, spec_rotate, spec_state_wf, spec_wrapping_add, spec_wrapping_sub,
    EmuState,
};
use crate::token::{
    mnemonic_to_token, spec_mnemonic_token, spec_mnemonic_unreadable, Error, File, Label, LabelView,
    Macro, Mnemonic, Pos, Token, TokenView,
};
use crate::text::{
    hex_digit, is_whitespace, push_str, spec_hex_digit, spec_is_whitespace, string_chars,
    string_from_chars,
};
use vstd::string::StringExecFns;

verus! {

/// An expression evaluated at assembly time.
#[derive(Debug)]
pub enum Node {
    LabelRef(Label),
    Value(u8),
    Add(Box<Node>, Box<Node>),
    Sub(Box<Node>, Box<Node>),
    Rot(Box<Node>, Box<Node>),
    Orr(Box<Node>, Box<Node>),
    And(Box<Node>, Box<Node>),
    Xor(Box<Node>, Box<Node>),
    Xnd(Box<Node>, Box<Node>),
    Shl(Box<Node>),
    Shr(Box<Node>),
    Not(Box<Node>),
}

/// The address of a label: the first definition of it in the list.
pub open spec fn spec_label_address(defs: Seq<(Label, u8)>, l: LabelView) -> Option<u8>
    decreases defs.len(),
{
    if defs.len() == 0 {
        None
    } else if defs[0].0@ == l {
        Some(defs[0].1)
    } else {
        spec_label_address(defs.drop_first(), l)
    }
}

/// The value of a node, or the first label it references, in evaluation order, that has no
/// address. A binary node evaluates its second operand first, but a rotation its first; `xnd`
/// is zero without evaluating anything.
pub open spec fn spec_node_value(node: Node, defs: Seq<(Label, u8)>) -> Result<u8, LabelView>
    decreases node,
{
    match node {
        Node::LabelRef(l) => match spec_label_address(defs, l@) {
            Some(v) => Ok(v),
            None => Err(l@),
        },
        Node::Value(v) => Ok(v),
        Node::Add(a, b) => match spec_node_value(*b, defs) {
            Err(l) => Err(l),
            Ok(y) => match spec_node_value(*a, defs) {
                Err(l) => Err(l),
                Ok(x) => Ok(spec_wrapping_add(y, x)),
            },
        },
        Node::Sub(a, b) => match spec_node_value(*b, defs) {
            Err(l) => Err(l),
            Ok(y) => match spec_node_value(*a, defs) {
                Err(l) => Err(l),
                Ok(x) => Ok(spec_wrapping_sub(y, x)),
            },
        },
        Node::Rot(a, b) => match spec_node_value(*a, defs) {
            Err(l) => Err(l),
            Ok(top) => match spec_node_value(*b, defs) {
                Err(l) => Err(l),
                Ok(other) => Ok(spec_rotate(other, top)),
            },
        },
        Node::Orr(a, b) => match spec_node_value(*b, defs) {
            Err(l) => Err(l),
            Ok(y) => match spec_node_value(*a, defs) {
                Err(l) => Err(l),
                Ok(x) => Ok(y | x),
            },
        },
        Node::And(a, b) => match spec_node_value(*b, defs) {
            Err(l) => Err(l),
            Ok(y) => match spec_node_value(*a, defs) {
                Err(l) => Err(l),
                Ok(x) => Ok(y & x),
            },
        },
        Node::Xor(a, b) => match spec_node_value(*b, defs) {
            Err(l) => Err(l),
            Ok(y) => match spec_node_value(*a, defs) {
                Err(l) => Err(l),
                Ok(x) => Ok(y ^ x),
            },
        },
        Node::Xnd(_, _) => Ok(0),
        Node::Shl(a) => match spec_node_value(*a, defs) {
            Err(l) => Err(l),
            Ok(x) => Ok(((x * 2) % 256) as u8),
        },
        Node::Shr(a) => match spec_node_value(*a, defs) {
            Err(l) => Err(l),
            Ok(x) => Ok(x / 2),
        },
        Node::Not(a) => match spec_node_value(*a, defs) {
            Err(l) => Err(l),
            Ok(x) => Ok((255 - x) as u8),
        },
    }
}

/// Whether an evaluation result agrees with the spec result, the label taken by its view.
pub open spec fn spec_value_agrees(r: Result<u8, Label>, s: Result<u8, LabelView>) -> bool {
    match (r, s) {
        (Ok(a), Ok(b)) => a == b,
        (Err(a), Err(b)) => a@ == b,
        _ => false,
    }
}

pub(crate) fn label_eq(a: &Label, b: &Label) -> (r: bool)
    ensures
        r == (a@ == b@),
{
    match (a, b) {
        (Label::Local(x, u), Label::Local(y, v)) => *x == *y && *u == *v,
        (Label::Global(x), Label::Global(y)) => *x == *y,
        _ => false,
    }
}

/// A copy of a token.
pub fn copy_token(t: &Token) -> (r: Token)
    ensures
        r == *t,
{
    match t {
        Token::LabelDef(l) => Token::LabelDef(copy_label(l)),
        Token::LabelRef(l) => Token::LabelRef(copy_label(l)),
        Token::MacroDef(m) => Token::MacroDef(Macro(m.0.clone())),
        Token::MacroRef(m) => Token::MacroRef(Macro(m.0.clone())),
        Token::AtError => Token::AtError,
        Token::AtConst => Token::AtConst,
        Token::AtData => Token::AtData,
        Token::AtDyn => Token::AtDyn,
        Token::AtOrg => Token::AtOrg,
        Token::AtDD(x) => Token::AtDD(*x),
        Token::XXX(x) => Token::XXX(*x),
        Token::Add => Token::Add,
        Token::AdS(x) => Token::AdS(*x),
        Token::Sub => Token::Sub,
        Token::SuS(x) => Token::SuS(*x),
        Token::Iff => Token::Iff,
        Token::IfS(x) => Token::IfS(*x),
        Token::Swp => Token::Swp,
        Token::SwS(x) => Token::SwS(*x),
        Token::Rot => Token::Rot,
        Token::RoS(x) => Token::RoS(*x),
        Token::Orr => Token::Orr,
        Token::OrS(x) => Token::OrS(*x),
        Token::And => Token::And,
        Token::AnS(x) => Token::AnS(*x),
        Token::Xor => Token::Xor,
        Token::XoS(x) => Token::XoS(*x),
        Token::Xnd => Token::Xnd,
        Token::XnS(x) => Token::XnS(*x),
        Token::Inc => Token::Inc,
        Token::Dec => Token::Dec,
        Token::Neg => Token::Neg,
        Token::Shl => Token::Shl,
        Token::Shr => Token::Shr,
        Token::Not => Token::Not,
        Token::Buf => Token::Buf,
        Token::LdO(x) => Token::LdO(*x),
        Token::StO(x) => Token::StO(*x),
        Token::Lda => Token::Lda,
        Token::Sta => Token::Sta,
        Token::Ldi => Token::Ldi,
        Token::Sti => Token::Sti,
        Token::Lds => Token::Lds,
        Token::Sts => Token::Sts,
        Token::Clc => Token::Clc,
        Token::Sec => Token::Sec,
        Token::Flc => Token::Flc,
        Token::Nop => Token::Nop,
        Token::Pop => Token::Pop,
    }
}

/// A copy of a label.
pub fn copy_label(l: &Label) -> (r: Label)
    ensures
        r == *l,
{
    match l {
        Label::Local(x, u) => Label::Local(x.clone(), *u),
        Label::Global(x) => Label::Global(x.clone()),
    }
}

pub(crate) fn label_address(defs: &Vec<(Label, u8)>, l: &Label) -> (r: Option<u8>)
    ensures
        r == spec_label_address(defs@, l@),
{
    let mut i: usize = 0;
    assert(defs@.subrange(0, defs.len() as int) == defs@);
    while i < defs.len()
        invariant
            i <= defs.len(),
            spec_label_address(defs@, l@) == spec_label_address(defs@.subrange(i as int, defs.len() as int), l@),
        decreases defs.len() - i,
    {
        let ghost rest = defs@.subrange(i as int, defs.len() as int);
        assert(rest[0] == defs@[i as int]);
        assert(rest.drop_first() == defs@.subrange(i + 1, defs.len() as int));
        if label_eq(&defs[i].0, l) {
            return Some(defs[i].1);
        }
        i = i + 1;
    }
    None
}

/// Evaluates a node, looking labels up in `label_definitions`; the first label without an
/// address, in evaluation order, is the error.
pub fn resolve_node_value(node: &Node, label_definitions: &Vec<(Label, u8)>) -> (r: Result<u8, Label>)
    ensures
        spec_value_agrees(r, spec_node_value(*node, label_definitions@)),
    decreases node,
{
    match node {
        Node::LabelRef(label) => match label_address(label_definitions, label) {
            Some(v) => Ok(v),
            None => Err(copy_label(label)),
        },
        Node::Value(value) => Ok(*value),
        Node::Add(a, b) => {
            let y = resolve_node_value(b, label_definitions)?;
            let x = resolve_node_value(a, label_definitions)?;
            Ok(((y as u16 + x as u16) % 256) as u8)
        },
        Node::Sub(a, b) => {
            let y = resolve_node_value(b, label_definitions)?;
            let x = resolve_node_value(a, label_definitions)?;
            Ok(((y as u16 + 256 - x as u16) % 256) as u8)
        },
        Node::Rot(a, b) => {
            let top = resolve_node_value(a, label_definitions)?;
            let other = resolve_node_value(b, label_definitions)?;
            Ok(rotate(other, top))
        },
        Node::Orr(a, b) => {
            let y = resolve_node_value(b, label_definitions)?;
            let x = resolve_node_value(a, label_definitions)?;
            Ok(y | x)
        },
        Node::And(a, b) => {
            let y = resolve_node_value(b, label_definitions)?;
            let x = resolve_node_value(a, label_definitions)?;
            Ok(y & x)
        },
        Node::Xor(a, b) => {
            let y = resolve_node_value(b, label_definitions)?;
            let x = resolve_node_value(a, label_definitions)?;
            Ok(y ^ x)
        },
        Node::Xnd(_, _) => Ok(0),
        Node::Shl(a) => {
            let x = resolve_node_value(a, label_definitions)?;
            Ok((x % 128) * 2)
        },
        Node::Shr(a) => {
            let x = resolve_node_value(a, label_definitions)?;
            Ok(x / 2)
        },
        Node::Not(a) => {
            let x = resolve_node_value(a, label_definitions)?;
            Ok(255 - x)
        },
    }
}

/// The instructions that push a byte: `psh` for seven-bit values, `phn` for `0xF0..=0xFF`,
/// `psh` and `inc` for `0x80`, and otherwise `psh` of the negation and `neg`.
pub open spec fn spec_push_immediate(value: u8) -> Seq<Instruction> {
    if value >= 0xF0 {
        seq![Instruction::Phn(Nimm(value))]
    } else if value == 0x80 {
        seq![Instruction::Psh(Imm(0x7F)), Instruction::Inc]
    } else if value <= 0x7F {
        seq![Instruction::Psh(Imm(value))]
    } else {
        let negated = (256 - value) as u8;
        seq![Instruction::Psh(Imm(negated)), Instruction::Neg]
    }
}

/// A copy of a position.
pub fn copy_pos(p: &Pos) -> (r: Pos)
    ensures
        r == *p,
{
    Pos(File(p.0.0.clone()), p.1, p.2)
}

/// The instructions that push `value`, each at position `pos`.
pub fn codegen_push_immediate(value: u8, pos: &Pos) -> (r: Vec<(Pos, Instruction)>)
    ensures
        r@.len() == spec_push_immediate(value).len(),
        forall|i: int| #![trigger r@[i]] 0 <= i < r@.len() ==> r@[i].0 == *pos && r@[i].1 == spec_push_immediate(value)[i],
{
    let instructions: Vec<Instruction> = if value >= 0xF0 {
        vec![Instruction::Phn(Nimm::asserted(value))]
    } else if value == 0x80 {
        vec![Instruction::Psh(Imm::asserted(0x7F)), Instruction::Inc]
    } else if value <= 0x7F {
        vec![Instruction::Psh(Imm::asserted(value))]
    } else {
        let negated: u8 = (256 - value as u16) as u8;
        vec![Instruction::Psh(Imm::asserted(negated)), Instruction::Neg]
    };
    let mut r: Vec<(Pos, Instruction)> = Vec::new();
    let mut i: usize = 0;
    while i < instructions.len()
        invariant
            i <= instructions.len(),
            instructions@ == spec_push_immediate(value),
            r@.len() == i,
            forall|j: int| 0 <= j < i ==> r@[j].0 == *pos && r@[j].1 == instructions@[j],
        decreases instructions.len() - i,
    {
        r.push((copy_pos(pos), instructions[i]));
        i = i + 1;
    }
    r
}

/// Running instructions one after another on the emulator, stopping at the first trap.
pub open spec fn spec_run(s: EmuState, instructions: Seq<Instruction>) -> (EmuState, bool)
    decreases instructions.len(),
{
    if instructions.len() == 0 {
        (s, true)
    } else {
        let (s1, r) = spec_execute(s, instructions[0]);
        if r is Ok {
            spec_run(s1, instructions.drop_first())
        } else {
            (s1, false)
        }
    }
}

/// The instructions that push a byte leave the machine as a push of that byte does, where the
/// byte does not go to standard output (the stack pointer is not one).
pub proof fn law_push_immediate(s: EmuState, value: u8)
    requires
        spec_state_wf(s),
        s.sp != 1,
    ensures
        spec_run(s, spec_push_immediate(value)) == (spec_push(s, value), true),
{
    reveal_with_fuel(spec_run, 3);
    let p = spec_push_immediate(value);
    if p.len() == 2 {
        let first = p[0];
        let (s1, r1) = spec_execute(s, first);
        let a = if s.sp == 0 { 0xFFu8 } else { (s.sp - 1) as u8 };
        assert(a != 0);
        let (s2, r2) = spec_execute(s1, p[1]);
        assert(p.drop_first().drop_first().len() == 0);
        assert(s2.mem =~= spec_push(s, value).mem);
        assert(s2.display =~= spec_push(s, value).display);
        assert(s2 == spec_push(s, value));
    } else {
        assert(p.drop_first().len() == 0);
    }
}

/// The uppercase hexadecimal digits of a number, without leading zeros.
pub open spec fn spec_hex_digits(n: nat) -> Seq<char>
    decreases n,
{
    if n < 16 {
        seq![spec_hex_digit(n as int)]
    } else {
        spec_hex_digits(n / 16).push(spec_hex_digit((n % 16) as int))
    }
}

/// The uppercase hexadecimal digits of a number, at least two.
pub open spec fn spec_hex_pad2(n: nat) -> Seq<char> {
    if n < 16 {
        seq!['0', spec_hex_digit(n as int)]
    } else {
        spec_hex_digits(n)
    }
}

fn push_hex_digits(out: &mut Vec<char>, n: usize)
    ensures
        final(out)@ == old(out)@ + spec_hex_digits(n as nat),
    decreases n,
{
    if n >= 16 {
        push_hex_digits(out, n / 16);
    }
    out.push(hex_digit((n % 16) as u8));
}

pub(crate) fn push_hex_pad2(out: &mut Vec<char>, n: usize)
    ensures
        final(out)@ == old(out)@ + spec_hex_pad2(n as nat),
{
    if n < 16 {
        out.push('0');
        out.push(hex_digit(n as u8));
    } else {
        push_hex_digits(out, n);
    }
}

/// The message and position of errors, the message taken as characters.
pub open spec fn spec_errors(errors: Seq<(Pos, Error)>) -> Seq<(Pos, Seq<char>)> {
    errors.map(|_i: int, e: (Pos, Error)| (e.0, e.1.0@))
}

/// The message for a program that does not fit in memory.
pub open spec fn spec_size_message(len: nat) -> Seq<char> {
    "Program size "@ + spec_hex_pad2(len) + " exceeds available memory of size "@ + spec_hex_pad2(
        MEM_SIZE as nat,
    )
}

/// The position of the padding bytes.
pub open spec fn spec_padding_pos(p: Pos) -> bool {
    p.0.0@ == "[codegen]"@ && p.1 == 0 && p.2 == 0
}

/// Encodes instructions into opcodes and pads them with zeros to the size of memory. A program
/// larger than memory is reported at its first byte past the end. Every operand must lie in its
/// range.
pub fn codegen(instructions: Vec<(Pos, Result<Instruction, u8>)>, errors: &mut Vec<(Pos, Error)>) -> (r: Vec<(Pos, u8)>)
    requires
        forall|i: int| 0 <= i < instructions@.len() ==> spec_decoded_valid(#[trigger] instructions@[i].1),
    ensures
        r@.len() == if instructions@.len() <= MEM_SIZE { MEM_SIZE as int } else { instructions@.len() as int },
        forall|i: int| 0 <= i < instructions@.len() ==> #[trigger] r@[i] == (instructions@[i].0, spec_instruction_to_opcode(instructions@[i].1)),
        forall|i: int| instructions@.len() <= i < r@.len() ==> spec_padding_pos(#[trigger] r@[i].0) && r@[i].1 == 0,
        instructions@.len() <= MEM_SIZE ==> spec_errors(final(errors)@) == spec_errors(old(errors)@),
        instructions@.len() > MEM_SIZE ==> spec_errors(final(errors)@) == spec_errors(old(errors)@).push(
            (instructions@[MEM_SIZE as int].0, spec_size_message(instructions@.len() as nat)),
        ),
{
    let n = instructions.len();
    let mut opcodes: Vec<(Pos, u8)> = Vec::new();
    let mut i: usize = 0;
    while i < n
        invariant
            n == instructions@.len(),
            i <= n,
            opcodes@.len() == i,
            forall|j: int| 0 <= j < instructions@.len() ==> spec_decoded_valid(#[trigger] instructions@[j].1),
            forall|j: int| 0 <= j < i ==> #[trigger] opcodes@[j] == (instructions@[j].0, spec_instruction_to_opcode(instructions@[j].1)),
        decreases n - i,
    {
        let opcode = instruction_to_opcode(instructions[i].1);
        opcodes.push((copy_pos(&instructions[i].0), opcode));
        i = i + 1;
    }
    if n <= MEM_SIZE {
        while opcodes.len() < MEM_SIZE
            invariant
                n == instructions@.len(),
                n <= opcodes@.len() <= MEM_SIZE,
                forall|j: int| 0 <= j < n ==> #[trigger] opcodes@[j] == (instructions@[j].0, spec_instruction_to_opcode(instructions@[j].1)),
                forall|j: int| n <= j < opcodes@.len() ==> spec_padding_pos(#[trigger] opcodes@[j].0) && opcodes@[j].1 == 0,
            decreases MEM_SIZE - opcodes.len(),
        {
            opcodes.push((Pos(File(String::from_str("[codegen]")), 0, 0), 0));
        }
    } else {
        let mut message: Vec<char> = Vec::new();
        push_str(&mut message, "Program size ");
        push_hex_pad2(&mut message, n);
        push_str(&mut message, " exceeds available memory of size ");
        push_hex_pad2(&mut message, MEM_SIZE);
        let ghost before = errors@;
        errors.push((copy_pos(&opcodes[MEM_SIZE].0), Error(string_from_chars(&message))));
        assert(spec_errors(errors@) =~= spec_errors(before).push(
            (instructions@[MEM_SIZE as int].0, spec_size_message(n as nat)),
        ));
    }
    opcodes
}

/// The token a mnemonic reads as; an unreadable mnemonic stands for `nop`.
pub open spec fn spec_token_or_nop(m: Seq<char>) -> TokenView {
    match spec_mnemonic_token(m) {
        Some(t) => t,
        None => TokenView::Plain(Token::Nop),
    }
}

/// The errors for the mnemonics that read as no token, in order.
pub open spec fn spec_tokenize_errors(ms: Seq<(Pos, Mnemonic)>) -> Seq<(Pos, Seq<char>)>
    decreases ms.len(),
{
    if ms.len() == 0 {
        Seq::empty()
    } else {
        let rest = spec_tokenize_errors(ms.drop_last());
        let (p, m) = ms.last();
        if spec_mnemonic_token(m.0@) is None {
            rest.push((p, "Invalid mnemonic `"@ + m.0@ + "`"@))
        } else {
            rest
        }
    }
}

/// Reads each mnemonic as a token; one that reads as none is reported and stands for `nop`.
pub fn tokenize(mnemonics: Vec<(Pos, Mnemonic)>, errors: &mut Vec<(Pos, Error)>) -> (r: Vec<(Pos, Token)>)
    requires
        forall|i: int| 0 <= i < mnemonics@.len() ==> !spec_mnemonic_unreadable(#[trigger] mnemonics@[i].1.0@),
    ensures
        r@.len() == mnemonics@.len(),
        forall|i: int| 0 <= i < r@.len() ==> (#[trigger] r@[i]).0 == mnemonics@[i].0,
        forall|i: int| 0 <= i < r@.len() ==> (#[trigger] r@[i]).1@ == spec_token_or_nop(mnemonics@[i].1.0@),
        spec_errors(final(errors)@) == spec_errors(old(errors)@) + spec_tokenize_errors(mnemonics@),
{
    let mut tokens: Vec<(Pos, Token)> = Vec::new();
    let mut i: usize = 0;
    assert(spec_errors(errors@) == spec_errors(old(errors)@) + spec_tokenize_errors(mnemonics@.subrange(0, 0)));
    while i < mnemonics.len()
        invariant
            i <= mnemonics@.len(),
            tokens@.len() == i,
            forall|j: int| 0 <= j < mnemonics@.len() ==> !spec_mnemonic_unreadable(#[trigger] mnemonics@[j].1.0@),
            forall|j: int| 0 <= j < i ==> (#[trigger] tokens@[j]).0 == mnemonics@[j].0,
            forall|j: int| 0 <= j < i ==> (#[trigger] tokens@[j]).1@ == spec_token_or_nop(mnemonics@[j].1.0@),
            spec_errors(errors@) == spec_errors(old(errors)@) + spec_tokenize_errors(mnemonics@.subrange(0, i as int)),
        decreases mnemonics.len() - i,
    {
        let pos = copy_pos(&mnemonics[i].0);
        let text = mnemonics[i].1.0.clone();
        let ghost before = errors@;
        proof {
            let sub = mnemonics@.subrange(0, i + 1 as int);
            assert(sub.drop_last() == mnemonics@.subrange(0, i as int));
            assert(sub.last() == mnemonics@[i as int]);
        }
        let token = match mnemonic_to_token(Mnemonic(text)) {
            Some(t) => t,
            None => {
                let mut message: Vec<char> = Vec::new();
                push_str(&mut message, "Invalid mnemonic `");
                let mut m = string_chars(&mnemonics[i].1.0);
                message.append(&mut m);
                push_str(&mut message, "`");
                errors.push((copy_pos(&mnemonics[i].0), Error(string_from_chars(&message))));
                assert(spec_errors(errors@) =~= spec_errors(before).push(
                    (mnemonics@[i as int].0, "Invalid mnemonic `"@ + mnemonics@[i as int].1.0@ + "`"@),
                ));
                Token::Nop
            },
        };
        tokens.push((pos, token));
        i = i + 1;
    }
    assert(mnemonics@.subrange(0, mnemonics@.len() as int) == mnemonics@);
    tokens
}

/// The state of splitting a line after its first `k` characters: the words found, the word
/// being read, and the position it starts at.
pub struct SplitState {
    pub words: Seq<(Pos, Seq<char>)>,
    pub word: Seq<char>,
    pub pos: Pos,
}

/// The words found so far, with the word being read if it is not empty.
pub open spec fn spec_flush(st: SplitState) -> Seq<(Pos, Seq<char>)> {
    if st.word.len() > 0 {
        st.words.push((st.pos, st.word))
    } else {
        st.words
    }
}

/// Splitting the first `k` characters of a line at white space. After white space at column
/// `c`, the next word starts at column `c + 1`.
pub open spec fn spec_split(line: Seq<char>, pos: Pos, k: nat) -> SplitState
    decreases k,
{
    if k == 0 {
        SplitState { words: Seq::empty(), word: Seq::empty(), pos }
    } else {
        let st = spec_split(line, pos, (k - 1) as nat);
        let c = line[k - 1];
        if spec_is_whitespace(c) {
            SplitState {
                words: spec_flush(st),
                word: Seq::empty(),
                pos: Pos(st.pos.0, st.pos.1, k as usize),
            }
        } else {
            SplitState { word: st.word.push(c), ..st }
        }
    }
}

/// The non-empty words of a line, each with its position.
pub open spec fn spec_line_mnemonics(line: Seq<char>, pos: Pos) -> Seq<(Pos, Seq<char>)> {
    spec_flush(spec_split(line, pos, line.len()))
}

/// The non-empty words of the lines, in order.
pub open spec fn spec_mnemonize(lines: Seq<(Pos, String)>) -> Seq<(Pos, Seq<char>)>
    decreases lines.len(),
{
    if lines.len() == 0 {
        Seq::empty()
    } else {
        spec_mnemonize(lines.drop_last()) + spec_line_mnemonics(lines.last().1@, lines.last().0)
    }
}

/// The mnemonics with their text taken as characters.
pub open spec fn spec_mnemonics(ms: Seq<(Pos, Mnemonic)>) -> Seq<(Pos, Seq<char>)> {
    ms.map(|_i: int, m: (Pos, Mnemonic)| (m.0, m.1.0@))
}

fn flush(out: &mut Vec<(Pos, Mnemonic)>, word: &Vec<char>, pos: &Pos)
    ensures
        spec_mnemonics(final(out)@) == spec_mnemonics(old(out)@) + spec_flush(
            SplitState { words: Seq::empty(), word: word@, pos: *pos },
        ),
{
    let ghost before = out@;
    if word.len() > 0 {
        out.push((copy_pos(pos), Mnemonic(string_from_chars(word))));
        assert(spec_mnemonics(out@) =~= spec_mnemonics(before).push((*pos, word@)));
    }
    assert(spec_mnemonics(out@) =~= spec_mnemonics(before) + spec_flush(
        SplitState { words: Seq::empty(), word: word@, pos: *pos },
    ));
}

proof fn lemma_flush_words(st: SplitState)
    ensures
        spec_flush(st) == st.words + spec_flush(SplitState { words: Seq::empty(), ..st }),
{
    if st.word.len() > 0 {
        assert(st.words.push((st.pos, st.word)) =~= st.words + seq![(st.pos, st.word)]);
    } else {
        assert(st.words + Seq::<(Pos, Seq<char>)>::empty() =~= st.words);
    }
}

fn mnemonize_line(out: &mut Vec<(Pos, Mnemonic)>, line: &String, start: &Pos)
    ensures
        spec_mnemonics(final(out)@) == spec_mnemonics(old(out)@) + spec_line_mnemonics(line@, *start),
{
    let chars = string_chars(line);
    let ghost base = spec_mnemonics(out@);
    let mut pos = copy_pos(start);
    let mut word: Vec<char> = Vec::new();
    let mut k: usize = 0;
    while k < chars.len()
        invariant
            k <= chars@.len(),
            chars@ == line@,
            spec_split(line@, *start, k as nat).word == word@,
            spec_split(line@, *start, k as nat).pos == pos,
            spec_mnemonics(out@) == base + spec_split(line@, *start, k as nat).words,
        decreases chars.len() - k,
    {
        let c = chars[k];
        if is_whitespace(c) {
            let ghost st = spec_split(line@, *start, k as nat);
            flush(out, &word, &pos);
            proof {
                lemma_flush_words(st);
            }
            word = Vec::new();
            pos = Pos(File(pos.0.0.clone()), pos.1, k + 1);
        } else {
            word.push(c);
        }
        k = k + 1;
    }
    let ghost st = spec_split(line@, *start, k as nat);
    flush(out, &word, &pos);
    proof {
        lemma_flush_words(st);
    }
}

/// Splits every line into its whitespace-separated words, each with the position it starts at;
/// empty words are left out.
pub fn mnemonize(lines: Vec<(Pos, String)>, _errors: &mut Vec<(Pos, Error)>) -> (r: Vec<(Pos, Mnemonic)>)
    ensures
        spec_mnemonics(r@) == spec_mnemonize(lines@),
        *final(_errors) == *old(_errors),
{
    let mut out: Vec<(Pos, Mnemonic)> = Vec::new();
    let mut i: usize = 0;
    while i < lines.len()
        invariant
            i <= lines@.len(),
            spec_mnemonics(out@) == spec_mnemonize(lines@.subrange(0, i as int)),
        decreases lines.len() - i,
    {
        proof {
            let sub = lines@.subrange(0, i + 1 as int);
            assert(sub.drop_last() == lines@.subrange(0, i as int));
            assert(sub.last() == lines@[i as int]);
        }
        mnemonize_line(&mut out, &lines[i].1, &lines[i].0);
        i = i + 1;
    }
    assert(lines@.subrange(0, lines@.len() as int) == lines@);
    out
}


/// The value of an `and` node has exactly the bits set in both operands.
pub proof fn law_node_and_bits(a: Node, b: Node, defs: Seq<(Label, u8)>, k: u8)
    requires
        spec_node_value(a, defs) is Ok,
        spec_node_value(b, defs) is Ok,
        k < 8,
    ensures
        spec_node_value(Node::And(Box::new(a), Box::new(b)), defs) matches Ok(r) && spec_byte_bit(r, k) == (
        spec_byte_bit(spec_node_value(a, defs)->Ok_0, k) && spec_byte_bit(spec_node_value(b, defs)->Ok_0, k)),
{
    let x = spec_node_value(a, defs)->Ok_0;
    let y = spec_node_value(b, defs)->Ok_0;
    assert(((y & x) >> k) & 1 == 1 <==> ((x >> k) & 1 == 1 && (y >> k) & 1 == 1)) by (bit_vector)
        requires k < 8;
}

/// The value of an `orr` node has exactly the bits set in either operand.
pub proof fn law_node_orr_bits(a: Node, b: Node, defs: Seq<(Label, u8)>, k: u8)
    requires
        spec_node_value(a, defs) is Ok,
        spec_node_value(b, defs) is Ok,
        k < 8,
    ensures
        spec_node_value(Node::Orr(Box::new(a), Box::new(b)), defs) matches Ok(r) && spec_byte_bit(r, k) == (
        spec_byte_bit(spec_node_value(a, defs)->Ok_0, k) || spec_byte_bit(spec_node_value(b, defs)->Ok_0, k)),
{
    let x = spec_node_value(a, defs)->Ok_0;
    let y = spec_node_value(b, defs)->Ok_0;
    assert(((y | x) >> k) & 1 == 1 <==> ((x >> k) & 1 == 1 || (y >> k) & 1 == 1)) by (bit_vector)
        requires k < 8;
}

/// The value of a `xor` node has exactly the bits set in one operand but not the other.
pub proof fn law_node_xor_bits(a: Node, b: Node, defs: Seq<(Label, u8)>, k: u8)
    requires
        spec_node_value(a, defs) is Ok,
        spec_node_value(b, defs) is Ok,
        k < 8,
    ensures
        spec_node_value(Node::Xor(Box::new(a), Box::new(b)), defs) matches Ok(r) && spec_byte_bit(r, k) == (
        spec_byte_bit(spec_node_value(a, defs)->Ok_0, k) != spec_byte_bit(spec_node_value(b, defs)->Ok_0, k)),
{
    let x = spec_node_value(a, defs)->Ok_0;
    let y = spec_node_value(b, defs)->Ok_0;
    assert(((y ^ x) >> k) & 1 == 1 <==> ((x >> k) & 1 == 1) != ((y >> k) & 1 == 1)) by (bit_vector)
        requires k < 8;
}

/// The value of a `not` node has exactly the bits its operand lacks.
pub proof fn law_node_not_bits(a: Node, defs: Seq<(Label, u8)>, k: u8)
    requires
        spec_node_value(a, defs) is Ok,
        k < 8,
    ensures
        spec_node_value(Node::Not(Box::new(a)), defs) matches Ok(r) && spec_byte_bit(r, k) == !spec_byte_bit(
            spec_node_value(a, defs)->Ok_0,
            k,
        ),
{
    let x = spec_node_value(a, defs)->Ok_0;
    assert((((255 - x) as u8) >> k) & 1 == 1 <==> !((x >> k) & 1 == 1)) by (bit_vector)
        requires k < 8;
}

/// Addition and subtraction of nodes undo each other: `b` added to `a`, less `a`, is `b`; and
/// addition does not depend on the order of its operands.
pub proof fn law_node_add_sub(a: Node, b: Node, defs: Seq<(Label, u8)>)
    requires
        spec_node_value(a, defs) is Ok,
        spec_node_value(b, defs) is Ok,
    ensures
        spec_node_value(Node::Sub(Box::new(a), Box::new(Node::Add(Box::new(a), Box::new(b)))), defs)
            == spec_node_value(b, defs),
        spec_node_value(Node::Add(Box::new(a), Box::new(b)), defs) == spec_node_value(
            Node::Add(Box::new(b), Box::new(a)),
            defs,
        ),
{
}

/// Subtracting a node from itself gives zero, and adding zero changes nothing.
pub proof fn law_node_sub_self(a: Node, defs: Seq<(Label, u8)>)
    requires
        spec_node_value(a, defs) is Ok,
    ensures
        spec_node_value(Node::Sub(Box::new(a), Box::new(a)), defs) == Ok::<u8, LabelView>(0),
        spec_node_value(Node::Add(Box::new(Node::Value(0)), Box::new(a)), defs) == spec_node_value(a, defs),
{
    let x = spec_node_value(a, defs)->Ok_0;
    assert(spec_node_value(Node::Value(0), defs) == Ok::<u8, LabelView>(0));
    assert(spec_wrapping_add(x, 0) == x);
}

/// Shifting left doubles modulo 256, as adding a node to itself does; shifting right halves,
/// the lowest bit dropped.
pub proof fn law_node_shifts(a: Node, defs: Seq<(Label, u8)>)
    requires
        spec_node_value(a, defs) is Ok,
    ensures
        spec_node_value(Node::Shl(Box::new(a)), defs) == spec_node_value(Node::Add(Box::new(a), Box::new(a)), defs),
        spec_node_value(Node::Shr(Box::new(a)), defs) matches Ok(h) && 2 * h + spec_node_value(a, defs)->Ok_0 % 2
            == spec_node_value(a, defs)->Ok_0,
{
}

/// A label reference has the address of the first definition of its label, and an undefined
/// label is reported.
pub proof fn law_node_label(l: Label, v: u8, defs: Seq<(Label, u8)>)
    ensures
        spec_node_value(Node::LabelRef(l), seq![(l, v)] + defs) == Ok::<u8, LabelView>(v),
        spec_node_value(Node::LabelRef(l), Seq::<(Label, u8)>::empty()) == Err::<u8, LabelView>(l@),
{
    assert((seq![(l, v)] + defs)[0] == (l, v));
}


/// The value of a `rot` node is its second operand rotated left by its first: bit `j` of the
/// result is the bit `n` places below it, round the byte, of the rotated value.
pub proof fn law_node_rot_bits(a: Node, b: Node, defs: Seq<(Label, u8)>, j: u8)
    requires
        spec_node_value(a, defs) is Ok,
        spec_node_value(b, defs) is Ok,
        j < 8,
    ensures
        ({
            let n = spec_node_value(a, defs)->Ok_0;
            let v = spec_node_value(b, defs)->Ok_0;
            spec_node_value(Node::Rot(Box::new(a), Box::new(b)), defs) matches Ok(r) && spec_byte_bit(r, j)
                == spec_byte_bit(v, ((j + 8 - n % 8) % 8) as u8)
        }),
{
    let n = spec_node_value(a, defs)->Ok_0;
    let v = spec_node_value(b, defs)->Ok_0;
    let k = n % 8;
    assert(((((v << k) | (v >> (8 - k) as u8)) >> j) & 1 == 1) <==> ((v >> (((j + 8 - k) % 8) as u8)) & 1 == 1))
        by (bit_vector)
        requires
            j < 8,
            k < 8,
    ;
}

} // verus!
