//! The first passes of the assembler's optimizer: how each root affects the stack, and the
//! passes that hand the directives `@const`, `@dyn`, `@data` and `@org` their arguments.

use vstd::prelude::*;
use crate::assembler::{copy_pos, Node};
use crate::common::{opcode_to_instruction, spec_opcode_to_instruction, Instruction};
use crate::expansion::Root;
use crate::token::Pos;

verus! {

/// What a root does to the stack: pushes, pops, maps one or two values, or has an effect that
/// must stay (a write to memory or a register, or a directive).
#[derive(Clone, Copy, Debug, PartialEq, Eq, Structural)]
pub enum OpType {
    NoOp,
    PushOp,
    PopOp,
    UnaryOp,
    BinaryOp,
    DualOp,
    Impure,
}

/// The effect of an instruction on the stack. A binary operation on more than one byte writes
/// below the top and is impure; `clc`, `sec` and `flc` are impure so that they stay as written.
pub open spec fn spec_instruction_op_type(i: Instruction) -> OpType {
    match i {
        Instruction::Psh(_) => OpType::PushOp,
        Instruction::Add(s) => if s.0 == 1 { OpType::BinaryOp } else { OpType::Impure },
        Instruction::Sub(s) => if s.0 == 1 { OpType::BinaryOp } else { OpType::Impure },
        Instruction::Iff(s) => if s.0 == 1 { OpType::BinaryOp } else { OpType::Impure },
        Instruction::Swp(s) => if s.0 == 1 { OpType::DualOp } else { OpType::Impure },
        Instruction::Rot(s) => if s.0 == 1 { OpType::BinaryOp } else { OpType::Impure },
        Instruction::Orr(s) => if s.0 == 1 { OpType::BinaryOp } else { OpType::Impure },
        Instruction::And(s) => if s.0 == 1 { OpType::BinaryOp } else { OpType::Impure },
        Instruction::Xor(s) => if s.0 == 1 { OpType::BinaryOp } else { OpType::Impure },
        Instruction::Xnd(s) => if s.0 == 1 { OpType::BinaryOp } else { OpType::Impure },
        Instruction::Inc | Instruction::Dec | Instruction::Neg | Instruction::Shl
        | Instruction::Shr | Instruction::Not | Instruction::Lda => OpType::UnaryOp,
        Instruction::Buf | Instruction::Nop => OpType::NoOp,
        Instruction::Ldo(_) | Instruction::Ldi | Instruction::Lds | Instruction::Phn(_) => OpType::PushOp,
        Instruction::Pop => OpType::PopOp,
        _ => OpType::Impure,
    }
}

/// The effect of a root on the stack: a node or a conditional pushes one value, label
/// definitions and directives are impure.
pub open spec fn spec_op_type(r: Root) -> OpType {
    match r {
        Root::Instruction(i) => spec_instruction_op_type(i),
        Root::Conditional(_, _) => OpType::PushOp,
        Root::Node(_) => OpType::PushOp,
        _ => OpType::Impure,
    }
}

/// The effect of a root on the stack.
pub fn op_type(r: &Root) -> (t: OpType)
    ensures
        t == spec_op_type(*r),
{
    match r {
        Root::Instruction(i) => match *i {
            Instruction::Psh(_) => OpType::PushOp,
            Instruction::Add(s) => if s.0 == 1 { OpType::BinaryOp } else { OpType::Impure },
            Instruction::Sub(s) => if s.0 == 1 { OpType::BinaryOp } else { OpType::Impure },
            Instruction::Iff(s) => if s.0 == 1 { OpType::BinaryOp } else { OpType::Impure },
            Instruction::Swp(s) => if s.0 == 1 { OpType::DualOp } else { OpType::Impure },
            Instruction::Rot(s) => if s.0 == 1 { OpType::BinaryOp } else { OpType::Impure },
            Instruction::Orr(s) => if s.0 == 1 { OpType::BinaryOp } else { OpType::Impure },
            Instruction::And(s) => if s.0 == 1 { OpType::BinaryOp } else { OpType::Impure },
            Instruction::Xor(s) => if s.0 == 1 { OpType::BinaryOp } else { OpType::Impure },
            Instruction::Xnd(s) => if s.0 == 1 { OpType::BinaryOp } else { OpType::Impure },
            Instruction::Inc | Instruction::Dec | Instruction::Neg | Instruction::Shl
            | Instruction::Shr | Instruction::Not | Instruction::Lda => OpType::UnaryOp,
            Instruction::Buf | Instruction::Nop => OpType::NoOp,
            Instruction::Ldo(_) | Instruction::Ldi | Instruction::Lds | Instruction::Phn(_) => OpType::PushOp,
            Instruction::Pop => OpType::PopOp,
            _ => OpType::Impure,
        },
        Root::Conditional(_, _) => OpType::PushOp,
        Root::Node(_) => OpType::PushOp,
        _ => OpType::Impure,
    }
}

/// The carry instructions and every `@dyn` are impure, so no stack rule of the optimizer touches
/// them.
pub proof fn law_carry_and_dyn_are_impure(d: Option<Instruction>)
    ensures
        spec_op_type(Root::Instruction(Instruction::Clc)) == OpType::Impure,
        spec_op_type(Root::Instruction(Instruction::Sec)) == OpType::Impure,
        spec_op_type(Root::Instruction(Instruction::Flc)) == OpType::Impure,
        spec_op_type(Root::Dyn(d)) == OpType::Impure,
{
}

/// The directive rule on two adjacent roots: a node before `@const` stays alone; an instruction
/// before an empty `@dyn`, or a value that encodes a push, becomes its argument, and a `@dyn`
/// with an argument absorbs an empty one; a node before an empty `@data` or `@org` becomes its
/// argument.
pub open spec fn spec_directive_rule(a: Root, b: Root) -> Option<Root> {
    match (a, b) {
        (Root::Node(_), Root::Const) => Some(a),
        (Root::Instruction(i), Root::Dyn(None)) => Some(Root::Dyn(Some(i))),
        (Root::Dyn(Some(_)), Root::Dyn(None)) => Some(a),
        (Root::Node(Node::Value(v)), Root::Dyn(None)) => match spec_opcode_to_instruction(v) {
            Ok(i) => if (i is Psh) || (i is Phn) { Some(Root::Dyn(Some(i))) } else { None },
            Err(_) => None,
        },
        (Root::Node(n), Root::Data(None)) => Some(Root::Data(Some(n))),
        (Root::Node(n), Root::Org(None)) => Some(Root::Org(Some(n))),
        _ => None,
    }
}

/// The directive pass: left to right, each pair the rule rewrites becomes one root at the
/// position of the first, and the scan goes on after the pair.
pub open spec fn spec_directive_pass(s: Seq<(Pos, Root)>) -> Seq<(Pos, Root)>
    decreases s.len(),
{
    if s.len() < 2 {
        s
    } else {
        match spec_directive_rule(s[0].1, s[1].1) {
            Some(r) => seq![(s[0].0, r)] + spec_directive_pass(s.subrange(2, s.len() as int)),
            None => seq![s[0]] + spec_directive_pass(s.drop_first()),
        }
    }
}

/// The roots of a vector in reverse, so that popping gives them in order.
fn reversed(v: Vec<(Pos, Root)>) -> (r: Vec<(Pos, Root)>)
    ensures
        r@ == v@.reverse(),
{
    let mut v = v;
    let mut r: Vec<(Pos, Root)> = Vec::new();
    let ghost orig = v@;
    while v.len() > 0
        invariant
            v@ + r@.reverse() == orig,
        decreases v.len(),
    {
        let ghost before = v@;
        let x = v.pop().unwrap();
        proof {
            assert(before == v@.push(x));
        }
        r.push(x);
        proof {
            assert(r@.reverse() =~= seq![x] + (r@.drop_last()).reverse());
            assert(v@ + r@.reverse() =~= before + (r@.drop_last()).reverse());
        }
    }
    proof {
        assert(r@.reverse().reverse() =~= r@);
        assert(orig.reverse() =~= r@.reverse().reverse());
    }
    r
}

/// The number of `@dyn` roots that carry their instruction.
pub open spec fn spec_dyn_count(s: Seq<(Pos, Root)>) -> nat
    decreases s.len(),
{
    if s.len() == 0 {
        0
    } else {
        (if s[0].1 matches Root::Dyn(Some(_)) { 1nat } else { 0nat }) + spec_dyn_count(s.drop_first())
    }
}

proof fn lemma_dyn_count_add(a: Seq<(Pos, Root)>, b: Seq<(Pos, Root)>)
    ensures
        spec_dyn_count(a + b) == spec_dyn_count(a) + spec_dyn_count(b),
    decreases a.len(),
{
    if a.len() > 0 {
        assert((a + b).drop_first() =~= a.drop_first() + b);
        lemma_dyn_count_add(a.drop_first(), b);
    } else {
        assert(a + b =~= b);
    }
}

/// The directive pass loses no `@dyn` that already carries its instruction: each stays, and an
/// instruction or a pushed value before an empty `@dyn` makes one more.
pub proof fn law_directive_pass_keeps_dyn(s: Seq<(Pos, Root)>)
    ensures
        spec_dyn_count(spec_directive_pass(s)) >= spec_dyn_count(s),
    decreases s.len(),
{
    if s.len() >= 2 {
        reveal_with_fuel(spec_dyn_count, 3);
        let rest2 = s.subrange(2, s.len() as int);
        assert(s =~= seq![s[0], s[1]] + rest2);
        lemma_dyn_count_add(seq![s[0], s[1]], rest2);
        assert(s.drop_first() =~= seq![s[1]] + rest2);
        lemma_dyn_count_add(seq![s[1]], rest2);
        match spec_directive_rule(s[0].1, s[1].1) {
            Some(r) => {
                law_directive_pass_keeps_dyn(rest2);
                lemma_dyn_count_add(seq![(s[0].0, r)], spec_directive_pass(rest2));
            },
            None => {
                law_directive_pass_keeps_dyn(s.drop_first());
                lemma_dyn_count_add(seq![s[0]], spec_directive_pass(s.drop_first()));
                lemma_dyn_count_add(seq![s[0]], s.drop_first());
            },
        }
    }
}

/// The directive rule applied to two roots, which it consumes; hands them back where it does
/// not apply.
fn directive_rule(a: Root, b: Root) -> (r: Result<Root, (Root, Root)>)
    ensures
        match r {
            Ok(x) => spec_directive_rule(a, b) == Some(x),
            Err((x, y)) => spec_directive_rule(a, b) is None && x == a && y == b,
        },
{
    match (a, b) {
        (Root::Node(n), Root::Const) => Ok(Root::Node(n)),
        (Root::Instruction(i), Root::Dyn(None)) => Ok(Root::Dyn(Some(i))),
        (Root::Dyn(Some(i)), Root::Dyn(None)) => Ok(Root::Dyn(Some(i))),
        (Root::Node(Node::Value(v)), Root::Dyn(None)) => match opcode_to_instruction(v) {
            Ok(i) => match i {
                Instruction::Psh(_) | Instruction::Phn(_) => Ok(Root::Dyn(Some(i))),
                _ => Err((Root::Node(Node::Value(v)), Root::Dyn(None))),
            },
            Err(_) => Err((Root::Node(Node::Value(v)), Root::Dyn(None))),
        },
        (Root::Node(n), Root::Data(None)) => Ok(Root::Data(Some(n))),
        (Root::Node(n), Root::Org(None)) => Ok(Root::Org(Some(n))),
        (x, y) => Err((x, y)),
    }
}

/// The directive pass of the optimizer.
pub fn directive_pass(roots: Vec<(Pos, Root)>) -> (r: Vec<(Pos, Root)>)
    ensures
        r@ == spec_directive_pass(roots@),
{
    let mut rest = reversed(roots);
    let mut out: Vec<(Pos, Root)> = Vec::new();
    proof {
        assert(rest@.reverse() =~= roots@);
        assert(out@ + spec_directive_pass(rest@.reverse()) =~= spec_directive_pass(roots@));
    }
    while rest.len() >= 2
        invariant
            out@ + spec_directive_pass(rest@.reverse()) == spec_directive_pass(roots@),
        decreases rest.len(),
    {
        let ghost s = rest@.reverse();
        let (p, a) = rest.pop().unwrap();
        let (q, b) = rest.pop().unwrap();
        proof {
            assert(s[0] == (p, a));
            assert(s[1] == (q, b));
        }
        match directive_rule(a, b) {
            Ok(x) => {
                proof {
                    assert(rest@.reverse() =~= s.subrange(2, s.len() as int));
                }
                out.push((p, x));
                proof {
                    assert(out@ + spec_directive_pass(rest@.reverse()) =~= out@.drop_last()
                        + spec_directive_pass(s));
                }
            },
            Err((x, y)) => {
                rest.push((q, y));
                proof {
                    assert(rest@.reverse() =~= s.drop_first());
                }
                out.push((p, x));
                proof {
                    assert(out@ + spec_directive_pass(rest@.reverse()) =~= out@.drop_last()
                        + spec_directive_pass(s));
                }
            },
        }
    }
    proof {
        assert(rest@.reverse().len() < 2);
        assert(spec_directive_pass(rest@.reverse()) == rest@.reverse());
        assert(out@ + rest@.reverse() == spec_directive_pass(roots@));
    }
    while rest.len() > 0
        invariant
            out@ + rest@.reverse() == spec_directive_pass(roots@),
        decreases rest.len(),
    {
        let ghost s = rest@.reverse();
        let x = rest.pop().unwrap();
        out.push(x);
        proof {
            assert(out@ + rest@.reverse() =~= out@.drop_last() + s);
        }
    }
    proof {
        assert(rest@.reverse() =~= Seq::<(Pos, Root)>::empty());
        assert(out@ =~= out@ + rest@.reverse());
    }
    out
}

/// The pass for padding: a node and label definitions before `@const` or an empty `@data` let
/// the directive come right after the node, and before an empty `@org` the labels go first.
pub open spec fn spec_pad_rule(a: Root, b: Root, c: Root) -> Option<Seq<Root>> {
    match (a, b, c) {
        (Root::Node(_), Root::LabelDefs(_), Root::Const) => Some(seq![a, c, b]),
        (Root::Node(_), Root::LabelDefs(_), Root::Data(None)) => Some(seq![a, c, b]),
        (Root::Node(_), Root::LabelDefs(_), Root::Org(None)) => Some(seq![b, a, c]),
        _ => None,
    }
}

/// Each root of a sequence at one position.
pub open spec fn spec_at(p: Pos, rs: Seq<Root>) -> Seq<(Pos, Root)> {
    rs.map_values(|r: Root| (p, r))
}

/// The padding pass: left to right, each triple the rule rewrites takes the position of its
/// first root, and the scan goes on after the triple.
pub open spec fn spec_pad_pass(s: Seq<(Pos, Root)>) -> Seq<(Pos, Root)>
    decreases s.len(),
{
    if s.len() < 3 {
        s
    } else {
        match spec_pad_rule(s[0].1, s[1].1, s[2].1) {
            Some(rs) => spec_at(s[0].0, rs) + spec_pad_pass(s.subrange(3, s.len() as int)),
            None => seq![s[0]] + spec_pad_pass(s.drop_first()),
        }
    }
}

/// Padding only moves roots: as many come out as go in.
pub proof fn law_pad_pass_keeps_length(s: Seq<(Pos, Root)>)
    ensures
        spec_pad_pass(s).len() == s.len(),
    decreases s.len(),
{
    if s.len() >= 3 {
        match spec_pad_rule(s[0].1, s[1].1, s[2].1) {
            Some(rs) => {
                law_pad_pass_keeps_length(s.subrange(3, s.len() as int));
                assert(spec_at(s[0].0, rs).len() == 3);
            },
            None => {
                law_pad_pass_keeps_length(s.drop_first());
            },
        }
    }
}

/// The padding pass of the optimizer.
pub fn pad_pass(roots: Vec<(Pos, Root)>) -> (r: Vec<(Pos, Root)>)
    ensures
        r@ == spec_pad_pass(roots@),
{
    let mut rest = reversed(roots);
    let mut out: Vec<(Pos, Root)> = Vec::new();
    proof {
        assert(rest@.reverse() =~= roots@);
        assert(out@ + spec_pad_pass(rest@.reverse()) =~= spec_pad_pass(roots@));
    }
    while rest.len() >= 3
        invariant
            out@ + spec_pad_pass(rest@.reverse()) == spec_pad_pass(roots@),
        decreases rest.len(),
    {
        let ghost s = rest@.reverse();
        let (p, a) = rest.pop().unwrap();
        let (q, b) = rest.pop().unwrap();
        let (u, c) = rest.pop().unwrap();
        proof {
            assert(s[0] == (p, a));
            assert(s[1] == (q, b));
            assert(s[2] == (u, c));
        }
        let fits = match (&a, &b, &c) {
            (Root::Node(_), Root::LabelDefs(_), Root::Const) => 1u8,
            (Root::Node(_), Root::LabelDefs(_), Root::Data(None)) => 1u8,
            (Root::Node(_), Root::LabelDefs(_), Root::Org(None)) => 2u8,
            _ => 0u8,
        };
        if fits == 0 {
            rest.push((u, c));
            rest.push((q, b));
            proof {
                assert(rest@.reverse() =~= s.drop_first());
            }
            out.push((p, a));
            proof {
                assert(out@ + spec_pad_pass(rest@.reverse()) =~= out@.drop_last() + spec_pad_pass(s));
            }
        } else {
            let ghost rs = spec_pad_rule(a, b, c)->0;
            let p1 = copy_pos(&p);
            let p2 = copy_pos(&p);
            if fits == 1 {
                out.push((p, a));
                out.push((p1, c));
                out.push((p2, b));
            } else {
                out.push((p, b));
                out.push((p1, a));
                out.push((p2, c));
            }
            proof {
                assert(rest@.reverse() =~= s.subrange(3, s.len() as int));
                let o = out@.subrange(0, out@.len() - 3);
                assert(out@ =~= o + spec_at(s[0].0, rs));
                assert(out@ + spec_pad_pass(rest@.reverse()) =~= o + spec_pad_pass(s));
            }
        }
    }
    proof {
        assert(rest@.reverse().len() < 3);
        assert(spec_pad_pass(rest@.reverse()) == rest@.reverse());
        assert(out@ + rest@.reverse() == spec_pad_pass(roots@));
    }
    while rest.len() > 0
        invariant
            out@ + rest@.reverse() == spec_pad_pass(roots@),
        decreases rest.len(),
    {
        let ghost s = rest@.reverse();
        let x = rest.pop().unwrap();
        out.push(x);
        proof {
            assert(out@ + rest@.reverse() =~= out@.drop_last() + s);
        }
    }
    proof {
        assert(rest@.reverse() =~= Seq::<(Pos, Root)>::empty());
        assert(out@ =~= out@ + rest@.reverse());
    }
    out
}

/// The pass that drops every root that does nothing: `buf` and `nop`.
pub open spec fn spec_no_op_pass(s: Seq<(Pos, Root)>) -> Seq<(Pos, Root)> {
    s.filter(|x: (Pos, Root)| spec_op_type(x.1) != OpType::NoOp)
}

/// The pass of the optimizer that drops the roots that do nothing.
pub fn no_op_pass(roots: Vec<(Pos, Root)>) -> (r: Vec<(Pos, Root)>)
    ensures
        r@ == spec_no_op_pass(roots@),
{
    let mut rest = reversed(roots);
    let mut out: Vec<(Pos, Root)> = Vec::new();
    let ghost pred = |x: (Pos, Root)| spec_op_type(x.1) != OpType::NoOp;
    proof {
        assert(rest@.reverse() =~= roots@);
        assert(roots@.subrange(0, 0) =~= Seq::<(Pos, Root)>::empty());
    }
    let ghost n = roots@.len();
    while rest.len() > 0
        invariant
            pred == (|x: (Pos, Root)| spec_op_type(x.1) != OpType::NoOp),
            rest@.len() <= n,
            n == roots@.len(),
            rest@.reverse() == roots@.subrange(n - rest@.len(), n as int),
            out@ == roots@.subrange(0, n - rest@.len()).filter(pred),
        decreases rest.len(),
    {
        let ghost k = n - rest@.len();
        let ghost before = rest@;
        let x = rest.pop().unwrap();
        proof {
            assert(before =~= rest@.push(x));
            assert(before.reverse()[0] == x);
            assert(roots@.subrange(k, n as int)[0] == roots@[k]);
            assert(x == roots@[k]);
            assert(rest@.reverse() =~= before.reverse().drop_first());
            assert(rest@.reverse() =~= roots@.subrange(k + 1, n as int));
            assert(roots@.subrange(0, k + 1).drop_last() =~= roots@.subrange(0, k));
        }
        if op_type(&x.1) != OpType::NoOp {
            out.push(x);
        }
        proof {
            roots@.subrange(0, k).lemma_filter_push(x, pred);
            assert(roots@.subrange(0, k).push(x) =~= roots@.subrange(0, k + 1));
        }
    }
    proof {
        assert(roots@.subrange(0, n as int) =~= roots@);
    }
    out
}

} // verus!
