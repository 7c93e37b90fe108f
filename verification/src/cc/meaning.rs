//! What constant folding and code generation compute: the folded comparisons order bytes, the
//! folded arithmetic obeys the laws of arithmetic modulo 256, and the code that scales a byte
//! by a power of two leaves the scaled byte on the emulator's stack.

use vstd::prelude::*;
use crate::assembler::spec_run;
use crate::cc::ast::{TypedExpression, TypedExpressionView};
use crate::cc::codegen::{
    spec_binary, spec_unary, Unary, spec_flatten, spec_fold_constants, spec_flatten_fuel, spec_n8_expression, spec_plain, Binary,
    Emitted,
};
use crate::common::{spec_byte_bit, Instruction};
use crate::emu::{spec_execute, spec_state_wf, EmuState};
use crate::expansion::{spec_plain_root, Root};
use crate::token::{Token, TokenView};

verus! {

/// Folding an operation on two byte constants.
pub open spec fn spec_folded(k: Binary, c1: u8, c2: u8) -> TypedExpressionView {
    spec_flatten(spec_binary(k, TypedExpressionView::N8Constant(c1), TypedExpressionView::N8Constant(c2)))
}

/// The truth a folded comparison is, where it folds to a bit constant.
pub open spec fn spec_folded_bit(k: Binary, c1: u8, c2: u8) -> bool {
    match spec_folded(k, c1, c2) {
        TypedExpressionView::N1Constant(b) => b,
        _ => false,
    }
}

/// The byte a folded operation is, where it folds to a byte constant.
pub open spec fn spec_folded_byte(k: Binary, c1: u8, c2: u8) -> u8 {
    match spec_folded(k, c1, c2) {
        TypedExpressionView::N8Constant(v) => v,
        _ => 0,
    }
}

/// Folding an operation on two constants gives what the constants fold to.
proof fn lemma_folded(k: Binary, c1: u8, c2: u8)
    ensures
        spec_fold_constants(k, c1, c2) matches Some(r) ==> spec_folded(k, c1, c2) == r,
{
    reveal_with_fuel(spec_flatten_fuel, 3);
}

/// Comparisons and arithmetic fold to constants.
pub proof fn law_folds_to_constants(c1: u8, c2: u8)
    ensures
        spec_folded(Binary::N1LessThanU8, c1, c2) is N1Constant,
        spec_folded(Binary::N1LessThanI8, c1, c2) is N1Constant,
        spec_folded(Binary::N1EqualToN8, c1, c2) is N1Constant,
        spec_folded(Binary::N8Addition, c1, c2) is N8Constant,
        spec_folded(Binary::N8Subtraction, c1, c2) is N8Constant,
        spec_folded(Binary::N8Multiplication, c1, c2) is N8Constant,
        spec_folded(Binary::U8Division, c1, c2) is N8Constant,
        spec_folded(Binary::U8Modulo, c1, c2) is N8Constant,
{
    lemma_folded(Binary::N1LessThanU8, c1, c2);
    lemma_folded(Binary::N1LessThanI8, c1, c2);
    lemma_folded(Binary::N1EqualToN8, c1, c2);
    lemma_folded(Binary::N8Addition, c1, c2);
    lemma_folded(Binary::N8Subtraction, c1, c2);
    lemma_folded(Binary::N8Multiplication, c1, c2);
    lemma_folded(Binary::U8Division, c1, c2);
    lemma_folded(Binary::U8Modulo, c1, c2);
}

/// An equality of constants folds to true exactly when they are the same byte.
pub proof fn law_fold_equal(c1: u8, c2: u8)
    ensures
        spec_folded_bit(Binary::N1EqualToN8, c1, c1),
        c1 != c2 ==> !spec_folded_bit(Binary::N1EqualToN8, c1, c2),
{
    lemma_folded(Binary::N1EqualToN8, c1, c1);
    lemma_folded(Binary::N1EqualToN8, c1, c2);
}

/// An unsigned less-than of constants folds as a strict order of bytes in which zero comes
/// first and each byte comes right before its successor: no byte is less than itself, of two
/// different bytes exactly one is less than the other, and the order is transitive.
pub proof fn law_fold_less_than_unsigned(a: u8, b: u8, c: u8)
    ensures
        !spec_folded_bit(Binary::N1LessThanU8, a, a),
        a != b ==> spec_folded_bit(Binary::N1LessThanU8, a, b) != spec_folded_bit(Binary::N1LessThanU8, b, a),
        spec_folded_bit(Binary::N1LessThanU8, a, b) && spec_folded_bit(Binary::N1LessThanU8, b, c)
            ==> spec_folded_bit(Binary::N1LessThanU8, a, c),
        spec_folded_bit(Binary::N1LessThanU8, 0, a) == (a != 0),
        a < 255 ==> spec_folded_bit(Binary::N1LessThanU8, a, (a + 1) as u8),
{
    lemma_folded(Binary::N1LessThanU8, a, a);
    lemma_folded(Binary::N1LessThanU8, a, b);
    lemma_folded(Binary::N1LessThanU8, b, a);
    lemma_folded(Binary::N1LessThanU8, b, c);
    lemma_folded(Binary::N1LessThanU8, a, c);
    lemma_folded(Binary::N1LessThanU8, 0, a);
    lemma_folded(Binary::N1LessThanU8, a, (a + 1) as u8);
}

/// A signed less-than of constants folds as a strict order of bytes read in two's complement:
/// `0x80` comes first and `0x7F` last, no byte is less than itself, of two different bytes
/// exactly one is less than the other, and the order is transitive.
pub proof fn law_fold_less_than_signed(a: u8, b: u8, c: u8)
    ensures
        !spec_folded_bit(Binary::N1LessThanI8, a, a),
        a != b ==> spec_folded_bit(Binary::N1LessThanI8, a, b) != spec_folded_bit(Binary::N1LessThanI8, b, a),
        spec_folded_bit(Binary::N1LessThanI8, a, b) && spec_folded_bit(Binary::N1LessThanI8, b, c)
            ==> spec_folded_bit(Binary::N1LessThanI8, a, c),
        spec_folded_bit(Binary::N1LessThanI8, 0x80, a) == (a != 0x80),
        spec_folded_bit(Binary::N1LessThanI8, a, 0x7F) == (a != 0x7F),
        a != 0x7F ==> spec_folded_bit(Binary::N1LessThanI8, a, ((a + 1) % 256) as u8),
{
    lemma_folded(Binary::N1LessThanI8, a, a);
    lemma_folded(Binary::N1LessThanI8, a, b);
    lemma_folded(Binary::N1LessThanI8, b, a);
    lemma_folded(Binary::N1LessThanI8, b, c);
    lemma_folded(Binary::N1LessThanI8, a, c);
    lemma_folded(Binary::N1LessThanI8, 0x80, a);
    lemma_folded(Binary::N1LessThanI8, a, 0x7F);
    lemma_folded(Binary::N1LessThanI8, a, ((a + 1) % 256) as u8);
}

/// Folded addition and subtraction modulo 256: subtracting what was added gives back the first
/// operand, addition is commutative, adding zero changes nothing and subtracting a byte from
/// itself gives zero.
pub proof fn law_fold_add_sub(a: u8, b: u8)
    ensures
        spec_folded_byte(Binary::N8Subtraction, spec_folded_byte(Binary::N8Addition, a, b), b) == a,
        spec_folded_byte(Binary::N8Addition, a, b) == spec_folded_byte(Binary::N8Addition, b, a),
        spec_folded_byte(Binary::N8Addition, a, 0) == a,
        spec_folded_byte(Binary::N8Subtraction, a, a) == 0,
{
    lemma_folded(Binary::N8Addition, a, b);
    lemma_folded(Binary::N8Addition, b, a);
    lemma_folded(Binary::N8Addition, a, 0);
    lemma_folded(Binary::N8Subtraction, a, a);
    let s = spec_folded_byte(Binary::N8Addition, a, b);
    lemma_folded(Binary::N8Subtraction, s, b);
    assert(s == (a + b) % 256);
    assert(((s - b) % 256) as u8 == a) by {
        if a + b < 256 {
            assert(s == a + b);
        } else {
            assert(s == a + b - 256);
        }
    }
}

/// Folded multiplication modulo 256: one is its unit, zero absorbs, it is commutative, and
/// doubling is adding a byte to itself.
pub proof fn law_fold_multiplication(a: u8, b: u8)
    ensures
        spec_folded_byte(Binary::N8Multiplication, a, 1) == a,
        spec_folded_byte(Binary::N8Multiplication, a, 0) == 0,
        spec_folded_byte(Binary::N8Multiplication, a, b) == spec_folded_byte(Binary::N8Multiplication, b, a),
        spec_folded_byte(Binary::N8Multiplication, a, 2) == spec_folded_byte(Binary::N8Addition, a, a),
{
    lemma_folded(Binary::N8Multiplication, a, 1);
    lemma_folded(Binary::N8Multiplication, a, 0);
    lemma_folded(Binary::N8Multiplication, a, b);
    lemma_folded(Binary::N8Multiplication, b, a);
    lemma_folded(Binary::N8Multiplication, a, 2);
    lemma_folded(Binary::N8Addition, a, a);
    assert(a * b == b * a) by (nonlinear_arith);
}

/// Folded division and remainder by a nonzero byte are the Euclidean quotient and remainder:
/// the quotient times the divisor plus the remainder is the dividend, and the remainder is
/// less than the divisor. By zero both give the dividend.
pub proof fn law_fold_division(a: u8, b: u8)
    ensures
        b != 0 ==> spec_folded_byte(Binary::U8Division, a, b) * b + spec_folded_byte(Binary::U8Modulo, a, b) == a,
        b != 0 ==> spec_folded_byte(Binary::U8Modulo, a, b) < b,
        b == 0 ==> spec_folded_byte(Binary::U8Division, a, b) == a && spec_folded_byte(Binary::U8Modulo, a, b) == a,
{
    lemma_folded(Binary::U8Division, a, b);
    lemma_folded(Binary::U8Modulo, a, b);
    if b != 0 {
        assert((a / b) * b + a % b == a) by (nonlinear_arith)
            requires b != 0;
        assert(a % b < b) by (nonlinear_arith)
            requires b != 0;
        assert(a / b <= a) by (nonlinear_arith)
            requires b != 0;
    }
}


/// The instructions that code made of plain instruction tokens stands for; nothing where it
/// holds anything else.
pub open spec fn spec_code_instructions(code: Emitted) -> Option<Seq<Instruction>>
    decreases code.len(),
{
    if code.len() == 0 {
        Some(Seq::empty())
    } else {
        match code[0] {
            Ok(TokenView::Plain(t)) => match spec_plain_root(t) {
                Root::Instruction(i) => match spec_code_instructions(code.drop_first()) {
                    Some(rest) => Some(seq![i] + rest),
                    None => None,
                },
                _ => None,
            },
            _ => None,
        }
    }
}

/// Code that extends `prefix` with plain instructions which, run on the emulator from `s`,
/// leave the stack pointer where it was and `v` on top of the stack.
pub open spec fn spec_extends_to_top(code: Option<Emitted>, prefix: Emitted, s: EmuState, v: u8) -> bool {
    match code {
        Some(c) => {
            &&& prefix.len() <= c.len()
            &&& c.subrange(0, prefix.len() as int) == prefix
            &&& match spec_code_instructions(c.subrange(prefix.len() as int, c.len() as int)) {
                Some(is) => {
                    &&& spec_run(s, is).1
                    &&& spec_run(s, is).0.sp == s.sp
                    &&& spec_run(s, is).0.mem[s.sp as int] == v
                },
                None => false,
            }
        },
        None => false,
    }
}

/// Code that extends a prefix with tokens standing for instructions that, run from `s`, leave
/// the stack pointer and `v` on top, extends the prefix to `v`.
proof fn lemma_extends(code: Option<Emitted>, ca: Emitted, toks: Emitted, is: Seq<Instruction>, s: EmuState, v: u8)
    requires
        code == Some(ca + toks),
        spec_code_instructions(toks) == Some(is),
        spec_run(s, is).1,
        spec_run(s, is).0.sp == s.sp,
        spec_run(s, is).0.mem[s.sp as int] == v,
    ensures
        spec_extends_to_top(code, ca, s, v),
{
    let c = ca + toks;
    assert(c.subrange(0, ca.len() as int) =~= ca);
    assert(c.subrange(ca.len() as int, c.len() as int) =~= toks);
}

/// Running one instruction and then more.
proof fn lemma_run_cons(s: EmuState, i: Instruction, rest: Seq<Instruction>)
    ensures
        spec_run(s, seq![i] + rest) == (if spec_execute(s, i).1 is Ok {
            spec_run(spec_execute(s, i).0, rest)
        } else {
            (spec_execute(s, i).0, false)
        }),
{
    assert((seq![i] + rest).drop_first() =~= rest);
}

proof fn lemma_run_multiply_by_four(s: EmuState)
    requires
        spec_state_wf(s),
        s.sp != 0,
    ensures
        ({
            let v = s.mem[s.sp as int];
            let is = seq![Instruction::Clc, Instruction::Shl, Instruction::Clc, Instruction::Shl];
            spec_run(s, is).1 && spec_run(s, is).0.sp == s.sp && spec_run(s, is).0.mem[s.sp as int] == ((4 * v) % 256) as u8
        }),
{
    let v = s.mem[s.sp as int];
    let s1 = spec_execute(s, Instruction::Clc).0;
    let s2 = spec_execute(s1, Instruction::Shl).0;
    let s3 = spec_execute(s2, Instruction::Clc).0;
    let s4 = spec_execute(s3, Instruction::Shl).0;
    assert(s2.sp == s.sp && s2.mem[s.sp as int] == ((2 * v) % 256) as u8 && spec_state_wf(s2));
    assert(s4.sp == s.sp && s4.mem[s.sp as int] == ((2 * ((2 * v) % 256)) % 256) as u8);
    vstd::arithmetic::div_mod::lemma_mul_mod_noop_right(2, 2 * v, 256);
    assert(2 * (2 * v) == 4 * v);
    lemma_run_cons(s3, Instruction::Shl, Seq::empty());
    lemma_run_cons(s2, Instruction::Clc, seq![Instruction::Shl]);
    lemma_run_cons(s1, Instruction::Shl, seq![Instruction::Clc, Instruction::Shl]);
    lemma_run_cons(s, Instruction::Clc, seq![Instruction::Shl, Instruction::Clc, Instruction::Shl]);
    assert(seq![Instruction::Shl] =~= seq![Instruction::Shl] + Seq::<Instruction>::empty());
    assert(seq![Instruction::Clc, Instruction::Shl] =~= seq![Instruction::Clc] + seq![Instruction::Shl]);
    assert(seq![Instruction::Shl, Instruction::Clc, Instruction::Shl] =~= seq![Instruction::Shl] + seq![
        Instruction::Clc,
        Instruction::Shl,
    ]);
    assert(seq![Instruction::Clc, Instruction::Shl, Instruction::Clc, Instruction::Shl] =~= seq![Instruction::Clc]
        + seq![Instruction::Shl, Instruction::Clc, Instruction::Shl]);
}

proof fn lemma_run_minus_one_minus(s: EmuState)
    requires
        spec_state_wf(s),
        s.sp != 0,
    ensures
        ({
            let v = s.mem[s.sp as int];
            let is = seq![Instruction::Neg, Instruction::Dec];
            spec_run(s, is).1 && spec_run(s, is).0.sp == s.sp && spec_run(s, is).0.mem[s.sp as int] == (255 - v) as u8
        }),
{
    let v = s.mem[s.sp as int];
    let s1 = spec_execute(s, Instruction::Neg).0;
    let s2 = spec_execute(s1, Instruction::Dec).0;
    assert(s1.sp == s.sp && s1.mem[s.sp as int] == ((0 - v + 256) % 256) as u8 && spec_state_wf(s1));
    assert(s2.sp == s.sp && s2.mem[s.sp as int] == (255 - v) as u8);
    lemma_run_cons(s1, Instruction::Dec, Seq::empty());
    lemma_run_cons(s, Instruction::Neg, seq![Instruction::Dec]);
    assert(seq![Instruction::Dec] =~= seq![Instruction::Dec] + Seq::<Instruction>::empty());
    assert(seq![Instruction::Neg, Instruction::Dec] =~= seq![Instruction::Neg] + seq![Instruction::Dec]);
}

/// The code of a byte expression divided by two, rounding down is the code of the expression followed by instructions
/// that leave that value on top of the stack.
#[verifier::spinoff_prover]
pub proof fn law_code_divide_by_two(x: TypedExpression, t: nat, s: EmuState)
    requires
        spec_n8_expression(x, t) is Some,
        spec_state_wf(s),
        s.sp != 0,
    ensures
        ({
            let v = s.mem[s.sp as int];
            spec_extends_to_top(spec_n8_expression(TypedExpression::U8Division(Box::new(x), Box::new(TypedExpression::N8Constant(2))), t), spec_n8_expression(x, t)->0, s, v / 2)
        }),
{
    let v = s.mem[s.sp as int];
    let ca = spec_n8_expression(x, t)->0;
    let toks = seq![spec_plain(Token::Clc), spec_plain(Token::Shr)];
    let is = seq![Instruction::Clc, Instruction::Shr];
    assert(spec_n8_expression(TypedExpression::U8Division(Box::new(x), Box::new(TypedExpression::N8Constant(2))), t) == Some(ca + toks)) by {
        assert(ca + toks =~= ca.push(spec_plain(Token::Clc)).push(spec_plain(Token::Shr)));
    }
    assert(spec_code_instructions(toks) == Some(is)) by {
        reveal_with_fuel(spec_code_instructions, 3);
        assert(toks.drop_first().drop_first() =~= Seq::<Result<TokenView, Seq<char>>>::empty());
        assert(is.drop_first().drop_first() =~= Seq::<Instruction>::empty());
    }
    assert(spec_run(s, is).1 && spec_run(s, is).0.sp == s.sp && spec_run(s, is).0.mem[s.sp as int] == v / 2) by {
        reveal_with_fuel(spec_run, 3);
        assert(is.drop_first().drop_first() =~= Seq::<Instruction>::empty());
    }
    lemma_extends(spec_n8_expression(TypedExpression::U8Division(Box::new(x), Box::new(TypedExpression::N8Constant(2))), t), ca, toks, is, s, v / 2);
}

/// The code of a byte expression divided by four, rounding down is the code of the expression followed by instructions
/// that leave that value on top of the stack.
#[verifier::spinoff_prover]
pub proof fn law_code_divide_by_four(x: TypedExpression, t: nat, s: EmuState)
    requires
        spec_n8_expression(x, t) is Some,
        spec_state_wf(s),
        s.sp != 0,
    ensures
        ({
            let v = s.mem[s.sp as int];
            spec_extends_to_top(spec_n8_expression(TypedExpression::U8Division(Box::new(x), Box::new(TypedExpression::N8Constant(4))), t), spec_n8_expression(x, t)->0, s, v / 4)
        }),
{
    let v = s.mem[s.sp as int];
    let ca = spec_n8_expression(x, t)->0;
    let toks = seq![spec_plain(Token::Clc), spec_plain(Token::Shr), spec_plain(Token::Clc), spec_plain(Token::Shr)];
    let is = seq![Instruction::Clc, Instruction::Shr, Instruction::Clc, Instruction::Shr];
    assert(spec_n8_expression(TypedExpression::U8Division(Box::new(x), Box::new(TypedExpression::N8Constant(4))), t) == Some(ca + toks)) by {
        assert(ca + toks =~= ca.push(spec_plain(Token::Clc)).push(spec_plain(Token::Shr)).push(spec_plain(Token::Clc)).push(spec_plain(Token::Shr)));
    }
    assert(spec_code_instructions(toks) == Some(is)) by {
        reveal_with_fuel(spec_code_instructions, 5);
        assert(toks.drop_first().drop_first().drop_first().drop_first() =~= Seq::<Result<TokenView, Seq<char>>>::empty());
        assert(is.drop_first().drop_first().drop_first().drop_first() =~= Seq::<Instruction>::empty());
    }
    assert(spec_run(s, is).1 && spec_run(s, is).0.sp == s.sp && spec_run(s, is).0.mem[s.sp as int] == v / 4) by {
        reveal_with_fuel(spec_run, 5);
        assert(is.drop_first().drop_first().drop_first().drop_first() =~= Seq::<Instruction>::empty());
    }
    lemma_extends(spec_n8_expression(TypedExpression::U8Division(Box::new(x), Box::new(TypedExpression::N8Constant(4))), t), ca, toks, is, s, v / 4);
}

/// The code of a byte expression times two is the code of the expression followed by instructions
/// that leave that value on top of the stack.
#[verifier::spinoff_prover]
pub proof fn law_code_multiply_by_two(x: TypedExpression, t: nat, s: EmuState)
    requires
        spec_n8_expression(x, t) is Some,
        !(x is N8Constant),
        spec_state_wf(s),
        s.sp != 0,
    ensures
        ({
            let v = s.mem[s.sp as int];
            spec_extends_to_top(spec_n8_expression(TypedExpression::N8Multiplication(Box::new(x), Box::new(TypedExpression::N8Constant(2))), t), spec_n8_expression(x, t)->0, s, ((2 * v) % 256) as u8)
        }),
{
    let v = s.mem[s.sp as int];
    let ca = spec_n8_expression(x, t)->0;
    let toks = seq![spec_plain(Token::Clc), spec_plain(Token::Shl)];
    let is = seq![Instruction::Clc, Instruction::Shl];
    assert(spec_n8_expression(TypedExpression::N8Multiplication(Box::new(x), Box::new(TypedExpression::N8Constant(2))), t) == Some(ca + toks)) by {
        assert(ca + toks =~= ca.push(spec_plain(Token::Clc)).push(spec_plain(Token::Shl)));
    }
    assert(spec_code_instructions(toks) == Some(is)) by {
        reveal_with_fuel(spec_code_instructions, 3);
        assert(toks.drop_first().drop_first() =~= Seq::<Result<TokenView, Seq<char>>>::empty());
        assert(is.drop_first().drop_first() =~= Seq::<Instruction>::empty());
    }
    assert(spec_run(s, is).1 && spec_run(s, is).0.sp == s.sp && spec_run(s, is).0.mem[s.sp as int] == ((2 * v) % 256) as u8) by {
        reveal_with_fuel(spec_run, 3);
        assert(is.drop_first().drop_first() =~= Seq::<Instruction>::empty());
    }
    lemma_extends(spec_n8_expression(TypedExpression::N8Multiplication(Box::new(x), Box::new(TypedExpression::N8Constant(2))), t), ca, toks, is, s, ((2 * v) % 256) as u8);
}

/// The code of a byte expression times four is the code of the expression followed by instructions
/// that leave that value on top of the stack.
#[verifier::spinoff_prover]
pub proof fn law_code_multiply_by_four(x: TypedExpression, t: nat, s: EmuState)
    requires
        spec_n8_expression(x, t) is Some,
        !(x is N8Constant),
        spec_state_wf(s),
        s.sp != 0,
    ensures
        ({
            let v = s.mem[s.sp as int];
            spec_extends_to_top(spec_n8_expression(TypedExpression::N8Multiplication(Box::new(x), Box::new(TypedExpression::N8Constant(4))), t), spec_n8_expression(x, t)->0, s, ((4 * v) % 256) as u8)
        }),
{
    let v = s.mem[s.sp as int];
    let ca = spec_n8_expression(x, t)->0;
    let toks = seq![spec_plain(Token::Clc), spec_plain(Token::Shl), spec_plain(Token::Clc), spec_plain(Token::Shl)];
    let is = seq![Instruction::Clc, Instruction::Shl, Instruction::Clc, Instruction::Shl];
    assert(spec_n8_expression(TypedExpression::N8Multiplication(Box::new(x), Box::new(TypedExpression::N8Constant(4))), t) == Some(ca + toks)) by {
        assert(ca + toks =~= ca.push(spec_plain(Token::Clc)).push(spec_plain(Token::Shl)).push(spec_plain(Token::Clc)).push(spec_plain(Token::Shl)));
    }
    assert(spec_code_instructions(toks) == Some(is)) by {
        reveal_with_fuel(spec_code_instructions, 5);
        assert(toks.drop_first().drop_first().drop_first().drop_first() =~= Seq::<Result<TokenView, Seq<char>>>::empty());
        assert(is.drop_first().drop_first().drop_first().drop_first() =~= Seq::<Instruction>::empty());
    }
    lemma_run_multiply_by_four(s);
    lemma_extends(spec_n8_expression(TypedExpression::N8Multiplication(Box::new(x), Box::new(TypedExpression::N8Constant(4))), t), ca, toks, is, s, ((4 * v) % 256) as u8);
}

/// The code of a byte expression plus one is the code of the expression followed by instructions
/// that leave that value on top of the stack.
#[verifier::spinoff_prover]
pub proof fn law_code_add_one(x: TypedExpression, t: nat, s: EmuState)
    requires
        spec_n8_expression(x, t) is Some,
        !(x is N8Constant),
        spec_state_wf(s),
        s.sp != 0,
    ensures
        ({
            let v = s.mem[s.sp as int];
            spec_extends_to_top(spec_n8_expression(TypedExpression::N8Addition(Box::new(x), Box::new(TypedExpression::N8Constant(1))), t), spec_n8_expression(x, t)->0, s, ((v + 1) % 256) as u8)
        }),
{
    let v = s.mem[s.sp as int];
    let ca = spec_n8_expression(x, t)->0;
    let toks = seq![spec_plain(Token::Inc)];
    let is = seq![Instruction::Inc];
    assert(spec_n8_expression(TypedExpression::N8Addition(Box::new(x), Box::new(TypedExpression::N8Constant(1))), t) == Some(ca + toks)) by {
        assert(ca + toks =~= ca.push(spec_plain(Token::Inc)));
    }
    assert(spec_code_instructions(toks) == Some(is)) by {
        reveal_with_fuel(spec_code_instructions, 2);
        assert(toks.drop_first() =~= Seq::<Result<TokenView, Seq<char>>>::empty());
        assert(is.drop_first() =~= Seq::<Instruction>::empty());
    }
    assert(spec_run(s, is).1 && spec_run(s, is).0.sp == s.sp && spec_run(s, is).0.mem[s.sp as int] == ((v + 1) % 256) as u8) by {
        reveal_with_fuel(spec_run, 2);
        assert(is.drop_first() =~= Seq::<Instruction>::empty());
    }
    lemma_extends(spec_n8_expression(TypedExpression::N8Addition(Box::new(x), Box::new(TypedExpression::N8Constant(1))), t), ca, toks, is, s, ((v + 1) % 256) as u8);
}

/// The code of a byte expression plus two is the code of the expression followed by instructions
/// that leave that value on top of the stack.
#[verifier::spinoff_prover]
pub proof fn law_code_add_two(x: TypedExpression, t: nat, s: EmuState)
    requires
        spec_n8_expression(x, t) is Some,
        !(x is N8Constant),
        spec_state_wf(s),
        s.sp != 0,
    ensures
        ({
            let v = s.mem[s.sp as int];
            spec_extends_to_top(spec_n8_expression(TypedExpression::N8Addition(Box::new(x), Box::new(TypedExpression::N8Constant(2))), t), spec_n8_expression(x, t)->0, s, ((v + 2) % 256) as u8)
        }),
{
    let v = s.mem[s.sp as int];
    let ca = spec_n8_expression(x, t)->0;
    let toks = seq![spec_plain(Token::Inc), spec_plain(Token::Inc)];
    let is = seq![Instruction::Inc, Instruction::Inc];
    assert(spec_n8_expression(TypedExpression::N8Addition(Box::new(x), Box::new(TypedExpression::N8Constant(2))), t) == Some(ca + toks)) by {
        assert(ca + toks =~= ca.push(spec_plain(Token::Inc)).push(spec_plain(Token::Inc)));
    }
    assert(spec_code_instructions(toks) == Some(is)) by {
        reveal_with_fuel(spec_code_instructions, 3);
        assert(toks.drop_first().drop_first() =~= Seq::<Result<TokenView, Seq<char>>>::empty());
        assert(is.drop_first().drop_first() =~= Seq::<Instruction>::empty());
    }
    assert(spec_run(s, is).1 && spec_run(s, is).0.sp == s.sp && spec_run(s, is).0.mem[s.sp as int] == ((v + 2) % 256) as u8) by {
        reveal_with_fuel(spec_run, 3);
        assert(is.drop_first().drop_first() =~= Seq::<Instruction>::empty());
    }
    lemma_extends(spec_n8_expression(TypedExpression::N8Addition(Box::new(x), Box::new(TypedExpression::N8Constant(2))), t), ca, toks, is, s, ((v + 2) % 256) as u8);
}

/// The code of a byte expression plus `0xFF` is the code of the expression followed by instructions
/// that leave that value on top of the stack.
#[verifier::spinoff_prover]
pub proof fn law_code_add_minus_one(x: TypedExpression, t: nat, s: EmuState)
    requires
        spec_n8_expression(x, t) is Some,
        !(x is N8Constant),
        spec_state_wf(s),
        s.sp != 0,
    ensures
        ({
            let v = s.mem[s.sp as int];
            spec_extends_to_top(spec_n8_expression(TypedExpression::N8Addition(Box::new(x), Box::new(TypedExpression::N8Constant(0xFF))), t), spec_n8_expression(x, t)->0, s, ((v + 0xFF) % 256) as u8)
        }),
{
    let v = s.mem[s.sp as int];
    let ca = spec_n8_expression(x, t)->0;
    let toks = seq![spec_plain(Token::Dec)];
    let is = seq![Instruction::Dec];
    assert(spec_n8_expression(TypedExpression::N8Addition(Box::new(x), Box::new(TypedExpression::N8Constant(0xFF))), t) == Some(ca + toks)) by {
        assert(ca + toks =~= ca.push(spec_plain(Token::Dec)));
    }
    assert(spec_code_instructions(toks) == Some(is)) by {
        reveal_with_fuel(spec_code_instructions, 2);
        assert(toks.drop_first() =~= Seq::<Result<TokenView, Seq<char>>>::empty());
        assert(is.drop_first() =~= Seq::<Instruction>::empty());
    }
    assert(spec_run(s, is).1 && spec_run(s, is).0.sp == s.sp && spec_run(s, is).0.mem[s.sp as int] == ((v + 0xFF) % 256) as u8) by {
        reveal_with_fuel(spec_run, 2);
        assert(is.drop_first() =~= Seq::<Instruction>::empty());
    }
    lemma_extends(spec_n8_expression(TypedExpression::N8Addition(Box::new(x), Box::new(TypedExpression::N8Constant(0xFF))), t), ca, toks, is, s, ((v + 0xFF) % 256) as u8);
}

/// The code of a byte expression plus `0xFE` is the code of the expression followed by instructions
/// that leave that value on top of the stack.
#[verifier::spinoff_prover]
pub proof fn law_code_add_minus_two(x: TypedExpression, t: nat, s: EmuState)
    requires
        spec_n8_expression(x, t) is Some,
        !(x is N8Constant),
        spec_state_wf(s),
        s.sp != 0,
    ensures
        ({
            let v = s.mem[s.sp as int];
            spec_extends_to_top(spec_n8_expression(TypedExpression::N8Addition(Box::new(x), Box::new(TypedExpression::N8Constant(0xFE))), t), spec_n8_expression(x, t)->0, s, ((v + 0xFE) % 256) as u8)
        }),
{
    let v = s.mem[s.sp as int];
    let ca = spec_n8_expression(x, t)->0;
    let toks = seq![spec_plain(Token::Dec), spec_plain(Token::Dec)];
    let is = seq![Instruction::Dec, Instruction::Dec];
    assert(spec_n8_expression(TypedExpression::N8Addition(Box::new(x), Box::new(TypedExpression::N8Constant(0xFE))), t) == Some(ca + toks)) by {
        assert(ca + toks =~= ca.push(spec_plain(Token::Dec)).push(spec_plain(Token::Dec)));
    }
    assert(spec_code_instructions(toks) == Some(is)) by {
        reveal_with_fuel(spec_code_instructions, 3);
        assert(toks.drop_first().drop_first() =~= Seq::<Result<TokenView, Seq<char>>>::empty());
        assert(is.drop_first().drop_first() =~= Seq::<Instruction>::empty());
    }
    assert(spec_run(s, is).1 && spec_run(s, is).0.sp == s.sp && spec_run(s, is).0.mem[s.sp as int] == ((v + 0xFE) % 256) as u8) by {
        reveal_with_fuel(spec_run, 3);
        assert(is.drop_first().drop_first() =~= Seq::<Instruction>::empty());
    }
    lemma_extends(spec_n8_expression(TypedExpression::N8Addition(Box::new(x), Box::new(TypedExpression::N8Constant(0xFE))), t), ca, toks, is, s, ((v + 0xFE) % 256) as u8);
}

/// The code of a byte expression minus one is the code of the expression followed by instructions
/// that leave that value on top of the stack.
#[verifier::spinoff_prover]
pub proof fn law_code_subtract_one(x: TypedExpression, t: nat, s: EmuState)
    requires
        spec_n8_expression(x, t) is Some,
        spec_state_wf(s),
        s.sp != 0,
    ensures
        ({
            let v = s.mem[s.sp as int];
            spec_extends_to_top(spec_n8_expression(TypedExpression::N8Subtraction(Box::new(x), Box::new(TypedExpression::N8Constant(1))), t), spec_n8_expression(x, t)->0, s, ((v + 0xFF) % 256) as u8)
        }),
{
    let v = s.mem[s.sp as int];
    let ca = spec_n8_expression(x, t)->0;
    let toks = seq![spec_plain(Token::Dec)];
    let is = seq![Instruction::Dec];
    assert(spec_n8_expression(TypedExpression::N8Subtraction(Box::new(x), Box::new(TypedExpression::N8Constant(1))), t) == Some(ca + toks)) by {
        assert(ca + toks =~= ca.push(spec_plain(Token::Dec)));
    }
    assert(spec_code_instructions(toks) == Some(is)) by {
        reveal_with_fuel(spec_code_instructions, 2);
        assert(toks.drop_first() =~= Seq::<Result<TokenView, Seq<char>>>::empty());
        assert(is.drop_first() =~= Seq::<Instruction>::empty());
    }
    assert(spec_run(s, is).1 && spec_run(s, is).0.sp == s.sp && spec_run(s, is).0.mem[s.sp as int] == ((v + 0xFF) % 256) as u8) by {
        reveal_with_fuel(spec_run, 2);
        assert(is.drop_first() =~= Seq::<Instruction>::empty());
    }
    lemma_extends(spec_n8_expression(TypedExpression::N8Subtraction(Box::new(x), Box::new(TypedExpression::N8Constant(1))), t), ca, toks, is, s, ((v + 0xFF) % 256) as u8);
}

/// The code of a byte expression minus two is the code of the expression followed by instructions
/// that leave that value on top of the stack.
#[verifier::spinoff_prover]
pub proof fn law_code_subtract_two(x: TypedExpression, t: nat, s: EmuState)
    requires
        spec_n8_expression(x, t) is Some,
        spec_state_wf(s),
        s.sp != 0,
    ensures
        ({
            let v = s.mem[s.sp as int];
            spec_extends_to_top(spec_n8_expression(TypedExpression::N8Subtraction(Box::new(x), Box::new(TypedExpression::N8Constant(2))), t), spec_n8_expression(x, t)->0, s, ((v + 0xFE) % 256) as u8)
        }),
{
    let v = s.mem[s.sp as int];
    let ca = spec_n8_expression(x, t)->0;
    let toks = seq![spec_plain(Token::Dec), spec_plain(Token::Dec)];
    let is = seq![Instruction::Dec, Instruction::Dec];
    assert(spec_n8_expression(TypedExpression::N8Subtraction(Box::new(x), Box::new(TypedExpression::N8Constant(2))), t) == Some(ca + toks)) by {
        assert(ca + toks =~= ca.push(spec_plain(Token::Dec)).push(spec_plain(Token::Dec)));
    }
    assert(spec_code_instructions(toks) == Some(is)) by {
        reveal_with_fuel(spec_code_instructions, 3);
        assert(toks.drop_first().drop_first() =~= Seq::<Result<TokenView, Seq<char>>>::empty());
        assert(is.drop_first().drop_first() =~= Seq::<Instruction>::empty());
    }
    assert(spec_run(s, is).1 && spec_run(s, is).0.sp == s.sp && spec_run(s, is).0.mem[s.sp as int] == ((v + 0xFE) % 256) as u8) by {
        reveal_with_fuel(spec_run, 3);
        assert(is.drop_first().drop_first() =~= Seq::<Instruction>::empty());
    }
    lemma_extends(spec_n8_expression(TypedExpression::N8Subtraction(Box::new(x), Box::new(TypedExpression::N8Constant(2))), t), ca, toks, is, s, ((v + 0xFE) % 256) as u8);
}

/// The code of a byte expression minus `0xFF` is the code of the expression followed by instructions
/// that leave that value on top of the stack.
#[verifier::spinoff_prover]
pub proof fn law_code_subtract_minus_one(x: TypedExpression, t: nat, s: EmuState)
    requires
        spec_n8_expression(x, t) is Some,
        spec_state_wf(s),
        s.sp != 0,
    ensures
        ({
            let v = s.mem[s.sp as int];
            spec_extends_to_top(spec_n8_expression(TypedExpression::N8Subtraction(Box::new(x), Box::new(TypedExpression::N8Constant(0xFF))), t), spec_n8_expression(x, t)->0, s, ((v + 1) % 256) as u8)
        }),
{
    let v = s.mem[s.sp as int];
    let ca = spec_n8_expression(x, t)->0;
    let toks = seq![spec_plain(Token::Inc)];
    let is = seq![Instruction::Inc];
    assert(spec_n8_expression(TypedExpression::N8Subtraction(Box::new(x), Box::new(TypedExpression::N8Constant(0xFF))), t) == Some(ca + toks)) by {
        assert(ca + toks =~= ca.push(spec_plain(Token::Inc)));
    }
    assert(spec_code_instructions(toks) == Some(is)) by {
        reveal_with_fuel(spec_code_instructions, 2);
        assert(toks.drop_first() =~= Seq::<Result<TokenView, Seq<char>>>::empty());
        assert(is.drop_first() =~= Seq::<Instruction>::empty());
    }
    assert(spec_run(s, is).1 && spec_run(s, is).0.sp == s.sp && spec_run(s, is).0.mem[s.sp as int] == ((v + 1) % 256) as u8) by {
        reveal_with_fuel(spec_run, 2);
        assert(is.drop_first() =~= Seq::<Instruction>::empty());
    }
    lemma_extends(spec_n8_expression(TypedExpression::N8Subtraction(Box::new(x), Box::new(TypedExpression::N8Constant(0xFF))), t), ca, toks, is, s, ((v + 1) % 256) as u8);
}

/// The code of a byte expression minus `0xFE` is the code of the expression followed by instructions
/// that leave that value on top of the stack.
#[verifier::spinoff_prover]
pub proof fn law_code_subtract_minus_two(x: TypedExpression, t: nat, s: EmuState)
    requires
        spec_n8_expression(x, t) is Some,
        spec_state_wf(s),
        s.sp != 0,
    ensures
        ({
            let v = s.mem[s.sp as int];
            spec_extends_to_top(spec_n8_expression(TypedExpression::N8Subtraction(Box::new(x), Box::new(TypedExpression::N8Constant(0xFE))), t), spec_n8_expression(x, t)->0, s, ((v + 2) % 256) as u8)
        }),
{
    let v = s.mem[s.sp as int];
    let ca = spec_n8_expression(x, t)->0;
    let toks = seq![spec_plain(Token::Inc), spec_plain(Token::Inc)];
    let is = seq![Instruction::Inc, Instruction::Inc];
    assert(spec_n8_expression(TypedExpression::N8Subtraction(Box::new(x), Box::new(TypedExpression::N8Constant(0xFE))), t) == Some(ca + toks)) by {
        assert(ca + toks =~= ca.push(spec_plain(Token::Inc)).push(spec_plain(Token::Inc)));
    }
    assert(spec_code_instructions(toks) == Some(is)) by {
        reveal_with_fuel(spec_code_instructions, 3);
        assert(toks.drop_first().drop_first() =~= Seq::<Result<TokenView, Seq<char>>>::empty());
        assert(is.drop_first().drop_first() =~= Seq::<Instruction>::empty());
    }
    assert(spec_run(s, is).1 && spec_run(s, is).0.sp == s.sp && spec_run(s, is).0.mem[s.sp as int] == ((v + 2) % 256) as u8) by {
        reveal_with_fuel(spec_run, 3);
        assert(is.drop_first().drop_first() =~= Seq::<Instruction>::empty());
    }
    lemma_extends(spec_n8_expression(TypedExpression::N8Subtraction(Box::new(x), Box::new(TypedExpression::N8Constant(0xFE))), t), ca, toks, is, s, ((v + 2) % 256) as u8);
}

/// The code of a byte expression subtracted from one is the code of the expression followed by instructions
/// that leave that value on top of the stack.
#[verifier::spinoff_prover]
pub proof fn law_code_one_minus(x: TypedExpression, t: nat, s: EmuState)
    requires
        spec_n8_expression(x, t) is Some,
        !(x is N8Constant),
        spec_state_wf(s),
        s.sp != 0,
    ensures
        ({
            let v = s.mem[s.sp as int];
            spec_extends_to_top(spec_n8_expression(TypedExpression::N8Subtraction(Box::new(TypedExpression::N8Constant(1)), Box::new(x)), t), spec_n8_expression(x, t)->0, s, ((257 - v) % 256) as u8)
        }),
{
    let v = s.mem[s.sp as int];
    let ca = spec_n8_expression(x, t)->0;
    let toks = seq![spec_plain(Token::Neg), spec_plain(Token::Inc)];
    let is = seq![Instruction::Neg, Instruction::Inc];
    assert(spec_n8_expression(TypedExpression::N8Subtraction(Box::new(TypedExpression::N8Constant(1)), Box::new(x)), t) == Some(ca + toks)) by {
        assert(ca + toks =~= ca.push(spec_plain(Token::Neg)).push(spec_plain(Token::Inc)));
    }
    assert(spec_code_instructions(toks) == Some(is)) by {
        reveal_with_fuel(spec_code_instructions, 3);
        assert(toks.drop_first().drop_first() =~= Seq::<Result<TokenView, Seq<char>>>::empty());
        assert(is.drop_first().drop_first() =~= Seq::<Instruction>::empty());
    }
    assert(spec_run(s, is).1 && spec_run(s, is).0.sp == s.sp && spec_run(s, is).0.mem[s.sp as int] == ((257 - v) % 256) as u8) by {
        reveal_with_fuel(spec_run, 3);
        assert(is.drop_first().drop_first() =~= Seq::<Instruction>::empty());
    }
    lemma_extends(spec_n8_expression(TypedExpression::N8Subtraction(Box::new(TypedExpression::N8Constant(1)), Box::new(x)), t), ca, toks, is, s, ((257 - v) % 256) as u8);
}

/// The code of a byte expression subtracted from zero is the code of the expression followed by instructions
/// that leave that value on top of the stack.
#[verifier::spinoff_prover]
pub proof fn law_code_zero_minus(x: TypedExpression, t: nat, s: EmuState)
    requires
        spec_n8_expression(x, t) is Some,
        !(x is N8Constant),
        spec_state_wf(s),
        s.sp != 0,
    ensures
        ({
            let v = s.mem[s.sp as int];
            spec_extends_to_top(spec_n8_expression(TypedExpression::N8Subtraction(Box::new(TypedExpression::N8Constant(0)), Box::new(x)), t), spec_n8_expression(x, t)->0, s, ((256 - v) % 256) as u8)
        }),
{
    let v = s.mem[s.sp as int];
    let ca = spec_n8_expression(x, t)->0;
    let toks = seq![spec_plain(Token::Neg)];
    let is = seq![Instruction::Neg];
    assert(spec_n8_expression(TypedExpression::N8Subtraction(Box::new(TypedExpression::N8Constant(0)), Box::new(x)), t) == Some(ca + toks)) by {
        assert(ca + toks =~= ca.push(spec_plain(Token::Neg)));
    }
    assert(spec_code_instructions(toks) == Some(is)) by {
        reveal_with_fuel(spec_code_instructions, 2);
        assert(toks.drop_first() =~= Seq::<Result<TokenView, Seq<char>>>::empty());
        assert(is.drop_first() =~= Seq::<Instruction>::empty());
    }
    assert(spec_run(s, is).1 && spec_run(s, is).0.sp == s.sp && spec_run(s, is).0.mem[s.sp as int] == ((256 - v) % 256) as u8) by {
        reveal_with_fuel(spec_run, 2);
        assert(is.drop_first() =~= Seq::<Instruction>::empty());
    }
    lemma_extends(spec_n8_expression(TypedExpression::N8Subtraction(Box::new(TypedExpression::N8Constant(0)), Box::new(x)), t), ca, toks, is, s, ((256 - v) % 256) as u8);
}

/// The code of a byte expression subtracted from `0xFF` is the code of the expression followed by instructions
/// that leave that value on top of the stack.
#[verifier::spinoff_prover]
pub proof fn law_code_minus_one_minus(x: TypedExpression, t: nat, s: EmuState)
    requires
        spec_n8_expression(x, t) is Some,
        !(x is N8Constant),
        spec_state_wf(s),
        s.sp != 0,
    ensures
        ({
            let v = s.mem[s.sp as int];
            spec_extends_to_top(spec_n8_expression(TypedExpression::N8Subtraction(Box::new(TypedExpression::N8Constant(0xFF)), Box::new(x)), t), spec_n8_expression(x, t)->0, s, (255 - v) as u8)
        }),
{
    let v = s.mem[s.sp as int];
    let ca = spec_n8_expression(x, t)->0;
    let toks = seq![spec_plain(Token::Neg), spec_plain(Token::Dec)];
    let is = seq![Instruction::Neg, Instruction::Dec];
    assert(spec_n8_expression(TypedExpression::N8Subtraction(Box::new(TypedExpression::N8Constant(0xFF)), Box::new(x)), t) == Some(ca + toks)) by {
        assert(ca + toks =~= ca.push(spec_plain(Token::Neg)).push(spec_plain(Token::Dec)));
    }
    assert(spec_code_instructions(toks) == Some(is)) by {
        reveal_with_fuel(spec_code_instructions, 3);
        assert(toks.drop_first().drop_first() =~= Seq::<Result<TokenView, Seq<char>>>::empty());
        assert(is.drop_first().drop_first() =~= Seq::<Instruction>::empty());
    }
    lemma_run_minus_one_minus(s);
    lemma_extends(spec_n8_expression(TypedExpression::N8Subtraction(Box::new(TypedExpression::N8Constant(0xFF)), Box::new(x)), t), ca, toks, is, s, (255 - v) as u8);
}

/// The code of a byte expression complemented is the code of the expression followed by instructions
/// that leave that value on top of the stack.
#[verifier::spinoff_prover]
pub proof fn law_code_complement(x: TypedExpression, t: nat, s: EmuState)
    requires
        spec_n8_expression(x, t) is Some,
        spec_state_wf(s),
        s.sp != 0,
    ensures
        ({
            let v = s.mem[s.sp as int];
            spec_extends_to_top(spec_n8_expression(TypedExpression::N8BitwiseComplement(Box::new(x)), t), spec_n8_expression(x, t)->0, s, (255 - v) as u8)
        }),
{
    let v = s.mem[s.sp as int];
    let ca = spec_n8_expression(x, t)->0;
    let toks = seq![spec_plain(Token::Not)];
    let is = seq![Instruction::Not];
    assert(spec_n8_expression(TypedExpression::N8BitwiseComplement(Box::new(x)), t) == Some(ca + toks)) by {
        assert(ca + toks =~= ca.push(spec_plain(Token::Not)));
    }
    assert(spec_code_instructions(toks) == Some(is)) by {
        reveal_with_fuel(spec_code_instructions, 2);
        assert(toks.drop_first() =~= Seq::<Result<TokenView, Seq<char>>>::empty());
        assert(is.drop_first() =~= Seq::<Instruction>::empty());
    }
    assert(spec_run(s, is).1 && spec_run(s, is).0.sp == s.sp && spec_run(s, is).0.mem[s.sp as int] == (255 - v) as u8) by {
        reveal_with_fuel(spec_run, 2);
        assert(is.drop_first() =~= Seq::<Instruction>::empty());
    }
    lemma_extends(spec_n8_expression(TypedExpression::N8BitwiseComplement(Box::new(x)), t), ca, toks, is, s, (255 - v) as u8);
}


/// A byte constant complemented folds to the byte with every bit flipped.
pub proof fn law_fold_complement(c: u8, k: u8)
    requires
        k < 8,
    ensures
        spec_flatten(spec_unary(Unary::N8BitwiseComplement, TypedExpressionView::N8Constant(c))) matches
            TypedExpressionView::N8Constant(r) && spec_byte_bit(r, k) == !spec_byte_bit(c, k),
{
    reveal_with_fuel(spec_flatten_fuel, 2);
    assert((((255 - c) as u8) >> k) & 1 == 1 <==> !((c >> k) & 1 == 1)) by (bit_vector)
        requires k < 8;
}

/// A byte constant complemented twice folds back to itself.
pub proof fn law_fold_double_complement(c: u8)
    ensures
        spec_flatten(
            spec_unary(
                Unary::N8BitwiseComplement,
                spec_unary(Unary::N8BitwiseComplement, TypedExpressionView::N8Constant(c)),
            ),
        ) == TypedExpressionView::N8Constant(c),
{
    reveal_with_fuel(spec_flatten_fuel, 4);
}

/// A byte constant cast to a bit folds to its lowest bit, and a bit constant complemented folds
/// to the other bit.
pub proof fn law_fold_bits(c: u8, b: bool)
    ensures
        spec_flatten(spec_unary(Unary::N1CastN8, TypedExpressionView::N8Constant(c))) == TypedExpressionView::N1Constant(
            spec_byte_bit(c, 0),
        ),
        spec_flatten(spec_unary(Unary::N1BitwiseComplement, TypedExpressionView::N1Constant(b)))
            == TypedExpressionView::N1Constant(!b),
{
    reveal_with_fuel(spec_flatten_fuel, 2);
    assert(((c >> 0u8) & 1 == 1) == (c % 2 == 1)) by (bit_vector);
}


/// The code that loads the local `o` bytes above the locals' base, with `t` temporaries pushed
/// since, pushes the byte `o + t` above the top of the stack.
pub proof fn law_code_load_local(o: usize, t: nat, s: EmuState)
    requires
        o + t <= 0x0F,
        spec_state_wf(s),
        s.sp != 1,
        (s.sp + o + t) % 256 != 0,
    ensures
        spec_n8_expression(TypedExpression::N8LoadLocal(o), t) matches Some(c) && spec_code_instructions(c) matches Some(
            is,
        ) && ({
            let (u, ok) = spec_run(s, is);
            &&& ok
            &&& u.sp == (s.sp + 0xFF) % 256
            &&& u.mem[u.sp as int] == s.mem[(s.sp + o + t) % 256]
        }),
{
    let c = spec_n8_expression(TypedExpression::N8LoadLocal(o), t)->0;
    assert(c == seq![spec_plain(Token::LdO(crate::common::Ofst((o + t) as u8)))]);
    let is = seq![Instruction::Ldo(crate::common::Ofst((o + t) as u8))];
    assert(spec_code_instructions(c) == Some(is)) by {
        reveal_with_fuel(spec_code_instructions, 2);
        assert(c.drop_first() =~= Seq::<Result<TokenView, Seq<char>>>::empty());
    }
    assert(is.drop_first() =~= Seq::<Instruction>::empty());
    reveal_with_fuel(spec_run, 2);
}

/// The code of a dereference replaces the address its operand leaves with the byte at that
/// address.
pub proof fn law_code_dereference(x: TypedExpression, t: nat, s: EmuState)
    requires
        spec_n8_expression(x, t) is Some,
        spec_state_wf(s),
        s.sp != 0,
        s.mem[s.sp as int] != 0,
    ensures
        spec_extends_to_top(
            spec_n8_expression(TypedExpression::N8DereferenceN8(Box::new(x)), t),
            spec_n8_expression(x, t)->0,
            s,
            s.mem[s.mem[s.sp as int] as int],
        ),
{
    let ca = spec_n8_expression(x, t)->0;
    let toks = seq![spec_plain(Token::Lda)];
    let is = seq![Instruction::Lda];
    assert(ca + toks =~= ca.push(spec_plain(Token::Lda)));
    assert(spec_code_instructions(toks) == Some(is)) by {
        reveal_with_fuel(spec_code_instructions, 2);
        assert(toks.drop_first() =~= Seq::<Result<TokenView, Seq<char>>>::empty());
    }
    assert(is.drop_first() =~= Seq::<Instruction>::empty());
    reveal_with_fuel(spec_run, 2);
    lemma_extends(spec_n8_expression(TypedExpression::N8DereferenceN8(Box::new(x)), t), ca, toks, is, s, s.mem[s.mem[s.sp as int] as int]);
}

} // verus!
