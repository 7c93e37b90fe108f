//! Code generation for typed expressions: constant folding, which also moves comma
//! operators outward so that their left-hand sides can be emitted first, and the assembly
//! tokens that compute an expression on the stack.

use vstd::prelude::*;
use crate::cc::ast::{spec_arguments_view, TypedExpression, TypedExpressionView};
use crate::common::Ofst;
use crate::cc::link::{spec_output_view, spec_output_views};
use crate::text::{chars_of, string_from_chars};
use crate::token::{Label, LabelView, Macro, Token, TokenView};

verus! {

/// An operation of one operand, up to its operand.
#[derive(Clone, Copy, PartialEq, Eq, Structural)]
pub enum Unary {
    N1DereferenceN8,
    N8DereferenceN8,
    N1BitwiseComplement,
    N8BitwiseComplement,
    N0CastN1,
    N0CastN8,
    N1CastN8,
    N8CastN1,
}

/// An operation of two operands, up to its operands.
#[derive(Clone, Copy, PartialEq, Eq, Structural)]
pub enum Binary {
    N8Addition,
    N8Subtraction,
    N8Multiplication,
    U8Division,
    U8Modulo,
    N8BitwiseAnd,
    N8BitwiseInclusiveOr,
    N8BitwiseExclusiveOr,
    N1EqualToN8,
    N1LessThanU8,
    N1LessThanI8,
}

/// The width of a comma operator: none, a bit or a byte.
#[derive(Clone, Copy, PartialEq, Eq, Structural)]
pub enum Width {
    N0,
    N1,
    N8,
}

/// The unary operation `k` applied to `x`.

pub open spec fn spec_unary(k: Unary, x: TypedExpressionView) -> TypedExpressionView {
    match k {
        Unary::N1DereferenceN8 => TypedExpressionView::N1DereferenceN8(Box::new(x)),
        Unary::N8DereferenceN8 => TypedExpressionView::N8DereferenceN8(Box::new(x)),
        Unary::N1BitwiseComplement => TypedExpressionView::N1BitwiseComplement(Box::new(x)),
        Unary::N8BitwiseComplement => TypedExpressionView::N8BitwiseComplement(Box::new(x)),
        Unary::N0CastN1 => TypedExpressionView::N0CastN1(Box::new(x)),
        Unary::N0CastN8 => TypedExpressionView::N0CastN8(Box::new(x)),
        Unary::N1CastN8 => TypedExpressionView::N1CastN8(Box::new(x)),
        Unary::N8CastN1 => TypedExpressionView::N8CastN1(Box::new(x)),
    }
}

/// The binary operation `k` applied to `a` and `b`.
pub open spec fn spec_binary(k: Binary, a: TypedExpressionView, b: TypedExpressionView) -> TypedExpressionView {
    match k {
        Binary::N8Addition => TypedExpressionView::N8Addition(Box::new(a), Box::new(b)),
        Binary::N8Subtraction => TypedExpressionView::N8Subtraction(Box::new(a), Box::new(b)),
        Binary::N8Multiplication => TypedExpressionView::N8Multiplication(Box::new(a), Box::new(b)),
        Binary::U8Division => TypedExpressionView::U8Division(Box::new(a), Box::new(b)),
        Binary::U8Modulo => TypedExpressionView::U8Modulo(Box::new(a), Box::new(b)),
        Binary::N8BitwiseAnd => TypedExpressionView::N8BitwiseAnd(Box::new(a), Box::new(b)),
        Binary::N8BitwiseInclusiveOr => TypedExpressionView::N8BitwiseInclusiveOr(Box::new(a), Box::new(b)),
        Binary::N8BitwiseExclusiveOr => TypedExpressionView::N8BitwiseExclusiveOr(Box::new(a), Box::new(b)),
        Binary::N1EqualToN8 => TypedExpressionView::N1EqualToN8(Box::new(a), Box::new(b)),
        Binary::N1LessThanU8 => TypedExpressionView::N1LessThanU8(Box::new(a), Box::new(b)),
        Binary::N1LessThanI8 => TypedExpressionView::N1LessThanI8(Box::new(a), Box::new(b)),
    }
}

/// The comma operator of width `w`: evaluate `a`, then yield `b`.
pub open spec fn spec_second(w: Width, a: TypedExpressionView, b: TypedExpressionView) -> TypedExpressionView {
    match w {
        Width::N0 => TypedExpressionView::N0SecondN0N0(Box::new(a), Box::new(b)),
        Width::N1 => TypedExpressionView::N1SecondN0N1(Box::new(a), Box::new(b)),
        Width::N8 => TypedExpressionView::N8SecondN0N8(Box::new(a), Box::new(b)),
    }
}

/// The width of the value of a unary operation.
pub open spec fn spec_unary_width(k: Unary) -> Width {
    match k {
        Unary::N1DereferenceN8 | Unary::N1BitwiseComplement | Unary::N1CastN8 => Width::N1,
        Unary::N8DereferenceN8 | Unary::N8BitwiseComplement | Unary::N8CastN1 => Width::N8,
        Unary::N0CastN1 | Unary::N0CastN8 => Width::N0,
    }
}

/// The width of the value of a binary operation.
pub open spec fn spec_binary_width(k: Binary) -> Width {
    match k {
        Binary::N1EqualToN8 | Binary::N1LessThanU8 | Binary::N1LessThanI8 => Width::N1,
        _ => Width::N8,
    }
}

/// A size of an expression that every step of folding decreases: an operation weighs twice
/// its operands and one more, a comma operator its operands and one more.
pub open spec fn spec_weight(e: TypedExpressionView) -> nat
    decreases e,
{
    match e {
        TypedExpressionView::N1DereferenceN8(x) | TypedExpressionView::N8DereferenceN8(x)
        | TypedExpressionView::N1BitwiseComplement(x) | TypedExpressionView::N8BitwiseComplement(x)
        | TypedExpressionView::N0CastN1(x) | TypedExpressionView::N0CastN8(x) | TypedExpressionView::N1CastN8(x)
        | TypedExpressionView::N8CastN1(x) => 2 * spec_weight(*x) + 1,
        TypedExpressionView::N8Addition(a, b) | TypedExpressionView::N8Subtraction(a, b)
        | TypedExpressionView::N8Multiplication(a, b) | TypedExpressionView::U8Division(a, b)
        | TypedExpressionView::U8Modulo(a, b) | TypedExpressionView::N8BitwiseAnd(a, b)
        | TypedExpressionView::N8BitwiseInclusiveOr(a, b) | TypedExpressionView::N8BitwiseExclusiveOr(a, b)
        | TypedExpressionView::N1EqualToN8(a, b) | TypedExpressionView::N1LessThanU8(a, b)
        | TypedExpressionView::N1LessThanI8(a, b) => 2 * (spec_weight(*a) + spec_weight(*b)) + 1,
        TypedExpressionView::N0SecondN0N0(a, b) | TypedExpressionView::N1SecondN0N1(a, b)
        | TypedExpressionView::N8SecondN0N8(a, b) => spec_weight(*a) + spec_weight(*b) + 1,
        TypedExpressionView::N0MacroCall(_, args) | TypedExpressionView::N1MacroCall(_, args)
        | TypedExpressionView::N8MacroCall(_, args) => spec_weights(args) + 1,
        TypedExpressionView::N0FunctionCall(d, args) | TypedExpressionView::N1FunctionCall(d, args)
        | TypedExpressionView::N8FunctionCall(d, args) => spec_weight(*d) + spec_weights(args) + 1,
        _ => 1,
    }
}

/// The weights of arguments, summed.
pub open spec fn spec_weights(args: Seq<TypedExpressionView>) -> nat
    decreases args,
{
    if args.len() == 0 {
        0
    } else {
        spec_weights(args.subrange(0, args.len() - 1)) + spec_weight(args.last())
    }
}

/// A byte as a signed integer.
pub open spec fn spec_signed(c: u8) -> int {
    if c < 128 { c as int } else { c - 256 }
}

/// The operands of a comma operator of any width.
pub open spec fn spec_as_second(e: TypedExpressionView) -> Option<(TypedExpressionView, TypedExpressionView)> {
    match e {
        TypedExpressionView::N0SecondN0N0(a, b) | TypedExpressionView::N1SecondN0N1(a, b)
        | TypedExpressionView::N8SecondN0N8(a, b) => Some((*a, *b)),
        _ => None,
    }
}

/// Folding below an operation of one operand whose operand folded to `r`: a comma operator
/// moves outward, the operation applying to its right-hand side, and that is folded again.
pub open spec fn spec_default_unary(k: Unary, r: TypedExpressionView, fuel: nat) -> TypedExpressionView
    decreases fuel, 1nat,
{
    match spec_as_second(r) {
        Some((a, b)) => spec_flatten_fuel(spec_second(spec_unary_width(k), a, spec_unary(k, b)), fuel),
        None => spec_unary(k, r),
    }
}

/// Folding below an operation of two operands that folded to `r1` and `r2`: a comma operator
/// in the first operand, else in the second, moves outward, and that is folded again.
pub open spec fn spec_default_binary(k: Binary, r1: TypedExpressionView, r2: TypedExpressionView, fuel: nat) -> TypedExpressionView
    decreases fuel, 1nat,
{
    match spec_as_second(r1) {
        Some((a, b)) => spec_flatten_fuel(spec_second(spec_binary_width(k), a, spec_binary(k, b, r2)), fuel),
        None => match spec_as_second(r2) {
            Some((a, b)) => spec_flatten_fuel(spec_second(spec_binary_width(k), a, spec_binary(k, r1, b)), fuel),
            None => spec_binary(k, r1, r2),
        },
    }
}

/// Folding two byte constants under a binary operation, where the operation folds.
pub open spec fn spec_fold_constants(k: Binary, c1: u8, c2: u8) -> Option<TypedExpressionView> {
    match k {
        Binary::N8Addition => Some(TypedExpressionView::N8Constant(((c1 + c2) % 256) as u8)),
        Binary::N8Subtraction => Some(TypedExpressionView::N8Constant(((c1 - c2) % 256) as u8)),
        Binary::N8Multiplication => Some(TypedExpressionView::N8Constant(((c1 * c2) % 256) as u8)),
        Binary::U8Division => Some(TypedExpressionView::N8Constant(if c2 == 0 { c1 } else { (c1 / c2) as u8 })),
        Binary::U8Modulo => Some(TypedExpressionView::N8Constant(if c2 == 0 { c1 } else { (c1 % c2) as u8 })),
        Binary::N1EqualToN8 => Some(TypedExpressionView::N1Constant(c1 == c2)),
        Binary::N1LessThanU8 => Some(TypedExpressionView::N1Constant(c1 < c2)),
        Binary::N1LessThanI8 => Some(TypedExpressionView::N1Constant(spec_signed(c1) < spec_signed(c2))),
        _ => None,
    }
}

/// Folding a binary operation whose operands folded to `r1` and `r2`.
pub open spec fn spec_fold_binary(k: Binary, r1: TypedExpressionView, r2: TypedExpressionView, fuel: nat) -> TypedExpressionView
    decreases fuel, 2nat,
{
    match (r1, r2) {
        (TypedExpressionView::N8Constant(c1), TypedExpressionView::N8Constant(c2)) => match spec_fold_constants(k, c1, c2) {
            Some(c) => c,
            None => spec_default_binary(k, r1, r2, fuel),
        },
        _ => spec_default_binary(k, r1, r2, fuel),
    }
}

/// Folding a unary operation whose operand folded to `r`.
pub open spec fn spec_fold_unary(k: Unary, r: TypedExpressionView, fuel: nat) -> TypedExpressionView
    decreases fuel, 2nat,
{
    match (k, r) {
        (Unary::N1BitwiseComplement, TypedExpressionView::N1BitwiseComplement(y)) => *y,
        (Unary::N1BitwiseComplement, TypedExpressionView::N1Constant(c)) => TypedExpressionView::N1Constant(!c),
        (Unary::N8BitwiseComplement, TypedExpressionView::N8BitwiseComplement(y)) => *y,
        (Unary::N8BitwiseComplement, TypedExpressionView::N8Constant(c)) => TypedExpressionView::N8Constant((255 - c) as u8),
        (Unary::N0CastN1, TypedExpressionView::N1Constant(_)) => TypedExpressionView::N0Constant,
        (Unary::N1CastN8, TypedExpressionView::N8Constant(c)) => TypedExpressionView::N1Constant(c % 2 == 1),
        _ => spec_default_unary(k, r, fuel),
    }
}

/// The kind and operand of a unary operation.
pub open spec fn spec_as_unary(e: TypedExpressionView) -> Option<(Unary, TypedExpressionView)> {
    match e {
        TypedExpressionView::N1DereferenceN8(x) => Some((Unary::N1DereferenceN8, *x)),
        TypedExpressionView::N8DereferenceN8(x) => Some((Unary::N8DereferenceN8, *x)),
        TypedExpressionView::N1BitwiseComplement(x) => Some((Unary::N1BitwiseComplement, *x)),
        TypedExpressionView::N8BitwiseComplement(x) => Some((Unary::N8BitwiseComplement, *x)),
        TypedExpressionView::N0CastN1(x) => Some((Unary::N0CastN1, *x)),
        TypedExpressionView::N0CastN8(x) => Some((Unary::N0CastN8, *x)),
        TypedExpressionView::N1CastN8(x) => Some((Unary::N1CastN8, *x)),
        TypedExpressionView::N8CastN1(x) => Some((Unary::N8CastN1, *x)),
        _ => None,
    }
}

/// The kind and operands of a binary operation.
pub open spec fn spec_as_binary(e: TypedExpressionView) -> Option<(Binary, TypedExpressionView, TypedExpressionView)> {
    match e {
        TypedExpressionView::N8Addition(a, b) => Some((Binary::N8Addition, *a, *b)),
        TypedExpressionView::N8Subtraction(a, b) => Some((Binary::N8Subtraction, *a, *b)),
        TypedExpressionView::N8Multiplication(a, b) => Some((Binary::N8Multiplication, *a, *b)),
        TypedExpressionView::U8Division(a, b) => Some((Binary::U8Division, *a, *b)),
        TypedExpressionView::U8Modulo(a, b) => Some((Binary::U8Modulo, *a, *b)),
        TypedExpressionView::N8BitwiseAnd(a, b) => Some((Binary::N8BitwiseAnd, *a, *b)),
        TypedExpressionView::N8BitwiseInclusiveOr(a, b) => Some((Binary::N8BitwiseInclusiveOr, *a, *b)),
        TypedExpressionView::N8BitwiseExclusiveOr(a, b) => Some((Binary::N8BitwiseExclusiveOr, *a, *b)),
        TypedExpressionView::N1EqualToN8(a, b) => Some((Binary::N1EqualToN8, *a, *b)),
        TypedExpressionView::N1LessThanU8(a, b) => Some((Binary::N1LessThanU8, *a, *b)),
        TypedExpressionView::N1LessThanI8(a, b) => Some((Binary::N1LessThanI8, *a, *b)),
        _ => None,
    }
}

/// Folding with at most `fuel` nested steps: constants fold, double complements cancel, and
/// comma operators move outward; arguments and comma operands fold in place.
pub open spec fn spec_flatten_fuel(e: TypedExpressionView, fuel: nat) -> TypedExpressionView
    decreases fuel, 0nat,
{
    if fuel == 0 {
        e
    } else {
        let f = (fuel - 1) as nat;
        match spec_as_unary(e) {
            Some((k, x)) => spec_fold_unary(k, spec_flatten_fuel(x, f), f),
            None => match spec_as_binary(e) {
                Some((k, a, b)) => spec_fold_binary(k, spec_flatten_fuel(a, f), spec_flatten_fuel(b, f), f),
                None => match e {
                    TypedExpressionView::N0SecondN0N0(a, b) => TypedExpressionView::N0SecondN0N0(
                        Box::new(spec_flatten_fuel(*a, f)),
                        Box::new(spec_flatten_fuel(*b, f)),
                    ),
                    TypedExpressionView::N1SecondN0N1(a, b) => TypedExpressionView::N1SecondN0N1(
                        Box::new(spec_flatten_fuel(*a, f)),
                        Box::new(spec_flatten_fuel(*b, f)),
                    ),
                    TypedExpressionView::N8SecondN0N8(a, b) => TypedExpressionView::N8SecondN0N8(
                        Box::new(spec_flatten_fuel(*a, f)),
                        Box::new(spec_flatten_fuel(*b, f)),
                    ),
                    TypedExpressionView::N0MacroCall(l, args) => TypedExpressionView::N0MacroCall(l, spec_flatten_seq(args, f)),
                    TypedExpressionView::N1MacroCall(l, args) => TypedExpressionView::N1MacroCall(l, spec_flatten_seq(args, f)),
                    TypedExpressionView::N8MacroCall(l, args) => TypedExpressionView::N8MacroCall(l, spec_flatten_seq(args, f)),
                    TypedExpressionView::N0FunctionCall(d, args) => TypedExpressionView::N0FunctionCall(
                        Box::new(spec_flatten_fuel(*d, f)),
                        spec_flatten_seq(args, f),
                    ),
                    TypedExpressionView::N1FunctionCall(d, args) => TypedExpressionView::N1FunctionCall(
                        Box::new(spec_flatten_fuel(*d, f)),
                        spec_flatten_seq(args, f),
                    ),
                    TypedExpressionView::N8FunctionCall(d, args) => TypedExpressionView::N8FunctionCall(
                        Box::new(spec_flatten_fuel(*d, f)),
                        spec_flatten_seq(args, f),
                    ),
                    _ => e,
                },
            },
        }
    }
}

/// Arguments folded one by one.
pub open spec fn spec_flatten_seq(args: Seq<TypedExpressionView>, fuel: nat) -> Seq<TypedExpressionView>
    decreases fuel, args.len(),
{
    if args.len() == 0 {
        Seq::empty()
    } else {
        spec_flatten_seq(args.drop_last(), fuel).push(spec_flatten_fuel(args.last(), fuel))
    }
}

/// Folding an expression: as many nested steps as its weight allow, which is enough for all.
pub open spec fn spec_flatten(e: TypedExpressionView) -> TypedExpressionView {
    spec_flatten_fuel(e, spec_weight(e))
}

/// Weights are at least one.
proof fn lemma_weight_positive(e: TypedExpressionView)
    ensures
        spec_weight(e) >= 1,
{
}

/// The weight of an operation of one operand.
proof fn lemma_weight_unary(k: Unary, x: TypedExpressionView)
    ensures
        spec_weight(spec_unary(k, x)) == 2 * spec_weight(x) + 1,
{
    match k {
        Unary::N1DereferenceN8 => {},
        Unary::N8DereferenceN8 => {},
        Unary::N1BitwiseComplement => {},
        Unary::N8BitwiseComplement => {},
        Unary::N0CastN1 => {},
        Unary::N0CastN8 => {},
        Unary::N1CastN8 => {},
        Unary::N8CastN1 => {},
    }
}

/// The weight of an operation of two operands.
proof fn lemma_weight_binary(k: Binary, a: TypedExpressionView, b: TypedExpressionView)
    ensures
        spec_weight(spec_binary(k, a, b)) == 2 * (spec_weight(a) + spec_weight(b)) + 1,
{
    match k {
        Binary::N8Addition => {},
        Binary::N8Subtraction => {},
        Binary::N8Multiplication => {},
        Binary::U8Division => {},
        Binary::U8Modulo => {},
        Binary::N8BitwiseAnd => {},
        Binary::N8BitwiseInclusiveOr => {},
        Binary::N8BitwiseExclusiveOr => {},
        Binary::N1EqualToN8 => {},
        Binary::N1LessThanU8 => {},
        Binary::N1LessThanI8 => {},
    }
}

/// The weight of a comma operator.
proof fn lemma_weight_second(w: Width, a: TypedExpressionView, b: TypedExpressionView)
    ensures
        spec_weight(spec_second(w, a, b)) == spec_weight(a) + spec_weight(b) + 1,
{
    match w {
        Width::N0 => {},
        Width::N1 => {},
        Width::N8 => {},
    }
}

/// The operands of a comma operator weigh less than it.
proof fn lemma_weight_as_second(e: TypedExpressionView)
    ensures
        spec_as_second(e) matches Some((a, b)) ==> spec_weight(e) == spec_weight(a) + spec_weight(b) + 1,
{
}

/// The views of arguments: one per argument, in order.
proof fn lemma_arguments_view(args: Seq<TypedExpression>)
    ensures
        spec_arguments_view(args).len() == args.len(),
        forall|i: int| 0 <= i < args.len() ==> #[trigger] spec_arguments_view(args)[i] == args[i]@,
    decreases args.len(),
{
    if args.len() > 0 {
        lemma_arguments_view(args.subrange(0, args.len() - 1));
    }
}

/// The view of arguments with one more.
proof fn lemma_arguments_view_push(args: Seq<TypedExpression>, x: TypedExpression)
    ensures
        spec_arguments_view(args.push(x)) == spec_arguments_view(args).push(x@),
{
    assert(args.push(x).subrange(0, args.len() as int) =~= args);
}

/// The weight of arguments with one more.
proof fn lemma_weights_push(args: Seq<TypedExpressionView>, x: TypedExpressionView)
    ensures
        spec_weights(args.push(x)) == spec_weights(args) + spec_weight(x),
{
    assert(args.push(x).subrange(0, args.len() as int) =~= args);
}

/// The weight of a prefix of arguments, with the next argument, is at most the weight of all.
proof fn lemma_weights_prefix(args: Seq<TypedExpressionView>, k: int)
    requires
        0 <= k < args.len(),
    ensures
        spec_weights(args.subrange(0, k)) + spec_weight(args[k]) <= spec_weights(args),
    decreases args.len(),
{
    let prev = args.subrange(0, args.len() - 1);
    if k < args.len() - 1 {
        lemma_weights_prefix(prev, k);
        assert(prev.subrange(0, k) =~= args.subrange(0, k));
    } else {
        assert(prev =~= args.subrange(0, k));
    }
}

/// Folding arguments with one more.
proof fn lemma_flatten_seq_push(args: Seq<TypedExpressionView>, x: TypedExpressionView, fuel: nat)
    ensures
        spec_flatten_seq(args.push(x), fuel) == spec_flatten_seq(args, fuel).push(spec_flatten_fuel(x, fuel)),
{
    assert(args.push(x).drop_last() =~= args);
}

/// An expression that splits as an operation of one operand is that operation.
proof fn lemma_as_unary(e: TypedExpressionView)
    ensures
        spec_as_unary(e) matches Some((k, x)) ==> e == spec_unary(k, x),
{
}

/// An expression that splits as an operation of two operands is that operation.
proof fn lemma_as_binary(e: TypedExpressionView)
    ensures
        spec_as_binary(e) matches Some((k, a, b)) ==> e == spec_binary(k, a, b),
{
}

/// Folding with any fuel at least the weight gives one result, which weighs no more.
proof fn lemma_flatten_fuel_agree(e: TypedExpressionView, f: nat, g: nat)
    requires
        spec_weight(e) <= f,
        spec_weight(e) <= g,
    ensures
        spec_flatten_fuel(e, f) == spec_flatten_fuel(e, g),
        spec_weight(spec_flatten_fuel(e, f)) <= spec_weight(e),
    decreases spec_weight(e), 2nat,
{
    lemma_weight_positive(e);
    lemma_as_unary(e);
    lemma_as_binary(e);
    let f1 = (f - 1) as nat;
    let g1 = (g - 1) as nat;
    match spec_as_unary(e) {
        Some((k, x)) => {
            lemma_weight_unary(k, x);
            lemma_flatten_fuel_agree(x, f1, g1);
            let r = spec_flatten_fuel(x, f1);
            lemma_weight_unary(k, r);
            lemma_fold_unary_agree(k, r, f1, g1);
        },
        None => match spec_as_binary(e) {
            Some((k, a, b)) => {
                lemma_weight_binary(k, a, b);
                lemma_flatten_fuel_agree(a, f1, g1);
                lemma_flatten_fuel_agree(b, f1, g1);
                let ra = spec_flatten_fuel(a, f1);
                let rb = spec_flatten_fuel(b, f1);
                lemma_weight_binary(k, ra, rb);
                lemma_fold_binary_agree(k, ra, rb, f1, g1);
            },
            None => match e {
                TypedExpressionView::N0SecondN0N0(a, b) | TypedExpressionView::N1SecondN0N1(a, b)
                | TypedExpressionView::N8SecondN0N8(a, b) => {
                    lemma_flatten_fuel_agree(*a, f1, g1);
                    lemma_flatten_fuel_agree(*b, f1, g1);
                },
                TypedExpressionView::N0MacroCall(_, args) | TypedExpressionView::N1MacroCall(_, args)
                | TypedExpressionView::N8MacroCall(_, args) => {
                    lemma_flatten_seq_agree(args, f1, g1);
                },
                TypedExpressionView::N0FunctionCall(d, args) | TypedExpressionView::N1FunctionCall(d, args)
                | TypedExpressionView::N8FunctionCall(d, args) => {
                    lemma_flatten_fuel_agree(*d, f1, g1);
                    lemma_flatten_seq_agree(args, f1, g1);
                },
                _ => {},
            },
        },
    }
}

/// Folding arguments with any fuel at least their weight gives one result.
proof fn lemma_flatten_seq_agree(args: Seq<TypedExpressionView>, f: nat, g: nat)
    requires
        spec_weights(args) <= f,
        spec_weights(args) <= g,
    ensures
        spec_flatten_seq(args, f) == spec_flatten_seq(args, g),
        spec_weights(spec_flatten_seq(args, f)) <= spec_weights(args),
    decreases spec_weights(args), 3nat,
{
    if args.len() > 0 {
        let prev = args.drop_last();
        assert(args.subrange(0, args.len() - 1) == prev);
        lemma_weight_positive(args.last());
        lemma_flatten_seq_agree(prev, f, g);
        lemma_flatten_fuel_agree(args.last(), f, g);
        lemma_weights_push(spec_flatten_seq(prev, f), spec_flatten_fuel(args.last(), f));
    }
}

/// Folding below an operation of one operand agrees for any fuel that suffices.
proof fn lemma_default_unary_agree(k: Unary, r: TypedExpressionView, f: nat, g: nat)
    requires
        spec_weight(spec_unary(k, r)) <= f + 1,
        spec_weight(spec_unary(k, r)) <= g + 1,
    ensures
        spec_default_unary(k, r, f) == spec_default_unary(k, r, g),
        spec_weight(spec_default_unary(k, r, f)) <= spec_weight(spec_unary(k, r)),
    decreases spec_weight(spec_unary(k, r)), 0nat,
{
    lemma_weight_unary(k, r);
    lemma_weight_as_second(r);
    if let Some((a, b)) = spec_as_second(r) {
        lemma_weight_unary(k, b);
        lemma_weight_second(spec_unary_width(k), a, spec_unary(k, b));
        lemma_weight_positive(a);
        lemma_flatten_fuel_agree(spec_second(spec_unary_width(k), a, spec_unary(k, b)), f, g);
    }
}

/// Folding below an operation of two operands agrees for any fuel that suffices.
proof fn lemma_default_binary_agree(k: Binary, r1: TypedExpressionView, r2: TypedExpressionView, f: nat, g: nat)
    requires
        spec_weight(spec_binary(k, r1, r2)) <= f + 1,
        spec_weight(spec_binary(k, r1, r2)) <= g + 1,
    ensures
        spec_default_binary(k, r1, r2, f) == spec_default_binary(k, r1, r2, g),
        spec_weight(spec_default_binary(k, r1, r2, f)) <= spec_weight(spec_binary(k, r1, r2)),
    decreases spec_weight(spec_binary(k, r1, r2)), 0nat,
{
    lemma_weight_binary(k, r1, r2);
    lemma_weight_as_second(r1);
    lemma_weight_as_second(r2);
    if let Some((a, b)) = spec_as_second(r1) {
        lemma_weight_binary(k, b, r2);
        lemma_weight_second(spec_binary_width(k), a, spec_binary(k, b, r2));
        lemma_weight_positive(a);
        lemma_flatten_fuel_agree(spec_second(spec_binary_width(k), a, spec_binary(k, b, r2)), f, g);
    } else if let Some((a, b)) = spec_as_second(r2) {
        lemma_weight_binary(k, r1, b);
        lemma_weight_second(spec_binary_width(k), a, spec_binary(k, r1, b));
        lemma_weight_positive(a);
        lemma_flatten_fuel_agree(spec_second(spec_binary_width(k), a, spec_binary(k, r1, b)), f, g);
    }
}

/// Folding an operation of one operand agrees for any fuel that suffices.
proof fn lemma_fold_unary_agree(k: Unary, r: TypedExpressionView, f: nat, g: nat)
    requires
        spec_weight(spec_unary(k, r)) <= f + 1,
        spec_weight(spec_unary(k, r)) <= g + 1,
    ensures
        spec_fold_unary(k, r, f) == spec_fold_unary(k, r, g),
        spec_weight(spec_fold_unary(k, r, f)) <= spec_weight(spec_unary(k, r)),
    decreases spec_weight(spec_unary(k, r)), 1nat,
{
    lemma_weight_unary(k, r);
    lemma_weight_positive(r);
    lemma_default_unary_agree(k, r, f, g);
}

/// Folding an operation of two operands agrees for any fuel that suffices.
proof fn lemma_fold_binary_agree(k: Binary, r1: TypedExpressionView, r2: TypedExpressionView, f: nat, g: nat)
    requires
        spec_weight(spec_binary(k, r1, r2)) <= f + 1,
        spec_weight(spec_binary(k, r1, r2)) <= g + 1,
    ensures
        spec_fold_binary(k, r1, r2, f) == spec_fold_binary(k, r1, r2, g),
        spec_weight(spec_fold_binary(k, r1, r2, f)) <= spec_weight(spec_binary(k, r1, r2)),
    decreases spec_weight(spec_binary(k, r1, r2)), 1nat,
{
    lemma_weight_binary(k, r1, r2);
    lemma_default_binary_agree(k, r1, r2, f, g);
}

/// Folding with any fuel at least the weight of an expression gives its fold: the fuel only
/// bounds the nesting, and the weight bounds it enough.
pub proof fn law_flatten_fuel_suffices(e: TypedExpressionView, fuel: nat)
    requires
        spec_weight(e) <= fuel,
    ensures
        spec_flatten_fuel(e, fuel) == spec_flatten(e),
        spec_weight(spec_flatten(e)) <= spec_weight(e),
{
    lemma_flatten_fuel_agree(e, fuel, spec_weight(e));
}

fn build_unary(k: Unary, x: TypedExpression) -> (r: TypedExpression)
    ensures
        r@ == spec_unary(k, x@),
{
    match k {
        Unary::N1DereferenceN8 => TypedExpression::N1DereferenceN8(Box::new(x)),
        Unary::N8DereferenceN8 => TypedExpression::N8DereferenceN8(Box::new(x)),
        Unary::N1BitwiseComplement => TypedExpression::N1BitwiseComplement(Box::new(x)),
        Unary::N8BitwiseComplement => TypedExpression::N8BitwiseComplement(Box::new(x)),
        Unary::N0CastN1 => TypedExpression::N0CastN1(Box::new(x)),
        Unary::N0CastN8 => TypedExpression::N0CastN8(Box::new(x)),
        Unary::N1CastN8 => TypedExpression::N1CastN8(Box::new(x)),
        Unary::N8CastN1 => TypedExpression::N8CastN1(Box::new(x)),
    }
}

fn build_binary(k: Binary, a: TypedExpression, b: TypedExpression) -> (r: TypedExpression)
    ensures
        r@ == spec_binary(k, a@, b@),
{
    match k {
        Binary::N8Addition => TypedExpression::N8Addition(Box::new(a), Box::new(b)),
        Binary::N8Subtraction => TypedExpression::N8Subtraction(Box::new(a), Box::new(b)),
        Binary::N8Multiplication => TypedExpression::N8Multiplication(Box::new(a), Box::new(b)),
        Binary::U8Division => TypedExpression::U8Division(Box::new(a), Box::new(b)),
        Binary::U8Modulo => TypedExpression::U8Modulo(Box::new(a), Box::new(b)),
        Binary::N8BitwiseAnd => TypedExpression::N8BitwiseAnd(Box::new(a), Box::new(b)),
        Binary::N8BitwiseInclusiveOr => TypedExpression::N8BitwiseInclusiveOr(Box::new(a), Box::new(b)),
        Binary::N8BitwiseExclusiveOr => TypedExpression::N8BitwiseExclusiveOr(Box::new(a), Box::new(b)),
        Binary::N1EqualToN8 => TypedExpression::N1EqualToN8(Box::new(a), Box::new(b)),
        Binary::N1LessThanU8 => TypedExpression::N1LessThanU8(Box::new(a), Box::new(b)),
        Binary::N1LessThanI8 => TypedExpression::N1LessThanI8(Box::new(a), Box::new(b)),
    }
}

fn build_second(w: Width, a: TypedExpression, b: TypedExpression) -> (r: TypedExpression)
    ensures
        r@ == spec_second(w, a@, b@),
{
    match w {
        Width::N0 => TypedExpression::N0SecondN0N0(Box::new(a), Box::new(b)),
        Width::N1 => TypedExpression::N1SecondN0N1(Box::new(a), Box::new(b)),
        Width::N8 => TypedExpression::N8SecondN0N8(Box::new(a), Box::new(b)),
    }
}

fn unary_width(k: Unary) -> (w: Width)
    ensures
        w == spec_unary_width(k),
{
    match k {
        Unary::N1DereferenceN8 | Unary::N1BitwiseComplement | Unary::N1CastN8 => Width::N1,
        Unary::N8DereferenceN8 | Unary::N8BitwiseComplement | Unary::N8CastN1 => Width::N8,
        Unary::N0CastN1 | Unary::N0CastN8 => Width::N0,
    }
}

fn binary_width(k: Binary) -> (w: Width)
    ensures
        w == spec_binary_width(k),
{
    match k {
        Binary::N1EqualToN8 | Binary::N1LessThanU8 | Binary::N1LessThanI8 => Width::N1,
        _ => Width::N8,
    }
}

/// The kind and operand of a unary operation, or the expression itself.
fn split_unary(e: TypedExpression) -> (r: Result<(Unary, TypedExpression), TypedExpression>)
    ensures
        r matches Ok((k, x)) ==> spec_as_unary(e@) == Some((k, x@)),
        r matches Err(e2) ==> spec_as_unary(e@) is None && e2 == e,
{
    match e {
        TypedExpression::N1DereferenceN8(x) => Ok((Unary::N1DereferenceN8, *x)),
        TypedExpression::N8DereferenceN8(x) => Ok((Unary::N8DereferenceN8, *x)),
        TypedExpression::N1BitwiseComplement(x) => Ok((Unary::N1BitwiseComplement, *x)),
        TypedExpression::N8BitwiseComplement(x) => Ok((Unary::N8BitwiseComplement, *x)),
        TypedExpression::N0CastN1(x) => Ok((Unary::N0CastN1, *x)),
        TypedExpression::N0CastN8(x) => Ok((Unary::N0CastN8, *x)),
        TypedExpression::N1CastN8(x) => Ok((Unary::N1CastN8, *x)),
        TypedExpression::N8CastN1(x) => Ok((Unary::N8CastN1, *x)),
        other => Err(other),
    }
}

/// The kind and operands of a binary operation, or the expression itself.
fn split_binary(e: TypedExpression) -> (r: Result<(Binary, TypedExpression, TypedExpression), TypedExpression>)
    ensures
        r matches Ok((k, a, b)) ==> spec_as_binary(e@) == Some((k, a@, b@)),
        r matches Err(e2) ==> spec_as_binary(e@) is None && e2 == e,
{
    match e {
        TypedExpression::N8Addition(a, b) => Ok((Binary::N8Addition, *a, *b)),
        TypedExpression::N8Subtraction(a, b) => Ok((Binary::N8Subtraction, *a, *b)),
        TypedExpression::N8Multiplication(a, b) => Ok((Binary::N8Multiplication, *a, *b)),
        TypedExpression::U8Division(a, b) => Ok((Binary::U8Division, *a, *b)),
        TypedExpression::U8Modulo(a, b) => Ok((Binary::U8Modulo, *a, *b)),
        TypedExpression::N8BitwiseAnd(a, b) => Ok((Binary::N8BitwiseAnd, *a, *b)),
        TypedExpression::N8BitwiseInclusiveOr(a, b) => Ok((Binary::N8BitwiseInclusiveOr, *a, *b)),
        TypedExpression::N8BitwiseExclusiveOr(a, b) => Ok((Binary::N8BitwiseExclusiveOr, *a, *b)),
        TypedExpression::N1EqualToN8(a, b) => Ok((Binary::N1EqualToN8, *a, *b)),
        TypedExpression::N1LessThanU8(a, b) => Ok((Binary::N1LessThanU8, *a, *b)),
        TypedExpression::N1LessThanI8(a, b) => Ok((Binary::N1LessThanI8, *a, *b)),
        other => Err(other),
    }
}

/// The operands of a comma operator, or the expression itself.
fn split_second(e: TypedExpression) -> (r: Result<(TypedExpression, TypedExpression), TypedExpression>)
    ensures
        r matches Ok((a, b)) ==> spec_as_second(e@) == Some((a@, b@)),
        r matches Err(e2) ==> spec_as_second(e@) is None && e2 == e,
{
    match e {
        TypedExpression::N0SecondN0N0(a, b) => Ok((*a, *b)),
        TypedExpression::N1SecondN0N1(a, b) => Ok((*a, *b)),
        TypedExpression::N8SecondN0N8(a, b) => Ok((*a, *b)),
        other => Err(other),
    }
}

fn default_unary(k: Unary, r: TypedExpression, Ghost(f): Ghost<nat>) -> (out: TypedExpression)
    requires
        spec_weight(spec_unary(k, r@)) <= f + 1,
    ensures
        out@ == spec_default_unary(k, r@, f),
        spec_weight(out@) <= spec_weight(spec_unary(k, r@)),
    decreases f, 1nat,
{
    proof {
        lemma_weight_unary(k, r@);
        lemma_weight_as_second(r@);
        lemma_weight_positive(r@);
    }
    match split_second(r) {
        Ok((a, b)) => {
            let ub = build_unary(k, b);
            let rebuilt = build_second(unary_width(k), a, ub);
            proof {
                lemma_weight_unary(k, b@);
                lemma_weight_second(spec_unary_width(k), a@, ub@);
                lemma_weight_positive(a@);
            }
            flatten_fuel(rebuilt, Ghost(f))
        },
        Err(r) => build_unary(k, r),
    }
}

fn default_binary(k: Binary, r1: TypedExpression, r2: TypedExpression, Ghost(f): Ghost<nat>) -> (out: TypedExpression)
    requires
        spec_weight(spec_binary(k, r1@, r2@)) <= f + 1,
    ensures
        out@ == spec_default_binary(k, r1@, r2@, f),
        spec_weight(out@) <= spec_weight(spec_binary(k, r1@, r2@)),
    decreases f, 1nat,
{
    proof {
        lemma_weight_binary(k, r1@, r2@);
        lemma_weight_as_second(r1@);
        lemma_weight_as_second(r2@);
    }
    match split_second(r1) {
        Ok((a, b)) => {
            let bb = build_binary(k, b, r2);
            let rebuilt = build_second(binary_width(k), a, bb);
            proof {
                lemma_weight_binary(k, b@, r2@);
                lemma_weight_second(spec_binary_width(k), a@, bb@);
                lemma_weight_positive(a@);
            }
            flatten_fuel(rebuilt, Ghost(f))
        },
        Err(r1) => match split_second(r2) {
            Ok((a, b)) => {
                let bb = build_binary(k, r1, b);
                let rebuilt = build_second(binary_width(k), a, bb);
                proof {
                    lemma_weight_binary(k, r1@, b@);
                    lemma_weight_second(spec_binary_width(k), a@, bb@);
                    lemma_weight_positive(a@);
                }
                flatten_fuel(rebuilt, Ghost(f))
            },
            Err(r2) => build_binary(k, r1, r2),
        },
    }
}

fn fold_unary(k: Unary, r: TypedExpression, Ghost(f): Ghost<nat>) -> (out: TypedExpression)
    requires
        spec_weight(spec_unary(k, r@)) <= f + 1,
    ensures
        out@ == spec_fold_unary(k, r@, f),
        spec_weight(out@) <= spec_weight(spec_unary(k, r@)),
    decreases f, 2nat,
{
    proof {
        lemma_weight_unary(k, r@);
        lemma_weight_positive(r@);
    }
    match k {
        Unary::N1BitwiseComplement => match r {
            TypedExpression::N1BitwiseComplement(y) => *y,
            TypedExpression::N1Constant(c) => TypedExpression::N1Constant(!c),
            other => default_unary(k, other, Ghost(f)),
        },
        Unary::N8BitwiseComplement => match r {
            TypedExpression::N8BitwiseComplement(y) => *y,
            TypedExpression::N8Constant(c) => TypedExpression::N8Constant(255 - c),
            other => default_unary(k, other, Ghost(f)),
        },
        Unary::N0CastN1 => match r {
            TypedExpression::N1Constant(_) => TypedExpression::N0Constant,
            other => default_unary(k, other, Ghost(f)),
        },
        Unary::N1CastN8 => match r {
            TypedExpression::N8Constant(c) => TypedExpression::N1Constant(c % 2 == 1),
            other => default_unary(k, other, Ghost(f)),
        },
        _ => default_unary(k, r, Ghost(f)),
    }
}

/// A byte as a signed integer.
fn signed(c: u8) -> (r: i16)
    ensures
        r == spec_signed(c),
{
    if c < 128 { c as i16 } else { c as i16 - 256 }
}

fn fold_constants(k: Binary, c1: u8, c2: u8) -> (r: Option<TypedExpression>)
    ensures
        r is Some <==> spec_fold_constants(k, c1, c2) is Some,
        r matches Some(x) ==> spec_fold_constants(k, c1, c2) == Some(x@),
{
    match k {
        Binary::N8Addition => Some(TypedExpression::N8Constant(((c1 as u16 + c2 as u16) % 256) as u8)),
        Binary::N8Subtraction => Some(TypedExpression::N8Constant(((c1 as u16 + 256 - c2 as u16) % 256) as u8)),
        Binary::N8Multiplication => {
            assert(c1 as u16 * c2 as u16 <= 65025) by (nonlinear_arith)
                requires
                    c1 <= 255,
                    c2 <= 255,
            ;
            Some(TypedExpression::N8Constant(((c1 as u16 * c2 as u16) % 256) as u8))
        },
        Binary::U8Division => Some(TypedExpression::N8Constant(if c2 == 0 { c1 } else { c1 / c2 })),
        Binary::U8Modulo => Some(TypedExpression::N8Constant(if c2 == 0 { c1 } else { c1 % c2 })),
        Binary::N1EqualToN8 => Some(TypedExpression::N1Constant(c1 == c2)),
        Binary::N1LessThanU8 => Some(TypedExpression::N1Constant(c1 < c2)),
        Binary::N1LessThanI8 => Some(TypedExpression::N1Constant(signed(c1) < signed(c2))),
        _ => None,
    }
}

fn fold_binary(k: Binary, r1: TypedExpression, r2: TypedExpression, Ghost(f): Ghost<nat>) -> (out: TypedExpression)
    requires
        spec_weight(spec_binary(k, r1@, r2@)) <= f + 1,
    ensures
        out@ == spec_fold_binary(k, r1@, r2@, f),
        spec_weight(out@) <= spec_weight(spec_binary(k, r1@, r2@)),
    decreases f, 2nat,
{
    proof {
        lemma_weight_binary(k, r1@, r2@);
    }
    let constants = match (&r1, &r2) {
        (TypedExpression::N8Constant(c1), TypedExpression::N8Constant(c2)) => fold_constants(k, *c1, *c2),
        _ => None,
    };
    match constants {
        Some(c) => c,
        None => default_binary(k, r1, r2, Ghost(f)),
    }
}

/// Folds arguments one by one.
fn flatten_arguments(args: Vec<TypedExpression>, Ghost(f): Ghost<nat>) -> (r: Vec<TypedExpression>)
    requires
        spec_weights(spec_arguments_view(args@)) <= f,
    ensures
        spec_arguments_view(r@) == spec_flatten_seq(spec_arguments_view(args@), f),
        spec_weights(spec_arguments_view(r@)) <= spec_weights(spec_arguments_view(args@)),
    decreases f, 1nat,
{
    let ghost orig = args@;
    let ghost views = spec_arguments_view(orig);
    proof {
        lemma_arguments_view(orig);
    }
    let n: usize = args.len();
    let mut rest = args;
    let mut out: Vec<TypedExpression> = Vec::new();
    let mut k: usize = 0;
    assert(spec_arguments_view(orig.subrange(0, 0)) =~= Seq::<TypedExpressionView>::empty());
    assert(views.subrange(0, 0) =~= Seq::<TypedExpressionView>::empty());
    while rest.len() > 0
        invariant
            k <= orig.len(),
            orig.len() == n,
            rest@ == orig.subrange(k as int, orig.len() as int),
            views == spec_arguments_view(orig),
            views.len() == orig.len(),
            forall|i: int| 0 <= i < orig.len() ==> #[trigger] views[i] == orig[i]@,
            spec_weights(views) <= f,
            spec_arguments_view(out@) == spec_flatten_seq(views.subrange(0, k as int), f),
            spec_weights(spec_arguments_view(out@)) <= spec_weights(views.subrange(0, k as int)),
        decreases rest.len(),
    {
        let a = rest.remove(0);
        assert(a == orig[k as int]);
        proof {
            lemma_weights_prefix(views, k as int);
        }
        let fa = flatten_fuel(a, Ghost(f));
        let ghost before = out@;
        out.push(fa);
        proof {
            lemma_arguments_view_push(before, fa);
            assert(views.subrange(0, k + 1) =~= views.subrange(0, k as int).push(views[k as int]));
            lemma_flatten_seq_push(views.subrange(0, k as int), views[k as int], f);
            lemma_weights_push(spec_arguments_view(before), fa@);
            lemma_weights_push(views.subrange(0, k as int), views[k as int]);
        }
        k = k + 1;
        assert(rest@ =~= orig.subrange(k as int, orig.len() as int));
    }
    assert(views.subrange(0, k as int) =~= views);
    out
}

/// Folds with at most `fuel` nested steps.
fn flatten_fuel(e: TypedExpression, Ghost(fuel): Ghost<nat>) -> (r: TypedExpression)
    requires
        spec_weight(e@) <= fuel,
    ensures
        r@ == spec_flatten_fuel(e@, fuel),
        spec_weight(r@) <= spec_weight(e@),
    decreases fuel, 0nat,
{
    proof {
        lemma_weight_positive(e@);
    }
    let ghost ev = e@;
    let ghost f = (fuel - 1) as nat;
    match split_unary(e) {
        Ok((k, x)) => {
            let rx = flatten_fuel(x, Ghost(f));
            fold_unary(k, rx, Ghost(f))
        },
        Err(e) => match split_binary(e) {
            Ok((k, a, b)) => {
                let ra = flatten_fuel(a, Ghost(f));
                let rb = flatten_fuel(b, Ghost(f));
                fold_binary(k, ra, rb, Ghost(f))
            },
            Err(e) => match e {
                TypedExpression::N0SecondN0N0(a, b) => {
                    let ra = flatten_fuel(*a, Ghost(f));
                    let rb = flatten_fuel(*b, Ghost(f));
                    TypedExpression::N0SecondN0N0(Box::new(ra), Box::new(rb))
                },
                TypedExpression::N1SecondN0N1(a, b) => {
                    let ra = flatten_fuel(*a, Ghost(f));
                    let rb = flatten_fuel(*b, Ghost(f));
                    TypedExpression::N1SecondN0N1(Box::new(ra), Box::new(rb))
                },
                TypedExpression::N8SecondN0N8(a, b) => {
                    let ra = flatten_fuel(*a, Ghost(f));
                    let rb = flatten_fuel(*b, Ghost(f));
                    TypedExpression::N8SecondN0N8(Box::new(ra), Box::new(rb))
                },
                TypedExpression::N0MacroCall(l, args) => TypedExpression::N0MacroCall(l, flatten_arguments(args, Ghost(f))),
                TypedExpression::N1MacroCall(l, args) => TypedExpression::N1MacroCall(l, flatten_arguments(args, Ghost(f))),
                TypedExpression::N8MacroCall(l, args) => TypedExpression::N8MacroCall(l, flatten_arguments(args, Ghost(f))),
                TypedExpression::N0FunctionCall(d, args) => {
                    let rd = flatten_fuel(*d, Ghost(f));
                    TypedExpression::N0FunctionCall(Box::new(rd), flatten_arguments(args, Ghost(f)))
                },
                TypedExpression::N1FunctionCall(d, args) => {
                    let rd = flatten_fuel(*d, Ghost(f));
                    TypedExpression::N1FunctionCall(Box::new(rd), flatten_arguments(args, Ghost(f)))
                },
                TypedExpression::N8FunctionCall(d, args) => {
                    let rd = flatten_fuel(*d, Ghost(f));
                    TypedExpression::N8FunctionCall(Box::new(rd), flatten_arguments(args, Ghost(f)))
                },
                other => other,
            },
        },
    }
}

/// Folds constants in a typed expression: operations on constants become constants (division
/// and remainder by zero give the dividend), double complements cancel, a cast of a bit
/// constant to nothing or of a byte constant to a bit folds, and every comma operator under an
/// operation moves outward so that the operation applies to its right-hand side.
pub fn flatten_expression(e: TypedExpression) -> (r: TypedExpression)
    ensures
        r@ == spec_flatten(e@),
{
    flatten_fuel(e, Ghost(spec_weight(e@)))
}


/// Tokens and separators, taken by their views.
pub type Emitted = Seq<Result<TokenView, Seq<char>>>;

/// A token without a name.
pub open spec fn spec_plain(t: Token) -> Result<TokenView, Seq<char>> {
    Ok(TokenView::Plain(t))
}

/// A reference to the macro named `name`.
pub open spec fn spec_macro_ref(name: Seq<char>) -> Result<TokenView, Seq<char>> {
    Ok(TokenView::MacroRef(name))
}

/// `a` with `x` after it; nothing where `a` is nothing.
pub open spec fn spec_then(a: Option<Emitted>, x: Result<TokenView, Seq<char>>) -> Option<Emitted> {
    match a {
        Some(s) => Some(s.push(x)),
        None => None,
    }
}

/// `a` followed by `b`; nothing where either is nothing.
pub open spec fn spec_cat(a: Option<Emitted>, b: Option<Emitted>) -> Option<Emitted> {
    match (a, b) {
        (Some(x), Some(y)) => Some(x + y),
        _ => None,
    }
}

/// Whether `e` is the byte constant `c`.
pub open spec fn spec_is_const(e: TypedExpression, c: u8) -> bool {
    e matches TypedExpression::N8Constant(v) && v == c
}

/// Loading the local at `offset` bytes from the top of the stack: one instruction where the
/// offset fits in four bits, an address computation where it fits in a byte, and an
/// assembly-time error beyond.
pub open spec fn spec_load_from_offset(offset: nat) -> Emitted {
    if offset <= 0x0F {
        seq![spec_plain(Token::LdO(Ofst(offset as u8)))]
    } else if offset <= 0xFF {
        seq![
            spec_plain(Token::Lds),
            spec_plain(Token::XXX(offset as u8)),
            spec_plain(Token::Clc),
            spec_plain(Token::Add),
            spec_plain(Token::Lda),
        ]
    } else {
        seq![spec_plain(Token::AtError), Err("# `Ldo` stack overflow"@)]
    }
}

/// The width of the value of an expression, by its variant.
pub open spec fn spec_expression_width(e: TypedExpression) -> Width {
    match e {
        TypedExpression::N1DereferenceN8(_) | TypedExpression::N1BitwiseComplement(_)
        | TypedExpression::N1EqualToN8(_, _) | TypedExpression::N1LessThanU8(_, _)
        | TypedExpression::N1LessThanI8(_, _) | TypedExpression::N1SecondN0N1(_, _)
        | TypedExpression::N1CastN8(_) | TypedExpression::N1Constant(_) | TypedExpression::N1MacroCall(_, _)
        | TypedExpression::N1FunctionCall(_, _) => Width::N1,
        TypedExpression::N0SecondN0N0(_, _) | TypedExpression::N0CastN1(_) | TypedExpression::N0CastN8(_)
        | TypedExpression::N0Constant | TypedExpression::N0MacroCall(_, _)
        | TypedExpression::N0FunctionCall(_, _) => Width::N0,
        _ => Width::N8,
    }
}

/// The code of an expression of any width, with `t` bytes of temporaries on the stack.
pub open spec fn spec_any_expression(e: TypedExpression, t: nat) -> Option<Emitted>
    decreases e, 2nat,
{
    match spec_expression_width(e) {
        Width::N0 => spec_n0_expression(e, t),
        Width::N1 => spec_n1_expression(e, t),
        Width::N8 => spec_n8_expression(e, t),
    }
}

/// `r` where `ok` holds, else nothing: an index that would overflow makes the code undefined.
pub open spec fn spec_guarded(ok: bool, r: Option<Emitted>) -> Option<Emitted> {
    if ok { r } else { None }
}

/// `a` followed by two more.
pub open spec fn spec_then2(a: Option<Emitted>, x: Token, y: Token) -> Option<Emitted> {
    spec_then(spec_then(a, spec_plain(x)), spec_plain(y))
}

/// The code of arguments, each pushed in turn with the ones before it as temporaries.
pub open spec fn spec_arguments_code(args: Seq<TypedExpression>, t: nat) -> Option<Emitted>
    decreases args, 0nat,
{
    if args.len() == 0 {
        Some(Seq::empty())
    } else {
        spec_guarded(
            t + args.len() - 1 <= usize::MAX,
            spec_cat(
                spec_arguments_code(args.drop_last(), t),
                spec_any_expression(args.last(), (t + args.len() - 1) as nat),
            ),
        )
    }
}

/// The code of an expression without a value, with `t` bytes of temporaries on the stack;
/// nothing where the expression is not one or the code is undefined.
pub open spec fn spec_n0_expression(e: TypedExpression, t: nat) -> Option<Emitted>
    decreases e, 1nat,
{
    match e {
        TypedExpression::N0SecondN0N0(a, b) => spec_cat(spec_n0_expression(*a, t), spec_n0_expression(*b, t)),
        TypedExpression::N0CastN1(x) => spec_then(spec_n1_expression(*x, t), spec_plain(Token::Pop)),
        TypedExpression::N0CastN8(x) => spec_then(spec_n8_expression(*x, t), spec_plain(Token::Pop)),
        TypedExpression::N0Constant => Some(Seq::empty()),
        TypedExpression::N0MacroCall(l, args) => spec_then(spec_arguments_code(args@, t), spec_macro_ref(l@)),
        TypedExpression::N0FunctionCall(d, args) => spec_guarded(
            t + args.len() <= usize::MAX,
            spec_then(
                spec_cat(spec_arguments_code(args@, t), spec_n8_expression(*d, (t + args.len()) as nat)),
                spec_macro_ref("call"@),
            ),
        ),
        _ => None,
    }
}

/// The code of a bit-valued expression.
pub open spec fn spec_n1_expression(e: TypedExpression, t: nat) -> Option<Emitted>
    decreases e, 1nat,
{
    match e {
        TypedExpression::N1DereferenceN8(x) => spec_then(spec_n8_expression(*x, t), spec_plain(Token::Lda)),
        TypedExpression::N1BitwiseComplement(x) => spec_then2(spec_n1_expression(*x, t), Token::XXX(0x01), Token::Xor),
        TypedExpression::N1SecondN0N1(a, b) => spec_cat(spec_n0_expression(*a, t), spec_n1_expression(*b, t)),
        TypedExpression::N1CastN8(x) => spec_then2(spec_n8_expression(*x, t), Token::XXX(0x01), Token::And),
        TypedExpression::N1EqualToN8(_, _) => spec_then(
            spec_then2(spec_cf_equal_to_n8(e, t), Token::XXX(0x00), Token::Shl),
            spec_plain(Token::AtDyn),
        ),
        TypedExpression::N1LessThanU8(a, b) => if spec_is_const(*a, 0xFF) || spec_is_const(*b, 0x00) {
            Some(seq![spec_plain(Token::XXX(0x00))])
        } else {
            spec_then(spec_then2(spec_cf_less_than_u8(e, t), Token::XXX(0x00), Token::Shl), spec_plain(Token::AtDyn))
        },
        TypedExpression::N1LessThanI8(a, b) => if spec_is_const(*a, 0x7F) || spec_is_const(*b, 0x80) {
            Some(seq![spec_plain(Token::XXX(0x00))])
        } else {
            spec_then(spec_then2(spec_cf_less_than_i8(e, t), Token::XXX(0x00), Token::Shl), spec_plain(Token::AtDyn))
        },
        TypedExpression::N1Constant(c) => Some(seq![spec_plain(Token::XXX(if c { 0x01 } else { 0x00 }))]),
        _ => None,
    }
}

/// The code that sets the carry flag where the operands of an equality, `e`, are equal.
pub open spec fn spec_cf_equal_to_n8(e: TypedExpression, t: nat) -> Option<Emitted>
    decreases e, 0nat,
{
    match e {
        TypedExpression::N1EqualToN8(a, b) => if spec_is_const(*a, 0x00) {
            spec_then(spec_n8_expression(*b, t), spec_macro_ref("zr"@))
        } else if spec_is_const(*b, 0x00) {
            spec_then(spec_n8_expression(*a, t), spec_macro_ref("zr"@))
        } else if spec_is_const(*a, 0xFF) {
            spec_then(spec_n8_expression(*b, t), spec_macro_ref("on"@))
        } else if spec_is_const(*b, 0xFF) {
            spec_then(spec_n8_expression(*a, t), spec_macro_ref("on"@))
        } else {
            spec_guarded(
                t + 1 <= usize::MAX,
                spec_then(spec_cat(spec_n8_expression(*a, t), spec_n8_expression(*b, t + 1)), spec_macro_ref("eq"@)),
            )
        },
        _ => None,
    }
}

/// The code that sets the carry flag where the first operand of an unsigned comparison, `e`,
/// is less than the second.
pub open spec fn spec_cf_less_than_u8(e: TypedExpression, t: nat) -> Option<Emitted>
    decreases e, 0nat,
{
    match e {
        TypedExpression::N1LessThanU8(a, b) => if spec_is_const(*b, 0x01) {
            spec_then(spec_n8_expression(*a, t), spec_macro_ref("zr"@))
        } else if spec_is_const(*a, 0x00) {
            spec_then(spec_then(spec_n8_expression(*b, t), spec_macro_ref("zr"@)), spec_plain(Token::Flc))
        } else if spec_is_const(*b, 0xFF) {
            spec_then(spec_then(spec_n8_expression(*a, t), spec_macro_ref("on"@)), spec_plain(Token::Flc))
        } else if spec_is_const(*a, 0xFE) {
            spec_then(spec_n8_expression(*b, t), spec_macro_ref("on"@))
        } else if spec_is_const(*b, 0x80) {
            spec_then(spec_then(spec_n8_expression(*a, t), spec_plain(Token::XXX(0x80))), spec_macro_ref("cl"@))
        } else if spec_is_const(*a, 0x7F) {
            spec_then(
                spec_then(spec_then(spec_n8_expression(*b, t), spec_plain(Token::XXX(0x80))), spec_macro_ref("cl"@)),
                spec_plain(Token::Flc),
            )
        } else if spec_is_const(*b, 0x02) {
            spec_then(spec_then2(spec_n8_expression(*a, t), Token::Clc, Token::Shr), spec_macro_ref("zr"@))
        } else if spec_is_const(*a, 0x01) {
            spec_then(
                spec_then(spec_then2(spec_n8_expression(*b, t), Token::Clc, Token::Shr), spec_macro_ref("zr"@)),
                spec_plain(Token::Flc),
            )
        } else if spec_is_const(*b, 0x04) {
            spec_then(
                spec_then2(spec_then2(spec_n8_expression(*a, t), Token::Clc, Token::Shr), Token::Clc, Token::Shr),
                spec_macro_ref("zr"@),
            )
        } else if spec_is_const(*a, 0x03) {
            spec_then(
                spec_then(
                    spec_then2(spec_then2(spec_n8_expression(*b, t), Token::Clc, Token::Shr), Token::Clc, Token::Shr),
                    spec_macro_ref("zr"@),
                ),
                spec_plain(Token::Flc),
            )
        } else {
            spec_guarded(
                t + 1 <= usize::MAX,
                spec_then(
                    spec_then(spec_cat(spec_n8_expression(*b, t), spec_n8_expression(*a, t + 1)), spec_plain(Token::Clc)),
                    spec_macro_ref("lt"@),
                ),
            )
        },
        _ => None,
    }
}

/// The code that sets the carry flag where the first operand of a signed comparison, `e`, is
/// less than the second.
pub open spec fn spec_cf_less_than_i8(e: TypedExpression, t: nat) -> Option<Emitted>
    decreases e, 0nat,
{
    match e {
        TypedExpression::N1LessThanI8(a, b) => if spec_is_const(*b, 0x81) {
            spec_then(spec_then(spec_n8_expression(*a, t), spec_plain(Token::XXX(0x80))), spec_macro_ref("eq"@))
        } else if spec_is_const(*a, 0x80) {
            spec_then(
                spec_then(spec_then(spec_n8_expression(*b, t), spec_plain(Token::XXX(0x80))), spec_macro_ref("eq"@)),
                spec_plain(Token::Flc),
            )
        } else if spec_is_const(*b, 0x7F) {
            spec_then(
                spec_then(spec_then(spec_n8_expression(*a, t), spec_plain(Token::XXX(0x7F))), spec_macro_ref("eq"@)),
                spec_plain(Token::Flc),
            )
        } else if spec_is_const(*a, 0x7E) {
            spec_then(spec_then(spec_n8_expression(*b, t), spec_plain(Token::XXX(0x7F))), spec_macro_ref("eq"@))
        } else if spec_is_const(*b, 0x00) {
            spec_then(
                spec_then(spec_then(spec_n8_expression(*a, t), spec_plain(Token::XXX(0x80))), spec_macro_ref("cl"@)),
                spec_plain(Token::Flc),
            )
        } else if spec_is_const(*a, 0xFF) {
            spec_then(spec_then(spec_n8_expression(*b, t), spec_plain(Token::XXX(0x80))), spec_macro_ref("cl"@))
        } else {
            spec_guarded(
                t + 1 <= usize::MAX,
                spec_then(
                    spec_then(
                        spec_then2(spec_cat(spec_n8_expression(*b, t), spec_n8_expression(*a, t + 1)), Token::Clc, Token::Sub),
                        spec_plain(Token::XXX(0x80)),
                    ),
                    spec_macro_ref("cl"@),
                ),
            )
        },
        _ => None,
    }
}

/// The code of two byte operands, the second above the first, then `x` and `y`.
pub open spec fn spec_operands_then(ra: Option<Emitted>, rb: Option<Emitted>, t: nat, x: Result<TokenView, Seq<char>>, y: Option<Result<TokenView, Seq<char>>>) -> Option<Emitted> {
    let r = spec_then(spec_cat(ra, rb), x);
    spec_guarded(
        t + 1 <= usize::MAX,
        match y {
            Some(y) => spec_then(r, y),
            None => r,
        },
    )
}

/// The code of a byte-valued expression, with `t` bytes of temporaries on the stack; nothing
/// where the expression is not one or the code is undefined: taking the address of a local is
/// not supported.
pub open spec fn spec_n8_expression(e: TypedExpression, t: nat) -> Option<Emitted>
    decreases e, 1nat,
{
    match e {
        TypedExpression::N8DereferenceN8(x) => spec_then(spec_n8_expression(*x, t), spec_plain(Token::Lda)),
        TypedExpression::N8BitwiseComplement(x) => spec_then(spec_n8_expression(*x, t), spec_plain(Token::Not)),
        TypedExpression::N8Addition(a, b) => if spec_is_const(*b, 0x02) {
            spec_then2(spec_n8_expression(*a, t), Token::Inc, Token::Inc)
        } else if spec_is_const(*a, 0x02) {
            spec_then2(spec_n8_expression(*b, t), Token::Inc, Token::Inc)
        } else if spec_is_const(*b, 0x01) {
            spec_then(spec_n8_expression(*a, t), spec_plain(Token::Inc))
        } else if spec_is_const(*a, 0x01) {
            spec_then(spec_n8_expression(*b, t), spec_plain(Token::Inc))
        } else if spec_is_const(*b, 0x00) {
            spec_n8_expression(*a, t)
        } else if spec_is_const(*a, 0x00) {
            spec_n8_expression(*b, t)
        } else if spec_is_const(*b, 0xFF) {
            spec_then(spec_n8_expression(*a, t), spec_plain(Token::Dec))
        } else if spec_is_const(*a, 0xFF) {
            spec_then(spec_n8_expression(*b, t), spec_plain(Token::Dec))
        } else if spec_is_const(*b, 0xFE) {
            spec_then2(spec_n8_expression(*a, t), Token::Dec, Token::Dec)
        } else if spec_is_const(*a, 0xFE) {
            spec_then2(spec_n8_expression(*b, t), Token::Dec, Token::Dec)
        } else {
            spec_operands_then(
                spec_n8_expression(*a, t),
                spec_n8_expression(*b, t + 1),
                t,
                spec_plain(Token::Clc),
                Some(spec_plain(Token::Add)),
            )
        },
        TypedExpression::N8Subtraction(a, b) => if spec_is_const(*b, 0x02) {
            spec_then2(spec_n8_expression(*a, t), Token::Dec, Token::Dec)
        } else if spec_is_const(*b, 0x01) {
            spec_then(spec_n8_expression(*a, t), spec_plain(Token::Dec))
        } else if spec_is_const(*b, 0x00) {
            spec_n8_expression(*a, t)
        } else if spec_is_const(*b, 0xFF) {
            spec_then(spec_n8_expression(*a, t), spec_plain(Token::Inc))
        } else if spec_is_const(*b, 0xFE) {
            spec_then2(spec_n8_expression(*a, t), Token::Inc, Token::Inc)
        } else if spec_is_const(*a, 0x01) {
            spec_then2(spec_n8_expression(*b, t), Token::Neg, Token::Inc)
        } else if spec_is_const(*a, 0x00) {
            spec_then(spec_n8_expression(*b, t), spec_plain(Token::Neg))
        } else if spec_is_const(*a, 0xFF) {
            spec_then2(spec_n8_expression(*b, t), Token::Neg, Token::Dec)
        } else {
            spec_operands_then(
                spec_n8_expression(*a, t),
                spec_n8_expression(*b, t + 1),
                t,
                spec_plain(Token::Clc),
                Some(spec_plain(Token::Sub)),
            )
        },
        TypedExpression::N8Multiplication(a, b) => if spec_is_const(*b, 0x04) {
            spec_then2(spec_then2(spec_n8_expression(*a, t), Token::Clc, Token::Shl), Token::Clc, Token::Shl)
        } else if spec_is_const(*a, 0x04) {
            spec_then2(spec_then2(spec_n8_expression(*b, t), Token::Clc, Token::Shl), Token::Clc, Token::Shl)
        } else if spec_is_const(*b, 0x03) {
            spec_then(
                spec_then2(spec_then2(spec_n8_expression(*a, t), Token::LdO(Ofst(0x00)), Token::Clc), Token::Shl, Token::Clc),
                spec_plain(Token::Add),
            )
        } else if spec_is_const(*a, 0x03) {
            spec_then(
                spec_then2(spec_then2(spec_n8_expression(*b, t), Token::LdO(Ofst(0x00)), Token::Clc), Token::Shl, Token::Clc),
                spec_plain(Token::Add),
            )
        } else if spec_is_const(*b, 0x02) {
            spec_then2(spec_n8_expression(*a, t), Token::Clc, Token::Shl)
        } else if spec_is_const(*a, 0x02) {
            spec_then2(spec_n8_expression(*b, t), Token::Clc, Token::Shl)
        } else if spec_is_const(*b, 0x01) {
            spec_n8_expression(*a, t)
        } else if spec_is_const(*a, 0x01) {
            spec_n8_expression(*b, t)
        } else if spec_is_const(*b, 0x00) || spec_is_const(*a, 0x00) {
            Some(seq![spec_plain(Token::XXX(0x00))])
        } else {
            spec_operands_then(spec_n8_expression(*a, t), spec_n8_expression(*b, t + 1), t, spec_macro_ref("mul"@), None)
        },
        TypedExpression::U8Division(a, b) => if spec_is_const(*b, 0x04) {
            spec_then2(spec_then2(spec_n8_expression(*a, t), Token::Clc, Token::Shr), Token::Clc, Token::Shr)
        } else if spec_is_const(*b, 0x02) {
            spec_then2(spec_n8_expression(*a, t), Token::Clc, Token::Shr)
        } else if spec_is_const(*b, 0x01) {
            spec_n8_expression(*a, t)
        } else if spec_is_const(*b, 0x00) {
            Some(Seq::empty())
        } else if spec_is_const(*a, 0x00) {
            Some(seq![spec_plain(Token::XXX(0x00))])
        } else {
            spec_operands_then(spec_n8_expression(*a, t), spec_n8_expression(*b, t + 1), t, spec_macro_ref("div"@), None)
        },
        TypedExpression::U8Modulo(a, b) => if spec_is_const(*b, 0x04) {
            spec_then2(spec_n8_expression(*a, t), Token::XXX(0x03), Token::And)
        } else if spec_is_const(*b, 0x02) {
            spec_then2(spec_n8_expression(*a, t), Token::XXX(0x01), Token::And)
        } else if spec_is_const(*b, 0x01) {
            Some(seq![spec_plain(Token::XXX(0x00))])
        } else if spec_is_const(*b, 0x00) {
            Some(Seq::empty())
        } else if spec_is_const(*a, 0x00) {
            Some(seq![spec_plain(Token::XXX(0x00))])
        } else {
            spec_operands_then(spec_n8_expression(*a, t), spec_n8_expression(*b, t + 1), t, spec_macro_ref("mod"@), None)
        },
        TypedExpression::N8SecondN0N8(a, b) => spec_cat(spec_n0_expression(*a, t), spec_n8_expression(*b, t)),
        TypedExpression::N8Constant(c) => Some(seq![spec_plain(Token::XXX(c))]),
        TypedExpression::N8LoadLocal(o) => spec_guarded(o + t <= usize::MAX, Some(spec_load_from_offset((o + t) as nat))),
        TypedExpression::N8LoadGlobal(l) => Some(
            seq![Ok(TokenView::LabelRef(LabelView::Global(l@))), spec_plain(Token::Lda)],
        ),
        TypedExpression::N8AddrGlobal(l) => Some(seq![Ok(TokenView::LabelRef(LabelView::Global(l@)))]),
        TypedExpression::N8MacroCall(l, args) => spec_then(spec_arguments_code(args@, t), spec_macro_ref(l@)),
        TypedExpression::N8FunctionCall(d, args) => spec_guarded(
            t + args.len() <= usize::MAX,
            spec_then(
                spec_cat(spec_arguments_code(args@, t), spec_n8_expression(*d, (t + args.len()) as nat)),
                spec_macro_ref("call"@),
            ),
        ),
        _ => None,
    }
}


/// The views of tokens with one more.
pub broadcast proof fn lemma_output_views_push(v: Seq<Result<Token, String>>, x: Result<Token, String>)
    ensures
        #[trigger] spec_output_views(v.push(x)) == spec_output_views(v).push(spec_output_view(x)),
{
    assert(spec_output_views(v.push(x)) =~= spec_output_views(v).push(spec_output_view(x)));
}

/// The views of tokens followed by more.
pub broadcast proof fn lemma_output_views_add(v: Seq<Result<Token, String>>, w: Seq<Result<Token, String>>)
    ensures
        #[trigger] spec_output_views(v + w) == spec_output_views(v) + spec_output_views(w),
{
    assert(spec_output_views(v + w) =~= spec_output_views(v) + spec_output_views(w));
}

/// Appends a token or a separator.
fn emit(v: &mut Vec<Result<Token, String>>, x: Result<Token, String>)
    ensures
        spec_output_views(final(v)@) == spec_output_views(old(v)@).push(spec_output_view(x)),
{
    broadcast use lemma_output_views_push;
    v.push(x);
}

/// A string holding the characters of `s`.
fn owned(s: &str) -> (r: String)
    ensures
        r@ == s@,
{
    let chars = chars_of(s);
    string_from_chars(&chars)
}

/// Appends a reference to the macro named `name`.
fn emit_macro(v: &mut Vec<Result<Token, String>>, name: &str)
    ensures
        spec_output_views(final(v)@) == spec_output_views(old(v)@).push(spec_macro_ref(name@)),
{
    emit(v, Ok(Token::MacroRef(Macro(owned(name)))));
}

/// Appends the tokens of `w`.
fn join(v: &mut Vec<Result<Token, String>>, w: Vec<Result<Token, String>>)
    ensures
        spec_output_views(final(v)@) == spec_output_views(old(v)@) + spec_output_views(w@),
{
    broadcast use lemma_output_views_add;
    let mut w = w;
    v.append(&mut w);
}

/// Whether `e` is the byte constant `c`.
fn is_const(e: &TypedExpression, c: u8) -> (r: bool)
    ensures
        r == spec_is_const(*e, c),
{
    match e {
        TypedExpression::N8Constant(v) => *v == c,
        _ => false,
    }
}

/// Loading the local at `offset` bytes from the top of the stack.
fn load_from_offset(offset: usize) -> (r: Vec<Result<Token, String>>)
    ensures
        spec_output_views(r@) == spec_load_from_offset(offset as nat),
{
    let mut v: Vec<Result<Token, String>> = Vec::new();
    if offset <= 0x0F {
        emit(&mut v, Ok(Token::LdO(Ofst(offset as u8))));
    } else if offset <= 0xFF {
        emit(&mut v, Ok(Token::Lds));
        emit(&mut v, Ok(Token::XXX(offset as u8)));
        emit(&mut v, Ok(Token::Clc));
        emit(&mut v, Ok(Token::Add));
        emit(&mut v, Ok(Token::Lda));
    } else {
        emit(&mut v, Ok(Token::AtError));
        emit(&mut v, Err(owned("# `Ldo` stack overflow")));
    }
    v
}

/// The width of the value of an expression, by its variant.
fn expression_width(e: &TypedExpression) -> (w: Width)
    ensures
        w == spec_expression_width(*e),
{
    match e {
        TypedExpression::N1DereferenceN8(_) | TypedExpression::N1BitwiseComplement(_)
        | TypedExpression::N1EqualToN8(_, _) | TypedExpression::N1LessThanU8(_, _)
        | TypedExpression::N1LessThanI8(_, _) | TypedExpression::N1SecondN0N1(_, _)
        | TypedExpression::N1CastN8(_) | TypedExpression::N1Constant(_) | TypedExpression::N1MacroCall(_, _)
        | TypedExpression::N1FunctionCall(_, _) => Width::N1,
        TypedExpression::N0SecondN0N0(_, _) | TypedExpression::N0CastN1(_) | TypedExpression::N0CastN8(_)
        | TypedExpression::N0Constant | TypedExpression::N0MacroCall(_, _)
        | TypedExpression::N0FunctionCall(_, _) => Width::N0,
        _ => Width::N8,
    }
}

/// Code of arguments is defined on every prefix where it is defined on all.
proof fn lemma_arguments_code_prefix(args: Seq<TypedExpression>, t: nat, k: int)
    requires
        spec_arguments_code(args, t) is Some,
        0 <= k <= args.len(),
    ensures
        spec_arguments_code(args.subrange(0, k), t) is Some,
    decreases args.len(),
{
    if k == args.len() {
        assert(args.subrange(0, k) =~= args);
    } else {
        lemma_arguments_code_prefix(args.drop_last(), t, k);
        assert(args.drop_last().subrange(0, k) =~= args.subrange(0, k));
    }
}

fn any_code(e: &TypedExpression, t: usize) -> (r: Vec<Result<Token, String>>)
    requires
        spec_any_expression(*e, t as nat) is Some,
    ensures
        Some(spec_output_views(r@)) == spec_any_expression(*e, t as nat),
    decreases *e, 3nat,
{
    match expression_width(e) {
        Width::N0 => n0_code(e, t),
        Width::N1 => n1_code(e, t),
        Width::N8 => n8_code(e, t),
    }
}

fn arguments_code(args: &Vec<TypedExpression>, t: usize, Ghost(parent): Ghost<TypedExpression>) -> (r: Vec<Result<Token, String>>)
    requires
        decreases_to!(parent => args@),
        spec_arguments_code(args@, t as nat) is Some,
    ensures
        Some(spec_output_views(r@)) == spec_arguments_code(args@, t as nat),
    decreases parent, 0nat,
{
    let mut v: Vec<Result<Token, String>> = Vec::new();
    let mut i: usize = 0;
    assert(args@.subrange(0, 0) =~= Seq::<TypedExpression>::empty());
    while i < args.len()
        invariant
            i <= args.len(),
            decreases_to!(parent => args@),
            spec_arguments_code(args@, t as nat) is Some,
            Some(spec_output_views(v@)) == spec_arguments_code(args@.subrange(0, i as int), t as nat),
        decreases args.len() - i,
    {
        proof {
            let sub = args@.subrange(0, i + 1 as int);
            lemma_arguments_code_prefix(args@, t as nat, i + 1);
            assert(sub.drop_last() =~= args@.subrange(0, i as int));
            assert(sub.last() == args@[i as int]);
            assert(decreases_to!(args@ => args@[i as int]));
        }
        let w = any_code(&args[i], t + i);
        join(&mut v, w);
        i = i + 1;
    }
    assert(args@.subrange(0, args.len() as int) =~= args@);
    v
}

fn call_code(d: &TypedExpression, args: &Vec<TypedExpression>, t: usize, Ghost(parent): Ghost<TypedExpression>) -> (r: Vec<Result<Token, String>>)
    requires
        decreases_to!(parent => args@),
        decreases_to!(parent => *d),
        t + args.len() <= usize::MAX,
        spec_then(
            spec_cat(spec_arguments_code(args@, t as nat), spec_n8_expression(*d, (t + args.len()) as nat)),
            spec_macro_ref("call"@),
        ) is Some,
    ensures
        Some(spec_output_views(r@)) == spec_then(
            spec_cat(spec_arguments_code(args@, t as nat), spec_n8_expression(*d, (t + args.len()) as nat)),
            spec_macro_ref("call"@),
        ),
    decreases parent, 1nat,
{
    let mut v = arguments_code(args, t, Ghost(parent));
    let w = n8_code(d, t + args.len());
    join(&mut v, w);
    emit_macro(&mut v, "call");
    v
}

fn n0_code(e: &TypedExpression, t: usize) -> (r: Vec<Result<Token, String>>)
    requires
        spec_n0_expression(*e, t as nat) is Some,
    ensures
        Some(spec_output_views(r@)) == spec_n0_expression(*e, t as nat),
    decreases *e, 2nat,
{
    match e {
        TypedExpression::N0SecondN0N0(a, b) => {
            let mut v = n0_code(a, t);
            join(&mut v, n0_code(b, t));
            v
        },
        TypedExpression::N0CastN1(x) => {
            let mut v = n1_code(x, t);
            emit(&mut v, Ok(Token::Pop));
            v
        },
        TypedExpression::N0CastN8(x) => {
            let mut v = n8_code(x, t);
            emit(&mut v, Ok(Token::Pop));
            v
        },
        TypedExpression::N0Constant => Vec::new(),
        TypedExpression::N0MacroCall(l, args) => {
            let mut v = arguments_code(args, t, Ghost(*e));
            emit(&mut v, Ok(Token::MacroRef(Macro(l.clone()))));
            v
        },
        TypedExpression::N0FunctionCall(d, args) => call_code(d, args, t, Ghost(*e)),
        _ => {
            proof {
                assert(false);
            }
            Vec::new()
        },
    }
}

fn n1_code(e: &TypedExpression, t: usize) -> (r: Vec<Result<Token, String>>)
    requires
        spec_n1_expression(*e, t as nat) is Some,
    ensures
        Some(spec_output_views(r@)) == spec_n1_expression(*e, t as nat),
    decreases *e, 2nat,
{
    match e {
        TypedExpression::N1DereferenceN8(x) => {
            let mut v = n8_code(x, t);
            emit(&mut v, Ok(Token::Lda));
            v
        },
        TypedExpression::N1BitwiseComplement(x) => {
            let mut v = n1_code(x, t);
            emit(&mut v, Ok(Token::XXX(0x01)));
            emit(&mut v, Ok(Token::Xor));
            v
        },
        TypedExpression::N1SecondN0N1(a, b) => {
            let mut v = n0_code(a, t);
            join(&mut v, n1_code(b, t));
            v
        },
        TypedExpression::N1CastN8(x) => {
            let mut v = n8_code(x, t);
            emit(&mut v, Ok(Token::XXX(0x01)));
            emit(&mut v, Ok(Token::And));
            v
        },
        TypedExpression::N1EqualToN8(_, _) => {
            let mut v = cf_equal_to_n8_code(e, t);
            emit(&mut v, Ok(Token::XXX(0x00)));
            emit(&mut v, Ok(Token::Shl));
            emit(&mut v, Ok(Token::AtDyn));
            v
        },
        TypedExpression::N1LessThanU8(a, b) => {
            let mut v: Vec<Result<Token, String>>;
            if is_const(a, 0xFF) || is_const(b, 0x00) {
                v = Vec::new();
                emit(&mut v, Ok(Token::XXX(0x00)));
            } else {
                v = cf_less_than_u8_code(e, t);
                emit(&mut v, Ok(Token::XXX(0x00)));
                emit(&mut v, Ok(Token::Shl));
                emit(&mut v, Ok(Token::AtDyn));
            }
            v
        },
        TypedExpression::N1LessThanI8(a, b) => {
            let mut v: Vec<Result<Token, String>>;
            if is_const(a, 0x7F) || is_const(b, 0x80) {
                v = Vec::new();
                emit(&mut v, Ok(Token::XXX(0x00)));
            } else {
                v = cf_less_than_i8_code(e, t);
                emit(&mut v, Ok(Token::XXX(0x00)));
                emit(&mut v, Ok(Token::Shl));
                emit(&mut v, Ok(Token::AtDyn));
            }
            v
        },
        TypedExpression::N1Constant(c) => {
            let mut v = Vec::new();
            emit(&mut v, Ok(Token::XXX(if *c { 0x01 } else { 0x00 })));
            v
        },
        _ => {
            proof {
                assert(false);
            }
            Vec::new()
        },
    }
}

/// The code of `x` followed by a macro reference.
fn then_macro(x: &TypedExpression, t: usize, name: &str) -> (r: Vec<Result<Token, String>>)
    requires
        spec_n8_expression(*x, t as nat) is Some,
    ensures
        Some(spec_output_views(r@)) == spec_then(spec_n8_expression(*x, t as nat), spec_macro_ref(name@)),
    decreases *x, 3nat,
{
    let mut v = n8_code(x, t);
    emit_macro(&mut v, name);
    v
}

fn cf_equal_to_n8_code(e: &TypedExpression, t: usize) -> (r: Vec<Result<Token, String>>)
    requires
        spec_cf_equal_to_n8(*e, t as nat) is Some,
    ensures
        Some(spec_output_views(r@)) == spec_cf_equal_to_n8(*e, t as nat),
    decreases *e, 1nat,
{
    match e {
        TypedExpression::N1EqualToN8(a, b) => if is_const(a, 0x00) {
            then_macro(b, t, "zr")
        } else if is_const(b, 0x00) {
            then_macro(a, t, "zr")
        } else if is_const(a, 0xFF) {
            then_macro(b, t, "on")
        } else if is_const(b, 0xFF) {
            then_macro(a, t, "on")
        } else {
            let mut v = n8_code(a, t);
            join(&mut v, n8_code(b, t + 1));
            emit_macro(&mut v, "eq");
            v
        },
        _ => {
            proof {
                assert(false);
            }
            Vec::new()
        },
    }
}

fn cf_less_than_u8_code(e: &TypedExpression, t: usize) -> (r: Vec<Result<Token, String>>)
    requires
        spec_cf_less_than_u8(*e, t as nat) is Some,
    ensures
        Some(spec_output_views(r@)) == spec_cf_less_than_u8(*e, t as nat),
    decreases *e, 1nat,
{
    match e {
        TypedExpression::N1LessThanU8(a, b) => if is_const(b, 0x01) {
            then_macro(a, t, "zr")
        } else if is_const(a, 0x00) {
            let mut v = then_macro(b, t, "zr");
            emit(&mut v, Ok(Token::Flc));
            v
        } else if is_const(b, 0xFF) {
            let mut v = then_macro(a, t, "on");
            emit(&mut v, Ok(Token::Flc));
            v
        } else if is_const(a, 0xFE) {
            then_macro(b, t, "on")
        } else if is_const(b, 0x80) {
            let mut v = n8_code(a, t);
            emit(&mut v, Ok(Token::XXX(0x80)));
            emit_macro(&mut v, "cl");
            v
        } else if is_const(a, 0x7F) {
            let mut v = n8_code(b, t);
            emit(&mut v, Ok(Token::XXX(0x80)));
            emit_macro(&mut v, "cl");
            emit(&mut v, Ok(Token::Flc));
            v
        } else if is_const(b, 0x02) {
            let mut v = n8_code(a, t);
            emit(&mut v, Ok(Token::Clc));
            emit(&mut v, Ok(Token::Shr));
            emit_macro(&mut v, "zr");
            v
        } else if is_const(a, 0x01) {
            let mut v = n8_code(b, t);
            emit(&mut v, Ok(Token::Clc));
            emit(&mut v, Ok(Token::Shr));
            emit_macro(&mut v, "zr");
            emit(&mut v, Ok(Token::Flc));
            v
        } else if is_const(b, 0x04) {
            let mut v = n8_code(a, t);
            emit(&mut v, Ok(Token::Clc));
            emit(&mut v, Ok(Token::Shr));
            emit(&mut v, Ok(Token::Clc));
            emit(&mut v, Ok(Token::Shr));
            emit_macro(&mut v, "zr");
            v
        } else if is_const(a, 0x03) {
            let mut v = n8_code(b, t);
            emit(&mut v, Ok(Token::Clc));
            emit(&mut v, Ok(Token::Shr));
            emit(&mut v, Ok(Token::Clc));
            emit(&mut v, Ok(Token::Shr));
            emit_macro(&mut v, "zr");
            emit(&mut v, Ok(Token::Flc));
            v
        } else {
            let mut v = n8_code(b, t);
            join(&mut v, n8_code(a, t + 1));
            emit(&mut v, Ok(Token::Clc));
            emit_macro(&mut v, "lt");
            v
        },
        _ => {
            proof {
                assert(false);
            }
            Vec::new()
        },
    }
}

fn cf_less_than_i8_code(e: &TypedExpression, t: usize) -> (r: Vec<Result<Token, String>>)
    requires
        spec_cf_less_than_i8(*e, t as nat) is Some,
    ensures
        Some(spec_output_views(r@)) == spec_cf_less_than_i8(*e, t as nat),
    decreases *e, 1nat,
{
    match e {
        TypedExpression::N1LessThanI8(a, b) => if is_const(b, 0x81) {
            let mut v = n8_code(a, t);
            emit(&mut v, Ok(Token::XXX(0x80)));
            emit_macro(&mut v, "eq");
            v
        } else if is_const(a, 0x80) {
            let mut v = n8_code(b, t);
            emit(&mut v, Ok(Token::XXX(0x80)));
            emit_macro(&mut v, "eq");
            emit(&mut v, Ok(Token::Flc));
            v
        } else if is_const(b, 0x7F) {
            let mut v = n8_code(a, t);
            emit(&mut v, Ok(Token::XXX(0x7F)));
            emit_macro(&mut v, "eq");
            emit(&mut v, Ok(Token::Flc));
            v
        } else if is_const(a, 0x7E) {
            let mut v = n8_code(b, t);
            emit(&mut v, Ok(Token::XXX(0x7F)));
            emit_macro(&mut v, "eq");
            v
        } else if is_const(b, 0x00) {
            let mut v = n8_code(a, t);
            emit(&mut v, Ok(Token::XXX(0x80)));
            emit_macro(&mut v, "cl");
            emit(&mut v, Ok(Token::Flc));
            v
        } else if is_const(a, 0xFF) {
            let mut v = n8_code(b, t);
            emit(&mut v, Ok(Token::XXX(0x80)));
            emit_macro(&mut v, "cl");
            v
        } else {
            let mut v = n8_code(b, t);
            join(&mut v, n8_code(a, t + 1));
            emit(&mut v, Ok(Token::Clc));
            emit(&mut v, Ok(Token::Sub));
            emit(&mut v, Ok(Token::XXX(0x80)));
            emit_macro(&mut v, "cl");
            v
        },
        _ => {
            proof {
                assert(false);
            }
            Vec::new()
        },
    }
}

/// The code of one byte operand followed by up to two tokens.
fn n8_then(x: &TypedExpression, t: usize, k: usize, p: Token, q: Token) -> (r: Vec<Result<Token, String>>)
    requires
        spec_n8_expression(*x, t as nat) is Some,
        k <= 2,
    ensures
        Some(spec_output_views(r@)) == (if k == 0 {
            spec_n8_expression(*x, t as nat)
        } else if k == 1 {
            spec_then(spec_n8_expression(*x, t as nat), spec_output_view(Ok(p)))
        } else {
            spec_then(spec_then(spec_n8_expression(*x, t as nat), spec_output_view(Ok(p))), spec_output_view(Ok(q)))
        }),
    decreases *x, 3nat,
{
    let mut v = n8_code(x, t);
    if k >= 1 {
        emit(&mut v, Ok(p));
    }
    if k >= 2 {
        emit(&mut v, Ok(q));
    }
    v
}

/// The code of two byte operands of `parent`, the second above the first, then one or two more.
fn operands_code(
    a: &TypedExpression,
    b: &TypedExpression,
    t: usize,
    first: Result<Token, String>,
    second: Option<Result<Token, String>>,
    Ghost(parent): Ghost<TypedExpression>,
) -> (r: Vec<Result<Token, String>>)
    requires
        decreases_to!(parent => *a),
        decreases_to!(parent => *b),
        t + 1 <= usize::MAX,
        spec_n8_expression(*a, t as nat) is Some,
        spec_n8_expression(*b, (t + 1) as nat) is Some,
    ensures
        Some(spec_output_views(r@)) == spec_operands_then(
            spec_n8_expression(*a, t as nat),
            spec_n8_expression(*b, (t + 1) as nat),
            t as nat,
            spec_output_view(first),
            match second {
                Some(y) => Some(spec_output_view(y)),
                None => None,
            },
        ),
    decreases parent, 1nat,
{
    let mut v = n8_code(a, t);
    join(&mut v, n8_code(b, t + 1));
    emit(&mut v, first);
    match second {
        Some(y) => emit(&mut v, y),
        None => {},
    }
    v
}

/// A reference to the macro named `name`, as a token.
fn macro_token(name: &str) -> (r: Result<Token, String>)
    ensures
        spec_output_view(r) == spec_macro_ref(name@),
{
    Ok(Token::MacroRef(Macro(owned(name))))
}

fn single(x: Result<Token, String>) -> (r: Vec<Result<Token, String>>)
    ensures
        spec_output_views(r@) == seq![spec_output_view(x)],
{
    let mut v = Vec::new();
    emit(&mut v, x);
    v
}

fn n8_code(e: &TypedExpression, t: usize) -> (r: Vec<Result<Token, String>>)
    requires
        spec_n8_expression(*e, t as nat) is Some,
    ensures
        Some(spec_output_views(r@)) == spec_n8_expression(*e, t as nat),
    decreases *e, 2nat,
{
    match e {
        TypedExpression::N8DereferenceN8(x) => n8_then(x, t, 1, Token::Lda, Token::Lda),
        TypedExpression::N8BitwiseComplement(x) => n8_then(x, t, 1, Token::Not, Token::Not),
        TypedExpression::N8Addition(a, b) => if is_const(b, 0x02) {
            n8_then(a, t, 2, Token::Inc, Token::Inc)
        } else if is_const(a, 0x02) {
            n8_then(b, t, 2, Token::Inc, Token::Inc)
        } else if is_const(b, 0x01) {
            n8_then(a, t, 1, Token::Inc, Token::Inc)
        } else if is_const(a, 0x01) {
            n8_then(b, t, 1, Token::Inc, Token::Inc)
        } else if is_const(b, 0x00) {
            n8_then(a, t, 0, Token::Inc, Token::Inc)
        } else if is_const(a, 0x00) {
            n8_then(b, t, 0, Token::Inc, Token::Inc)
        } else if is_const(b, 0xFF) {
            n8_then(a, t, 1, Token::Dec, Token::Dec)
        } else if is_const(a, 0xFF) {
            n8_then(b, t, 1, Token::Dec, Token::Dec)
        } else if is_const(b, 0xFE) {
            n8_then(a, t, 2, Token::Dec, Token::Dec)
        } else if is_const(a, 0xFE) {
            n8_then(b, t, 2, Token::Dec, Token::Dec)
        } else {
            operands_code(a, b, t, Ok(Token::Clc), Some(Ok(Token::Add)), Ghost(*e))
        },
        TypedExpression::N8Subtraction(a, b) => if is_const(b, 0x02) {
            n8_then(a, t, 2, Token::Dec, Token::Dec)
        } else if is_const(b, 0x01) {
            n8_then(a, t, 1, Token::Dec, Token::Dec)
        } else if is_const(b, 0x00) {
            n8_then(a, t, 0, Token::Dec, Token::Dec)
        } else if is_const(b, 0xFF) {
            n8_then(a, t, 1, Token::Inc, Token::Inc)
        } else if is_const(b, 0xFE) {
            n8_then(a, t, 2, Token::Inc, Token::Inc)
        } else if is_const(a, 0x01) {
            n8_then(b, t, 2, Token::Neg, Token::Inc)
        } else if is_const(a, 0x00) {
            n8_then(b, t, 1, Token::Neg, Token::Neg)
        } else if is_const(a, 0xFF) {
            n8_then(b, t, 2, Token::Neg, Token::Dec)
        } else {
            operands_code(a, b, t, Ok(Token::Clc), Some(Ok(Token::Sub)), Ghost(*e))
        },
        TypedExpression::N8Multiplication(a, b) => if is_const(b, 0x04) {
            let mut v = n8_then(a, t, 2, Token::Clc, Token::Shl);
            emit(&mut v, Ok(Token::Clc));
            emit(&mut v, Ok(Token::Shl));
            v
        } else if is_const(a, 0x04) {
            let mut v = n8_then(b, t, 2, Token::Clc, Token::Shl);
            emit(&mut v, Ok(Token::Clc));
            emit(&mut v, Ok(Token::Shl));
            v
        } else if is_const(b, 0x03) {
            let mut v = n8_then(a, t, 2, Token::LdO(Ofst(0x00)), Token::Clc);
            emit(&mut v, Ok(Token::Shl));
            emit(&mut v, Ok(Token::Clc));
            emit(&mut v, Ok(Token::Add));
            v
        } else if is_const(a, 0x03) {
            let mut v = n8_then(b, t, 2, Token::LdO(Ofst(0x00)), Token::Clc);
            emit(&mut v, Ok(Token::Shl));
            emit(&mut v, Ok(Token::Clc));
            emit(&mut v, Ok(Token::Add));
            v
        } else if is_const(b, 0x02) {
            n8_then(a, t, 2, Token::Clc, Token::Shl)
        } else if is_const(a, 0x02) {
            n8_then(b, t, 2, Token::Clc, Token::Shl)
        } else if is_const(b, 0x01) {
            n8_then(a, t, 0, Token::Clc, Token::Shl)
        } else if is_const(a, 0x01) {
            n8_then(b, t, 0, Token::Clc, Token::Shl)
        } else if is_const(b, 0x00) || is_const(a, 0x00) {
            single(Ok(Token::XXX(0x00)))
        } else {
            operands_code(a, b, t, macro_token("mul"), None, Ghost(*e))
        },
        TypedExpression::U8Division(a, b) => if is_const(b, 0x04) {
            let mut v = n8_then(a, t, 2, Token::Clc, Token::Shr);
            emit(&mut v, Ok(Token::Clc));
            emit(&mut v, Ok(Token::Shr));
            v
        } else if is_const(b, 0x02) {
            n8_then(a, t, 2, Token::Clc, Token::Shr)
        } else if is_const(b, 0x01) {
            n8_then(a, t, 0, Token::Clc, Token::Shr)
        } else if is_const(b, 0x00) {
            Vec::new()
        } else if is_const(a, 0x00) {
            single(Ok(Token::XXX(0x00)))
        } else {
            operands_code(a, b, t, macro_token("div"), None, Ghost(*e))
        },
        TypedExpression::U8Modulo(a, b) => if is_const(b, 0x04) {
            n8_then(a, t, 2, Token::XXX(0x03), Token::And)
        } else if is_const(b, 0x02) {
            n8_then(a, t, 2, Token::XXX(0x01), Token::And)
        } else if is_const(b, 0x01) {
            single(Ok(Token::XXX(0x00)))
        } else if is_const(b, 0x00) {
            Vec::new()
        } else if is_const(a, 0x00) {
            single(Ok(Token::XXX(0x00)))
        } else {
            operands_code(a, b, t, macro_token("mod"), None, Ghost(*e))
        },
        TypedExpression::N8SecondN0N8(a, b) => {
            let mut v = n0_code(a, t);
            join(&mut v, n8_code(b, t));
            v
        },
        TypedExpression::N8Constant(c) => single(Ok(Token::XXX(*c))),
        TypedExpression::N8LoadLocal(o) => load_from_offset(*o + t),
        TypedExpression::N8LoadGlobal(l) => {
            let mut v = single(Ok(Token::LabelRef(Label::Global(l.clone()))));
            emit(&mut v, Ok(Token::Lda));
            v
        },
        TypedExpression::N8AddrGlobal(l) => single(Ok(Token::LabelRef(Label::Global(l.clone())))),
        TypedExpression::N8MacroCall(l, args) => {
            let mut v = arguments_code(args, t, Ghost(*e));
            emit(&mut v, Ok(Token::MacroRef(Macro(l.clone()))));
            v
        },
        TypedExpression::N8FunctionCall(d, args) => call_code(d, args, t, Ghost(*e)),
        _ => {
            proof {
                assert(false);
            }
            Vec::new()
        },
    }
}

/// The code of a byte-valued expression with `temporaries_size` bytes of temporaries on the
/// stack: its operands pushed in turn, each above the ones before it, then the instructions
/// and macros of the operation, with shorter sequences for operations on small constants (an
/// increment for adding one, a shift for multiplying or dividing by two, and so on); a
/// division or remainder by the constant zero gives no code. Defined where every part of the
/// expression has a byte, bit or empty value as its place requires, no address of a local or
/// call with a bit value is taken, and no stack offset exceeds `usize`.
pub fn n8_expression(e: TypedExpression, temporaries_size: usize) -> (r: Vec<Result<Token, String>>)
    requires
        spec_n8_expression(e, temporaries_size as nat) is Some,
    ensures
        Some(spec_output_views(r@)) == spec_n8_expression(e, temporaries_size as nat),
{
    n8_code(&e, temporaries_size)
}

} // verus!
