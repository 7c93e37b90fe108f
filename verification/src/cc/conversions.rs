//! The type rules of C arithmetic as this compiler applies them: integer promotion and the
//! common type of two operands.

use vstd::prelude::*;
use crate::cc::ast::{spec_type_range, Expression, Range, Type, TypedExpression};
use crate::text::{chars_eq_str, string_chars};

verus! {

/// The type an operand is promoted to, where integer promotion changes it: small signed
/// integers, `_Bool` and enumerations to `int`, small unsigned integers and `char` to
/// `unsigned int`.
pub open spec fn spec_promoted_type(t: Type) -> Option<Type> {
    match t {
        Type::Bool | Type::SignedChar | Type::Short | Type::Int | Type::Enumeration(_) => Some(Type::Int),
        Type::UnsignedShort | Type::Char | Type::UnsignedChar | Type::UnsignedInt => Some(Type::UnsignedInt),
        _ => None,
    }
}

/// Whether a type can be an operand of arithmetic.
pub open spec fn spec_arithmetic(t: Type) -> bool {
    !(t is Void) && !(t is Array) && !(t is Structure) && !(t is Union) && !(t is Function) && !(t is Macro)
        && !(t is Pointer)
}

/// Whether two arithmetic types are the same: the same kind, and for enumerations the same
/// constants.
pub open spec fn spec_same_arithmetic(a: Type, b: Type) -> bool {
    match (a, b) {
        (Type::Enumeration(x), Type::Enumeration(y)) => x@.len() == y@.len() && forall|i: int|
            0 <= i < x@.len() ==> #[trigger] x@[i]@ == y@[i]@,
        (Type::Enumeration(_), _) | (_, Type::Enumeration(_)) => false,
        _ => spec_kind(a) == spec_kind(b),
    }
}

/// The kind of a scalar type, numbered in declaration order.
pub open spec fn spec_kind(t: Type) -> int {
    match t {
        Type::Void => 0,
        Type::Bool => 1,
        Type::Char => 2,
        Type::SignedChar => 3,
        Type::UnsignedChar => 4,
        Type::Short => 5,
        Type::UnsignedShort => 6,
        Type::Int => 7,
        Type::UnsignedInt => 8,
        Type::Long => 9,
        Type::UnsignedLong => 10,
        Type::LongLong => 11,
        Type::UnsignedLongLong => 12,
        _ => 13,
    }
}

/// What the usual arithmetic conversions make of two operand types.
#[derive(Debug)]
pub enum Conversion {
    /// Both operands convert to this type.
    To(Type),
    /// An operand is no arithmetic type: both convert to `int`, and an error is reported.
    InvalidOperands,
    /// No rule covers the pair: both convert to the first type, and an error is reported.
    Unimplemented,
}

/// The usual arithmetic conversions of two operand types: equal types stay; `char` with `int`
/// gives `int`; `unsigned int` with `int` gives `unsigned int`.
pub open spec fn spec_arithmetic_conversion(a: Type, b: Type) -> Conversion {
    if !spec_arithmetic(a) || !spec_arithmetic(b) {
        Conversion::InvalidOperands
    } else if spec_same_arithmetic(a, b) {
        Conversion::To(a)
    } else if (a is Char && b is Int) || (a is Int && b is Char) {
        Conversion::To(Type::Int)
    } else if (a is UnsignedInt && b is Int) || (a is Int && b is UnsignedInt) {
        Conversion::To(Type::UnsignedInt)
    } else {
        Conversion::Unimplemented
    }
}

/// The type integer promotion converts an operand of type `t` to, if it converts it.
pub fn promoted_type(t: &Type) -> (r: Option<Type>)
    ensures
        r == spec_promoted_type(*t),
{
    match t {
        Type::Bool | Type::SignedChar | Type::Short | Type::Int | Type::Enumeration(_) => Some(Type::Int),
        Type::UnsignedShort | Type::Char | Type::UnsignedChar | Type::UnsignedInt => Some(Type::UnsignedInt),
        _ => None,
    }
}

fn kind(t: &Type) -> (k: u8)
    ensures
        k == spec_kind(*t),
{
    match t {
        Type::Void => 0,
        Type::Bool => 1,
        Type::Char => 2,
        Type::SignedChar => 3,
        Type::UnsignedChar => 4,
        Type::Short => 5,
        Type::UnsignedShort => 6,
        Type::Int => 7,
        Type::UnsignedInt => 8,
        Type::Long => 9,
        Type::UnsignedLong => 10,
        Type::LongLong => 11,
        Type::UnsignedLongLong => 12,
        _ => 13,
    }
}

fn same_names(x: &Vec<String>, y: &Vec<String>) -> (r: bool)
    ensures
        r == (x@.len() == y@.len() && forall|i: int| 0 <= i < x@.len() ==> #[trigger] x@[i]@ == y@[i]@),
{
    if x.len() != y.len() {
        return false;
    }
    let mut i: usize = 0;
    while i < x.len()
        invariant
            i <= x.len(),
            x.len() == y.len(),
            forall|j: int| 0 <= j < i ==> #[trigger] x@[j]@ == y@[j]@,
        decreases x.len() - i,
    {
        let cs = string_chars(&x[i]);
        if !chars_eq_str(cs.as_slice(), y[i].as_str()) {
            assert(x@[i as int]@ != y@[i as int]@);
            return false;
        }
        i = i + 1;
    }
    true
}

fn same_arithmetic(a: &Type, b: &Type) -> (r: bool)
    ensures
        r == spec_same_arithmetic(*a, *b),
{
    match a {
        Type::Enumeration(x) => match b {
            Type::Enumeration(y) => same_names(x, y),
            _ => false,
        },
        _ => match b {
            Type::Enumeration(_) => false,
            _ => kind(a) == kind(b),
        },
    }
}

/// The usual arithmetic conversions of two operand types.
pub fn arithmetic_conversion(a: Type, b: &Type) -> (r: Conversion)
    ensures
        r == spec_arithmetic_conversion(a, *b),
{
    let arith = |t: &Type| -> (r: bool)
        ensures
            r == spec_arithmetic(*t),
        {
            !matches!(t, Type::Void | Type::Array(_) | Type::Structure(_) | Type::Union(_)
                | Type::Function(_, _, _) | Type::Macro(_, _, _, _) | Type::Pointer(_))
        };
    if !arith(&a) || !arith(b) {
        Conversion::InvalidOperands
    } else if same_arithmetic(&a, b) {
        Conversion::To(a)
    } else if (matches!(a, Type::Char) && matches!(b, Type::Int)) || (matches!(a, Type::Int) && matches!(b, Type::Char)) {
        Conversion::To(Type::Int)
    } else if (matches!(a, Type::UnsignedInt) && matches!(b, Type::Int)) || (matches!(a, Type::Int) && matches!(b, Type::UnsignedInt)) {
        Conversion::To(Type::UnsignedInt)
    } else {
        Conversion::Unimplemented
    }
}

/// The zero constant of a type with at most one byte, standing in for an expression whose type
/// is all that is known.
pub open spec fn spec_dummy_expression(t: Type) -> TypedExpression {
    match spec_type_range(t) {
        Some(Range::U0) | Some(Range::I0) => TypedExpression::N0Constant,
        Some(Range::U1) | Some(Range::I1) => TypedExpression::N1Constant(false),
        _ => TypedExpression::N8Constant(0),
    }
}

/// The zero constant of a type with at most one byte.
pub fn dummy_typed_expression(t: &Type) -> (r: TypedExpression)
    requires
        spec_type_range(*t) matches Some(g) && (g is U0 || g is I0 || g is U1 || g is I1 || g is U8
            || g is I8),
    ensures
        r == spec_dummy_expression(*t),
{
    match t.range() {
        Range::U0 | Range::I0 => TypedExpression::N0Constant,
        Range::U1 | Range::I1 => TypedExpression::N1Constant(false),
        _ => TypedExpression::N8Constant(0),
    }
}

/// Integer promotion of an operand whose type is `t`: a cast to the promoted type, or the
/// operand itself where promotion leaves its type.
pub open spec fn spec_integer_promotions(e: Expression, t: Type) -> Expression {
    match spec_promoted_type(t) {
        Some(p) => Expression::Cast(p, Box::new(e)),
        None => e,
    }
}

/// Integer promotion of an operand of type `t`.
pub fn integer_promotions(e: Expression, t: &Type) -> (r: Expression)
    ensures
        r == spec_integer_promotions(e, *t),
{
    match promoted_type(t) {
        Some(p) => Expression::Cast(p, Box::new(e)),
        None => e,
    }
}

} // verus!
