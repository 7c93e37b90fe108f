use atto8::cc::ast::{Expression, Type, TypedExpression};
use atto8::cc::conversions::{arithmetic_conversion, dummy_typed_expression, integer_promotions, promoted_type, Conversion};

#[test]
fn integer_promotion_widens_small_types() {
    assert!(matches!(promoted_type(&Type::Bool), Some(Type::Int)));
    assert!(matches!(promoted_type(&Type::Enumeration(vec!["A".to_string()])), Some(Type::Int)));
    assert!(matches!(promoted_type(&Type::Char), Some(Type::UnsignedInt)));
    assert!(matches!(promoted_type(&Type::UnsignedShort), Some(Type::UnsignedInt)));
    assert!(promoted_type(&Type::Long).is_none());
    assert!(promoted_type(&Type::Pointer(Box::new(Type::Int))).is_none());
}

#[test]
fn usual_arithmetic_conversions_pick_a_common_type() {
    assert!(matches!(arithmetic_conversion(Type::Int, &Type::Int), Conversion::To(Type::Int)));
    assert!(matches!(arithmetic_conversion(Type::Char, &Type::Int), Conversion::To(Type::Int)));
    assert!(matches!(arithmetic_conversion(Type::Int, &Type::Char), Conversion::To(Type::Int)));
    assert!(matches!(arithmetic_conversion(Type::Int, &Type::UnsignedInt), Conversion::To(Type::UnsignedInt)));
    assert!(matches!(arithmetic_conversion(Type::Long, &Type::Int), Conversion::Unimplemented));
    assert!(matches!(
        arithmetic_conversion(Type::Pointer(Box::new(Type::Int)), &Type::Int),
        Conversion::InvalidOperands
    ));
    assert!(matches!(arithmetic_conversion(Type::Int, &Type::Void), Conversion::InvalidOperands));
}

#[test]
fn enumerations_convert_only_with_the_same_constants() {
    let e1 = Type::Enumeration(vec!["A".to_string(), "B".to_string()]);
    let e2 = Type::Enumeration(vec!["A".to_string(), "B".to_string()]);
    let e3 = Type::Enumeration(vec!["A".to_string(), "C".to_string()]);
    assert!(matches!(arithmetic_conversion(e1, &e2), Conversion::To(Type::Enumeration(_))));
    let e1 = Type::Enumeration(vec!["A".to_string(), "B".to_string()]);
    assert!(matches!(arithmetic_conversion(e1, &e3), Conversion::Unimplemented));
    assert!(matches!(arithmetic_conversion(Type::Int, &e3), Conversion::Unimplemented));
}

#[test]
fn dummy_expressions_are_zero_of_the_right_width() {
    assert!(matches!(dummy_typed_expression(&Type::Void), TypedExpression::N0Constant));
    assert!(matches!(dummy_typed_expression(&Type::Bool), TypedExpression::N1Constant(false)));
    assert!(matches!(dummy_typed_expression(&Type::Int), TypedExpression::N8Constant(0)));
    assert!(matches!(dummy_typed_expression(&Type::Pointer(Box::new(Type::Char))), TypedExpression::N8Constant(0)));
}

#[test]
fn promotion_casts_small_operands_only() {
    let e = integer_promotions(Expression::IntegerConstant(3), &Type::Char);
    assert!(matches!(e, Expression::Cast(Type::UnsignedInt, ref inner) if matches!(**inner, Expression::IntegerConstant(3))));
    let e = integer_promotions(Expression::IntegerConstant(3), &Type::Long);
    assert!(matches!(e, Expression::IntegerConstant(3)));
}
