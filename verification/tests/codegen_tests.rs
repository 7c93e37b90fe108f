use atto8::cc::ast::TypedExpression;
use atto8::cc::codegen::flatten_expression;

fn n8(c: u8) -> Box<TypedExpression> {
    Box::new(TypedExpression::N8Constant(c))
}

fn local(o: usize) -> Box<TypedExpression> {
    Box::new(TypedExpression::N8LoadLocal(o))
}

fn show(e: &TypedExpression) -> String {
    format!("{:?}", e)
}

#[test]
fn flatten_adds_constants_wrapping() {
    let r = flatten_expression(TypedExpression::N8Addition(n8(200), n8(100)));
    assert_eq!(show(&r), "N8Constant(44)");
    let r = flatten_expression(TypedExpression::N8Addition(n8(2), n8(3)));
    assert_eq!(show(&r), "N8Constant(5)");
}

#[test]
fn flatten_subtracts_and_multiplies_wrapping() {
    let r = flatten_expression(TypedExpression::N8Subtraction(n8(3), n8(5)));
    assert_eq!(show(&r), "N8Constant(254)");
    let r = flatten_expression(TypedExpression::N8Multiplication(n8(16), n8(17)));
    assert_eq!(show(&r), "N8Constant(16)");
}

#[test]
fn flatten_division_by_zero_keeps_dividend() {
    let r = flatten_expression(TypedExpression::U8Division(n8(7), n8(0)));
    assert_eq!(show(&r), "N8Constant(7)");
    let r = flatten_expression(TypedExpression::U8Modulo(n8(7), n8(0)));
    assert_eq!(show(&r), "N8Constant(7)");
    let r = flatten_expression(TypedExpression::U8Division(n8(7), n8(2)));
    assert_eq!(show(&r), "N8Constant(3)");
    let r = flatten_expression(TypedExpression::U8Modulo(n8(7), n8(2)));
    assert_eq!(show(&r), "N8Constant(1)");
}

#[test]
fn flatten_compares_signed_and_unsigned() {
    let r = flatten_expression(TypedExpression::N1LessThanU8(n8(0xFF), n8(1)));
    assert_eq!(show(&r), "N1Constant(false)");
    let r = flatten_expression(TypedExpression::N1LessThanI8(n8(0xFF), n8(1)));
    assert_eq!(show(&r), "N1Constant(true)");
    let r = flatten_expression(TypedExpression::N1EqualToN8(n8(4), n8(4)));
    assert_eq!(show(&r), "N1Constant(true)");
}

#[test]
fn flatten_cancels_double_complement() {
    let e = TypedExpression::N1BitwiseComplement(Box::new(TypedExpression::N1BitwiseComplement(Box::new(
        TypedExpression::N1DereferenceN8(local(0)),
    ))));
    assert_eq!(show(&flatten_expression(e)), "N1DereferenceN8(N8LoadLocal(0))");
    let e = TypedExpression::N8BitwiseComplement(n8(0x0F));
    assert_eq!(show(&flatten_expression(e)), "N8Constant(240)");
}

#[test]
fn flatten_casts_constants() {
    let e = TypedExpression::N1CastN8(n8(3));
    assert_eq!(show(&flatten_expression(e)), "N1Constant(true)");
    let e = TypedExpression::N0CastN1(Box::new(TypedExpression::N1Constant(false)));
    assert_eq!(show(&flatten_expression(e)), "N0Constant");
}

#[test]
fn flatten_moves_comma_outward() {
    let e = TypedExpression::N8Addition(
        Box::new(TypedExpression::N8SecondN0N8(
            Box::new(TypedExpression::N0CastN8(local(1))),
            local(2),
        )),
        local(3),
    );
    assert_eq!(
        show(&flatten_expression(e)),
        "N8SecondN0N8(N0CastN8(N8LoadLocal(1)), N8Addition(N8LoadLocal(2), N8LoadLocal(3)))"
    );
    let e = TypedExpression::N1EqualToN8(
        local(3),
        Box::new(TypedExpression::N8SecondN0N8(Box::new(TypedExpression::N0CastN8(local(1))), n8(4))),
    );
    assert_eq!(
        show(&flatten_expression(e)),
        "N1SecondN0N1(N0CastN8(N8LoadLocal(1)), N1EqualToN8(N8LoadLocal(3), N8Constant(4)))"
    );
}

#[test]
fn flatten_folds_after_moving_comma() {
    let e = TypedExpression::N8Addition(
        Box::new(TypedExpression::N8SecondN0N8(Box::new(TypedExpression::N0CastN8(local(1))), n8(2))),
        n8(3),
    );
    assert_eq!(show(&flatten_expression(e)), "N8SecondN0N8(N0CastN8(N8LoadLocal(1)), N8Constant(5))");
}

#[test]
fn flatten_folds_call_arguments() {
    let e = TypedExpression::N8MacroCall(
        "m".to_string(),
        vec![TypedExpression::N8Addition(n8(1), n8(1)), TypedExpression::N8LoadGlobal("g".to_string())],
    );
    assert_eq!(show(&flatten_expression(e)), "N8MacroCall(\"m\", [N8Constant(2), N8LoadGlobal(\"g\")])");
    let e = TypedExpression::N0FunctionCall(
        Box::new(TypedExpression::N8AddrGlobal("f".to_string())),
        vec![TypedExpression::N8Multiplication(n8(2), n8(3))],
    );
    assert_eq!(show(&flatten_expression(e)), "N0FunctionCall(N8AddrGlobal(\"f\"), [N8Constant(6)])");
}

#[test]
fn flatten_leaves_bitwise_and_alone() {
    let e = TypedExpression::N8BitwiseAnd(n8(3), n8(5));
    assert_eq!(show(&flatten_expression(e)), "N8BitwiseAnd(N8Constant(3), N8Constant(5))");
}

use atto8::cc::codegen::n8_expression;
use atto8::common::Ofst;
use atto8::token::{Label, Macro, Token};

fn mac(name: &str) -> Result<Token, String> {
    Ok(Token::MacroRef(Macro(name.to_string())))
}

#[test]
fn n8_code_of_small_constants() {
    let e = TypedExpression::N8Addition(local(0), n8(1));
    assert_eq!(n8_expression(e, 3), vec![Ok(Token::LdO(Ofst(3))), Ok(Token::Inc)]);
    let e = TypedExpression::N8Addition(n8(0xFE), local(1));
    assert_eq!(n8_expression(e, 0), vec![Ok(Token::LdO(Ofst(1))), Ok(Token::Dec), Ok(Token::Dec)]);
    let e = TypedExpression::N8Subtraction(n8(0x00), local(0));
    assert_eq!(n8_expression(e, 0), vec![Ok(Token::LdO(Ofst(0))), Ok(Token::Neg)]);
    let e = TypedExpression::N8Multiplication(local(0), n8(3));
    assert_eq!(
        n8_expression(e, 0),
        vec![
            Ok(Token::LdO(Ofst(0))),
            Ok(Token::LdO(Ofst(0))),
            Ok(Token::Clc),
            Ok(Token::Shl),
            Ok(Token::Clc),
            Ok(Token::Add)
        ]
    );
    let e = TypedExpression::U8Modulo(local(0), n8(4));
    assert_eq!(n8_expression(e, 0), vec![Ok(Token::LdO(Ofst(0))), Ok(Token::XXX(3)), Ok(Token::And)]);
    let e = TypedExpression::U8Division(local(0), n8(0));
    assert_eq!(n8_expression(e, 0), vec![]);
}

#[test]
fn n8_code_of_general_operations() {
    let e = TypedExpression::N8Addition(local(0), local(0));
    assert_eq!(
        n8_expression(e, 0),
        vec![Ok(Token::LdO(Ofst(0))), Ok(Token::LdO(Ofst(1))), Ok(Token::Clc), Ok(Token::Add)]
    );
    let e = TypedExpression::U8Division(local(0), local(1));
    assert_eq!(n8_expression(e, 0), vec![Ok(Token::LdO(Ofst(0))), Ok(Token::LdO(Ofst(2))), mac("div")]);
}

#[test]
fn n8_code_of_far_locals() {
    let e = TypedExpression::N8LoadLocal(0x10);
    assert_eq!(
        n8_expression(e, 1),
        vec![Ok(Token::Lds), Ok(Token::XXX(0x11)), Ok(Token::Clc), Ok(Token::Add), Ok(Token::Lda)]
    );
    let e = TypedExpression::N8LoadLocal(0x100);
    assert_eq!(
        n8_expression(e, 0),
        vec![Ok(Token::AtError), Err("# `Ldo` stack overflow".to_string())]
    );
}

#[test]
fn n8_code_of_globals_and_calls() {
    let e = TypedExpression::N8LoadGlobal("g".to_string());
    assert_eq!(n8_expression(e, 0), vec![Ok(Token::LabelRef(Label::Global("g".to_string()))), Ok(Token::Lda)]);
    let e = TypedExpression::N8FunctionCall(
        Box::new(TypedExpression::N8AddrGlobal("f".to_string())),
        vec![TypedExpression::N8LoadLocal(0), TypedExpression::N1Constant(true)],
    );
    assert_eq!(
        n8_expression(e, 0),
        vec![
            Ok(Token::LdO(Ofst(0))),
            Ok(Token::XXX(1)),
            Ok(Token::LabelRef(Label::Global("f".to_string()))),
            mac("call")
        ]
    );
}

#[test]
fn n8_code_of_comma_and_comparisons() {
    let e = TypedExpression::N8SecondN0N8(
        Box::new(TypedExpression::N0CastN1(Box::new(TypedExpression::N1EqualToN8(local(0), n8(0))))),
        n8(7),
    );
    assert_eq!(
        n8_expression(e, 0),
        vec![
            Ok(Token::LdO(Ofst(0))),
            mac("zr"),
            Ok(Token::XXX(0)),
            Ok(Token::Shl),
            Ok(Token::AtDyn),
            Ok(Token::Pop),
            Ok(Token::XXX(7))
        ]
    );
    let e = TypedExpression::N0CastN1(Box::new(TypedExpression::N1LessThanU8(local(0), local(1))));
    let e = TypedExpression::N8SecondN0N8(Box::new(e), n8(0));
    assert_eq!(
        n8_expression(e, 0),
        vec![
            Ok(Token::LdO(Ofst(1))),
            Ok(Token::LdO(Ofst(1))),
            Ok(Token::Clc),
            mac("lt"),
            Ok(Token::XXX(0)),
            Ok(Token::Shl),
            Ok(Token::AtDyn),
            Ok(Token::Pop),
            Ok(Token::XXX(0))
        ]
    );
}
