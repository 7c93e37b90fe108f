use atto8::cc::ast::{TypedExpression, TypedGlobal, TypedProgram, TypedStatement};
use atto8::cc::link::link;
use atto8::token::{Macro, Token};

fn def(name: &str) -> Result<Token, String> {
    Ok(Token::MacroDef(Macro(format!("{}.deps", name))))
}

fn reference(name: &str) -> Result<Token, String> {
    Ok(Token::MacroRef(Macro(format!("{}.def", name))))
}

fn end() -> Result<Token, String> {
    Err(String::new())
}

fn function(name: &str, body: TypedStatement) -> TypedGlobal {
    TypedGlobal::Function(
        name.to_string(),
        body,
        TypedStatement::FunctionReturnN0(0, 0, None),
    )
}

#[test]
fn dependencies_are_closed_and_sorted() {
    let program = TypedProgram(vec![
        function(
            "main",
            TypedStatement::Compound(vec![TypedStatement::ExpressionN0(
                TypedExpression::N0FunctionCall(
                    Box::new(TypedExpression::N8AddrGlobal("f".to_string())),
                    vec![],
                ),
            )]),
        ),
        function(
            "f",
            TypedStatement::ExpressionN0(TypedExpression::N0MacroCall(
                "m".to_string(),
                vec![TypedExpression::N8LoadGlobal("d".to_string())],
            )),
        ),
        TypedGlobal::Macro(
            "m".to_string(),
            TypedStatement::UninitLocalN0,
            TypedStatement::MacroReturnN0(0, 0, None),
        ),
        TypedGlobal::Data("d".to_string(), vec![TypedExpression::N8Constant(1)]),
        TypedGlobal::Assembly("nop".to_string()),
    ]);
    let mut errors = vec![];
    let out = link(&program, &mut errors);
    assert!(errors.is_empty());
    assert_eq!(
        out,
        vec![
            def("m"),
            end(),
            def("d"),
            reference("d"),
            end(),
            def("f"),
            reference("d"),
            reference("f"),
            end(),
            def("main"),
            reference("d"),
            reference("f"),
            reference("main"),
            end(),
        ]
    );
}

#[test]
fn later_global_with_same_key_counts() {
    let program = TypedProgram(vec![
        function(
            "g",
            TypedStatement::ExpressionN0(TypedExpression::N0CastN8(Box::new(
                TypedExpression::N8LoadGlobal("a".to_string()),
            ))),
        ),
        function(
            "g",
            TypedStatement::ExpressionN0(TypedExpression::N0CastN8(Box::new(
                TypedExpression::N8LoadGlobal("b".to_string()),
            ))),
        ),
    ]);
    let mut errors = vec![];
    let out = link(&program, &mut errors);
    assert_eq!(out, vec![def("g"), reference("b"), reference("g"), end()]);
}

#[test]
fn empty_program_links_to_nothing() {
    let mut errors = vec![];
    assert!(link(&TypedProgram(vec![]), &mut errors).is_empty());
}
