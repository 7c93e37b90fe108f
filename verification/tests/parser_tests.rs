use atto8::cc::parse_result::ParseResult;
use atto8::cc::parser::{format_expecteds, Parser};

fn digit(input: &str) -> ParseResult<u8> {
    match input.chars().next() {
        Some(c) if c.is_ascii_digit() => {
            ParseResult::Matched((c as u8 - b'0', input[1..].to_string()))
        }
        _ => ParseResult::Failed((vec!["digit".to_string()], input.to_string())),
    }
}

#[test]
fn pure_and_expected() {
    let p = Parser::<u8, fn(&str) -> ParseResult<u8>>::pure(4);
    assert_eq!(p.parse(""), Ok(4));
    let e = Parser::<u8, fn(&str) -> ParseResult<u8>>::expected(vec!["x".to_string()]);
    assert_eq!(e.parse(""), Err("Expected x (got end of input)".to_string()));
}

#[test]
fn map_and_then_or_else() {
    let d = Parser(digit, std::marker::PhantomData);
    let doubled = d.map(|v: u8| v as u16 * 2);
    assert_eq!(doubled.parse("7"), Ok(14));
    let two = Parser(digit, std::marker::PhantomData)
        .and_then(|a: u8| Parser(move |i: &str| match digit(i) {
            ParseResult::Matched((b, r)) => ParseResult::Matched((a * 10 + b, r)),
            other => other,
        }, std::marker::PhantomData));
    assert_eq!(two.parse("42"), Ok(42));
    let either = Parser(digit, std::marker::PhantomData).or_else(|_| {
        Parser(|i: &str| ParseResult::Matched((0u8, i[1..].to_string())), std::marker::PhantomData)
    });
    assert_eq!(either.parse("x"), Ok(0));
    assert_eq!(either.parse("5"), Ok(5));
}

#[test]
fn name_info_and_map_err() {
    let named = Parser(digit, std::marker::PhantomData).name("number".to_string());
    assert_eq!(named.parse("x"), Err("Expected number (got \"x\")".to_string()));
    let informed = Parser(digit, std::marker::PhantomData).info("here");
    assert_eq!(informed.parse("x"), Err("Expected digit here (got \"x\")".to_string()));
    let mapped = Parser(digit, std::marker::PhantomData)
        .map_err(|mut e: Vec<String>| {
            e.push("letter".to_string());
            e
        });
    assert_eq!(mapped.parse("x"), Err("Expected digit, or letter (got \"x\")".to_string()));
}

#[test]
fn failure_messages() {
    assert_eq!(
        format_expecteds((vec!["a".to_string(), "b".to_string(), "c".to_string()], "".to_string())),
        "Expected a, b, or c (got end of input)"
    );
    assert_eq!(
        format_expecteds((vec!["a".to_string()], "0123456789abcdefXYZ".to_string())),
        "Expected a (got \"0123456789abcdef\"...)"
    );
    assert_eq!(
        format_expecteds((vec!["a".to_string()], "line\n".to_string())),
        "Expected a (got \"line\\n\")"
    );
}
