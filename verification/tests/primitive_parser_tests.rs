use atto8::cc::parse_result::ParseResult;
use atto8::cc::parser::{
    alphabetic, any, char, char_none_of, char_not, digit, eof, maybe, newline, satisfy, string,
    whitespace, ws,
};

fn matched<T>(m: T, rest: &str) -> ParseResult<T> {
    ParseResult::Matched((m, rest.to_string()))
}

fn failed<T>(expecteds: &[&str], rest: &str) -> ParseResult<T> {
    ParseResult::Failed((expecteds.iter().map(|e| e.to_string()).collect(), rest.to_string()))
}

#[test]
fn any_and_eof() {
    assert_eq!((any().0)("ab"), matched('a', "b"));
    assert_eq!((any().0)(""), failed(&["any character"], ""));
    assert_eq!((eof().0)(""), matched((), ""));
    assert_eq!((eof().0)("x"), failed(&["end of input"], "x"));
}

#[test]
fn satisfy_fails_without_expectation() {
    let upper = satisfy(|c: char| c.is_ascii_uppercase());
    assert_eq!((upper.0)("Ab"), matched('A', "b"));
    assert_eq!((upper.0)("ab"), failed(&[], "ab"));
    assert_eq!((upper.0)(""), failed(&["any character"], ""));
}

#[test]
fn single_characters() {
    assert_eq!((char('x').0)("xy"), matched((), "y"));
    assert_eq!((char('x').0)("yx"), failed(&["'x'"], "yx"));
    assert_eq!((char('x').0)(""), failed(&["'x'"], ""));
    assert_eq!((char_not('"').0)("a\""), matched('a', "\""));
    assert_eq!((char_not('"').0)("\"a"), failed(&["non-'\"'"], "\"a"));
    assert_eq!((char_none_of("ab").0)("cab"), matched('c', "ab"));
    assert_eq!((char_none_of("ab").0)("bc"), failed(&["none of `ab`"], "bc"));
    assert_eq!((newline().0)("\nx"), matched((), "x"));
    assert_eq!((newline().0)("x"), failed(&["newline character"], "x"));
    assert_eq!((whitespace().0)("\tx"), matched('\t', "x"));
    assert_eq!((whitespace().0)("x"), failed(&["whitespace character"], "x"));
    assert_eq!((alphabetic().0)("q1"), matched('q', "1"));
    assert_eq!((alphabetic().0)("1q"), failed(&["alphabetic character"], "1q"));
}

#[test]
fn digits_by_radix() {
    assert_eq!((digit(2).0)("1"), matched('1', ""));
    assert_eq!((digit(2).0)("2"), failed(&["binary digit"], "2"));
    assert_eq!((digit(8).0)("8"), failed(&["octal digit"], "8"));
    assert_eq!((digit(10).0)("9a"), matched('9', "a"));
    assert_eq!((digit(16).0)("fF"), matched('f', "F"));
    assert_eq!((digit(16).0)("g"), failed(&["hexadecimal digit"], "g"));
    assert_eq!((digit(36).0)("Z"), matched('Z', ""));
    assert_eq!((digit(3).0)("3"), failed(&["base-3 digit"], "3"));
}

#[test]
fn strings() {
    assert_eq!((string("int").0)("int x"), matched((), " x"));
    assert_eq!((string("int").0)("char"), failed(&["\"int\""], "char"));
    assert_eq!((string("int").0)("inx"), failed(&["'t'"], "x"));
    assert_eq!((string("int").0)("in"), failed(&["'t'"], ""));
}

#[test]
fn optional_match() {
    let p = maybe(char('-'));
    assert_eq!((p.0)("-1"), matched(Some(()), "1"));
    assert_eq!(
        (p.0)("1"),
        ParseResult::Both((None, "1".to_string()), (vec!["'-'".to_string()], "1".to_string()))
    );
}

#[test]
fn trailing_whitespace() {
    let p = ws(char('a'));
    assert_eq!(
        (p.0)("a  b"),
        ParseResult::Both(((), "b".to_string()), (vec!["whitespace character".to_string()], "b".to_string()))
    );
    assert_eq!((p.0)("b"), failed(&["'a'"], "b"));
    assert_eq!(
        (p.0)("a"),
        ParseResult::Both(((), "".to_string()), (vec!["whitespace character".to_string()], "".to_string()))
    );
}

#[test]
fn repeated_matches() {
    let p = atto8::cc::parser::many(digit(10));
    assert_eq!(
        (p.0)("123x"),
        ParseResult::Both((vec!['1', '2', '3'], "x".to_string()), (vec!["decimal digit".to_string()], "x".to_string()))
    );
    assert_eq!(
        (p.0)("x"),
        ParseResult::Both((vec![], "x".to_string()), (vec!["decimal digit".to_string()], "x".to_string()))
    );
    let q = atto8::cc::parser::many1(digit(10));
    assert_eq!(
        (q.0)("12"),
        ParseResult::Both((vec!['1', '2'], "".to_string()), (vec!["decimal digit".to_string()], "".to_string()))
    );
    assert_eq!((q.0)("x"), failed(&["decimal digit"], "x"));
}

#[test]
fn repeated_matches_keep_failures_of_matches() {
    // the failure to read more white space after the last match is merged with the failure that ends the matches
    let signed = atto8::cc::parser::many(ws(char('a')));
    assert_eq!(
        (signed.0)("a a b"),
        ParseResult::Both(
            (vec![(), ()], "b".to_string()),
            (vec!["whitespace character".to_string(), "'a'".to_string()], "b".to_string())
        )
    );
}

fn number() -> atto8::cc::parser::Parser<u32, impl Fn(&str) -> ParseResult<u32>> {
    digit(10).map(|c: char| c.to_digit(10).unwrap())
}

fn both<T>(m: T, rest: &str, expecteds: &[&str], at: &str) -> ParseResult<T> {
    ParseResult::Both(
        (m, rest.to_string()),
        (expecteds.iter().map(|e| e.to_string()).collect(), at.to_string()),
    )
}

#[test]
fn separated_lists() {
    let list = atto8::cc::parser::sepby1(number(), char(','));
    assert_eq!((list.0)("1,2,3x"), both(vec![1, 2, 3], "x", &["','"], "x"));
    assert_eq!((list.0)("1,x"), both(vec![1], ",x", &["decimal digit"], "x"));
    assert_eq!((list.0)("x"), failed(&["decimal digit"], "x"));
    let maybe_empty = atto8::cc::parser::sepby(number(), char(','));
    assert_eq!((maybe_empty.0)("x"), both(vec![], "x", &["decimal digit"], "x"));
    assert_eq!((maybe_empty.0)("4"), both(vec![4], "", &["','"], ""));
}

#[test]
fn unary_operators() {
    let minus = char('-').map(|_: ()| -> fn(u32) -> u32 { |x| 100 - x });
    let negated = atto8::cc::parser::unop(number(), minus);
    assert_eq!((negated.0)("-7"), matched(93, ""));
    assert_eq!((negated.0)("7"), failed(&["unary operator"], "7"));
    assert_eq!((negated.0)("-x"), failed(&["decimal digit"], "x"));
}

#[test]
fn binary_operators_apply_from_the_left() {
    let append = char('+').map(|_: ()| -> fn(u32, u32) -> u32 { |a, b| a * 10 + b });
    let sum = atto8::cc::parser::binop(number(), append);
    assert_eq!((sum.0)("1+2+3"), both(123, "", &["binary operator"], ""));
    assert_eq!((sum.0)("5"), both(5, "", &["binary operator"], ""));
    assert_eq!((sum.0)("x"), failed(&["decimal digit"], "x"));
}
