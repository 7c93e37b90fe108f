use atto8::cc::ast::{Object, Range, Type, TypedExpression};
use atto8::cc::behavior::{
    behavior_alternation, behavior_contains, behavior_difference, behavior_sequenced,
    behavior_union, behavior_unsequenced, expression_behavior, Behavior,
};
use atto8::cc::literal::{c_quote, character_constant, escape_sequence, string_literal};
use atto8::cc::parse_result::{merge_expecteds, ParseResult};

fn chars(s: &str) -> Vec<char> {
    s.chars().collect()
}

fn has(v: &Option<Vec<Behavior>>, b: Behavior) -> bool {
    behavior_contains(v, &b)
}

#[test]
fn quoting_escapes_bytes() {
    assert_eq!(c_quote(b"hi\n", '"'), "\"hi\\n\"");
    assert_eq!(c_quote(b"a\"b", '"'), "\"a\\\"b\"");
    assert_eq!(c_quote(b"'", '\''), "'\\''");
    assert_eq!(c_quote(b"'", '"'), "\"'\"");
    assert_eq!(c_quote(&[0x00, 0x07, 0x1B, 0x80, 0xFF], '"'), "\"\\0\\a\\x1b\\x80\\xff\"");
    assert_eq!(c_quote(b"\\", '"'), "\"\\\\\"");
}

#[test]
fn quoted_string_reads_back() {
    let bytes: Vec<u8> = vec![b'A', 0, b'x', 0x7F, b'"', b'\\', b'\n', 0xC3];
    let quoted = chars(&c_quote(&bytes, '"'));
    let (read, end) = string_literal(&quoted, 0).unwrap();
    let mut expected: Vec<char> = bytes.iter().map(|&b| b as char).collect();
    expected.push('\0');
    assert_eq!(read, expected);
    assert_eq!(end, quoted.len());
}

#[test]
fn nul_before_octal_digit_reads_back() {
    assert_eq!(c_quote(&[0, b'1'], '"'), "\"\\0001\"");
    assert_eq!(c_quote(&[0, b'8'], '"'), "\"\\08\"");
    let quoted = chars(&c_quote(&[0, b'1'], '"'));
    let (read, end) = string_literal(&quoted, 0).unwrap();
    assert_eq!(read, vec!['\0', '1', '\0']);
    assert_eq!(end, quoted.len());
}

#[test]
fn adjacent_string_literals_concatenate() {
    let input = chars("\"ab\" \"c\"  x");
    let (read, end) = string_literal(&input, 0).unwrap();
    assert_eq!(read, vec!['a', 'b', 'c', '\0']);
    assert_eq!(end, 10);
    assert_eq!(string_literal(&chars("\"ab"), 0), None);
    assert_eq!(string_literal(&chars("ab"), 0), None);
}

#[test]
fn escapes_read_as_characters() {
    assert_eq!(escape_sequence(&chars("\\n"), 0), Some(('\n', 2)));
    assert_eq!(escape_sequence(&chars("\\101x"), 0), Some(('A', 4)));
    assert_eq!(escape_sequence(&chars("\\x4g"), 0), Some(('\u{4}', 3)));
    assert_eq!(escape_sequence(&chars("\\x41"), 0), Some(('A', 4)));
    assert_eq!(escape_sequence(&chars("\\q"), 0), None);
    assert_eq!(escape_sequence(&chars("\\xg"), 0), None);
}

#[test]
fn character_constants_read() {
    assert_eq!(character_constant(&chars("'a' "), 0), Some(('a', 4)));
    assert_eq!(character_constant(&chars("'\\''"), 0), Some(('\'', 4)));
    assert_eq!(character_constant(&chars("'ab'"), 0), None);
    let quoted = chars(&c_quote(&[0x0B], '\''));
    assert_eq!(character_constant(&quoted, 0), Some(('\u{b}', quoted.len())));
}

#[test]
fn behaviors_combine() {
    let completes = Some(vec![Behavior::Completes]);
    let returns = Some(vec![Behavior::Returns]);
    let alt = behavior_alternation(completes.clone(), returns.clone());
    assert!(has(&alt, Behavior::Completes) && has(&alt, Behavior::Returns));
    assert!(behavior_alternation(None, returns.clone()).is_some());
    assert!(behavior_unsequenced(None, returns.clone()).is_none());
    let seq = behavior_sequenced(completes.clone(), returns.clone());
    assert!(!has(&seq, Behavior::Completes) && has(&seq, Behavior::Returns));
    let seq = behavior_sequenced(returns.clone(), completes.clone());
    assert!(!has(&seq, Behavior::Completes));
    let brk = Some(vec![Behavior::Breaks("l".to_string()), Behavior::Completes]);
    let diff = behavior_difference(brk.clone(), vec![Behavior::Breaks("l".to_string())]);
    assert!(!has(&diff, Behavior::Breaks("l".to_string())) && has(&diff, Behavior::Completes));
    let uni = behavior_union(returns.clone(), vec![Behavior::Hangs]);
    assert!(has(&uni, Behavior::Hangs));
    assert!(!has(&None, Behavior::Hangs));
}

#[test]
fn expression_behaviors() {
    let zero = TypedExpression::N8Constant(0);
    let deref_null = TypedExpression::N8DereferenceN8(Box::new(zero));
    assert!(expression_behavior(&deref_null).is_none());
    let div = TypedExpression::U8Division(
        Box::new(TypedExpression::N8Constant(4)),
        Box::new(TypedExpression::N8Constant(0)),
    );
    assert!(expression_behavior(&div).is_none());
    let call = TypedExpression::N8MacroCall(
        "f".to_string(),
        vec![TypedExpression::N8Constant(1), TypedExpression::N8LoadLocal(0)],
    );
    let b = expression_behavior(&call);
    assert!(has(&b, Behavior::Hangs) && has(&b, Behavior::Completes));
    let add = TypedExpression::N8Addition(
        Box::new(TypedExpression::N8Constant(1)),
        Box::new(TypedExpression::N8Constant(2)),
    );
    let b = expression_behavior(&add);
    assert!(has(&b, Behavior::Completes) && !has(&b, Behavior::Hangs));
}

#[test]
fn type_sizes_and_ranges() {
    let s = Type::Structure(vec![
        Object(Type::Long, "a".to_string()),
        Object(Type::Char, "b".to_string()),
        Object(Type::Union(vec![Object(Type::LongLong, "c".to_string())]), "u".to_string()),
    ]);
    assert_eq!(s.size(), 7);
    assert_eq!(Object(Type::Union(vec![]), "e".to_string()).size(), 0);
    assert_eq!(Type::Pointer(Box::new(Type::Void)).size(), 1);
    assert_eq!(Type::Long.range(), Range::I16);
    assert_eq!(Type::UnsignedLongLong.range(), Range::U32);
}

#[test]
fn failures_merge() {
    let a = (vec!["x".to_string(), "y".to_string()], "abc".to_string());
    let b = (vec!["y".to_string(), "z".to_string()], "abc".to_string());
    assert_eq!(merge_expecteds(a.clone(), b.clone()).0, vec!["x", "y", "z"]);
    let c = (vec!["w".to_string()], "c".to_string());
    assert_eq!(merge_expecteds(a.clone(), c.clone()).0, vec!["w"]);
    assert_eq!(merge_expecteds(c.clone(), a.clone()).0, vec!["w"]);
}

#[test]
fn parse_results_chain() {
    let m: ParseResult<u8> = ParseResult::Matched((1, "rest".to_string()));
    match m.and_then(|(v, r)| ParseResult::Matched((v + 1, r))) {
        ParseResult::Matched((v, r)) => {
            assert_eq!(v, 2);
            assert_eq!(r, "rest");
        }
        _ => panic!("expected a match"),
    }
    let f: ParseResult<u8> = ParseResult::Failed((vec!["digit".to_string()], "x".to_string()));
    match f.or_else(|_| ParseResult::Matched((7, "x".to_string()))) {
        ParseResult::Both((v, _), (e, _)) => {
            assert_eq!(v, 7);
            assert_eq!(e, vec!["digit"]);
        }
        _ => panic!("expected both"),
    }
    let f: ParseResult<u8> = ParseResult::Failed((vec!["a".to_string()], "x".to_string()));
    assert_eq!(f.into_result(), Err((vec!["a".to_string()], "x".to_string())));
    let b: ParseResult<u8> = ParseResult::Both((3, "".to_string()), (vec![], "".to_string()));
    assert_eq!(b.map(|(v, r)| (v * 2, r)).into_result(), Ok((6, "".to_string())));
}

#[test]
fn expression_behavior_only_hangs_or_completes() {
    let e = TypedExpression::N8SecondN0N8(
        Box::new(TypedExpression::N0MacroCall("m".to_string(), vec![TypedExpression::N8LoadLocal(0)])),
        Box::new(TypedExpression::N8Addition(
            Box::new(TypedExpression::N8LoadGlobal("g".to_string())),
            Box::new(TypedExpression::N8Constant(1)),
        )),
    );
    let b = expression_behavior(&e).unwrap();
    assert!(!b.is_empty());
    assert!(b.iter().all(|x| *x == Behavior::Hangs || *x == Behavior::Completes));
}
