use atto8::source::source_line;

#[test]
fn comments_are_cut_from_source_lines() {
    assert_eq!(source_line("psh 1 # comment"), ("psh 1 ".to_string(), None));
    assert_eq!(source_line("foo #"), ("foo ".to_string(), None));
    assert_eq!(source_line("a#b"), ("a#b".to_string(), None));
    assert_eq!(source_line("#"), ("".to_string(), None));
}

#[test]
fn includes_are_split_from_source_lines() {
    assert_eq!(source_line("x @ lib.asm"), ("x ".to_string(), Some("lib.asm".to_string())));
    assert_eq!(source_line("@ lib.asm # c"), ("".to_string(), Some("lib.asm ".to_string())));
    assert_eq!(source_line("a@b"), ("a@b".to_string(), None));
}
