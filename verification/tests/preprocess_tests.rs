use atto8::cc::preprocess::strip_comments;

#[test]
fn line_comments_are_cut_and_every_line_ends() {
    assert_eq!(strip_comments("int a; // c\nint b;"), "int a; \nint b;\n ");
}

#[test]
fn block_comments_leave_spaces() {
    assert_eq!(strip_comments("a /* x */ b"), "a   b\n ");
    assert_eq!(strip_comments("/* one\ntwo */x"), " x\n ");
}

#[test]
fn continued_lines_are_joined() {
    assert_eq!(strip_comments("#define X \\\n1"), "#define X 1\n ");
}

#[test]
fn a_line_comment_hides_a_block_opener() {
    assert_eq!(strip_comments("x // /* y\nz */ w"), "x \nz   w\n ");
}

#[test]
fn empty_source_is_one_line() {
    assert_eq!(strip_comments(""), "\n ");
}
