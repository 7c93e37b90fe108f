use atto8::wp_asm::{codegen, compile, WpInstruction, WpToken};

fn def(name: &str) -> WpToken {
    WpToken::MacroDef(name.to_string())
}

#[test]
fn constant_operations_fold_into_one_push() {
    let tokens = vec![def("main"), WpToken::XXX(1), WpToken::XXX(2), WpToken::Add, WpToken::Hlt];
    assert_eq!(compile(tokens, "main"), Some(vec![WpInstruction::Psh(3), WpInstruction::Hlt]));
}

#[test]
fn forward_label_reference_is_filled_in() {
    let tokens = vec![
        def("main"),
        WpToken::LabelRef("end".to_string()),
        WpToken::Sti,
        WpToken::LabelDef("end".to_string()),
        WpToken::Hlt,
    ];
    assert_eq!(compile(tokens, "main"), Some(vec![WpInstruction::Psh(3), WpInstruction::Bfp, WpInstruction::Sti, WpInstruction::Hlt]));
}

#[test]
fn macros_expand_from_the_entry_point() {
    let tokens = vec![
        def("inc2"),
        WpToken::Inc,
        WpToken::Inc,
        def("main"),
        WpToken::XXX(5),
        WpToken::MacroRef("inc2".to_string()),
        WpToken::Hlt,
    ];
    assert_eq!(compile(tokens, "main"), Some(vec![WpInstruction::Psh(7), WpInstruction::Hlt]));
}

#[test]
fn high_bytes_are_pushed_with_ntp() {
    let tokens = vec![def("main"), WpToken::XXX(0xF0), WpToken::Hlt];
    assert_eq!(compile(tokens, "main"), Some(vec![WpInstruction::Psh(0x0F), WpInstruction::Ntp, WpInstruction::Hlt]));
}

#[test]
fn repeated_node_becomes_ldo() {
    let tokens = vec![def("main"), WpToken::XXX(1), WpToken::XXX(1), WpToken::Hlt];
    assert_eq!(compile(tokens, "main"), Some(vec![WpInstruction::Psh(1), WpInstruction::Ldo(0), WpInstruction::Hlt]));
}

#[test]
fn nop_is_removed_and_swap_of_nodes_folds() {
    let tokens = vec![def("main"), WpToken::XXX(1), WpToken::Nop, WpToken::XXX(2), WpToken::Swp, WpToken::Sub, WpToken::Hlt];
    // 1 2 swp -> 2 1; sub computes the second from the top minus the top: 2 - 1
    assert_eq!(compile(tokens, "main"), Some(vec![WpInstruction::Psh(1), WpInstruction::Hlt]));
}

#[test]
fn codegen_encodes_instructions() {
    assert_eq!(
        codegen(vec![
            WpInstruction::Psh(3),
            WpInstruction::Hlt,
            WpInstruction::Add(2),
            WpInstruction::Ntp,
            WpInstruction::Ldo(5),
            WpInstruction::Sto(1),
            WpInstruction::Raw(0xEE),
            WpInstruction::Xnd(8)
        ]),
        vec![0x03, 0xAF, 0xD2, 0xDC, 0x85, 0x91, 0xEE, 0xFB]
    );
}

#[test]
fn failures_give_nothing() {
    // a program that folds to a single root leaves the folding passes too few roots
    let tokens = vec![def("main"), WpToken::XXX(1), WpToken::XXX(2), WpToken::Add];
    assert_eq!(compile(tokens, "main"), None);
    // a token before any macro
    let tokens = vec![WpToken::Hlt, def("main"), WpToken::Hlt, WpToken::Hlt];
    assert_eq!(compile(tokens, "main"), None);
    // an undefined macro
    let tokens = vec![def("main"), WpToken::MacroRef("nowhere".to_string()), WpToken::Hlt, WpToken::Hlt];
    assert_eq!(compile(tokens, "main"), None);
    // a macro nested in itself
    let tokens = vec![def("main"), WpToken::MacroRef("main".to_string()), WpToken::Hlt, WpToken::Hlt];
    assert_eq!(compile(tokens, "main"), None);
    // an invalid size
    let tokens = vec![def("main"), WpToken::AdS(3), WpToken::Hlt, WpToken::Hlt];
    assert_eq!(compile(tokens, "main"), None);
    // an undefined label
    let tokens = vec![def("main"), WpToken::LabelRef("x".to_string()), WpToken::Sti, WpToken::Hlt];
    assert_eq!(compile(tokens, "main"), None);
}

use atto8::wp_asm::{line_item, tokenize, LineItem};

#[test]
fn tokenize_reads_words() {
    let tokens = tokenize("main% x0A\tx+ff  :end sti end: add ad2 adc ld3 d7F %m\n").unwrap();
    assert_eq!(
        tokens,
        vec![
            def("main"),
            WpToken::XXX(0x0A),
            WpToken::XXX(0xFF),
            WpToken::LabelRef("end".to_string()),
            WpToken::Sti,
            WpToken::LabelDef("end".to_string()),
            WpToken::Add,
            WpToken::AdS(2),
            WpToken::AdS(0x0C),
            WpToken::LdO(3),
            WpToken::DDD(0x7F),
            WpToken::MacroRef("m".to_string())
        ]
    );
}

#[test]
fn tokenize_rejects_unknown_words_and_bad_operands() {
    assert_eq!(tokenize("zzz"), None);
    assert_eq!(tokenize("x100"), None);
    assert_eq!(tokenize("x"), None);
    assert_eq!(tokenize("x+"), None);
    assert_eq!(tokenize("adq"), None);
    assert_eq!(tokenize(""), Some(vec![]));
}

#[test]
fn source_lines_lose_comments_and_name_includes() {
    match line_item("add # a comment") {
        LineItem::Text(t) => assert_eq!(t, "add "),
        _ => panic!(),
    }
    match line_item("  @ lib.asm  # more") {
        LineItem::Include(p) => assert_eq!(p, "lib.asm"),
        _ => panic!(),
    }
    match line_item("# @ not.asm") {
        LineItem::Text(t) => assert_eq!(t, ""),
        _ => panic!(),
    }
}

#[test]
fn tokenized_program_assembles() {
    let tokens = tokenize("main% x01 x02 add hlt").unwrap();
    let instructions = compile(tokens, "main").unwrap();
    assert_eq!(codegen(instructions), vec![0x03, 0xAF]);
}
