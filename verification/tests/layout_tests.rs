use atto8::assembler::{codegen, Node};
use atto8::common::{Imm, Instruction, Size, MEM_SIZE};
use atto8::expansion::Root;
use atto8::layout::{layout, report_unused_labels};
use atto8::token::{token_to_mnemonic, Error, File, Label, Pos, Token};

fn at(col: usize) -> Pos {
    Pos(File("f.asm".to_string()), 0, col)
}

fn global(name: &str) -> Label {
    Label::Global(name.to_string())
}

fn label_ref(name: &str) -> Node {
    Node::LabelRef(global(name))
}

fn messages(errors: &[(Pos, Error)]) -> Vec<String> {
    errors.iter().map(|(_, e)| e.0.clone()).collect()
}

#[test]
fn backward_reference_is_pushed_directly() {
    let roots = vec![
        (at(0), Root::Instruction(Instruction::Inc)),
        (at(1), Root::LabelDefs(vec![global("a")])),
        (at(2), Root::Node(label_ref("a"))),
    ];
    let mut errors = vec![];
    let out = layout(&roots, &mut errors);
    assert!(errors.is_empty());
    assert_eq!(
        out,
        vec![
            (at(0), Ok(Instruction::Inc)),
            (at(2), Ok(Instruction::Psh(Imm(0x01)))),
        ]
    );
}

#[test]
fn forward_reference_is_filled_in() {
    let roots = vec![
        (at(0), Root::Node(label_ref("b"))),
        (at(1), Root::LabelDefs(vec![global("b")])),
        (at(2), Root::Instruction(Instruction::Pop)),
    ];
    let mut errors = vec![];
    let out = layout(&roots, &mut errors);
    assert!(errors.is_empty());
    assert_eq!(
        out,
        vec![
            (at(0), Ok(Instruction::Psh(Imm(0x01)))),
            (at(2), Ok(Instruction::Pop)),
        ]
    );
}

#[test]
fn node_that_needs_two_bytes_gets_them() {
    let roots = vec![
        (at(0), Root::Node(label_ref("far"))),
        (at(1), Root::Org(Some(Node::Value(0x90)))),
        (at(2), Root::LabelDefs(vec![global("far")])),
    ];
    let mut errors = vec![];
    let out = layout(&roots, &mut errors);
    assert!(errors.is_empty());
    assert_eq!(out.len(), 0x90);
    assert_eq!(out[0], (at(0), Ok(Instruction::Psh(Imm(0x70)))));
    assert_eq!(out[1], (at(0), Ok(Instruction::Neg)));
    assert!(out[2..].iter().all(|entry| *entry == (at(1), Err(0x00))));
}

#[test]
fn conditional_pushes_both_operands() {
    let roots = vec![(at(0), Root::Conditional(Node::Value(3), Node::Value(5)))];
    let mut errors = vec![];
    let out = layout(&roots, &mut errors);
    assert!(errors.is_empty());
    assert_eq!(
        out,
        vec![
            (at(0), Ok(Instruction::Psh(Imm(3)))),
            (at(0), Ok(Instruction::Psh(Imm(5)))),
            (at(0), Ok(Instruction::Iff(Size(1)))),
        ]
    );
}

#[test]
fn conditional_of_two_large_operands_negates_them() {
    let roots = vec![(at(0), Root::Conditional(Node::Value(0x90), Node::Value(0x91)))];
    let mut errors = vec![];
    let out = layout(&roots, &mut errors);
    assert!(errors.is_empty());
    assert_eq!(
        out,
        vec![
            (at(0), Ok(Instruction::Psh(Imm(0x70)))),
            (at(0), Ok(Instruction::Psh(Imm(0x6F)))),
            (at(0), Ok(Instruction::Iff(Size(1)))),
            (at(0), Ok(Instruction::Neg)),
        ]
    );
}

#[test]
fn data_byte_is_filled_in() {
    let roots = vec![
        (at(0), Root::Data(Some(label_ref("d")))),
        (at(1), Root::LabelDefs(vec![global("d")])),
    ];
    let mut errors = vec![];
    let out = layout(&roots, &mut errors);
    assert!(errors.is_empty());
    assert_eq!(out, vec![(at(0), Err(0x01))]);
}

#[test]
fn dyn_instruction_is_kept() {
    let roots = vec![(at(0), Root::Dyn(Some(Instruction::Clc)))];
    let mut errors = vec![];
    let out = layout(&roots, &mut errors);
    assert!(errors.is_empty());
    assert_eq!(out, vec![(at(0), Ok(Instruction::Clc))]);
}

#[test]
fn directives_without_values_are_reported() {
    let roots = vec![
        (at(0), Root::Const),
        (at(1), Root::Data(None)),
        (at(2), Root::Dyn(None)),
        (at(3), Root::Org(None)),
    ];
    let mut errors = vec![];
    let out = layout(&roots, &mut errors);
    assert!(out.is_empty());
    assert_eq!(
        messages(&errors),
        vec![
            "`@const` argument could not be reduced to a constant expression".to_string(),
            "`@data` argument could not be reduced to a constant expression".to_string(),
            "`@dyn` argument could not be reduced to an instruction".to_string(),
            "`@org` argument could not be reduced to a constant expression".to_string(),
        ]
    );
    assert_eq!(errors[2].0, at(2));
}

#[test]
fn undefined_label_is_reported() {
    let roots = vec![(at(0), Root::Node(label_ref("nowhere")))];
    let mut errors = vec![];
    let out = layout(&roots, &mut errors);
    assert_eq!(out, vec![(at(0), Ok(Instruction::Nop))]);
    let spelled = token_to_mnemonic(Token::LabelRef(global("nowhere"))).0;
    assert_eq!(
        messages(&errors),
        vec![format!("Reference to undefined label `{}`", spelled)]
    );
}

#[test]
fn duplicate_label_is_reported_and_latest_wins() {
    let roots = vec![
        (at(0), Root::LabelDefs(vec![global("x")])),
        (at(1), Root::Instruction(Instruction::Inc)),
        (at(2), Root::LabelDefs(vec![global("x")])),
        (at(3), Root::Node(label_ref("x"))),
    ];
    let mut errors = vec![];
    let out = layout(&roots, &mut errors);
    let spelled = token_to_mnemonic(Token::LabelRef(global("x"))).0;
    assert_eq!(
        messages(&errors),
        vec![format!("Duplicate label definition `{}`", spelled)]
    );
    assert_eq!(errors[0].0, at(2));
    assert_eq!(out[1], (at(3), Ok(Instruction::Psh(Imm(0x01)))));
}

#[test]
fn org_cannot_move_backward() {
    let roots = vec![
        (at(0), Root::Instruction(Instruction::Inc)),
        (at(1), Root::Instruction(Instruction::Inc)),
        (at(2), Root::Org(Some(Node::Value(0x01)))),
    ];
    let mut errors = vec![];
    let out = layout(&roots, &mut errors);
    assert_eq!(out.len(), 2);
    assert_eq!(
        messages(&errors),
        vec!["`@org` cannot move location counter backward from 02 to 01".to_string()]
    );
}

#[test]
fn org_to_unresolved_label_is_reported() {
    let roots = vec![
        (at(0), Root::Org(Some(label_ref("later")))),
        (at(1), Root::LabelDefs(vec![global("later")])),
    ];
    let mut errors = vec![];
    layout(&roots, &mut errors);
    let spelled = token_to_mnemonic(Token::LabelRef(global("later"))).0;
    assert_eq!(
        messages(&errors),
        vec![format!(
            "`@org` argument references currently unresolved label `{}`",
            spelled
        )]
    );
}

#[test]
fn org_pads_to_its_address() {
    let roots = vec![
        (at(0), Root::Instruction(Instruction::Inc)),
        (at(1), Root::Org(Some(Node::Value(0x04)))),
        (at(2), Root::Instruction(Instruction::Dec)),
    ];
    let mut errors = vec![];
    let out = layout(&roots, &mut errors);
    assert!(errors.is_empty());
    assert_eq!(
        out,
        vec![
            (at(0), Ok(Instruction::Inc)),
            (at(1), Err(0x00)),
            (at(1), Err(0x00)),
            (at(1), Err(0x00)),
            (at(2), Ok(Instruction::Dec)),
        ]
    );
}

#[test]
fn layout_feeds_codegen() {
    let roots = vec![
        (at(0), Root::Node(label_ref("here"))),
        (at(1), Root::LabelDefs(vec![global("here")])),
        (at(2), Root::Data(Some(Node::Value(0xAB)))),
    ];
    let mut errors = vec![];
    let out = layout(&roots, &mut errors);
    let bytes = codegen(out, &mut errors);
    assert!(errors.is_empty());
    assert_eq!(bytes.len(), MEM_SIZE);
    assert_eq!(bytes[0].1, 0x01);
    assert_eq!(bytes[1].1, 0xAB);
    assert_eq!(bytes[2].1, 0x00);
}

#[test]
fn unused_labels_are_reported_at_their_last_definition() {
    let tokens = vec![
        (at(0), Token::LabelDef(global("used"))),
        (at(1), Token::LabelDef(global("unused"))),
        (at(2), Token::LabelRef(global("used"))),
        (at(3), Token::LabelDef(global("twice"))),
        (at(4), Token::XXX(1)),
        (at(5), Token::LabelDef(global("twice"))),
    ];
    let mut errors = vec![];
    report_unused_labels(&tokens, &mut errors);
    let unused = token_to_mnemonic(Token::LabelRef(global("unused"))).0;
    let twice = token_to_mnemonic(Token::LabelRef(global("twice"))).0;
    assert_eq!(
        messages(&errors),
        vec![
            format!("Unused label definition `{}`", unused),
            format!("Unused label definition `{}`", twice)
        ]
    );
    assert_eq!(errors[0].0, at(1));
    assert_eq!(errors[1].0, at(5));
}
