use atto8::assembler::Node;
use atto8::common::{Imm, Instruction, Size};
use atto8::expansion::Root;
use atto8::peephole::{directive_pass, no_op_pass, op_type, pad_pass, OpType};
use atto8::token::{File, Label, Pos};

fn pos(col: usize) -> Pos {
    Pos(File("p.asm".to_string()), 1, col)
}

#[test]
fn stack_effects_of_roots() {
    assert_eq!(op_type(&Root::Instruction(Instruction::Psh(Imm(0x05)))), OpType::PushOp);
    assert_eq!(op_type(&Root::Instruction(Instruction::Add(Size(1)))), OpType::BinaryOp);
    assert_eq!(op_type(&Root::Instruction(Instruction::Add(Size(2)))), OpType::Impure);
    assert_eq!(op_type(&Root::Instruction(Instruction::Swp(Size(1)))), OpType::DualOp);
    assert_eq!(op_type(&Root::Instruction(Instruction::Lda)), OpType::UnaryOp);
    assert_eq!(op_type(&Root::Instruction(Instruction::Pop)), OpType::PopOp);
    assert_eq!(op_type(&Root::Instruction(Instruction::Buf)), OpType::NoOp);
    assert_eq!(op_type(&Root::Instruction(Instruction::Sta)), OpType::Impure);
    assert_eq!(op_type(&Root::Node(Node::Value(0x01))), OpType::PushOp);
    assert_eq!(op_type(&Root::Const), OpType::Impure);
}

#[test]
fn carry_instructions_and_dyn_stay_impure() {
    assert_eq!(op_type(&Root::Instruction(Instruction::Clc)), OpType::Impure);
    assert_eq!(op_type(&Root::Instruction(Instruction::Sec)), OpType::Impure);
    assert_eq!(op_type(&Root::Instruction(Instruction::Flc)), OpType::Impure);
    assert_eq!(op_type(&Root::Dyn(Some(Instruction::Inc))), OpType::Impure);
    assert_eq!(op_type(&Root::Dyn(None)), OpType::Impure);
}

#[test]
fn directives_receive_their_arguments() {
    let out = directive_pass(vec![
        (pos(0), Root::Node(Node::Value(0x12))),
        (pos(1), Root::Dyn(None)),
        (pos(2), Root::Instruction(Instruction::Clc)),
        (pos(3), Root::Dyn(None)),
        (pos(4), Root::Node(Node::Value(0x40))),
        (pos(5), Root::Org(None)),
        (pos(6), Root::Node(Node::Value(0x07))),
        (pos(7), Root::Const),
        (pos(8), Root::Node(Node::Value(0x09))),
        (pos(9), Root::Data(None)),
    ]);
    assert_eq!(out.len(), 5);
    assert!(matches!(out[0], (Pos(_, 1, 0), Root::Dyn(Some(Instruction::Psh(Imm(0x12)))))));
    assert!(matches!(out[1], (Pos(_, 1, 2), Root::Dyn(Some(Instruction::Clc)))));
    assert!(matches!(out[2], (Pos(_, 1, 4), Root::Org(Some(Node::Value(0x40))))));
    assert!(matches!(out[3], (Pos(_, 1, 6), Root::Node(Node::Value(0x07)))));
    assert!(matches!(out[4], (Pos(_, 1, 8), Root::Data(Some(Node::Value(0x09))))));
}

#[test]
fn a_value_that_is_no_push_stays_before_dyn() {
    let out = directive_pass(vec![
        (pos(0), Root::Node(Node::Value(0x80))),
        (pos(1), Root::Dyn(None)),
        (pos(2), Root::Dyn(Some(Instruction::Inc))),
        (pos(3), Root::Dyn(None)),
    ]);
    assert_eq!(out.len(), 3);
    assert!(matches!(out[0], (_, Root::Node(Node::Value(0x80)))));
    assert!(matches!(out[1], (_, Root::Dyn(None))));
    assert!(matches!(out[2], (Pos(_, 1, 2), Root::Dyn(Some(Instruction::Inc)))));
}

#[test]
fn padding_moves_labels_around_directives() {
    let out = pad_pass(vec![
        (pos(0), Root::Node(Node::Value(0x10))),
        (pos(1), Root::LabelDefs(vec![Label::Global("here".to_string())])),
        (pos(2), Root::Org(None)),
        (pos(3), Root::Node(Node::Value(0x20))),
        (pos(4), Root::LabelDefs(vec![Label::Global("there".to_string())])),
        (pos(5), Root::Data(None)),
    ]);
    assert_eq!(out.len(), 6);
    assert!(matches!(&out[0], (Pos(_, 1, 0), Root::LabelDefs(ls)) if ls.len() == 1));
    assert!(matches!(out[1], (Pos(_, 1, 0), Root::Node(Node::Value(0x10)))));
    assert!(matches!(out[2], (Pos(_, 1, 0), Root::Org(None))));
    assert!(matches!(out[3], (Pos(_, 1, 3), Root::Node(Node::Value(0x20)))));
    assert!(matches!(out[4], (Pos(_, 1, 3), Root::Data(None))));
    assert!(matches!(&out[5], (Pos(_, 1, 3), Root::LabelDefs(_))));
}

#[test]
fn roots_that_do_nothing_are_dropped() {
    let out = no_op_pass(vec![
        (pos(0), Root::Instruction(Instruction::Nop)),
        (pos(1), Root::Instruction(Instruction::Inc)),
        (pos(2), Root::Instruction(Instruction::Buf)),
        (pos(3), Root::Instruction(Instruction::Clc)),
    ]);
    assert_eq!(out.len(), 2);
    assert!(matches!(out[0], (Pos(_, 1, 1), Root::Instruction(Instruction::Inc))));
    assert!(matches!(out[1], (Pos(_, 1, 3), Root::Instruction(Instruction::Clc))));
}
