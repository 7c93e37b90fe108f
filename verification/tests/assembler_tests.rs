use atto8::assembler::{
    codegen, codegen_push_immediate, mnemonize, resolve_node_value, tokenize, Node,
};
use atto8::common::{Imm, Instruction, Nimm, Size, MEM_SIZE};
use atto8::token::{Error, File, Label, Mnemonic, Pos, Token};

fn pos(row: usize, col: usize) -> Pos {
    Pos(File("test.asm".to_string()), row, col)
}

fn global(name: &str) -> Label {
    Label::Global(name.to_string())
}

#[test]
fn nodes_evaluate() {
    let defs = vec![(global("a"), 0x10u8), (global("b"), 0x03u8)];
    let node = Node::Sub(Box::new(Node::LabelRef(global("b"))), Box::new(Node::LabelRef(global("a"))));
    assert_eq!(resolve_node_value(&node, &defs), Ok(0x0D));
    let node = Node::Add(Box::new(Node::Value(0xFF)), Box::new(Node::Value(0x02)));
    assert_eq!(resolve_node_value(&node, &defs), Ok(0x01));
    let node = Node::Rot(Box::new(Node::Value(9)), Box::new(Node::Value(0x81)));
    assert_eq!(resolve_node_value(&node, &defs), Ok(0x03));
    let node = Node::Not(Box::new(Node::Shl(Box::new(Node::Value(0x81)))));
    assert_eq!(resolve_node_value(&node, &defs), Ok(0xFD));
    let node = Node::Xnd(Box::new(Node::LabelRef(global("missing"))), Box::new(Node::Value(1)));
    assert_eq!(resolve_node_value(&node, &defs), Ok(0));
}

#[test]
fn unresolved_label_is_reported_in_evaluation_order() {
    let defs = vec![(global("a"), 1u8)];
    let node = Node::Add(
        Box::new(Node::LabelRef(global("first"))),
        Box::new(Node::LabelRef(global("second"))),
    );
    assert_eq!(resolve_node_value(&node, &defs), Err(global("second")));
}

#[test]
fn immediates_push_with_fewest_instructions() {
    let p = pos(0, 0);
    let instructions = |v: u8| -> Vec<Instruction> {
        codegen_push_immediate(v, &p).into_iter().map(|(_, i)| i).collect()
    };
    assert_eq!(instructions(0x05), vec![Instruction::Psh(Imm(0x05))]);
    assert_eq!(instructions(0xF5), vec![Instruction::Phn(Nimm(0xF5))]);
    assert_eq!(instructions(0x80), vec![Instruction::Psh(Imm(0x7F)), Instruction::Inc]);
    assert_eq!(instructions(0x85), vec![Instruction::Psh(Imm(0x7B)), Instruction::Neg]);
}

#[test]
fn codegen_pads_to_memory_size() {
    let mut errors: Vec<(Pos, Error)> = vec![];
    let opcodes = codegen(
        vec![(pos(0, 0), Ok(Instruction::Add(Size(1)))), (pos(0, 4), Err(0x42))],
        &mut errors,
    );
    assert!(errors.is_empty());
    assert_eq!(opcodes.len(), MEM_SIZE);
    assert_eq!(opcodes[0].1, 0x80);
    assert_eq!(opcodes[1].1, 0x42);
    assert_eq!(opcodes[2], (Pos(File("[codegen]".to_string()), 0, 0), 0x00));
}

#[test]
fn codegen_reports_oversized_programs() {
    let mut errors: Vec<(Pos, Error)> = vec![];
    let program: Vec<(Pos, Result<Instruction, u8>)> =
        (0..0x101).map(|i| (pos(i, 0), Ok(Instruction::Nop))).collect();
    let opcodes = codegen(program, &mut errors);
    assert_eq!(opcodes.len(), 0x101);
    assert_eq!(
        errors,
        vec![(
            pos(0x100, 0),
            Error("Program size 101 exceeds available memory of size 100".to_string())
        )]
    );
}

#[test]
fn mnemonize_splits_at_whitespace() {
    let mut errors: Vec<(Pos, Error)> = vec![];
    let lines = vec![(pos(0, 0), "  add  x01\tpop".to_string()), (pos(1, 0), "".to_string())];
    let mnemonics = mnemonize(lines, &mut errors);
    assert_eq!(
        mnemonics,
        vec![
            (pos(0, 2), Mnemonic("add".to_string())),
            (pos(0, 7), Mnemonic("x01".to_string())),
            (pos(0, 11), Mnemonic("pop".to_string())),
        ]
    );
}

#[test]
fn tokenize_reports_invalid_mnemonics() {
    let mut errors: Vec<(Pos, Error)> = vec![];
    let tokens = tokenize(
        vec![(pos(0, 0), Mnemonic("inc".to_string())), (pos(0, 4), Mnemonic("bad".to_string()))],
        &mut errors,
    );
    assert_eq!(tokens, vec![(pos(0, 0), Token::Inc), (pos(0, 4), Token::Nop)]);
    assert_eq!(errors, vec![(pos(0, 4), Error("Invalid mnemonic `bad`".to_string()))]);
}
