use atto8::assembler::Node;
use atto8::common::{Instruction, Size};
use atto8::expansion::{collect_macros, expand_macros, tokens_to_roots, Root};
use atto8::token::{Error, File, Label, Macro, Pos, Token};

fn at(col: usize) -> Pos {
    Pos(File("f.asm".to_string()), 0, col)
}

fn name(s: &str) -> Macro {
    Macro(s.to_string())
}

fn local(s: &str, scope: Option<usize>) -> Label {
    Label::Local(s.to_string(), scope)
}

#[test]
fn macros_collect_their_bodies() {
    let tokens = vec![
        (at(0), Token::XXX(0x01)),
        (at(1), Token::MacroDef(name("a"))),
        (at(2), Token::Nop),
        (at(3), Token::MacroDef(name("b"))),
        (at(4), Token::Inc),
        (at(5), Token::MacroDef(name("a"))),
        (at(6), Token::Dec),
    ];
    let mut errors = vec![];
    let defs = collect_macros(&tokens, &mut errors);
    assert_eq!(
        defs,
        vec![
            (name("a"), vec![(at(2), Token::Nop), (at(6), Token::Dec)]),
            (name("b"), vec![(at(4), Token::Inc)]),
        ]
    );
    assert_eq!(
        errors,
        vec![
            (at(0), Error("Orphan token `x01` encountered".to_string())),
            (at(5), Error("Duplicate macro definition `!a`".to_string())),
        ]
    );
}

#[test]
fn macros_expand_with_scoped_local_labels() {
    let defs = vec![
        (
            name("main"),
            vec![
                (at(0), Token::MacroRef(name("b"))),
                (at(1), Token::LabelDef(local("l", None))),
                (at(2), Token::MacroRef(name("b"))),
            ],
        ),
        (
            name("b"),
            vec![
                (at(3), Token::LabelDef(local("l", None))),
                (at(4), Token::Inc),
                (at(5), Token::MacroRef(name("main"))),
                (at(6), Token::MacroRef(name("zzz"))),
                (at(7), Token::AtError),
            ],
        ),
    ];
    let mut uid = 0;
    let mut parents = vec![];
    let mut errors = vec![];
    let entry = vec![(at(9), Token::MacroRef(name("main")))];
    let out = expand_macros(&entry, &mut uid, &mut parents, &defs, &mut errors);
    assert_eq!(
        out,
        vec![
            (at(3), Token::LabelDef(local("l", Some(1)))),
            (at(4), Token::Inc),
            (at(1), Token::LabelDef(local("l", Some(0)))),
            (at(3), Token::LabelDef(local("l", Some(3)))),
            (at(4), Token::Inc),
        ]
    );
    assert_eq!(uid, 5);
    assert!(parents.is_empty());
    let self_reference = "Macro self-reference `!main` -> `!b` -> `!main`".to_string();
    let undefined = "Reference to undefined macro `!zzz`".to_string();
    let directive = "`@error` directive encountered".to_string();
    assert_eq!(
        errors,
        vec![
            (at(5), Error(self_reference.clone())),
            (at(6), Error(undefined.clone())),
            (at(7), Error(directive.clone())),
            (at(5), Error(self_reference)),
            (at(6), Error(undefined)),
            (at(7), Error(directive)),
        ]
    );
}

#[test]
fn tokens_become_their_roots() {
    let tokens = vec![
        (at(0), Token::AtDD(0xBB)),
        (at(1), Token::AtDD(5)),
        (at(2), Token::Add),
        (at(3), Token::LabelDef(local("x", Some(2)))),
        (at(4), Token::XXX(0x42)),
    ];
    let roots = tokens_to_roots(&tokens);
    assert_eq!(roots.len(), 5);
    assert!(matches!(roots[0].1, Root::Instruction(Instruction::Dbg)));
    assert!(matches!(roots[1].1, Root::Data(Some(Node::Value(5)))));
    assert!(matches!(roots[2].1, Root::Instruction(Instruction::Add(Size(1)))));
    match &roots[3].1 {
        Root::LabelDefs(labels) => assert_eq!(labels, &vec![local("x", Some(2))]),
        _ => panic!("expected label definitions"),
    }
    assert!(matches!(roots[4].1, Root::Node(Node::Value(0x42))));
    assert_eq!(roots[3].0, at(3));
}
