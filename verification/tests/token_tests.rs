use atto8::common::{Imm, Instruction, Nimm, Ofst, Size};
use atto8::token::{
    instruction_to_token, mnemonic_to_token, token_to_mnemonic, Label, Macro, Mnemonic, Token,
};

fn mnemonic(s: &str) -> Mnemonic {
    Mnemonic(s.to_string())
}

fn spell(t: Token) -> String {
    token_to_mnemonic(t).0
}

#[test]
fn tokens_spell_as_mnemonics() {
    assert_eq!(spell(Token::Add), "add");
    assert_eq!(spell(Token::AtError), "@error");
    assert_eq!(spell(Token::AdS(Size(2))), "ad2");
    assert_eq!(spell(Token::LdO(Ofst(0xA))), "ldA");
    assert_eq!(spell(Token::AtDD(0xBB)), "@BB");
    assert_eq!(spell(Token::XXX(0x05)), "x05");
    assert_eq!(spell(Token::LabelDef(Label::Global("main".to_string()))), "main:");
    assert_eq!(spell(Token::LabelRef(Label::Global("main".to_string()))), ":main");
    assert_eq!(spell(Token::LabelDef(Label::Local("loop".to_string(), None))), "loop.");
    assert_eq!(spell(Token::LabelRef(Label::Local("loop".to_string(), None))), ".loop");
    assert_eq!(spell(Token::LabelDef(Label::Local("loop".to_string(), Some(12)))), "loop.12.");
    assert_eq!(spell(Token::LabelRef(Label::Local("loop".to_string(), Some(0)))), ".loop.0");
    assert_eq!(spell(Token::MacroDef(Macro("jmp".to_string()))), "jmp!");
    assert_eq!(spell(Token::MacroRef(Macro("jmp".to_string()))), "!jmp");
}

#[test]
fn mnemonics_read_as_tokens() {
    assert_eq!(mnemonic_to_token(mnemonic("pop")), Some(Token::Pop));
    assert_eq!(mnemonic_to_token(mnemonic("@dyn")), Some(Token::AtDyn));
    assert_eq!(mnemonic_to_token(mnemonic("x7F")), Some(Token::XXX(0x7F)));
    assert_eq!(mnemonic_to_token(mnemonic("@BB")), Some(Token::AtDD(0xBB)));
    assert_eq!(mnemonic_to_token(mnemonic("xo4")), Some(Token::XoS(Size(4))));
    assert_eq!(mnemonic_to_token(mnemonic("stF")), Some(Token::StO(Ofst(0xF))));
    assert_eq!(
        mnemonic_to_token(mnemonic("main:")),
        Some(Token::LabelDef(Label::Global("main".to_string())))
    );
    assert_eq!(
        mnemonic_to_token(mnemonic(".end")),
        Some(Token::LabelRef(Label::Local("end".to_string(), None)))
    );
    assert_eq!(
        mnemonic_to_token(mnemonic("!call")),
        Some(Token::MacroRef(Macro("call".to_string())))
    );
}

#[test]
fn hex_operands_follow_from_str_radix() {
    // a leading `+` is accepted, lowercase digits are not
    assert_eq!(mnemonic_to_token(mnemonic("x+F")), Some(Token::XXX(0x0F)));
    assert_eq!(mnemonic_to_token(mnemonic("xff")), None);
    assert_eq!(mnemonic_to_token(mnemonic("x+")), None);
}

#[test]
fn invalid_mnemonics_read_as_nothing() {
    assert_eq!(mnemonic_to_token(mnemonic("ad3")), None);
    assert_eq!(mnemonic_to_token(mnemonic("ld10")), None);
    assert_eq!(mnemonic_to_token(mnemonic("hello")), None);
    assert_eq!(mnemonic_to_token(mnemonic("ab")), None);
    assert_eq!(mnemonic_to_token(mnemonic("xoG")), None);
}

#[test]
fn spellable_tokens_read_back() {
    let tokens = vec![
        Token::AtConst,
        Token::Xnd,
        Token::Sts,
        Token::AdS(Size(8)),
        Token::SuS(Size(1)),
        Token::StO(Ofst(0)),
        Token::AtDD(0x00),
        Token::XXX(0xFF),
        Token::LabelDef(Label::Global(String::new())),
        Token::LabelDef(Label::Local("a.b".to_string(), None)),
        Token::LabelRef(Label::Global("x".to_string())),
        Token::MacroDef(Macro(String::new())),
        Token::MacroRef(Macro("m".to_string())),
    ];
    for t in tokens {
        assert_eq!(mnemonic_to_token(token_to_mnemonic(t.clone())), Some(t));
    }
}

#[test]
fn scoped_local_labels_do_not_read_back() {
    let t = Token::LabelDef(Label::Local("loop".to_string(), Some(3)));
    assert_eq!(
        mnemonic_to_token(token_to_mnemonic(t)),
        Some(Token::LabelDef(Label::Local("loop.3".to_string(), None)))
    );
}

#[test]
fn instructions_write_as_tokens() {
    assert_eq!(instruction_to_token(Ok(Instruction::Psh(Imm(0x12)))), Token::XXX(0x12));
    assert_eq!(instruction_to_token(Ok(Instruction::Add(Size(1)))), Token::Add);
    assert_eq!(instruction_to_token(Ok(Instruction::Add(Size(2)))), Token::AdS(Size(2)));
    assert_eq!(instruction_to_token(Ok(Instruction::Dbg)), Token::AtDD(0xBB));
    assert_eq!(instruction_to_token(Ok(Instruction::Phn(Nimm(0xF3)))), Token::XXX(0xF3));
    assert_eq!(instruction_to_token(Err(0xB3)), Token::AtDD(0xB3));
}
