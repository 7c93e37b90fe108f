//! Assembly tokens, their mnemonics, and the conversion between them.

use vstd::prelude::*;
use crate::common::{Imm, Instruction, Nimm, Ofst, Size, spec_ofst_valid, spec_size_valid};
use crate::text::{
    chars_eq_str, push_chars, push_decimal, push_hex2, push_hex_min, push_str, spec_decimal,
    spec_hex2, spec_hex_digit, spec_hex_min, spec_hex_value, string_chars, string_from_chars, sub_chars,
};

verus! {

/// A source file path.
#[derive(Clone, Debug, PartialEq, Eq)]
pub struct File(pub String);

/// A label: local to the enclosing global label (with the uid of the macro expansion it belongs
/// to, if any), or global.
#[derive(Clone, Debug, PartialEq, Eq)]
pub enum Label {
    Local(String, Option<usize>),
    Global(String),
}

/// A macro name.
#[derive(Clone, Debug, PartialEq, Eq)]
pub struct Macro(pub String);

/// An error message.
#[derive(Clone, Debug, PartialEq, Eq)]
pub struct Error(pub String);

/// A position in a source file: file, row and column, counted from zero.
#[derive(Clone, Debug, PartialEq, Eq)]
pub struct Pos(pub File, pub usize, pub usize);

/// A whitespace-separated word of assembly source.
#[derive(Clone, Debug, PartialEq, Eq)]
pub struct Mnemonic(pub String);

/// An assembly token.
#[derive(Clone, Debug, PartialEq, Eq)]
pub enum Token {
    LabelDef(Label),
    LabelRef(Label),
    MacroDef(Macro),
    MacroRef(Macro),
    AtError,
    AtConst,
    AtData,
    AtDyn,
    AtOrg,
    AtDD(u8),
    XXX(u8),
    Add,
    AdS(Size),
    Sub,
    SuS(Size),
    Iff,
    IfS(Size),
    Swp,
    SwS(Size),
    Rot,
    RoS(Size),
    Orr,
    OrS(Size),
    And,
    AnS(Size),
    Xor,
    XoS(Size),
    Xnd,
    XnS(Size),
    Inc,
    Dec,
    Neg,
    Shl,
    Shr,
    Not,
    Buf,
    LdO(Ofst),
    StO(Ofst),
    Lda,
    Sta,
    Ldi,
    Sti,
    Lds,
    Sts,
    Clc,
    Sec,
    Flc,
    Nop,
    Pop,
}

/// A label with its name taken as characters.
pub enum LabelView {
    Local(Seq<char>, Option<usize>),
    Global(Seq<char>),
}

/// A token with its names taken as characters; a token without a name is itself.
pub enum TokenView {
    LabelDef(LabelView),
    LabelRef(LabelView),
    MacroDef(Seq<char>),
    MacroRef(Seq<char>),
    Plain(Token),
}

impl View for Label {
    type V = LabelView;

    open spec fn view(&self) -> LabelView {
        match self {
            Label::Local(id, uid) => LabelView::Local(id@, *uid),
            Label::Global(id) => LabelView::Global(id@),
        }
    }
}

impl View for Token {
    type V = TokenView;

    open spec fn view(&self) -> TokenView {
        match self {
            Token::LabelDef(l) => TokenView::LabelDef(l@),
            Token::LabelRef(l) => TokenView::LabelRef(l@),
            Token::MacroDef(m) => TokenView::MacroDef(m.0@),
            Token::MacroRef(m) => TokenView::MacroRef(m.0@),
            _ => TokenView::Plain(*self),
        }
    }
}

/// The view of an optional token.
pub open spec fn spec_option_token_view(t: Option<Token>) -> Option<TokenView> {
    match t {
        Some(t) => Some(t@),
        None => None,
    }
}

/// The mnemonic of a token without a name.
pub open spec fn spec_plain_mnemonic(t: Token) -> Seq<char> {
    match t {
        Token::AtError => "@error"@,
        Token::AtConst => "@const"@,
        Token::AtData => "@data"@,
        Token::AtDyn => "@dyn"@,
        Token::AtOrg => "@org"@,
        Token::Add => "add"@,
        Token::Sub => "sub"@,
        Token::Iff => "iff"@,
        Token::Swp => "swp"@,
        Token::Rot => "rot"@,
        Token::Orr => "orr"@,
        Token::And => "and"@,
        Token::Xor => "xor"@,
        Token::Xnd => "xnd"@,
        Token::Inc => "inc"@,
        Token::Dec => "dec"@,
        Token::Neg => "neg"@,
        Token::Shl => "shl"@,
        Token::Shr => "shr"@,
        Token::Not => "not"@,
        Token::Buf => "buf"@,
        Token::Lda => "lda"@,
        Token::Sta => "sta"@,
        Token::Ldi => "ldi"@,
        Token::Sti => "sti"@,
        Token::Lds => "lds"@,
        Token::Sts => "sts"@,
        Token::Clc => "clc"@,
        Token::Sec => "sec"@,
        Token::Flc => "flc"@,
        Token::Nop => "nop"@,
        Token::Pop => "pop"@,
        Token::AtDD(v) => seq!['@'] + spec_hex2(v),
        Token::XXX(v) => seq!['x'] + spec_hex2(v),
        Token::AdS(x) => "ad"@ + spec_hex_min(x.0),
        Token::SuS(x) => "su"@ + spec_hex_min(x.0),
        Token::IfS(x) => "if"@ + spec_hex_min(x.0),
        Token::SwS(x) => "sw"@ + spec_hex_min(x.0),
        Token::RoS(x) => "ro"@ + spec_hex_min(x.0),
        Token::OrS(x) => "or"@ + spec_hex_min(x.0),
        Token::AnS(x) => "an"@ + spec_hex_min(x.0),
        Token::XoS(x) => "xo"@ + spec_hex_min(x.0),
        Token::XnS(x) => "xn"@ + spec_hex_min(x.0),
        Token::LdO(x) => "ld"@ + spec_hex_min(x.0),
        Token::StO(x) => "st"@ + spec_hex_min(x.0),
        _ => Seq::empty(),
    }
}

/// The mnemonic of a token.
pub open spec fn spec_token_mnemonic(t: TokenView) -> Seq<char> {
    match t {
        TokenView::LabelDef(LabelView::Local(id, Some(uid))) => id.push('.') + spec_decimal(
            uid as nat,
        ).push('.'),
        TokenView::LabelDef(LabelView::Local(id, None)) => id.push('.'),
        TokenView::LabelDef(LabelView::Global(id)) => id.push(':'),
        TokenView::LabelRef(LabelView::Local(id, Some(uid))) => seq!['.'] + id + seq!['.']
            + spec_decimal(uid as nat),
        TokenView::LabelRef(LabelView::Local(id, None)) => seq!['.'] + id,
        TokenView::LabelRef(LabelView::Global(id)) => seq![':'] + id,
        TokenView::MacroDef(m) => m.push('!'),
        TokenView::MacroRef(m) => seq!['!'] + m,
        TokenView::Plain(t) => spec_plain_mnemonic(t),
    }
}

/// The directive reserved word that `m` is, if any.
pub open spec fn spec_directive_word(m: Seq<char>) -> Option<Token> {
    if m == "@error"@ {
        Some(Token::AtError)
    } else if m == "@const"@ {
        Some(Token::AtConst)
    } else if m == "@data"@ {
        Some(Token::AtData)
    } else if m == "@dyn"@ {
        Some(Token::AtDyn)
    } else if m == "@org"@ {
        Some(Token::AtOrg)
    } else {
        None
    }
}

/// The alu reserved word that `m` is, if any.
pub open spec fn spec_alu_word(m: Seq<char>) -> Option<Token> {
    if m == "add"@ {
        Some(Token::Add)
    } else if m == "sub"@ {
        Some(Token::Sub)
    } else if m == "iff"@ {
        Some(Token::Iff)
    } else if m == "swp"@ {
        Some(Token::Swp)
    } else if m == "rot"@ {
        Some(Token::Rot)
    } else if m == "orr"@ {
        Some(Token::Orr)
    } else if m == "and"@ {
        Some(Token::And)
    } else if m == "xor"@ {
        Some(Token::Xor)
    } else if m == "xnd"@ {
        Some(Token::Xnd)
    } else {
        None
    }
}

/// The unary reserved word that `m` is, if any.
pub open spec fn spec_unary_word(m: Seq<char>) -> Option<Token> {
    if m == "inc"@ {
        Some(Token::Inc)
    } else if m == "dec"@ {
        Some(Token::Dec)
    } else if m == "neg"@ {
        Some(Token::Neg)
    } else if m == "shl"@ {
        Some(Token::Shl)
    } else if m == "shr"@ {
        Some(Token::Shr)
    } else if m == "not"@ {
        Some(Token::Not)
    } else if m == "buf"@ {
        Some(Token::Buf)
    } else {
        None
    }
}

/// The memory reserved word that `m` is, if any.
pub open spec fn spec_memory_word(m: Seq<char>) -> Option<Token> {
    if m == "lda"@ {
        Some(Token::Lda)
    } else if m == "sta"@ {
        Some(Token::Sta)
    } else if m == "ldi"@ {
        Some(Token::Ldi)
    } else if m == "sti"@ {
        Some(Token::Sti)
    } else if m == "lds"@ {
        Some(Token::Lds)
    } else if m == "sts"@ {
        Some(Token::Sts)
    } else if m == "clc"@ {
        Some(Token::Clc)
    } else if m == "sec"@ {
        Some(Token::Sec)
    } else if m == "flc"@ {
        Some(Token::Flc)
    } else if m == "nop"@ {
        Some(Token::Nop)
    } else if m == "pop"@ {
        Some(Token::Pop)
    } else {
        None
    }
}

/// The token spelled by a reserved word, if `m` is one.
pub open spec fn spec_word_token(m: Seq<char>) -> Option<Token> {
    match spec_directive_word(m) {
        Some(t) => Some(t),
        None => match spec_alu_word(m) {
            Some(t) => Some(t),
            None => match spec_unary_word(m) {
                Some(t) => Some(t),
                None => spec_memory_word(m),
            },
        },
    }
}

/// The value of a hexadecimal literal as `u8::from_str_radix` reads one or two uppercase digits,
/// where a leading `+` is accepted.
pub open spec fn spec_parse_hex(h: Seq<char>) -> Option<u8> {
    if h.len() == 1 {
        spec_hex_value(h[0])
    } else if h.len() == 2 {
        if h[0] == '+' {
            spec_hex_value(h[1])
        } else {
            match (spec_hex_value(h[0]), spec_hex_value(h[1])) {
                (Some(a), Some(b)) => Some((16 * a + b) as u8),
                _ => None,
            }
        }
    } else {
        None
    }
}

/// The size written by a hexadecimal literal, if it is one.
pub open spec fn spec_parse_size(h: Seq<char>) -> Option<Size> {
    match spec_parse_hex(h) {
        Some(v) => if spec_size_valid(v) {
            Some(Size(v))
        } else {
            None
        },
        None => None,
    }
}

/// The offset written by a hexadecimal literal, if it is one.
pub open spec fn spec_parse_ofst(h: Seq<char>) -> Option<Ofst> {
    match spec_parse_hex(h) {
        Some(v) => if spec_ofst_valid(v) {
            Some(Ofst(v))
        } else {
            None
        },
        None => None,
    }
}

/// The token of a three-character mnemonic with an operand: a two-letter operation and a digit,
/// or `@` or `x` and two digits.
pub open spec fn spec_operand_token(m: Seq<char>) -> Option<Token> {
    let p = m.subrange(0, 2);
    let h = m.subrange(2, 3);
    if p == "ad"@ {
        match spec_parse_size(h) {
            Some(s) => Some(Token::AdS(s)),
            None => None,
        }
    } else if p == "su"@ {
        match spec_parse_size(h) {
            Some(s) => Some(Token::SuS(s)),
            None => None,
        }
    } else if p == "if"@ {
        match spec_parse_size(h) {
            Some(s) => Some(Token::IfS(s)),
            None => None,
        }
    } else if p == "sw"@ {
        match spec_parse_size(h) {
            Some(s) => Some(Token::SwS(s)),
            None => None,
        }
    } else if p == "ro"@ {
        match spec_parse_size(h) {
            Some(s) => Some(Token::RoS(s)),
            None => None,
        }
    } else if p == "or"@ {
        match spec_parse_size(h) {
            Some(s) => Some(Token::OrS(s)),
            None => None,
        }
    } else if p == "an"@ {
        match spec_parse_size(h) {
            Some(s) => Some(Token::AnS(s)),
            None => None,
        }
    } else if p == "xo"@ {
        match spec_parse_size(h) {
            Some(s) => Some(Token::XoS(s)),
            None => None,
        }
    } else if p == "xn"@ {
        match spec_parse_size(h) {
            Some(s) => Some(Token::XnS(s)),
            None => None,
        }
    } else if p == "ld"@ {
        match spec_parse_ofst(h) {
            Some(o) => Some(Token::LdO(o)),
            None => None,
        }
    } else if p == "st"@ {
        match spec_parse_ofst(h) {
            Some(o) => Some(Token::StO(o)),
            None => None,
        }
    } else if m[0] == '@' {
        match spec_parse_hex(m.subrange(1, 3)) {
            Some(v) => Some(Token::AtDD(v)),
            None => None,
        }
    } else if m[0] == 'x' {
        match spec_parse_hex(m.subrange(1, 3)) {
            Some(v) => Some(Token::XXX(v)),
            None => None,
        }
    } else {
        None
    }
}

/// Whether every character is ASCII.
pub open spec fn spec_all_ascii(m: Seq<char>) -> bool {
    forall|i: int| 0 <= i < m.len() ==> (m[i] as int) < 0x80
}

/// The number of bytes of a character in UTF-8.
pub open spec fn spec_char_utf8_len(c: char) -> nat {
    if (c as int) < 0x80 {
        1
    } else if (c as int) < 0x800 {
        2
    } else if (c as int) < 0x10000 {
        3
    } else {
        4
    }
}

/// The number of bytes of a character sequence in UTF-8.
pub open spec fn spec_utf8_len(m: Seq<char>) -> nat
    decreases m.len(),
{
    if m.len() == 0 {
        0
    } else {
        spec_utf8_len(m.drop_last()) + spec_char_utf8_len(m.last())
    }
}

/// Whether a mnemonic ends or begins with the sigil `c`.
pub open spec fn spec_ends_with(m: Seq<char>, c: char) -> bool {
    m.len() > 0 && m.last() == c
}

pub open spec fn spec_starts_with(m: Seq<char>, c: char) -> bool {
    m.len() > 0 && m[0] == c
}

/// Whether a mnemonic is a label or macro definition or reference.
pub open spec fn spec_has_sigil(m: Seq<char>) -> bool {
    spec_ends_with(m, ':') || spec_starts_with(m, ':') || spec_ends_with(m, '.')
        || spec_starts_with(m, '.') || spec_ends_with(m, '!') || spec_starts_with(m, '!')
}

/// The mnemonics that cannot be read: three bytes long, not ASCII, without a sigil. They would be
/// split inside a character.
pub open spec fn spec_mnemonic_unreadable(m: Seq<char>) -> bool {
    !spec_has_sigil(m) && spec_utf8_len(m) == 3 && !spec_all_ascii(m)
}

/// The token that a mnemonic spells, if any.
pub open spec fn spec_mnemonic_token(m: Seq<char>) -> Option<TokenView> {
    if spec_ends_with(m, ':') {
        Some(TokenView::LabelDef(LabelView::Global(m.drop_last())))
    } else if spec_starts_with(m, ':') {
        Some(TokenView::LabelRef(LabelView::Global(m.drop_first())))
    } else if spec_ends_with(m, '.') {
        Some(TokenView::LabelDef(LabelView::Local(m.drop_last(), None)))
    } else if spec_starts_with(m, '.') {
        Some(TokenView::LabelRef(LabelView::Local(m.drop_first(), None)))
    } else if spec_ends_with(m, '!') {
        Some(TokenView::MacroDef(m.drop_last()))
    } else if spec_starts_with(m, '!') {
        Some(TokenView::MacroRef(m.drop_first()))
    } else {
        match spec_word_token(m) {
            Some(t) => Some(TokenView::Plain(t)),
            None => if m.len() == 3 && spec_all_ascii(m) {
                match spec_operand_token(m) {
                    Some(t) => Some(TokenView::Plain(t)),
                    None => None,
                }
            } else {
                None
            },
        }
    }
}

/// Spells a token as its mnemonic.
pub fn token_to_mnemonic(token: Token) -> (r: Mnemonic)
    ensures
        r.0@ == spec_token_mnemonic(token@),
{
    let mut out: Vec<char> = Vec::new();
    match token {
        Token::LabelDef(Label::Local(identifier, Some(scope_uid))) => {
            out = string_chars(&identifier);
            out.push('.');
            push_decimal(&mut out, scope_uid);
            out.push('.');
        },
        Token::LabelDef(Label::Local(identifier, None)) => {
            out = string_chars(&identifier);
            out.push('.');
        },
        Token::LabelDef(Label::Global(identifier)) => {
            out = string_chars(&identifier);
            out.push(':');
        },
        Token::LabelRef(Label::Local(identifier, Some(scope_uid))) => {
            out.push('.');
            let mut id = string_chars(&identifier);
            out.append(&mut id);
            out.push('.');
            push_decimal(&mut out, scope_uid);
        },
        Token::LabelRef(Label::Local(identifier, None)) => {
            out.push('.');
            let mut id = string_chars(&identifier);
            out.append(&mut id);
        },
        Token::LabelRef(Label::Global(identifier)) => {
            out.push(':');
            let mut id = string_chars(&identifier);
            out.append(&mut id);
        },
        Token::MacroDef(Macro(name)) => {
            out = string_chars(&name);
            out.push('!');
        },
        Token::MacroRef(Macro(name)) => {
            out.push('!');
            let mut id = string_chars(&name);
            out.append(&mut id);
        },
        Token::AtError => push_str(&mut out, "@error"),
        Token::AtConst => push_str(&mut out, "@const"),
        Token::AtData => push_str(&mut out, "@data"),
        Token::AtDyn => push_str(&mut out, "@dyn"),
        Token::AtOrg => push_str(&mut out, "@org"),
        Token::Add => push_str(&mut out, "add"),
        Token::Sub => push_str(&mut out, "sub"),
        Token::Iff => push_str(&mut out, "iff"),
        Token::Swp => push_str(&mut out, "swp"),
        Token::Rot => push_str(&mut out, "rot"),
        Token::Orr => push_str(&mut out, "orr"),
        Token::And => push_str(&mut out, "and"),
        Token::Xor => push_str(&mut out, "xor"),
        Token::Xnd => push_str(&mut out, "xnd"),
        Token::Inc => push_str(&mut out, "inc"),
        Token::Dec => push_str(&mut out, "dec"),
        Token::Neg => push_str(&mut out, "neg"),
        Token::Shl => push_str(&mut out, "shl"),
        Token::Shr => push_str(&mut out, "shr"),
        Token::Not => push_str(&mut out, "not"),
        Token::Buf => push_str(&mut out, "buf"),
        Token::Lda => push_str(&mut out, "lda"),
        Token::Sta => push_str(&mut out, "sta"),
        Token::Ldi => push_str(&mut out, "ldi"),
        Token::Sti => push_str(&mut out, "sti"),
        Token::Lds => push_str(&mut out, "lds"),
        Token::Sts => push_str(&mut out, "sts"),
        Token::Clc => push_str(&mut out, "clc"),
        Token::Sec => push_str(&mut out, "sec"),
        Token::Flc => push_str(&mut out, "flc"),
        Token::Nop => push_str(&mut out, "nop"),
        Token::Pop => push_str(&mut out, "pop"),
        Token::AtDD(value) => {
            out.push('@');
            push_hex2(&mut out, value);
        },
        Token::XXX(value) => {
            out.push('x');
            push_hex2(&mut out, value);
        },
        Token::AdS(x) => {
            push_str(&mut out, "ad");
            push_hex_min(&mut out, x.0);
        },
        Token::SuS(x) => {
            push_str(&mut out, "su");
            push_hex_min(&mut out, x.0);
        },
        Token::IfS(x) => {
            push_str(&mut out, "if");
            push_hex_min(&mut out, x.0);
        },
        Token::SwS(x) => {
            push_str(&mut out, "sw");
            push_hex_min(&mut out, x.0);
        },
        Token::RoS(x) => {
            push_str(&mut out, "ro");
            push_hex_min(&mut out, x.0);
        },
        Token::OrS(x) => {
            push_str(&mut out, "or");
            push_hex_min(&mut out, x.0);
        },
        Token::AnS(x) => {
            push_str(&mut out, "an");
            push_hex_min(&mut out, x.0);
        },
        Token::XoS(x) => {
            push_str(&mut out, "xo");
            push_hex_min(&mut out, x.0);
        },
        Token::XnS(x) => {
            push_str(&mut out, "xn");
            push_hex_min(&mut out, x.0);
        },
        Token::LdO(x) => {
            push_str(&mut out, "ld");
            push_hex_min(&mut out, x.0);
        },
        Token::StO(x) => {
            push_str(&mut out, "st");
            push_hex_min(&mut out, x.0);
        },
    }
    Mnemonic(string_from_chars(&out))
}

fn directive_word(m: &[char]) -> (r: Option<Token>)
    ensures
        r == spec_directive_word(m@),
{
    if chars_eq_str(m, "@error") {
        Some(Token::AtError)
    } else if chars_eq_str(m, "@const") {
        Some(Token::AtConst)
    } else if chars_eq_str(m, "@data") {
        Some(Token::AtData)
    } else if chars_eq_str(m, "@dyn") {
        Some(Token::AtDyn)
    } else if chars_eq_str(m, "@org") {
        Some(Token::AtOrg)
    } else {
        None
    }
}

fn alu_word(m: &[char]) -> (r: Option<Token>)
    ensures
        r == spec_alu_word(m@),
{
    if chars_eq_str(m, "add") {
        Some(Token::Add)
    } else if chars_eq_str(m, "sub") {
        Some(Token::Sub)
    } else if chars_eq_str(m, "iff") {
        Some(Token::Iff)
    } else if chars_eq_str(m, "swp") {
        Some(Token::Swp)
    } else if chars_eq_str(m, "rot") {
        Some(Token::Rot)
    } else if chars_eq_str(m, "orr") {
        Some(Token::Orr)
    } else if chars_eq_str(m, "and") {
        Some(Token::And)
    } else if chars_eq_str(m, "xor") {
        Some(Token::Xor)
    } else if chars_eq_str(m, "xnd") {
        Some(Token::Xnd)
    } else {
        None
    }
}

fn unary_word(m: &[char]) -> (r: Option<Token>)
    ensures
        r == spec_unary_word(m@),
{
    if chars_eq_str(m, "inc") {
        Some(Token::Inc)
    } else if chars_eq_str(m, "dec") {
        Some(Token::Dec)
    } else if chars_eq_str(m, "neg") {
        Some(Token::Neg)
    } else if chars_eq_str(m, "shl") {
        Some(Token::Shl)
    } else if chars_eq_str(m, "shr") {
        Some(Token::Shr)
    } else if chars_eq_str(m, "not") {
        Some(Token::Not)
    } else if chars_eq_str(m, "buf") {
        Some(Token::Buf)
    } else {
        None
    }
}

fn memory_word(m: &[char]) -> (r: Option<Token>)
    ensures
        r == spec_memory_word(m@),
{
    if chars_eq_str(m, "lda") {
        Some(Token::Lda)
    } else if chars_eq_str(m, "sta") {
        Some(Token::Sta)
    } else if chars_eq_str(m, "ldi") {
        Some(Token::Ldi)
    } else if chars_eq_str(m, "sti") {
        Some(Token::Sti)
    } else if chars_eq_str(m, "lds") {
        Some(Token::Lds)
    } else if chars_eq_str(m, "sts") {
        Some(Token::Sts)
    } else if chars_eq_str(m, "clc") {
        Some(Token::Clc)
    } else if chars_eq_str(m, "sec") {
        Some(Token::Sec)
    } else if chars_eq_str(m, "flc") {
        Some(Token::Flc)
    } else if chars_eq_str(m, "nop") {
        Some(Token::Nop)
    } else if chars_eq_str(m, "pop") {
        Some(Token::Pop)
    } else {
        None
    }
}

/// The token spelled by a reserved word, if `m` is one.
fn word_token(m: &[char]) -> (r: Option<Token>)
    ensures
        r == spec_word_token(m@),
{
    match directive_word(m) {
        Some(t) => Some(t),
        None => match alu_word(m) {
            Some(t) => Some(t),
            None => match unary_word(m) {
                Some(t) => Some(t),
                None => memory_word(m),
            },
        },
    }
}

/// The value of an uppercase hexadecimal digit, if `c` is one.
fn hex_value(c: char) -> (r: Option<u8>)
    ensures
        r == spec_hex_value(c),
{
    if '0' <= c && c <= '9' {
        Some((c as u32 - 48) as u8)
    } else if 'A' <= c && c <= 'F' {
        Some((c as u32 - 55) as u8)
    } else {
        None
    }
}

/// Reads a hexadecimal literal of one or two uppercase digits, with an optional leading `+`.
fn parse_hex(h: &[char]) -> (r: Option<u8>)
    ensures
        r == spec_parse_hex(h@),
{
    if h.len() == 1 {
        hex_value(h[0])
    } else if h.len() == 2 {
        if h[0] == '+' {
            hex_value(h[1])
        } else {
            match (hex_value(h[0]), hex_value(h[1])) {
                (Some(a), Some(b)) => Some(16 * a + b),
                _ => None,
            }
        }
    } else {
        None
    }
}

fn parse_size(h: &[char]) -> (r: Option<Size>)
    ensures
        r == spec_parse_size(h@),
{
    match parse_hex(h) {
        Some(v) => Size::new(v),
        None => None,
    }
}

fn parse_ofst(h: &[char]) -> (r: Option<Ofst>)
    ensures
        r == spec_parse_ofst(h@),
{
    match parse_hex(h) {
        Some(v) => Ofst::new(v),
        None => None,
    }
}

/// The token of a three-character mnemonic with an operand.
fn operand_token(m: &[char]) -> (r: Option<Token>)
    requires
        m.len() == 3,
    ensures
        r == spec_operand_token(m@),
{
    let p = sub_chars(m, 0, 2);
    let h = sub_chars(m, 2, 3);
    if chars_eq_str(&p, "ad") {
        match parse_size(&h) {
            Some(s) => Some(Token::AdS(s)),
            None => None,
        }
    } else if chars_eq_str(&p, "su") {
        match parse_size(&h) {
            Some(s) => Some(Token::SuS(s)),
            None => None,
        }
    } else if chars_eq_str(&p, "if") {
        match parse_size(&h) {
            Some(s) => Some(Token::IfS(s)),
            None => None,
        }
    } else if chars_eq_str(&p, "sw") {
        match parse_size(&h) {
            Some(s) => Some(Token::SwS(s)),
            None => None,
        }
    } else if chars_eq_str(&p, "ro") {
        match parse_size(&h) {
            Some(s) => Some(Token::RoS(s)),
            None => None,
        }
    } else if chars_eq_str(&p, "or") {
        match parse_size(&h) {
            Some(s) => Some(Token::OrS(s)),
            None => None,
        }
    } else if chars_eq_str(&p, "an") {
        match parse_size(&h) {
            Some(s) => Some(Token::AnS(s)),
            None => None,
        }
    } else if chars_eq_str(&p, "xo") {
        match parse_size(&h) {
            Some(s) => Some(Token::XoS(s)),
            None => None,
        }
    } else if chars_eq_str(&p, "xn") {
        match parse_size(&h) {
            Some(s) => Some(Token::XnS(s)),
            None => None,
        }
    } else if chars_eq_str(&p, "ld") {
        match parse_ofst(&h) {
            Some(o) => Some(Token::LdO(o)),
            None => None,
        }
    } else if chars_eq_str(&p, "st") {
        match parse_ofst(&h) {
            Some(o) => Some(Token::StO(o)),
            None => None,
        }
    } else if m[0] == '@' {
        match parse_hex(&sub_chars(m, 1, 3)) {
            Some(v) => Some(Token::AtDD(v)),
            None => None,
        }
    } else if m[0] == 'x' {
        match parse_hex(&sub_chars(m, 1, 3)) {
            Some(v) => Some(Token::XXX(v)),
            None => None,
        }
    } else {
        None
    }
}

/// Whether every character is ASCII.
fn all_ascii(m: &[char]) -> (r: bool)
    ensures
        r == spec_all_ascii(m@),
{
    let mut i: usize = 0;
    while i < m.len()
        invariant
            i <= m.len(),
            forall|j: int| 0 <= j < i ==> (m@[j] as int) < 0x80,
        decreases m.len() - i,
    {
        let c = m[i];
        if c >= '\u{80}' {
            return false;
        }
        i = i + 1;
    }
    true
}

/// Reads a mnemonic as a token. A mnemonic of three bytes that is not ASCII and has no sigil is
/// left out: it would be split inside a character.
pub fn mnemonic_to_token(mnemonic: Mnemonic) -> (r: Option<Token>)
    requires
        !spec_mnemonic_unreadable(mnemonic.0@),
    ensures
        spec_option_token_view(r) == spec_mnemonic_token(mnemonic.0@),
{
    let m = string_chars(&mnemonic.0);
    let n = m.len();
    if n > 0 && m[n - 1] == ':' {
        Some(Token::LabelDef(Label::Global(string_from_chars(&sub_chars(&m, 0, n - 1)))))
    } else if n > 0 && m[0] == ':' {
        Some(Token::LabelRef(Label::Global(string_from_chars(&sub_chars(&m, 1, n)))))
    } else if n > 0 && m[n - 1] == '.' {
        Some(Token::LabelDef(Label::Local(string_from_chars(&sub_chars(&m, 0, n - 1)), None)))
    } else if n > 0 && m[0] == '.' {
        Some(Token::LabelRef(Label::Local(string_from_chars(&sub_chars(&m, 1, n)), None)))
    } else if n > 0 && m[n - 1] == '!' {
        Some(Token::MacroDef(Macro(string_from_chars(&sub_chars(&m, 0, n - 1)))))
    } else if n > 0 && m[0] == '!' {
        Some(Token::MacroRef(Macro(string_from_chars(&sub_chars(&m, 1, n)))))
    } else {
        match word_token(&m) {
            Some(t) => Some(t),
            None => if n == 3 && all_ascii(&m) {
                operand_token(&m)
            } else {
                None
            },
        }
    }
}

} // verus!

verus! {

/// Whether a token spells back to itself: its operands lie in their ranges, its labels carry no
/// expansion uid, and no name of it is empty or begins or ends with a sigil where the mnemonic
/// would read otherwise.
pub open spec fn spec_token_spellable(t: TokenView) -> bool {
    match t {
        TokenView::LabelDef(LabelView::Local(id, None)) => !spec_starts_with(id, ':'),
        TokenView::LabelDef(LabelView::Global(_)) => true,
        TokenView::LabelRef(LabelView::Local(id, None)) => id.len() > 0 && id.last() != ':'
            && id.last() != '.',
        TokenView::LabelRef(LabelView::Global(id)) => id.len() > 0 && id.last() != ':',
        TokenView::MacroDef(m) => !spec_starts_with(m, ':') && !spec_starts_with(m, '.'),
        TokenView::MacroRef(m) => m.len() > 0 && m.last() != ':' && m.last() != '.' && m.last()
            != '!',
        TokenView::Plain(t) => spec_plain_spellable(t),
        _ => false,
    }
}

/// Whether a token without a name spells back to itself.
pub open spec fn spec_plain_spellable(t: Token) -> bool {
    match t {
        Token::LabelDef(_) => false,
        Token::LabelRef(_) => false,
        Token::MacroDef(_) => false,
        Token::MacroRef(_) => false,
        Token::AdS(s) => spec_size_valid(s.0),
        Token::SuS(s) => spec_size_valid(s.0),
        Token::IfS(s) => spec_size_valid(s.0),
        Token::SwS(s) => spec_size_valid(s.0),
        Token::RoS(s) => spec_size_valid(s.0),
        Token::OrS(s) => spec_size_valid(s.0),
        Token::AnS(s) => spec_size_valid(s.0),
        Token::XoS(s) => spec_size_valid(s.0),
        Token::XnS(s) => spec_size_valid(s.0),
        Token::LdO(x) => spec_ofst_valid(x.0),
        Token::StO(x) => spec_ofst_valid(x.0),
        _ => true,
    }
}

proof fn lemma_hex_digit(v: int)
    requires
        0 <= v < 16,
    ensures
        spec_hex_value(spec_hex_digit(v)) == Some(v as u8),
        spec_hex_digit(v) != '+',
        ('0' <= spec_hex_digit(v) <= '9') || ('A' <= spec_hex_digit(v) <= 'F'),
{
}

/// Whether a token is spelled by a reserved word.
pub open spec fn spec_is_word_token(t: Token) -> bool {
    match t {
        Token::AtError => true,
        Token::AtConst => true,
        Token::AtData => true,
        Token::AtDyn => true,
        Token::AtOrg => true,
        Token::Add => true,
        Token::Sub => true,
        Token::Iff => true,
        Token::Swp => true,
        Token::Rot => true,
        Token::Orr => true,
        Token::And => true,
        Token::Xor => true,
        Token::Xnd => true,
        Token::Inc => true,
        Token::Dec => true,
        Token::Neg => true,
        Token::Shl => true,
        Token::Shr => true,
        Token::Not => true,
        Token::Buf => true,
        Token::Lda => true,
        Token::Sta => true,
        Token::Ldi => true,
        Token::Sti => true,
        Token::Lds => true,
        Token::Sts => true,
        Token::Clc => true,
        Token::Sec => true,
        Token::Flc => true,
        Token::Nop => true,
        Token::Pop => true,
        _ => false,
    }
}

proof fn lemma_word_spelling(t: Token)
    requires
        spec_is_word_token(t),
    ensures
        spec_word_token(spec_plain_mnemonic(t)) == Some(t),
        !spec_has_sigil(spec_plain_mnemonic(t)),
        spec_all_ascii(spec_plain_mnemonic(t)),
{
    reveal_strlit("@error");
    reveal_strlit("@const");
    reveal_strlit("@data");
    reveal_strlit("@dyn");
    reveal_strlit("@org");
    reveal_strlit("add");
    reveal_strlit("sub");
    reveal_strlit("iff");
    reveal_strlit("swp");
    reveal_strlit("rot");
    reveal_strlit("orr");
    reveal_strlit("and");
    reveal_strlit("xor");
    reveal_strlit("xnd");
    reveal_strlit("inc");
    reveal_strlit("dec");
    reveal_strlit("neg");
    reveal_strlit("shl");
    reveal_strlit("shr");
    reveal_strlit("not");
    reveal_strlit("buf");
    reveal_strlit("lda");
    reveal_strlit("sta");
    reveal_strlit("ldi");
    reveal_strlit("sti");
    reveal_strlit("lds");
    reveal_strlit("sts");
    reveal_strlit("clc");
    reveal_strlit("sec");
    reveal_strlit("flc");
    reveal_strlit("nop");
    reveal_strlit("pop");
    reveal_strlit("ad");
    reveal_strlit("su");
    reveal_strlit("if");
    reveal_strlit("sw");
    reveal_strlit("ro");
    reveal_strlit("or");
    reveal_strlit("an");
    reveal_strlit("xo");
    reveal_strlit("xn");
    reveal_strlit("ld");
    reveal_strlit("st");
    let m = spec_plain_mnemonic(t);
    match t {
        Token::AtError => {
            assert(m == "@error"@);
            assert(m[0] == '@' && m[1] == 'e' && m[2] == 'r' && m[3] == 'r' && m[4] == 'o' && m[5] == 'r');
            assert(spec_directive_word(m) == Some(Token::AtError));
            assert(spec_word_token(m) == Some(Token::AtError));
            assert(t == Token::AtError);
            assert(spec_word_token(spec_plain_mnemonic(t)) == Some(t));
            assert(forall|i: int| 0 <= i < m.len() ==> (m[i] as int) < 0x80);
        },
        Token::AtConst => {
            assert(m == "@const"@);
            assert(m[0] == '@' && m[1] == 'c' && m[2] == 'o' && m[3] == 'n' && m[4] == 's' && m[5] == 't');
            assert(forall|i: int| 0 <= i < m.len() ==> (m[i] as int) < 0x80);
        },
        Token::AtData => {
            assert(m == "@data"@);
            assert(m[0] == '@' && m[1] == 'd' && m[2] == 'a' && m[3] == 't' && m[4] == 'a');
            assert(forall|i: int| 0 <= i < m.len() ==> (m[i] as int) < 0x80);
        },
        Token::AtDyn => {
            assert(m == "@dyn"@);
            assert(m[0] == '@' && m[1] == 'd' && m[2] == 'y' && m[3] == 'n');
            assert(forall|i: int| 0 <= i < m.len() ==> (m[i] as int) < 0x80);
        },
        Token::AtOrg => {
            assert(m == "@org"@);
            assert(m[0] == '@' && m[1] == 'o' && m[2] == 'r' && m[3] == 'g');
            assert(forall|i: int| 0 <= i < m.len() ==> (m[i] as int) < 0x80);
        },
        Token::Add => {
            assert(m == "add"@);
            assert(m[0] == 'a' && m[1] == 'd' && m[2] == 'd');
            assert(forall|i: int| 0 <= i < m.len() ==> (m[i] as int) < 0x80);
        },
        Token::Sub => {
            assert(m == "sub"@);
            assert(m[0] == 's' && m[1] == 'u' && m[2] == 'b');
            assert(forall|i: int| 0 <= i < m.len() ==> (m[i] as int) < 0x80);
        },
        Token::Iff => {
            assert(m == "iff"@);
            assert(m[0] == 'i' && m[1] == 'f' && m[2] == 'f');
            assert(forall|i: int| 0 <= i < m.len() ==> (m[i] as int) < 0x80);
        },
        Token::Swp => {
            assert(m == "swp"@);
            assert(m[0] == 's' && m[1] == 'w' && m[2] == 'p');
            assert(forall|i: int| 0 <= i < m.len() ==> (m[i] as int) < 0x80);
        },
        Token::Rot => {
            assert(m == "rot"@);
            assert(m[0] == 'r' && m[1] == 'o' && m[2] == 't');
            assert(forall|i: int| 0 <= i < m.len() ==> (m[i] as int) < 0x80);
        },
        Token::Orr => {
            assert(m == "orr"@);
            assert(m[0] == 'o' && m[1] == 'r' && m[2] == 'r');
            assert(forall|i: int| 0 <= i < m.len() ==> (m[i] as int) < 0x80);
        },
        Token::And => {
            assert(m == "and"@);
            assert(m[0] == 'a' && m[1] == 'n' && m[2] == 'd');
            assert(forall|i: int| 0 <= i < m.len() ==> (m[i] as int) < 0x80);
        },
        Token::Xor => {
            assert(m == "xor"@);
            assert(m[0] == 'x' && m[1] == 'o' && m[2] == 'r');
            assert(forall|i: int| 0 <= i < m.len() ==> (m[i] as int) < 0x80);
        },
        Token::Xnd => {
            assert(m == "xnd"@);
            assert(m[0] == 'x' && m[1] == 'n' && m[2] == 'd');
            assert(forall|i: int| 0 <= i < m.len() ==> (m[i] as int) < 0x80);
        },
        Token::Inc => {
            assert(m == "inc"@);
            assert(m[0] == 'i' && m[1] == 'n' && m[2] == 'c');
            assert(forall|i: int| 0 <= i < m.len() ==> (m[i] as int) < 0x80);
        },
        Token::Dec => {
            assert(m == "dec"@);
            assert(m[0] == 'd' && m[1] == 'e' && m[2] == 'c');
            assert(forall|i: int| 0 <= i < m.len() ==> (m[i] as int) < 0x80);
        },
        Token::Neg => {
            assert(m == "neg"@);
            assert(m[0] == 'n' && m[1] == 'e' && m[2] == 'g');
            assert(forall|i: int| 0 <= i < m.len() ==> (m[i] as int) < 0x80);
        },
        Token::Shl => {
            assert(m == "shl"@);
            assert(m[0] == 's' && m[1] == 'h' && m[2] == 'l');
            assert(forall|i: int| 0 <= i < m.len() ==> (m[i] as int) < 0x80);
        },
        Token::Shr => {
            assert(m == "shr"@);
            assert(m[0] == 's' && m[1] == 'h' && m[2] == 'r');
            assert(forall|i: int| 0 <= i < m.len() ==> (m[i] as int) < 0x80);
        },
        Token::Not => {
            assert(m == "not"@);
            assert(m[0] == 'n' && m[1] == 'o' && m[2] == 't');
            assert(forall|i: int| 0 <= i < m.len() ==> (m[i] as int) < 0x80);
        },
        Token::Buf => {
            assert(m == "buf"@);
            assert(m[0] == 'b' && m[1] == 'u' && m[2] == 'f');
            assert(forall|i: int| 0 <= i < m.len() ==> (m[i] as int) < 0x80);
        },
        Token::Lda => {
            assert(m == "lda"@);
            assert(m[0] == 'l' && m[1] == 'd' && m[2] == 'a');
            assert(forall|i: int| 0 <= i < m.len() ==> (m[i] as int) < 0x80);
        },
        Token::Sta => {
            assert(m == "sta"@);
            assert(m[0] == 's' && m[1] == 't' && m[2] == 'a');
            assert(forall|i: int| 0 <= i < m.len() ==> (m[i] as int) < 0x80);
        },
        Token::Ldi => {
            assert(m == "ldi"@);
            assert(m[0] == 'l' && m[1] == 'd' && m[2] == 'i');
            assert(forall|i: int| 0 <= i < m.len() ==> (m[i] as int) < 0x80);
        },
        Token::Sti => {
            assert(m == "sti"@);
            assert(m[0] == 's' && m[1] == 't' && m[2] == 'i');
            assert(forall|i: int| 0 <= i < m.len() ==> (m[i] as int) < 0x80);
        },
        Token::Lds => {
            assert(m == "lds"@);
            assert(m[0] == 'l' && m[1] == 'd' && m[2] == 's');
            assert(forall|i: int| 0 <= i < m.len() ==> (m[i] as int) < 0x80);
        },
        Token::Sts => {
            assert(m == "sts"@);
            assert(m[0] == 's' && m[1] == 't' && m[2] == 's');
            assert(forall|i: int| 0 <= i < m.len() ==> (m[i] as int) < 0x80);
        },
        Token::Clc => {
            assert(m == "clc"@);
            assert(m[0] == 'c' && m[1] == 'l' && m[2] == 'c');
            assert(forall|i: int| 0 <= i < m.len() ==> (m[i] as int) < 0x80);
        },
        Token::Sec => {
            assert(m == "sec"@);
            assert(m[0] == 's' && m[1] == 'e' && m[2] == 'c');
            assert(forall|i: int| 0 <= i < m.len() ==> (m[i] as int) < 0x80);
        },
        Token::Flc => {
            assert(m == "flc"@);
            assert(m[0] == 'f' && m[1] == 'l' && m[2] == 'c');
            assert(forall|i: int| 0 <= i < m.len() ==> (m[i] as int) < 0x80);
        },
        Token::Nop => {
            assert(m == "nop"@);
            assert(m[0] == 'n' && m[1] == 'o' && m[2] == 'p');
            assert(forall|i: int| 0 <= i < m.len() ==> (m[i] as int) < 0x80);
        },
        Token::Pop => {
            assert(m == "pop"@);
            assert(m[0] == 'p' && m[1] == 'o' && m[2] == 'p');
            assert(forall|i: int| 0 <= i < m.len() ==> (m[i] as int) < 0x80);
        },
        _ => {},
    }
}

proof fn lemma_operand_not_word(m: Seq<char>)
    requires
        m.len() == 3,
        ('0' <= m[2] <= '9') || ('A' <= m[2] <= 'F'),
    ensures
        spec_word_token(m) is None,
{
    reveal_strlit("@error");
    reveal_strlit("@const");
    reveal_strlit("@data");
    reveal_strlit("@dyn");
    reveal_strlit("@org");
    reveal_strlit("add");
    reveal_strlit("sub");
    reveal_strlit("iff");
    reveal_strlit("swp");
    reveal_strlit("rot");
    reveal_strlit("orr");
    reveal_strlit("and");
    reveal_strlit("xor");
    reveal_strlit("xnd");
    reveal_strlit("inc");
    reveal_strlit("dec");
    reveal_strlit("neg");
    reveal_strlit("shl");
    reveal_strlit("shr");
    reveal_strlit("not");
    reveal_strlit("buf");
    reveal_strlit("lda");
    reveal_strlit("sta");
    reveal_strlit("ldi");
    reveal_strlit("sti");
    reveal_strlit("lds");
    reveal_strlit("sts");
    reveal_strlit("clc");
    reveal_strlit("sec");
    reveal_strlit("flc");
    reveal_strlit("nop");
    reveal_strlit("pop");
    reveal_strlit("ad");
    reveal_strlit("su");
    reveal_strlit("if");
    reveal_strlit("sw");
    reveal_strlit("ro");
    reveal_strlit("or");
    reveal_strlit("an");
    reveal_strlit("xo");
    reveal_strlit("xn");
    reveal_strlit("ld");
    reveal_strlit("st");
}

/// Whether a token is written as an operation or sigil and a hexadecimal operand.
pub open spec fn spec_is_operand_token(t: Token) -> bool {
    match t {
        Token::AdS(_) => true,
        Token::SuS(_) => true,
        Token::IfS(_) => true,
        Token::SwS(_) => true,
        Token::RoS(_) => true,
        Token::OrS(_) => true,
        Token::AnS(_) => true,
        Token::XoS(_) => true,
        Token::XnS(_) => true,
        Token::LdO(_) => true,
        Token::StO(_) => true,
        Token::AtDD(_) => true,
        Token::XXX(_) => true,
        _ => false,
    }
}

proof fn lemma_operand_spelling(t: Token)
    requires
        spec_is_operand_token(t),
        spec_plain_spellable(t),
    ensures
        spec_word_token(spec_plain_mnemonic(t)) is None,
        spec_plain_mnemonic(t).len() == 3,
        spec_all_ascii(spec_plain_mnemonic(t)),
        !spec_has_sigil(spec_plain_mnemonic(t)),
        spec_operand_token(spec_plain_mnemonic(t)) == Some(t),
{
    reveal_strlit("@error");
    reveal_strlit("@const");
    reveal_strlit("@data");
    reveal_strlit("@dyn");
    reveal_strlit("@org");
    reveal_strlit("add");
    reveal_strlit("sub");
    reveal_strlit("iff");
    reveal_strlit("swp");
    reveal_strlit("rot");
    reveal_strlit("orr");
    reveal_strlit("and");
    reveal_strlit("xor");
    reveal_strlit("xnd");
    reveal_strlit("inc");
    reveal_strlit("dec");
    reveal_strlit("neg");
    reveal_strlit("shl");
    reveal_strlit("shr");
    reveal_strlit("not");
    reveal_strlit("buf");
    reveal_strlit("lda");
    reveal_strlit("sta");
    reveal_strlit("ldi");
    reveal_strlit("sti");
    reveal_strlit("lds");
    reveal_strlit("sts");
    reveal_strlit("clc");
    reveal_strlit("sec");
    reveal_strlit("flc");
    reveal_strlit("nop");
    reveal_strlit("pop");
    reveal_strlit("ad");
    reveal_strlit("su");
    reveal_strlit("if");
    reveal_strlit("sw");
    reveal_strlit("ro");
    reveal_strlit("or");
    reveal_strlit("an");
    reveal_strlit("xo");
    reveal_strlit("xn");
    reveal_strlit("ld");
    reveal_strlit("st");
    let m = spec_plain_mnemonic(t);
    match t {
        Token::AdS(x) => {
            lemma_hex_digit(x.0 as int);
            assert(m.subrange(0, 2) == "ad"@);
            assert(m[0] == 'a' && m[1] == 'd');
            assert(m.subrange(0, 2)[0] == m[0] && m.subrange(0, 2)[1] == m[1]);
            assert(m.subrange(2, 3) == seq![spec_hex_digit(x.0 as int)]);
            lemma_operand_not_word(m);
        },
        Token::SuS(x) => {
            lemma_hex_digit(x.0 as int);
            assert(m.subrange(0, 2) == "su"@);
            assert(m[0] == 's' && m[1] == 'u');
            assert(m.subrange(0, 2)[0] == m[0] && m.subrange(0, 2)[1] == m[1]);
            assert(m.subrange(2, 3) == seq![spec_hex_digit(x.0 as int)]);
            lemma_operand_not_word(m);
        },
        Token::IfS(x) => {
            lemma_hex_digit(x.0 as int);
            assert(m.subrange(0, 2) == "if"@);
            assert(m[0] == 'i' && m[1] == 'f');
            assert(m.subrange(0, 2)[0] == m[0] && m.subrange(0, 2)[1] == m[1]);
            assert(m.subrange(2, 3) == seq![spec_hex_digit(x.0 as int)]);
            lemma_operand_not_word(m);
        },
        Token::SwS(x) => {
            lemma_hex_digit(x.0 as int);
            assert(m.subrange(0, 2) == "sw"@);
            assert(m[0] == 's' && m[1] == 'w');
            assert(m.subrange(0, 2)[0] == m[0] && m.subrange(0, 2)[1] == m[1]);
            assert(m.subrange(2, 3) == seq![spec_hex_digit(x.0 as int)]);
            lemma_operand_not_word(m);
        },
        Token::RoS(x) => {
            lemma_hex_digit(x.0 as int);
            assert(m.subrange(0, 2) == "ro"@);
            assert(m[0] == 'r' && m[1] == 'o');
            assert(m.subrange(0, 2)[0] == m[0] && m.subrange(0, 2)[1] == m[1]);
            assert(m.subrange(2, 3) == seq![spec_hex_digit(x.0 as int)]);
            lemma_operand_not_word(m);
        },
        Token::OrS(x) => {
            lemma_hex_digit(x.0 as int);
            assert(m.subrange(0, 2) == "or"@);
            assert(m[0] == 'o' && m[1] == 'r');
            assert(m.subrange(0, 2)[0] == m[0] && m.subrange(0, 2)[1] == m[1]);
            assert(m.subrange(2, 3) == seq![spec_hex_digit(x.0 as int)]);
            lemma_operand_not_word(m);
        },
        Token::AnS(x) => {
            lemma_hex_digit(x.0 as int);
            assert(m.subrange(0, 2) == "an"@);
            assert(m[0] == 'a' && m[1] == 'n');
            assert(m.subrange(0, 2)[0] == m[0] && m.subrange(0, 2)[1] == m[1]);
            assert(m.subrange(2, 3) == seq![spec_hex_digit(x.0 as int)]);
            lemma_operand_not_word(m);
        },
        Token::XoS(x) => {
            lemma_hex_digit(x.0 as int);
            assert(m.subrange(0, 2) == "xo"@);
            assert(m[0] == 'x' && m[1] == 'o');
            assert(m.subrange(0, 2)[0] == m[0] && m.subrange(0, 2)[1] == m[1]);
            assert(m.subrange(2, 3) == seq![spec_hex_digit(x.0 as int)]);
            lemma_operand_not_word(m);
        },
        Token::XnS(x) => {
            lemma_hex_digit(x.0 as int);
            assert(m.subrange(0, 2) == "xn"@);
            assert(m[0] == 'x' && m[1] == 'n');
            assert(m.subrange(0, 2)[0] == m[0] && m.subrange(0, 2)[1] == m[1]);
            assert(m.subrange(2, 3) == seq![spec_hex_digit(x.0 as int)]);
            lemma_operand_not_word(m);
        },
        Token::LdO(x) => {
            lemma_hex_digit(x.0 as int);
            assert(m.subrange(0, 2) == "ld"@);
            assert(m[0] == 'l' && m[1] == 'd');
            assert(m.subrange(0, 2)[0] == m[0] && m.subrange(0, 2)[1] == m[1]);
            assert(m.subrange(2, 3) == seq![spec_hex_digit(x.0 as int)]);
            lemma_operand_not_word(m);
        },
        Token::StO(x) => {
            lemma_hex_digit(x.0 as int);
            assert(m.subrange(0, 2) == "st"@);
            assert(m[0] == 's' && m[1] == 't');
            assert(m.subrange(0, 2)[0] == m[0] && m.subrange(0, 2)[1] == m[1]);
            assert(m.subrange(2, 3) == seq![spec_hex_digit(x.0 as int)]);
            lemma_operand_not_word(m);
        },
        Token::AtDD(v) => {
            lemma_hex_digit((v / 16) as int);
            lemma_hex_digit((v % 16) as int);
            assert(m.subrange(1, 3) == spec_hex2(v));
            assert(m.subrange(0, 2)[0] == m[0] && m.subrange(0, 2)[1] == m[1]);
            assert(m[1] == spec_hex_digit((v / 16) as int));
            lemma_operand_not_word(m);
        },
        Token::XXX(v) => {
            lemma_hex_digit((v / 16) as int);
            lemma_hex_digit((v % 16) as int);
            assert(m.subrange(1, 3) == spec_hex2(v));
            assert(m.subrange(0, 2)[0] == m[0] && m.subrange(0, 2)[1] == m[1]);
            assert(m[1] == spec_hex_digit((v / 16) as int));
            lemma_operand_not_word(m);
        },
        _ => {},
    }
}

/// Every spellable token reads back from its mnemonic, and its mnemonic is readable.
pub proof fn law_token_spelling(t: Token)
    requires
        spec_token_spellable(t@),
    ensures
        !spec_mnemonic_unreadable(spec_token_mnemonic(t@)),
        spec_mnemonic_token(spec_token_mnemonic(t@)) == Some(t@),
{
    let m = spec_token_mnemonic(t@);
    match t {
        Token::LabelDef(Label::Local(id, _)) => {
            assert(m.drop_last() == id@);
            if id@.len() > 0 {
                assert(m[0] == id@[0]);
            }
        },
        Token::LabelDef(Label::Global(id)) => {
            assert(m.drop_last() == id@);
        },
        Token::LabelRef(Label::Local(id, _)) => {
            assert(m.drop_first() == id@);
            assert(m.last() == id@.last());
        },
        Token::LabelRef(Label::Global(id)) => {
            assert(m.drop_first() == id@);
            assert(m.last() == id@.last());
        },
        Token::MacroDef(Macro(name)) => {
            assert(m.drop_last() == name@);
            if name@.len() > 0 {
                assert(m[0] == name@[0]);
            }
        },
        Token::MacroRef(Macro(name)) => {
            assert(m.drop_first() == name@);
            assert(m.last() == name@.last());
        },
        _ => {
            if spec_is_word_token(t) {
                lemma_word_spelling(t);
            } else {
                lemma_operand_spelling(t);
            }
        },
    }
}

/// The token that writes an instruction; an undecodable byte is written as a data byte.
pub open spec fn spec_instruction_token(r: Result<Instruction, u8>) -> Token {
    match r {
        Ok(Instruction::Psh(Imm(imm))) => Token::XXX(imm),
        Ok(Instruction::Add(size)) => if size.0 == 1 {
            Token::Add
        } else {
            Token::AdS(size)
        },
        Ok(Instruction::Sub(size)) => if size.0 == 1 {
            Token::Sub
        } else {
            Token::SuS(size)
        },
        Ok(Instruction::Iff(size)) => if size.0 == 1 {
            Token::Iff
        } else {
            Token::IfS(size)
        },
        Ok(Instruction::Swp(size)) => if size.0 == 1 {
            Token::Swp
        } else {
            Token::SwS(size)
        },
        Ok(Instruction::Rot(size)) => if size.0 == 1 {
            Token::Rot
        } else {
            Token::RoS(size)
        },
        Ok(Instruction::Orr(size)) => if size.0 == 1 {
            Token::Orr
        } else {
            Token::OrS(size)
        },
        Ok(Instruction::And(size)) => if size.0 == 1 {
            Token::And
        } else {
            Token::AnS(size)
        },
        Ok(Instruction::Xor(size)) => if size.0 == 1 {
            Token::Xor
        } else {
            Token::XoS(size)
        },
        Ok(Instruction::Xnd(size)) => if size.0 == 1 {
            Token::Xnd
        } else {
            Token::XnS(size)
        },
        Ok(Instruction::Inc) => Token::Inc,
        Ok(Instruction::Dec) => Token::Dec,
        Ok(Instruction::Neg) => Token::Neg,
        Ok(Instruction::Shl) => Token::Shl,
        Ok(Instruction::Shr) => Token::Shr,
        Ok(Instruction::Not) => Token::Not,
        Ok(Instruction::Buf) => Token::Buf,
        Ok(Instruction::Dbg) => Token::AtDD(0xBB),
        Ok(Instruction::Ldo(ofst)) => Token::LdO(ofst),
        Ok(Instruction::Sto(ofst)) => Token::StO(ofst),
        Ok(Instruction::Lda) => Token::Lda,
        Ok(Instruction::Sta) => Token::Sta,
        Ok(Instruction::Ldi) => Token::Ldi,
        Ok(Instruction::Sti) => Token::Sti,
        Ok(Instruction::Lds) => Token::Lds,
        Ok(Instruction::Sts) => Token::Sts,
        Ok(Instruction::Clc) => Token::Clc,
        Ok(Instruction::Sec) => Token::Sec,
        Ok(Instruction::Flc) => Token::Flc,
        Ok(Instruction::Nop) => Token::Nop,
        Ok(Instruction::Pop) => Token::Pop,
        Ok(Instruction::Phn(Nimm(nimm))) => Token::XXX(nimm),
        Err(opcode) => Token::AtDD(opcode),
    }
}

/// The token that writes an instruction; an undecodable byte is written as a data byte.
pub fn instruction_to_token(instruction: Result<Instruction, u8>) -> (r: Token)
    ensures
        r == spec_instruction_token(instruction),
{
    match instruction {
        Ok(Instruction::Psh(Imm(imm))) => Token::XXX(imm),
        Ok(Instruction::Add(size)) => if size.0 == 1 {
            Token::Add
        } else {
            Token::AdS(size)
        },
        Ok(Instruction::Sub(size)) => if size.0 == 1 {
            Token::Sub
        } else {
            Token::SuS(size)
        },
        Ok(Instruction::Iff(size)) => if size.0 == 1 {
            Token::Iff
        } else {
            Token::IfS(size)
        },
        Ok(Instruction::Swp(size)) => if size.0 == 1 {
            Token::Swp
        } else {
            Token::SwS(size)
        },
        Ok(Instruction::Rot(size)) => if size.0 == 1 {
            Token::Rot
        } else {
            Token::RoS(size)
        },
        Ok(Instruction::Orr(size)) => if size.0 == 1 {
            Token::Orr
        } else {
            Token::OrS(size)
        },
        Ok(Instruction::And(size)) => if size.0 == 1 {
            Token::And
        } else {
            Token::AnS(size)
        },
        Ok(Instruction::Xor(size)) => if size.0 == 1 {
            Token::Xor
        } else {
            Token::XoS(size)
        },
        Ok(Instruction::Xnd(size)) => if size.0 == 1 {
            Token::Xnd
        } else {
            Token::XnS(size)
        },
        Ok(Instruction::Inc) => Token::Inc,
        Ok(Instruction::Dec) => Token::Dec,
        Ok(Instruction::Neg) => Token::Neg,
        Ok(Instruction::Shl) => Token::Shl,
        Ok(Instruction::Shr) => Token::Shr,
        Ok(Instruction::Not) => Token::Not,
        Ok(Instruction::Buf) => Token::Buf,
        Ok(Instruction::Dbg) => Token::AtDD(0xBB),
        Ok(Instruction::Ldo(ofst)) => Token::LdO(ofst),
        Ok(Instruction::Sto(ofst)) => Token::StO(ofst),
        Ok(Instruction::Lda) => Token::Lda,
        Ok(Instruction::Sta) => Token::Sta,
        Ok(Instruction::Ldi) => Token::Ldi,
        Ok(Instruction::Sti) => Token::Sti,
        Ok(Instruction::Lds) => Token::Lds,
        Ok(Instruction::Sts) => Token::Sts,
        Ok(Instruction::Clc) => Token::Clc,
        Ok(Instruction::Sec) => Token::Sec,
        Ok(Instruction::Flc) => Token::Flc,
        Ok(Instruction::Nop) => Token::Nop,
        Ok(Instruction::Pop) => Token::Pop,
        Ok(Instruction::Phn(Nimm(nimm))) => Token::XXX(nimm),
        Err(opcode) => Token::AtDD(opcode),
    }
}

} // verus!
