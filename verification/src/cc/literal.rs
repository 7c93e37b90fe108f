//! C string literals and character constants: quoting bytes into a literal, and reading a
//! literal back.

use vstd::prelude::*;
use crate::text::string_from_chars;

verus! {

/// A lowercase hexadecimal digit for a value below sixteen.
pub open spec fn spec_lower_hex_digit(v: int) -> char {
    if v < 10 {
        (48 + v) as char
    } else {
        (87 + v) as char
    }
}

/// Whether a byte is an octal digit, `0` to `7`.
pub open spec fn spec_octal_byte(b: u8) -> bool {
    0x30 <= b <= 0x37
}

/// The escape of one byte inside a literal delimited by `quote`, where `octal_next` tells
/// whether an octal digit follows: a NUL before one is written with three digits, so that the
/// digit is not read into the escape.
pub open spec fn spec_escape_byte(b: u8, quote: char, octal_next: bool) -> Seq<char> {
    if b as int == quote as int {
        seq!['\\', quote]
    } else if b == 0x5C {
        seq!['\\', '\\']
    } else if b == 0x07 {
        seq!['\\', 'a']
    } else if b == 0x08 {
        seq!['\\', 'b']
    } else if b == 0x0C {
        seq!['\\', 'f']
    } else if b == 0x0A {
        seq!['\\', 'n']
    } else if b == 0x0D {
        seq!['\\', 'r']
    } else if b == 0x09 {
        seq!['\\', 't']
    } else if b == 0x0B {
        seq!['\\', 'v']
    } else if 0x20 <= b <= 0x7E {
        seq![b as char]
    } else if b == 0 {
        if octal_next {
            seq!['\\', '0', '0', '0']
        } else {
            seq!['\\', '0']
        }
    } else {
        seq!['\\', 'x', spec_lower_hex_digit((b / 16) as int), spec_lower_hex_digit((b % 16) as int)]
    }
}

/// The escapes of a byte sequence, one after another.
pub open spec fn spec_escape_bytes(bytes: Seq<u8>, quote: char) -> Seq<char>
    decreases bytes.len(),
{
    if bytes.len() == 0 {
        Seq::empty()
    } else {
        spec_escape_byte(bytes[0], quote, bytes.len() > 1 && spec_octal_byte(bytes[1])) + spec_escape_bytes(
            bytes.drop_first(),
            quote,
        )
    }
}

/// A C literal holding `bytes`, delimited by `quote`.
pub open spec fn spec_c_quote(bytes: Seq<u8>, quote: char) -> Seq<char> {
    seq![quote] + spec_escape_bytes(bytes, quote) + seq![quote]
}

pub(crate) fn lower_hex_digit(v: u8) -> (c: char)
    requires
        v < 16,
    ensures
        c == spec_lower_hex_digit(v as int),
{
    if v < 10 {
        (48 + v) as char
    } else {
        (87 + v) as char
    }
}

fn push_escape(out: &mut Vec<char>, b: u8, quote: char, octal_next: bool)
    ensures
        final(out)@ == old(out)@ + spec_escape_byte(b, quote, octal_next),
{
    let e: Vec<char> = if b as u32 == quote as u32 {
        vec!['\\', quote]
    } else if b == 0x5C {
        vec!['\\', '\\']
    } else if b == 0x07 {
        vec!['\\', 'a']
    } else if b == 0x08 {
        vec!['\\', 'b']
    } else if b == 0x0C {
        vec!['\\', 'f']
    } else if b == 0x0A {
        vec!['\\', 'n']
    } else if b == 0x0D {
        vec!['\\', 'r']
    } else if b == 0x09 {
        vec!['\\', 't']
    } else if b == 0x0B {
        vec!['\\', 'v']
    } else if 0x20 <= b && b <= 0x7E {
        vec![b as char]
    } else if b == 0 {
        if octal_next {
            vec!['\\', '0', '0', '0']
        } else {
            vec!['\\', '0']
        }
    } else {
        vec!['\\', 'x', lower_hex_digit(b / 16), lower_hex_digit(b % 16)]
    };
    let mut e = e;
    assert(e@ == spec_escape_byte(b, quote, octal_next));
    out.append(&mut e);
}

/// Quotes and escapes bytes into a C string literal (with `quote` a double quote) or character
/// constant (with `quote` a single quote).
pub fn c_quote(bytes: &[u8], quote: char) -> (s: String)
    ensures
        s@ == spec_c_quote(bytes@, quote),
{
    let mut out: Vec<char> = Vec::new();
    out.push(quote);
    let mut i: usize = 0;
    assert(bytes@.subrange(0, bytes@.len() as int) == bytes@);
    while i < bytes.len()
        invariant
            i <= bytes.len(),
            out@ + spec_escape_bytes(bytes@.subrange(i as int, bytes@.len() as int), quote)
                == seq![quote] + spec_escape_bytes(bytes@, quote),
        decreases bytes.len() - i,
    {
        let octal_next = i + 1 < bytes.len() && 0x30 <= bytes[i + 1] && bytes[i + 1] <= 0x37;
        let ghost rest = bytes@.subrange(i as int, bytes@.len() as int);
        let ghost before = out@;
        proof {
            assert(rest.drop_first() == bytes@.subrange(i + 1, bytes@.len() as int));
            assert(rest[0] == bytes@[i as int]);
            if rest.len() > 1 {
                assert(rest[1] == bytes@[i + 1]);
            }
        }
        push_escape(&mut out, bytes[i], quote, octal_next);
        proof {
            let tail = spec_escape_bytes(bytes@.subrange(i + 1, bytes@.len() as int), quote);
            assert(out@ + tail == before + (spec_escape_byte(bytes@[i as int], quote, octal_next) + tail));
        }
        i = i + 1;
    }
    assert(spec_escape_bytes(bytes@.subrange(bytes@.len() as int, bytes@.len() as int), quote) == Seq::<char>::empty());
    assert(out@ + Seq::<char>::empty() == out@);
    out.push(quote);
    string_from_chars(&out)
}

/// The outcome of reading a piece of C source from a position: the value read and the position
/// after it, no match, or a reading that cannot go on (a non-ASCII character examined, or an
/// octal escape above `0o377`).
pub enum Scan<T> {
    Read(T, int),
    Miss,
    Abort,
}

pub open spec fn spec_is_octal(c: char) -> bool {
    '0' <= c && c <= '7'
}

/// The value of a hexadecimal digit of either case.
pub open spec fn spec_hex_digit_value(c: char) -> Option<int> {
    if '0' <= c && c <= '9' {
        Some(c as int - 48)
    } else if 'a' <= c && c <= 'f' {
        Some(c as int - 87)
    } else if 'A' <= c && c <= 'F' {
        Some(c as int - 55)
    } else {
        None
    }
}

pub open spec fn spec_is_whitespace(c: char) -> bool {
    c == ' ' || ('\t' <= c && c <= '\r')
}

pub open spec fn spec_is_ascii(c: char) -> bool {
    (c as int) < 0x80
}

/// The character that a simple escape stands for.
pub open spec fn spec_simple_escape(c: char) -> Option<char> {
    if c == '\'' || c == '"' || c == '?' || c == '\\' {
        Some(c)
    } else if c == 'a' {
        Some('\x07')
    } else if c == 'b' {
        Some('\x08')
    } else if c == 'f' {
        Some('\x0C')
    } else if c == 'n' {
        Some('\n')
    } else if c == 'r' {
        Some('\r')
    } else if c == 't' {
        Some('\t')
    } else if c == 'v' {
        Some('\x0B')
    } else {
        None
    }
}

/// The octal digits of an escape from `j`: one to three, as many as there are.
pub open spec fn spec_octal_escape(s: Seq<char>, j: int) -> Scan<char> {
    let d1 = s[j] as int - 48;
    if j + 1 < s.len() && !spec_is_ascii(s[j + 1]) {
        Scan::Abort
    } else if j + 1 < s.len() && spec_is_octal(s[j + 1]) {
        let d2 = s[j + 1] as int - 48;
        if j + 2 < s.len() && !spec_is_ascii(s[j + 2]) {
            Scan::Abort
        } else if j + 2 < s.len() && spec_is_octal(s[j + 2]) {
            let v = 64 * d1 + 8 * d2 + (s[j + 2] as int - 48);
            if v > 255 {
                Scan::Abort
            } else {
                Scan::Read(v as char, j + 3)
            }
        } else {
            Scan::Read((8 * d1 + d2) as char, j + 2)
        }
    } else {
        Scan::Read(d1 as char, j + 1)
    }
}

/// The hexadecimal digits of an escape from `j`: one or two.
pub open spec fn spec_hex_escape(s: Seq<char>, j: int) -> Scan<char> {
    if j >= s.len() {
        Scan::Miss
    } else if !spec_is_ascii(s[j]) {
        Scan::Abort
    } else {
        match spec_hex_digit_value(s[j]) {
            None => Scan::Miss,
            Some(d1) => if j + 1 < s.len() && !spec_is_ascii(s[j + 1]) {
                Scan::Abort
            } else if j + 1 < s.len() && spec_hex_digit_value(s[j + 1]) is Some {
                Scan::Read((16 * d1 + spec_hex_digit_value(s[j + 1])->0) as char, j + 2)
            } else {
                Scan::Read(d1 as char, j + 1)
            },
        }
    }
}

/// An escape sequence at `i`: a backslash, then a simple escape, one to three octal digits, or
/// `x` and one or two hexadecimal digits.
pub open spec fn spec_escape_sequence(s: Seq<char>, i: int) -> Scan<char> {
    if i >= s.len() {
        Scan::Miss
    } else if !spec_is_ascii(s[i]) {
        Scan::Abort
    } else if s[i] != '\\' {
        Scan::Miss
    } else if i + 1 >= s.len() {
        Scan::Miss
    } else if !spec_is_ascii(s[i + 1]) {
        Scan::Abort
    } else {
        let c = s[i + 1];
        match spec_simple_escape(c) {
            Some(e) => Scan::Read(e, i + 2),
            None => if spec_is_octal(c) {
                spec_octal_escape(s, i + 1)
            } else if c == 'x' {
                spec_hex_escape(s, i + 2)
            } else {
                Scan::Miss
            },
        }
    }
}

/// One character of a literal delimited by `quote` at `i`: any character but the quote, a
/// backslash or a newline, or an escape sequence.
pub open spec fn spec_literal_char(s: Seq<char>, i: int, quote: char) -> Scan<char> {
    if i >= s.len() {
        Scan::Miss
    } else if !spec_is_ascii(s[i]) {
        Scan::Abort
    } else if s[i] != quote && s[i] != '\\' && s[i] != '\n' {
        Scan::Read(s[i], i + 1)
    } else {
        spec_escape_sequence(s, i)
    }
}

/// As many characters of a string literal as follow from `i`.
pub open spec fn spec_literal_chars(s: Seq<char>, i: int) -> Scan<Seq<char>>
    decreases s.len() - i,
{
    match spec_literal_char(s, i, '"') {
        Scan::Read(c, j) => if i < j {
            match spec_literal_chars(s, j) {
                Scan::Read(cs, k) => Scan::Read(seq![c] + cs, k),
                other => other,
            }
        } else {
            Scan::Miss
        },
        Scan::Miss => Scan::Read(Seq::empty(), i),
        Scan::Abort => Scan::Abort,
    }
}

/// The position after the whitespace at `i`.
pub open spec fn spec_skip_whitespace(s: Seq<char>, i: int) -> Scan<()>
    decreases s.len() - i,
{
    if i < 0 || i >= s.len() {
        Scan::Read((), i)
    } else if !spec_is_ascii(s[i]) {
        Scan::Abort
    } else if spec_is_whitespace(s[i]) {
        spec_skip_whitespace(s, i + 1)
    } else {
        Scan::Read((), i)
    }
}

/// The character `c` at `i`, examined.
pub open spec fn spec_expect(s: Seq<char>, i: int, c: char) -> Scan<()> {
    if i < 0 || i >= s.len() {
        Scan::Miss
    } else if !spec_is_ascii(s[i]) {
        Scan::Abort
    } else if s[i] == c {
        Scan::Read((), i + 1)
    } else {
        Scan::Miss
    }
}

/// One double-quoted literal at `i` and the whitespace after it.
pub open spec fn spec_quoted(s: Seq<char>, i: int) -> Scan<Seq<char>> {
    match spec_expect(s, i, '"') {
        Scan::Read(_, j) => match spec_literal_chars(s, j) {
            Scan::Read(cs, k) => match spec_expect(s, k, '"') {
                Scan::Read(_, m) => match spec_skip_whitespace(s, m) {
                    Scan::Read(_, n) => Scan::Read(cs, n),
                    _ => Scan::Abort,
                },
                Scan::Miss => Scan::Miss,
                Scan::Abort => Scan::Abort,
            },
            Scan::Miss => Scan::Miss,
            Scan::Abort => Scan::Abort,
        },
        Scan::Miss => Scan::Miss,
        Scan::Abort => Scan::Abort,
    }
}

/// As many adjacent double-quoted literals as follow from `i`, their characters concatenated.
pub open spec fn spec_more_quoted(s: Seq<char>, i: int) -> Scan<Seq<char>>
    decreases s.len() - i,
{
    match spec_quoted(s, i) {
        Scan::Read(cs, j) => if i < j <= s.len() {
            match spec_more_quoted(s, j) {
                Scan::Read(rest, k) => Scan::Read(cs + rest, k),
                other => other,
            }
        } else {
            Scan::Miss
        },
        Scan::Miss => Scan::Read(Seq::empty(), i),
        Scan::Abort => Scan::Abort,
    }
}

/// A string literal at `i`: one or more adjacent double-quoted literals, concatenated, with a
/// terminating NUL character.
pub open spec fn spec_string_literal(s: Seq<char>, i: int) -> Scan<Seq<char>> {
    match spec_quoted(s, i) {
        Scan::Read(cs, j) => match spec_more_quoted(s, j) {
            Scan::Read(rest, k) => Scan::Read(cs + rest + seq!['\0'], k),
            Scan::Miss => Scan::Miss,
            Scan::Abort => Scan::Abort,
        },
        Scan::Miss => Scan::Miss,
        Scan::Abort => Scan::Abort,
    }
}

/// A character constant at `i` and the whitespace after it.
pub open spec fn spec_character_constant(s: Seq<char>, i: int) -> Scan<char> {
    match spec_expect(s, i, '\'') {
        Scan::Read(_, j) => match spec_literal_char(s, j, '\'') {
            Scan::Read(c, k) => match spec_expect(s, k, '\'') {
                Scan::Read(_, m) => match spec_skip_whitespace(s, m) {
                    Scan::Read(_, n) => Scan::Read(c, n),
                    _ => Scan::Abort,
                },
                Scan::Miss => Scan::Miss,
                Scan::Abort => Scan::Abort,
            },
            Scan::Miss => Scan::Miss,
            Scan::Abort => Scan::Abort,
        },
        Scan::Miss => Scan::Miss,
        Scan::Abort => Scan::Abort,
    }
}

/// Whether an exec reading result agrees with a spec reading result.
pub open spec fn spec_agrees<T>(r: Option<(T, usize)>, scan: Scan<T>) -> bool {
    match scan {
        Scan::Read(v, j) => r == Some((v, j as usize)),
        Scan::Miss => r is None,
        Scan::Abort => true,
    }
}

fn is_ascii(c: char) -> (r: bool)
    ensures
        r == spec_is_ascii(c),
{
    c < '\u{80}'
}

fn is_octal(c: char) -> (r: bool)
    ensures
        r == spec_is_octal(c),
{
    '0' <= c && c <= '7'
}

fn hex_digit_value(c: char) -> (r: Option<u32>)
    ensures
        r matches Some(v) ==> spec_hex_digit_value(c) == Some(v as int) && v < 16,
        r is None ==> spec_hex_digit_value(c) is None,
{
    if '0' <= c && c <= '9' {
        Some(c as u32 - 48)
    } else if 'a' <= c && c <= 'f' {
        Some(c as u32 - 87)
    } else if 'A' <= c && c <= 'F' {
        Some(c as u32 - 55)
    } else {
        None
    }
}

fn simple_escape(c: char) -> (r: Option<char>)
    ensures
        r == spec_simple_escape(c),
{
    if c == '\'' || c == '"' || c == '?' || c == '\\' {
        Some(c)
    } else if c == 'a' {
        Some('\x07')
    } else if c == 'b' {
        Some('\x08')
    } else if c == 'f' {
        Some('\x0C')
    } else if c == 'n' {
        Some('\n')
    } else if c == 'r' {
        Some('\r')
    } else if c == 't' {
        Some('\t')
    } else if c == 'v' {
        Some('\x0B')
    } else {
        None
    }
}

fn byte_char(v: u32) -> (c: char)
    requires
        v < 256,
    ensures
        c == v as char,
{
    (v as u8) as char
}

/// Reads an escape sequence at `i`.
pub fn escape_sequence(s: &[char], i: usize) -> (r: Option<(char, usize)>)
    requires
        !(spec_escape_sequence(s@, i as int) is Abort),
    ensures
        spec_agrees(r, spec_escape_sequence(s@, i as int)),
{
    if i >= s.len() || !is_ascii(s[i]) || s[i] != '\\' || i + 1 >= s.len() || !is_ascii(s[i + 1]) {
        return None;
    }
    let c = s[i + 1];
    match simple_escape(c) {
        Some(e) => Some((e, i + 2)),
        None => if is_octal(c) {
            let j = i + 1;
            let d1 = c as u32 - 48;
            if j + 1 < s.len() && is_octal(s[j + 1]) {
                let d2 = s[j + 1] as u32 - 48;
                if j + 2 < s.len() && is_octal(s[j + 2]) {
                    let v = 64 * d1 + 8 * d2 + (s[j + 2] as u32 - 48);
                    if v > 255 {
                        None
                    } else {
                        Some((byte_char(v), j + 3))
                    }
                } else {
                    Some((byte_char(8 * d1 + d2), j + 2))
                }
            } else {
                Some((byte_char(d1), j + 1))
            }
        } else if c == 'x' {
            let j = i + 2;
            if j >= s.len() {
                return None;
            }
            match hex_digit_value(s[j]) {
                None => None,
                Some(d1) => if j + 1 < s.len() {
                    match hex_digit_value(s[j + 1]) {
                        Some(d2) => Some((byte_char(16 * d1 + d2), j + 2)),
                        None => Some((byte_char(d1), j + 1)),
                    }
                } else {
                    Some((byte_char(d1), j + 1))
                },
            }
        } else {
            None
        },
    }
}

/// A spec reading result with `prefix` put before the characters read.
pub open spec fn spec_prefixed(prefix: Seq<char>, scan: Scan<Seq<char>>) -> Scan<Seq<char>> {
    match scan {
        Scan::Read(cs, k) => Scan::Read(prefix + cs, k),
        other => other,
    }
}

/// Whether an exec reading of characters agrees with a spec reading result.
pub open spec fn spec_agrees_chars(r: Option<(Vec<char>, usize)>, scan: Scan<Seq<char>>) -> bool {
    match scan {
        Scan::Read(v, j) => r matches Some((cs, k)) && cs@ == v && k == j,
        Scan::Miss => r is None,
        Scan::Abort => true,
    }
}

fn is_whitespace(c: char) -> (r: bool)
    ensures
        r == spec_is_whitespace(c),
{
    c == ' ' || ('\t' <= c && c <= '\r')
}

fn literal_char(s: &[char], i: usize, quote: char) -> (r: Option<(char, usize)>)
    requires
        !(spec_literal_char(s@, i as int, quote) is Abort),
    ensures
        spec_agrees(r, spec_literal_char(s@, i as int, quote)),
        r matches Some((_, j)) ==> i < j <= s.len(),
{
    if i >= s.len() {
        None
    } else if s[i] != quote && s[i] != '\\' && s[i] != '\n' {
        Some((s[i], i + 1))
    } else {
        escape_sequence(s, i)
    }
}

fn literal_chars(s: &[char], i: usize) -> (r: Option<(Vec<char>, usize)>)
    requires
        i <= s.len(),
        !(spec_literal_chars(s@, i as int) is Abort),
    ensures
        spec_agrees_chars(r, spec_literal_chars(s@, i as int)),
        r matches Some((_, k)) ==> i <= k <= s.len(),
{
    let mut out: Vec<char> = Vec::new();
    let mut pos = i;
    loop
        invariant
            i <= pos <= s.len(),
            spec_literal_chars(s@, i as int) == spec_prefixed(out@, spec_literal_chars(s@, pos as int)),
            !(spec_literal_chars(s@, pos as int) is Abort),
        decreases s.len() - pos,
    {
        match literal_char(s, pos, '"') {
            Some((c, j)) => {
                proof {
                    let tail = spec_literal_chars(s@, j as int);
                    if let Scan::Read(cs, k) = tail {
                        assert(out@.push(c) + cs == out@ + (seq![c] + cs));
                    }
                }
                out.push(c);
                pos = j;
            },
            None => {
                assert(out@ + Seq::<char>::empty() == out@);
                return Some((out, pos));
            },
        }
    }
}

fn skip_whitespace(s: &[char], i: usize) -> (r: usize)
    requires
        i <= s.len(),
        !(spec_skip_whitespace(s@, i as int) is Abort),
    ensures
        spec_skip_whitespace(s@, i as int) == Scan::Read((), r as int),
        i <= r <= s.len(),
{
    let mut pos = i;
    while pos < s.len() && is_whitespace(s[pos])
        invariant
            i <= pos <= s.len(),
            spec_skip_whitespace(s@, i as int) == spec_skip_whitespace(s@, pos as int),
            !(spec_skip_whitespace(s@, pos as int) is Abort),
        decreases s.len() - pos,
    {
        pos = pos + 1;
    }
    pos
}

fn expect(s: &[char], i: usize, c: char) -> (r: bool)
    requires
        !(spec_expect(s@, i as int, c) is Abort),
    ensures
        r == (spec_expect(s@, i as int, c) == Scan::Read((), i + 1)),
        r ==> i < s.len(),
{
    i < s.len() && s[i] == c
}

fn quoted(s: &[char], i: usize) -> (r: Option<(Vec<char>, usize)>)
    requires
        i <= s.len(),
        !(spec_quoted(s@, i as int) is Abort),
    ensures
        spec_agrees_chars(r, spec_quoted(s@, i as int)),
        r matches Some((_, j)) ==> i < j <= s.len(),
{
    if !expect(s, i, '"') {
        return None;
    }
    match literal_chars(s, i + 1) {
        Some((cs, k)) => {
            if !expect(s, k, '"') {
                return None;
            }
            let n = skip_whitespace(s, k + 1);
            Some((cs, n))
        },
        None => None,
    }
}

/// Reads a string literal at `i`: one or more adjacent double-quoted literals, concatenated, with
/// a terminating NUL character.
pub fn string_literal(s: &[char], i: usize) -> (r: Option<(Vec<char>, usize)>)
    requires
        i <= s.len(),
        !(spec_string_literal(s@, i as int) is Abort),
    ensures
        spec_agrees_chars(r, spec_string_literal(s@, i as int)),
{
    match quoted(s, i) {
        None => None,
        Some((first, j)) => {
            assert(spec_quoted(s@, i as int) == Scan::Read(first@, j as int));
            let mut out = first;
            let mut pos = j;
            loop
                invariant
                    j <= pos <= s.len(),
                    spec_quoted(s@, i as int) == Scan::Read(first@, j as int),
                    spec_more_quoted(s@, j as int) == spec_prefixed(out@.subrange(first@.len() as int, out@.len() as int), spec_more_quoted(s@, pos as int)),
                    out@.subrange(0, first@.len() as int) == first@,
                    first@.len() <= out@.len(),
                    !(spec_more_quoted(s@, pos as int) is Abort),
                decreases s.len() - pos,
            {
                match quoted(s, pos) {
                    Some((cs, k)) => {
                        let ghost old_out = out@;
                        let mut cs = cs;
                        proof {
                            let tail = spec_more_quoted(s@, k as int);
                            if let Scan::Read(rest, m) = tail {
                                assert((old_out + cs@).subrange(first@.len() as int, (old_out + cs@).len() as int) + rest
                                    == old_out.subrange(first@.len() as int, old_out.len() as int) + (cs@ + rest));
                            }
                            assert((old_out + cs@).subrange(0, first@.len() as int) == first@);
                        }
                        out.append(&mut cs);
                        pos = k;
                    },
                    None => {
                        assert(out@.subrange(first@.len() as int, out@.len() as int) + Seq::<char>::empty()
                            == out@.subrange(first@.len() as int, out@.len() as int));
                        assert(out@ == first@ + out@.subrange(first@.len() as int, out@.len() as int));
                        let ghost rest = out@.subrange(first@.len() as int, out@.len() as int);
                        assert(spec_more_quoted(s@, pos as int) == Scan::<Seq<char>>::Read(Seq::empty(), pos as int));
                        assert(spec_more_quoted(s@, j as int) == Scan::<Seq<char>>::Read(rest, pos as int));
                        out.push('\0');
                        assert(out@ == first@ + rest + seq!['\0']);
                        assert(spec_string_literal(s@, i as int) == Scan::Read(out@, pos as int));
                        return Some((out, pos));
                    },
                }
            }
        },
    }
}

/// Reads a character constant at `i`.
pub fn character_constant(s: &[char], i: usize) -> (r: Option<(char, usize)>)
    requires
        i <= s.len(),
        !(spec_character_constant(s@, i as int) is Abort),
    ensures
        spec_agrees(r, spec_character_constant(s@, i as int)),
{
    if !expect(s, i, '\'') {
        return None;
    }
    match literal_char(s, i + 1, '\'') {
        Some((c, k)) => {
            if !expect(s, k, '\'') {
                return None;
            }
            let n = skip_whitespace(s, k + 1);
            Some((c, n))
        },
        None => None,
    }
}

/// The characters that stand for bytes, one for one.
pub open spec fn spec_bytes_chars(bytes: Seq<u8>) -> Seq<char> {
    bytes.map(|_i: int, b: u8| b as char)
}

proof fn lemma_lower_hex_digit(v: int)
    requires
        0 <= v < 16,
    ensures
        spec_hex_digit_value(spec_lower_hex_digit(v)) == Some(v),
        spec_is_ascii(spec_lower_hex_digit(v)),
{
}

proof fn lemma_escape_first(b: u8, o: bool)
    ensures
        spec_escape_byte(b, '"', o).len() > 0,
        spec_is_ascii(spec_escape_byte(b, '"', o)[0]),
        !spec_octal_byte(b) ==> !spec_is_octal(spec_escape_byte(b, '"', o)[0]),
        spec_escape_byte(b, '"', o)[0] != '"',
{
}

proof fn lemma_read_escaped_byte(s: Seq<char>, p: int, b: u8, o: bool)
    requires
        0 <= p,
        p + spec_escape_byte(b, '"', o).len() < s.len(),
        s.subrange(p, p + spec_escape_byte(b, '"', o).len()) == spec_escape_byte(b, '"', o),
        spec_is_ascii(s[p + spec_escape_byte(b, '"', o).len()]),
        b == 0 && !o ==> !spec_is_octal(s[p + spec_escape_byte(b, '"', o).len()]),
    ensures
        spec_literal_char(s, p, '"') == Scan::Read(b as char, p + spec_escape_byte(b, '"', o).len()),
{
    let e = spec_escape_byte(b, '"', o);
    let n = e.len() as int;
    assert(s.subrange(p, p + n)[0] == s[p]);
    if n >= 2 {
        assert(s.subrange(p, p + n)[1] == s[p + 1]);
    }
    if n >= 4 {
        assert(s.subrange(p, p + n)[2] == s[p + 2]);
        assert(s.subrange(p, p + n)[3] == s[p + 3]);
    }
    if n == 1 {
        assert(s[p] == b as char);
        assert(spec_literal_char(s, p, '"') == Scan::Read(b as char, p + 1));
    } else if n == 2 {
        assert(s[p] == '\\');
        assert(s[p + 1] == e[1]);
        if b == 0 {
            assert(spec_octal_escape(s, p + 1) == Scan::Read(0 as char, p + 2));
        } else {
            assert(spec_simple_escape(e[1]) == Some(b as char));
        }
        assert(spec_escape_sequence(s, p) == Scan::Read(b as char, p + 2));
    } else if b == 0 {
        assert(s[p] == '\\');
        assert(s[p + 1] == '0');
        assert(s[p + 2] == '0');
        assert(s[p + 3] == '0');
        assert(spec_octal_escape(s, p + 1) == Scan::Read(0 as char, p + 4));
        assert(spec_escape_sequence(s, p) == Scan::Read(b as char, p + 4));
    } else {
        lemma_lower_hex_digit((b / 16) as int);
        lemma_lower_hex_digit((b % 16) as int);
        assert(s[p] == '\\');
        assert(s[p + 1] == 'x');
        assert(s[p + 2] == spec_lower_hex_digit((b / 16) as int));
        assert(s[p + 3] == spec_lower_hex_digit((b % 16) as int));
        assert(16 * (b / 16) + b % 16 == b);
        assert(spec_hex_escape(s, p + 2) == Scan::Read(b as char, p + 4));
        assert(spec_escape_sequence(s, p) == Scan::Read(b as char, p + 4));
    }
}

proof fn lemma_read_escaped_bytes(s: Seq<char>, p: int, bytes: Seq<u8>)
    requires
        0 <= p,
        p + spec_escape_bytes(bytes, '"').len() < s.len(),
        s.subrange(p, p + spec_escape_bytes(bytes, '"').len()) == spec_escape_bytes(bytes, '"'),
        s[p + spec_escape_bytes(bytes, '"').len()] == '"',
    ensures
        spec_literal_chars(s, p) == Scan::Read(spec_bytes_chars(bytes), p + spec_escape_bytes(
            bytes,
            '"',
        ).len()),
    decreases bytes.len(),
{
    let e = spec_escape_bytes(bytes, '"');
    if bytes.len() == 0 {
        assert(s[p] == '"');
        assert(spec_bytes_chars(bytes) == Seq::<char>::empty());
    } else {
        let b = bytes[0];
        let rest = bytes.drop_first();
        let o = bytes.len() > 1 && spec_octal_byte(bytes[1]);
        let eb = spec_escape_byte(b, '"', o);
        let er = spec_escape_bytes(rest, '"');
        assert(e == eb + er);
        let q = p + eb.len();
        assert(s.subrange(p, p + eb.len()) == eb) by {
            assert(s.subrange(p, p + eb.len()) == s.subrange(p, p + e.len()).subrange(0, eb.len() as int));
        }
        assert(s.subrange(q, q + er.len()) == er) by {
            assert(s.subrange(q, q + er.len()) == s.subrange(p, p + e.len()).subrange(eb.len() as int, e.len() as int));
        }
        if rest.len() > 0 {
            let o2 = rest.len() > 1 && spec_octal_byte(rest[1]);
            lemma_escape_first(rest[0], o2);
            assert(er == spec_escape_byte(rest[0], '"', o2) + spec_escape_bytes(rest.drop_first(), '"'));
            assert(s[q] == s.subrange(q, q + er.len())[0]);
            assert(s[q] == spec_escape_byte(rest[0], '"', o2)[0]);
            assert(bytes[1] == rest[0]);
        } else {
            assert(er.len() == 0);
            assert(s[q] == '"');
        }
        lemma_read_escaped_byte(s, p, b, o);
        lemma_read_escaped_bytes(s, q, rest);
        assert(spec_bytes_chars(bytes) == seq![b as char] + spec_bytes_chars(rest));
    }
}

/// A string literal quoted from bytes reads back as those bytes and a terminating NUL.
pub proof fn law_quote_read_string(bytes: Seq<u8>)
    ensures
        spec_string_literal(spec_c_quote(bytes, '"'), 0) == Scan::Read(
            spec_bytes_chars(bytes) + seq!['\0'],
            spec_c_quote(bytes, '"').len() as int,
        ),
{
    let s = spec_c_quote(bytes, '"');
    let e = spec_escape_bytes(bytes, '"');
    assert(s.subrange(1, 1 + e.len() as int) == e);
    assert(s[1 + e.len() as int] == '"');
    lemma_read_escaped_bytes(s, 1, bytes);
    assert(spec_expect(s, 0, '"') == Scan::Read((), 1));
    assert(spec_skip_whitespace(s, s.len() as int) == Scan::Read((), s.len() as int));
    assert(spec_quoted(s, 0) == Scan::Read(spec_bytes_chars(bytes), s.len() as int));
    assert(spec_quoted(s, s.len() as int) == Scan::<Seq<char>>::Miss);
    assert(spec_more_quoted(s, s.len() as int) == Scan::Read(Seq::<char>::empty(), s.len() as int));
    assert(spec_bytes_chars(bytes) + Seq::<char>::empty() == spec_bytes_chars(bytes));
}

} // verus!
