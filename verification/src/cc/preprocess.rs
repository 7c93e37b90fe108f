//! The first stage of the C preprocessor: joining continued lines and removing comments.

use vstd::prelude::*;
use crate::text::{chars_of, string_from_chars};

verus! {

/// The first index at which `a` is directly followed by `b`.
pub open spec fn spec_find_pair(s: Seq<char>, a: char, b: char) -> Option<int>
    decreases s.len(),
{
    if s.len() < 2 {
        None
    } else if s[0] == a && s[1] == b {
        Some(0)
    } else {
        match spec_find_pair(s.drop_first(), a, b) {
            Some(i) => Some(i + 1),
            None => None,
        }
    }
}

/// The first index of `c`.
pub open spec fn spec_find_char(s: Seq<char>, c: char) -> Option<int>
    decreases s.len(),
{
    if s.len() == 0 {
        None
    } else if s[0] == c {
        Some(0)
    } else {
        match spec_find_char(s.drop_first(), c) {
            Some(i) => Some(i + 1),
            None => None,
        }
    }
}

/// The text before the first `a` directly followed by `b`, or all of it.
pub open spec fn spec_before_pair(s: Seq<char>, a: char, b: char) -> Seq<char> {
    match spec_find_pair(s, a, b) {
        Some(i) => s.subrange(0, i),
        None => s,
    }
}

/// The text with every backslash that ends a line removed together with its newline, scanning
/// from the left.
pub open spec fn spec_join_lines(s: Seq<char>) -> Seq<char>
    decreases s.len(),
{
    if s.len() == 0 {
        s
    } else if s.len() >= 2 && s[0] == '\\' && s[1] == '\n' {
        spec_join_lines(s.subrange(2, s.len() as int))
    } else {
        seq![s[0]] + spec_join_lines(s.drop_first())
    }
}

/// Each line, split at newlines, cut at its first `//` and ended by a newline.
pub open spec fn spec_strip_line_comments(s: Seq<char>) -> Seq<char>
    decreases s.len(),
{
    proof {
        lemma_find_char_some(s, '\n');
    }
    match spec_find_char(s, '\n') {
        None => spec_before_pair(s, '/', '/') + seq!['\n'],
        Some(i) => spec_before_pair(s.subrange(0, i), '/', '/') + seq!['\n']
            + spec_strip_line_comments(s.subrange(i + 1, s.len() as int)),
    }
}

/// Each piece, split at `*/`, cut at its first `/*` and ended by a space: a block comment
/// becomes one space.
pub open spec fn spec_strip_block_comments(s: Seq<char>) -> Seq<char>
    decreases s.len(),
{
    proof {
        lemma_find_pair_some(s, '*', '/');
    }
    match spec_find_pair(s, '*', '/') {
        None => spec_before_pair(s, '/', '*') + seq![' '],
        Some(i) => spec_before_pair(s.subrange(0, i), '/', '*') + seq![' ']
            + spec_strip_block_comments(s.subrange(i + 2, s.len() as int)),
    }
}

/// The source as the directives see it: continued lines joined, then line comments, then block
/// comments removed.
pub open spec fn spec_strip_comments(s: Seq<char>) -> Seq<char> {
    spec_strip_block_comments(spec_strip_line_comments(spec_join_lines(s)))
}

/// A pair found lies inside the text.
pub proof fn lemma_find_pair_some(s: Seq<char>, a: char, b: char)
    ensures
        spec_find_pair(s, a, b) matches Some(i) ==> 0 <= i && i + 2 <= s.len(),
    decreases s.len(),
{
    if s.len() >= 2 {
        lemma_find_pair_some(s.drop_first(), a, b);
    }
}

/// A character found lies inside the text.
pub proof fn lemma_find_char_some(s: Seq<char>, c: char)
    ensures
        spec_find_char(s, c) matches Some(i) ==> 0 <= i < s.len(),
    decreases s.len(),
{
    if s.len() > 0 {
        lemma_find_char_some(s.drop_first(), c);
    }
}

/// The first index in `s[from..to]`, counted from `from`, at which `a` is directly followed by
/// `b`.
fn find_pair(s: &Vec<char>, from: usize, to: usize, a: char, b: char) -> (r: Option<usize>)
    requires
        from <= to <= s.len(),
    ensures
        match spec_find_pair(s@.subrange(from as int, to as int), a, b) {
            Some(i) => r == Some((from + i) as usize),
            None => r is None,
        },
{
    let mut k = from;
    while k < to && k + 1 < to
        invariant
            from <= k <= to,
            to <= s.len(),
            spec_find_pair(s@.subrange(from as int, to as int), a, b) == match spec_find_pair(
                s@.subrange(k as int, to as int),
                a,
                b,
            ) {
                Some(i) => Some(i + (k - from)),
                None => None::<int>,
            },
        decreases to - k,
    {
        if s[k] == a && s[k + 1] == b {
            return Some(k);
        }
        proof {
            assert(s@.subrange(k as int, to as int).drop_first() =~= s@.subrange(k + 1, to as int));
        }
        k = k + 1;
    }
    None
}

/// The first index in `s[from..to]`, counted from `from`, of `c`.
fn find_char(s: &Vec<char>, from: usize, to: usize, c: char) -> (r: Option<usize>)
    requires
        from <= to <= s.len(),
    ensures
        match spec_find_char(s@.subrange(from as int, to as int), c) {
            Some(i) => r == Some((from + i) as usize),
            None => r is None,
        },
{
    let mut k = from;
    while k < to
        invariant
            from <= k <= to,
            to <= s.len(),
            spec_find_char(s@.subrange(from as int, to as int), c) == match spec_find_char(
                s@.subrange(k as int, to as int),
                c,
            ) {
                Some(i) => Some(i + (k - from)),
                None => None::<int>,
            },
        decreases to - k,
    {
        if s[k] == c {
            return Some(k);
        }
        proof {
            assert(s@.subrange(k as int, to as int).drop_first() =~= s@.subrange(k + 1, to as int));
        }
        k = k + 1;
    }
    None
}

/// Appends `s[from..to]` cut at its first `a` directly followed by `b`.
fn push_before_pair(out: &mut Vec<char>, s: &Vec<char>, from: usize, to: usize, a: char, b: char)
    requires
        from <= to <= s.len(),
    ensures
        final(out)@ == old(out)@ + spec_before_pair(s@.subrange(from as int, to as int), a, b),
{
    proof {
        lemma_find_pair_some(s@.subrange(from as int, to as int), a, b);
    }
    let end = match find_pair(s, from, to, a, b) {
        Some(i) => i,
        None => to,
    };
    let ghost o = out@;
    let mut k = from;
    while k < end
        invariant
            from <= k <= end <= to <= s.len(),
            out@ == o + s@.subrange(from as int, k as int),
        decreases end - k,
    {
        out.push(s[k]);
        k = k + 1;
        proof {
            assert(out@ =~= o + s@.subrange(from as int, k as int));
        }
    }
    proof {
        let sub = s@.subrange(from as int, to as int);
        assert(sub.subrange(0, end - from) =~= s@.subrange(from as int, end as int));
        assert(spec_before_pair(sub, a, b) =~= s@.subrange(from as int, end as int));
    }
}

fn join_lines(s: &Vec<char>) -> (r: Vec<char>)
    ensures
        r@ == spec_join_lines(s@),
{
    let mut out: Vec<char> = Vec::new();
    let mut i: usize = 0;
    proof {
        assert(s@.subrange(0, s.len() as int) =~= s@);
    }
    while i < s.len()
        invariant
            i <= s.len(),
            out@ + spec_join_lines(s@.subrange(i as int, s.len() as int)) == spec_join_lines(s@),
        decreases s.len() - i,
    {
        let ghost rest = s@.subrange(i as int, s.len() as int);
        if i + 1 < s.len() && s[i] == '\\' && s[i + 1] == '\n' {
            proof {
                assert(rest.subrange(2, rest.len() as int) =~= s@.subrange(i + 2, s.len() as int));
            }
            i = i + 2;
        } else {
            proof {
                assert(rest.drop_first() =~= s@.subrange(i + 1, s.len() as int));
            }
            out.push(s[i]);
            i = i + 1;
            proof {
                assert(out@ + spec_join_lines(s@.subrange(i as int, s.len() as int)) =~= out@.drop_last()
                    + spec_join_lines(rest));
            }
        }
    }
    proof {
        assert(s@.subrange(i as int, s.len() as int) =~= Seq::<char>::empty());
        assert(out@ =~= out@ + spec_join_lines(s@.subrange(i as int, s.len() as int)));
    }
    out
}

fn strip_line_comments(s: &Vec<char>) -> (r: Vec<char>)
    ensures
        r@ == spec_strip_line_comments(s@),
{
    let mut out: Vec<char> = Vec::new();
    let mut i: usize = 0;
    proof {
        assert(s@.subrange(0, s.len() as int) =~= s@);
    }
    loop
        invariant
            i <= s.len(),
            out@ + spec_strip_line_comments(s@.subrange(i as int, s.len() as int)) == spec_strip_line_comments(s@),
        ensures
            out@ == spec_strip_line_comments(s@),
        decreases s.len() - i,
    {
        let ghost rest = s@.subrange(i as int, s.len() as int);
        let ghost o = out@;
        proof {
            lemma_find_char_some(rest, '\n');
        }
        match find_char(s, i, s.len(), '\n') {
            None => {
                push_before_pair(&mut out, s, i, s.len(), '/', '/');
                out.push('\n');
                proof {
                    assert(out@ =~= o + spec_strip_line_comments(rest));
                }
                return out;
            },
            Some(j) => {
                proof {
                    assert(s@.subrange(i as int, j as int) =~= rest.subrange(0, j - i));
                    assert(s@.subrange(j + 1, s.len() as int) =~= rest.subrange(j - i + 1, rest.len() as int));
                }
                push_before_pair(&mut out, s, i, j, '/', '/');
                out.push('\n');
                i = j + 1;
                proof {
                    assert(out@ + spec_strip_line_comments(s@.subrange(i as int, s.len() as int)) =~= o
                        + spec_strip_line_comments(rest));
                }
            },
        }
    }
}

fn strip_block_comments(s: &Vec<char>) -> (r: Vec<char>)
    ensures
        r@ == spec_strip_block_comments(s@),
{
    let mut out: Vec<char> = Vec::new();
    let mut i: usize = 0;
    proof {
        assert(s@.subrange(0, s.len() as int) =~= s@);
    }
    loop
        invariant
            i <= s.len(),
            out@ + spec_strip_block_comments(s@.subrange(i as int, s.len() as int)) == spec_strip_block_comments(s@),
        ensures
            out@ == spec_strip_block_comments(s@),
        decreases s.len() - i,
    {
        let ghost rest = s@.subrange(i as int, s.len() as int);
        let ghost o = out@;
        proof {
            lemma_find_pair_some(rest, '*', '/');
        }
        match find_pair(s, i, s.len(), '*', '/') {
            None => {
                push_before_pair(&mut out, s, i, s.len(), '/', '*');
                out.push(' ');
                proof {
                    assert(out@ =~= o + spec_strip_block_comments(rest));
                }
                return out;
            },
            Some(j) => {
                proof {
                    assert(s@.subrange(i as int, j as int) =~= rest.subrange(0, j - i));
                    assert(s@.subrange(j + 2, s.len() as int) =~= rest.subrange(j - i + 2, rest.len() as int));
                }
                push_before_pair(&mut out, s, i, j, '/', '*');
                out.push(' ');
                i = j + 2;
                proof {
                    assert(out@ + spec_strip_block_comments(s@.subrange(i as int, s.len() as int)) =~= o
                        + spec_strip_block_comments(rest));
                }
            },
        }
    }
}

/// The source with continued lines joined and comments removed: each line ends in a newline
/// and each block comment leaves a space, as the directives of the preprocessor expect.
pub fn strip_comments(source: &str) -> (r: String)
    ensures
        r@ == spec_strip_comments(source@),
{
    let s = chars_of(source);
    let joined = join_lines(&s);
    let lines = strip_line_comments(&joined);
    let blocks = strip_block_comments(&lines);
    string_from_chars(&blocks)
}

} // verus!
