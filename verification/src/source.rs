//! Reading a line of assembly source: its comment is cut off and an include is split from it.

use vstd::prelude::*;
use crate::cc::preprocess::{lemma_find_pair_some, spec_before_pair, spec_find_pair};
use crate::text::{chars_of, string_from_chars};

verus! {

/// A line without a `#` that ends it, cut at its first `#` followed by a space.
pub open spec fn spec_line_text(line: Seq<char>) -> Seq<char> {
    let s = if line.len() > 0 && line.last() == '#' { line.drop_last() } else { line };
    spec_before_pair(s, '#', ' ')
}

/// The text of a line before an include, and the file it includes: what follows the first `@`
/// followed by a space.
pub open spec fn spec_source_line(line: Seq<char>) -> (Seq<char>, Option<Seq<char>>) {
    let t = spec_line_text(line);
    match spec_find_pair(t, '@', ' ') {
        Some(c) => (t.subrange(0, c), Some(t.subrange(c + 2, t.len() as int))),
        None => (t, None),
    }
}

/// The first index of `a` directly followed by `b`.
fn first_pair(s: &Vec<char>, a: char, b: char) -> (r: Option<usize>)
    ensures
        match spec_find_pair(s@, a, b) {
            Some(i) => r == Some(i as usize),
            None => r is None,
        },
{
    let mut k: usize = 0;
    proof {
        assert(s@.subrange(0, s.len() as int) =~= s@);
    }
    while k < s.len() && k + 1 < s.len()
        invariant
            k <= s.len(),
            spec_find_pair(s@, a, b) == match spec_find_pair(s@.subrange(k as int, s.len() as int), a, b) {
                Some(i) => Some(i + k),
                None => None::<int>,
            },
        decreases s.len() - k,
    {
        if s[k] == a && s[k + 1] == b {
            return Some(k);
        }
        proof {
            assert(s@.subrange(k as int, s.len() as int).drop_first() =~= s@.subrange(k + 1, s.len() as int));
        }
        k = k + 1;
    }
    None
}

/// The characters `s[from..to]`.
fn slice_chars(s: &Vec<char>, from: usize, to: usize) -> (r: Vec<char>)
    requires
        from <= to <= s.len(),
    ensures
        r@ == s@.subrange(from as int, to as int),
{
    let mut r: Vec<char> = Vec::new();
    let mut k = from;
    while k < to
        invariant
            from <= k <= to <= s.len(),
            r@ == s@.subrange(from as int, k as int),
        decreases to - k,
    {
        r.push(s[k]);
        k = k + 1;
        proof {
            assert(r@ =~= s@.subrange(from as int, k as int));
        }
    }
    r
}

/// A line of assembly source: the text before its comment and before an include, and the
/// file it includes, if any.
pub fn source_line(line: &str) -> (r: (String, Option<String>))
    ensures
        r.0@ == spec_source_line(line@).0,
        match (r.1, spec_source_line(line@).1) {
            (Some(f), Some(g)) => f@ == g,
            (None, None) => true,
            _ => false,
        },
{
    let cs = chars_of(line);
    let n = cs.len();
    let end = if n > 0 && cs[n - 1] == '#' { n - 1 } else { n };
    let s = slice_chars(&cs, 0, end);
    proof {
        lemma_find_pair_some(s@, '#', ' ');
        if n > 0 && cs@[n - 1] == '#' {
            assert(s@ =~= line@.drop_last());
        } else {
            assert(s@ =~= line@);
        }
    }
    let cut = match first_pair(&s, '#', ' ') {
        Some(i) => i,
        None => s.len(),
    };
    let t = slice_chars(&s, 0, cut);
    proof {
        assert(t@ =~= spec_line_text(line@));
        lemma_find_pair_some(t@, '@', ' ');
    }
    match first_pair(&t, '@', ' ') {
        Some(c) => {
            let text = slice_chars(&t, 0, c);
            let file = slice_chars(&t, c + 2, t.len());
            (string_from_chars(&text), Some(string_from_chars(&file)))
        },
        None => (string_from_chars(&t), None),
    }
}

} // verus!
