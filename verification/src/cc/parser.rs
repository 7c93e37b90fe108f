//! Parser combinators. A parser is a function from the input to a parse result; the combinators
//! build parsers from parsers. A parser here is generic over its function, so that the behavior
//! of every parser built by a combinator is stated in terms of the parsers it is built from.

use std::marker::PhantomData;
use vstd::prelude::*;
use crate::cc::parse_result::{
    merge_expecteds, spec_after_both, spec_merged, spec_strings, Expecteds, ParseResult,
};
use crate::text::{
    chars_of, is_whitespace, push_chars, push_decimal, spec_decimal, spec_is_whitespace, string_chars,
    string_from_chars,
};
use vstd::string::StringExecFns;
use vstd::utf8::{decode_utf8, encode_utf8, is_char_boundary};

verus! {

/// A parser: a function from the input to a parse result.
#[verifier::reject_recursive_types(T)]
pub struct Parser<T, F: Fn(&str) -> ParseResult<T>>(pub F, pub PhantomData<T>);

/// Whether a parser accepts every input.
pub open spec fn spec_total<T, F: Fn(&str) -> ParseResult<T>>(f: F) -> bool {
    forall|i: &str| f.requires((i,))
}

/// Whether a result is a match of `m` with the rest `rest`, the rest taken as characters.
pub open spec fn spec_matched<T>(r: ParseResult<T>, m: T, rest: Seq<char>) -> bool {
    r matches ParseResult::Matched((v, s)) && v == m && s@ == rest
}

/// Whether a result is a failure expecting `expecteds` at `rest`.
pub open spec fn spec_failed<T>(r: ParseResult<T>, expecteds: Seq<Seq<char>>, rest: Seq<char>) -> bool {
    r matches ParseResult::Failed((e, s)) && spec_strings(e@) == expecteds && s@ == rest
}

impl<T: Clone, F: Fn(&str) -> ParseResult<T>> Parser<T, F> {
    /// A parser that matches `m` without consuming input.
    pub fn pure(m: T) -> (p: Parser<T, impl Fn(&str) -> ParseResult<T>>)
        ensures
            spec_total(p.0),
            forall|i: &str, r: ParseResult<T>| #[trigger] p.0.ensures((i,), r) ==> (r matches ParseResult::Matched((v, s)) && cloned(m, v) && s@ == i@),
    {
        let f = move |input: &str| -> (r: ParseResult<T>)
            ensures
                r matches ParseResult::Matched((v, s)) && spec_cloned_from(&m, v) && s@ == input@,
            {
                ParseResult::Matched((m.clone(), String::from_str(input)))
            };
        Parser(f, PhantomData)
    }

    /// A parser that fails expecting `expecteds` without consuming input.
    pub fn expected(expecteds: Expecteds) -> (p: Parser<T, impl Fn(&str) -> ParseResult<T>>)
        ensures
            spec_total(p.0),
            forall|i: &str, r: ParseResult<T>| #[trigger] p.0.ensures((i,), r) ==> spec_failed(r, spec_strings(expecteds@), i@),
    {
        let f = move |input: &str| -> (r: ParseResult<T>)
            ensures
                spec_failed(r, spec_strings(expecteds@), input@),
            {
                ParseResult::Failed((clone_strings(&expecteds), String::from_str(input)))
            };
        Parser(f, PhantomData)
    }
}

/// Whether a parser function accepts the input `i`.
pub open spec fn spec_accepts<T, F: Fn(&str) -> ParseResult<T>>(f: &F, i: &str) -> bool {
    (*f).requires((i,))
}

/// Whether a parser function may give `r` on input `i`.
pub open spec fn spec_runs<T, F: Fn(&str) -> ParseResult<T>>(f: &F, i: &str, r: ParseResult<T>) -> bool {
    (*f).ensures((i,), r)
}

/// Whether a function accepts every argument.
pub open spec fn spec_all_requires<A, B, G: Fn(A) -> B>(g: &G) -> bool {
    forall|a: A| (*g).requires((a,))
}

/// Whether `r` is `r1` with `g` applied to its match.
pub open spec fn spec_mapped<T, U, G: Fn(T) -> U>(r1: ParseResult<T>, g: &G, r: ParseResult<U>) -> bool {
    match r1 {
        ParseResult::Matched((m, s)) => r matches ParseResult::Matched((v, s2)) && (*g).ensures((m,), v) && s2 == s,
        ParseResult::Failed(e) => r matches ParseResult::Failed(e2) && e2 == e,
        ParseResult::Both((m, s), e) => r matches ParseResult::Both((v, s2), e2) && (*g).ensures((m,), v) && s2 == s && e2 == e,
    }
}

/// Whether `r` is `r1` with `g` applied to its failure.
pub open spec fn spec_mapped_err<T, G: Fn(Expecteds) -> Expecteds>(r1: ParseResult<T>, g: &G, r: ParseResult<T>) -> bool {
    match r1 {
        ParseResult::Matched(m) => r == ParseResult::Matched(m),
        ParseResult::Failed((e, s)) => r matches ParseResult::Failed((e2, s2)) && (*g).ensures((e,), e2) && s2 == s,
        ParseResult::Both(m, (e, s)) => r matches ParseResult::Both(m2, (e2, s2)) && m2 == m && (*g).ensures((e,), e2) && s2 == s,
    }
}

impl<T, F: Fn(&str) -> ParseResult<T>> Parser<T, F> {
    /// The parser with `g` applied to its match.
    pub fn map<U, G: Fn(T) -> U>(self, g: G) -> (p: Parser<U, impl Fn(&str) -> ParseResult<U>>)
        requires
            forall|m: T| g.requires((m,)),
        ensures
            forall|i: &str| self.0.requires((i,)) ==> #[trigger] p.0.requires((i,)),
            forall|i: &str, r: ParseResult<U>| #[trigger] p.0.ensures((i,), r) ==> exists|r1: ParseResult<T>| self.0.ensures((i,), r1) && spec_mapped(r1, &g, r),
    {
        let f = self.0;
        let h = move |input: &str| -> (r: ParseResult<U>)
            requires
                spec_accepts(&f, input),
                spec_all_requires(&g),
            ensures
                exists|r1: ParseResult<T>| spec_runs(&f, input, r1) && spec_mapped(r1, &g, r),
            {
                let r1 = f(input);
                let ghost w = r1;
                let r = match r1 {
                    ParseResult::Matched((m, s)) => ParseResult::Matched((g(m), s)),
                    ParseResult::Failed(e) => ParseResult::Failed(e),
                    ParseResult::Both((m, s), e) => ParseResult::Both((g(m), s), e),
                };
                assert(spec_runs(&f, input, w) && spec_mapped(w, &g, r));
                r
            };
        Parser(h, PhantomData)
    }

    /// The parser with `g` applied to its failure.
    pub fn map_err<G: Fn(Expecteds) -> Expecteds>(self, g: G) -> (p: Parser<T, impl Fn(&str) -> ParseResult<T>>)
        requires
            forall|e: Expecteds| g.requires((e,)),
        ensures
            forall|i: &str| self.0.requires((i,)) ==> #[trigger] p.0.requires((i,)),
            forall|i: &str, r: ParseResult<T>| #[trigger] p.0.ensures((i,), r) ==> exists|r1: ParseResult<T>| self.0.ensures((i,), r1) && spec_mapped_err(r1, &g, r),
    {
        let f = self.0;
        let h = move |input: &str| -> (r: ParseResult<T>)
            requires
                spec_accepts(&f, input),
                spec_all_requires(&g),
            ensures
                exists|r1: ParseResult<T>| spec_runs(&f, input, r1) && spec_mapped_err(r1, &g, r),
            {
                let r1 = f(input);
                let ghost w = r1;
                let r = match r1 {
                    ParseResult::Matched(m) => ParseResult::Matched(m),
                    ParseResult::Failed((e, s)) => ParseResult::Failed((g(e), s)),
                    ParseResult::Both(m, (e, s)) => ParseResult::Both(m, (g(e), s)),
                };
                assert(spec_runs(&f, input, w) && spec_mapped_err(w, &g, r));
                r
            };
        Parser(h, PhantomData)
    }
}

/// Whether a parser function may give `r` on an input holding the characters `s`.
pub open spec fn spec_runs_on<T, F: Fn(&str) -> ParseResult<T>>(f: &F, s: Seq<char>, r: ParseResult<T>) -> bool {
    exists|i: &str| i@ == s && #[trigger] (*f).ensures((i,), r)
}

/// Whether a parser function accepts every input holding the characters `s`.
pub open spec fn spec_accepts_on<T, F: Fn(&str) -> ParseResult<T>>(f: &F, s: Seq<char>) -> bool {
    forall|j: &str| j@ == s ==> #[trigger] (*f).requires((j,))
}

/// Whether every parser that `g` gives for the match of `r1` accepts the rest.
pub open spec fn spec_continues<T, U, Q: Fn(&str) -> ParseResult<U>, G: Fn(T) -> Parser<U, Q>>(r1: ParseResult<T>, g: &G) -> bool {
    match r1 {
        ParseResult::Matched((m, s)) => forall|q: Parser<U, Q>| #[trigger] (*g).ensures((m,), q) ==> spec_accepts_on(&q.0, s@),
        ParseResult::Both((m, s), _) => forall|q: Parser<U, Q>| #[trigger] (*g).ensures((m,), q) ==> spec_accepts_on(&q.0, s@),
        ParseResult::Failed(_) => true,
    }
}

/// Whether every parser that `g` gives for the failure of `r1` accepts the input `i`.
pub open spec fn spec_retries<T, Q: Fn(&str) -> ParseResult<T>, G: Fn(Expecteds) -> Parser<T, Q>>(r1: ParseResult<T>, g: &G, i: Seq<char>) -> bool {
    match r1 {
        ParseResult::Failed(e) => forall|c: Expecteds, q: Parser<T, Q>|
            spec_strings(c@) == spec_strings(e.0@) && #[trigger] (*g).ensures((c,), q) ==> spec_accepts_on(&q.0, i),
        _ => true,
    }
}

/// Whether `r` continues `r1` with the parser that `g` gives for its match, run on its rest.
pub open spec fn spec_chained<T, U, Q: Fn(&str) -> ParseResult<U>, G: Fn(T) -> Parser<U, Q>>(
    r1: ParseResult<T>,
    g: &G,
    r: ParseResult<U>,
) -> bool {
    match r1 {
        ParseResult::Matched((m, s)) => exists|q: Parser<U, Q>|
            #[trigger] (*g).ensures((m,), q) && spec_runs_on(&q.0, s@, r),
        ParseResult::Failed(e) => r matches ParseResult::Failed(e2) && e2 == e,
        ParseResult::Both((m, s), e) => exists|q: Parser<U, Q>, r2: ParseResult<U>|
            #[trigger] (*g).ensures((m,), q) && #[trigger] spec_runs_on(&q.0, s@, r2) && spec_after_both(r2, e, r),
    }
}

/// Whether `r` tries, on the failure of `r1`, the parser that `g` gives for its expectations,
/// run on the input `i`.
pub open spec fn spec_alternative<T, Q: Fn(&str) -> ParseResult<T>, G: Fn(Expecteds) -> Parser<T, Q>>(
    r1: ParseResult<T>,
    g: &G,
    i: Seq<char>,
    r: ParseResult<T>,
) -> bool {
    match r1 {
        ParseResult::Matched(m) => r == ParseResult::Matched(m),
        ParseResult::Failed(e) => exists|c: Expecteds, q: Parser<T, Q>, r2: ParseResult<T>|
            spec_strings(c@) == spec_strings(e.0@) && #[trigger] (*g).ensures((c,), q) && #[trigger] spec_runs_on(&q.0, i, r2)
                && spec_after_both(r2, e, r),
        ParseResult::Both(m, e) => r == ParseResult::Both(m, e),
    }
}

fn combine_after_both<U>(fr: ParseResult<U>, e: (Expecteds, String)) -> (r: ParseResult<U>)
    ensures
        spec_after_both(fr, e, r),
{
    match fr {
        ParseResult::Matched(fm) => ParseResult::Both(fm, e),
        ParseResult::Failed(fe) => ParseResult::Failed(merge_expecteds(e, fe)),
        ParseResult::Both(fm, fe) => ParseResult::Both(fm, merge_expecteds(e, fe)),
    }
}

impl<T, F: Fn(&str) -> ParseResult<T>> Parser<T, F> {
    /// The parser that continues a match with the parser that `g` gives for it.
    pub fn and_then<U, Q: Fn(&str) -> ParseResult<U>, G: Fn(T) -> Parser<U, Q>>(self, g: G) -> (p: Parser<U, impl Fn(&str) -> ParseResult<U>>)
        requires
            spec_all_requires(&g),
        ensures
            forall|i: &str| self.0.requires((i,)) && (forall|r1: ParseResult<T>| self.0.ensures((i,), r1) ==> spec_continues(r1, &g))
                ==> #[trigger] p.0.requires((i,)),
            forall|i: &str, r: ParseResult<U>| #[trigger] p.0.ensures((i,), r) ==> exists|r1: ParseResult<T>| self.0.ensures((i,), r1) && spec_chained(r1, &g, r),
    {
        let f = self.0;
        let h = move |input: &str| -> (r: ParseResult<U>)
            requires
                spec_accepts(&f, input),
                forall|r1: ParseResult<T>| spec_runs(&f, input, r1) ==> spec_continues(r1, &g),
                spec_all_requires(&g),
            ensures
                exists|r1: ParseResult<T>| spec_runs(&f, input, r1) && spec_chained(r1, &g, r),
            {
                let r1 = f(input);
                let ghost w = r1;
                let r = match r1 {
                    ParseResult::Matched((m, s)) => {
                        let ghost mg = m;
                        let q = g(m);
                        let rest = s.as_str();
                        assert(spec_runs(&f, input, w));
                        assert(spec_continues(w, &g));
                        assert(spec_gives(&g, mg, q));
                        assert(spec_accepts_on(&q.0, s@));
                        assert(spec_accepts(&q.0, rest));
                        let r2 = (q.0)(rest);
                        assert(spec_runs_on(&q.0, s@, r2));
                        r2
                    },
                    ParseResult::Failed(e) => ParseResult::Failed(e),
                    ParseResult::Both((m, s), e) => {
                        let ghost mg = m;
                        let q = g(m);
                        let rest = s.as_str();
                        assert(spec_runs(&f, input, w));
                        assert(spec_continues(w, &g));
                        assert(spec_gives(&g, mg, q));
                        assert(spec_accepts_on(&q.0, s@));
                        assert(spec_accepts(&q.0, rest));
                        let r2 = (q.0)(rest);
                        assert(spec_runs_on(&q.0, s@, r2));
                        combine_after_both(r2, e)
                    },
                };
                assert(spec_runs(&f, input, w) && spec_chained(w, &g, r));
                r
            };
        Parser(h, PhantomData)
    }

    /// The parser that, where this one fails, tries the parser that `g` gives for its
    /// expectations on the same input.
    pub fn or_else<Q: Fn(&str) -> ParseResult<T>, G: Fn(Expecteds) -> Parser<T, Q>>(self, g: G) -> (p: Parser<T, impl Fn(&str) -> ParseResult<T>>)
        requires
            spec_all_requires(&g),
        ensures
            forall|i: &str| self.0.requires((i,)) && (forall|r1: ParseResult<T>| self.0.ensures((i,), r1) ==> spec_retries(r1, &g, i@))
                ==> #[trigger] p.0.requires((i,)),
            forall|i: &str, r: ParseResult<T>| #[trigger] p.0.ensures((i,), r) ==> exists|r1: ParseResult<T>| self.0.ensures((i,), r1) && spec_alternative(r1, &g, i@, r),
    {
        let f = self.0;
        let h = move |input: &str| -> (r: ParseResult<T>)
            requires
                spec_accepts(&f, input),
                forall|r1: ParseResult<T>| spec_runs(&f, input, r1) ==> spec_retries(r1, &g, input@),
                spec_all_requires(&g),
            ensures
                exists|r1: ParseResult<T>| spec_runs(&f, input, r1) && spec_alternative(r1, &g, input@, r),
            {
                let r1 = f(input);
                let ghost w = r1;
                let r = match r1 {
                    ParseResult::Matched(m) => ParseResult::Matched(m),
                    ParseResult::Failed(e) => {
                        let c = clone_strings(&e.0);
                        let ghost cg = c;
                        let q = g(c);
                        assert(spec_runs(&f, input, w));
                        assert(spec_retries(w, &g, input@));
                        assert(spec_gives(&g, cg, q));
                        assert(spec_accepts_on(&q.0, input@));
                        assert(spec_accepts(&q.0, input));
                        let r2 = (q.0)(input);
                        assert(spec_runs_on(&q.0, input@, r2));
                        combine_after_both(r2, e)
                    },
                    ParseResult::Both(m, e) => ParseResult::Both(m, e),
                };
                assert(spec_runs(&f, input, w) && spec_alternative(w, &g, input@, r));
                r
            };
        Parser(h, PhantomData)
    }
}

/// The expectations, each followed by a space and `info`.
pub open spec fn spec_with_info(es: Seq<Seq<char>>, info: Seq<char>) -> Seq<Seq<char>> {
    es.map(|_i: int, e: Seq<char>| e + seq![' '] + info)
}

/// Whether `r` is `r1` with `info` added to each of its expectations.
pub open spec fn spec_informed<T>(r1: ParseResult<T>, info: Seq<char>, r: ParseResult<T>) -> bool {
    match r1 {
        ParseResult::Matched(m) => r == ParseResult::Matched(m),
        ParseResult::Failed((e, s)) => r matches ParseResult::Failed((e2, s2)) && s2 == s
            && spec_strings(e2@) == spec_with_info(spec_strings(e@), info),
        ParseResult::Both(m, (e, s)) => r matches ParseResult::Both(m2, (e2, s2)) && m2 == m && s2 == s
            && spec_strings(e2@) == spec_with_info(spec_strings(e@), info),
    }
}

/// Whether `r` is `r1` on input `i`, except that a failure without consuming input expects
/// `name` instead.
pub open spec fn spec_named<T>(r1: ParseResult<T>, i: Seq<char>, name: Seq<char>, r: ParseResult<T>) -> bool {
    match r1 {
        ParseResult::Matched(m) => r == ParseResult::Matched(m),
        ParseResult::Failed((e, s)) => if s@ == i {
            spec_failed(r, seq![name], i)
        } else {
            r == ParseResult::<T>::Failed((e, s))
        },
        ParseResult::Both(m, e) => r == ParseResult::Both(m, e),
    }
}

fn add_info(es: Expecteds, info: &str) -> (r: Expecteds)
    ensures
        spec_strings(r@) == spec_with_info(spec_strings(es@), info@),
{
    let mut r: Vec<String> = Vec::new();
    let mut i: usize = 0;
    while i < es.len()
        invariant
            i <= es.len(),
            spec_strings(r@) == spec_with_info(spec_strings(es@), info@).subrange(0, i as int),
        decreases es.len() - i,
    {
        let mut cs = string_chars(&es[i]);
        cs.push(' ');
        let mut tail = chars_of(info);
        cs.append(&mut tail);
        let s = string_from_chars(&cs);
        proof {
            assert(spec_strings(es@)[i as int] == es@[i as int]@);
            assert(s@ == es@[i as int]@ + seq![' '] + info@);
            assert(spec_with_info(spec_strings(es@), info@)[i as int] == s@);
            assert(spec_with_info(spec_strings(es@), info@).subrange(0, i + 1 as int)
                == spec_with_info(spec_strings(es@), info@).subrange(0, i as int).push(s@));
        }
        r.push(s);
        assert(spec_strings(r@) == spec_with_info(spec_strings(es@), info@).subrange(0, i + 1 as int));
        i = i + 1;
    }
    assert(spec_with_info(spec_strings(es@), info@).subrange(0, es.len() as int) == spec_with_info(spec_strings(es@), info@));
    r
}

impl<T, F: Fn(&str) -> ParseResult<T>> Parser<T, F> {
    /// The parser with `info` added to each of its expectations.
    pub fn info(self, info: &'static str) -> (p: Parser<T, impl Fn(&str) -> ParseResult<T>>)
        ensures
            forall|i: &str| self.0.requires((i,)) ==> #[trigger] p.0.requires((i,)),
            forall|i: &str, r: ParseResult<T>| #[trigger] p.0.ensures((i,), r) ==> exists|r1: ParseResult<T>| self.0.ensures((i,), r1) && spec_informed(r1, info@, r),
    {
        let f = self.0;
        let h = move |input: &str| -> (r: ParseResult<T>)
            requires
                spec_accepts(&f, input),
            ensures
                exists|r1: ParseResult<T>| spec_runs(&f, input, r1) && spec_informed(r1, info@, r),
            {
                let r1 = f(input);
                let ghost w = r1;
                let r = match r1 {
                    ParseResult::Matched(m) => ParseResult::Matched(m),
                    ParseResult::Failed((e, s)) => ParseResult::Failed((add_info(e, info), s)),
                    ParseResult::Both(m, (e, s)) => ParseResult::Both(m, (add_info(e, info), s)),
                };
                assert(spec_runs(&f, input, w) && spec_informed(w, info@, r));
                r
            };
        Parser(h, PhantomData)
    }

    /// The parser that, failing without consuming input, expects `name` instead of what it
    /// expected.
    pub fn name(self, name: String) -> (p: Parser<T, impl Fn(&str) -> ParseResult<T>>)
        ensures
            forall|i: &str| self.0.requires((i,)) ==> #[trigger] p.0.requires((i,)),
            forall|i: &str, r: ParseResult<T>| #[trigger] p.0.ensures((i,), r) ==> exists|r1: ParseResult<T>| self.0.ensures((i,), r1) && spec_named(r1, i@, name@, r),
    {
        let f = self.0;
        let h = move |input: &str| -> (r: ParseResult<T>)
            requires
                spec_accepts(&f, input),
            ensures
                exists|r1: ParseResult<T>| spec_runs(&f, input, r1) && spec_named(r1, input@, name@, r),
            {
                let r1 = f(input);
                let ghost w = r1;
                let r = match r1 {
                    ParseResult::Matched(m) => ParseResult::Matched(m),
                    ParseResult::Failed((e, s)) => {
                        let here = chars_of(input);
                        let rest = string_chars(&s);
                        if crate::text::chars_eq(&rest, &here) {
                            let mut names: Vec<String> = Vec::new();
                            names.push(name.clone());
                            assert(spec_strings(names@) =~= seq![name@]);
                            ParseResult::Failed((names, String::from_str(input)))
                        } else {
                            ParseResult::Failed((e, s))
                        }
                    },
                    ParseResult::Both(m, e) => ParseResult::Both(m, e),
                };
                assert(spec_runs(&f, input, w) && spec_named(w, input@, name@, r));
                r
            };
        Parser(h, PhantomData)
    }
}

/// The `Debug` rendering of a string: quoted, with escapes.
pub uninterp spec fn spec_debug_str(s: Seq<char>) -> Seq<char>;

/// Formats a string slice with `Debug` (`format!("{:?}", s)`); the contract names its result
/// and claims nothing more of it.
#[verifier::external_body]
fn debug_str(s: &str) -> (r: String)
    ensures
        r@ == spec_debug_str(s@),
{
    format!("{:?}", s)
}

/// The expectations separated by commas.
pub open spec fn spec_join(es: Seq<Seq<char>>) -> Seq<char>
    decreases es.len(),
{
    if es.len() == 0 {
        Seq::empty()
    } else if es.len() == 1 {
        es[0]
    } else {
        spec_join(es.drop_last()) + ", "@ + es.last()
    }
}

/// The expectations as a list: the last joined by ", or ".
pub open spec fn spec_expecteds_text(es: Seq<Seq<char>>) -> Seq<char> {
    if es.len() == 1 {
        es[0]
    } else {
        spec_join(es.drop_last()) + ", or "@ + es.last()
    }
}

/// What was found instead: the end of input, the input, or its first sixteen bytes.
pub open spec fn spec_got(input: Seq<char>) -> Seq<char> {
    let b = encode_utf8(input);
    if b.len() as usize == 0 {
        "end of input"@
    } else if b.len() as usize <= 16 {
        spec_debug_str(input)
    } else {
        spec_debug_str(decode_utf8(b.subrange(0, 16))) + "..."@
    }
}

/// The message for a failed parse.
pub open spec fn spec_format_expecteds(es: Seq<Seq<char>>, input: Seq<char>) -> Seq<char> {
    "Expected "@ + spec_expecteds_text(es) + " (got "@ + spec_got(input) + ")"@
}

/// Whether a failure can be formatted: it expects something, and a long input can be cut after
/// its first sixteen bytes.
pub open spec fn spec_formattable(e: (Expecteds, String)) -> bool {
    &&& e.0@.len() > 0
    &&& encode_utf8(e.1@).len() as usize > 16 ==> is_char_boundary(encode_utf8(e.1@), 16)
}

fn push_join(out: &mut Vec<char>, es: &Vec<String>, n: usize)
    requires
        n <= es@.len(),
    ensures
        final(out)@ == old(out)@ + spec_join(spec_strings(es@).subrange(0, n as int)),
    decreases n,
{
    if n == 0 {
        assert(spec_strings(es@).subrange(0, 0).len() == 0);
        assert(old(out)@ + Seq::<char>::empty() == old(out)@);
    } else if n == 1 {
        let mut cs = string_chars(&es[0]);
        out.append(&mut cs);
        assert(spec_strings(es@).subrange(0, 1)[0] == es@[0]@);
    } else {
        push_join(out, es, n - 1);
        let ghost before = out@;
        let mut sep = chars_of(", ");
        out.append(&mut sep);
        let mut cs = string_chars(&es[n - 1]);
        out.append(&mut cs);
        proof {
            let t = spec_strings(es@).subrange(0, n as int);
            assert(t.drop_last() == spec_strings(es@).subrange(0, n - 1 as int));
            assert(t.last() == es@[n - 1 as int]@);
            assert(out@ == before + ", "@ + es@[n - 1 as int]@);
        }
    }
}

/// The message for a failed parse: what was expected, and what was found instead.
pub fn format_expecteds(failure: (Expecteds, String)) -> (r: String)
    requires
        spec_formattable(failure),
    ensures
        r@ == spec_format_expecteds(spec_strings(failure.0@), failure.1@),
{
    let (expecteds, input) = failure;
    let n = expecteds.len();
    let mut out = chars_of("Expected ");
    let ghost start = out@;
    if n == 1 {
        let mut cs = string_chars(&expecteds[0]);
        out.append(&mut cs);
        assert(out@ == start + spec_expecteds_text(spec_strings(expecteds@)));
    } else {
        push_join(&mut out, &expecteds, n - 1);
        let mut sep = chars_of(", or ");
        out.append(&mut sep);
        let mut cs = string_chars(&expecteds[n - 1]);
        out.append(&mut cs);
        assert(spec_strings(expecteds@).drop_last() == spec_strings(expecteds@).subrange(0, n - 1 as int));
        assert(out@ == start + spec_expecteds_text(spec_strings(expecteds@)));
    }
    let ghost middle = out@;
    let mut got_open = chars_of(" (got ");
    out.append(&mut got_open);
    let text = input.as_str();
    let len = text.len();
    let mut got: Vec<char> = if len == 0 {
        chars_of("end of input")
    } else if len <= 16 {
        string_chars(&debug_str(text))
    } else {
        let (head, _) = text.split_at(16);
        proof {
            vstd::utf8::encode_utf8_decode_utf8(head@);
            assert(encode_utf8(head@) =~= encode_utf8(input@).subrange(0, 16));
        }
        let mut g = string_chars(&debug_str(head));
        let mut dots = chars_of("...");
        g.append(&mut dots);
        g
    };
    assert(got@ == spec_got(input@));
    out.append(&mut got);
    let mut close = chars_of(")");
    out.append(&mut close);
    string_from_chars(&out)
}

impl<T, F: Fn(&str) -> ParseResult<T>> Parser<T, F> {
    /// Parses the whole input: the match, or the message for the failure. A match that leaves
    /// input unparsed is left out: the parser must consume everything.
    pub fn parse(&self, input: &str) -> (r: Result<T, String>)
        requires
            self.0.requires((input,)),
            forall|res: ParseResult<T>| #[trigger] self.0.ensures((input,), res) ==> spec_parses_fully(res),
        ensures
            exists|res: ParseResult<T>| #[trigger] self.0.ensures((input,), res) && spec_parse_outcome(res, r),
    {
        let res = (self.0)(input);
        let ghost w = res;
        let r = match res.into_result() {
            Ok((m, _rest)) => Ok(m),
            Err(e) => Err(format_expecteds(e)),
        };
        assert(self.0.ensures((input,), w) && spec_parse_outcome(w, r));
        r
    }
}

/// Whether a result leaves no input unparsed, or fails in a way that can be formatted.
pub open spec fn spec_parses_fully<T>(res: ParseResult<T>) -> bool {
    match res {
        ParseResult::Matched((_, rest)) => rest@.len() == 0,
        ParseResult::Both((_, rest), _) => rest@.len() == 0,
        ParseResult::Failed(e) => spec_formattable(e),
    }
}

/// The outcome of parsing the whole input: the match, or the message for the failure.
pub open spec fn spec_parse_outcome<T>(res: ParseResult<T>, r: Result<T, String>) -> bool {
    match res {
        ParseResult::Matched((m, _)) => r == Ok::<T, String>(m),
        ParseResult::Both((m, _), _) => r == Ok::<T, String>(m),
        ParseResult::Failed(e) => r matches Err(s) && s@ == spec_format_expecteds(spec_strings(e.0@), e.1@),
    }
}

/// Whether `b` is a clone of `*a`.
pub open spec fn spec_cloned_from<T: Clone>(a: &T, b: T) -> bool {
    cloned(*a, b)
}

/// A copy of a list of strings.
pub fn clone_strings(v: &Vec<String>) -> (r: Vec<String>)
    ensures
        spec_strings(r@) == spec_strings(v@),
{
    let mut r: Vec<String> = Vec::new();
    let mut i: usize = 0;
    while i < v.len()
        invariant
            i <= v.len(),
            spec_strings(r@) == spec_strings(v@).subrange(0, i as int),
        decreases v.len() - i,
    {
        let s = v[i].clone();
        proof {
            assert(spec_strings(v@)[i as int] == v@[i as int]@);
            assert(spec_strings(v@).subrange(0, i + 1 as int) == spec_strings(v@).subrange(0, i as int).push(s@));
        }
        r.push(s);
        assert(spec_strings(r@) == spec_strings(v@).subrange(0, i + 1 as int));
        i = i + 1;
    }
    assert(spec_strings(v@).subrange(0, v.len() as int) == spec_strings(v@));
    r
}


/// Whether an input can be split after its first character: it is empty or starts with an
/// ASCII character, since the rest is taken from the second byte on.
pub open spec fn spec_first_ascii(i: Seq<char>) -> bool {
    i.len() == 0 || (i[0] as u32) < 0x80
}

/// Whether a parser accepts every input that can be split after its first character.
pub open spec fn spec_splits<T, F: Fn(&str) -> ParseResult<T>>(f: F) -> bool {
    forall|i: &str| spec_first_ascii(i@) ==> #[trigger] f.requires((i,))
}

/// A single expectation.
fn expecting(e: &str) -> (r: Expecteds)
    ensures
        spec_strings(r@) == seq![e@],
{
    let mut v: Vec<String> = Vec::new();
    v.push(String::from_str(e));
    assert(spec_strings(v@) =~= seq![e@]);
    v
}

/// Whether `r` is the first character of `i` and the rest, or, for an empty input, a failure
/// expecting `empty`.
pub open spec fn spec_first<T>(r: ParseResult<T>, i: Seq<char>, m: T, empty: Seq<char>) -> bool {
    if i.len() == 0 {
        spec_failed(r, seq![empty], i)
    } else {
        spec_matched(r, m, i.drop_first())
    }
}

/// The first character of a nonempty input, and the rest.
fn split_first(input: &str) -> (r: (char, String))
    requires
        input@.len() > 0,
    ensures
        r.0 == input@[0],
        r.1@ == input@.drop_first(),
{
    let n = input.unicode_len();
    let c = input.get_char(0);
    let rest = input.substring_char(1, n);
    (c, String::from_str(rest))
}

/// A parser of any one character.
pub fn any() -> (p: Parser<char, impl Fn(&str) -> ParseResult<char>>)
    ensures
        spec_splits(p.0),
        forall|i: &str, r: ParseResult<char>| #[trigger] p.0.ensures((i,), r)
            ==> spec_first(r, i@, if i@.len() > 0 { i@[0] } else { ' ' }, "any character"@),
{
    let f = |input: &str| -> (r: ParseResult<char>)
        requires
            spec_first_ascii(input@),
        ensures
            spec_first(r, input@, if input@.len() > 0 { input@[0] } else { ' ' }, "any character"@),
        {
            if input.unicode_len() == 0 {
                ParseResult::Failed((expecting("any character"), String::from_str(input)))
            } else {
                ParseResult::Matched(split_first(input))
            }
        };
    Parser(f, PhantomData)
}

/// A parser of the end of input.
pub fn eof() -> (p: Parser<(), impl Fn(&str) -> ParseResult<()>>)
    ensures
        spec_total(p.0),
        forall|i: &str, r: ParseResult<()>| #[trigger] p.0.ensures((i,), r) ==> if i@.len() == 0 {
            spec_matched(r, (), i@)
        } else {
            spec_failed(r, seq!["end of input"@], i@)
        },
{
    let f = |input: &str| -> (r: ParseResult<()>)
        ensures
            if input@.len() == 0 {
                spec_matched(r, (), input@)
            } else {
                spec_failed(r, seq!["end of input"@], input@)
            },
        {
            if input.unicode_len() == 0 {
                ParseResult::Matched(((), String::from_str(input)))
            } else {
                ParseResult::Failed((expecting("end of input"), String::from_str(input)))
            }
        };
    Parser(f, PhantomData)
}

/// Whether `g` may give `b` for `a`.
pub open spec fn spec_gives<A, B, G: Fn(A) -> B>(g: &G, a: A, b: B) -> bool {
    (*g).ensures((a,), b)
}

/// Whether `r` is what a parser of one character with property `g` gives on `i`: the
/// character if `g` holds of it, else a failure with no expectation.
pub open spec fn spec_satisfied<G: Fn(char) -> bool>(g: &G, i: Seq<char>, r: ParseResult<char>) -> bool {
    if i.len() == 0 {
        spec_failed(r, seq!["any character"@], i)
    } else {
        exists|b: bool| #[trigger] spec_gives(g, i[0], b) && if b {
            spec_matched(r, i[0], i.drop_first())
        } else {
            spec_failed(r, Seq::empty(), i)
        }
    }
}

/// A parser of one character with the property `predicate`.
pub fn satisfy<G: Fn(char) -> bool>(predicate: G) -> (p: Parser<char, impl Fn(&str) -> ParseResult<char>>)
    requires
        spec_all_requires(&predicate),
    ensures
        spec_splits(p.0),
        forall|i: &str, r: ParseResult<char>| #[trigger] p.0.ensures((i,), r) ==> spec_satisfied(&predicate, i@, r),
{
    let f = move |input: &str| -> (r: ParseResult<char>)
        requires
            spec_first_ascii(input@),
            spec_all_requires(&predicate),
        ensures
            spec_satisfied(&predicate, input@, r),
        {
            if input.unicode_len() == 0 {
                ParseResult::Failed((expecting("any character"), String::from_str(input)))
            } else {
                let (c, rest) = split_first(input);
                let b = predicate(c);
                assert(spec_gives(&predicate, input@[0], b));
                if b {
                    ParseResult::Matched((c, rest))
                } else {
                    let none: Expecteds = Vec::new();
                    assert(spec_strings(none@) =~= Seq::<Seq<char>>::empty());
                    ParseResult::Failed((none, String::from_str(input)))
                }
            }
        };
    Parser(f, PhantomData)
}

/// Whether `r` is what a parser of one character with property `holds` gives on `i`, named
/// `name`: the character and the rest, or a failure expecting `name`.
pub open spec fn spec_one_char<T>(r: ParseResult<T>, i: Seq<char>, holds: bool, m: T, name: Seq<char>) -> bool {
    if i.len() > 0 && holds {
        spec_matched(r, m, i.drop_first())
    } else {
        spec_failed(r, seq![name], i)
    }
}

/// The `Debug` rendering of a character: quoted, with escapes.
pub uninterp spec fn spec_debug_char(c: char) -> Seq<char>;

/// Formats a character with `Debug` (`format!("{:?}", c)`); the contract names its result and
/// claims nothing more of it.
#[verifier::external_body]
fn debug_char(c: char) -> (r: String)
    ensures
        r@ == spec_debug_char(c),
{
    format!("{:?}", c)
}

/// A parser of the character `ch`, expecting its `Debug` rendering.
pub fn char(ch: char) -> (p: Parser<(), impl Fn(&str) -> ParseResult<()>>)
    ensures
        spec_splits(p.0),
        forall|i: &str, r: ParseResult<()>| #[trigger] p.0.ensures((i,), r)
            ==> spec_one_char(r, i@, i@.len() > 0 && i@[0] == ch, (), spec_debug_char(ch)),
{
    let name = debug_char(ch);
    let f = move |input: &str| -> (r: ParseResult<()>)
        requires
            spec_first_ascii(input@),
        ensures
            spec_one_char(r, input@, input@.len() > 0 && input@[0] == ch, (), name@),
        {
            if input.unicode_len() > 0 {
                let (c, rest) = split_first(input);
                if c == ch {
                    return ParseResult::Matched(((), rest));
                }
            }
            ParseResult::Failed((expecting(name.as_str()), String::from_str(input)))
        };
    Parser(f, PhantomData)
}

/// A parser of any character but `ch`, expecting `non-` and its `Debug` rendering.
pub fn char_not(ch: char) -> (p: Parser<char, impl Fn(&str) -> ParseResult<char>>)
    ensures
        spec_splits(p.0),
        forall|i: &str, r: ParseResult<char>| #[trigger] p.0.ensures((i,), r)
            ==> spec_one_char(r, i@, i@.len() > 0 && i@[0] != ch, if i@.len() > 0 { i@[0] } else { ' ' }, "non-"@ + spec_debug_char(ch)),
{
    let mut name = String::from_str("non-");
    name.append(debug_char(ch).as_str());
    let f = move |input: &str| -> (r: ParseResult<char>)
        requires
            spec_first_ascii(input@),
        ensures
            spec_one_char(r, input@, input@.len() > 0 && input@[0] != ch, if input@.len() > 0 { input@[0] } else { ' ' }, name@),
        {
            if input.unicode_len() > 0 {
                let (c, rest) = split_first(input);
                if c != ch {
                    return ParseResult::Matched((c, rest));
                }
            }
            ParseResult::Failed((expecting(name.as_str()), String::from_str(input)))
        };
    Parser(f, PhantomData)
}

/// Whether `c` occurs in `s`.
fn contains_char(s: &str, c: char) -> (r: bool)
    ensures
        r == s@.contains(c),
{
    let n = s.unicode_len();
    let mut i: usize = 0;
    while i < n
        invariant
            n == s@.len(),
            i <= n,
            forall|j: int| 0 <= j < i ==> s@[j] != c,
        decreases n - i,
    {
        if s.get_char(i) == c {
            return true;
        }
        i = i + 1;
    }
    false
}

/// A parser of any character not in `chars`.
pub fn char_none_of(chars: &'static str) -> (p: Parser<char, impl Fn(&str) -> ParseResult<char>>)
    ensures
        spec_splits(p.0),
        forall|i: &str, r: ParseResult<char>| #[trigger] p.0.ensures((i,), r)
            ==> spec_one_char(r, i@, i@.len() > 0 && !chars@.contains(i@[0]), if i@.len() > 0 { i@[0] } else { ' ' }, "none of `"@ + chars@ + "`"@),
{
    let mut name = String::from_str("none of `");
    name.append(chars);
    name.append("`");
    let f = move |input: &str| -> (r: ParseResult<char>)
        requires
            spec_first_ascii(input@),
        ensures
            spec_one_char(r, input@, input@.len() > 0 && !chars@.contains(input@[0]), if input@.len() > 0 { input@[0] } else { ' ' }, name@),
        {
            if input.unicode_len() > 0 {
                let (c, rest) = split_first(input);
                if !contains_char(chars, c) {
                    return ParseResult::Matched((c, rest));
                }
            }
            ParseResult::Failed((expecting(name.as_str()), String::from_str(input)))
        };
    Parser(f, PhantomData)
}

/// The value of a digit in bases up to 36: `0`-`9`, then `a`-`z` or `A`-`Z` from ten.
pub open spec fn spec_digit_value(c: char) -> int {
    if '0' <= c && c <= '9' {
        c as int - '0' as int
    } else if 'a' <= c && c <= 'z' {
        c as int - 'a' as int + 10
    } else if 'A' <= c && c <= 'Z' {
        c as int - 'A' as int + 10
    } else {
        36
    }
}

/// Whether `c` is a digit in base `radix` (`char::is_digit`).
pub open spec fn spec_is_digit(c: char, radix: u32) -> bool {
    spec_digit_value(c) < radix
}

fn is_digit(c: char, radix: u32) -> (r: bool)
    ensures
        r == spec_is_digit(c, radix),
{
    let v: u32 = if '0' <= c && c <= '9' {
        c as u32 - '0' as u32
    } else if 'a' <= c && c <= 'z' {
        c as u32 - 'a' as u32 + 10
    } else if 'A' <= c && c <= 'Z' {
        c as u32 - 'A' as u32 + 10
    } else {
        36
    };
    v < radix
}

/// What a digit of base `radix` is called.
pub open spec fn spec_digit_name(radix: u32) -> Seq<char> {
    if radix == 2 {
        "binary digit"@
    } else if radix == 8 {
        "octal digit"@
    } else if radix == 10 {
        "decimal digit"@
    } else if radix == 16 {
        "hexadecimal digit"@
    } else {
        "base-"@ + spec_decimal(radix as nat) + " digit"@
    }
}

fn digit_name(radix: u32) -> (r: String)
    ensures
        r@ == spec_digit_name(radix),
{
    if radix == 2 {
        String::from_str("binary digit")
    } else if radix == 8 {
        String::from_str("octal digit")
    } else if radix == 10 {
        String::from_str("decimal digit")
    } else if radix == 16 {
        String::from_str("hexadecimal digit")
    } else {
        let mut cs = chars_of("base-");
        push_decimal(&mut cs, radix as usize);
        let mut tail = chars_of(" digit");
        cs.append(&mut tail);
        string_from_chars(&cs)
    }
}

/// A parser of a digit in base `radix`, from 2 to 36.
pub fn digit(radix: u32) -> (p: Parser<char, impl Fn(&str) -> ParseResult<char>>)
    requires
        2 <= radix <= 36,
    ensures
        spec_splits(p.0),
        forall|i: &str, r: ParseResult<char>| #[trigger] p.0.ensures((i,), r)
            ==> spec_one_char(r, i@, i@.len() > 0 && spec_is_digit(i@[0], radix), if i@.len() > 0 { i@[0] } else { ' ' }, spec_digit_name(radix)),
{
    let name = digit_name(radix);
    let f = move |input: &str| -> (r: ParseResult<char>)
        requires
            spec_first_ascii(input@),
        ensures
            spec_one_char(r, input@, input@.len() > 0 && spec_is_digit(input@[0], radix), if input@.len() > 0 { input@[0] } else { ' ' }, name@),
        {
            if input.unicode_len() > 0 {
                let (c, rest) = split_first(input);
                if is_digit(c, radix) {
                    return ParseResult::Matched((c, rest));
                }
            }
            ParseResult::Failed((expecting(name.as_str()), String::from_str(input)))
        };
    Parser(f, PhantomData)
}

/// Whether a character is alphabetic in Unicode (`char::is_alphabetic`).
pub uninterp spec fn spec_is_alphabetic(c: char) -> bool;

/// Whether a character has the Unicode `Alphabetic` property (`char::is_alphabetic`); the
/// contract names its result and claims nothing more of it.
#[verifier::external_body]
fn is_alphabetic(c: char) -> (r: bool)
    ensures
        r == spec_is_alphabetic(c),
{
    c.is_alphabetic()
}

/// A parser of an alphabetic character.
pub fn alphabetic() -> (p: Parser<char, impl Fn(&str) -> ParseResult<char>>)
    ensures
        spec_splits(p.0),
        forall|i: &str, r: ParseResult<char>| #[trigger] p.0.ensures((i,), r)
            ==> spec_one_char(r, i@, i@.len() > 0 && spec_is_alphabetic(i@[0]), if i@.len() > 0 { i@[0] } else { ' ' }, "alphabetic character"@),
{
    let f = |input: &str| -> (r: ParseResult<char>)
        requires
            spec_first_ascii(input@),
        ensures
            spec_one_char(r, input@, input@.len() > 0 && spec_is_alphabetic(input@[0]), if input@.len() > 0 { input@[0] } else { ' ' }, "alphabetic character"@),
        {
            if input.unicode_len() > 0 {
                let (c, rest) = split_first(input);
                if is_alphabetic(c) {
                    return ParseResult::Matched((c, rest));
                }
            }
            ParseResult::Failed((expecting("alphabetic character"), String::from_str(input)))
        };
    Parser(f, PhantomData)
}

/// A parser of a newline character.
pub fn newline() -> (p: Parser<(), impl Fn(&str) -> ParseResult<()>>)
    ensures
        spec_splits(p.0),
        forall|i: &str, r: ParseResult<()>| #[trigger] p.0.ensures((i,), r)
            ==> spec_one_char(r, i@, i@.len() > 0 && i@[0] == '\n', (), "newline character"@),
{
    let f = |input: &str| -> (r: ParseResult<()>)
        requires
            spec_first_ascii(input@),
        ensures
            spec_one_char(r, input@, input@.len() > 0 && input@[0] == '\n', (), "newline character"@),
        {
            if input.unicode_len() > 0 {
                let (c, rest) = split_first(input);
                if c == '\n' {
                    return ParseResult::Matched(((), rest));
                }
            }
            ParseResult::Failed((expecting("newline character"), String::from_str(input)))
        };
    Parser(f, PhantomData)
}

/// A parser of a white-space character.
pub fn whitespace() -> (p: Parser<char, impl Fn(&str) -> ParseResult<char>>)
    ensures
        spec_splits(p.0),
        forall|i: &str, r: ParseResult<char>| #[trigger] p.0.ensures((i,), r)
            ==> spec_one_char(r, i@, i@.len() > 0 && spec_is_whitespace(i@[0]), if i@.len() > 0 { i@[0] } else { ' ' }, "whitespace character"@),
{
    let f = |input: &str| -> (r: ParseResult<char>)
        requires
            spec_first_ascii(input@),
        ensures
            spec_one_char(r, input@, input@.len() > 0 && spec_is_whitespace(input@[0]), if input@.len() > 0 { input@[0] } else { ' ' }, "whitespace character"@),
        {
            if input.unicode_len() > 0 {
                let (c, rest) = split_first(input);
                if is_whitespace(c) {
                    return ParseResult::Matched((c, rest));
                }
            }
            ParseResult::Failed((expecting("whitespace character"), String::from_str(input)))
        };
    Parser(f, PhantomData)
}


/// How many characters of `i` from `k` on agree with `s`, counted from the start.
pub open spec fn spec_agree(i: Seq<char>, s: Seq<char>, k: nat) -> nat
    decreases s.len() - k,
{
    if k < s.len() && k < i.len() && i[k as int] == s[k as int] {
        spec_agree(i, s, k + 1)
    } else {
        k
    }
}

/// What the parser of the string `s` gives on `i`: the rest after `s`; a failure expecting the
/// `Debug` rendering of `s` where its first character disagrees; or a failure expecting the
/// first character that disagrees, where it stands.
pub open spec fn spec_string_result(r: ParseResult<()>, i: Seq<char>, s: Seq<char>) -> bool {
    let m = spec_agree(i, s, 0);
    if m == s.len() {
        spec_matched(r, (), i.subrange(m as int, i.len() as int))
    } else if m == 0 {
        spec_failed(r, seq![spec_debug_str(s)], i)
    } else {
        spec_failed(r, seq![spec_debug_char(s[m as int])], i.subrange(m as int, i.len() as int))
    }
}

/// Whether the parser of `s` can take the input `i` apart: up to where they disagree, each
/// character it reads starts the input it reads from with an ASCII character.
pub open spec fn spec_string_splits(i: Seq<char>, s: Seq<char>) -> bool {
    forall|k: int| 0 <= k <= spec_agree(i, s, 0) && k < s.len() ==> #[trigger] spec_first_ascii(i.subrange(k, i.len() as int))
}

proof fn lemma_agree_bounds(i: Seq<char>, s: Seq<char>, k: nat)
    requires
        k <= s.len(),
        k <= i.len(),
    ensures
        k <= spec_agree(i, s, k) <= s.len(),
        spec_agree(i, s, k) <= i.len(),
        forall|j: int| k <= j < spec_agree(i, s, k) ==> i[j] == s[j],
        spec_agree(i, s, k) < s.len() && spec_agree(i, s, k) < i.len() ==> i[spec_agree(i, s, k) as int] != s[spec_agree(i, s, k) as int],
    decreases s.len() - k,
{
    if k < s.len() && k < i.len() && i[k as int] == s[k as int] {
        lemma_agree_bounds(i, s, k + 1);
    }
}

/// A parser of the string `s`, which is not empty.
pub fn string(s: &'static str) -> (p: Parser<(), impl Fn(&str) -> ParseResult<()>>)
    requires
        s@.len() > 0,
    ensures
        forall|i: &str| spec_string_splits(i@, s@) ==> #[trigger] p.0.requires((i,)),
        forall|i: &str, r: ParseResult<()>| #[trigger] p.0.ensures((i,), r) ==> spec_string_result(r, i@, s@),
{
    let name = debug_str(s);
    let f = move |input: &str| -> (r: ParseResult<()>)
        requires
            spec_string_splits(input@, s@),
        ensures
            spec_string_result(r, input@, s@),
        {
            let want = chars_of(s);
            let have = chars_of(input);
            let mut k: usize = 0;
            proof {
                lemma_agree_bounds(input@, s@, 0);
            }
            while k < want.len() && k < have.len() && have[k] == want[k]
                invariant
                    want@ == s@,
                    have@ == input@,
                    k <= spec_agree(input@, s@, 0),
                    forall|j: int| 0 <= j < spec_agree(input@, s@, 0) ==> input@[j] == s@[j],
                    spec_agree(input@, s@, 0) <= s@.len(),
                    spec_agree(input@, s@, 0) <= input@.len(),
                    spec_agree(input@, s@, 0) < s@.len() && spec_agree(input@, s@, 0) < input@.len() ==> input@[spec_agree(input@, s@, 0) as int] != s@[spec_agree(input@, s@, 0) as int],
                decreases want.len() - k,
            {
                k = k + 1;
            }
            let rest = input.substring_char(k, have.len());
            if k == want.len() {
                ParseResult::Matched(((), String::from_str(rest)))
            } else if k == 0 {
                ParseResult::Failed((expecting(name.as_str()), String::from_str(input)))
            } else {
                let expected = debug_char(want[k]);
                ParseResult::Failed((expecting(expected.as_str()), String::from_str(rest)))
            }
        };
    Parser(f, PhantomData)
}

/// Whether `r` is `r1` with its match made optional: a failure becomes a match of nothing at
/// the input `i`, keeping the failure.
pub open spec fn spec_maybe<T>(r1: ParseResult<T>, i: Seq<char>, r: ParseResult<Option<T>>) -> bool {
    match r1 {
        ParseResult::Matched((m, s)) => r == ParseResult::Matched((Some(m), s)),
        ParseResult::Both((m, s), e) => r == ParseResult::Both((Some(m), s), e),
        ParseResult::Failed(e) => r matches ParseResult::Both((v, s), e2) && v is None && s@ == i && e2 == e,
    }
}

/// The parser that makes the match of `parser` optional.
pub fn maybe<T, F: Fn(&str) -> ParseResult<T>>(parser: Parser<T, F>) -> (p: Parser<Option<T>, impl Fn(&str) -> ParseResult<Option<T>>>)
    ensures
        forall|i: &str| parser.0.requires((i,)) ==> #[trigger] p.0.requires((i,)),
        forall|i: &str, r: ParseResult<Option<T>>| #[trigger] p.0.ensures((i,), r) ==> exists|r1: ParseResult<T>| parser.0.ensures((i,), r1) && spec_maybe(r1, i@, r),
{
    let f = parser.0;
    let h = move |input: &str| -> (r: ParseResult<Option<T>>)
        requires
            spec_accepts(&f, input),
        ensures
            exists|r1: ParseResult<T>| spec_runs(&f, input, r1) && spec_maybe(r1, input@, r),
        {
            let r1 = f(input);
            let ghost w = r1;
            let r = match r1 {
                ParseResult::Matched((m, s)) => ParseResult::Matched((Some(m), s)),
                ParseResult::Both((m, s), e) => ParseResult::Both((Some(m), s), e),
                ParseResult::Failed(e) => ParseResult::Both((None, String::from_str(input)), e),
            };
            assert(spec_runs(&f, input, w) && spec_maybe(w, input@, r));
            r
        };
    Parser(h, PhantomData)
}

/// How many white-space characters `s` starts with, from `k` on.
pub open spec fn spec_ws_len(s: Seq<char>, k: nat) -> nat
    decreases s.len() - k,
{
    if k < s.len() && spec_is_whitespace(s[k as int]) {
        spec_ws_len(s, k + 1)
    } else {
        k
    }
}

/// `s` after its leading white space.
pub open spec fn spec_after_ws(s: Seq<char>) -> Seq<char> {
    s.subrange(spec_ws_len(s, 0) as int, s.len() as int)
}

/// Whether white space can be read off `s` one character at a time: each character read starts
/// the input it is read from with an ASCII character.
pub open spec fn spec_ws_splits(s: Seq<char>) -> bool {
    forall|k: int| 0 <= k <= spec_ws_len(s, 0) ==> #[trigger] spec_first_ascii(s.subrange(k, s.len() as int))
}

/// Whether the rest of a match can have its white space read off.
pub open spec fn spec_rest_ws_splits<T>(r1: ParseResult<T>) -> bool {
    match r1 {
        ParseResult::Matched((_, s)) => spec_ws_splits(s@),
        ParseResult::Both((_, s), _) => spec_ws_splits(s@),
        ParseResult::Failed(_) => true,
    }
}

/// Whether `w` is the failure to read more white space at `s`.
pub open spec fn spec_ws_failure(w: (Expecteds, String), s: Seq<char>) -> bool {
    spec_strings(w.0@) == seq!["whitespace character"@] && w.1@ == s
}

/// Whether `r` is `r1` with the white space after its match read off, and the failure to read
/// more of it kept.
pub open spec fn spec_ws<T>(r1: ParseResult<T>, r: ParseResult<T>) -> bool {
    match r1 {
        ParseResult::Matched((m, s)) => r matches ParseResult::Both((m2, s2), w) && m2 == m
            && s2@ == spec_after_ws(s@) && spec_ws_failure(w, spec_after_ws(s@)),
        ParseResult::Failed(e) => r == ParseResult::<T>::Failed(e),
        ParseResult::Both((m, s), e) => r matches ParseResult::Both((m2, s2), x) && m2 == m
            && s2@ == spec_after_ws(s@) && exists|w: (Expecteds, String)| spec_ws_failure(w, spec_after_ws(s@)) && #[trigger] spec_merged(x, e, w),
    }
}

proof fn lemma_ws_len_bounds(s: Seq<char>, k: nat)
    requires
        k <= s.len(),
    ensures
        k <= spec_ws_len(s, k) <= s.len(),
        forall|j: int| k <= j < spec_ws_len(s, k) ==> spec_is_whitespace(s[j]),
        spec_ws_len(s, k) < s.len() ==> !spec_is_whitespace(s[spec_ws_len(s, k) as int]),
    decreases s.len() - k,
{
    if k < s.len() && spec_is_whitespace(s[k as int]) {
        lemma_ws_len_bounds(s, k + 1);
    }
}

/// Reads the white space off `s`: the rest, and the failure to read more.
fn skip_ws(s: &String) -> (r: (String, (Expecteds, String)))
    ensures
        r.0@ == spec_after_ws(s@),
        spec_ws_failure(r.1, spec_after_ws(s@)),
{
    let cs = string_chars(s);
    let mut k: usize = 0;
    proof {
        lemma_ws_len_bounds(s@, 0);
    }
    while k < cs.len() && is_whitespace(cs[k])
        invariant
            cs@ == s@,
            k <= spec_ws_len(s@, 0),
            spec_ws_len(s@, 0) <= s@.len(),
            forall|j: int| 0 <= j < spec_ws_len(s@, 0) ==> spec_is_whitespace(s@[j]),
            spec_ws_len(s@, 0) < s@.len() ==> !spec_is_whitespace(s@[spec_ws_len(s@, 0) as int]),
        decreases cs.len() - k,
    {
        k = k + 1;
    }
    let rest = s.as_str().substring_char(k, cs.len());
    (String::from_str(rest), (expecting("whitespace character"), String::from_str(rest)))
}

/// The parser that reads the white space after the match of `parser`.
pub fn ws<T, F: Fn(&str) -> ParseResult<T>>(parser: Parser<T, F>) -> (p: Parser<T, impl Fn(&str) -> ParseResult<T>>)
    ensures
        forall|i: &str| parser.0.requires((i,)) && (forall|r1: ParseResult<T>| parser.0.ensures((i,), r1) ==> spec_rest_ws_splits(r1)) ==> #[trigger] p.0.requires((i,)),
        forall|i: &str, r: ParseResult<T>| #[trigger] p.0.ensures((i,), r) ==> exists|r1: ParseResult<T>| parser.0.ensures((i,), r1) && spec_ws(r1, r),
{
    let f = parser.0;
    let h = move |input: &str| -> (r: ParseResult<T>)
        requires
            spec_accepts(&f, input),
            forall|r1: ParseResult<T>| spec_runs(&f, input, r1) ==> spec_rest_ws_splits(r1),
        ensures
            exists|r1: ParseResult<T>| spec_runs(&f, input, r1) && spec_ws(r1, r),
        {
            let r1 = f(input);
            let ghost w = r1;
            let r = match r1 {
                ParseResult::Matched((m, s)) => {
                    let (rest, e) = skip_ws(&s);
                    let r = ParseResult::Both((m, rest), e);
                    assert(spec_ws(w, r));
                    r
                },
                ParseResult::Failed(e) => {
                    let r = ParseResult::Failed(e);
                    assert(spec_ws(w, r));
                    r
                },
                ParseResult::Both((m, s), e) => {
                    let (rest, e2) = skip_ws(&s);
                    let ghost we = e2;
                    let ghost e0 = e;
                    let x = merge_expecteds(e, e2);
                    let ghost xg = x;
                    assert(spec_ws_failure(we, spec_after_ws(s@)) && spec_merged(xg, e0, we));
                    assert(exists|w2: (Expecteds, String)| spec_ws_failure(w2, spec_after_ws(s@)) && #[trigger] spec_merged(xg, e0, w2));
                    let r = ParseResult::Both((m, rest), x);
                    assert(r matches ParseResult::Both((m2, s2), x2) && x2 == xg && s2@ == spec_after_ws(s@));
                    assert(spec_ws(w, r));
                    r
                },
            };
            assert(spec_runs(&f, input, w) && spec_ws(w, r));
            r
        };
    Parser(h, PhantomData)
}


/// Whether `r`, a result from the input `i`, leaves less input than `i` where it matches.
pub open spec fn spec_shorter<T>(r: ParseResult<T>, i: Seq<char>) -> bool {
    match r {
        ParseResult::Matched((_, s)) => s@.len() < i.len(),
        ParseResult::Both((_, s), _) => s@.len() < i.len(),
        ParseResult::Failed(_) => true,
    }
}

/// Whether a parser consumes input wherever it matches.
pub open spec fn spec_consumes<T, F: Fn(&str) -> ParseResult<T>>(f: &F) -> bool {
    forall|i: &str, r: ParseResult<T>| #[trigger] (*f).ensures((i,), r) ==> spec_shorter(r, i@)
}

/// What a parser may give, as a relation between inputs and results.
pub open spec fn spec_runs_of<T, F: Fn(&str) -> ParseResult<T>>(f: &F) -> spec_fn(Seq<char>, ParseResult<T>) -> bool {
    |i: Seq<char>, r: ParseResult<T>| spec_runs_on(f, i, r)
}

/// The inputs that a parser accepts.
pub open spec fn spec_accepting<T, F: Fn(&str) -> ParseResult<T>>(f: &F) -> spec_fn(Seq<char>) -> bool {
    |i: Seq<char>| spec_accepts_on(f, i)
}

/// Whether a parser accepts `i` and, after each match, the rest, as long as it matches.
pub open spec fn spec_accepts_repeatedly<T, F: Fn(&str) -> ParseResult<T>>(f: &F, i: Seq<char>) -> bool {
    spec_repeatable(spec_accepting(f), spec_runs_of(f), i)
}

/// Whether `r` is `r2` with `m` put before its matches.
pub open spec fn spec_prepended<T>(m: T, r2: ParseResult<Vec<T>>, r: ParseResult<Vec<T>>) -> bool {
    match r2 {
        ParseResult::Matched((v, s)) => r matches ParseResult::Matched((v2, s2)) && v2@ == seq![m] + v@ && s2 == s,
        ParseResult::Both((v, s), e) => r matches ParseResult::Both((v2, s2), e2) && v2@ == seq![m] + v@ && s2 == s && e2 == e,
        ParseResult::Failed(e) => r == ParseResult::<Vec<T>>::Failed(e),
    }
}

/// Whether `r` continues the result `r1` of one match with `r2`, the matches from its rest on.
pub open spec fn spec_followed<T>(r1: ParseResult<T>, r2: ParseResult<Vec<T>>, r: ParseResult<Vec<T>>) -> bool {
    match r1 {
        ParseResult::Matched((m, _)) => spec_prepended(m, r2, r),
        ParseResult::Both((m, _), e) => exists|r3: ParseResult<Vec<T>>| spec_prepended(m, r2, r3) && #[trigger] spec_after_both(r3, e, r),
        ParseResult::Failed(e) => r == ParseResult::<Vec<T>>::Failed(e),
    }
}

/// The rest of a match.
pub open spec fn spec_rest<T>(r: ParseResult<T>) -> Seq<char> {
    match r {
        ParseResult::Matched((_, s)) => s@,
        ParseResult::Both((_, s), _) => s@,
        ParseResult::Failed((_, s)) => s@,
    }
}

/// Whether `r` is what matching a parser as often as it matches gives on `i`: the matches, and
/// the failure that ended them, merged with those that matches kept.
pub open spec fn spec_many<T, F: Fn(&str) -> ParseResult<T>>(f: &F, i: Seq<char>, r: ParseResult<Vec<T>>) -> bool {
    spec_repeated(spec_runs_of(f), i, r)
}

/// The match of a result that matched.
pub open spec fn spec_match_of<T>(r: ParseResult<T>) -> T
    recommends
        !(r is Failed),
{
    match r {
        ParseResult::Matched((m, _)) => m,
        ParseResult::Both((m, _), _) => m,
        ParseResult::Failed(_) => arbitrary(),
    }
}

/// The failure that a match kept, if any.
pub open spec fn spec_kept<T>(r: ParseResult<T>) -> Option<(Expecteds, String)> {
    match r {
        ParseResult::Both(_, e) => Some(e),
        _ => None,
    }
}

/// Whether the match `r`, from the input `i`, leaves the shorter input `rest`.
pub open spec fn spec_step_ok<T>(r: ParseResult<T>, i: Seq<char>, rest: Seq<char>) -> bool {
    !(r is Failed) && spec_rest(r) == rest && rest.len() < i.len()
}

/// Matches `f` on `input` as often as it matches.
fn run_many<T, F: Fn(&str) -> ParseResult<T>>(f: &F, input: &str) -> (r: ParseResult<Vec<T>>)
    requires
        spec_consumes(f),
        spec_accepts_repeatedly(f, input@),
    ensures
        spec_many(f, input@, r),
{
    assert forall|j: &str, r1: ParseResult<T>| #[trigger] (*f).ensures((j,), r1) implies spec_runs_of(f)(j@, r1) && spec_shorter(r1, j@) by {
        assert(spec_runs_on(f, j@, r1));
    }
    assert forall|j: &str| #[trigger] spec_accepting(f)(j@) implies (*f).requires((j,)) by {
        assert(spec_accepts_on(f, j@));
    }
    run_repeated(f, Ghost(spec_accepting(f)), Ghost(spec_runs_of(f)), input)
}

/// The parser that matches `parser` as often as it matches, which must consume input.
pub fn many<T, F: Fn(&str) -> ParseResult<T>>(parser: Parser<T, F>) -> (p: Parser<Vec<T>, impl Fn(&str) -> ParseResult<Vec<T>>>)
    requires
        spec_consumes(&parser.0),
    ensures
        forall|i: &str| spec_accepts_repeatedly(&parser.0, i@) ==> #[trigger] p.0.requires((i,)),
        forall|i: &str, r: ParseResult<Vec<T>>| #[trigger] p.0.ensures((i,), r) ==> spec_many(&parser.0, i@, r),
{
    let f = parser.0;
    let h = move |input: &str| -> (r: ParseResult<Vec<T>>)
        requires
            spec_consumes(&f),
            spec_accepts_repeatedly(&f, input@),
        ensures
            spec_many(&f, input@, r),
        {
            run_many(&f, input)
        };
    Parser(h, PhantomData)
}


/// Whether `r` is what matching a parser at least once, then as often as it matches, gives on
/// `i`: the failure of the first match, or its match followed by the others.
pub open spec fn spec_many1<T, F: Fn(&str) -> ParseResult<T>>(f: &F, i: Seq<char>, r: ParseResult<Vec<T>>) -> bool {
    exists|r1: ParseResult<T>| #[trigger] spec_runs_on(f, i, r1) && if r1 is Failed {
        r matches ParseResult::Failed(e) && ParseResult::<T>::Failed(e) == r1
    } else {
        spec_rest(r1).len() < i.len() && exists|r2: ParseResult<Vec<T>>| spec_many(f, spec_rest(r1), r2) && #[trigger] spec_followed(r1, r2, r)
    }
}

/// `r2` with `m` put before its matches.
fn prepend<T>(m: T, r2: ParseResult<Vec<T>>) -> (r: ParseResult<Vec<T>>)
    ensures
        spec_prepended(m, r2, r),
{
    match r2 {
        ParseResult::Matched((mut v, s)) => {
            let ghost vg = v@;
            v.insert(0, m);
            assert(v@ =~= seq![m] + vg);
            ParseResult::Matched((v, s))
        },
        ParseResult::Both((mut v, s), e) => {
            let ghost vg = v@;
            v.insert(0, m);
            assert(v@ =~= seq![m] + vg);
            ParseResult::Both((v, s), e)
        },
        ParseResult::Failed(e) => ParseResult::Failed(e),
    }
}

/// The parser that matches `parser` at least once, then as often as it matches; it must consume
/// input.
pub fn many1<T, F: Fn(&str) -> ParseResult<T>>(parser: Parser<T, F>) -> (p: Parser<Vec<T>, impl Fn(&str) -> ParseResult<Vec<T>>>)
    requires
        spec_consumes(&parser.0),
    ensures
        forall|i: &str| spec_accepts_repeatedly(&parser.0, i@) ==> #[trigger] p.0.requires((i,)),
        forall|i: &str, r: ParseResult<Vec<T>>| #[trigger] p.0.ensures((i,), r) ==> spec_many1(&parser.0, i@, r),
{
    let f = parser.0;
    let h = move |input: &str| -> (r: ParseResult<Vec<T>>)
        requires
            spec_consumes(&f),
            spec_accepts_repeatedly(&f, input@),
        ensures
            spec_many1(&f, input@, r),
        {
            assert(spec_accepting(&f)(input@));
            assert(spec_accepts_on(&f, input@));
            assert(spec_accepts(&f, input));
            let r1 = f(input);
            let ghost w = r1;
            assert(spec_runs_on(&f, input@, w));
            assert(spec_runs_of(&f)(input@, w));
            assert(spec_shorter(w, input@));
            match r1 {
                ParseResult::Failed(e) => ParseResult::Failed(e),
                ParseResult::Matched((m, s)) => {
                    let ghost mg = m;
                    let r2 = run_many(&f, s.as_str());
                    let r = prepend(m, r2);
                    assert(spec_followed(w, r2, r));
                    r
                },
                ParseResult::Both((m, s), e) => {
                    let ghost mg = m;
                    let ghost eg = e;
                    let r2 = run_many(&f, s.as_str());
                    let r3 = prepend(m, r2);
                    let ghost r3g = r3;
                    let r = combine_after_both(r3, e);
                    assert(spec_prepended(mg, r2, r3g) && spec_after_both(r3g, eg, r));
                    assert(spec_followed(w, r2, r));
                    r
                },
            }
        };
    Parser(h, PhantomData)
}


/// Repeating a unit never fails: the failure that ends the matches is kept beside them.
proof fn lemma_repeated_never_fails<T>(unit: spec_fn(Seq<char>, ParseResult<T>) -> bool, i: Seq<char>, r: ParseResult<Vec<T>>)
    requires
        spec_repeated(unit, i, r),
    ensures
        r is Both,
    decreases i.len(),
{
    let r1 = choose|r1: ParseResult<T>| #[trigger] unit(i, r1) && if r1 is Failed {
        r matches ParseResult::Both((v, s), e) && v@.len() == 0 && s@ == i && ParseResult::<T>::Failed(e) == r1
    } else {
        spec_rest(r1).len() < i.len() && exists|r2: ParseResult<Vec<T>>| spec_repeated(unit, spec_rest(r1), r2) && #[trigger] spec_followed(r1, r2, r)
    };
    if !(r1 is Failed) {
        let r2 = choose|r2: ParseResult<Vec<T>>| spec_repeated(unit, spec_rest(r1), r2) && #[trigger] spec_followed(r1, r2, r);
        lemma_repeated_never_fails(unit, spec_rest(r1), r2);
    }
}

/// Matching as often as possible never fails: the failure that ends the matches is kept beside
/// them.
pub proof fn law_many_never_fails<T, F: Fn(&str) -> ParseResult<T>>(f: &F, i: Seq<char>, r: ParseResult<Vec<T>>)
    requires
        spec_many(f, i, r),
    ensures
        r is Both,
{
    lemma_repeated_never_fails(spec_runs_of(f), i, r);
}

/// A list of zero or more never fails: the failure that ends it is kept beside it.
pub proof fn law_sepby_never_fails<T, S: Fn(&str) -> ParseResult<()>, F: Fn(&str) -> ParseResult<T>>(
    sep: &S,
    p: &F,
    i: Seq<char>,
    r1: ParseResult<Vec<T>>,
    r: ParseResult<Vec<T>>,
)
    requires
        spec_sepby1(sep, p, i, r1),
        spec_or_empty(r1, i, r),
    ensures
        r is Both,
{
    let w = choose|w: ParseResult<T>| #[trigger] spec_runs_on(p, i, w) && if w is Failed {
        r1 matches ParseResult::Failed(e) && ParseResult::<T>::Failed(e) == w
    } else {
        spec_rest(w).len() < i.len() && exists|r2: ParseResult<Vec<T>>| spec_repeated(spec_sep_units(sep, p), spec_rest(w), r2) && #[trigger] spec_followed(w, r2, r1)
    };
    if !(w is Failed) {
        let r2 = choose|r2: ParseResult<Vec<T>>| spec_repeated(spec_sep_units(sep, p), spec_rest(w), r2) && #[trigger] spec_followed(w, r2, r1);
        lemma_repeated_never_fails(spec_sep_units(sep, p), spec_rest(w), r2);
    }
}

/// Matching at least once fails, with a failure, exactly where the parser can fail with it at
/// the start.
pub proof fn law_many1_fails_where_first_fails<T, F: Fn(&str) -> ParseResult<T>>(
    f: &F,
    i: Seq<char>,
    e: (Expecteds, String),
)
    ensures
        spec_many1(f, i, ParseResult::Failed(e)) <==> spec_runs_on(f, i, ParseResult::Failed(e)),
{
    if spec_many1(f, i, ParseResult::Failed(e)) {
        let r1 = choose|r1: ParseResult<T>| #[trigger] spec_runs_on(f, i, r1) && if r1 is Failed {
            ParseResult::<Vec<T>>::Failed(e) matches ParseResult::Failed(e3) && ParseResult::<T>::Failed(e3) == r1
        } else {
            spec_rest(r1).len() < i.len() && exists|r2: ParseResult<Vec<T>>| spec_many(f, spec_rest(r1), r2) && #[trigger] spec_followed(r1, r2, ParseResult::Failed(e))
        };
        if !(r1 is Failed) {
            let r2 = choose|r2: ParseResult<Vec<T>>| spec_many(f, spec_rest(r1), r2) && #[trigger] spec_followed(r1, r2, ParseResult::Failed(e));
            law_many_never_fails(f, spec_rest(r1), r2);
        }
    }
}


/// Whether `r` is what matching a unit as often as it matches gives on `i`, where `unit` relates
/// each input to the results the unit may give on it: the matches, and the failure that ended
/// them, merged with those that matches kept.
pub open spec fn spec_repeated<T>(unit: spec_fn(Seq<char>, ParseResult<T>) -> bool, i: Seq<char>, r: ParseResult<Vec<T>>) -> bool
    decreases i.len(),
{
    exists|r1: ParseResult<T>| #[trigger] unit(i, r1) && if r1 is Failed {
        r matches ParseResult::Both((v, s), e) && v@.len() == 0 && s@ == i && ParseResult::<T>::Failed(e) == r1
    } else {
        spec_rest(r1).len() < i.len() && exists|r2: ParseResult<Vec<T>>| spec_repeated(unit, spec_rest(r1), r2) && #[trigger] spec_followed(r1, r2, r)
    }
}

/// Whether a unit can be matched on `i` and, after each match, on the rest, as long as it
/// matches: `accepts` says on which inputs it can be run, `unit` what it may give.
pub open spec fn spec_repeatable<T>(
    accepts: spec_fn(Seq<char>) -> bool,
    unit: spec_fn(Seq<char>, ParseResult<T>) -> bool,
    i: Seq<char>,
) -> bool
    decreases i.len(),
{
    &&& accepts(i)
    &&& forall|r1: ParseResult<T>| #[trigger] unit(i, r1) ==> if r1 is Failed {
        true
    } else {
        spec_rest(r1).len() < i.len() && spec_repeatable(accepts, unit, spec_rest(r1))
    }
}

/// Matches the unit `u` on `input` as often as it matches.
fn run_repeated<T, U: Fn(&str) -> ParseResult<T>>(
    u: &U,
    Ghost(accepts): Ghost<spec_fn(Seq<char>) -> bool>,
    Ghost(unit): Ghost<spec_fn(Seq<char>, ParseResult<T>) -> bool>,
    input: &str,
) -> (r: ParseResult<Vec<T>>)
    requires
        forall|j: &str| #[trigger] accepts(j@) ==> (*u).requires((j,)),
        forall|j: &str, r1: ParseResult<T>| #[trigger] (*u).ensures((j,), r1) ==> unit(j@, r1) && spec_shorter(r1, j@),
        spec_repeatable(accepts, unit, input@),
    ensures
        spec_repeated(unit, input@, r),
{
    let mut cur = String::from_str(input);
    let mut ms: Vec<T> = Vec::new();
    let mut es: Vec<Option<(Expecteds, String)>> = Vec::new();
    let ghost mut ins: Seq<Seq<char>> = seq![input@];
    let ghost mut runs: Seq<ParseResult<T>> = Seq::empty();
    let last: (Expecteds, String);
    loop
        invariant
            forall|j: &str| #[trigger] accepts(j@) ==> (*u).requires((j,)),
            forall|j: &str, r1: ParseResult<T>| #[trigger] (*u).ensures((j,), r1) ==> unit(j@, r1) && spec_shorter(r1, j@),
            spec_repeatable(accepts, unit, cur@),
            ms@ == runs.map_values(|r: ParseResult<T>| spec_match_of(r)),
            es@ == runs.map_values(|r: ParseResult<T>| spec_kept(r)),
            ins.len() == runs.len() + 1,
            ins[0] == input@,
            ins.last() == cur@,
            forall|j: int| 0 <= j < runs.len() ==> #[trigger] unit(ins[j], runs[j]),
            forall|j: int| #![trigger runs[j]] 0 <= j < runs.len() ==> spec_step_ok(runs[j], ins[j], ins[j + 1]),
        ensures
            unit(cur@, ParseResult::<T>::Failed(last)),
            ms@ == runs.map_values(|r: ParseResult<T>| spec_match_of(r)),
            es@ == runs.map_values(|r: ParseResult<T>| spec_kept(r)),
            ins.len() == runs.len() + 1,
            ins[0] == input@,
            ins.last() == cur@,
            forall|j: int| 0 <= j < runs.len() ==> #[trigger] unit(ins[j], runs[j]),
            forall|j: int| #![trigger runs[j]] 0 <= j < runs.len() ==> spec_step_ok(runs[j], ins[j], ins[j + 1]),
        decreases cur@.len(),
    {
        let text = cur.as_str();
        assert(accepts(text@));
        let r1 = u(text);
        let ghost w = r1;
        let ghost runs0 = runs;
        let ghost ins0 = ins;
        assert(unit(cur@, w) && spec_shorter(w, cur@));
        match r1 {
            ParseResult::Failed(e) => {
                last = e;
                break;
            },
            ParseResult::Matched((m, s)) => {
                ms.push(m);
                es.push(None);
                cur = s;
            },
            ParseResult::Both((m, s), e) => {
                ms.push(m);
                es.push(Some(e));
                cur = s;
            },
        }
        proof {
            runs = runs.push(w);
            ins = ins.push(cur@);
            assert(ms@ =~= runs.map_values(|r: ParseResult<T>| spec_match_of(r)));
            assert(es@ =~= runs.map_values(|r: ParseResult<T>| spec_kept(r)));
            assert forall|jj: int| 0 <= jj < runs.len() implies #[trigger] unit(ins[jj], runs[jj]) by {
                if jj < runs0.len() {
                    assert(unit(ins0[jj], runs0[jj]));
                }
            }
            assert forall|jj: int| #![trigger runs[jj]] 0 <= jj < runs.len() implies spec_step_ok(runs[jj], ins[jj], ins[jj + 1]) by {
                if jj < runs0.len() {
                    assert(spec_step_ok(runs0[jj], ins0[jj], ins0[jj + 1]));
                }
            }
        }
    }
    let ghost k = runs.len();
    let mut v: Vec<T> = Vec::new();
    let mut expected = last;
    proof {
        assert(unit(ins[k as int], ParseResult::<T>::Failed(last)));
        assert(spec_repeated(unit, ins[k as int], ParseResult::Both((v, cur), expected)));
    }
    let mut j: usize = ms.len();
    while j > 0
        invariant
            j <= k,
            runs.len() == k,
            ms@ == runs.subrange(0, j as int).map_values(|r: ParseResult<T>| spec_match_of(r)),
            es@ == runs.subrange(0, j as int).map_values(|r: ParseResult<T>| spec_kept(r)),
            ins.len() == k + 1,
            ins[0] == input@,
            forall|jj: int| 0 <= jj < k ==> #[trigger] unit(ins[jj], runs[jj]),
            forall|jj: int| #![trigger runs[jj]] 0 <= jj < k ==> spec_step_ok(runs[jj], ins[jj], ins[jj + 1]),
            spec_repeated(unit, ins[j as int], ParseResult::Both((v, cur), expected)),
        decreases j,
    {
        let ghost ms0 = ms@;
        let ghost es0 = es@;
        let m = ms.pop().unwrap();
        let e = es.pop().unwrap();
        let ghost mg = m;
        let ghost eg = e;
        let ghost w = runs[j - 1];
        assert(ms0 == ms@.push(mg));
        assert(mg == ms0[j - 1]);
        assert(eg == es0[j - 1]);
        assert(mg == spec_match_of(w));
        assert(eg == spec_kept(w));
        assert(ms@ =~= runs.subrange(0, j - 1).map_values(|r: ParseResult<T>| spec_match_of(r)));
        assert(es@ =~= runs.subrange(0, j - 1).map_values(|r: ParseResult<T>| spec_kept(r)));
        let ghost r2 = ParseResult::<Vec<T>>::Both((v, cur), expected);
        let ghost vg = v@;
        v.insert(0, m);
        assert(v@ =~= seq![mg] + vg);
        let ghost r3 = ParseResult::<Vec<T>>::Both((v, cur), expected);
        match e {
            None => {},
            Some(e) => {
                expected = merge_expecteds(e, expected);
            },
        }
        proof {
            let r = ParseResult::<Vec<T>>::Both((v, cur), expected);
            assert(unit(ins[j - 1], w));
            assert(spec_rest(w) == ins[j as int]);
            assert(spec_repeated(unit, spec_rest(w), r2));
            assert(spec_prepended(mg, r2, r3));
            if w is Both {
                assert(spec_after_both(r3, w->Both_1, r));
            }
            assert(spec_followed(w, r2, r));
            assert(!(w is Failed));
            assert(spec_rest(w).len() < ins[j - 1].len());
            assert(spec_repeated(unit, ins[j - 1], r));
        }
        j = j - 1;
    }
    ParseResult::Both((v, cur), expected)
}

/// Whether `r` is what a separator and then a parser give on `i`: the failure of the separator,
/// or what the parser gives on its rest, keeping the failure the separator kept.
pub open spec fn spec_sep_unit<T, S: Fn(&str) -> ParseResult<()>, F: Fn(&str) -> ParseResult<T>>(
    sep: &S,
    p: &F,
    i: Seq<char>,
    r: ParseResult<T>,
) -> bool {
    exists|rs: ParseResult<()>| #[trigger] spec_runs_on(sep, i, rs) && match rs {
        ParseResult::Failed(e) => r == ParseResult::<T>::Failed(e),
        ParseResult::Matched((_, s)) => spec_runs_on(p, s@, r),
        ParseResult::Both((_, s), e) => exists|r2: ParseResult<T>| spec_runs_on(p, s@, r2) && #[trigger] spec_after_both(r2, e, r),
    }
}

/// Whether a separator and then a parser can be run on `i`.
pub open spec fn spec_sep_accepts<T, S: Fn(&str) -> ParseResult<()>, F: Fn(&str) -> ParseResult<T>>(sep: &S, p: &F, i: Seq<char>) -> bool {
    &&& spec_accepts_on(sep, i)
    &&& forall|rs: ParseResult<()>| #[trigger] spec_runs_on(sep, i, rs) ==> (rs is Failed || spec_accepts_on(p, spec_rest(rs)))
}

/// The relation of a separator followed by a parser.
pub open spec fn spec_sep_units<T, S: Fn(&str) -> ParseResult<()>, F: Fn(&str) -> ParseResult<T>>(sep: &S, p: &F) -> spec_fn(Seq<char>, ParseResult<T>) -> bool {
    |i: Seq<char>, r: ParseResult<T>| spec_sep_unit(sep, p, i, r)
}

/// Where a separator followed by a parser can be run.
pub open spec fn spec_sep_accepting<T, S: Fn(&str) -> ParseResult<()>, F: Fn(&str) -> ParseResult<T>>(sep: &S, p: &F) -> spec_fn(Seq<char>) -> bool {
    |i: Seq<char>| spec_sep_accepts(sep, p, i)
}

/// Whether `r` is what a list of one or more matches of `p`, separated by matches of `sep`, gives
/// on `i`.
pub open spec fn spec_sepby1<T, S: Fn(&str) -> ParseResult<()>, F: Fn(&str) -> ParseResult<T>>(sep: &S, p: &F, i: Seq<char>, r: ParseResult<Vec<T>>) -> bool {
    exists|r1: ParseResult<T>| #[trigger] spec_runs_on(p, i, r1) && if r1 is Failed {
        r matches ParseResult::Failed(e) && ParseResult::<T>::Failed(e) == r1
    } else {
        spec_rest(r1).len() < i.len() && exists|r2: ParseResult<Vec<T>>| spec_repeated(spec_sep_units(sep, p), spec_rest(r1), r2) && #[trigger] spec_followed(r1, r2, r)
    }
}

/// Whether a list separated by `sep` can be read from `i`.
pub open spec fn spec_sepby_accepts<T, S: Fn(&str) -> ParseResult<()>, F: Fn(&str) -> ParseResult<T>>(sep: &S, p: &F, i: Seq<char>) -> bool {
    &&& spec_accepts_on(p, i)
    &&& forall|r1: ParseResult<T>| #[trigger] spec_runs_on(p, i, r1) ==> (r1 is Failed
        || spec_repeatable(spec_sep_accepting(sep, p), spec_sep_units(sep, p), spec_rest(r1)))
}

/// Runs a separator and then a parser.
fn sep_then<T, S: Fn(&str) -> ParseResult<()>, F: Fn(&str) -> ParseResult<T>>(sep: &S, p: &F, input: &str) -> (r: ParseResult<T>)
    requires
        spec_sep_accepts(sep, p, input@),
    ensures
        spec_sep_unit(sep, p, input@, r),
{
    assert(spec_accepts_on(sep, input@));
    let rs = sep(input);
    let ghost w = rs;
    assert(spec_runs_on(sep, input@, w));
    match rs {
        ParseResult::Failed(e) => ParseResult::Failed(e),
        ParseResult::Matched((_, s)) => {
            let rest = s.as_str();
            assert(spec_accepts_on(p, s@));
            let r = p(rest);
            assert(spec_runs_on(p, s@, r));
            r
        },
        ParseResult::Both((_, s), e) => {
            let rest = s.as_str();
            assert(spec_accepts_on(p, s@));
            let r2 = p(rest);
            assert(spec_runs_on(p, s@, r2));
            let ghost eg = e;
            let r = combine_after_both(r2, e);
            assert(spec_after_both(r2, eg, r));
            r
        },
    }
}

/// Reads a list of one or more matches of `pf` separated by matches of `sepf`.
fn run_sepby1<T, S: Fn(&str) -> ParseResult<()>, F: Fn(&str) -> ParseResult<T>>(sepf: &S, pf: &F, input: &str) -> (r: ParseResult<Vec<T>>)
    requires
        spec_consumes(sepf),
        spec_consumes(pf),
        spec_sepby_accepts(sepf, pf, input@),
    ensures
        spec_sepby1(sepf, pf, input@, r),
{
    assert(spec_accepts_on(pf, input@));
    let r1 = pf(input);
    let ghost w = r1;
    assert(spec_runs_on(pf, input@, w));
    assert(spec_shorter(w, input@));
    let q = |j: &str| -> (r: ParseResult<T>)
        requires
            spec_sep_accepts(sepf, pf, j@),
        ensures
            spec_sep_unit(sepf, pf, j@, r),
        {
            sep_then(sepf, pf, j)
        };
    let ghost accepts = spec_sep_accepting(sepf, pf);
    let ghost unit = spec_sep_units(sepf, pf);
    assert forall|j: &str, r2: ParseResult<T>| #[trigger] q.ensures((j,), r2) implies unit(j@, r2) && spec_shorter(r2, j@) by {
        let rs = choose|rs: ParseResult<()>| #[trigger] spec_runs_on(sepf, j@, rs) && match rs {
            ParseResult::Failed(e) => r2 == ParseResult::<T>::Failed(e),
            ParseResult::Matched((_, s)) => spec_runs_on(pf, s@, r2),
            ParseResult::Both((_, s), e) => exists|r3: ParseResult<T>| spec_runs_on(pf, s@, r3) && #[trigger] spec_after_both(r3, e, r2),
        };
        let js = choose|js: &str| js@ == j@ && #[trigger] (*sepf).ensures((js,), rs);
        assert(spec_shorter(rs, js@));
        if !(rs is Failed) {
            if rs is Matched {
                let jp = choose|jp: &str| jp@ == spec_rest(rs) && #[trigger] (*pf).ensures((jp,), r2);
                assert(spec_shorter(r2, jp@));
            } else {
                let r3 = choose|r3: ParseResult<T>| spec_runs_on(pf, spec_rest(rs), r3) && #[trigger] spec_after_both(r3, rs->Both_1, r2);
                let jp = choose|jp: &str| jp@ == spec_rest(rs) && #[trigger] (*pf).ensures((jp,), r3);
                assert(spec_shorter(r3, jp@));
            }
        }
    }
    assert forall|j: &str| #[trigger] accepts(j@) implies q.requires((j,)) by {}
    match r1 {
        ParseResult::Failed(e) => ParseResult::Failed(e),
        ParseResult::Matched((m, s)) => {
            let r2 = run_repeated(&q, Ghost(accepts), Ghost(unit), s.as_str());
            let r = prepend(m, r2);
            assert(spec_followed(w, r2, r));
            r
        },
        ParseResult::Both((m, s), e) => {
            let ghost mg = m;
            let ghost eg = e;
            let r2 = run_repeated(&q, Ghost(accepts), Ghost(unit), s.as_str());
            let r3 = prepend(m, r2);
            let ghost r3g = r3;
            let r = combine_after_both(r3, e);
            assert(spec_prepended(mg, r2, r3g) && spec_after_both(r3g, eg, r));
            assert(spec_followed(w, r2, r));
            r
        },
    }
}

/// The parser of one or more matches of `parser` separated by matches of `separator`; both must
/// consume input.
pub fn sepby1<T, F: Fn(&str) -> ParseResult<T>, S: Fn(&str) -> ParseResult<()>>(
    parser: Parser<T, F>,
    separator: Parser<(), S>,
) -> (p: Parser<Vec<T>, impl Fn(&str) -> ParseResult<Vec<T>>>)
    requires
        spec_consumes(&parser.0),
        spec_consumes(&separator.0),
    ensures
        forall|i: &str| spec_sepby_accepts(&separator.0, &parser.0, i@) ==> #[trigger] p.0.requires((i,)),
        forall|i: &str, r: ParseResult<Vec<T>>| #[trigger] p.0.ensures((i,), r) ==> spec_sepby1(&separator.0, &parser.0, i@, r),
{
    let pf = parser.0;
    let sepf = separator.0;
    let h = move |input: &str| -> (r: ParseResult<Vec<T>>)
        requires
            spec_consumes(&sepf),
            spec_consumes(&pf),
            spec_sepby_accepts(&sepf, &pf, input@),
        ensures
            spec_sepby1(&sepf, &pf, input@, r),
        {
            run_sepby1(&sepf, &pf, input)
        };
    Parser(h, PhantomData)
}

/// Whether `r` is `r1`, a list of one or more, or, where that fails, an empty list at the input
/// `i` that keeps the failure.
pub open spec fn spec_or_empty<T>(r1: ParseResult<Vec<T>>, i: Seq<char>, r: ParseResult<Vec<T>>) -> bool {
    match r1 {
        ParseResult::Failed(e) => r matches ParseResult::Both((v, s), e2) && v@.len() == 0 && s@ == i && e2 == e,
        _ => r == r1,
    }
}

/// The parser of zero or more matches of `parser` separated by matches of `separator`; both
/// must consume input.
pub fn sepby<T, F: Fn(&str) -> ParseResult<T>, S: Fn(&str) -> ParseResult<()>>(
    parser: Parser<T, F>,
    separator: Parser<(), S>,
) -> (p: Parser<Vec<T>, impl Fn(&str) -> ParseResult<Vec<T>>>)
    requires
        spec_consumes(&parser.0),
        spec_consumes(&separator.0),
    ensures
        forall|i: &str| spec_sepby_accepts(&separator.0, &parser.0, i@) ==> #[trigger] p.0.requires((i,)),
        forall|i: &str, r: ParseResult<Vec<T>>| #[trigger] p.0.ensures((i,), r)
            ==> exists|r1: ParseResult<Vec<T>>| spec_sepby1(&separator.0, &parser.0, i@, r1) && #[trigger] spec_or_empty(r1, i@, r),
{
    let pf = parser.0;
    let sepf = separator.0;
    let h = move |input: &str| -> (r: ParseResult<Vec<T>>)
        requires
            spec_consumes(&sepf),
            spec_consumes(&pf),
            spec_sepby_accepts(&sepf, &pf, input@),
        ensures
            exists|r1: ParseResult<Vec<T>>| spec_sepby1(&sepf, &pf, input@, r1) && #[trigger] spec_or_empty(r1, input@, r),
        {
            let r1 = run_sepby1(&sepf, &pf, input);
            let ghost w = r1;
            let r = match r1 {
                ParseResult::Failed(e) => ParseResult::Both((Vec::new(), String::from_str(input)), e),
                other => other,
            };
            assert(spec_or_empty(w, input@, r));
            r
        };
    Parser(h, PhantomData)
}


/// The failure of an operator parser, renamed to `name` where it consumed nothing.
fn rename_failure<C>(r1: ParseResult<C>, input: &str, name: &str) -> (r: ParseResult<C>)
    ensures
        spec_named(r1, input@, name@, r),
{
    match r1 {
        ParseResult::Failed((e, s)) => {
            let here = chars_of(input);
            let rest = string_chars(&s);
            if crate::text::chars_eq(&rest, &here) {
                ParseResult::Failed((expecting(name), String::from_str(input)))
            } else {
                ParseResult::Failed((e, s))
            }
        },
        other => other,
    }
}

/// Whether `r` is what a unary operator, named `unary operator`, and then its operand give on
/// `i`: the operator's failure, or the operand with the operator's constructor applied.
pub open spec fn spec_unop<T, C: Fn(T) -> T, O: Fn(&str) -> ParseResult<C>, F: Fn(&str) -> ParseResult<T>>(
    op: &O,
    p: &F,
    i: Seq<char>,
    r: ParseResult<T>,
) -> bool {
    exists|ro: ParseResult<C>, rn: ParseResult<C>| #[trigger] spec_runs_on(op, i, ro) && #[trigger] spec_named(ro, i, "unary operator"@, rn)
        && match rn {
        ParseResult::Failed(e) => r == ParseResult::<T>::Failed(e),
        ParseResult::Matched((c, s)) => exists|r2: ParseResult<T>| #[trigger] spec_runs_on(p, s@, r2) && spec_mapped(r2, &c, r),
        ParseResult::Both((c, s), e) => exists|r2: ParseResult<T>, r3: ParseResult<T>| #[trigger] spec_runs_on(p, s@, r2) && spec_mapped(r2, &c, r3)
            && #[trigger] spec_after_both(r3, e, r),
    }
}

/// Whether a unary operator and then its operand can be run on `i`, each constructor accepting
/// every operand.
pub open spec fn spec_unop_accepts<T, C: Fn(T) -> T, O: Fn(&str) -> ParseResult<C>, F: Fn(&str) -> ParseResult<T>>(
    op: &O,
    p: &F,
    i: Seq<char>,
) -> bool {
    &&& spec_accepts_on(op, i)
    &&& forall|ro: ParseResult<C>| #[trigger] spec_runs_on(op, i, ro) ==> match ro {
        ParseResult::Matched((c, s)) => spec_accepts_on(p, s@) && spec_all_requires(&c),
        ParseResult::Both((c, s), _) => spec_accepts_on(p, s@) && spec_all_requires(&c),
        ParseResult::Failed(_) => true,
    }
}

/// The operand, with the constructor applied to its match.
fn apply_constructor<T, C: Fn(T) -> T, F: Fn(&str) -> ParseResult<T>>(c: C, p: &F, rest: &str) -> (r: (ParseResult<T>, Ghost<ParseResult<T>>))
    requires
        spec_accepts_on(p, rest@),
        spec_all_requires(&c),
    ensures
        spec_runs_on(p, rest@, r.1@) && spec_mapped(r.1@, &c, r.0),
{
    let r2 = p(rest);
    let ghost w = r2;
    assert(spec_runs_on(p, rest@, w));
    let r = match r2 {
        ParseResult::Matched((m, s)) => ParseResult::Matched((c(m), s)),
        ParseResult::Failed(e) => ParseResult::Failed(e),
        ParseResult::Both((m, s), e) => ParseResult::Both((c(m), s), e),
    };
    (r, Ghost(w))
}

/// The parser of a unary operator, named `unary operator`, and then its operand, with the
/// operator's constructor applied to it.
pub fn unop<T, F: Fn(&str) -> ParseResult<T>, C: Fn(T) -> T, O: Fn(&str) -> ParseResult<C>>(
    parser: Parser<T, F>,
    operator: Parser<C, O>,
) -> (p: Parser<T, impl Fn(&str) -> ParseResult<T>>)
    ensures
        forall|i: &str| spec_unop_accepts(&operator.0, &parser.0, i@) ==> #[trigger] p.0.requires((i,)),
        forall|i: &str, r: ParseResult<T>| #[trigger] p.0.ensures((i,), r) ==> spec_unop(&operator.0, &parser.0, i@, r),
{
    let pf = parser.0;
    let of = operator.0;
    let h = move |input: &str| -> (r: ParseResult<T>)
        requires
            spec_unop_accepts(&of, &pf, input@),
        ensures
            spec_unop(&of, &pf, input@, r),
        {
            assert(spec_accepts_on(&of, input@));
            let ro = of(input);
            let ghost wo = ro;
            assert(spec_runs_on(&of, input@, wo));
            let rn = rename_failure(ro, input, "unary operator");
            let ghost wn = rn;
            match rn {
                ParseResult::Failed(e) => ParseResult::Failed(e),
                ParseResult::Matched((c, s)) => {
                    let (r, Ghost(w2)) = apply_constructor(c, &pf, s.as_str());
                    r
                },
                ParseResult::Both((c, s), e) => {
                    let ghost eg = e;
                    let (r3, Ghost(w2)) = apply_constructor(c, &pf, s.as_str());
                    let ghost r3g = r3;
                    let r = combine_after_both(r3, e);
                    assert(spec_after_both(r3g, eg, r));
                    r
                },
            }
        };
    Parser(h, PhantomData)
}


/// Whether `c` may give `v` for `a` and `b`.
pub open spec fn spec_gives2<A, B, R, C: Fn(A, B) -> R>(c: &C, a: A, b: B, v: R) -> bool {
    (*c).ensures((a, b), v)
}

/// Whether `c` accepts every pair of arguments.
pub open spec fn spec_all_requires2<A, B, R, C: Fn(A, B) -> R>(c: &C) -> bool {
    forall|a: A, b: B| (*c).requires((a, b))
}

/// Whether `r` is `r2` with its match paired with the constructor `c`.
pub open spec fn spec_paired<C, T>(r2: ParseResult<T>, c: C, r: ParseResult<(C, T)>) -> bool {
    match r2 {
        ParseResult::Matched((m, s)) => r == ParseResult::Matched(((c, m), s)),
        ParseResult::Both((m, s), e) => r == ParseResult::Both(((c, m), s), e),
        ParseResult::Failed(e) => r == ParseResult::<(C, T)>::Failed(e),
    }
}

/// Whether `r` is what a binary operator, named `binary operator`, and then its right operand
/// give on `i`: the operator's failure, or its constructor paired with the operand.
pub open spec fn spec_op_unit<T, C: Fn(T, T) -> T, O: Fn(&str) -> ParseResult<C>, F: Fn(&str) -> ParseResult<T>>(
    op: &O,
    p: &F,
    i: Seq<char>,
    r: ParseResult<(C, T)>,
) -> bool {
    exists|ro: ParseResult<C>, rn: ParseResult<C>| #[trigger] spec_runs_on(op, i, ro) && #[trigger] spec_named(ro, i, "binary operator"@, rn)
        && match rn {
        ParseResult::Failed(e) => r == ParseResult::<(C, T)>::Failed(e),
        ParseResult::Matched((c, s)) => exists|r2: ParseResult<T>| #[trigger] spec_runs_on(p, s@, r2) && spec_paired(r2, c, r),
        ParseResult::Both((c, s), e) => exists|r2: ParseResult<T>, r3: ParseResult<(C, T)>| #[trigger] spec_runs_on(p, s@, r2) && spec_paired(r2, c, r3)
            && #[trigger] spec_after_both(r3, e, r),
    }
}

/// Whether the constructor of a pair accepts every pair of operands.
pub open spec fn spec_pair_ok<T, C: Fn(T, T) -> T>(r: ParseResult<(C, T)>) -> bool {
    r is Failed || spec_all_requires2(&spec_match_of(r).0)
}

/// The relation of a binary operator followed by its right operand.
pub open spec fn spec_op_units<T, C: Fn(T, T) -> T, O: Fn(&str) -> ParseResult<C>, F: Fn(&str) -> ParseResult<T>>(
    op: &O,
    p: &F,
) -> spec_fn(Seq<char>, ParseResult<(C, T)>) -> bool {
    |i: Seq<char>, r: ParseResult<(C, T)>| spec_op_unit(op, p, i, r) && spec_pair_ok(r)
}

/// Whether a binary operator and then its right operand can be run on `i`, each constructor
/// accepting every pair of operands.
pub open spec fn spec_op_accepts<T, C: Fn(T, T) -> T, O: Fn(&str) -> ParseResult<C>, F: Fn(&str) -> ParseResult<T>>(
    op: &O,
    p: &F,
    i: Seq<char>,
) -> bool {
    &&& spec_accepts_on(op, i)
    &&& forall|ro: ParseResult<C>| #[trigger] spec_runs_on(op, i, ro) ==> (ro is Failed
        || (spec_accepts_on(p, spec_rest(ro)) && spec_all_requires2(&spec_match_of(ro))))
}

/// Where a binary operator followed by its right operand can be run.
pub open spec fn spec_op_accepting<T, C: Fn(T, T) -> T, O: Fn(&str) -> ParseResult<C>, F: Fn(&str) -> ParseResult<T>>(
    op: &O,
    p: &F,
) -> spec_fn(Seq<char>) -> bool {
    |i: Seq<char>| spec_op_accepts(op, p, i)
}

/// Whether `v` is `first` combined, from the left, with each operand by its constructor.
pub open spec fn spec_fold<T, C: Fn(T, T) -> T>(first: T, pairs: Seq<(C, T)>, v: T) -> bool
    decreases pairs.len(),
{
    if pairs.len() == 0 {
        v == first
    } else {
        exists|mid: T| spec_fold(first, pairs.drop_last(), mid) && #[trigger] spec_gives2(&pairs.last().0, mid, pairs.last().1, v)
    }
}

/// Whether `r` is `r2` with its pairs folded onto `first`.
pub open spec fn spec_fold_result<T, C: Fn(T, T) -> T>(first: T, r2: ParseResult<Vec<(C, T)>>, r: ParseResult<T>) -> bool {
    match r2 {
        ParseResult::Matched((pairs, s)) => r matches ParseResult::Matched((v, s2)) && spec_fold(first, pairs@, v) && s2 == s,
        ParseResult::Both((pairs, s), e) => r matches ParseResult::Both((v, s2), e2) && spec_fold(first, pairs@, v) && s2 == s && e2 == e,
        ParseResult::Failed(e) => r == ParseResult::<T>::Failed(e),
    }
}

/// Whether `r` continues the first operand `r1` with the operators and operands `r2`, folded.
pub open spec fn spec_folded<T, C: Fn(T, T) -> T>(r1: ParseResult<T>, r2: ParseResult<Vec<(C, T)>>, r: ParseResult<T>) -> bool {
    match r1 {
        ParseResult::Matched((m, _)) => spec_fold_result(m, r2, r),
        ParseResult::Both((m, _), e) => exists|r3: ParseResult<T>| spec_fold_result(m, r2, r3) && #[trigger] spec_after_both(r3, e, r),
        ParseResult::Failed(e) => r == ParseResult::<T>::Failed(e),
    }
}

/// Whether `r` is what an operand followed by binary operators and operands gives on `i`, the
/// operators applied from the left.
pub open spec fn spec_binop<T, C: Fn(T, T) -> T, O: Fn(&str) -> ParseResult<C>, F: Fn(&str) -> ParseResult<T>>(
    op: &O,
    p: &F,
    i: Seq<char>,
    r: ParseResult<T>,
) -> bool {
    exists|r1: ParseResult<T>| #[trigger] spec_runs_on(p, i, r1) && if r1 is Failed {
        r == r1
    } else {
        spec_rest(r1).len() < i.len() && exists|r2: ParseResult<Vec<(C, T)>>| spec_repeated(spec_op_units(op, p), spec_rest(r1), r2) && #[trigger] spec_folded(r1, r2, r)
    }
}

/// Whether operands and binary operators can be read from `i`.
pub open spec fn spec_binop_accepts<T, C: Fn(T, T) -> T, O: Fn(&str) -> ParseResult<C>, F: Fn(&str) -> ParseResult<T>>(
    op: &O,
    p: &F,
    i: Seq<char>,
) -> bool {
    &&& spec_accepts_on(p, i)
    &&& forall|r1: ParseResult<T>| #[trigger] spec_runs_on(p, i, r1) ==> (r1 is Failed
        || spec_repeatable(spec_op_accepting(op, p), spec_op_units(op, p), spec_rest(r1)))
}

/// Every match that repeating a unit gives satisfies what each match of the unit satisfies.
proof fn lemma_repeated_matches<T>(
    unit: spec_fn(Seq<char>, ParseResult<T>) -> bool,
    ok: spec_fn(T) -> bool,
    i: Seq<char>,
    r: ParseResult<Vec<T>>,
)
    requires
        spec_repeated(unit, i, r),
        forall|j: Seq<char>, r1: ParseResult<T>| #[trigger] unit(j, r1) && !(r1 is Failed) ==> ok(spec_match_of(r1)),
    ensures
        r is Both,
        forall|k: int| 0 <= k < r->Both_0.0@.len() ==> #[trigger] ok(r->Both_0.0@[k]),
    decreases i.len(),
{
    let r1 = choose|r1: ParseResult<T>| #[trigger] unit(i, r1) && if r1 is Failed {
        r matches ParseResult::Both((v, s), e) && v@.len() == 0 && s@ == i && ParseResult::<T>::Failed(e) == r1
    } else {
        spec_rest(r1).len() < i.len() && exists|r2: ParseResult<Vec<T>>| spec_repeated(unit, spec_rest(r1), r2) && #[trigger] spec_followed(r1, r2, r)
    };
    if !(r1 is Failed) {
        let r2 = choose|r2: ParseResult<Vec<T>>| spec_repeated(unit, spec_rest(r1), r2) && #[trigger] spec_followed(r1, r2, r);
        lemma_repeated_matches(unit, ok, spec_rest(r1), r2);
        assert(ok(spec_match_of(r1)));
        if r1 is Matched {
            assert(r->Both_0.0@ == seq![spec_match_of(r1)] + r2->Both_0.0@);
        } else {
            let r3 = choose|r3: ParseResult<Vec<T>>| spec_prepended(spec_match_of(r1), r2, r3) && #[trigger] spec_after_both(r3, r1->Both_1, r);
            assert(r->Both_0.0@ == seq![spec_match_of(r1)] + r2->Both_0.0@);
        }
        assert forall|k: int| 0 <= k < r->Both_0.0@.len() implies #[trigger] ok(r->Both_0.0@[k]) by {
            if k > 0 {
                assert(r->Both_0.0@[k] == r2->Both_0.0@[k - 1]);
            }
        }
    }
}

/// `r2` with its match paired with `c`.
fn pair_with<C, T>(r2: ParseResult<T>, c: C) -> (r: ParseResult<(C, T)>)
    ensures
        spec_paired(r2, c, r),
{
    match r2 {
        ParseResult::Matched((m, s)) => ParseResult::Matched(((c, m), s)),
        ParseResult::Both((m, s), e) => ParseResult::Both(((c, m), s), e),
        ParseResult::Failed(e) => ParseResult::Failed(e),
    }
}

/// Runs a binary operator, named `binary operator`, and then its right operand.
fn op_then<T, C: Fn(T, T) -> T, O: Fn(&str) -> ParseResult<C>, F: Fn(&str) -> ParseResult<T>>(op: &O, p: &F, input: &str) -> (r: ParseResult<(C, T)>)
    requires
        spec_op_accepts(op, p, input@),
    ensures
        spec_op_unit(op, p, input@, r),
        spec_pair_ok(r),
{
    assert(spec_accepts_on(op, input@));
    let ro = op(input);
    let ghost wo = ro;
    assert(spec_runs_on(op, input@, wo));
    let rn = rename_failure(ro, input, "binary operator");
    match rn {
        ParseResult::Failed(e) => ParseResult::Failed(e),
        ParseResult::Matched((c, s)) => {
            let ghost cg = c;
            assert(spec_accepts_on(p, s@));
            let r2 = p(s.as_str());
            assert(spec_runs_on(p, s@, r2));
            let ghost r2g = r2;
            let r = pair_with(r2, c);
            assert(spec_paired(r2g, cg, r));
            r
        },
        ParseResult::Both((c, s), e) => {
            let ghost cg = c;
            let ghost eg = e;
            assert(spec_accepts_on(p, s@));
            let r2 = p(s.as_str());
            assert(spec_runs_on(p, s@, r2));
            let ghost r2g = r2;
            let r3 = pair_with(r2, c);
            let ghost r3g = r3;
            let r = combine_after_both(r3, e);
            assert(spec_paired(r2g, cg, r3g) && spec_after_both(r3g, eg, r));
            r
        },
    }
}

/// Folds the pairs onto `first`, applying each constructor to the value so far and its operand.
fn fold_pairs<T, C: Fn(T, T) -> T>(first: T, pairs: Vec<(C, T)>) -> (v: T)
    requires
        forall|k: int| 0 <= k < pairs@.len() ==> spec_all_requires2(&#[trigger] pairs@[k].0),
    ensures
        spec_fold(first, pairs@, v),
{
    let ghost all = pairs@;
    let mut rest = pairs;
    let mut acc = first;
    let ghost mut k: int = 0;
    assert(all.subrange(0, 0) =~= Seq::<(C, T)>::empty());
    while rest.len() > 0
        invariant
            0 <= k <= all.len(),
            rest@ == all.subrange(k, all.len() as int),
            spec_fold(first, all.subrange(0, k), acc),
            forall|kk: int| 0 <= kk < all.len() ==> spec_all_requires2(&#[trigger] all[kk].0),
        decreases rest.len(),
    {
        let (c, second) = rest.remove(0);
        let ghost mid = acc;
        let ghost cg = c;
        let ghost sg = second;
        assert((cg, sg) == all[k]);
        assert(spec_all_requires2(&all[k].0));
        acc = c(acc, second);
        proof {
            assert(spec_gives2(&cg, mid, sg, acc));
            let next = all.subrange(0, k + 1);
            assert(next.drop_last() =~= all.subrange(0, k));
            assert(next.last() == (cg, sg));
            k = k + 1;
            assert(rest@ =~= all.subrange(k, all.len() as int));
        }
    }
    assert(all.subrange(0, k) =~= all);
    acc
}

/// Reads an operand followed by binary operators and operands, applying the operators from the
/// left.
fn run_binop<T, C: Fn(T, T) -> T, O: Fn(&str) -> ParseResult<C>, F: Fn(&str) -> ParseResult<T>>(op: &O, pf: &F, input: &str) -> (r: ParseResult<T>)
    requires
        spec_consumes(op),
        spec_consumes(pf),
        spec_binop_accepts(op, pf, input@),
    ensures
        spec_binop(op, pf, input@, r),
{
    assert(spec_accepts_on(pf, input@));
    let r1 = pf(input);
    let ghost w = r1;
    assert(spec_runs_on(pf, input@, w));
    assert(spec_shorter(w, input@));
    let q = |j: &str| -> (r: ParseResult<(C, T)>)
        requires
            spec_op_accepts(op, pf, j@),
        ensures
            spec_op_unit(op, pf, j@, r),
            spec_pair_ok(r),
        {
            op_then(op, pf, j)
        };
    let ghost accepts = spec_op_accepting(op, pf);
    let ghost unit = spec_op_units(op, pf);
    assert forall|j: &str, r2: ParseResult<(C, T)>| #[trigger] q.ensures((j,), r2) implies unit(j@, r2) && spec_shorter(r2, j@) by {
        let (ro, rn) = choose|ro: ParseResult<C>, rn: ParseResult<C>| #[trigger] spec_runs_on(op, j@, ro) && #[trigger] spec_named(ro, j@, "binary operator"@, rn)
            && match rn {
            ParseResult::Failed(e) => r2 == ParseResult::<(C, T)>::Failed(e),
            ParseResult::Matched((c, s)) => exists|r3: ParseResult<T>| #[trigger] spec_runs_on(pf, s@, r3) && spec_paired(r3, c, r2),
            ParseResult::Both((c, s), e) => exists|r3: ParseResult<T>, r4: ParseResult<(C, T)>| #[trigger] spec_runs_on(pf, s@, r3) && spec_paired(r3, c, r4)
                && #[trigger] spec_after_both(r4, e, r2),
        };
        let jo = choose|jo: &str| jo@ == j@ && #[trigger] (*op).ensures((jo,), ro);
        assert(spec_shorter(ro, jo@));
        if rn is Matched {
            let r3 = choose|r3: ParseResult<T>| #[trigger] spec_runs_on(pf, spec_rest(rn), r3) && spec_paired(r3, spec_match_of(rn), r2);
            let jp = choose|jp: &str| jp@ == spec_rest(rn) && #[trigger] (*pf).ensures((jp,), r3);
            assert(spec_shorter(r3, jp@));
        } else if rn is Both {
            let (r3, r4) = choose|r3: ParseResult<T>, r4: ParseResult<(C, T)>| #[trigger] spec_runs_on(pf, spec_rest(rn), r3) && spec_paired(r3, spec_match_of(rn), r4)
                && #[trigger] spec_after_both(r4, rn->Both_1, r2);
            let jp = choose|jp: &str| jp@ == spec_rest(rn) && #[trigger] (*pf).ensures((jp,), r3);
            assert(spec_shorter(r3, jp@));
        }
    }
    assert forall|j: &str| #[trigger] accepts(j@) implies q.requires((j,)) by {}
    match r1 {
        ParseResult::Failed(e) => ParseResult::Failed(e),
        ParseResult::Matched((m, s)) => {
            let ghost mg = m;
            let r2 = run_repeated(&q, Ghost(accepts), Ghost(unit), s.as_str());
            let ghost r2g = r2;
            let ghost ok = |pair: (C, T)| spec_all_requires2(&pair.0);
            proof {
                lemma_repeated_matches(unit, ok, s@, r2);
            }
            let r = match r2 {
                ParseResult::Both((pairs, rest), e2) => {
                    assert forall|k: int| 0 <= k < pairs@.len() implies spec_all_requires2(&#[trigger] pairs@[k].0) by {
                        assert(ok(r2g->Both_0.0@[k]));
                    }
                    ParseResult::Both((fold_pairs(m, pairs), rest), e2)
                },
                ParseResult::Matched((pairs, rest)) => ParseResult::Matched((fold_pairs(m, pairs), rest)),
                ParseResult::Failed(e2) => ParseResult::Failed(e2),
            };
            assert(spec_fold_result(mg, r2g, r));
            assert(spec_folded(w, r2g, r));
            r
        },
        ParseResult::Both((m, s), e) => {
            let ghost mg = m;
            let ghost eg = e;
            let r2 = run_repeated(&q, Ghost(accepts), Ghost(unit), s.as_str());
            let ghost r2g = r2;
            let ghost ok = |pair: (C, T)| spec_all_requires2(&pair.0);
            proof {
                lemma_repeated_matches(unit, ok, s@, r2);
            }
            let r3 = match r2 {
                ParseResult::Both((pairs, rest), e2) => {
                    assert forall|k: int| 0 <= k < pairs@.len() implies spec_all_requires2(&#[trigger] pairs@[k].0) by {
                        assert(ok(r2g->Both_0.0@[k]));
                    }
                    ParseResult::Both((fold_pairs(m, pairs), rest), e2)
                },
                ParseResult::Matched((pairs, rest)) => ParseResult::Matched((fold_pairs(m, pairs), rest)),
                ParseResult::Failed(e2) => ParseResult::Failed(e2),
            };
            let ghost r3g = r3;
            let r = combine_after_both(r3, e);
            assert(spec_fold_result(mg, r2g, r3g) && spec_after_both(r3g, eg, r));
            assert(spec_folded(w, r2g, r));
            r
        },
    }
}

/// The parser of an operand followed by binary operators, each named `binary operator`, and
/// operands, applying the operators from the left; operators and operands must consume input.
pub fn binop<T, F: Fn(&str) -> ParseResult<T>, C: Fn(T, T) -> T, O: Fn(&str) -> ParseResult<C>>(
    parser: Parser<T, F>,
    operator: Parser<C, O>,
) -> (p: Parser<T, impl Fn(&str) -> ParseResult<T>>)
    requires
        spec_consumes(&parser.0),
        spec_consumes(&operator.0),
    ensures
        forall|i: &str| spec_binop_accepts(&operator.0, &parser.0, i@) ==> #[trigger] p.0.requires((i,)),
        forall|i: &str, r: ParseResult<T>| #[trigger] p.0.ensures((i,), r) ==> spec_binop(&operator.0, &parser.0, i@, r),
{
    let pf = parser.0;
    let of = operator.0;
    let h = move |input: &str| -> (r: ParseResult<T>)
        requires
            spec_consumes(&of),
            spec_consumes(&pf),
            spec_binop_accepts(&of, &pf, input@),
        ensures
            spec_binop(&of, &pf, input@, r),
        {
            run_binop(&of, &pf, input)
        };
    Parser(h, PhantomData)
}


/// A failed test of `satisfy` consumes no input: the failure is at the input itself.
pub proof fn law_satisfy_failure_consumes_nothing<G: Fn(char) -> bool>(g: &G, i: Seq<char>, r: ParseResult<char>)
    requires
        spec_satisfied(g, i, r),
        r is Failed,
    ensures
        r matches ParseResult::Failed((_, rest)) && rest@ == i,
{
}

/// `and_then` passes a failure of the first parser on unchanged, without a continuation, and
/// passes on what the continuation gives after a plain match.
pub proof fn law_and_then_passes_failure<T, U, Q: Fn(&str) -> ParseResult<U>, G: Fn(T) -> Parser<U, Q>>(
    r1: ParseResult<T>,
    g: &G,
    r: ParseResult<U>,
)
    requires
        spec_chained(r1, g, r),
    ensures
        r1 matches ParseResult::Failed(e) ==> r matches ParseResult::Failed(e2) && e2 == e,
        r1 matches ParseResult::Matched((m, s)) ==> exists|q: Parser<U, Q>| #[trigger] (*g).ensures((m,), q) && spec_runs_on(&q.0, s@, r),
{
}

/// `or_else` passes a match or a match beside a failure of the first parser on unchanged,
/// without trying the alternative.
pub proof fn law_or_else_passes_match<T, Q: Fn(&str) -> ParseResult<T>, G: Fn(Expecteds) -> Parser<T, Q>>(
    r1: ParseResult<T>,
    g: &G,
    i: Seq<char>,
    r: ParseResult<T>,
)
    requires
        spec_alternative(r1, g, i, r),
    ensures
        !(r1 is Failed) ==> r == r1,
{
}

/// Parsing the whole input gives the match wherever the parser matches, and the formatted
/// expectations wherever it fails.
pub proof fn law_parse_outcome<T>(res: ParseResult<T>, r: Result<T, String>)
    requires
        spec_parse_outcome(res, r),
    ensures
        res matches ParseResult::Matched((m, _)) ==> r == Ok::<T, String>(m),
        res matches ParseResult::Both((m, _), _) ==> r == Ok::<T, String>(m),
        res is Failed <==> r is Err,
{
}

} // verus!
