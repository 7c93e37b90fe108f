//! Results of the parser combinators: a match with the rest of the input, the expectations of a
//! failed parse with the input where it failed, or both (a match, and a failure that got
//! further).

use vstd::prelude::*;
use vstd::utf8::encode_utf8;

verus! {

/// What a failed parse expected.
pub type Expecteds = Vec<String>;

/// The result of a parser, similar to `Result`, but keeping the longest failed parse.
#[derive(Debug, PartialEq)]
pub enum ParseResult<T> {
    /// The parser succeeded without ever failing.
    Matched((T, String)),
    /// Every alternative failed.
    Failed((Expecteds, String)),
    /// The parser succeeded, but an alternative failed having consumed more input.
    Both((T, String), (Expecteds, String)),
}

/// The characters of each expectation.
pub open spec fn spec_strings(v: Seq<String>) -> Seq<Seq<char>> {
    v.map(|_i: int, s: String| s@)
}

/// The expectations with each later repetition of an earlier one left out.
pub open spec fn spec_dedup(v: Seq<Seq<char>>) -> Seq<Seq<char>>
    decreases v.len(),
{
    if v.len() == 0 {
        Seq::empty()
    } else {
        let r = spec_dedup(v.drop_last());
        if r.contains(v.last()) {
            r
        } else {
            r.push(v.last())
        }
    }
}

/// The number of bytes of the rest of the input, as `str::len` gives it.
pub open spec fn spec_remaining(s: String) -> usize {
    encode_utf8(s@).len() as usize
}

/// Whether `r` merges two failed parses: the one with less input left wins; with as much input
/// left, their expectations are concatenated without repetitions.
pub open spec fn spec_merged(r: (Expecteds, String), e1: (Expecteds, String), e2: (Expecteds, String)) -> bool {
    if spec_remaining(e1.1) < spec_remaining(e2.1) {
        r == e1
    } else if spec_remaining(e1.1) > spec_remaining(e2.1) {
        r == e2
    } else {
        spec_strings(r.0@) == spec_dedup(spec_strings(e1.0@) + spec_strings(e2.0@)) && r.1 == e1.1
    }
}

fn contains_string(v: &Vec<String>, s: &String) -> (r: bool)
    ensures
        r == spec_strings(v@).contains(s@),
{
    let mut i: usize = 0;
    while i < v.len()
        invariant
            i <= v.len(),
            forall|j: int| 0 <= j < i ==> v@[j]@ != s@,
        decreases v.len() - i,
    {
        if v[i] == *s {
            assert(spec_strings(v@)[i as int] == s@);
            return true;
        }
        i = i + 1;
    }
    assert forall|j: int| 0 <= j < spec_strings(v@).len() implies spec_strings(v@)[j] != s@ by {
        assert(spec_strings(v@)[j] == v@[j]@);
    }
    false
}

fn push_unique(out: &mut Vec<String>, items: &Vec<String>)
    requires
        spec_strings(old(out)@) == spec_dedup(spec_strings(old(out)@)),
    ensures
        spec_strings(final(out)@) == spec_dedup_onto(spec_strings(old(out)@), spec_strings(items@)),
{
    let ghost start = spec_strings(out@);
    let mut i: usize = 0;
    while i < items.len()
        invariant
            i <= items.len(),
            spec_strings(out@) == spec_dedup_onto(start, spec_strings(items@).subrange(0, i as int)),
        decreases items.len() - i,
    {
        let s = items[i].clone();
        let ghost before = spec_strings(out@);
        let ghost sub = spec_strings(items@).subrange(0, i as int);
        let ghost sub1 = spec_strings(items@).subrange(0, i + 1 as int);
        assert(spec_strings(items@)[i as int] == items@[i as int]@);
        assert(sub1 == sub.push(s@));
        assert(sub1.drop_last() == sub);
        assert(sub1.last() == s@);
        if !contains_string(out, &s) {
            out.push(s);
            assert(spec_strings(out@) == before.push(s@));
        }
        i = i + 1;
    }
    assert(spec_strings(items@).subrange(0, items.len() as int) == spec_strings(items@));
}

/// The expectations `prefix`, then those of `v` not met before, in order.
pub open spec fn spec_dedup_onto(prefix: Seq<Seq<char>>, v: Seq<Seq<char>>) -> Seq<Seq<char>>
    decreases v.len(),
{
    if v.len() == 0 {
        prefix
    } else {
        let r = spec_dedup_onto(prefix, v.drop_last());
        if r.contains(v.last()) {
            r
        } else {
            r.push(v.last())
        }
    }
}

proof fn lemma_dedup_onto(a: Seq<Seq<char>>, b: Seq<Seq<char>>)
    ensures
        spec_dedup_onto(spec_dedup(a), b) == spec_dedup(a + b),
    decreases b.len(),
{
    if b.len() == 0 {
        assert(a + b == a);
    } else {
        lemma_dedup_onto(a, b.drop_last());
        assert((a + b).drop_last() == a + b.drop_last());
        assert((a + b).last() == b.last());
    }
}

proof fn lemma_dedup_idempotent(a: Seq<Seq<char>>)
    ensures
        spec_dedup(spec_dedup(a)) == spec_dedup(a),
        forall|i: int, j: int| 0 <= i < j < spec_dedup(a).len() ==> spec_dedup(a)[i] != spec_dedup(a)[j],
    decreases a.len(),
{
    if a.len() > 0 {
        lemma_dedup_idempotent(a.drop_last());
        let r = spec_dedup(a.drop_last());
        if !r.contains(a.last()) {
            let r2 = r.push(a.last());
            assert(r2.drop_last() == r);
            assert forall|i: int, j: int| 0 <= i < j < r2.len() implies r2[i] != r2[j] by {
                if j == r2.len() - 1 {
                    assert(r2[i] == r[i]);
                }
            }
        }
    }
}

/// Merges two failed parses, preferring the one that consumed the most input; with as much input
/// consumed, concatenates their expectations without repetitions.
pub fn merge_expecteds(expecteds1: (Expecteds, String), expecteds2: (Expecteds, String)) -> (r: (Expecteds, String))
    ensures
        spec_merged(r, expecteds1, expecteds2),
{
    let len1 = expecteds1.1.as_str().len();
    let len2 = expecteds2.1.as_str().len();
    if len1 < len2 {
        expecteds1
    } else if len1 > len2 {
        expecteds2
    } else {
        let mut out: Vec<String> = Vec::new();
        proof {
            assert(spec_strings(out@) == Seq::<Seq<char>>::empty());
            assert(spec_dedup(Seq::<Seq<char>>::empty()) == Seq::<Seq<char>>::empty());
        }
        push_unique(&mut out, &expecteds1.0);
        proof {
            lemma_dedup_onto(Seq::empty(), spec_strings(expecteds1.0@));
            assert(Seq::<Seq<char>>::empty() + spec_strings(expecteds1.0@) == spec_strings(expecteds1.0@));
            lemma_dedup_idempotent(spec_strings(expecteds1.0@));
        }
        push_unique(&mut out, &expecteds2.0);
        proof {
            lemma_dedup_onto(spec_strings(expecteds1.0@), spec_strings(expecteds2.0@));
        }
        (out, expecteds1.1)
    }
}

/// Whether `r` combines a parse that both matched and failed (with failure `e`) with the result
/// `fr` of continuing from its match: the failures merge, and a match of `fr` stands.
pub open spec fn spec_after_both<U>(fr: ParseResult<U>, e: (Expecteds, String), r: ParseResult<U>) -> bool {
    match fr {
        ParseResult::Matched(fm) => r == ParseResult::Both(fm, e),
        ParseResult::Failed(fe) => r matches ParseResult::Failed(x) && spec_merged(x, e, fe),
        ParseResult::Both(fm, fe) => r matches ParseResult::Both(m, x) && m == fm && spec_merged(
            x,
            e,
            fe,
        ),
    }
}

/// Whether two failures hold the same expectations at the same place.
pub open spec fn spec_same_failure(a: (Expecteds, String), b: (Expecteds, String)) -> bool {
    spec_strings(a.0@) == spec_strings(b.0@) && a.1 == b.1
}

fn clone_failure(e: &(Expecteds, String)) -> (r: (Expecteds, String))
    ensures
        spec_same_failure(r, *e),
{
    let mut v: Vec<String> = Vec::new();
    let mut i: usize = 0;
    while i < e.0.len()
        invariant
            i <= e.0.len(),
            spec_strings(v@) == spec_strings(e.0@).subrange(0, i as int),
        decreases e.0.len() - i,
    {
        let s = e.0[i].clone();
        proof {
            assert(spec_strings(e.0@)[i as int] == e.0@[i as int]@);
            assert(spec_strings(e.0@).subrange(0, i + 1 as int) == spec_strings(e.0@).subrange(0, i as int).push(s@));
        }
        v.push(s);
        assert(spec_strings(v@) == spec_strings(e.0@).subrange(0, i + 1 as int));
        i = i + 1;
    }
    assert(spec_strings(e.0@).subrange(0, e.0.len() as int) == spec_strings(e.0@));
    (v, e.1.clone())
}

fn combine_after_both<U>(fr: ParseResult<U>, e: (Expecteds, String)) -> (r: ParseResult<U>)
    ensures
        spec_after_both(fr, e, r),
{
    match fr {
        ParseResult::Matched(fm) => ParseResult::Both(fm, e),
        ParseResult::Failed(fe) => ParseResult::Failed(merge_expecteds(e, fe)),
        ParseResult::Both(fm, fe) => ParseResult::Both(fm, merge_expecteds(e, fe)),
    }
}

impl<T> ParseResult<T> {
    /// Continues a match with `f`; a failure stands, and a failure beside a match merges with
    /// the failure of `f`.
    pub fn and_then<U: Clone + 'static, F: FnOnce((T, String)) -> ParseResult<U> + Clone + 'static>(
        self,
        f: F,
    ) -> (r: ParseResult<U>)
        requires
            match self {
                ParseResult::Matched(m) => f.requires((m,)),
                ParseResult::Both(m, _) => f.requires((m,)),
                ParseResult::Failed(_) => true,
            },
        ensures
            match self {
                ParseResult::Matched(m) => f.ensures((m,), r),
                ParseResult::Failed(e) => r == ParseResult::<U>::Failed(e),
                ParseResult::Both(m, e) => exists|fr: ParseResult<U>|
                    f.ensures((m,), fr) && spec_after_both(fr, e, r),
            },
    {
        match self {
            ParseResult::Matched(m) => f(m),
            ParseResult::Failed(e) => ParseResult::Failed(e),
            ParseResult::Both(m, e) => {
                let fr = f(m);
                combine_after_both(fr, e)
            },
        }
    }

    /// Tries `f` on a failure, keeping the failure beside its result; a match stands.
    pub fn or_else<F: FnOnce((Expecteds, String)) -> ParseResult<T> + Clone + 'static>(
        self,
        f: F,
    ) -> (r: ParseResult<T>)
        requires
            self matches ParseResult::Failed(e) ==> forall|c: (Expecteds, String)|
                spec_same_failure(c, e) ==> f.requires((c,)),
        ensures
            match self {
                ParseResult::Matched(m) => r == ParseResult::Matched(m),
                ParseResult::Failed(e) => exists|c: (Expecteds, String), fr: ParseResult<T>|
                    spec_same_failure(c, e) && f.ensures((c,), fr) && spec_after_both(fr, e, r),
                ParseResult::Both(m, e) => r == ParseResult::Both(m, e),
            },
    {
        match self {
            ParseResult::Matched(m) => ParseResult::Matched(m),
            ParseResult::Failed(e) => {
                let c = clone_failure(&e);
                let fr = f(c);
                combine_after_both(fr, e)
            },
            ParseResult::Both(m, e) => ParseResult::Both(m, e),
        }
    }

    /// Applies `f` to the match, if any.
    pub fn map<U: Clone + 'static, F: FnOnce((T, String)) -> (U, String) + Clone + 'static>(
        self,
        f: F,
    ) -> (r: ParseResult<U>)
        requires
            match self {
                ParseResult::Matched(m) => f.requires((m,)),
                ParseResult::Both(m, _) => f.requires((m,)),
                ParseResult::Failed(_) => true,
            },
        ensures
            match self {
                ParseResult::Matched(m) => r matches ParseResult::Matched(x) && f.ensures((m,), x),
                ParseResult::Failed(e) => r == ParseResult::<U>::Failed(e),
                ParseResult::Both(m, e) => r matches ParseResult::Both(x, e2) && e2 == e
                    && f.ensures((m,), x),
            },
    {
        match self {
            ParseResult::Matched(m) => ParseResult::Matched(f(m)),
            ParseResult::Failed(e) => ParseResult::Failed(e),
            ParseResult::Both(m, e) => ParseResult::Both(f(m), e),
        }
    }

    /// Applies `f` to the failure, if any.
    pub fn map_err<F: FnOnce((Expecteds, String)) -> (Expecteds, String) + Clone + 'static>(
        self,
        f: F,
    ) -> (r: ParseResult<T>)
        requires
            match self {
                ParseResult::Failed(e) => f.requires((e,)),
                ParseResult::Both(_, e) => f.requires((e,)),
                ParseResult::Matched(_) => true,
            },
        ensures
            match self {
                ParseResult::Matched(m) => r == ParseResult::Matched(m),
                ParseResult::Failed(e) => r matches ParseResult::Failed(x) && f.ensures((e,), x),
                ParseResult::Both(m, e) => r matches ParseResult::Both(m2, x) && m2 == m
                    && f.ensures((e,), x),
            },
    {
        match self {
            ParseResult::Matched(m) => ParseResult::Matched(m),
            ParseResult::Failed(e) => ParseResult::Failed(f(e)),
            ParseResult::Both(m, e) => ParseResult::Both(m, f(e)),
        }
    }

    /// The match, if any, else the failure.
    pub fn into_result(self) -> (r: Result<(T, String), (Expecteds, String)>)
        ensures
            match self {
                ParseResult::Matched(m) => r == Ok::<(T, String), (Expecteds, String)>(m),
                ParseResult::Failed(e) => r == Err::<(T, String), (Expecteds, String)>(e),
                ParseResult::Both(m, _) => r == Ok::<(T, String), (Expecteds, String)>(m),
            },
    {
        match self {
            ParseResult::Matched(m) => Ok(m),
            ParseResult::Failed(e) => Err(e),
            ParseResult::Both(m, _) => Ok(m),
        }
    }
}

} // verus!
