//! Linking: the globals that each global of a typed program depends on, closed under
//! dependency, as macros of the assembly output.

use std::collections::{BTreeMap, BTreeSet};
use vstd::prelude::*;
use crate::cc::ast::{TypedExpression, TypedGlobal, TypedProgram, TypedStatement};
use crate::graph::{
    law_closure_keeps_successors, law_closure_reflexive_transitive, reflexive_transitive_closure,
    spec_closure_of, spec_edge, spec_graph, spec_reaches, spec_walk,
};
use crate::text::{chars_of, string_chars, string_from_chars};
use crate::token::{Error, Macro, Pos, Token, TokenView};

verus! {

broadcast use vstd::std_specs::btree::group_btree_axioms;

/// A global as a dependency: whether it is labeled (data or a function, as opposed to a
/// macro), and its name.
pub type Key = (bool, Seq<char>);

/// The keys of a list of dependencies.
pub open spec fn spec_keys(v: Seq<(bool, String)>) -> Set<Key> {
    Set::new(|k: Key| exists|i: int| 0 <= i < v.len() && #[trigger] v[i].0 == k.0 && v[i].1@ == k.1)
}

/// The globals an expression depends on: the globals it loads or takes the address of, and
/// the macros it calls.
pub open spec fn spec_expression_deps(e: TypedExpression) -> Set<Key>
    decreases e,
{
    match e {
        TypedExpression::N1DereferenceN8(x) | TypedExpression::N8DereferenceN8(x)
        | TypedExpression::N1BitwiseComplement(x) | TypedExpression::N8BitwiseComplement(x)
        | TypedExpression::N0CastN1(x) | TypedExpression::N0CastN8(x) | TypedExpression::N1CastN8(x)
        | TypedExpression::N8CastN1(x) => spec_expression_deps(*x),
        TypedExpression::N8Addition(a, b) | TypedExpression::N8Subtraction(a, b)
        | TypedExpression::N8Multiplication(a, b) | TypedExpression::U8Division(a, b)
        | TypedExpression::U8Modulo(a, b) | TypedExpression::N8BitwiseAnd(a, b)
        | TypedExpression::N8BitwiseInclusiveOr(a, b) | TypedExpression::N8BitwiseExclusiveOr(a, b)
        | TypedExpression::N1EqualToN8(a, b) | TypedExpression::N1LessThanU8(a, b)
        | TypedExpression::N1LessThanI8(a, b) | TypedExpression::N0SecondN0N0(a, b)
        | TypedExpression::N1SecondN0N1(a, b) | TypedExpression::N8SecondN0N8(a, b) =>
            spec_expression_deps(*a).union(spec_expression_deps(*b)),
        TypedExpression::N0Constant | TypedExpression::N1Constant(_) | TypedExpression::N8Constant(_)
        | TypedExpression::N8LoadLocal(_) | TypedExpression::N8AddrLocal(_) => Set::empty(),
        TypedExpression::N8LoadGlobal(l) | TypedExpression::N8AddrGlobal(l) => set![(true, l@)],
        TypedExpression::N0MacroCall(l, args) | TypedExpression::N1MacroCall(l, args)
        | TypedExpression::N8MacroCall(l, args) => spec_arguments_deps(args@).insert((false, l@)),
        TypedExpression::N0FunctionCall(d, args) | TypedExpression::N1FunctionCall(d, args)
        | TypedExpression::N8FunctionCall(d, args) => spec_arguments_deps(args@).union(
            spec_expression_deps(*d),
        ),
    }
}

/// The globals that arguments depend on.
pub open spec fn spec_arguments_deps(args: Seq<TypedExpression>) -> Set<Key>
    decreases args,
{
    if args.len() == 0 {
        Set::empty()
    } else {
        spec_arguments_deps(args.subrange(0, args.len() - 1)).union(spec_expression_deps(args.last()))
    }
}

/// The globals an optional expression depends on.
pub open spec fn spec_optional_deps(e: Option<TypedExpression>) -> Set<Key> {
    match e {
        Some(x) => spec_expression_deps(x),
        None => Set::empty(),
    }
}

/// The globals a statement depends on.
pub open spec fn spec_statement_deps(s: TypedStatement) -> Set<Key>
    decreases s,
{
    match s {
        TypedStatement::ExpressionN0(e) => spec_expression_deps(e),
        TypedStatement::Compound(ss) => spec_statements_deps(ss@),
        TypedStatement::IfN1(_, c, body, else_body) => {
            let e = match else_body {
                Some(x) => spec_statement_deps(*x),
                None => Set::empty(),
            };
            spec_expression_deps(c).union(spec_statement_deps(*body)).union(e)
        },
        TypedStatement::WhileN1(_, c, body, _) => spec_expression_deps(c).union(spec_statement_deps(*body)),
        TypedStatement::Break(_, _) | TypedStatement::Continue(_, _) => Set::empty(),
        TypedStatement::MacroReturnN0(_, _, e) | TypedStatement::MacroReturnN1(_, _, e)
        | TypedStatement::MacroReturnN8(_, _, e) | TypedStatement::FunctionReturnN0(_, _, e)
        | TypedStatement::FunctionReturnN1(_, _, e) | TypedStatement::FunctionReturnN8(_, _, e)
        | TypedStatement::InitLocalN0(e) | TypedStatement::InitLocalN1(e)
        | TypedStatement::InitLocalN8(e) => spec_optional_deps(e),
        TypedStatement::UninitLocalN0 | TypedStatement::UninitLocalN1 | TypedStatement::UninitLocalN8
        | TypedStatement::Assembly(_) => Set::empty(),
    }
}

/// The globals that statements depend on.
pub open spec fn spec_statements_deps(ss: Seq<TypedStatement>) -> Set<Key>
    decreases ss,
{
    if ss.len() == 0 {
        Set::empty()
    } else {
        spec_statements_deps(ss.subrange(0, ss.len() - 1)).union(spec_statement_deps(ss.last()))
    }
}

/// One more dependency adds its key.
proof fn lemma_keys_push(v: Seq<(bool, String)>, x: (bool, String))
    ensures
        spec_keys(v.push(x)) == spec_keys(v).insert((x.0, x.1@)),
{
    let w = v.push(x);
    assert forall|k: Key| spec_keys(w).contains(k) implies #[trigger] spec_keys(v).insert((x.0, x.1@)).contains(k) by {
        let i = choose|i: int| 0 <= i < w.len() && #[trigger] w[i].0 == k.0 && w[i].1@ == k.1;
        if i < v.len() {
            assert(v[i] == w[i]);
        }
    }
    assert forall|k: Key| #[trigger] spec_keys(v).insert((x.0, x.1@)).contains(k) implies spec_keys(w).contains(k) by {
        if k == (x.0, x.1@) {
            assert(w[v.len() as int] == x);
        } else {
            let i = choose|i: int| 0 <= i < v.len() && #[trigger] v[i].0 == k.0 && v[i].1@ == k.1;
            assert(w[i] == v[i]);
        }
    }
    assert(spec_keys(w) =~= spec_keys(v).insert((x.0, x.1@)));
}

/// Adds a dependency.
fn add_dependency(out: &mut Vec<(bool, String)>, labeled: bool, name: &String)
    ensures
        spec_keys(final(out)@) == spec_keys(old(out)@).insert((labeled, name@)),
{
    let copy = string_from_chars(&string_chars(name));
    proof {
        lemma_keys_push(out@, (labeled, copy));
    }
    out.push((labeled, copy));
}

/// Adds the dependencies of arguments.
fn collect_arguments(args: &Vec<TypedExpression>, out: &mut Vec<(bool, String)>, Ghost(parent): Ghost<TypedExpression>)
    requires
        decreases_to!(parent => args@),
    ensures
        spec_keys(final(out)@) == spec_keys(old(out)@).union(spec_arguments_deps(args@)),
    decreases parent, 0nat,
{
    let mut i: usize = 0;
    while i < args.len()
        invariant
            i <= args.len(),
            decreases_to!(parent => args@),
            spec_keys(out@) == spec_keys(old(out)@).union(spec_arguments_deps(args@.subrange(0, i as int))),
        decreases args.len() - i,
    {
        proof {
            let t = args@.subrange(0, i + 1 as int);
            assert(t.subrange(0, t.len() - 1) == args@.subrange(0, i as int));
            assert(t.last() == args@[i as int]);
            assert(decreases_to!(args@ => args@[i as int]));
        }
        collect_expression(&args[i], out);
        proof {
            let t = args@.subrange(0, i + 1 as int);
            assert(spec_keys(out@) =~= spec_keys(old(out)@).union(spec_arguments_deps(t)));
        }
        i = i + 1;
    }
    assert(args@.subrange(0, args.len() as int) == args@);
}

/// Adds the dependencies of an expression.
fn collect_expression(e: &TypedExpression, out: &mut Vec<(bool, String)>)
    ensures
        spec_keys(final(out)@) == spec_keys(old(out)@).union(spec_expression_deps(*e)),
    decreases *e, 1nat,
{
    let ghost before = spec_keys(out@);
    match e {
        TypedExpression::N1DereferenceN8(x) | TypedExpression::N8DereferenceN8(x)
        | TypedExpression::N1BitwiseComplement(x) | TypedExpression::N8BitwiseComplement(x)
        | TypedExpression::N0CastN1(x) | TypedExpression::N0CastN8(x) | TypedExpression::N1CastN8(x)
        | TypedExpression::N8CastN1(x) => collect_expression(x, out),
        TypedExpression::N8Addition(a, b) | TypedExpression::N8Subtraction(a, b)
        | TypedExpression::N8Multiplication(a, b) | TypedExpression::U8Division(a, b)
        | TypedExpression::U8Modulo(a, b) | TypedExpression::N8BitwiseAnd(a, b)
        | TypedExpression::N8BitwiseInclusiveOr(a, b) | TypedExpression::N8BitwiseExclusiveOr(a, b)
        | TypedExpression::N1EqualToN8(a, b) | TypedExpression::N1LessThanU8(a, b)
        | TypedExpression::N1LessThanI8(a, b) | TypedExpression::N0SecondN0N0(a, b)
        | TypedExpression::N1SecondN0N1(a, b) | TypedExpression::N8SecondN0N8(a, b) => {
            collect_expression(a, out);
            collect_expression(b, out);
            assert(spec_keys(out@) =~= before.union(spec_expression_deps(*e)));
        },
        TypedExpression::N0Constant | TypedExpression::N1Constant(_) | TypedExpression::N8Constant(_)
        | TypedExpression::N8LoadLocal(_) | TypedExpression::N8AddrLocal(_) => {
            assert(spec_keys(out@) =~= before.union(spec_expression_deps(*e)));
        },
        TypedExpression::N8LoadGlobal(l) | TypedExpression::N8AddrGlobal(l) => {
            add_dependency(out, true, l);
            assert(spec_keys(out@) =~= before.union(spec_expression_deps(*e)));
        },
        TypedExpression::N0MacroCall(l, args) | TypedExpression::N1MacroCall(l, args)
        | TypedExpression::N8MacroCall(l, args) => {
            collect_arguments(args, out, Ghost(*e));
            add_dependency(out, false, l);
            assert(spec_keys(out@) =~= before.union(spec_expression_deps(*e)));
        },
        TypedExpression::N0FunctionCall(d, args) | TypedExpression::N1FunctionCall(d, args)
        | TypedExpression::N8FunctionCall(d, args) => {
            collect_arguments(args, out, Ghost(*e));
            collect_expression(d, out);
            assert(spec_keys(out@) =~= before.union(spec_expression_deps(*e)));
        },
    }
}

/// Adds the dependencies of an optional expression.
fn collect_optional(e: &Option<TypedExpression>, out: &mut Vec<(bool, String)>)
    ensures
        spec_keys(final(out)@) == spec_keys(old(out)@).union(spec_optional_deps(*e)),
{
    match e {
        Some(x) => collect_expression(x, out),
        None => {
            assert(spec_keys(out@) =~= spec_keys(out@).union(Set::<Key>::empty()));
        },
    }
}

/// Adds the dependencies of statements.
fn collect_statements(ss: &Vec<TypedStatement>, out: &mut Vec<(bool, String)>, Ghost(parent): Ghost<TypedStatement>)
    requires
        decreases_to!(parent => ss@),
    ensures
        spec_keys(final(out)@) == spec_keys(old(out)@).union(spec_statements_deps(ss@)),
    decreases parent, 0nat,
{
    let mut i: usize = 0;
    while i < ss.len()
        invariant
            i <= ss.len(),
            decreases_to!(parent => ss@),
            spec_keys(out@) == spec_keys(old(out)@).union(spec_statements_deps(ss@.subrange(0, i as int))),
        decreases ss.len() - i,
    {
        proof {
            let t = ss@.subrange(0, i + 1 as int);
            assert(t.subrange(0, t.len() - 1) == ss@.subrange(0, i as int));
            assert(t.last() == ss@[i as int]);
            assert(decreases_to!(ss@ => ss@[i as int]));
        }
        collect_statement(&ss[i], out);
        proof {
            let t = ss@.subrange(0, i + 1 as int);
            assert(spec_keys(out@) =~= spec_keys(old(out)@).union(spec_statements_deps(t)));
        }
        i = i + 1;
    }
    assert(ss@.subrange(0, ss.len() as int) == ss@);
}

/// Adds the dependencies of a statement.
fn collect_statement(s: &TypedStatement, out: &mut Vec<(bool, String)>)
    ensures
        spec_keys(final(out)@) == spec_keys(old(out)@).union(spec_statement_deps(*s)),
    decreases *s, 1nat,
{
    let ghost before = spec_keys(out@);
    match s {
        TypedStatement::ExpressionN0(e) => collect_expression(e, out),
        TypedStatement::Compound(ss) => collect_statements(ss, out, Ghost(*s)),
        TypedStatement::IfN1(_, c, body, else_body) => {
            collect_expression(c, out);
            collect_statement(body, out);
            match else_body {
                Some(x) => collect_statement(x, out),
                None => {},
            }
            assert(spec_keys(out@) =~= before.union(spec_statement_deps(*s)));
        },
        TypedStatement::WhileN1(_, c, body, _) => {
            collect_expression(c, out);
            collect_statement(body, out);
            assert(spec_keys(out@) =~= before.union(spec_statement_deps(*s)));
        },
        TypedStatement::MacroReturnN0(_, _, e) | TypedStatement::MacroReturnN1(_, _, e)
        | TypedStatement::MacroReturnN8(_, _, e) | TypedStatement::FunctionReturnN0(_, _, e)
        | TypedStatement::FunctionReturnN1(_, _, e) | TypedStatement::FunctionReturnN8(_, _, e)
        | TypedStatement::InitLocalN0(e) | TypedStatement::InitLocalN1(e)
        | TypedStatement::InitLocalN8(e) => collect_optional(e, out),
        _ => {
            assert(spec_keys(out@) =~= before.union(spec_statement_deps(*s)));
        },
    }
}

/// Lexicographic order on character sequences, by character.
pub open spec fn spec_chars_lt(a: Seq<char>, b: Seq<char>) -> bool
    decreases a.len(),
{
    if a.len() == 0 {
        b.len() > 0
    } else if b.len() == 0 {
        false
    } else if a[0] != b[0] {
        a[0] < b[0]
    } else {
        spec_chars_lt(a.drop_first(), b.drop_first())
    }
}

/// The order of keys: macros before labeled globals, then by name.
pub open spec fn spec_key_lt(a: Key, b: Key) -> bool {
    (!a.0 && b.0) || (a.0 == b.0 && spec_chars_lt(a.1, b.1))
}

/// The order on character sequences is irreflexive, transitive and total.
proof fn lemma_chars_order(a: Seq<char>, b: Seq<char>, c: Seq<char>)
    ensures
        !spec_chars_lt(a, a),
        spec_chars_lt(a, b) && spec_chars_lt(b, c) ==> spec_chars_lt(a, c),
        a != b ==> spec_chars_lt(a, b) || spec_chars_lt(b, a),
    decreases a.len(),
{
    if a.len() > 0 {
        lemma_chars_order(a.drop_first(), b.drop_first(), c.drop_first());
        if b.len() > 0 && a[0] == b[0] && a.drop_first() == b.drop_first() {
            assert forall|i: int| 0 <= i < a.len() implies a[i] == b[i] by {
                if i > 0 {
                    assert(a[i] == a.drop_first()[i - 1]);
                    assert(b[i] == b.drop_first()[i - 1]);
                }
            }
            assert(a =~= b);
        }
    } else if b.len() == 0 {
        assert(a =~= b);
    }
}

/// The order on keys is irreflexive, transitive and total.
proof fn lemma_key_order(a: Key, b: Key, c: Key)
    ensures
        !spec_key_lt(a, a),
        spec_key_lt(a, b) && spec_key_lt(b, c) ==> spec_key_lt(a, c),
        a != b ==> spec_key_lt(a, b) || spec_key_lt(b, a),
{
    lemma_chars_order(a.1, b.1, c.1);
}

/// Whether keys are in strictly increasing order.
pub open spec fn spec_sorted(q: Seq<Key>) -> bool {
    forall|i: int, j: int| 0 <= i < j < q.len() ==> spec_key_lt(#[trigger] q[i], #[trigger] q[j])
}

/// Two sequences in increasing order with the same elements are equal.
proof fn lemma_sorted_unique(q1: Seq<Key>, q2: Seq<Key>)
    requires
        spec_sorted(q1),
        spec_sorted(q2),
        q1.to_set() == q2.to_set(),
    ensures
        q1 == q2,
    decreases q1.len(),
{
    if q1.len() == 0 {
        if q2.len() > 0 {
            assert(q2.to_set().contains(q2[0]));
        }
        assert(q1 =~= q2);
    } else {
        assert(q1.to_set().contains(q1[0]));
        if q2.len() == 0 {
            assert(false);
        }
        let j = choose|j: int| 0 <= j < q2.len() && q2[j] == q1[0];
        assert(q2.to_set().contains(q2[0]));
        let i = choose|i: int| 0 <= i < q1.len() && q1[i] == q2[0];
        lemma_key_order(q1[0], q2[0], q1[0]);
        if j > 0 {
            assert(spec_key_lt(q2[0], q2[j]));
            if i > 0 {
                assert(spec_key_lt(q1[0], q1[i]));
            }
            assert(false);
        }
        let r1 = q1.drop_first();
        let r2 = q2.drop_first();
        assert forall|x: Key| r1.to_set().contains(x) implies r2.to_set().contains(x) by {
            let k = choose|k: int| 0 <= k < r1.len() && r1[k] == x;
            assert(q1.to_set().contains(x));
            let m = choose|m: int| 0 <= m < q2.len() && q2[m] == x;
            assert(spec_key_lt(q1[0], q1[k + 1]));
            lemma_key_order(x, x, x);
            if m == 0 {
                assert(false);
            }
            assert(r2[m - 1] == x);
        }
        assert forall|x: Key| r2.to_set().contains(x) implies r1.to_set().contains(x) by {
            let k = choose|k: int| 0 <= k < r2.len() && r2[k] == x;
            assert(q2.to_set().contains(x));
            let m = choose|m: int| 0 <= m < q1.len() && q1[m] == x;
            assert(spec_key_lt(q2[0], q2[k + 1]));
            lemma_key_order(x, x, x);
            if m == 0 {
                assert(false);
            }
            assert(r1[m - 1] == x);
        }
        assert(r1.to_set() =~= r2.to_set());
        lemma_sorted_unique(r1, r2);
        assert(q1 =~= q2) by {
            assert(q1 == seq![q1[0]] + r1);
            assert(q2 == seq![q2[0]] + r2);
        }
    }
}

/// The keys of a set, in increasing order.
pub open spec fn spec_sorted_of(s: Set<Key>) -> Seq<Key> {
    choose|q: Seq<Key>| spec_sorted(q) && q.to_set() == s
}

/// Whether one character sequence comes before another.
fn chars_lt(a: &Vec<char>, b: &Vec<char>) -> (r: bool)
    ensures
        r == spec_chars_lt(a@, b@),
{
    let mut i: usize = 0;
    assert(a@.subrange(0, a.len() as int) =~= a@);
    assert(b@.subrange(0, b.len() as int) =~= b@);
    while i < a.len() && i < b.len() && a[i] == b[i]
        invariant
            i <= a.len(),
            i <= b.len(),
            spec_chars_lt(a@, b@) == spec_chars_lt(a@.subrange(i as int, a.len() as int), b@.subrange(i as int, b.len() as int)),
        decreases a.len() - i,
    {
        proof {
            let x = a@.subrange(i as int, a.len() as int);
            let y = b@.subrange(i as int, b.len() as int);
            assert(x.drop_first() =~= a@.subrange(i + 1, a.len() as int));
            assert(y.drop_first() =~= b@.subrange(i + 1, b.len() as int));
        }
        i = i + 1;
    }
    if i == a.len() {
        i < b.len()
    } else if i == b.len() {
        false
    } else {
        a[i] < b[i]
    }
}

/// The view of a dependency.
pub open spec fn spec_key(k: (bool, String)) -> Key {
    (k.0, k.1@)
}

/// The views of dependencies.
pub open spec fn spec_key_seq(v: Seq<(bool, String)>) -> Seq<Key> {
    v.map_values(|k: (bool, String)| spec_key(k))
}

/// Whether one key comes before another.
fn key_lt(a: &(bool, String), b: &(bool, String)) -> (r: bool)
    ensures
        r == spec_key_lt(spec_key(*a), spec_key(*b)),
{
    if a.0 != b.0 {
        !a.0 && b.0
    } else {
        chars_lt(&string_chars(&a.1), &string_chars(&b.1))
    }
}

/// Whether two keys are equal.
fn key_eq(a: &(bool, String), b: &(bool, String)) -> (r: bool)
    ensures
        r == (spec_key(*a) == spec_key(*b)),
{
    proof {
        lemma_key_order(spec_key(*a), spec_key(*b), spec_key(*a));
    }
    !key_lt(a, b) && !key_lt(b, a)
}

/// A copy of a key.
fn copy_key(k: &(bool, String)) -> (r: (bool, String))
    ensures
        spec_key(r) == spec_key(*k),
{
    (k.0, string_from_chars(&string_chars(&k.1)))
}

/// Adds a key to keys in increasing order, unless it is there.
fn insert_key(names: &mut Vec<(bool, String)>, k: &(bool, String))
    requires
        spec_sorted(spec_key_seq(old(names)@)),
    ensures
        spec_sorted(spec_key_seq(final(names)@)),
        spec_key_seq(final(names)@).to_set() == spec_key_seq(old(names)@).to_set().insert(spec_key(*k)),
{
    let ghost q = spec_key_seq(names@);
    let mut p: usize = 0;
    while p < names.len() && key_lt(&names[p], k)
        invariant
            p <= names.len(),
            q == spec_key_seq(names@),
            forall|i: int| 0 <= i < p ==> spec_key_lt(#[trigger] q[i], spec_key(*k)),
        decreases names.len() - p,
    {
        p = p + 1;
    }
    if p < names.len() && key_eq(&names[p], k) {
        assert(q.to_set() =~= q.to_set().insert(spec_key(*k))) by {
            assert(q[p as int] == spec_key(*k));
        }
        return;
    }
    // every key from `p` on comes after `k`
    assert forall|i: int| p <= i < q.len() implies spec_key_lt(spec_key(*k), #[trigger] q[i]) by {
        lemma_key_order(q[p as int], spec_key(*k), q[p as int]);
        if i > p {
            assert(spec_key_lt(q[p as int], q[i]));
            lemma_key_order(spec_key(*k), q[p as int], q[i]);
        }
    }
    let ghost old_names = names@;
    names.insert(p, copy_key(k));
    let ghost r = spec_key_seq(names@);
    assert(r =~= q.insert(p as int, spec_key(*k)));
    assert forall|i: int, j: int| 0 <= i < j < r.len() implies spec_key_lt(#[trigger] r[i], #[trigger] r[j]) by {
        if j < p {
            assert(r[i] == q[i] && r[j] == q[j]);
        } else if j == p {
            assert(r[i] == q[i]);
        } else if i < p {
            assert(r[i] == q[i] && r[j] == q[j - 1]);
            lemma_key_order(q[i], spec_key(*k), q[j - 1]);
        } else if i == p {
            assert(r[j] == q[j - 1]);
        } else {
            assert(r[i] == q[i - 1] && r[j] == q[j - 1]);
        }
    }
    assert forall|x: Key| #[trigger] r.to_set().contains(x) <==> q.to_set().insert(spec_key(*k)).contains(x) by {
        if r.to_set().contains(x) {
            let i = choose|i: int| 0 <= i < r.len() && r[i] == x;
            if i < p {
                assert(q[i] == x);
            } else if i > p {
                assert(q[i - 1] == x);
            }
        }
        if q.to_set().contains(x) {
            let i = choose|i: int| 0 <= i < q.len() && q[i] == x;
            if i < p {
                assert(r[i] == x);
            } else {
                assert(r[i + 1] == x);
            }
        }
        if x == spec_key(*k) {
            assert(r[p as int] == x);
        }
    }
    assert(r.to_set() =~= q.to_set().insert(spec_key(*k)));
}

/// The key and the dependencies of a global; an assembly global has none.
pub open spec fn spec_global_entry(g: TypedGlobal) -> Option<(Key, Set<Key>)> {
    match g {
        TypedGlobal::Data(l, values) => Some(((true, l@), spec_arguments_deps(values@))),
        TypedGlobal::Macro(l, body, _) => Some(((false, l@), spec_statement_deps(body))),
        TypedGlobal::Function(l, body, _) => Some(((true, l@), spec_statement_deps(body))),
        TypedGlobal::Assembly(_) => None,
    }
}

/// Entries collected into a map; a later entry for a key replaces an earlier one.
pub open spec fn spec_fold(es: Seq<(Key, Set<Key>)>) -> Map<Key, Set<Key>>
    decreases es.len(),
{
    if es.len() == 0 {
        Map::empty()
    } else {
        spec_fold(es.drop_last()).insert(es.last().0, es.last().1)
    }
}

/// The entries of globals, in order.
pub open spec fn spec_entries(gs: Seq<TypedGlobal>) -> Seq<(Key, Set<Key>)>
    decreases gs.len(),
{
    if gs.len() == 0 {
        Seq::empty()
    } else {
        match spec_global_entry(gs.last()) {
            Some(e) => spec_entries(gs.drop_last()).push(e),
            None => spec_entries(gs.drop_last()),
        }
    }
}

/// The dependency graph of a program: each global to the globals it depends on directly; of
/// two globals with one key, the later counts.
pub open spec fn spec_dependency_graph(program: TypedProgram) -> Map<Key, Set<Key>> {
    spec_fold(spec_entries(program.0@))
}

/// The globals of a graph and all they depend on.
pub open spec fn spec_all_keys(g: Map<Key, Set<Key>>) -> Set<Key> {
    Set::new(|k: Key| g.contains_key(k) || exists|a: Key| #[trigger] g.contains_key(a) && g[a].contains(k))
}

/// A token or a separator, taken by its view.
pub open spec fn spec_output_view(x: Result<Token, String>) -> Result<TokenView, Seq<char>> {
    match x {
        Ok(t) => Ok(t@),
        Err(s) => Err(s@),
    }
}

/// References to the definition of every labeled global among the first `j` names that `k`
/// reaches, in order.
pub open spec fn spec_definition_refs(g: Map<Key, Set<Key>>, names: Seq<Key>, k: Key, j: nat) -> Seq<Result<TokenView, Seq<char>>>
    decreases j,
{
    if j == 0 {
        Seq::empty()
    } else {
        let prev = spec_definition_refs(g, names, k, (j - 1) as nat);
        let n = names[j - 1];
        if n.0 && spec_closure_of(g, k).contains(n) {
            prev.push(Ok(TokenView::MacroRef(n.1 + ".def"@)))
        } else {
            prev
        }
    }
}

/// For each global among the first `i` names, in order: the start of its dependency macro,
/// the references of its definitions, and a separator.
pub open spec fn spec_link_blocks(g: Map<Key, Set<Key>>, names: Seq<Key>, i: nat) -> Seq<Result<TokenView, Seq<char>>>
    decreases i,
{
    if i == 0 {
        Seq::empty()
    } else {
        let prev = spec_link_blocks(g, names, (i - 1) as nat);
        let k = names[i - 1];
        if g.contains_key(k) {
            prev + seq![Ok(TokenView::MacroDef(k.1 + ".deps"@))] + spec_definition_refs(g, names, k, names.len())
                + seq![Err(Seq::<char>::empty())]
        } else {
            prev
        }
    }
}

/// The output of linking: for every global, in order of key, a macro that references the
/// definition of every labeled global it depends on, directly or not, itself included.
pub open spec fn spec_link(program: TypedProgram) -> Seq<Result<TokenView, Seq<char>>> {
    let g = spec_dependency_graph(program);
    let names = spec_sorted_of(spec_all_keys(g));
    spec_link_blocks(g, names, names.len())
}

/// A map of entries has exactly the keys of its entries.
proof fn lemma_fold_has(es: Seq<(Key, Set<Key>)>, k: Key)
    ensures
        spec_fold(es).contains_key(k) <==> exists|j: int| 0 <= j < es.len() && #[trigger] es[j].0 == k,
    decreases es.len(),
{
    if es.len() > 0 {
        let prev = es.drop_last();
        lemma_fold_has(prev, k);
        if spec_fold(es).contains_key(k) && es.last().0 != k {
            let j = choose|j: int| 0 <= j < prev.len() && #[trigger] prev[j].0 == k;
            assert(es[j].0 == k);
        }
        if es.last().0 != k && exists|j: int| 0 <= j < es.len() && #[trigger] es[j].0 == k {
            let j = choose|j: int| 0 <= j < es.len() && #[trigger] es[j].0 == k;
            assert(prev[j].0 == k);
        }
    }
}

/// A map of entries holds, at a key, the last entry for it.
proof fn lemma_fold_last(es: Seq<(Key, Set<Key>)>, j: int)
    requires
        0 <= j < es.len(),
        forall|m: int| j < m < es.len() ==> #[trigger] es[m].0 != es[j].0,
    ensures
        spec_fold(es).contains_key(es[j].0),
        spec_fold(es)[es[j].0] == es[j].1,
    decreases es.len(),
{
    let prev = es.drop_last();
    if j < es.len() - 1 {
        assert(es[es.len() - 1].0 != es[j].0);
        assert forall|m: int| j < m < prev.len() implies #[trigger] prev[m].0 != prev[j].0 by {
            assert(prev[m] == es[m]);
        }
        lemma_fold_last(prev, j);
    }
}

/// A graph on names, with each name replaced by its index.
pub open spec fn spec_interned(g: Map<Key, Set<Key>>, names: Seq<Key>) -> Map<u64, Set<u64>> {
    Map::new(
        |i: u64| i < names.len() && g.contains_key(names[i as int]),
        |i: u64| Set::new(|j: u64| j < names.len() && g[names[i as int]].contains(names[j as int])),
    )
}

/// Keys in increasing order are distinct.
proof fn lemma_sorted_distinct(names: Seq<Key>, a: int, b: int)
    requires
        spec_sorted(names),
        0 <= a < names.len(),
        0 <= b < names.len(),
        names[a] == names[b],
    ensures
        a == b,
{
    lemma_key_order(names[a], names[a], names[a]);
    if a < b {
        assert(spec_key_lt(names[a], names[b]));
    } else if b < a {
        assert(spec_key_lt(names[b], names[a]));
    }
}

/// Reaching between indices is reaching between their names.
proof fn lemma_interned_reaches(g: Map<Key, Set<Key>>, names: Seq<Key>, i: u64, j: u64)
    requires
        spec_sorted(names),
        spec_all_keys(g).subset_of(names.to_set()),
        names.len() <= u64::MAX,
        i < names.len(),
        j < names.len(),
    ensures
        spec_reaches(spec_interned(g, names), i, j) <==> spec_reaches(g, names[i as int], names[j as int]),
{
    let gi = spec_interned(g, names);
    if spec_reaches(gi, i, j) {
        let w = choose|w: Seq<u64>| #[trigger] spec_walk(gi, w) && w[0] == i && w.last() == j;
        assert forall|t: int| 0 <= t < w.len() implies w[t] < names.len() by {
            if t > 0 {
                assert(spec_edge(gi, w[t - 1], w[(t - 1) + 1]));
            }
        }
        let ww = Seq::new(w.len(), |t: int| names[w[t] as int]);
        assert forall|t: int| 0 <= t < ww.len() - 1 implies #[trigger] spec_edge(g, ww[t], ww[t + 1]) by {
            assert(spec_edge(gi, w[t], w[t + 1]));
        }
        assert(spec_walk(g, ww));
        assert(ww[0] == names[i as int] && ww.last() == names[j as int]);
    }
    if spec_reaches(g, names[i as int], names[j as int]) {
        let ww = choose|ww: Seq<Key>| #[trigger] spec_walk(g, ww) && ww[0] == names[i as int] && ww.last() == names[j as int];
        assert forall|t: int| 0 <= t < ww.len() implies names.to_set().contains(ww[t]) by {
            if t == 0 {
                assert(names[i as int] == ww[0]);
            } else {
                assert(spec_edge(g, ww[t - 1], ww[(t - 1) + 1]));
                assert(spec_all_keys(g).contains(ww[t]));
            }
        }
        let idx = |x: Key| choose|m: int| 0 <= m < names.len() && names[m] == x;
        let w = Seq::new(ww.len(), |t: int| idx(ww[t]) as u64);
        assert forall|t: int| 0 <= t < w.len() implies w[t] < names.len() && names[w[t] as int] == ww[t] by {
            assert(names.to_set().contains(ww[t]));
            let m = idx(ww[t]);
            assert(0 <= m < names.len() && names[m] == ww[t]);
            assert(w[t] == m as u64);
            assert(m as u64 as int == m);
        }
        assert forall|t: int| 0 <= t < w.len() - 1 implies #[trigger] spec_edge(gi, w[t], w[t + 1]) by {
            assert(spec_edge(g, ww[t], ww[t + 1]));
            assert(names[w[t] as int] == ww[t]);
            assert(names[w[t + 1] as int] == ww[t + 1]);
        }
        assert(spec_walk(gi, w));
        lemma_sorted_distinct(names, w[0] as int, i as int);
        lemma_sorted_distinct(names, w.last() as int, j as int);
    }
}

/// The views of entries as they are computed.
pub open spec fn spec_entry_views(es: Seq<((bool, String), Vec<(bool, String)>)>) -> Seq<(Key, Set<Key>)> {
    es.map_values(|e: ((bool, String), Vec<(bool, String)>)| (spec_key(e.0), spec_keys(e.1@)))
}

/// No dependencies.
proof fn lemma_keys_empty()
    ensures
        spec_keys(Seq::<(bool, String)>::empty()) == Set::<Key>::empty(),
{
    assert(spec_keys(Seq::<(bool, String)>::empty()) =~= Set::<Key>::empty());
}

/// The entry of a global, as it is computed.
fn global_entry(g: &TypedGlobal) -> (r: Option<((bool, String), Vec<(bool, String)>)>)
    ensures
        r is Some <==> spec_global_entry(*g) is Some,
        r matches Some(e) ==> spec_global_entry(*g) == Some((spec_key(e.0), spec_keys(e.1@))),
{
    let mut deps: Vec<(bool, String)> = Vec::new();
    proof {
        lemma_keys_empty();
    }
    match g {
        TypedGlobal::Data(l, values) => {
            let mut i: usize = 0;
            while i < values.len()
                invariant
                    i <= values.len(),
                    spec_keys(deps@) == spec_arguments_deps(values@.subrange(0, i as int)),
                decreases values.len() - i,
            {
                proof {
                    let t = values@.subrange(0, i + 1 as int);
                    assert(t.subrange(0, t.len() - 1) == values@.subrange(0, i as int));
                    assert(t.last() == values@[i as int]);
                }
                collect_expression(&values[i], &mut deps);
                i = i + 1;
            }
            assert(values@.subrange(0, values.len() as int) == values@);
            Some(((true, string_from_chars(&string_chars(l))), deps))
        },
        TypedGlobal::Macro(l, body, _) => {
            collect_statement(body, &mut deps);
            assert(spec_keys(deps@) =~= spec_statement_deps(*body));
            Some(((false, string_from_chars(&string_chars(l))), deps))
        },
        TypedGlobal::Function(l, body, _) => {
            collect_statement(body, &mut deps);
            assert(spec_keys(deps@) =~= spec_statement_deps(*body));
            Some(((true, string_from_chars(&string_chars(l))), deps))
        },
        TypedGlobal::Assembly(_) => None,
    }
}

/// The entries of the globals, in order.
fn program_entries(program: &TypedProgram) -> (r: Vec<((bool, String), Vec<(bool, String)>)>)
    ensures
        spec_entry_views(r@) == spec_entries(program.0@),
{
    let gs = &program.0;
    let mut es: Vec<((bool, String), Vec<(bool, String)>)> = Vec::new();
    let mut i: usize = 0;
    assert(spec_entry_views(es@) =~= spec_entries(gs@.subrange(0, 0)));
    while i < gs.len()
        invariant
            i <= gs.len(),
            spec_entry_views(es@) == spec_entries(gs@.subrange(0, i as int)),
        decreases gs.len() - i,
    {
        let ghost before = es@;
        proof {
            let t = gs@.subrange(0, i + 1 as int);
            assert(t.drop_last() == gs@.subrange(0, i as int));
            assert(t.last() == gs@[i as int]);
        }
        match global_entry(&gs[i]) {
            Some(e) => {
                es.push(e);
                assert(spec_entry_views(es@) =~= spec_entry_views(before).push((spec_key(e.0), spec_keys(e.1@))));
            },
            None => {},
        }
        i = i + 1;
    }
    assert(gs@.subrange(0, gs.len() as int) == gs@);
    es
}

/// Whether entry `j` is the last for its key.
pub open spec fn spec_last(es: Seq<(Key, Set<Key>)>, j: int) -> bool {
    forall|m: int| j < m < es.len() ==> #[trigger] es[m].0 != es[j].0
}

/// The keys of the first `m` entries, and the dependencies of those among them that are the
/// last for their key.
pub open spec fn spec_names_upto(es: Seq<(Key, Set<Key>)>, m: int) -> Set<Key> {
    Set::new(|k: Key| (exists|j: int| 0 <= j < m && #[trigger] es[j].0 == k)
        || (exists|j: int| 0 <= j < m && spec_last(es, j) && #[trigger] es[j].1.contains(k)))
}

/// Every entry has a last entry for its key at or after it.
proof fn lemma_last_exists(es: Seq<(Key, Set<Key>)>, j: int)
    requires
        0 <= j < es.len(),
    ensures
        exists|l: int| j <= l < es.len() && es[l].0 == es[j].0 && spec_last(es, l),
    decreases es.len() - j,
{
    if !spec_last(es, j) {
        let m = choose|m: int| j < m < es.len() && #[trigger] es[m].0 == es[j].0;
        lemma_last_exists(es, m);
        let l = choose|l: int| m <= l < es.len() && es[l].0 == es[m].0 && spec_last(es, l);
        assert(j <= l < es.len() && es[l].0 == es[j].0 && spec_last(es, l));
    } else {
        assert(j <= j < es.len() && es[j].0 == es[j].0 && spec_last(es, j));
    }
}

/// The names of all entries are the globals and dependencies of their map.
proof fn lemma_names_all(es: Seq<(Key, Set<Key>)>)
    ensures
        spec_names_upto(es, es.len() as int) == spec_all_keys(spec_fold(es)),
{
    let g = spec_fold(es);
    assert forall|k: Key| spec_names_upto(es, es.len() as int).contains(k) <==> #[trigger] spec_all_keys(g).contains(k) by {
        lemma_fold_has(es, k);
        if exists|j: int| 0 <= j < es.len() && spec_last(es, j) && #[trigger] es[j].1.contains(k) {
            let j = choose|j: int| 0 <= j < es.len() && spec_last(es, j) && #[trigger] es[j].1.contains(k);
            lemma_fold_last(es, j);
            assert(g.contains_key(es[j].0) && g[es[j].0].contains(k));
        }
        if exists|a: Key| #[trigger] g.contains_key(a) && g[a].contains(k) {
            let a = choose|a: Key| #[trigger] g.contains_key(a) && g[a].contains(k);
            lemma_fold_has(es, a);
            let j = choose|j: int| 0 <= j < es.len() && #[trigger] es[j].0 == a;
            lemma_last_exists(es, j);
            let l = choose|l: int| j <= l < es.len() && es[l].0 == es[j].0 && spec_last(es, l);
            lemma_fold_last(es, l);
            assert(es[l].1.contains(k));
        }
    }
    assert(spec_names_upto(es, es.len() as int) =~= spec_all_keys(g));
}

/// Whether entry `m` is the last for its key.
fn is_last(es: &Vec<((bool, String), Vec<(bool, String)>)>, m: usize) -> (r: bool)
    requires
        m < es.len(),
    ensures
        r == spec_last(spec_entry_views(es@), m as int),
{
    let ghost v = spec_entry_views(es@);
    let mut k: usize = m + 1;
    while k < es.len()
        invariant
            m < k <= es.len(),
            v == spec_entry_views(es@),
            forall|x: int| m < x < k ==> #[trigger] v[x].0 != v[m as int].0,
        decreases es.len() - k,
    {
        if key_eq(&es[k].0, &es[m].0) {
            assert(v[k as int].0 == v[m as int].0);
            return false;
        }
        k = k + 1;
    }
    true
}

/// The names of all entries, in increasing order.
fn entry_names(es: &Vec<((bool, String), Vec<(bool, String)>)>) -> (names: Vec<(bool, String)>)
    ensures
        spec_sorted(spec_key_seq(names@)),
        spec_key_seq(names@).to_set() == spec_all_keys(spec_fold(spec_entry_views(es@))),
{
    let ghost v = spec_entry_views(es@);
    let mut names: Vec<(bool, String)> = Vec::new();
    let mut m: usize = 0;
    assert(spec_key_seq(names@).to_set() =~= spec_names_upto(v, 0));
    while m < es.len()
        invariant
            m <= es.len(),
            v == spec_entry_views(es@),
            spec_sorted(spec_key_seq(names@)),
            spec_key_seq(names@).to_set() == spec_names_upto(v, m as int),
        decreases es.len() - m,
    {
        let ghost s0 = spec_key_seq(names@).to_set();
        insert_key(&mut names, &es[m].0);
        let last = is_last(es, m);
        if last {
            let deps = &es[m].1;
            let mut t: usize = 0;
            while t < deps.len()
                invariant
                    t <= deps.len(),
                    spec_sorted(spec_key_seq(names@)),
                    spec_key_seq(names@).to_set() == s0.insert(v[m as int].0).union(spec_keys(deps@.subrange(0, t as int))),
                decreases deps.len() - t,
            {
                insert_key(&mut names, &deps[t]);
                proof {
                    lemma_keys_push(deps@.subrange(0, t as int), deps@[t as int]);
                    assert(deps@.subrange(0, t + 1 as int) == deps@.subrange(0, t as int).push(deps@[t as int]));
                    assert(spec_key_seq(names@).to_set() =~= s0.insert(v[m as int].0).union(spec_keys(deps@.subrange(0, t + 1 as int))));
                }
                t = t + 1;
            }
            assert(deps@.subrange(0, deps.len() as int) == deps@);
            assert(v[m as int].1 == spec_keys(deps@));
        }
        proof {
            let n1 = spec_names_upto(v, m + 1);
            let cur = spec_key_seq(names@).to_set();
            assert forall|k: Key| #[trigger] cur.contains(k) <==> n1.contains(k) by {
                if spec_names_upto(v, m as int).contains(k) {
                    if exists|j: int| 0 <= j < m && #[trigger] v[j].0 == k {
                        let j = choose|j: int| 0 <= j < m && #[trigger] v[j].0 == k;
                        assert(0 <= j < m + 1 && v[j].0 == k);
                    } else {
                        let j = choose|j: int| 0 <= j < m && spec_last(v, j) && #[trigger] v[j].1.contains(k);
                        assert(0 <= j < m + 1 && spec_last(v, j) && v[j].1.contains(k));
                    }
                }
                if n1.contains(k) && !spec_names_upto(v, m as int).contains(k) {
                    if exists|j: int| 0 <= j < m + 1 && #[trigger] v[j].0 == k {
                        let j = choose|j: int| 0 <= j < m + 1 && #[trigger] v[j].0 == k;
                        if j < m {
                            assert(false);
                        }
                    } else {
                        let j = choose|j: int| 0 <= j < m + 1 && spec_last(v, j) && #[trigger] v[j].1.contains(k);
                        if j < m {
                            assert(false);
                        }
                    }
                }
                if k == v[m as int].0 {
                    assert(0 <= m < m + 1 && v[m as int].0 == k);
                }
                if last && v[m as int].1.contains(k) {
                    assert(0 <= m < m + 1 && spec_last(v, m as int) && v[m as int].1.contains(k));
                }
            }
            assert(cur =~= n1);
        }
        m = m + 1;
    }
    proof {
        lemma_names_all(v);
    }
    names
}

/// The position of a key among names, if it is one of them.
fn find_key(names: &Vec<(bool, String)>, k: &(bool, String)) -> (r: Option<usize>)
    ensures
        r is Some <==> spec_key_seq(names@).to_set().contains(spec_key(*k)),
        r matches Some(p) ==> p < names@.len() && spec_key_seq(names@)[p as int] == spec_key(*k),
{
    let ghost q = spec_key_seq(names@);
    let mut p: usize = 0;
    while p < names.len()
        invariant
            p <= names.len(),
            q == spec_key_seq(names@),
            forall|i: int| 0 <= i < p ==> #[trigger] q[i] != spec_key(*k),
        decreases names.len() - p,
    {
        if key_eq(&names[p], k) {
            assert(q.to_set().contains(q[p as int]));
            return Some(p);
        }
        p = p + 1;
    }
    assert(!q.to_set().contains(spec_key(*k))) by {
        if q.to_set().contains(spec_key(*k)) {
            let i = choose|i: int| 0 <= i < q.len() && q[i] == spec_key(*k);
            assert(q[i] != spec_key(*k));
        }
    }
    None
}

/// The indices of the names that a set holds.
pub open spec fn spec_indices(d: Set<Key>, names: Seq<Key>) -> Set<u64> {
    Set::new(|j: u64| j < names.len() && d.contains(names[j as int]))
}

/// Adding an entry to a graph adds the indices of its dependencies at the index of its key.
proof fn lemma_interned_insert(g: Map<Key, Set<Key>>, names: Seq<Key>, k: Key, d: Set<Key>, p: int)
    requires
        spec_sorted(names),
        names.len() <= u64::MAX,
        0 <= p < names.len(),
        names[p] == k,
    ensures
        spec_interned(g.insert(k, d), names) == spec_interned(g, names).insert(p as u64, spec_indices(d, names)),
{
    let a = spec_interned(g.insert(k, d), names);
    let b = spec_interned(g, names).insert(p as u64, spec_indices(d, names));
    assert forall|i: u64| #[trigger] a.contains_key(i) <==> b.contains_key(i) by {
        if i < names.len() && names[i as int] == k {
            lemma_sorted_distinct(names, i as int, p);
        }
    }
    assert forall|i: u64| #[trigger] a.contains_key(i) implies a[i] == b[i] by {
        if i == p as u64 {
            assert(a[i] =~= b[i]);
        } else {
            if names[i as int] == k {
                lemma_sorted_distinct(names, i as int, p);
            }
            assert(a[i] =~= b[i]);
        }
    }
    assert(a =~= b);
}

/// The dependency graph of entries, with each name replaced by its index among `names`.
fn interned_graph(es: &Vec<((bool, String), Vec<(bool, String)>)>, names: &Vec<(bool, String)>) -> (graph: BTreeMap<u64, BTreeSet<u64>>)
    requires
        spec_sorted(spec_key_seq(names@)),
        forall|j: int| 0 <= j < es@.len() ==> spec_key_seq(names@).to_set().contains(#[trigger] spec_entry_views(es@)[j].0),
    ensures
        spec_graph(graph@) == spec_interned(spec_fold(spec_entry_views(es@)), spec_key_seq(names@)),
{
    let ghost v = spec_entry_views(es@);
    let ghost n = spec_key_seq(names@);
    let mut graph: BTreeMap<u64, BTreeSet<u64>> = BTreeMap::new();
    assert(spec_graph(graph@) =~= spec_interned(spec_fold(v.subrange(0, 0)), n));
    let mut m: usize = 0;
    while m < es.len()
        invariant
            m <= es.len(),
            v == spec_entry_views(es@),
            n == spec_key_seq(names@),
            n.len() == names.len(),
            spec_sorted(n),
            forall|j: int| 0 <= j < es@.len() ==> n.to_set().contains(#[trigger] v[j].0),
            spec_graph(graph@) == spec_interned(spec_fold(v.subrange(0, m as int)), n),
        decreases es.len() - m,
    {
        let deps = &es[m].1;
        let mut set: BTreeSet<u64> = BTreeSet::new();
        let mut t: usize = 0;
        assert(spec_keys(deps@.subrange(0, 0)) =~= Set::<Key>::empty());
        assert(set@ =~= spec_indices(spec_keys(deps@.subrange(0, 0)), n));
        while t < deps.len()
            invariant
                t <= deps.len(),
                n == spec_key_seq(names@),
                spec_sorted(n),
                set@ == spec_indices(spec_keys(deps@.subrange(0, t as int)), n),
            decreases deps.len() - t,
        {
            proof {
                lemma_keys_push(deps@.subrange(0, t as int), deps@[t as int]);
                assert(deps@.subrange(0, t + 1 as int) == deps@.subrange(0, t as int).push(deps@[t as int]));
            }
            let ghost before = set@;
            let ghost kt = spec_key(deps@[t as int]);
            match find_key(names, &deps[t]) {
                Some(q) => {
                    set.insert(q as u64);
                    assert forall|j: u64| #[trigger] set@.contains(j) <==> spec_indices(spec_keys(deps@.subrange(0, t + 1 as int)), n).contains(j) by {
                        if j < n.len() && n[j as int] == kt {
                            lemma_sorted_distinct(n, j as int, q as int);
                        }
                    }
                    assert(set@ =~= spec_indices(spec_keys(deps@.subrange(0, t + 1 as int)), n));
                },
                None => {
                    assert forall|j: u64| #[trigger] set@.contains(j) <==> spec_indices(spec_keys(deps@.subrange(0, t + 1 as int)), n).contains(j) by {
                        if j < n.len() && n[j as int] == kt {
                            assert(n.to_set().contains(n[j as int]));
                        }
                    }
                    assert(set@ =~= spec_indices(spec_keys(deps@.subrange(0, t + 1 as int)), n));
                },
            }
            t = t + 1;
        }
        assert(deps@.subrange(0, deps.len() as int) == deps@);
        assert(v[m as int] == (spec_key(es@[m as int].0), spec_keys(deps@)));
        match find_key(names, &es[m].0) {
            Some(p) => {
                proof {
                    let sub = v.subrange(0, m + 1 as int);
                    assert(sub.drop_last() == v.subrange(0, m as int));
                    assert(sub.last() == v[m as int]);
                    lemma_interned_insert(spec_fold(v.subrange(0, m as int)), n, v[m as int].0, v[m as int].1, p as int);
                }
                graph.insert(p as u64, set);
                assert(spec_graph(graph@) =~= spec_interned(spec_fold(v.subrange(0, m + 1 as int)), n));
            },
            None => {
                assert(n.to_set().contains(v[m as int].0));
                assert(false);
            },
        }
        m = m + 1;
    }
    assert(v.subrange(0, es.len() as int) == v);
    graph
}

/// A name followed by a suffix.
fn suffixed(name: &String, suffix: &str) -> (r: String)
    ensures
        r@ == name@ + suffix@,
{
    let mut chars = string_chars(name);
    let mut tail = chars_of(suffix);
    chars.append(&mut tail);
    string_from_chars(&chars)
}

/// The output views of tokens and separators.
pub open spec fn spec_output_views(r: Seq<Result<Token, String>>) -> Seq<Result<TokenView, Seq<char>>> {
    r.map_values(|x: Result<Token, String>| spec_output_view(x))
}

/// Links a typed program: for every global, in order of key (macros first, then data and
/// functions, each by name), the start of a dependency macro, named after the global with
/// `.deps` appended, then a reference to the definition macro (the name with `.def` appended)
/// of every labeled global it depends on, directly or through others, itself included, in the
/// same order, and a separator. Of two globals with one key, the later counts.
pub fn link(program: &TypedProgram, _errors: &mut Vec<(Pos, Error)>) -> (r: Vec<Result<Token, String>>)
    ensures
        spec_output_views(r@) == spec_link(*program),
        final(_errors)@ == old(_errors)@,
{
    let es = program_entries(program);
    let names = entry_names(&es);
    let ghost v = spec_entry_views(es@);
    let ghost g = spec_fold(v);
    let ghost n = spec_key_seq(names@);
    assert forall|j: int| 0 <= j < es@.len() implies n.to_set().contains(#[trigger] v[j].0) by {
        lemma_fold_has(v, v[j].0);
        assert(spec_all_keys(g).contains(v[j].0));
    }
    let mut graph = interned_graph(&es, &names);
    let ghost gi = spec_graph(graph@);
    reflexive_transitive_closure(&mut graph);
    proof {
        assert(g == spec_dependency_graph(*program));
        assert(spec_sorted(n) && n.to_set() == spec_all_keys(g));
        lemma_sorted_unique(n, spec_sorted_of(spec_all_keys(g)));
    }
    let mut out: Vec<Result<Token, String>> = Vec::new();
    let mut i: usize = 0;
    assert(spec_output_views(out@) =~= spec_link_blocks(g, n, 0));
    while i < names.len()
        invariant
            i <= names.len(),
            n == spec_key_seq(names@),
            n.len() == names.len(),
            spec_sorted(n),
            n.to_set() == spec_all_keys(g),
            gi == spec_interned(g, n),
            graph@.dom() == gi.dom(),
            forall|a: u64| #[trigger] gi.contains_key(a) ==> graph@[a]@ == spec_closure_of(gi, a),
            spec_output_views(out@) == spec_link_blocks(g, n, i as nat),
        decreases names.len() - i,
    {
        let key: u64 = i as u64;
        match graph.get(&key) {
            Some(reached) => {
                let ghost before = spec_output_views(out@);
                out.push(Ok(Token::MacroDef(Macro(suffixed(&names[i].1, ".deps")))));
                let mut j: usize = 0;
                assert(spec_output_views(out@) =~= before + seq![Ok(TokenView::MacroDef(n[i as int].1 + ".deps"@))]
                    + spec_definition_refs(g, n, n[i as int], 0));
                while j < names.len()
                    invariant
                        j <= names.len(),
                        i < names.len(),
                        n == spec_key_seq(names@),
                        n.len() == names.len(),
                        spec_sorted(n),
                        n.to_set() == spec_all_keys(g),
                        gi == spec_interned(g, n),
                        gi.contains_key(key),
                        key == i,
                        reached@ == spec_closure_of(gi, key),
                        spec_output_views(out@) == before + seq![Ok(TokenView::MacroDef(n[i as int].1 + ".deps"@))]
                            + spec_definition_refs(g, n, n[i as int], j as nat),
                    decreases names.len() - j,
                {
                    proof {
                        lemma_interned_reaches(g, n, key, j as u64);
                    }
                    let ghost mid = spec_output_views(out@);
                    if names[j].0 && reached.contains(&(j as u64)) {
                        out.push(Ok(Token::MacroRef(Macro(suffixed(&names[j].1, ".def")))));
                        assert(spec_output_views(out@) =~= mid.push(Ok(TokenView::MacroRef(n[j as int].1 + ".def"@))));
                    }
                    j = j + 1;
                }
                let ghost mid = spec_output_views(out@);
                out.push(Err(String::new()));
                assert(spec_output_views(out@) =~= mid.push(Err(Seq::<char>::empty())));
                assert(g.contains_key(n[i as int]));
            },
            None => {
                assert(!g.contains_key(n[i as int]));
            },
        }
        assert(spec_output_views(out@) =~= spec_link_blocks(g, n, (i + 1) as nat));
        i = i + 1;
    }
    out
}

/// What linking references for a global is closed: a global depends on itself, on every global
/// it names, and on whatever those depend on.
pub proof fn law_link_dependencies_closed(program: TypedProgram, a: Key, b: Key, c: Key)
    ensures
        spec_closure_of(spec_dependency_graph(program), a).contains(a),
        spec_dependency_graph(program).contains_key(a) && spec_dependency_graph(program)[a].contains(b)
            ==> spec_closure_of(spec_dependency_graph(program), a).contains(b),
        spec_closure_of(spec_dependency_graph(program), a).contains(b) && spec_closure_of(spec_dependency_graph(program), b).contains(c)
            ==> spec_closure_of(spec_dependency_graph(program), a).contains(c),
{
    let g = spec_dependency_graph(program);
    law_closure_reflexive_transitive(g, a, b, c);
    if g.contains_key(a) && g[a].contains(b) {
        law_closure_keeps_successors(g, a, b);
    }
}

} // verus!
