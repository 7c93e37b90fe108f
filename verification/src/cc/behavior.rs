//! The runtime behaviors that control flow may show, and the behaviors of typed expressions.
//! A set of behaviors is held as a vector in which order and repetition do not matter; `None`
//! stands for undefined behavior.

use vstd::prelude::*;
use crate::cc::ast::TypedExpression;

verus! {

/// A way that control flow may leave a piece of code.
#[derive(Clone, Debug, PartialEq, Eq)]
pub enum Behavior {
    /// Control flow breaks out of the loop with this label.
    Breaks(String),
    /// Control flow continues with the next iteration of the loop with this label.
    Continues(String),
    /// Control flow returns from the function.
    Returns,
    /// Control flow hangs.
    Hangs,
    /// Control flow completes normally.
    Completes,
}

/// A behavior with its label taken as characters.
pub enum BehaviorView {
    Breaks(Seq<char>),
    Continues(Seq<char>),
    Returns,
    Hangs,
    Completes,
}

impl View for Behavior {
    type V = BehaviorView;

    open spec fn view(&self) -> BehaviorView {
        match self {
            Behavior::Breaks(l) => BehaviorView::Breaks(l@),
            Behavior::Continues(l) => BehaviorView::Continues(l@),
            Behavior::Returns => BehaviorView::Returns,
            Behavior::Hangs => BehaviorView::Hangs,
            Behavior::Completes => BehaviorView::Completes,
        }
    }
}

/// The set of behaviors that a vector holds.
pub open spec fn spec_set(v: Seq<Behavior>) -> Set<BehaviorView> {
    Set::new(|b: BehaviorView| exists|i: int| 0 <= i < v.len() && v[i]@ == b)
}

/// The behaviors that an optional vector holds; `None` is undefined behavior.
pub open spec fn spec_behaviors(o: Option<Vec<Behavior>>) -> Option<Set<BehaviorView>> {
    match o {
        Some(v) => Some(spec_set(v@)),
        None => None,
    }
}

/// Either of two code paths may be taken.
pub open spec fn spec_alternation(
    a: Option<Set<BehaviorView>>,
    b: Option<Set<BehaviorView>>,
) -> Option<Set<BehaviorView>> {
    match (a, b) {
        (Some(a), Some(b)) => Some(a.union(b)),
        (Some(a), None) => Some(a),
        (None, Some(b)) => Some(b),
        (None, None) => None,
    }
}

/// Both code paths are taken, in no particular order.
pub open spec fn spec_unsequenced(
    a: Option<Set<BehaviorView>>,
    b: Option<Set<BehaviorView>>,
) -> Option<Set<BehaviorView>> {
    match (a, b) {
        (Some(a), Some(b)) => Some(a.union(b)),
        _ => None,
    }
}

/// Both code paths are taken, one after the other: the second only where the first completes.
pub open spec fn spec_sequenced(
    a: Option<Set<BehaviorView>>,
    b: Option<Set<BehaviorView>>,
) -> Option<Set<BehaviorView>> {
    match (a, b) {
        (Some(a), Some(b)) => if a.contains(BehaviorView::Completes) {
            Some(a.remove(BehaviorView::Completes).union(b))
        } else {
            Some(a)
        },
        _ => None,
    }
}

fn behavior_eq(a: &Behavior, b: &Behavior) -> (r: bool)
    ensures
        r == (a@ == b@),
{
    match (a, b) {
        (Behavior::Breaks(x), Behavior::Breaks(y)) => *x == *y,
        (Behavior::Continues(x), Behavior::Continues(y)) => *x == *y,
        (Behavior::Returns, Behavior::Returns) => true,
        (Behavior::Hangs, Behavior::Hangs) => true,
        (Behavior::Completes, Behavior::Completes) => true,
        _ => false,
    }
}

fn copy_behavior(b: &Behavior) -> (r: Behavior)
    ensures
        r@ == b@,
{
    match b {
        Behavior::Breaks(l) => Behavior::Breaks(l.clone()),
        Behavior::Continues(l) => Behavior::Continues(l.clone()),
        Behavior::Returns => Behavior::Returns,
        Behavior::Hangs => Behavior::Hangs,
        Behavior::Completes => Behavior::Completes,
    }
}

fn contains(v: &Vec<Behavior>, b: &Behavior) -> (r: bool)
    ensures
        r == spec_set(v@).contains(b@),
{
    let mut i: usize = 0;
    while i < v.len()
        invariant
            i <= v.len(),
            forall|j: int| 0 <= j < i ==> v@[j]@ != b@,
        decreases v.len() - i,
    {
        if behavior_eq(&v[i], b) {
            return true;
        }
        i = i + 1;
    }
    false
}

fn union_of(a: Vec<Behavior>, b: Vec<Behavior>) -> (r: Vec<Behavior>)
    ensures
        spec_set(r@) == spec_set(a@).union(spec_set(b@)),
{
    let mut a = a;
    let mut b = b;
    let ghost a0 = a@;
    let ghost b0 = b@;
    a.append(&mut b);
    assert(spec_set(a@) =~= spec_set(a0).union(spec_set(b0))) by {
        assert forall|x: BehaviorView| spec_set(a0).union(spec_set(b0)).contains(x) implies spec_set(a@).contains(x) by {
            if spec_set(a0).contains(x) {
                let i = choose|i: int| 0 <= i < a0.len() && a0[i]@ == x;
                assert(a@[i] == a0[i]);
            } else {
                let i = choose|i: int| 0 <= i < b0.len() && b0[i]@ == x;
                assert(a@[a0.len() + i] == b0[i]);
            }
        }
    }
    a
}

fn without(a: Vec<Behavior>, b: &Vec<Behavior>) -> (r: Vec<Behavior>)
    ensures
        spec_set(r@) == spec_set(a@).difference(spec_set(b@)),
{
    let mut r: Vec<Behavior> = Vec::new();
    let mut i: usize = 0;
    while i < a.len()
        invariant
            i <= a.len(),
            spec_set(r@) == spec_set(a@.subrange(0, i as int)).difference(spec_set(b@)),
        decreases a.len() - i,
    {
        let ghost before = r@;
        if !contains(b, &a[i]) {
            r.push(copy_behavior(&a[i]));
        }
        proof {
            let s = a@.subrange(0, i + 1 as int);
            assert(s == a@.subrange(0, i as int).push(a@[i as int]));
            assert(spec_set(r@) =~= spec_set(s).difference(spec_set(b@))) by {
                assert forall|x: BehaviorView| spec_set(s).difference(spec_set(b@)).contains(x) implies spec_set(r@).contains(x) by {
                    let k = choose|k: int| 0 <= k < s.len() && s[k]@ == x;
                    if k < i {
                        assert(a@.subrange(0, i as int)[k] == s[k]);
                        assert(spec_set(before).contains(x));
                        let m = choose|m: int| 0 <= m < before.len() && before[m]@ == x;
                        assert(r@[m] == before[m]);
                    } else {
                        assert(r@[r@.len() - 1]@ == x);
                    }
                }
                assert forall|x: BehaviorView| spec_set(r@).contains(x) implies spec_set(s).difference(spec_set(b@)).contains(x) by {
                    let m = choose|m: int| 0 <= m < r@.len() && r@[m]@ == x;
                    if m < before.len() {
                        assert(r@[m] == before[m]);
                        assert(spec_set(before).contains(x));
                        let k = choose|k: int| 0 <= k < i && a@.subrange(0, i as int)[k]@ == x;
                        assert(s[k] == a@.subrange(0, i as int)[k]);
                    } else {
                        assert(s[i as int]@ == x);
                    }
                }
            }
        }
        i = i + 1;
    }
    assert(a@.subrange(0, a.len() as int) == a@);
    r
}

fn completes() -> (r: Vec<Behavior>)
    ensures
        spec_set(r@) == set![BehaviorView::Completes],
{
    let r = vec![Behavior::Completes];
    assert(spec_set(r@) =~= set![BehaviorView::Completes]) by {
        assert(r@[0]@ == BehaviorView::Completes);
    }
    r
}

/// Either of two code paths may be taken, as with an `if` statement.
pub fn behavior_alternation(a: Option<Vec<Behavior>>, b: Option<Vec<Behavior>>) -> (r: Option<Vec<Behavior>>)
    ensures
        spec_behaviors(r) == spec_alternation(spec_behaviors(a), spec_behaviors(b)),
{
    match (a, b) {
        (Some(a), Some(b)) => Some(union_of(a, b)),
        (Some(a), None) => Some(a),
        (None, Some(b)) => Some(b),
        (None, None) => None,
    }
}

/// Both paths are taken but unsequenced, as with a `+` operator.
pub fn behavior_unsequenced(a: Option<Vec<Behavior>>, b: Option<Vec<Behavior>>) -> (r: Option<Vec<Behavior>>)
    ensures
        spec_behaviors(r) == spec_unsequenced(spec_behaviors(a), spec_behaviors(b)),
{
    match (a, b) {
        (Some(a), Some(b)) => Some(union_of(a, b)),
        _ => None,
    }
}

/// Both paths are taken and sequenced, as with a `,` operator or a compound statement.
pub fn behavior_sequenced(a: Option<Vec<Behavior>>, b: Option<Vec<Behavior>>) -> (r: Option<Vec<Behavior>>)
    ensures
        spec_behaviors(r) == spec_sequenced(spec_behaviors(a), spec_behaviors(b)),
{
    match (a, b) {
        (Some(a), Some(b)) => {
            if contains(&a, &Behavior::Completes) {
                let c = completes();
                let rest = without(a, &c);
                assert(spec_set(rest@) =~= spec_set(a@).remove(BehaviorView::Completes));
                Some(union_of(rest, b))
            } else {
                Some(a)
            }
        },
        _ => None,
    }
}

/// Removes behaviors, leaving undefined behavior untouched.
pub fn behavior_difference(a: Option<Vec<Behavior>>, b: Vec<Behavior>) -> (r: Option<Vec<Behavior>>)
    ensures
        spec_behaviors(r) == match spec_behaviors(a) {
            Some(a) => Some(a.difference(spec_set(b@))),
            None => None,
        },
{
    match a {
        Some(a) => Some(without(a, &b)),
        None => None,
    }
}

/// Adds behaviors, leaving undefined behavior untouched.
pub fn behavior_union(a: Option<Vec<Behavior>>, b: Vec<Behavior>) -> (r: Option<Vec<Behavior>>)
    ensures
        spec_behaviors(r) == match spec_behaviors(a) {
            Some(a) => Some(a.union(spec_set(b@))),
            None => None,
        },
{
    match a {
        Some(a) => Some(union_of(a, b)),
        None => None,
    }
}

/// Whether a behavior is possible; never under undefined behavior.
pub fn behavior_contains(a: &Option<Vec<Behavior>>, b: &Behavior) -> (r: bool)
    ensures
        r == match spec_behaviors(*a) {
            Some(s) => s.contains(b@),
            None => false,
        },
{
    match a {
        Some(a) => contains(a, b),
        None => false,
    }
}

/// What a call may do beyond its operands: hang or complete.
pub open spec fn spec_call_behaviors() -> Set<BehaviorView> {
    set![BehaviorView::Hangs, BehaviorView::Completes]
}

/// Whether an expression is the constant zero.
pub open spec fn spec_is_zero(e: TypedExpression) -> bool {
    e matches TypedExpression::N8Constant(v) && v == 0
}

/// The possible behaviors of evaluating an expression: `None` where it dereferences the null
/// pointer or divides by the constant zero.
pub open spec fn spec_expression_behavior(e: TypedExpression) -> Option<Set<BehaviorView>>
    decreases e,
{
    match e {
        TypedExpression::N1DereferenceN8(x) | TypedExpression::N8DereferenceN8(x) => if spec_is_zero(
            *x,
        ) {
            None
        } else {
            spec_expression_behavior(*x)
        },
        TypedExpression::N1BitwiseComplement(x) | TypedExpression::N8BitwiseComplement(x)
        | TypedExpression::N0CastN1(x) | TypedExpression::N0CastN8(x) | TypedExpression::N1CastN8(x)
        | TypedExpression::N8CastN1(x) => spec_expression_behavior(*x),
        TypedExpression::U8Division(a, b) | TypedExpression::U8Modulo(a, b) => if spec_is_zero(*b) {
            None
        } else {
            spec_unsequenced(spec_expression_behavior(*a), spec_expression_behavior(*b))
        },
        TypedExpression::N8Addition(a, b) | TypedExpression::N8Subtraction(a, b)
        | TypedExpression::N8Multiplication(a, b) | TypedExpression::N8BitwiseAnd(a, b)
        | TypedExpression::N8BitwiseInclusiveOr(a, b) | TypedExpression::N8BitwiseExclusiveOr(a, b)
        | TypedExpression::N1EqualToN8(a, b) | TypedExpression::N1LessThanU8(a, b)
        | TypedExpression::N1LessThanI8(a, b) => spec_unsequenced(
            spec_expression_behavior(*a),
            spec_expression_behavior(*b),
        ),
        TypedExpression::N0SecondN0N0(a, b) | TypedExpression::N1SecondN0N1(a, b)
        | TypedExpression::N8SecondN0N8(a, b) => spec_sequenced(
            spec_expression_behavior(*a),
            spec_expression_behavior(*b),
        ),
        TypedExpression::N0Constant | TypedExpression::N1Constant(_) | TypedExpression::N8Constant(_)
        | TypedExpression::N8LoadLocal(_) | TypedExpression::N8AddrLocal(_)
        | TypedExpression::N8LoadGlobal(_) | TypedExpression::N8AddrGlobal(_) => Some(
            set![BehaviorView::Completes],
        ),
        TypedExpression::N0MacroCall(_, args) | TypedExpression::N1MacroCall(_, args)
        | TypedExpression::N8MacroCall(_, args) => spec_sequenced(
            spec_arguments_behavior(args@),
            Some(spec_call_behaviors()),
        ),
        TypedExpression::N0FunctionCall(d, args) | TypedExpression::N1FunctionCall(d, args)
        | TypedExpression::N8FunctionCall(d, args) => spec_sequenced(
            spec_unsequenced(spec_expression_behavior(*d), spec_arguments_behavior(args@)),
            Some(spec_call_behaviors()),
        ),
    }
}

/// The possible behaviors of evaluating arguments in no particular order.
pub open spec fn spec_arguments_behavior(args: Seq<TypedExpression>) -> Option<Set<BehaviorView>>
    decreases args,
{
    if args.len() == 0 {
        Some(set![BehaviorView::Completes])
    } else {
        spec_unsequenced(
            spec_arguments_behavior(args.subrange(0, args.len() - 1)),
            spec_expression_behavior(args.last()),
        )
    }
}

/// Whether a set of behaviors is that of an expression: not empty, and only hanging or completing.
pub open spec fn spec_expression_like(s: Set<BehaviorView>) -> bool {
    &&& s.subset_of(spec_call_behaviors())
    &&& exists|b: BehaviorView| s.contains(b)
}

/// Sequencing two sets of behaviors that only hang or complete gives another such set.
proof fn lemma_sequenced_expression_like(a: Option<Set<BehaviorView>>, b: Option<Set<BehaviorView>>)
    requires
        a matches Some(x) ==> spec_expression_like(x),
        b matches Some(y) ==> spec_expression_like(y),
    ensures
        spec_sequenced(a, b) matches Some(z) ==> spec_expression_like(z),
        spec_unsequenced(a, b) matches Some(z) ==> spec_expression_like(z),
{
    if let (Some(x), Some(y)) = (a, b) {
        let w = choose|c: BehaviorView| y.contains(c);
        assert(x.union(y).contains(w));
        if x.contains(BehaviorView::Completes) {
            assert(x.remove(BehaviorView::Completes).union(y).contains(w));
        }
    }
}

/// Evaluating arguments never breaks, continues or returns, and does something.
pub proof fn law_arguments_behavior_only_hangs_or_completes(args: Seq<TypedExpression>)
    ensures
        spec_arguments_behavior(args) matches Some(s) ==> spec_expression_like(s),
    decreases args,
{
    if args.len() == 0 {
        assert(set![BehaviorView::Completes].contains(BehaviorView::Completes));
    } else {
        assert(decreases_to!(args => args[args.len() - 1]));
        law_arguments_behavior_only_hangs_or_completes(args.subrange(0, args.len() - 1));
        law_expression_behavior_only_hangs_or_completes(args.last());
        lemma_sequenced_expression_like(
            spec_arguments_behavior(args.subrange(0, args.len() - 1)),
            spec_expression_behavior(args.last()),
        );
    }
}

/// Evaluating an expression never breaks, continues or returns: where its behavior is defined,
/// it hangs or completes, and does at least one of the two.
pub proof fn law_expression_behavior_only_hangs_or_completes(e: TypedExpression)
    ensures
        spec_expression_behavior(e) matches Some(s) ==> spec_expression_like(s),
    decreases e,
{
    assert(spec_call_behaviors().contains(BehaviorView::Completes));
    assert(set![BehaviorView::Completes].contains(BehaviorView::Completes));
    match e {
        TypedExpression::N1DereferenceN8(x) | TypedExpression::N8DereferenceN8(x)
        | TypedExpression::N1BitwiseComplement(x) | TypedExpression::N8BitwiseComplement(x)
        | TypedExpression::N0CastN1(x) | TypedExpression::N0CastN8(x) | TypedExpression::N1CastN8(x)
        | TypedExpression::N8CastN1(x) => {
            law_expression_behavior_only_hangs_or_completes(*x);
        },
        TypedExpression::U8Division(a, b) | TypedExpression::U8Modulo(a, b)
        | TypedExpression::N8Addition(a, b) | TypedExpression::N8Subtraction(a, b)
        | TypedExpression::N8Multiplication(a, b) | TypedExpression::N8BitwiseAnd(a, b)
        | TypedExpression::N8BitwiseInclusiveOr(a, b) | TypedExpression::N8BitwiseExclusiveOr(a, b)
        | TypedExpression::N1EqualToN8(a, b) | TypedExpression::N1LessThanU8(a, b)
        | TypedExpression::N1LessThanI8(a, b) | TypedExpression::N0SecondN0N0(a, b)
        | TypedExpression::N1SecondN0N1(a, b) | TypedExpression::N8SecondN0N8(a, b) => {
            law_expression_behavior_only_hangs_or_completes(*a);
            law_expression_behavior_only_hangs_or_completes(*b);
            lemma_sequenced_expression_like(spec_expression_behavior(*a), spec_expression_behavior(*b));
        },
        TypedExpression::N0MacroCall(_, args) | TypedExpression::N1MacroCall(_, args)
        | TypedExpression::N8MacroCall(_, args) => {
            assert(decreases_to!(e => args@));
            law_arguments_behavior_only_hangs_or_completes(args@);
            lemma_sequenced_expression_like(spec_arguments_behavior(args@), Some(spec_call_behaviors()));
        },
        TypedExpression::N0FunctionCall(d, args) | TypedExpression::N1FunctionCall(d, args)
        | TypedExpression::N8FunctionCall(d, args) => {
            assert(decreases_to!(e => args@));
            law_expression_behavior_only_hangs_or_completes(*d);
            law_arguments_behavior_only_hangs_or_completes(args@);
            lemma_sequenced_expression_like(spec_expression_behavior(*d), spec_arguments_behavior(args@));
            lemma_sequenced_expression_like(
                spec_unsequenced(spec_expression_behavior(*d), spec_arguments_behavior(args@)),
                Some(spec_call_behaviors()),
            );
        },
        _ => {},
    }
}

fn call_behaviors() -> (r: Vec<Behavior>)
    ensures
        spec_set(r@) == spec_call_behaviors(),
{
    let r = vec![Behavior::Hangs, Behavior::Completes];
    assert(spec_set(r@) =~= spec_call_behaviors()) by {
        assert(r@[0]@ == BehaviorView::Hangs);
        assert(r@[1]@ == BehaviorView::Completes);
    }
    r
}

fn is_zero(e: &TypedExpression) -> (r: bool)
    ensures
        r == spec_is_zero(*e),
{
    match e {
        TypedExpression::N8Constant(v) => *v == 0,
        _ => false,
    }
}

fn arguments_behavior(args: &Vec<TypedExpression>, Ghost(parent): Ghost<TypedExpression>) -> (r: Option<Vec<Behavior>>)
    requires
        decreases_to!(parent => args@),
    ensures
        spec_behaviors(r) == spec_arguments_behavior(args@),
    decreases parent, 0nat,
{
    let mut acc = Some(completes());
    let mut i: usize = 0;
    while i < args.len()
        invariant
            i <= args.len(),
            decreases_to!(parent => args@),
            spec_behaviors(acc) == spec_arguments_behavior(args@.subrange(0, i as int)),
        decreases args.len() - i,
    {
        proof {
            let t = args@.subrange(0, i + 1 as int);
            assert(t.subrange(0, t.len() - 1) == args@.subrange(0, i as int));
            assert(t.last() == args@[i as int]);
            assert(decreases_to!(args@ => args@[i as int]));
        }
        let b = expression_behavior(&args[i]);
        acc = behavior_unsequenced(acc, b);
        i = i + 1;
    }
    assert(args@.subrange(0, args.len() as int) == args@);
    acc
}

/// The possible behaviors of evaluating an expression, a superset of what it does at run time:
/// `None` where its behavior is undefined, as for a null pointer dereference or a division by
/// zero.
pub fn expression_behavior(expression: &TypedExpression) -> (r: Option<Vec<Behavior>>)
    ensures
        spec_behaviors(r) == spec_expression_behavior(*expression),
    decreases *expression, 1nat,
{
    match expression {
        TypedExpression::N1DereferenceN8(x) | TypedExpression::N8DereferenceN8(x) => if is_zero(x) {
            None
        } else {
            expression_behavior(x)
        },
        TypedExpression::N1BitwiseComplement(x) | TypedExpression::N8BitwiseComplement(x)
        | TypedExpression::N0CastN1(x) | TypedExpression::N0CastN8(x) | TypedExpression::N1CastN8(x)
        | TypedExpression::N8CastN1(x) => expression_behavior(x),
        TypedExpression::U8Division(a, b) | TypedExpression::U8Modulo(a, b) => if is_zero(b) {
            None
        } else {
            behavior_unsequenced(expression_behavior(a), expression_behavior(b))
        },
        TypedExpression::N8Addition(a, b) | TypedExpression::N8Subtraction(a, b)
        | TypedExpression::N8Multiplication(a, b) | TypedExpression::N8BitwiseAnd(a, b)
        | TypedExpression::N8BitwiseInclusiveOr(a, b) | TypedExpression::N8BitwiseExclusiveOr(a, b)
        | TypedExpression::N1EqualToN8(a, b) | TypedExpression::N1LessThanU8(a, b)
        | TypedExpression::N1LessThanI8(a, b) => behavior_unsequenced(
            expression_behavior(a),
            expression_behavior(b),
        ),
        TypedExpression::N0SecondN0N0(a, b) | TypedExpression::N1SecondN0N1(a, b)
        | TypedExpression::N8SecondN0N8(a, b) => behavior_sequenced(
            expression_behavior(a),
            expression_behavior(b),
        ),
        TypedExpression::N0Constant | TypedExpression::N1Constant(_) | TypedExpression::N8Constant(_)
        | TypedExpression::N8LoadLocal(_) | TypedExpression::N8AddrLocal(_)
        | TypedExpression::N8LoadGlobal(_) | TypedExpression::N8AddrGlobal(_) => Some(completes()),
        TypedExpression::N0MacroCall(_, args) | TypedExpression::N1MacroCall(_, args)
        | TypedExpression::N8MacroCall(_, args) => behavior_sequenced(
            arguments_behavior(args, Ghost(*expression)),
            Some(call_behaviors()),
        ),
        TypedExpression::N0FunctionCall(d, args) | TypedExpression::N1FunctionCall(d, args)
        | TypedExpression::N8FunctionCall(d, args) => behavior_sequenced(
            behavior_unsequenced(expression_behavior(d), arguments_behavior(args, Ghost(*expression))),
            Some(call_behaviors()),
        ),
    }
}

} // verus!
