//! Macro expansion of assembly: every macro reference is replaced, recursively, by the tokens of
//! its definition, each expansion giving the local labels of its body a scope of their own.

use vstd::prelude::*;
use crate::assembler::{copy_pos, copy_token, Node};
use crate::common::{Instruction, Size};
use crate::text::{chars_of, push_chars, string_chars, string_from_chars};
use crate::token::{spec_token_mnemonic, Error, Label, Macro, Pos, Token};

verus! {

/// A macro definition: the macro and the tokens of its body.
pub type MacroDefinition = (Macro, Vec<(Pos, Token)>);

/// How a macro is quoted in messages: between backquotes, after `!`.
pub open spec fn spec_macro_text(name: Seq<char>) -> Seq<char> {
    seq!['`', '!'] + name + seq!['`']
}

/// The chain of enclosing macros in a message, joined by ` -> `.
pub open spec fn spec_chain_text(parents: Seq<Seq<char>>) -> Seq<char>
    decreases parents.len(),
{
    if parents.len() == 0 {
        Seq::empty()
    } else if parents.len() == 1 {
        spec_macro_text(parents[0])
    } else {
        spec_chain_text(parents.drop_last()) + " -> "@ + spec_macro_text(parents.last())
    }
}

/// The message for a macro that references itself through `parents`.
pub open spec fn spec_self_reference(parents: Seq<Seq<char>>, name: Seq<char>) -> Seq<char> {
    "Macro self-reference "@ + spec_chain_text(parents) + " -> "@ + spec_macro_text(name)
}

/// The message for a reference to an undefined macro.
pub open spec fn spec_undefined(name: Seq<char>) -> Seq<char> {
    "Reference to undefined macro "@ + spec_macro_text(name)
}

/// The message for an `@error` directive.
pub open spec fn spec_error_directive() -> Seq<char> {
    "`@error` directive encountered"@
}

/// The index of the first definition of the macro `name`.
pub open spec fn spec_find(defs: Seq<MacroDefinition>, name: Seq<char>) -> Option<int>
    decreases defs.len(),
{
    if defs.len() == 0 {
        None
    } else {
        match spec_find(defs.drop_last(), name) {
            Some(i) => Some(i),
            None => if defs.last().0.0@ == name {
                Some(defs.len() - 1)
            } else {
                None
            },
        }
    }
}

/// A token with its local labels scoped to the expansion `uid`.
pub open spec fn spec_scoped(t: Token, uid: usize) -> Token {
    match t {
        Token::LabelDef(Label::Local(id, _)) => Token::LabelDef(Label::Local(id, Some(uid))),
        Token::LabelRef(Label::Local(id, _)) => Token::LabelRef(Label::Local(id, Some(uid))),
        _ => t,
    }
}

/// The tokens of a body with their local labels scoped to the expansion `uid`.
pub open spec fn spec_scoped_body(body: Seq<(Pos, Token)>, uid: usize) -> Seq<(Pos, Token)> {
    body.map_values(|pt: (Pos, Token)| (pt.0, spec_scoped(pt.1, uid)))
}

/// How many macros are defined but not being expanded.
pub open spec fn spec_unvisited(defs: Seq<MacroDefinition>, parents: Seq<Seq<char>>) -> nat
    decreases defs.len(),
{
    if defs.len() == 0 {
        0
    } else {
        spec_unvisited(defs.drop_last(), parents) + if parents.contains(defs.last().0.0@) { 0nat } else { 1nat }
    }
}

/// Expanding a defined macro that is not being expanded leaves fewer to expand.
pub proof fn lemma_unvisited_decreases(defs: Seq<MacroDefinition>, parents: Seq<Seq<char>>, name: Seq<char>)
    requires
        spec_find(defs, name) is Some,
        !parents.contains(name),
    ensures
        spec_unvisited(defs, parents.push(name)) < spec_unvisited(defs, parents),
    decreases defs.len(),
{
    lemma_unvisited_shrinks(defs.drop_last(), parents, name);
    assert(parents.push(name).contains(name)) by {
        assert(parents.push(name)[parents.len() as int] == name);
    }
    if spec_find(defs.drop_last(), name) is Some {
        lemma_unvisited_decreases(defs.drop_last(), parents, name);
    }
    if defs.last().0.0@ != name {
        assert(parents.push(name).contains(defs.last().0.0@) == parents.contains(defs.last().0.0@)) by {
            if parents.push(name).contains(defs.last().0.0@) {
                let k = choose|k: int| 0 <= k < parents.push(name).len() && parents.push(name)[k] == defs.last().0.0@;
                assert(parents[k] == defs.last().0.0@);
            }
            if parents.contains(defs.last().0.0@) {
                let k = choose|k: int| 0 <= k < parents.len() && parents[k] == defs.last().0.0@;
                assert(parents.push(name)[k] == defs.last().0.0@);
            }
        }
    }
}

/// Expanding one more macro never leaves more to expand.
pub proof fn lemma_unvisited_shrinks(defs: Seq<MacroDefinition>, parents: Seq<Seq<char>>, name: Seq<char>)
    ensures
        spec_unvisited(defs, parents.push(name)) <= spec_unvisited(defs, parents),
    decreases defs.len(),
{
    if defs.len() > 0 {
        lemma_unvisited_shrinks(defs.drop_last(), parents, name);
        if parents.contains(defs.last().0.0@) {
            let k = choose|k: int| 0 <= k < parents.len() && parents[k] == defs.last().0.0@;
            assert(parents.push(name)[k] == defs.last().0.0@);
        }
    }
}

/// What expanding `tokens` gives, with `uid` as the next expansion's scope and `parents` the
/// macros being expanded: the tokens, the next scope after, and the errors with their
/// positions.
pub open spec fn spec_expand(
    defs: Seq<MacroDefinition>,
    tokens: Seq<(Pos, Token)>,
    uid: nat,
    parents: Seq<Seq<char>>,
) -> (Seq<(Pos, Token)>, nat, Seq<(Pos, Seq<char>)>)
    decreases spec_unvisited(defs, parents), tokens.len(),
{
    if tokens.len() == 0 {
        (Seq::empty(), uid, Seq::empty())
    } else {
        let (pos, token) = tokens[0];
        let (out1, uid1, err1) = match token {
            Token::MacroRef(m) => if parents.contains(m.0@) {
                (Seq::empty(), uid, seq![(pos, spec_self_reference(parents, m.0@))])
            } else {
                match spec_find(defs, m.0@) {
                    None => (Seq::empty(), uid + 1, seq![(pos, spec_undefined(m.0@))]),
                    Some(k) => {
                        proof {
                            lemma_unvisited_decreases(defs, parents, m.0@);
                        }
                        spec_expand(defs, spec_scoped_body(defs[k].1@, uid as usize), uid + 1, parents.push(m.0@))
                    },
                }
            },
            Token::AtError => (Seq::empty(), uid, seq![(pos, spec_error_directive())]),
            _ => (seq![(pos, token)], uid, Seq::empty()),
        };
        let (out2, uid2, err2) = spec_expand(defs, tokens.drop_first(), uid1, parents);
        (out1 + out2, uid2, err1 + err2)
    }
}


/// The names of macros.
pub open spec fn spec_names(ms: Seq<Macro>) -> Seq<Seq<char>> {
    ms.map_values(|m: Macro| m.0@)
}

/// Errors with their messages taken as characters.
pub open spec fn spec_error_views(es: Seq<(Pos, Error)>) -> Seq<(Pos, Seq<char>)> {
    es.map_values(|pe: (Pos, Error)| (pe.0, pe.1.0@))
}

/// The definition that `spec_find` finds is the first with the name.
pub proof fn lemma_find_first(defs: Seq<MacroDefinition>, name: Seq<char>)
    ensures
        match spec_find(defs, name) {
            Some(k) => 0 <= k < defs.len() && defs[k].0.0@ == name && forall|j: int| 0 <= j < k ==> defs[j].0.0@ != name,
            None => forall|j: int| 0 <= j < defs.len() ==> defs[j].0.0@ != name,
        },
    decreases defs.len(),
{
    if defs.len() > 0 {
        lemma_find_first(defs.drop_last(), name);
        assert forall|j: int| 0 <= j < defs.len() - 1 implies defs.drop_last()[j] == defs[j] by {}
    }
}

/// Expansion never takes back a scope: the next scope after is at least the one before.
pub proof fn lemma_expand_grows(defs: Seq<MacroDefinition>, tokens: Seq<(Pos, Token)>, uid: nat, parents: Seq<Seq<char>>)
    ensures
        spec_expand(defs, tokens, uid, parents).1 >= uid,
    decreases spec_unvisited(defs, parents), tokens.len(),
{
    if tokens.len() > 0 {
        let (pos, token) = tokens[0];
        let uid1 = match token {
            Token::MacroRef(m) => if parents.contains(m.0@) {
                uid
            } else {
                match spec_find(defs, m.0@) {
                    None => uid + 1,
                    Some(k) => {
                        lemma_unvisited_decreases(defs, parents, m.0@);
                        lemma_expand_grows(defs, spec_scoped_body(defs[k].1@, uid as usize), uid + 1, parents.push(m.0@));
                        spec_expand(defs, spec_scoped_body(defs[k].1@, uid as usize), uid + 1, parents.push(m.0@)).1
                    },
                }
            },
            _ => uid,
        };
        lemma_expand_grows(defs, tokens.drop_first(), uid1, parents);
    }
}

/// Whether `name` is among the macros being expanded.
fn expanding(parents: &Vec<Macro>, name: &String) -> (r: bool)
    ensures
        r == spec_names(parents@).contains(name@),
{
    let mut j: usize = 0;
    while j < parents.len()
        invariant
            j <= parents.len(),
            forall|k: int| 0 <= k < j ==> spec_names(parents@)[k] != name@,
        decreases parents.len() - j,
    {
        if parents[j].0 == *name {
            assert(spec_names(parents@)[j as int] == name@);
            return true;
        }
        j = j + 1;
    }
    false
}

/// The first definition of the macro `name`.
fn find_definition(defs: &Vec<MacroDefinition>, name: &String) -> (r: Option<usize>)
    ensures
        match r {
            Some(k) => k < defs@.len() && spec_find(defs@, name@) == Some(k as int),
            None => spec_find(defs@, name@) is None,
        },
{
    let mut j: usize = 0;
    while j < defs.len()
        invariant
            j <= defs.len(),
            forall|k: int| 0 <= k < j ==> defs@[k].0.0@ != name@,
        decreases defs.len() - j,
    {
        if defs[j].0.0 == *name {
            proof {
                lemma_find_first(defs@, name@);
                if spec_find(defs@, name@) is None {
                    assert(defs@[j as int].0.0@ == name@);
                } else {
                    let k = spec_find(defs@, name@)->Some_0;
                    if k < j {
                        assert(defs@[k].0.0@ != name@);
                    }
                    if k > j {
                        assert(defs@[j as int].0.0@ == name@);
                    }
                }
            }
            return Some(j);
        }
        j = j + 1;
    }
    proof {
        lemma_find_first(defs@, name@);
    }
    None
}

/// Appends how a macro is quoted in messages.
fn push_macro_text(out: &mut Vec<char>, name: &String)
    ensures
        final(out)@ == old(out)@ + spec_macro_text(name@),
{
    out.push('`');
    out.push('!');
    let mut cs = string_chars(name);
    out.append(&mut cs);
    out.push('`');
}

/// The chain of macros being expanded, as a message shows it.
fn chain_text(parents: &Vec<Macro>) -> (r: Vec<char>)
    ensures
        r@ == spec_chain_text(spec_names(parents@)),
{
    let mut out: Vec<char> = Vec::new();
    let mut j: usize = 0;
    while j < parents.len()
        invariant
            j <= parents.len(),
            out@ == spec_chain_text(spec_names(parents@).subrange(0, j as int)),
        decreases parents.len() - j,
    {
        let ghost t = spec_names(parents@).subrange(0, j + 1);
        if j > 0 {
            let mut sep = chars_of(" -> ");
            out.append(&mut sep);
        }
        push_macro_text(&mut out, &parents[j].0);
        proof {
            assert(t.drop_last() =~= spec_names(parents@).subrange(0, j as int));
            assert(t.last() == parents@[j as int].0@);
            if j == 0 {
                assert(spec_chain_text(spec_names(parents@).subrange(0, 0)) == Seq::<char>::empty());
                assert(out@ =~= spec_macro_text(t[0]));
            }
        }
        j = j + 1;
    }
    assert(spec_names(parents@).subrange(0, parents.len() as int) =~= spec_names(parents@));
    out
}

/// A token with its local labels scoped to the expansion `uid`.
fn scoped(t: &Token, uid: usize) -> (r: Token)
    ensures
        r == spec_scoped(*t, uid),
{
    match t {
        Token::LabelDef(Label::Local(id, _)) => Token::LabelDef(Label::Local(id.clone(), Some(uid))),
        Token::LabelRef(Label::Local(id, _)) => Token::LabelRef(Label::Local(id.clone(), Some(uid))),
        _ => copy_token(t),
    }
}

/// The tokens of a body with their local labels scoped to the expansion `uid`.
fn scoped_body(body: &Vec<(Pos, Token)>, uid: usize) -> (r: Vec<(Pos, Token)>)
    ensures
        r@ == spec_scoped_body(body@, uid),
{
    let mut out: Vec<(Pos, Token)> = Vec::new();
    let mut j: usize = 0;
    while j < body.len()
        invariant
            j <= body.len(),
            out@ == spec_scoped_body(body@.subrange(0, j as int), uid),
        decreases body.len() - j,
    {
        let item = (copy_pos(&body[j].0), scoped(&body[j].1, uid));
        out.push(item);
        assert(spec_scoped_body(body@.subrange(0, j + 1), uid) =~= spec_scoped_body(body@.subrange(0, j as int), uid).push(item));
        j = j + 1;
    }
    assert(body@.subrange(0, body.len() as int) =~= body@);
    out
}

/// Records an error at `pos`.
fn report(errors: &mut Vec<(Pos, Error)>, pos: &Pos, message: Vec<char>)
    ensures
        spec_error_views(final(errors)@) == spec_error_views(old(errors)@).push((*pos, message@)),
{
    errors.push((copy_pos(pos), Error(string_from_chars(&message))));
    assert(spec_error_views(final(errors)@) =~= spec_error_views(old(errors)@).push((*pos, message@)));
}

/// Expands `tokens`: each macro reference is replaced by the expansion of its definition, whose
/// local labels get the next scope; a reference to a macro being expanded, a reference to an
/// undefined macro and an `@error` directive are reported and dropped.
pub fn expand_macros(
    tokens: &Vec<(Pos, Token)>,
    scope_uid: &mut usize,
    parent_macros: &mut Vec<Macro>,
    macro_definitions: &Vec<MacroDefinition>,
    errors: &mut Vec<(Pos, Error)>,
) -> (r: Vec<(Pos, Token)>)
    requires
        spec_expand(macro_definitions@, tokens@, *old(scope_uid) as nat, spec_names(old(parent_macros)@)).1 <= usize::MAX,
    ensures
        r@ == spec_expand(macro_definitions@, tokens@, *old(scope_uid) as nat, spec_names(old(parent_macros)@)).0,
        *final(scope_uid) as nat == spec_expand(macro_definitions@, tokens@, *old(scope_uid) as nat, spec_names(old(parent_macros)@)).1,
        final(parent_macros)@ == old(parent_macros)@,
        spec_error_views(final(errors)@) == spec_error_views(old(errors)@)
            + spec_expand(macro_definitions@, tokens@, *old(scope_uid) as nat, spec_names(old(parent_macros)@)).2,
    decreases spec_unvisited(macro_definitions@, spec_names(old(parent_macros)@)), tokens@.len(),
{
    let ghost defs = macro_definitions@;
    let ghost names = spec_names(parent_macros@);
    let ghost whole = spec_expand(defs, tokens@, *scope_uid as nat, names);
    let ghost errs0 = spec_error_views(errors@);
    let ghost p0 = parent_macros@;
    let mut out: Vec<(Pos, Token)> = Vec::new();
    let mut i: usize = 0;
    assert(tokens@.subrange(0, tokens@.len() as int) =~= tokens@);
    assert(out@ + whole.0 =~= whole.0);
    while i < tokens.len()
        invariant
            defs == macro_definitions@,
            parent_macros@ == p0,
            p0 == old(parent_macros)@,
            names == spec_names(parent_macros@),
            i <= tokens.len(),
            whole.1 <= usize::MAX,
            out@ + spec_expand(defs, tokens@.subrange(i as int, tokens@.len() as int), *scope_uid as nat, names).0 == whole.0,
            spec_expand(defs, tokens@.subrange(i as int, tokens@.len() as int), *scope_uid as nat, names).1 == whole.1,
            spec_error_views(errors@) + spec_expand(defs, tokens@.subrange(i as int, tokens@.len() as int), *scope_uid as nat, names).2
                == errs0 + whole.2,
        decreases tokens.len() - i,
    {
        let ghost rest = tokens@.subrange(i as int, tokens@.len() as int);
        let ghost u0 = *scope_uid as nat;
        let ghost out0 = out@;
        let ghost ev0 = spec_error_views(errors@);
        assert(rest[0] == tokens@[i as int]);
        assert(rest.drop_first() =~= tokens@.subrange(i + 1, tokens@.len() as int));
        let pos = &tokens[i].0;
        let ghost first = match tokens@[i as int].1 {
            Token::MacroRef(m) => if names.contains(m.0@) {
                (Seq::<(Pos, Token)>::empty(), u0, seq![(*pos, spec_self_reference(names, m.0@))])
            } else {
                match spec_find(defs, m.0@) {
                    None => (Seq::<(Pos, Token)>::empty(), u0 + 1, seq![(*pos, spec_undefined(m.0@))]),
                    Some(k) => spec_expand(defs, spec_scoped_body(defs[k].1@, u0 as usize), u0 + 1, names.push(m.0@)),
                }
            },
            Token::AtError => (Seq::<(Pos, Token)>::empty(), u0, seq![(*pos, spec_error_directive())]),
            _ => (seq![tokens@[i as int]], u0, Seq::<(Pos, Seq<char>)>::empty()),
        };
        proof {
            lemma_expand_grows(defs, rest.drop_first(), first.1, names);
            let after = spec_expand(defs, rest.drop_first(), first.1, names);
            assert(spec_expand(defs, rest, u0, names) == (first.0 + after.0, after.1, first.2 + after.2));
        }
        match &tokens[i].1 {
            Token::MacroRef(m) => {
                if expanding(parent_macros, &m.0) {
                    let mut message = chars_of("Macro self-reference ");
                    let mut chain = chain_text(parent_macros);
                    message.append(&mut chain);
                    let mut arrow = chars_of(" -> ");
                    message.append(&mut arrow);
                    push_macro_text(&mut message, &m.0);
                    report(errors, pos, message);
                } else {
                    match find_definition(macro_definitions, &m.0) {
                        None => {
                            let mut message = chars_of("Reference to undefined macro ");
                            push_macro_text(&mut message, &m.0);
                            report(errors, pos, message);
                            *scope_uid = *scope_uid + 1;
                        },
                        Some(k) => {
                            let body = scoped_body(&macro_definitions[k].1, *scope_uid);
                            proof {
                                lemma_expand_grows(defs, body@, u0 + 1, names.push(m.0@));
                            }
                            *scope_uid = *scope_uid + 1;
                            let ghost before = parent_macros@;
                            parent_macros.push(Macro(m.0.clone()));
                            proof {
                                assert(spec_names(parent_macros@) =~= names.push(m.0@));
                                lemma_unvisited_decreases(defs, names, m.0@);
                            }
                            assert(spec_unvisited(macro_definitions@, spec_names(parent_macros@))
                                < spec_unvisited(macro_definitions@, spec_names(p0)));
                            let mut expanded = expand_macros(&body, scope_uid, parent_macros, macro_definitions, errors);
                            parent_macros.pop();
                            assert(parent_macros@ =~= before);
                            out.append(&mut expanded);
                        },
                    }
                }
            },
            Token::AtError => {
                let message = chars_of("`@error` directive encountered");
                report(errors, pos, message);
            },
            t => {
                out.push((copy_pos(pos), copy_token(t)));
            },
        }
        proof {
            assert(out@ =~= out0 + first.0);
            assert(spec_error_views(errors@) =~= ev0 + first.2);
            assert((out0 + first.0) + spec_expand(defs, rest.drop_first(), first.1, names).0 =~= out0 + (first.0 + spec_expand(defs, rest.drop_first(), first.1, names).0));
            assert((ev0 + first.2) + spec_expand(defs, rest.drop_first(), first.1, names).2 =~= ev0 + (first.2 + spec_expand(defs, rest.drop_first(), first.1, names).2));
        }
        i = i + 1;
    }
    assert(out@ =~= whole.0);
    assert(spec_error_views(errors@) =~= errs0 + whole.2);
    out
}


/// Macro definitions with their names and bodies taken as values.
pub open spec fn spec_def_views(defs: Seq<MacroDefinition>) -> Seq<(Seq<char>, Seq<(Pos, Token)>)> {
    defs.map_values(|d: MacroDefinition| (d.0.0@, d.1@))
}

/// The index of the definition named `name`, by name.
pub open spec fn spec_find_view(defs: Seq<(Seq<char>, Seq<(Pos, Token)>)>, name: Seq<char>) -> Option<int>
    decreases defs.len(),
{
    if defs.len() == 0 {
        None
    } else {
        match spec_find_view(defs.drop_last(), name) {
            Some(i) => Some(i),
            None => if defs.last().0 == name {
                Some(defs.len() - 1)
            } else {
                None
            },
        }
    }
}

/// The message for a second definition of a macro.
pub open spec fn spec_duplicate(name: Seq<char>) -> Seq<char> {
    "Duplicate macro definition "@ + spec_macro_text(name)
}

/// The message for a token outside any macro definition.
pub open spec fn spec_orphan(token: Token) -> Seq<char> {
    "Orphan token `"@ + spec_token_mnemonic(token@) + "` encountered"@
}

/// The state of collecting macro definitions: the definitions so far, the macro being defined
/// and the errors.
pub type CollectState = (Seq<(Seq<char>, Seq<(Pos, Token)>)>, Option<Seq<char>>, Seq<(Pos, Seq<char>)>);

/// One token of collecting: a definition starts a macro (a second definition of a macro is
/// reported and continues the first); any other token goes to the macro being defined, or is
/// reported as an orphan.
pub open spec fn spec_collect_step(st: CollectState, pt: (Pos, Token)) -> CollectState {
    let (defs, current, errs) = st;
    let (pos, token) = pt;
    match token {
        Token::MacroDef(m) => match spec_find_view(defs, m.0@) {
            Some(_) => (defs, Some(m.0@), errs.push((pos, spec_duplicate(m.0@)))),
            None => (defs.push((m.0@, Seq::empty())), Some(m.0@), errs),
        },
        _ => match current {
            Some(c) => match spec_find_view(defs, c) {
                Some(k) => (defs.update(k, (defs[k].0, defs[k].1.push((pos, token)))), current, errs),
                None => (defs, current, errs.push((pos, spec_orphan(token)))),
            },
            None => (defs, current, errs.push((pos, spec_orphan(token)))),
        },
    }
}

/// Collecting the macro definitions of `tokens`.
pub open spec fn spec_collect(tokens: Seq<(Pos, Token)>) -> CollectState
    decreases tokens.len(),
{
    if tokens.len() == 0 {
        (Seq::empty(), None, Seq::empty())
    } else {
        spec_collect_step(spec_collect(tokens.drop_last()), tokens.last())
    }
}

proof fn lemma_find_view_first(defs: Seq<(Seq<char>, Seq<(Pos, Token)>)>, name: Seq<char>)
    ensures
        match spec_find_view(defs, name) {
            Some(k) => 0 <= k < defs.len() && defs[k].0 == name && forall|j: int| 0 <= j < k ==> defs[j].0 != name,
            None => forall|j: int| 0 <= j < defs.len() ==> defs[j].0 != name,
        },
    decreases defs.len(),
{
    if defs.len() > 0 {
        lemma_find_view_first(defs.drop_last(), name);
        assert forall|j: int| 0 <= j < defs.len() - 1 implies defs.drop_last()[j] == defs[j] by {}
    }
}

/// The definition named `name`, found by name.
fn find_by_name(defs: &Vec<MacroDefinition>, name: &String) -> (r: Option<usize>)
    ensures
        match r {
            Some(k) => k < defs@.len() && spec_find_view(spec_def_views(defs@), name@) == Some(k as int),
            None => spec_find_view(spec_def_views(defs@), name@) is None,
        },
{
    let ghost views = spec_def_views(defs@);
    let mut j: usize = 0;
    while j < defs.len()
        invariant
            j <= defs.len(),
            views == spec_def_views(defs@),
            forall|k: int| 0 <= k < j ==> views[k].0 != name@,
        decreases defs.len() - j,
    {
        if defs[j].0.0 == *name {
            proof {
                lemma_find_view_first(views, name@);
                assert(views[j as int].0 == name@);
                if spec_find_view(views, name@) is Some {
                    let k = spec_find_view(views, name@)->Some_0;
                    if k < j {
                        assert(views[k].0 != name@);
                    }
                }
            }
            return Some(j);
        }
        j = j + 1;
    }
    proof {
        lemma_find_view_first(views, name@);
    }
    None
}

/// Sorts tokens into the macros they are defined in: a macro definition starts a macro, a second
/// definition of a macro is reported and continues the first, and a token before any macro
/// definition is reported as an orphan.
pub fn collect_macros(tokens: &Vec<(Pos, Token)>, errors: &mut Vec<(Pos, Error)>) -> (r: Vec<MacroDefinition>)
    ensures
        spec_def_views(r@) == spec_collect(tokens@).0,
        spec_error_views(final(errors)@) == spec_error_views(old(errors)@) + spec_collect(tokens@).2,
{
    let ghost errs0 = spec_error_views(errors@);
    let mut defs: Vec<MacroDefinition> = Vec::new();
    let mut current: Option<usize> = None;
    let mut i: usize = 0;
    assert(spec_def_views(defs@) =~= Seq::empty());
    while i < tokens.len()
        invariant
            i <= tokens.len(),
            spec_def_views(defs@) == spec_collect(tokens@.subrange(0, i as int)).0,
            spec_error_views(errors@) == errs0 + spec_collect(tokens@.subrange(0, i as int)).2,
            match current {
                Some(k) => k < defs@.len() && spec_collect(tokens@.subrange(0, i as int)).1 == Some(defs@[k as int].0.0@)
                    && spec_find_view(spec_def_views(defs@), defs@[k as int].0.0@) == Some(k as int),
                None => spec_collect(tokens@.subrange(0, i as int)).1 is None,
            },
        decreases tokens.len() - i,
    {
        let ghost st = spec_collect(tokens@.subrange(0, i as int));
        let ghost views0 = spec_def_views(defs@);
        assert(tokens@.subrange(0, i + 1).drop_last() =~= tokens@.subrange(0, i as int));
        assert(tokens@.subrange(0, i + 1).last() == tokens@[i as int]);
        let pos = &tokens[i].0;
        match &tokens[i].1 {
            Token::MacroDef(m) => {
                match find_by_name(&defs, &m.0) {
                    Some(k) => {
                        let mut message = chars_of("Duplicate macro definition ");
                        push_macro_text(&mut message, &m.0);
                        report(errors, pos, message);
                        current = Some(k);
                        proof {
                            lemma_find_view_first(views0, m.0@);
                            assert(defs@[k as int].0.0@ == views0[k as int].0);
                        }
                    },
                    None => {
                        defs.push((Macro(m.0.clone()), Vec::new()));
                        current = Some(defs.len() - 1);
                        proof {
                            assert(spec_def_views(defs@) =~= views0.push((m.0@, Seq::empty())));
                            lemma_find_view_first(views0, m.0@);
                            lemma_find_view_first(spec_def_views(defs@), m.0@);
                            let nv = spec_def_views(defs@);
                            assert(nv[nv.len() - 1].0 == m.0@);
                            assert(defs@[defs.len() - 1].0.0@ == m.0@);
                            if spec_find_view(nv, m.0@) is Some {
                                let k2 = spec_find_view(nv, m.0@)->Some_0;
                                if k2 < nv.len() - 1 {
                                    assert(nv[k2] == views0[k2]);
                                }
                            }
                            assert(spec_find_view(nv, m.0@) == Some(nv.len() - 1));
                        }
                    },
                }
            },
            t => {
                match current {
                    Some(k) => {
                        let (name, mut body) = defs.remove(k);
                        body.push((copy_pos(pos), copy_token(t)));
                        defs.insert(k, (name, body));
                        proof {
                            assert(spec_def_views(defs@) =~= views0.update(k as int, (views0[k as int].0, views0[k as int].1.push(tokens@[i as int]))));
                            lemma_find_view_first(views0, views0[k as int].0);
                            lemma_find_view_first(spec_def_views(defs@), views0[k as int].0);
                            let nv = spec_def_views(defs@);
                            assert(nv[k as int].0 == views0[k as int].0);
                            assert(defs@[k as int].0.0@ == views0[k as int].0);
                            if spec_find_view(nv, views0[k as int].0) is Some {
                                let k2 = spec_find_view(nv, views0[k as int].0)->Some_0;
                                assert(nv[k2].0 == views0[k2].0);
                            }
                            assert(spec_find_view(nv, views0[k as int].0) == Some(k as int));
                        }
                    },
                    None => {
                        let mut message = chars_of("Orphan token `");
                        let mnemonic = crate::token::token_to_mnemonic(copy_token(t));
                        let mut text = string_chars(&mnemonic.0);
                        message.append(&mut text);
                        let mut tail = chars_of("` encountered");
                        message.append(&mut tail);
                        report(errors, pos, message);
                    },
                }
            },
        }
        i = i + 1;
    }
    assert(tokens@.subrange(0, tokens@.len() as int) =~= tokens@);
    defs
}


/// Whether a token is left for the assembler: neither a macro reference nor an `@error`
/// directive.
pub open spec fn spec_expanded_token(t: Token) -> bool {
    !(t is MacroRef) && !(t is AtError)
}

/// Expansion leaves no macro reference and no `@error` directive behind.
pub proof fn law_expansion_leaves_no_references(
    defs: Seq<MacroDefinition>,
    tokens: Seq<(Pos, Token)>,
    uid: nat,
    parents: Seq<Seq<char>>,
)
    ensures
        forall|k: int| 0 <= k < spec_expand(defs, tokens, uid, parents).0.len()
            ==> spec_expanded_token(#[trigger] spec_expand(defs, tokens, uid, parents).0[k].1),
    decreases spec_unvisited(defs, parents), tokens.len(),
{
    if tokens.len() > 0 {
        let (pos, token) = tokens[0];
        let first = match token {
            Token::MacroRef(m) => if parents.contains(m.0@) {
                (Seq::<(Pos, Token)>::empty(), uid, seq![(pos, spec_self_reference(parents, m.0@))])
            } else {
                match spec_find(defs, m.0@) {
                    None => (Seq::<(Pos, Token)>::empty(), uid + 1, seq![(pos, spec_undefined(m.0@))]),
                    Some(k) => {
                        lemma_unvisited_decreases(defs, parents, m.0@);
                        law_expansion_leaves_no_references(defs, spec_scoped_body(defs[k].1@, uid as usize), uid + 1, parents.push(m.0@));
                        spec_expand(defs, spec_scoped_body(defs[k].1@, uid as usize), uid + 1, parents.push(m.0@))
                    },
                }
            },
            Token::AtError => (Seq::<(Pos, Token)>::empty(), uid, seq![(pos, spec_error_directive())]),
            _ => (seq![(pos, token)], uid, Seq::<(Pos, Seq<char>)>::empty()),
        };
        law_expansion_leaves_no_references(defs, tokens.drop_first(), first.1, parents);
        let rest = spec_expand(defs, tokens.drop_first(), first.1, parents);
        assert(spec_expand(defs, tokens, uid, parents).0 == first.0 + rest.0);
        assert forall|k: int| 0 <= k < first.0.len() implies spec_expanded_token(#[trigger] first.0[k].1) by {}
        assert forall|k: int| 0 <= k < (first.0 + rest.0).len() implies spec_expanded_token(#[trigger] (first.0 + rest.0)[k].1) by {
            if k >= first.0.len() {
                assert((first.0 + rest.0)[k] == rest.0[k - first.0.len()]);
            } else {
                assert((first.0 + rest.0)[k] == first.0[k]);
            }
        }
    }
}


/// A root of the intermediate representation of assembly: an instruction, a conditional, the
/// labels defined at a location, a node to push, or a directive with its argument, if known.
#[derive(Debug)]
pub enum Root {
    Instruction(Instruction),
    Conditional(Node, Node),
    LabelDefs(Vec<Label>),
    Node(Node),
    Const,
    Data(Option<Node>),
    Dyn(Option<Instruction>),
    Org(Option<Node>),
}

/// Whether a token has a root: it is no macro definition or reference and no `@error`.
pub open spec fn spec_has_root(t: Token) -> bool {
    !(t is MacroDef) && !(t is MacroRef) && !(t is AtError)
}

/// Whether a root is what a token stands for.
pub open spec fn spec_token_root(t: Token, r: Root) -> bool {
    match t {
        Token::LabelDef(label) => r matches Root::LabelDefs(ls) && ls@ == seq![label],
        Token::LabelRef(label) => r == Root::Node(Node::LabelRef(label)),
        _ => r == spec_plain_root(t),
    }
}

/// The root of a token that names no label.
pub open spec fn spec_plain_root(t: Token) -> Root {
    match t {
        Token::AtConst => Root::Const,
        Token::AtData => Root::Data(None),
        Token::AtDyn => Root::Dyn(None),
        Token::AtOrg => Root::Org(None),
        Token::XXX(value) => Root::Node(Node::Value(value)),
        Token::Add => Root::Instruction(Instruction::Add(Size(1))),
        Token::AdS(size) => Root::Instruction(Instruction::Add(size)),
        Token::Sub => Root::Instruction(Instruction::Sub(Size(1))),
        Token::SuS(size) => Root::Instruction(Instruction::Sub(size)),
        Token::Iff => Root::Instruction(Instruction::Iff(Size(1))),
        Token::IfS(size) => Root::Instruction(Instruction::Iff(size)),
        Token::Swp => Root::Instruction(Instruction::Swp(Size(1))),
        Token::SwS(size) => Root::Instruction(Instruction::Swp(size)),
        Token::Rot => Root::Instruction(Instruction::Rot(Size(1))),
        Token::RoS(size) => Root::Instruction(Instruction::Rot(size)),
        Token::Orr => Root::Instruction(Instruction::Orr(Size(1))),
        Token::OrS(size) => Root::Instruction(Instruction::Orr(size)),
        Token::And => Root::Instruction(Instruction::And(Size(1))),
        Token::AnS(size) => Root::Instruction(Instruction::And(size)),
        Token::Xor => Root::Instruction(Instruction::Xor(Size(1))),
        Token::XoS(size) => Root::Instruction(Instruction::Xor(size)),
        Token::Xnd => Root::Instruction(Instruction::Xnd(Size(1))),
        Token::XnS(size) => Root::Instruction(Instruction::Xnd(size)),
        Token::Inc => Root::Instruction(Instruction::Inc),
        Token::Dec => Root::Instruction(Instruction::Dec),
        Token::Neg => Root::Instruction(Instruction::Neg),
        Token::Shl => Root::Instruction(Instruction::Shl),
        Token::Shr => Root::Instruction(Instruction::Shr),
        Token::Not => Root::Instruction(Instruction::Not),
        Token::Buf => Root::Instruction(Instruction::Buf),
        Token::Lda => Root::Instruction(Instruction::Lda),
        Token::Sta => Root::Instruction(Instruction::Sta),
        Token::Ldi => Root::Instruction(Instruction::Ldi),
        Token::Sti => Root::Instruction(Instruction::Sti),
        Token::Lds => Root::Instruction(Instruction::Lds),
        Token::Sts => Root::Instruction(Instruction::Sts),
        Token::Clc => Root::Instruction(Instruction::Clc),
        Token::Sec => Root::Instruction(Instruction::Sec),
        Token::Flc => Root::Instruction(Instruction::Flc),
        Token::Nop => Root::Instruction(Instruction::Nop),
        Token::Pop => Root::Instruction(Instruction::Pop),
        Token::LdO(ofst) => Root::Instruction(Instruction::Ldo(ofst)),
        Token::StO(ofst) => Root::Instruction(Instruction::Sto(ofst)),
        Token::AtDD(value) => if value == 0xBB {
            Root::Instruction(Instruction::Dbg)
        } else {
            Root::Data(Some(Node::Value(value)))
        },
        _ => Root::Const,
    }
}

/// The root a token stands for; a `@dd` of `0xBB` is the debug instruction.
pub fn token_to_root(token: Token) -> (r: Root)
    requires
        spec_has_root(token),
    ensures
        spec_token_root(token, r),
{
    match token {
        Token::LabelDef(label) => {
            let mut labels: Vec<Label> = Vec::new();
            labels.push(label);
            assert(labels@ =~= seq![label]);
            Root::LabelDefs(labels)
        },
        Token::LabelRef(label) => Root::Node(Node::LabelRef(label)),
        Token::AtConst => Root::Const,
        Token::AtData => Root::Data(None),
        Token::AtDyn => Root::Dyn(None),
        Token::AtOrg => Root::Org(None),
        Token::XXX(value) => Root::Node(Node::Value(value)),
        Token::Add => Root::Instruction(Instruction::Add(Size(1))),
        Token::AdS(size) => Root::Instruction(Instruction::Add(size)),
        Token::Sub => Root::Instruction(Instruction::Sub(Size(1))),
        Token::SuS(size) => Root::Instruction(Instruction::Sub(size)),
        Token::Iff => Root::Instruction(Instruction::Iff(Size(1))),
        Token::IfS(size) => Root::Instruction(Instruction::Iff(size)),
        Token::Swp => Root::Instruction(Instruction::Swp(Size(1))),
        Token::SwS(size) => Root::Instruction(Instruction::Swp(size)),
        Token::Rot => Root::Instruction(Instruction::Rot(Size(1))),
        Token::RoS(size) => Root::Instruction(Instruction::Rot(size)),
        Token::Orr => Root::Instruction(Instruction::Orr(Size(1))),
        Token::OrS(size) => Root::Instruction(Instruction::Orr(size)),
        Token::And => Root::Instruction(Instruction::And(Size(1))),
        Token::AnS(size) => Root::Instruction(Instruction::And(size)),
        Token::Xor => Root::Instruction(Instruction::Xor(Size(1))),
        Token::XoS(size) => Root::Instruction(Instruction::Xor(size)),
        Token::Xnd => Root::Instruction(Instruction::Xnd(Size(1))),
        Token::XnS(size) => Root::Instruction(Instruction::Xnd(size)),
        Token::Inc => Root::Instruction(Instruction::Inc),
        Token::Dec => Root::Instruction(Instruction::Dec),
        Token::Neg => Root::Instruction(Instruction::Neg),
        Token::Shl => Root::Instruction(Instruction::Shl),
        Token::Shr => Root::Instruction(Instruction::Shr),
        Token::Not => Root::Instruction(Instruction::Not),
        Token::Buf => Root::Instruction(Instruction::Buf),
        Token::Lda => Root::Instruction(Instruction::Lda),
        Token::Sta => Root::Instruction(Instruction::Sta),
        Token::Ldi => Root::Instruction(Instruction::Ldi),
        Token::Sti => Root::Instruction(Instruction::Sti),
        Token::Lds => Root::Instruction(Instruction::Lds),
        Token::Sts => Root::Instruction(Instruction::Sts),
        Token::Clc => Root::Instruction(Instruction::Clc),
        Token::Sec => Root::Instruction(Instruction::Sec),
        Token::Flc => Root::Instruction(Instruction::Flc),
        Token::Nop => Root::Instruction(Instruction::Nop),
        Token::Pop => Root::Instruction(Instruction::Pop),
        Token::LdO(ofst) => Root::Instruction(Instruction::Ldo(ofst)),
        Token::StO(ofst) => Root::Instruction(Instruction::Sto(ofst)),
        Token::AtDD(value) => if value == 0xBB {
            Root::Instruction(Instruction::Dbg)
        } else {
            Root::Data(Some(Node::Value(value)))
        },
        Token::MacroDef(_) | Token::MacroRef(_) | Token::AtError => Root::Const,
    }
}

/// The roots of tokens, each at the position of its token.
pub fn tokens_to_roots(tokens: &Vec<(Pos, Token)>) -> (r: Vec<(Pos, Root)>)
    requires
        forall|k: int| 0 <= k < tokens@.len() ==> spec_has_root(#[trigger] tokens@[k].1),
    ensures
        r@.len() == tokens@.len(),
        forall|k: int| #![trigger r@[k]] 0 <= k < tokens@.len() ==> r@[k].0 == tokens@[k].0 && spec_token_root(tokens@[k].1, r@[k].1),
{
    let mut out: Vec<(Pos, Root)> = Vec::new();
    let mut i: usize = 0;
    while i < tokens.len()
        invariant
            i <= tokens@.len(),
            out@.len() == i,
            forall|k: int| 0 <= k < tokens@.len() ==> spec_has_root(#[trigger] tokens@[k].1),
            forall|j: int| #![trigger out@[j]] 0 <= j < i ==> out@[j].0 == tokens@[j].0 && spec_token_root(tokens@[j].1, out@[j].1),
        decreases tokens.len() - i,
    {
        let pos = copy_pos(&tokens[i].0);
        let token = copy_token(&tokens[i].1);
        let root = token_to_root(token);
        out.push((pos, root));
        i = i + 1;
    }
    out
}


/// Whether no token of a list is a macro definition.
pub open spec fn spec_no_definitions(tokens: Seq<(Pos, Token)>) -> bool {
    forall|j: int| 0 <= j < tokens.len() ==> !(#[trigger] tokens[j].1 is MacroDef)
}

/// Collecting puts no macro definition into a body.
pub proof fn law_bodies_hold_no_definitions(tokens: Seq<(Pos, Token)>)
    ensures
        forall|k: int| 0 <= k < spec_collect(tokens).0.len() ==> spec_no_definitions(#[trigger] spec_collect(tokens).0[k].1),
    decreases tokens.len(),
{
    if tokens.len() > 0 {
        law_bodies_hold_no_definitions(tokens.drop_last());
        let st = spec_collect(tokens.drop_last());
        let defs = st.0;
        let (pos, token) = tokens.last();
        let next = spec_collect(tokens);
        assert(next == spec_collect_step(st, tokens.last()));
        assert(spec_no_definitions(Seq::<(Pos, Token)>::empty()));
        match token {
            Token::MacroDef(m) => {
                assert forall|k: int| 0 <= k < next.0.len() implies spec_no_definitions(#[trigger] next.0[k].1) by {
                    if k < defs.len() {
                        assert(next.0[k] == defs[k]);
                        assert(spec_no_definitions(defs[k].1));
                    }
                }
            },
            _ => {
                if st.1 is Some && spec_find_view(defs, st.1->Some_0) is Some {
                    let c = spec_find_view(defs, st.1->Some_0)->Some_0;
                    lemma_find_view_first(defs, st.1->Some_0);
                    assert(spec_no_definitions(defs[c].1));
                    let b = defs[c].1.push((pos, token));
                    assert forall|jj: int| 0 <= jj < b.len() implies !(#[trigger] b[jj].1 is MacroDef) by {
                        if jj < defs[c].1.len() {
                            assert(b[jj] == defs[c].1[jj]);
                        }
                    }
                    assert forall|k: int| 0 <= k < next.0.len() implies spec_no_definitions(#[trigger] next.0[k].1) by {
                        if k != c {
                            assert(next.0[k] == defs[k]);
                            assert(spec_no_definitions(defs[k].1));
                        } else {
                            assert(next.0[k].1 == b);
                        }
                    }
                } else {
                    assert forall|k: int| 0 <= k < next.0.len() implies spec_no_definitions(#[trigger] next.0[k].1) by {
                        assert(next.0[k] == defs[k]);
                        assert(spec_no_definitions(defs[k].1));
                    }
                }
            },
        }
    }
}

/// Expanding tokens that hold no macro definition, with bodies that hold none, gives tokens
/// that all have roots.
pub proof fn law_expansion_has_roots(
    defs: Seq<MacroDefinition>,
    tokens: Seq<(Pos, Token)>,
    uid: nat,
    parents: Seq<Seq<char>>,
)
    requires
        spec_no_definitions(tokens),
        forall|k: int| 0 <= k < defs.len() ==> spec_no_definitions(#[trigger] defs[k].1@),
    ensures
        forall|j: int| 0 <= j < spec_expand(defs, tokens, uid, parents).0.len()
            ==> spec_has_root(#[trigger] spec_expand(defs, tokens, uid, parents).0[j].1),
    decreases spec_unvisited(defs, parents), tokens.len(),
{
    if tokens.len() > 0 {
        let (pos, token) = tokens[0];
        assert(!(tokens[0].1 is MacroDef));
        let first = match token {
            Token::MacroRef(m) => if parents.contains(m.0@) {
                (Seq::<(Pos, Token)>::empty(), uid, seq![(pos, spec_self_reference(parents, m.0@))])
            } else {
                match spec_find(defs, m.0@) {
                    None => (Seq::<(Pos, Token)>::empty(), uid + 1, seq![(pos, spec_undefined(m.0@))]),
                    Some(k) => {
                        lemma_find_first(defs, m.0@);
                        lemma_unvisited_decreases(defs, parents, m.0@);
                        let body = spec_scoped_body(defs[k].1@, uid as usize);
                        assert(spec_no_definitions(defs[k].1@));
                        assert forall|j: int| 0 <= j < body.len() implies !(#[trigger] body[j].1 is MacroDef) by {
                            assert(!(defs[k].1@[j].1 is MacroDef));
                        }
                        law_expansion_has_roots(defs, body, uid + 1, parents.push(m.0@));
                        spec_expand(defs, body, uid + 1, parents.push(m.0@))
                    },
                }
            },
            Token::AtError => (Seq::<(Pos, Token)>::empty(), uid, seq![(pos, spec_error_directive())]),
            _ => (seq![(pos, token)], uid, Seq::<(Pos, Seq<char>)>::empty()),
        };
        let rest = tokens.drop_first();
        assert forall|j: int| 0 <= j < rest.len() implies !(#[trigger] rest[j].1 is MacroDef) by {
            assert(!(tokens[j + 1].1 is MacroDef));
        }
        law_expansion_has_roots(defs, rest, first.1, parents);
        let after = spec_expand(defs, rest, first.1, parents);
        assert(spec_expand(defs, tokens, uid, parents).0 == first.0 + after.0);
        assert forall|j: int| 0 <= j < (first.0 + after.0).len() implies spec_has_root(#[trigger] (first.0 + after.0)[j].1) by {
            if j >= first.0.len() {
                assert((first.0 + after.0)[j] == after.0[j - first.0.len()]);
            } else {
                assert((first.0 + after.0)[j] == first.0[j]);
            }
        }
    }
}

/// Expanding the entry macro of collected definitions gives tokens that all have roots, so
/// they can all be turned into roots.
pub proof fn law_collected_expansion_has_roots(
    tokens: Seq<(Pos, Token)>,
    defs: Seq<MacroDefinition>,
    entry: (Pos, Token),
)
    requires
        spec_def_views(defs) == spec_collect(tokens).0,
        entry.1 is MacroRef,
    ensures
        forall|j: int| 0 <= j < spec_expand(defs, seq![entry], 0, Seq::empty()).0.len()
            ==> spec_has_root(#[trigger] spec_expand(defs, seq![entry], 0, Seq::empty()).0[j].1),
{
    law_bodies_hold_no_definitions(tokens);
    assert forall|k: int| 0 <= k < defs.len() implies spec_no_definitions(#[trigger] defs[k].1@) by {
        assert(spec_def_views(defs)[k] == (defs[k].0.0@, defs[k].1@));
        assert(spec_no_definitions(spec_collect(tokens).0[k].1));
    }
    assert(spec_no_definitions(seq![entry]));
    law_expansion_has_roots(defs, seq![entry], 0, Seq::empty());
}

} // verus!
