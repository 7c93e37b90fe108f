//! How a C type is written in messages: the base type first, then array, pointer and parameter
//! suffixes.

use vstd::prelude::*;
use crate::cc::ast::{Object, Type};
use crate::text::{push_str, string_from_chars};

verus! {

/// The text of a type.
pub open spec fn spec_type_text(t: Type) -> Seq<char>
    decreases t,
{
    match t {
        Type::Void => "void"@,
        Type::Bool => "_Bool"@,
        Type::Char => "char"@,
        Type::SignedChar => "signed char"@,
        Type::UnsignedChar => "unsigned char"@,
        Type::Short => "short"@,
        Type::UnsignedShort => "unsigned short"@,
        Type::Int => "int"@,
        Type::UnsignedInt => "unsigned int"@,
        Type::Long => "long"@,
        Type::UnsignedLong => "unsigned long"@,
        Type::LongLong => "long long"@,
        Type::UnsignedLongLong => "unsigned long long"@,
        Type::Array(e) => spec_type_text(*e) + " []"@,
        Type::Structure(os) => "struct { "@ + spec_objects_text(os@) + " }"@,
        Type::Union(os) => "union { "@ + spec_objects_text(os@) + " }"@,
        Type::Enumeration(cs) => "enum { "@ + spec_names_text(cs@) + " }"@,
        Type::Macro(r, name, ps, v) => spec_type_text(*r) + " "@ + name@ + "("@ + (if ps@.len() == 0 {
            "void"@
        } else {
            spec_types_text(ps@)
        }) + spec_variadic_text(v) + ")"@,
        Type::Function(r, ps, v) => spec_type_text(*r) + "("@ + (if ps@.len() == 0 {
            "void"@
        } else {
            spec_types_text(ps@)
        }) + spec_variadic_text(v) + ")"@,
        Type::Pointer(e) => spec_type_text(*e) + " *"@,
    }
}

/// Objects as `type name`, separated by commas.
pub open spec fn spec_objects_text(os: Seq<Object>) -> Seq<char>
    decreases os,
{
    if os.len() == 0 {
        Seq::empty()
    } else {
        let rest = os.drop_first();
        let first = spec_type_text(os[0].0) + " "@ + os[0].1@;
        if rest.len() == 0 {
            first
        } else {
            first + ", "@ + spec_objects_text(rest)
        }
    }
}

/// Types separated by commas.
pub open spec fn spec_types_text(ts: Seq<Type>) -> Seq<char>
    decreases ts,
{
    if ts.len() == 0 {
        Seq::empty()
    } else {
        let rest = ts.drop_first();
        if rest.len() == 0 {
            spec_type_text(ts[0])
        } else {
            spec_type_text(ts[0]) + ", "@ + spec_types_text(rest)
        }
    }
}

/// Names separated by commas.
pub open spec fn spec_names_text(cs: Seq<String>) -> Seq<char>
    decreases cs.len(),
{
    if cs.len() == 0 {
        Seq::empty()
    } else if cs.len() == 1 {
        cs[0]@
    } else {
        cs[0]@ + ", "@ + spec_names_text(cs.drop_first())
    }
}

/// The mark of a variadic parameter list.
pub open spec fn spec_variadic_text(variadic: bool) -> Seq<char> {
    if variadic { ", ..."@ } else { Seq::empty() }
}

fn push_type(out: &mut Vec<char>, t: &Type)
    ensures
        final(out)@ == old(out)@ + spec_type_text(*t),
    decreases t,
{
    match t {
        Type::Void => push_str(out, "void"),
        Type::Bool => push_str(out, "_Bool"),
        Type::Char => push_str(out, "char"),
        Type::SignedChar => push_str(out, "signed char"),
        Type::UnsignedChar => push_str(out, "unsigned char"),
        Type::Short => push_str(out, "short"),
        Type::UnsignedShort => push_str(out, "unsigned short"),
        Type::Int => push_str(out, "int"),
        Type::UnsignedInt => push_str(out, "unsigned int"),
        Type::Long => push_str(out, "long"),
        Type::UnsignedLong => push_str(out, "unsigned long"),
        Type::LongLong => push_str(out, "long long"),
        Type::UnsignedLongLong => push_str(out, "unsigned long long"),
        Type::Array(e) => {
            let ghost o = out@;
            push_type(out, e);
            push_str(out, " []");
            assert(out@ =~= o + spec_type_text(*t));
        },
        Type::Pointer(e) => {
            let ghost o = out@;
            push_type(out, e);
            push_str(out, " *");
            assert(out@ =~= o + spec_type_text(*t));
        },
        Type::Structure(os) => {
            let ghost o = out@;
            push_str(out, "struct { ");
            push_objects(out, os);
            push_str(out, " }");
            assert(out@ =~= o + spec_type_text(*t));
        },
        Type::Union(os) => {
            let ghost o = out@;
            push_str(out, "union { ");
            push_objects(out, os);
            push_str(out, " }");
            assert(out@ =~= o + spec_type_text(*t));
        },
        Type::Enumeration(cs) => {
            let ghost o = out@;
            push_str(out, "enum { ");
            push_names(out, cs);
            push_str(out, " }");
            assert(out@ =~= o + spec_type_text(*t));
        },
        Type::Macro(r, name, ps, v) => {
            let ghost o = out@;
            push_type(out, r);
            push_str(out, " ");
            push_str(out, name.as_str());
            push_str(out, "(");
            let ghost o1 = out@;
            if ps.len() == 0 {
                push_str(out, "void");
            } else {
                push_types(out, ps);
            }
            let ghost o2 = out@;
            assert(o2 == o1 + (if ps@.len() == 0 { "void"@ } else { spec_types_text(ps@) }));
            if *v {
                push_str(out, ", ...");
            }
            assert(out@ =~= o2 + spec_variadic_text(*v));
            push_str(out, ")");
            assert(out@ =~= o + spec_type_text(*t));
        },
        Type::Function(r, ps, v) => {
            let ghost o = out@;
            push_type(out, r);
            push_str(out, "(");
            let ghost o1 = out@;
            if ps.len() == 0 {
                push_str(out, "void");
            } else {
                push_types(out, ps);
            }
            let ghost o2 = out@;
            assert(o2 == o1 + (if ps@.len() == 0 { "void"@ } else { spec_types_text(ps@) }));
            if *v {
                push_str(out, ", ...");
            }
            assert(out@ =~= o2 + spec_variadic_text(*v));
            push_str(out, ")");
            assert(out@ =~= o + spec_type_text(*t));
        },
    }
}

fn push_objects(out: &mut Vec<char>, os: &Vec<Object>)
    ensures
        final(out)@ == old(out)@ + spec_objects_text(os@),
    decreases os,
{
    let ghost o = out@;
    let mut i: usize = 0;
    proof {
        assert(os@.subrange(0, os.len() as int) =~= os@);
    }
    while i < os.len()
        invariant
            i <= os.len(),
            out@ + spec_objects_text(os@.subrange(i as int, os.len() as int)) == o + spec_objects_text(os@),
        decreases os.len() - i,
    {
        let ghost before = out@;
        let ghost rest = os@.subrange(i as int, os.len() as int);
        assert(rest.drop_first() =~= os@.subrange(i + 1, os.len() as int));
        assert(decreases_to!(os => os@));
        assert(decreases_to!(os@ => os@[i as int]));
        assert(decreases_to!(os@[i as int] => os@[i as int].0));
        push_type(out, &os[i].0);
        push_str(out, " ");
        push_str(out, os[i].1.as_str());
        if i + 1 < os.len() {
            push_str(out, ", ");
        }
        i = i + 1;
        assert(out@ + spec_objects_text(os@.subrange(i as int, os.len() as int)) =~= before + spec_objects_text(rest));
    }
    assert(os@.subrange(i as int, os.len() as int) =~= Seq::<Object>::empty());
    assert(out@ =~= out@ + spec_objects_text(os@.subrange(i as int, os.len() as int)));
}

fn push_names(out: &mut Vec<char>, cs: &Vec<String>)
    ensures
        final(out)@ == old(out)@ + spec_names_text(cs@),
{
    let ghost o = out@;
    let mut i: usize = 0;
    proof {
        assert(cs@.subrange(0, cs.len() as int) =~= cs@);
    }
    while i < cs.len()
        invariant
            i <= cs.len(),
            out@ + spec_names_text(cs@.subrange(i as int, cs.len() as int)) == o + spec_names_text(cs@),
        decreases cs.len() - i,
    {
        let ghost before = out@;
        let ghost rest = cs@.subrange(i as int, cs.len() as int);
        assert(rest.drop_first() =~= cs@.subrange(i + 1, cs.len() as int));
        push_str(out, cs[i].as_str());
        if i + 1 < cs.len() {
            push_str(out, ", ");
        }
        i = i + 1;
        assert(out@ + spec_names_text(cs@.subrange(i as int, cs.len() as int)) =~= before + spec_names_text(rest));
    }
    assert(cs@.subrange(i as int, cs.len() as int) =~= Seq::<String>::empty());
    assert(out@ =~= out@ + spec_names_text(cs@.subrange(i as int, cs.len() as int)));
}

fn push_types(out: &mut Vec<char>, ts: &Vec<Type>)
    ensures
        final(out)@ == old(out)@ + spec_types_text(ts@),
    decreases ts,
{
    let ghost o = out@;
    let mut i: usize = 0;
    proof {
        assert(ts@.subrange(0, ts.len() as int) =~= ts@);
    }
    while i < ts.len()
        invariant
            i <= ts.len(),
            out@ + spec_types_text(ts@.subrange(i as int, ts.len() as int)) == o + spec_types_text(ts@),
        decreases ts.len() - i,
    {
        let ghost before = out@;
        let ghost rest = ts@.subrange(i as int, ts.len() as int);
        assert(rest.drop_first() =~= ts@.subrange(i + 1, ts.len() as int));
        assert(decreases_to!(ts => ts@));
        assert(decreases_to!(ts@ => ts@[i as int]));
        push_type(out, &ts[i]);
        if i + 1 < ts.len() {
            push_str(out, ", ");
        }
        i = i + 1;
        assert(out@ + spec_types_text(ts@.subrange(i as int, ts.len() as int)) =~= before + spec_types_text(rest));
    }
    assert(ts@.subrange(i as int, ts.len() as int) =~= Seq::<Type>::empty());
    assert(out@ =~= out@ + spec_types_text(ts@.subrange(i as int, ts.len() as int)));
}

impl Type {
    /// The type as messages write it, such as `int *` or `char(void)`.
    pub fn to_string(&self) -> (r: String)
        ensures
            r@ == spec_type_text(*self),
    {
        let mut out: Vec<char> = Vec::new();
        push_type(&mut out, self);
        string_from_chars(&out)
    }
}

} // verus!
