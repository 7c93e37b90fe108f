//! The abstract syntax tree of C programs, and the typed intermediate representation.

use vstd::prelude::*;

verus! {

/// A named object: its type and its name.
#[derive(Debug)]
pub struct Object(pub Type, pub String);

/// A C type.
#[derive(Debug)]
pub enum Type {
    Void,
    Bool,
    Char,
    SignedChar,
    UnsignedChar,
    Short,
    UnsignedShort,
    Int,
    UnsignedInt,
    Long,
    UnsignedLong,
    LongLong,
    UnsignedLongLong,
    Array(Box<Type>),
    Structure(Vec<Object>),
    Union(Vec<Object>),
    Enumeration(Vec<String>),
    /// Return type, name, parameter types, whether variadic.
    Macro(Box<Type>, String, Vec<Type>, bool),
    /// Return type, parameter types, whether variadic.
    Function(Box<Type>, Vec<Type>, bool),
    Pointer(Box<Type>),
}

/// A translation unit.
#[derive(Debug)]
pub struct Program(pub Vec<Global>);

/// A declaration or definition at file scope.
#[derive(Debug)]
pub enum Global {
    /// Whether inline, the function, its parameters, whether variadic.
    FunctionDeclaration(bool, Object, Vec<Object>, bool),
    /// Whether inline, the function, its parameters, whether variadic, its body.
    FunctionDefinition(bool, Object, Vec<Object>, bool, Statement),
    GlobalDeclaration(Object),
    GlobalDefinition(Object, Expression),
    GlobalAssembly(String),
}

/// A C expression.
#[derive(Debug)]
pub enum Expression {
    AddressOf(Box<Expression>),
    Dereference(Box<Expression>),
    Positive(Box<Expression>),
    Negation(Box<Expression>),
    LogicalNegation(Box<Expression>),
    BitwiseComplement(Box<Expression>),
    Addition(Box<Expression>, Box<Expression>),
    Subtraction(Box<Expression>, Box<Expression>),
    Multiplication(Box<Expression>, Box<Expression>),
    Division(Box<Expression>, Box<Expression>),
    Modulo(Box<Expression>, Box<Expression>),
    LogicalAnd(Box<Expression>, Box<Expression>),
    LogicalOr(Box<Expression>, Box<Expression>),
    BitwiseAnd(Box<Expression>, Box<Expression>),
    BitwiseExclusiveOr(Box<Expression>, Box<Expression>),
    BitwiseInclusiveOr(Box<Expression>, Box<Expression>),
    LeftShift(Box<Expression>, Box<Expression>),
    RightShift(Box<Expression>, Box<Expression>),
    EqualTo(Box<Expression>, Box<Expression>),
    NotEqualTo(Box<Expression>, Box<Expression>),
    LessThan(Box<Expression>, Box<Expression>),
    LessThanOrEqualTo(Box<Expression>, Box<Expression>),
    GreaterThan(Box<Expression>, Box<Expression>),
    GreaterThanOrEqualTo(Box<Expression>, Box<Expression>),
    Conditional(Box<Expression>, Box<Expression>, Box<Expression>),
    Comma(Box<Expression>, Box<Expression>),
    Cast(Type, Box<Expression>),
    IntegerConstant(u8),
    CharacterConstant(char),
    StringLiteral(String),
    Identifier(String),
    Subscript(Box<Expression>, Box<Expression>),
    FunctionCall(Box<Expression>, Vec<Expression>),
}

/// A C statement.
#[derive(Debug)]
pub enum Statement {
    /// An expression statement; `None` for the null statement.
    Expression(Option<Expression>),
    Compound(Vec<Statement>),
    /// Condition, body, else body.
    If(Expression, Box<Statement>, Option<Box<Statement>>),
    /// Condition, body, whether a do-while loop.
    While(Expression, Box<Statement>, bool),
    Break,
    Continue,
    Return(Option<Expression>),
    Declaration(Object, Option<Expression>),
    Assembly(String),
}

/// A typed program.
#[derive(Debug)]
pub struct TypedProgram(pub Vec<TypedGlobal>);

/// A typed global.
#[derive(Debug)]
pub enum TypedGlobal {
    Data(String, Vec<TypedExpression>),
    /// Label, body, return template.
    Macro(String, TypedStatement, TypedStatement),
    /// Label, body, return template.
    Function(String, TypedStatement, TypedStatement),
    Assembly(String),
}

/// A typed expression; the prefix of a variant gives the width of its value (`N0` none, `N1` a
/// bit, `N8` a byte).
#[derive(Debug)]
pub enum TypedExpression {
    N1DereferenceN8(Box<TypedExpression>),
    N8DereferenceN8(Box<TypedExpression>),
    N1BitwiseComplement(Box<TypedExpression>),
    N8BitwiseComplement(Box<TypedExpression>),
    N8Addition(Box<TypedExpression>, Box<TypedExpression>),
    N8Subtraction(Box<TypedExpression>, Box<TypedExpression>),
    N8Multiplication(Box<TypedExpression>, Box<TypedExpression>),
    U8Division(Box<TypedExpression>, Box<TypedExpression>),
    U8Modulo(Box<TypedExpression>, Box<TypedExpression>),
    N8BitwiseAnd(Box<TypedExpression>, Box<TypedExpression>),
    N8BitwiseInclusiveOr(Box<TypedExpression>, Box<TypedExpression>),
    N8BitwiseExclusiveOr(Box<TypedExpression>, Box<TypedExpression>),
    N1EqualToN8(Box<TypedExpression>, Box<TypedExpression>),
    N1LessThanU8(Box<TypedExpression>, Box<TypedExpression>),
    N1LessThanI8(Box<TypedExpression>, Box<TypedExpression>),
    N0SecondN0N0(Box<TypedExpression>, Box<TypedExpression>),
    N1SecondN0N1(Box<TypedExpression>, Box<TypedExpression>),
    N8SecondN0N8(Box<TypedExpression>, Box<TypedExpression>),
    N0CastN1(Box<TypedExpression>),
    N0CastN8(Box<TypedExpression>),
    N1CastN8(Box<TypedExpression>),
    N8CastN1(Box<TypedExpression>),
    N0Constant,
    N1Constant(bool),
    N8Constant(u8),
    /// Offset from the last local.
    N8LoadLocal(usize),
    /// Offset from the last local.
    N8AddrLocal(usize),
    N8LoadGlobal(String),
    N8AddrGlobal(String),
    N0MacroCall(String, Vec<TypedExpression>),
    N1MacroCall(String, Vec<TypedExpression>),
    N8MacroCall(String, Vec<TypedExpression>),
    N0FunctionCall(Box<TypedExpression>, Vec<TypedExpression>),
    N1FunctionCall(Box<TypedExpression>, Vec<TypedExpression>),
    N8FunctionCall(Box<TypedExpression>, Vec<TypedExpression>),
}

/// A typed statement.
#[derive(Debug)]
pub enum TypedStatement {
    ExpressionN0(TypedExpression),
    Compound(Vec<TypedStatement>),
    /// Label, condition, body, else body.
    IfN1(String, TypedExpression, Box<TypedStatement>, Option<Box<TypedStatement>>),
    /// Label, condition, body, whether a do-while loop.
    WhileN1(String, TypedExpression, Box<TypedStatement>, bool),
    /// Label, size of the locals.
    Break(String, usize),
    /// Label, size of the locals.
    Continue(String, usize),
    /// Size of the parameters, size of the locals, return value.
    MacroReturnN0(usize, usize, Option<TypedExpression>),
    MacroReturnN1(usize, usize, Option<TypedExpression>),
    MacroReturnN8(usize, usize, Option<TypedExpression>),
    FunctionReturnN0(usize, usize, Option<TypedExpression>),
    FunctionReturnN1(usize, usize, Option<TypedExpression>),
    FunctionReturnN8(usize, usize, Option<TypedExpression>),
    InitLocalN0(Option<TypedExpression>),
    InitLocalN1(Option<TypedExpression>),
    InitLocalN8(Option<TypedExpression>),
    UninitLocalN0,
    UninitLocalN1,
    UninitLocalN8,
    Assembly(String),
}

/// The range of values of a scalar type.
#[derive(Clone, Copy, PartialEq, Eq, Debug, Structural)]
pub enum Range {
    U0,
    I0,
    U1,
    I1,
    U8,
    I8,
    U16,
    I16,
    U32,
    I32,
}

/// The size in bytes of a type, where it is defined: arrays, functions and macros have none.
pub open spec fn spec_type_size(t: Type) -> Option<nat>
    decreases t,
{
    match t {
        Type::Void => Some(0),
        Type::Bool | Type::Char | Type::SignedChar | Type::UnsignedChar | Type::Short
        | Type::UnsignedShort | Type::Int | Type::UnsignedInt => Some(1),
        Type::Long | Type::UnsignedLong | Type::UnsignedLongLong => Some(2),
        Type::LongLong => Some(4),
        Type::Array(_) | Type::Function(_, _, _) | Type::Macro(_, _, _, _) => None,
        Type::Structure(objects) => spec_sizes_sum(objects@),
        Type::Union(objects) => spec_sizes_max(objects@),
        Type::Enumeration(_) => Some(1),
        Type::Pointer(_) => Some(1),
    }
}

/// The sum of the sizes of objects, where all are defined.
pub open spec fn spec_sizes_sum(objects: Seq<Object>) -> Option<nat>
    decreases objects,
{
    if objects.len() == 0 {
        Some(0)
    } else {
        match (spec_sizes_sum(objects.subrange(0, objects.len() - 1)), spec_type_size(objects.last().0)) {
            (Some(a), Some(b)) => Some(a + b),
            _ => None,
        }
    }
}

/// The greatest size of objects (zero for none), where all are defined.
pub open spec fn spec_sizes_max(objects: Seq<Object>) -> Option<nat>
    decreases objects,
{
    if objects.len() == 0 {
        Some(0)
    } else {
        match (spec_sizes_max(objects.subrange(0, objects.len() - 1)), spec_type_size(objects.last().0)) {
            (Some(a), Some(b)) => Some(if a < b { b } else { a }),
            _ => None,
        }
    }
}

proof fn lemma_sizes_prefix(s: Seq<Object>, i: int)
    requires
        0 <= i <= s.len(),
        spec_sizes_sum(s) is Some,
        spec_sizes_max(s) is Some,
    ensures
        spec_sizes_sum(s.subrange(0, i)) is Some,
        spec_sizes_sum(s.subrange(0, i))->0 <= spec_sizes_sum(s)->0,
        spec_sizes_max(s.subrange(0, i)) is Some,
        spec_sizes_max(s.subrange(0, i))->0 <= spec_sizes_max(s)->0,
        i < s.len() ==> spec_type_size(s[i].0) is Some,
        i < s.len() ==> spec_type_size(s[i].0)->0 <= spec_sizes_max(s)->0,
    decreases s.len() - i,
{
    if i == s.len() {
        assert(s.subrange(0, i) == s);
    } else {
        lemma_sizes_prefix(s, i + 1);
        let t = s.subrange(0, i + 1);
        assert(t.subrange(0, t.len() - 1) == s.subrange(0, i));
        assert(t.last() == s[i]);
    }
}

proof fn lemma_sizes_both(s: Seq<Object>)
    ensures
        spec_sizes_sum(s) is Some <==> spec_sizes_max(s) is Some,
    decreases s.len(),
{
    if s.len() > 0 {
        lemma_sizes_both(s.subrange(0, s.len() - 1));
    }
}

impl Type {
    /// The size of the type in bytes. Arrays, functions and macros have no size here.
    pub fn size(&self) -> (r: usize)
        requires
            spec_type_size(*self) matches Some(n) && n <= usize::MAX,
        ensures
            spec_type_size(*self) == Some(r as nat),
        decreases self,
    {
        match self {
            Type::Void => 0,
            Type::Bool | Type::Char | Type::SignedChar | Type::UnsignedChar | Type::Short
            | Type::UnsignedShort | Type::Int | Type::UnsignedInt => 1,
            Type::Long | Type::UnsignedLong | Type::UnsignedLongLong => 2,
            Type::LongLong => 4,
            Type::Structure(declarators) => {
                proof {
                    lemma_sizes_both(declarators@);
                }
                let mut sum: usize = 0;
                let mut i: usize = 0;
                while i < declarators.len()
                    invariant
                        i <= declarators.len(),
                        spec_type_size(*self) == spec_sizes_sum(declarators@),
                        *self == Type::Structure(*declarators),
                        spec_sizes_sum(declarators@) matches Some(n) && n <= usize::MAX,
                        spec_sizes_max(declarators@) is Some,
                        spec_sizes_sum(declarators@.subrange(0, i as int)) == Some(sum as nat),
                    decreases declarators.len() - i,
                {
                    proof {
                        lemma_sizes_prefix(declarators@, i as int);
                        lemma_sizes_prefix(declarators@, i + 1);
                        let t = declarators@.subrange(0, i + 1);
                        assert(t.subrange(0, t.len() - 1) == declarators@.subrange(0, i as int));
                        assert(decreases_to!(*self => declarators@[i as int]));
                    }
                    let n = declarators[i].size();
                    sum = sum + n;
                    i = i + 1;
                }
                assert(declarators@.subrange(0, declarators.len() as int) == declarators@);
                sum
            },
            Type::Union(declarators) => {
                proof {
                    lemma_sizes_both(declarators@);
                }
                let mut max: usize = 0;
                let mut i: usize = 0;
                while i < declarators.len()
                    invariant
                        i <= declarators.len(),
                        spec_type_size(*self) == spec_sizes_max(declarators@),
                        *self == Type::Union(*declarators),
                        spec_sizes_max(declarators@) matches Some(n) && n <= usize::MAX,
                        spec_sizes_sum(declarators@) is Some,
                        spec_sizes_max(declarators@.subrange(0, i as int)) == Some(max as nat),
                    decreases declarators.len() - i,
                {
                    proof {
                        lemma_sizes_prefix(declarators@, i as int);
                        let t = declarators@.subrange(0, i + 1);
                        assert(t.subrange(0, t.len() - 1) == declarators@.subrange(0, i as int));
                        assert(decreases_to!(*self => declarators@[i as int]));
                    }
                    let n = declarators[i].size();
                    if max < n {
                        max = n;
                    }
                    i = i + 1;
                }
                assert(declarators@.subrange(0, declarators.len() as int) == declarators@);
                max
            },
            Type::Enumeration(_) => 1,
            Type::Pointer(_) => 1,
            _ => 0,
        }
    }

    /// The range of values of a scalar type.
    pub fn range(&self) -> (r: Range)
        requires
            spec_type_range(*self) is Some,
        ensures
            spec_type_range(*self) == Some(r),
    {
        match self {
            Type::Void => Range::U0,
            Type::Bool => Range::U1,
            Type::Char => Range::U8,
            Type::SignedChar => Range::I8,
            Type::UnsignedChar => Range::U8,
            Type::Short => Range::I8,
            Type::UnsignedShort => Range::U8,
            Type::Int => Range::I8,
            Type::UnsignedInt => Range::U8,
            Type::Long => Range::I16,
            Type::UnsignedLong => Range::U16,
            Type::LongLong => Range::I32,
            Type::UnsignedLongLong => Range::U32,
            Type::Enumeration(_) => Range::I8,
            _ => Range::U8,
        }
    }
}

/// The range of values of a scalar type; aggregates, functions and macros have none.
pub open spec fn spec_type_range(t: Type) -> Option<Range> {
    match t {
        Type::Void => Some(Range::U0),
        Type::Bool => Some(Range::U1),
        Type::Char => Some(Range::U8),
        Type::SignedChar => Some(Range::I8),
        Type::UnsignedChar => Some(Range::U8),
        Type::Short => Some(Range::I8),
        Type::UnsignedShort => Some(Range::U8),
        Type::Int => Some(Range::I8),
        Type::UnsignedInt => Some(Range::U8),
        Type::Long => Some(Range::I16),
        Type::UnsignedLong => Some(Range::U16),
        Type::LongLong => Some(Range::I32),
        Type::UnsignedLongLong => Some(Range::U32),
        Type::Enumeration(_) => Some(Range::I8),
        Type::Pointer(_) => Some(Range::U8),
        _ => None,
    }
}

impl Object {
    /// The size of the object's type in bytes.
    pub fn size(&self) -> (r: usize)
        requires
            spec_type_size(self.0) matches Some(n) && n <= usize::MAX,
        ensures
            spec_type_size(self.0) == Some(r as nat),
        decreases self,
    {
        self.0.size()
    }
}

/// A typed expression with its names taken as characters and its arguments as sequences.
pub enum TypedExpressionView {
    N1DereferenceN8(Box<TypedExpressionView>),
    N8DereferenceN8(Box<TypedExpressionView>),
    N1BitwiseComplement(Box<TypedExpressionView>),
    N8BitwiseComplement(Box<TypedExpressionView>),
    N8Addition(Box<TypedExpressionView>, Box<TypedExpressionView>),
    N8Subtraction(Box<TypedExpressionView>, Box<TypedExpressionView>),
    N8Multiplication(Box<TypedExpressionView>, Box<TypedExpressionView>),
    U8Division(Box<TypedExpressionView>, Box<TypedExpressionView>),
    U8Modulo(Box<TypedExpressionView>, Box<TypedExpressionView>),
    N8BitwiseAnd(Box<TypedExpressionView>, Box<TypedExpressionView>),
    N8BitwiseInclusiveOr(Box<TypedExpressionView>, Box<TypedExpressionView>),
    N8BitwiseExclusiveOr(Box<TypedExpressionView>, Box<TypedExpressionView>),
    N1EqualToN8(Box<TypedExpressionView>, Box<TypedExpressionView>),
    N1LessThanU8(Box<TypedExpressionView>, Box<TypedExpressionView>),
    N1LessThanI8(Box<TypedExpressionView>, Box<TypedExpressionView>),
    N0SecondN0N0(Box<TypedExpressionView>, Box<TypedExpressionView>),
    N1SecondN0N1(Box<TypedExpressionView>, Box<TypedExpressionView>),
    N8SecondN0N8(Box<TypedExpressionView>, Box<TypedExpressionView>),
    N0CastN1(Box<TypedExpressionView>),
    N0CastN8(Box<TypedExpressionView>),
    N1CastN8(Box<TypedExpressionView>),
    N8CastN1(Box<TypedExpressionView>),
    N0Constant,
    N1Constant(bool),
    N8Constant(u8),
    N8LoadLocal(usize),
    N8AddrLocal(usize),
    N8LoadGlobal(Seq<char>),
    N8AddrGlobal(Seq<char>),
    N0MacroCall(Seq<char>, Seq<TypedExpressionView>),
    N1MacroCall(Seq<char>, Seq<TypedExpressionView>),
    N8MacroCall(Seq<char>, Seq<TypedExpressionView>),
    N0FunctionCall(Box<TypedExpressionView>, Seq<TypedExpressionView>),
    N1FunctionCall(Box<TypedExpressionView>, Seq<TypedExpressionView>),
    N8FunctionCall(Box<TypedExpressionView>, Seq<TypedExpressionView>),
}

/// The view of a typed expression.
pub open spec fn spec_expression_view(e: TypedExpression) -> TypedExpressionView
    decreases e,
{
    match e {
        TypedExpression::N1DereferenceN8(x) => TypedExpressionView::N1DereferenceN8(Box::new(spec_expression_view(*x))),
        TypedExpression::N8DereferenceN8(x) => TypedExpressionView::N8DereferenceN8(Box::new(spec_expression_view(*x))),
        TypedExpression::N1BitwiseComplement(x) => TypedExpressionView::N1BitwiseComplement(Box::new(spec_expression_view(*x))),
        TypedExpression::N8BitwiseComplement(x) => TypedExpressionView::N8BitwiseComplement(Box::new(spec_expression_view(*x))),
        TypedExpression::N8Addition(a, b) => TypedExpressionView::N8Addition(Box::new(spec_expression_view(*a)), Box::new(spec_expression_view(*b))),
        TypedExpression::N8Subtraction(a, b) => TypedExpressionView::N8Subtraction(Box::new(spec_expression_view(*a)), Box::new(spec_expression_view(*b))),
        TypedExpression::N8Multiplication(a, b) => TypedExpressionView::N8Multiplication(Box::new(spec_expression_view(*a)), Box::new(spec_expression_view(*b))),
        TypedExpression::U8Division(a, b) => TypedExpressionView::U8Division(Box::new(spec_expression_view(*a)), Box::new(spec_expression_view(*b))),
        TypedExpression::U8Modulo(a, b) => TypedExpressionView::U8Modulo(Box::new(spec_expression_view(*a)), Box::new(spec_expression_view(*b))),
        TypedExpression::N8BitwiseAnd(a, b) => TypedExpressionView::N8BitwiseAnd(Box::new(spec_expression_view(*a)), Box::new(spec_expression_view(*b))),
        TypedExpression::N8BitwiseInclusiveOr(a, b) => TypedExpressionView::N8BitwiseInclusiveOr(Box::new(spec_expression_view(*a)), Box::new(spec_expression_view(*b))),
        TypedExpression::N8BitwiseExclusiveOr(a, b) => TypedExpressionView::N8BitwiseExclusiveOr(Box::new(spec_expression_view(*a)), Box::new(spec_expression_view(*b))),
        TypedExpression::N1EqualToN8(a, b) => TypedExpressionView::N1EqualToN8(Box::new(spec_expression_view(*a)), Box::new(spec_expression_view(*b))),
        TypedExpression::N1LessThanU8(a, b) => TypedExpressionView::N1LessThanU8(Box::new(spec_expression_view(*a)), Box::new(spec_expression_view(*b))),
        TypedExpression::N1LessThanI8(a, b) => TypedExpressionView::N1LessThanI8(Box::new(spec_expression_view(*a)), Box::new(spec_expression_view(*b))),
        TypedExpression::N0SecondN0N0(a, b) => TypedExpressionView::N0SecondN0N0(Box::new(spec_expression_view(*a)), Box::new(spec_expression_view(*b))),
        TypedExpression::N1SecondN0N1(a, b) => TypedExpressionView::N1SecondN0N1(Box::new(spec_expression_view(*a)), Box::new(spec_expression_view(*b))),
        TypedExpression::N8SecondN0N8(a, b) => TypedExpressionView::N8SecondN0N8(Box::new(spec_expression_view(*a)), Box::new(spec_expression_view(*b))),
        TypedExpression::N0CastN1(x) => TypedExpressionView::N0CastN1(Box::new(spec_expression_view(*x))),
        TypedExpression::N0CastN8(x) => TypedExpressionView::N0CastN8(Box::new(spec_expression_view(*x))),
        TypedExpression::N1CastN8(x) => TypedExpressionView::N1CastN8(Box::new(spec_expression_view(*x))),
        TypedExpression::N8CastN1(x) => TypedExpressionView::N8CastN1(Box::new(spec_expression_view(*x))),
        TypedExpression::N0Constant => TypedExpressionView::N0Constant,
        TypedExpression::N1Constant(c) => TypedExpressionView::N1Constant(c),
        TypedExpression::N8Constant(c) => TypedExpressionView::N8Constant(c),
        TypedExpression::N8LoadLocal(o) => TypedExpressionView::N8LoadLocal(o),
        TypedExpression::N8AddrLocal(o) => TypedExpressionView::N8AddrLocal(o),
        TypedExpression::N8LoadGlobal(l) => TypedExpressionView::N8LoadGlobal(l@),
        TypedExpression::N8AddrGlobal(l) => TypedExpressionView::N8AddrGlobal(l@),
        TypedExpression::N0MacroCall(l, args) => TypedExpressionView::N0MacroCall(l@, spec_arguments_view(args@)),
        TypedExpression::N1MacroCall(l, args) => TypedExpressionView::N1MacroCall(l@, spec_arguments_view(args@)),
        TypedExpression::N8MacroCall(l, args) => TypedExpressionView::N8MacroCall(l@, spec_arguments_view(args@)),
        TypedExpression::N0FunctionCall(d, args) => TypedExpressionView::N0FunctionCall(Box::new(spec_expression_view(*d)), spec_arguments_view(args@)),
        TypedExpression::N1FunctionCall(d, args) => TypedExpressionView::N1FunctionCall(Box::new(spec_expression_view(*d)), spec_arguments_view(args@)),
        TypedExpression::N8FunctionCall(d, args) => TypedExpressionView::N8FunctionCall(Box::new(spec_expression_view(*d)), spec_arguments_view(args@)),
    }
}

/// The views of arguments.
pub open spec fn spec_arguments_view(args: Seq<TypedExpression>) -> Seq<TypedExpressionView>
    decreases args,
{
    if args.len() == 0 {
        Seq::empty()
    } else {
        spec_arguments_view(args.subrange(0, args.len() - 1)).push(spec_expression_view(args.last()))
    }
}

impl View for TypedExpression {
    type V = TypedExpressionView;

    open spec fn view(&self) -> TypedExpressionView {
        spec_expression_view(*self)
    }
}

} // verus!
