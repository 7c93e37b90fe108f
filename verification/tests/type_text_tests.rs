use atto8::cc::ast::{Object, Type};

#[test]
fn scalar_and_derived_types_read_as_in_c() {
    assert_eq!(Type::UnsignedLongLong.to_string(), "unsigned long long");
    assert_eq!(Type::Bool.to_string(), "_Bool");
    assert_eq!(Type::Pointer(Box::new(Type::Char)).to_string(), "char *");
    assert_eq!(Type::Array(Box::new(Type::Int)).to_string(), "int []");
    assert_eq!(Type::Pointer(Box::new(Type::Array(Box::new(Type::Short)))).to_string(), "short [] *");
}

#[test]
fn function_types_list_their_parameters() {
    assert_eq!(Type::Function(Box::new(Type::Int), vec![], false).to_string(), "int(void)");
    assert_eq!(
        Type::Function(Box::new(Type::Void), vec![Type::Int, Type::Pointer(Box::new(Type::Char))], true)
            .to_string(),
        "void(int, char *, ...)"
    );
    assert_eq!(Type::Function(Box::new(Type::Void), vec![], true).to_string(), "void(void, ...)");
    assert_eq!(
        Type::Macro(Box::new(Type::Int), "m".to_string(), vec![Type::Char], false).to_string(),
        "int m(char)"
    );
}

#[test]
fn aggregate_types_list_their_members() {
    let s = Type::Structure(vec![Object(Type::Int, "a".to_string()), Object(Type::Char, "b".to_string())]);
    assert_eq!(s.to_string(), "struct { int a, char b }");
    assert_eq!(Type::Union(vec![]).to_string(), "union {  }");
    assert_eq!(Type::Enumeration(vec!["A".to_string(), "B".to_string()]).to_string(), "enum { A, B }");
}
