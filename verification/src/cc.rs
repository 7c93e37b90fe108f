//! The C compiler: quoting and reading literals, parse results, the behavior analysis that
//! drives optimization, linking, and code generation for expressions.

pub mod literal;
pub mod parse_result;
pub mod ast;
pub mod behavior;
pub mod parser;
pub mod link;
pub mod codegen;
pub mod preprocess;
pub mod type_text;
pub mod conversions;
pub mod meaning;
