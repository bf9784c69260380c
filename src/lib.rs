//! Front end of the Plume compiler: lexer, parser, syntax tree, formatter and
//! the resolver that gathers the files a program imports.
pub mod ast;
pub mod formatter;
pub mod lexer;
pub mod parser;
pub mod program;
pub mod project;
pub mod text;
pub mod token;

pub use ast::{BinaryOperator, Expression, OperatorPosition, UnaryOperator};
pub use lexer::Lexer;
pub use parser::{ParseError, Parser};
pub use program::{Program, SourceFile};
pub use project::Project;
pub use token::{Token, TokenKind};
