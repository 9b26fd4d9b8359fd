//! Front end and back end of a tiny procedural-language compiler: a
//! recursive-descent parser from tokens to a statement tree, and a builder
//! that renders an x86-64 assembly module as text.

pub mod assembly;
pub mod ast;
pub mod parser;
pub mod report;

pub use assembly::{
    module_text, Asm, DataEntry, DataSection, DataSectionItem, TextEntry, TextSection, TextSectionItem,
};
pub use ast::{
    ExprAst, Identifier, Locatable, Position, Span, StmtAst, StmtModel, StringLiteral, Token,
};
pub use parser::{parse, SyntaxError};
