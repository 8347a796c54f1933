//! Front end for the Lola stream specification language: the grammar and its
//! parser, the symbol table, the abstract syntax tree, the builder that turns
//! a parse tree into that tree, the proof that the builder takes every tree
//! that the grammar yields, and the analysis that finds the least expressive
//! version of the language that a specification fits.

pub mod ast;
pub mod built;
pub mod climber;
pub mod grammar;
pub mod lola_version;
pub mod parse;
pub mod peg;
pub mod reporting;
pub mod shapes;
pub mod symbols;
pub mod syntax;
pub mod tree;
pub mod validity;
pub mod words;

// Re-export on the root level
pub use crate::ast::{Ident, LanguageSpec, LolaSpec, Span};
pub use crate::grammar::{LolaParser, ParseError};
pub use crate::parse::parse;
pub use crate::symbols::{Symbol, SymbolTable};
pub use crate::tree::{ParseTree, Rule};
