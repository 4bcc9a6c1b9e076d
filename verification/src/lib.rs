//! Parser for an EBNF-like grammar-description notation.
//!
//! The library turns grammar text into an abstract syntax tree of grammar
//! rules, with 1-based (line, column) positions on every error.  A single
//! expression (terminals, grouping, repetition, alternation) is parsed by
//! [`ast::EbnfStatement::new`]; a whole document of `name: body;`
//! declarations is parsed by [`parser::EbnfParser::from_str`].  Both are
//! specified against one mathematical scanner, the spec function
//! [`scan::scan`], and every parse result is proved equal to what that
//! scanner computes.  [`render`] turns a tree back into notation text, and
//! [`laws`] proves, among other laws, that re-parsing a rendered tree
//! rebuilds the same tree.

pub mod ast;
pub mod error;
pub mod laws;
pub mod parser;
pub mod render;
pub mod scan;
