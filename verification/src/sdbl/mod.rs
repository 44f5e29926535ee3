//! The query language: lexemes, the query tree and the parser.
pub mod ast;
pub mod lexeme_laws;
pub mod lexer;
pub mod parser;
