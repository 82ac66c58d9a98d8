//! RPython: the abstract syntax, parser, type checker, interpreter, pretty
//! printer and three-address-code generator of a small Python-like language.
pub mod ast;
pub mod text;
pub mod table;
pub mod test_map;
pub mod environment;
pub mod tac;
pub mod tac_fresh;
pub mod interpreter;
pub mod type_ops;
pub mod debug_text;
pub mod adt;
pub mod lexical;
pub mod source_files;
pub mod pretty;
pub mod pretty_ast;
pub mod type_checker;
pub mod parser;
pub mod parser_stmt;
