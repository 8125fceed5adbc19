//! The lexing stage of a compiler for `.cfuq` sources.
#![allow(unused_imports)]

pub mod text;
pub mod numbers;
pub mod graphemes;
pub mod common;
pub mod tokens;
pub mod position;
pub mod reader;
pub mod lex_error;
pub mod literal;
pub mod word;
pub mod line;
pub mod macros;
pub mod lexer;
pub mod laws;
pub mod reading;
pub mod spelling;
pub mod constants;
pub mod streams;
pub mod definitions;
pub mod bodies;
pub mod files;
pub mod messages;
pub mod models;
pub mod plain;
pub mod scheduling;
pub mod naming;
pub mod path;
pub mod part;
pub mod scheduler;
pub mod context;
pub mod worker;
pub mod pool;
pub mod compiler;
