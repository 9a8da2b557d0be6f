use vstd::prelude::*;

pub mod error;
pub mod sys;
pub mod lexer;
pub mod token_syntax;
pub mod ast;
pub mod word_syntax;
pub mod parser;
pub mod encoding;
pub mod shell_bytes;
pub mod text;
pub mod var;

pub mod host;
pub mod glob;
pub mod arith;
pub mod test_cmd;
pub mod eval;
pub mod expand;
pub mod redirect;
pub mod builtins;
pub mod signals;
