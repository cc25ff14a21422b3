#![allow(non_snake_case)]

pub mod generate;
pub mod grammar;
pub mod laws;
pub mod parser;
pub mod roundtrip;
pub mod symbol;
pub mod tokens;
pub mod writer;

pub use generate::{generate, generate_with_choices, GenerateError};
pub use grammar::{Grammar, SymbolTable};
pub use parser::{new, parse_tokens, GrammarError};
pub use symbol::{newSymbol, Symbol};
pub use tokens::{tokenize, trimmed};
