pub mod ast;
pub mod assembler;
pub mod cli;
pub mod lexer;
pub mod numerals;
pub mod parser;
