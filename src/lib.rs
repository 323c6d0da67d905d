//! A lexical scanner for a small scripting language, with the session state
//! that a driver keeps around it.

pub mod lox;
pub mod scanner;
pub mod token;
