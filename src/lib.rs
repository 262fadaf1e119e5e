use vstd::prelude::*;

pub mod token;
pub mod lexer;
pub mod ast;
pub mod parser;
pub mod prompt;

verus! {

} // verus!
