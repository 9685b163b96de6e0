use vstd::prelude::*;

pub mod kind;
pub mod lexer;
pub mod ast;
pub mod laws;

verus! {

} // verus!
