//! The abstract syntax of the kernel language.
use vstd::prelude::*;
use crate::context::{Atom, Name};

verus! {

/// A kernel expression: a literal, a call, a function or a conditional
/// with its (test, branch) pairs and an optional default.
#[derive(Debug)]
pub enum Ast {
    Lit(Atom),
    Call(Vec<Ast>),
    Lambda(Vec<Name>, Vec<Ast>),
    Cond(Vec<(Ast, Ast)>, Option<Box<Ast>>),
}

} // verus!
