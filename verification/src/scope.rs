//! The parsing context of an expression: whether its value is used.
use vstd::prelude::*;

verus! {

/// Where an expression stands: as a value, at the top of a body, or in a `use`.
#[derive(Debug)]
pub enum Scope {
    Value,
    _Func(String),
    Top,
    Use,
}

impl Scope {
    /// Whether an expression in this scope has its value used.
    pub fn is_used(&self) -> (r: bool)
        ensures
            r == (*self is Value || *self is Use),
    {
        match self {
            Scope::Value => true,
            Scope::Use => true,
            _ => false,
        }
    }
}

} // verus!
