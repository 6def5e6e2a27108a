//! Operator precedence of the constant-type front end.
use vstd::prelude::*;
use crate::text::str_eq;

verus! {

/// The operators that the constant-type front end knows: `&`, `|`, `==`, `<`,
/// `>`, `+`, `-`, `*` and `/`.
pub open spec fn is_early_op(op: Seq<char>) -> bool {
    op == "&"@ || op == "|"@ || op == "=="@ || op == "<"@ || op == ">"@ || op == "+"@ || op
        == "-"@ || op == "*"@ || op == "/"@
}

/// The binding strength of such an operator: `&` and `|` bind loosest, then
/// `==`, then `<` and `>`, then `+` and `-`, then `*` and `/`.
pub open spec fn early_level(op: Seq<char>) -> u8 {
    if op == "&"@ || op == "|"@ {
        1
    } else if op == "=="@ {
        2
    } else if op == "<"@ || op == ">"@ {
        3
    } else if op == "+"@ || op == "-"@ {
        4
    } else {
        5
    }
}

/// The binding strength of an operator of the constant-type front end.
pub fn get_operator_level(op: &str) -> (r: u8)
    requires
        is_early_op(op@),
    ensures
        r == early_level(op@),
{
    if str_eq(op, "&") || str_eq(op, "|") {
        1
    } else if str_eq(op, "==") {
        2
    } else if str_eq(op, "<") || str_eq(op, ">") {
        3
    } else if str_eq(op, "+") || str_eq(op, "-") {
        4
    } else {
        5
    }
}

} // verus!
