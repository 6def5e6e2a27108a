//! Which programs the analyzer handles, decided before it runs.
use vstd::prelude::*;
use crate::parser::ast::{Expr, Ident, Node};
use crate::text::str_eq;
use super::{all_analyzable, analyzable, analyzer_op};

verus! {

/// Whether `op` is a binary operator that the analyzer translates.
pub fn op_known(op: &str) -> (r: bool)
    ensures
        r == (analyzer_op(op@) is Some),
{
    str_eq(op, "+") || str_eq(op, "-") || str_eq(op, "*") || str_eq(op, "/") || str_eq(op, "%")
        || str_eq(op, "==") || str_eq(op, "<") || str_eq(op, ">") || str_eq(op, "<=") || str_eq(op, ">=")
        || str_eq(op, "&&") || str_eq(op, "||")
}

/// Whether the analyzer handles a node and everything inside it: literals,
/// names, calls, known binary operators, declarations, assignments,
/// discarded values and non-empty blocks.
pub fn node_analyzable(n: &Node) -> (r: bool)
    ensures
        r == analyzable(*n),
    decreases n,
{
    match &n.expr {
        Expr::Literal(_) => true,
        Expr::Ident(_) => true,
        Expr::FnCall { name, args } => {
            node_analyzable(&**name) && nodes_analyzable(args)
        },
        Expr::BinaryExpr { op, left, right } => {
            op_known(op.as_str()) && node_analyzable(&**left) && node_analyzable(&**right)
        },
        Expr::VarDeclare { name, val } => {
            let tag_ok = match name {
                Ident::Tagged(tag, _) => node_analyzable(&**tag),
                _ => true,
            };
            tag_ok && node_analyzable(&**val)
        },
        Expr::VarAssign { name, val } => node_analyzable(&**name) && node_analyzable(&**val),
        Expr::Discard(e) => node_analyzable(&**e),
        Expr::Block(b) => b.len() > 0 && nodes_analyzable(b),
        _ => false,
    }
}

/// Whether the analyzer handles every node of a list.
pub fn nodes_analyzable(ns: &Vec<Node>) -> (r: bool)
    ensures
        r == all_analyzable(ns@),
    decreases ns,
{
    let mut i: usize = 0;
    assert(ns@.subrange(0, 0) =~= Seq::<Node>::empty());
    while i < ns.len()
        invariant
            i <= ns@.len(),
            all_analyzable(ns@.subrange(0, i as int)),
        decreases ns@.len() - i,
    {
        assert(decreases_to!(ns => ns@[i as int]));
        let ok = node_analyzable(&ns[i]);
        let ghost g = ns@.subrange(0, i + 1);
        assert(g.drop_last() =~= ns@.subrange(0, i as int));
        assert(g.last() == ns@[i as int]);
        if !ok {
            proof {
                if all_analyzable(ns@) {
                    assert(ns@.subrange(0, ns@.len() as int) =~= ns@);
                    lemma_all_analyzable_prefix(ns@, i + 1, ns@.len() as int);
                }
            }
            return false;
        }
        i = i + 1;
    }
    assert(ns@.subrange(0, ns@.len() as int) =~= ns@);
    true
}

/// Every prefix of a list that the analyzer handles is handled.
proof fn lemma_all_analyzable_prefix(ns: Seq<Node>, i: int, n: int)
    requires
        0 <= i <= n <= ns.len(),
        all_analyzable(ns.subrange(0, n)),
    ensures
        all_analyzable(ns.subrange(0, i)),
    decreases n - i,
{
    if i < n {
        assert(ns.subrange(0, n).drop_last() =~= ns.subrange(0, n - 1));
        lemma_all_analyzable_prefix(ns, i, n - 1);
    }
}

} // verus!
