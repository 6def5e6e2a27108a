//! The types that a function body can return, and the return type that
//! follows from them.
use vstd::prelude::*;
use crate::parser::ast::{Expr, Node};
use crate::typeeq::{ty_eq, types_equal};
use crate::types::{
    basic_ty, lemma_tys_v, plain_ty, tys_v, ty_v, AtomDetails, AtomKind, AtomType, BasicType, DetailsV,
    KindV, TyV,
};

verus! {

/// The types that a node can return: that of the value of a `return` (the
/// assumed type where it has one); the types of the alternative of an `if`
/// where it has one, else of its body; those of the body of a loop or block.
pub open spec fn ret_tys(n: Node) -> Seq<TyV>
    decreases n,
{
    match n.expr {
        Expr::RetExpr(inner) => match inner.ty.details {
            Some(AtomDetails::Unknown(t)) => seq![ty_v(*t)],
            _ => seq![ty_v(inner.ty)],
        },
        Expr::IfExpr { condition, body, alt } => match alt {
            Some(a) => ret_tys(*a),
            None => body_tys(body@),
        },
        Expr::WhileExpr { condition, body } => body_tys(body@),
        Expr::Block(body) => body_tys(body@),
        _ => Seq::empty(),
    }
}

/// Whether a list of types holds a type equal to `t`.
pub open spec fn has_ty(s: Seq<TyV>, t: TyV) -> bool {
    exists|j: int| 0 <= j < s.len() && ty_eq(#[trigger] s[j], t)
}

/// `acc` with each type of `ts` added in order, unless an equal one is there already.
pub open spec fn add_new(acc: Seq<TyV>, ts: Seq<TyV>) -> Seq<TyV>
    decreases ts.len(),
{
    if ts.len() == 0 {
        acc
    } else {
        let a = add_new(acc, ts.drop_last());
        if has_ty(a, ts.last()) {
            a
        } else {
            a.push(ts.last())
        }
    }
}

/// The types that the nodes of a body can return, each once, in the order
/// in which they first occur.
pub open spec fn body_tys(ns: Seq<Node>) -> Seq<TyV>
    decreases ns,
{
    if ns.len() == 0 {
        Seq::empty()
    } else {
        add_new(body_tys(ns.drop_last()), ret_tys(ns.last()))
    }
}

/// The return type of a function with this body: `void` where nothing is
/// returned; the one type returned; `float` where exactly `int` and `float`
/// are; else `Unknown`.
pub open spec fn fn_ty(body: Seq<Node>) -> TyV {
    let p = body_tys(body);
    if p.len() == 0 {
        basic_ty(BasicType::Void)
    } else if p.len() > 1 {
        if p.len() == 2 && has_ty(p, basic_ty(BasicType::Int)) && has_ty(p, basic_ty(BasicType::Float)) {
            basic_ty(BasicType::Float)
        } else {
            plain_ty(KindV::Unknown)
        }
    } else {
        p[0]
    }
}

/// Whether a list of types holds one equal to `t`.
pub fn contains_ty(v: &Vec<AtomType>, t: &AtomType) -> (r: bool)
    ensures
        r == has_ty(tys_v(v@), t@),
{
    proof {
        lemma_tys_v(v@);
    }
    let ghost s = tys_v(v@);
    let mut i: usize = 0;
    while i < v.len()
        invariant
            i <= v@.len(),
            s == tys_v(v@),
            s.len() == v@.len(),
            forall|j: int| 0 <= j < v@.len() ==> #[trigger] s[j] == ty_v(v@[j]),
            forall|j: int| 0 <= j < i ==> !ty_eq(#[trigger] s[j], t@),
        decreases v@.len() - i,
    {
        if types_equal(&v[i], t) {
            assert(ty_eq(s[i as int], t@));
            return true;
        }
        i = i + 1;
    }
    false
}

/// Adds each type of `ts` to `acc` in order, unless an equal one is there already.
fn push_new(acc: &mut Vec<AtomType>, ts: Vec<AtomType>)
    ensures
        tys_v(final(acc)@) == add_new(tys_v(old(acc)@), tys_v(ts@)),
{
    let ghost start = tys_v(acc@);
    let ghost orig = ts@;
    let mut ts = ts;
    let total = ts.len();
    let mut i: usize = 0;
    proof {
        lemma_tys_v(orig);
        assert(orig.subrange(0, 0) =~= Seq::<AtomType>::empty());
        assert(tys_v(orig.subrange(0, 0)) =~= Seq::<TyV>::empty());
        assert(ts@ =~= orig.subrange(0, total as int));
    }
    while ts.len() > 0
        invariant
            i + ts@.len() == orig.len(),
            orig.len() <= usize::MAX,
            ts@ == orig.subrange(i as int, orig.len() as int),
            tys_v(acc@) == add_new(start, tys_v(orig.subrange(0, i as int))),
        decreases ts@.len(),
    {
        let t = ts.remove(0);
        assert(t == orig[i as int]);
        let ghost pre = orig.subrange(0, i as int);
        let ghost post = orig.subrange(0, i + 1);
        proof {
            assert(post.drop_last() =~= pre);
            assert(tys_v(post) == tys_v(pre).push(ty_v(t)));
            assert(tys_v(post).drop_last() =~= tys_v(pre));
        }
        if !contains_ty(acc, &t) {
            let ghost before = acc@;
            acc.push(t);
            assert(acc@.drop_last() =~= before);
        }
        assert(ts@ =~= orig.subrange(i + 1, orig.len() as int));
        i = i + 1;
    }
    assert(orig.subrange(0, orig.len() as int) =~= orig);
}

/// The types that a node can return.
pub fn get_ret_ty(node: &Node) -> (r: Vec<AtomType>)
    ensures
        tys_v(r@) == ret_tys(*node),
    decreases node, 0int,
{
    match &node.expr {
        Expr::RetExpr(inner) => {
            let t = match &inner.ty.details {
                Some(AtomDetails::Unknown(t)) => (**t).copy(),
                _ => inner.ty.copy(),
            };
            let r = vec![t];
            proof {
                assert(r@.drop_last() =~= Seq::<AtomType>::empty());
                assert(tys_v(Seq::<AtomType>::empty()) =~= Seq::<TyV>::empty());
                assert(tys_v(r@) =~= seq![ty_v(t)]);
            }
            r
        },
        Expr::IfExpr { condition, body, alt } => {
            let ty = get_body_types(body);
            match alt {
                Some(a) => get_ret_ty(a),
                None => ty,
            }
        },
        Expr::WhileExpr { condition, body } => get_body_types(body),
        Expr::Block(body) => get_body_types(body),
        _ => {
            let r: Vec<AtomType> = Vec::new();
            assert(tys_v(r@) =~= Seq::<TyV>::empty());
            r
        },
    }
}

/// The types that the nodes of a body can return, each once, in the order in
/// which they first occur.
pub fn get_body_types(body: &Vec<Node>) -> (r: Vec<AtomType>)
    ensures
        tys_v(r@) == body_tys(body@),
    decreases body, 1int,
{
    let mut types: Vec<AtomType> = Vec::new();
    let mut i: usize = 0;
    assert(body@.subrange(0, 0) =~= Seq::<Node>::empty());
    assert(tys_v(types@) =~= Seq::<TyV>::empty());
    while i < body.len()
        invariant
            i <= body@.len(),
            tys_v(types@) == body_tys(body@.subrange(0, i as int)),
        decreases body@.len() - i,
    {
        assert(decreases_to!(body => body@));
        assert(decreases_to!(body@ => body@[i as int]));
        let ts = get_ret_ty(&body[i]);
        push_new(&mut types, ts);
        proof {
            let post = body@.subrange(0, i + 1);
            assert(post.drop_last() =~= body@.subrange(0, i as int));
            assert(post.last() == body@[i as int]);
        }
        i = i + 1;
    }
    assert(body@.subrange(0, body@.len() as int) =~= body@);
    types
}

/// The return type of a function with this body.
pub fn get_fn_type(body: &Vec<Node>) -> (r: AtomType)
    ensures
        r@ == fn_ty(body@),
{
    let possible = get_body_types(body);
    proof {
        lemma_tys_v(possible@);
    }
    if possible.len() == 0 {
        return AtomType::basic(BasicType::Void);
    }
    if possible.len() > 1 {
        if possible.len() == 2 && contains_ty(&possible, &AtomType::basic(BasicType::Int))
            && contains_ty(&possible, &AtomType::basic(BasicType::Float)) {
            return AtomType::basic(BasicType::Float);
        }
        return AtomType::plain(AtomKind::Unknown);
    }
    possible[0].copy()
}

/// `expr` converted to the type `ty`, at the position of `expr`.
pub fn ty_as(ty: &AtomType, expr: Node) -> (r: Node)
    ensures
        r.expr == Expr::As(Box::new(expr)),
        r.ty@ == ty@,
        r.line == expr.line && r.start == expr.start && r.end == expr.end,
{
    let line = expr.line;
    let start = expr.start;
    let end = expr.end;
    Node { expr: Expr::As(Box::new(expr)), ty: ty.copy(), line, start, end }
}

} // verus!
