//! What the operators of the language mean at each stage: which characters
//! end a name, how the parser groups operators by binding strength, how type
//! equality treats function types, in which order the
//! analyzer lowers the operands of a binary operation, and which C operator
//! the code generator writes for it.
use vstd::prelude::*;
use crate::analysis::{analysis, ins, last_ty};
use crate::enviroment::EnvM;
use crate::backend::c::gen::{bond_s, with_stack, EmitV, Step};
use crate::backend::c::codegen::CgV;
use crate::backend::c::ItemV;
use crate::ir::{IROpV, InstrV};
use crate::lexer::{
    id_stops, is_id_char, lemma_byte_len_ge, lemma_lex_step_progress, lemma_lex_step_words, lex_step, lex_wf, LexV,
};
use crate::parser::ast::{is_binary_op, operator_level, Expr, ExprV, LiteralV, Node, NodeV};
use crate::parser::grammar::{
    call_fn_s, cur_s, expr_s, index_s, level_loop_s, level_s, lit_s, member_s, next_s, rem, spec_s, un, PS,
};
use crate::text::contains_char;
use crate::token::TokenV;
use crate::typeeq::{kind_eq, pairs_eq, ty_eq};
use crate::types::{basic_ty, BasicType, FunV, KindV, TyV};

verus! {

/// The characters of the language's operators.
pub open spec fn is_op_char(c: char) -> bool {
    c == '+' || c == '-' || c == '*' || c == '/' || c == '%' || c == '<' || c == '>' || c == '='
        || c == '&' || c == '|'
}

/// No operator character can stand in a name: each one ends it.
pub proof fn law_operators_end_names(c: char)
    ensures
        is_op_char(c) ==> !is_id_char(c),
{
    reveal_strlit(" \t\n+-*/<&|>=@#%:!?$,[{('`)}]");
    let s = id_stops();
    if c == '+' {
        assert(s[3] == c);
    } else if c == '-' {
        assert(s[4] == c);
    } else if c == '*' {
        assert(s[5] == c);
    } else if c == '/' {
        assert(s[6] == c);
    } else if c == '<' {
        assert(s[7] == c);
    } else if c == '&' {
        assert(s[8] == c);
    } else if c == '|' {
        assert(s[9] == c);
    } else if c == '>' {
        assert(s[10] == c);
    } else if c == '=' {
        assert(s[11] == c);
    } else if c == '%' {
        assert(s[14] == c);
    }
}

/// No name token holds an operator character, so `a/b` can never be read as
/// one name: the lexer ends every name at the first operator character.
pub proof fn law_names_hold_no_operator(v: LexV)
    requires
        lex_wf(v),
        lex_step(v) is Some,
    ensures
        ({
            let (t, w) = lex_step(v)->0;
            t matches TokenV::Ident(s) ==> forall|i: int| 0 <= i < s.len() ==> !is_op_char(#[trigger] s[i])
        }),
{
    lemma_lex_step_words(v);
    let (t, w) = lex_step(v)->0;
    if let TokenV::Ident(s) = t {
        assert forall|i: int| 0 <= i < s.len() implies !is_op_char(#[trigger] s[i]) by {
            law_operators_end_names(s[i]);
        }
    }
}

/// Two function types are equal only where their return types are equal and
/// their parameter types are equal one by one: `Fn(int) -> int` is not
/// `Fn(int) -> float`.
pub proof fn law_function_types_equal(f: FunV, g: FunV)
    ensures
        kind_eq(KindV::Function(f), KindV::Function(g)) ==> {
            &&& ty_eq(*f.ret, *g.ret)
            &&& f.params.len() == g.params.len()
            &&& pairs_eq(f.params, g.params)
        },
        !ty_eq(*f.ret, *g.ret) ==> !kind_eq(KindV::Function(f), KindV::Function(g)),
{
}

/// Lowering a binary operation whose operands have the same type: the
/// instructions of the left operand, then those of the right one, then the
/// operation, for `+`, `-`, `*`, `/`, `%`, `==`, `>`, `>=`, `&&` and `||`;
/// `<` and `<=` are `>` and `>=` with the operands' instructions swapped.
/// So `a > b` and `a < b` lower to different lists where `a` and `b` do.
pub proof fn law_operand_order(m: EnvM, n: Node, pos: (nat, nat))
    requires
        n.expr matches Expr::BinaryExpr { op, left, right } && {
            let lo = analysis(m, *left, pos);
            &&& lo.out is Ok
            &&& analysis(lo.env, *right, pos).out is Ok
            &&& ty_eq(last_ty(lo.out->Ok_0), last_ty(analysis(lo.env, *right, pos).out->Ok_0))
        },
    ensures
        n.expr matches Expr::BinaryExpr { op, left, right } && {
            let lo = analysis(m, *left, pos);
            let a = lo.out->Ok_0;
            let b = analysis(lo.env, *right, pos).out->Ok_0;
            let r = analysis(m, n, pos).out;
            let bool_ty = basic_ty(BasicType::Bool);
            &&& op@ == "+"@ ==> r == Ok::<Seq<InstrV>, crate::err::ErrInfo>(a + b + seq![ins(IROpV::Add, last_ty(a))])
            &&& op@ == "-"@ ==> r == Ok::<Seq<InstrV>, crate::err::ErrInfo>(a + b + seq![ins(IROpV::Sub, last_ty(a))])
            &&& op@ == "*"@ ==> r == Ok::<Seq<InstrV>, crate::err::ErrInfo>(a + b + seq![ins(IROpV::Mul, last_ty(a))])
            &&& op@ == "/"@ ==> r == Ok::<Seq<InstrV>, crate::err::ErrInfo>(a + b + seq![ins(IROpV::Div, last_ty(a))])
            &&& op@ == "%"@ ==> r == Ok::<Seq<InstrV>, crate::err::ErrInfo>(a + b + seq![ins(IROpV::Mod, last_ty(a))])
            &&& op@ == "=="@ ==> r == Ok::<Seq<InstrV>, crate::err::ErrInfo>(a + b + seq![ins(IROpV::Eq, last_ty(a))])
            &&& op@ == ">"@ ==> r == Ok::<Seq<InstrV>, crate::err::ErrInfo>(a + b + seq![ins(IROpV::Comp, bool_ty)])
            &&& op@ == ">="@ ==> r == Ok::<Seq<InstrV>, crate::err::ErrInfo>(a + b + seq![ins(IROpV::EComp, bool_ty)])
            &&& op@ == "<"@ ==> r == Ok::<Seq<InstrV>, crate::err::ErrInfo>(b + a + seq![ins(IROpV::Comp, bool_ty)])
            &&& op@ == "<="@ ==> r == Ok::<Seq<InstrV>, crate::err::ErrInfo>(b + a + seq![ins(IROpV::EComp, bool_ty)])
            &&& op@ == "&&"@ ==> r == Ok::<Seq<InstrV>, crate::err::ErrInfo>(a + b + seq![ins(IROpV::And, bool_ty)])
            &&& op@ == "||"@ ==> r == Ok::<Seq<InstrV>, crate::err::ErrInfo>(a + b + seq![ins(IROpV::Or, bool_ty)])
        },
{
    reveal_strlit("+");
    reveal_strlit("-");
    reveal_strlit("*");
    reveal_strlit("/");
    reveal_strlit("%");
    reveal_strlit("==");
    reveal_strlit(">");
    reveal_strlit(">=");
    reveal_strlit("<");
    reveal_strlit("<=");
    reveal_strlit("&&");
    reveal_strlit("||");
    if let Expr::BinaryExpr { op, left, right } = n.expr {
        let lo = analysis(m, *left, pos);
        let a = lo.out->Ok_0;
        let ro = analysis(lo.env, *right, pos);
        let b = ro.out->Ok_0;
        assert(crate::analysis::unify(a, b) == Ok::<(Seq<InstrV>, Seq<InstrV>), Seq<char>>((a, b)));
        if op@ == "+"@ {
            assert(crate::analysis::analyzer_op(op@) == Some((IROpV::Add, false)));
        }
        if op@ == "-"@ {
            assert("-"@[0] != "+"@[0]);
            assert(crate::analysis::analyzer_op(op@) == Some((IROpV::Sub, false)));
        }
        if op@ == "*"@ {
            assert("*"@[0] != "+"@[0]);
            assert("*"@[0] != "-"@[0]);
            assert(crate::analysis::analyzer_op(op@) == Some((IROpV::Mul, false)));
        }
        if op@ == "/"@ {
            assert("/"@[0] != "+"@[0]);
            assert("/"@[0] != "-"@[0]);
            assert("/"@[0] != "*"@[0]);
            assert(crate::analysis::analyzer_op(op@) == Some((IROpV::Div, false)));
        }
        if op@ == "%"@ {
            assert("%"@[0] != "+"@[0]);
            assert("%"@[0] != "-"@[0]);
            assert("%"@[0] != "*"@[0]);
            assert("%"@[0] != "/"@[0]);
            assert(crate::analysis::analyzer_op(op@) == Some((IROpV::Mod, false)));
        }
        if op@ == "=="@ {
            assert("=="@.len() != "+"@.len());
            assert("=="@.len() != "-"@.len());
            assert("=="@.len() != "*"@.len());
            assert("=="@.len() != "/"@.len());
            assert("=="@.len() != "%"@.len());
            assert(crate::analysis::analyzer_op(op@) == Some((IROpV::Eq, false)));
        }
        if op@ == "<"@ {
            assert("<"@[0] != "+"@[0]);
            assert("<"@[0] != "-"@[0]);
            assert("<"@[0] != "*"@[0]);
            assert("<"@[0] != "/"@[0]);
            assert("<"@[0] != "%"@[0]);
            assert("<"@.len() != "=="@.len());
            assert(crate::analysis::analyzer_op(op@) == Some((IROpV::Comp, true)));
        }
        if op@ == ">"@ {
            assert(">"@[0] != "+"@[0]);
            assert(">"@[0] != "-"@[0]);
            assert(">"@[0] != "*"@[0]);
            assert(">"@[0] != "/"@[0]);
            assert(">"@[0] != "%"@[0]);
            assert(">"@.len() != "=="@.len());
            assert(">"@[0] != "<"@[0]);
            assert(crate::analysis::analyzer_op(op@) == Some((IROpV::Comp, false)));
        }
        if op@ == "<="@ {
            assert("<="@.len() != "+"@.len());
            assert("<="@.len() != "-"@.len());
            assert("<="@.len() != "*"@.len());
            assert("<="@.len() != "/"@.len());
            assert("<="@.len() != "%"@.len());
            assert("<="@[0] != "=="@[0]);
            assert("<="@.len() != "<"@.len());
            assert("<="@.len() != ">"@.len());
            assert(crate::analysis::analyzer_op(op@) == Some((IROpV::EComp, true)));
        }
        if op@ == ">="@ {
            assert(">="@.len() != "+"@.len());
            assert(">="@.len() != "-"@.len());
            assert(">="@.len() != "*"@.len());
            assert(">="@.len() != "/"@.len());
            assert(">="@.len() != "%"@.len());
            assert(">="@[0] != "=="@[0]);
            assert(">="@.len() != "<"@.len());
            assert(">="@.len() != ">"@.len());
            assert(">="@[0] != "<="@[0]);
            assert(crate::analysis::analyzer_op(op@) == Some((IROpV::EComp, false)));
        }
        if op@ == "&&"@ {
            assert("&&"@.len() != "+"@.len());
            assert("&&"@.len() != "-"@.len());
            assert("&&"@.len() != "*"@.len());
            assert("&&"@.len() != "/"@.len());
            assert("&&"@.len() != "%"@.len());
            assert("&&"@[0] != "=="@[0]);
            assert("&&"@.len() != "<"@.len());
            assert("&&"@.len() != ">"@.len());
            assert("&&"@[0] != "<="@[0]);
            assert("&&"@[0] != ">="@[0]);
            assert(crate::analysis::analyzer_op(op@) == Some((IROpV::And, false)));
        }
        if op@ == "||"@ {
            assert("||"@.len() != "+"@.len());
            assert("||"@.len() != "-"@.len());
            assert("||"@.len() != "*"@.len());
            assert("||"@.len() != "/"@.len());
            assert("||"@.len() != "%"@.len());
            assert("||"@[0] != "=="@[0]);
            assert("||"@.len() != "<"@.len());
            assert("||"@.len() != ">"@.len());
            assert("||"@[0] != "<="@[0]);
            assert("||"@[0] != ">="@[0]);
            assert("||"@[0] != "&&"@[0]);
            assert(crate::analysis::analyzer_op(op@) == Some((IROpV::Or, false)));
        }
        assert(analysis(m, n, pos).out == {
            let (o, swap) = crate::analysis::analyzer_op(op@)->0;
            let (l2, r2) = if swap { (b, a) } else { (a, b) };
            Ok::<Seq<InstrV>, crate::err::ErrInfo>(l2 + r2 + seq![ins(o, crate::analysis::binary_ty(o, l2))])
        });
    }
}

/// The C text of a binary operation on two values of one basic type: the
/// top value, the operator, and the value below, with `+`, `-`, `*`, `/`,
/// `%` for arithmetic (of that type) and `>`, `>=`, `==`, `&&`, `||` for the
/// rest (of type `bool`). So a subtraction is written with `-`, never as an
/// addition.
pub proof fn law_c_operators(st: CgV, below: Seq<ItemV>, x: Seq<char>, y: Seq<char>, t: BasicType, op: IROpV)
    requires
        st.stack == below.push(ItemV::Var(basic_ty(t), y)).push(ItemV::Var(basic_ty(t), x)),
    ensures
        ({
            let r = bond_s(st, InstrV { op: op, ty: basic_ty(t) });
            let arith = |o: Seq<char>| Some(Step {
                st: with_stack(st, below.push(ItemV::Expr(basic_ty(t), x + " "@ + o + " "@ + y))),
                emit: EmitV::Nothing,
            });
            let logic = |o: Seq<char>| Some(Step {
                st: with_stack(st, below.push(ItemV::Expr(basic_ty(BasicType::Bool), x + " "@ + o + " "@ + y))),
                emit: EmitV::Nothing,
            });
            &&& op is Add ==> r == arith("+"@)
            &&& op is Sub ==> r == arith("-"@)
            &&& op is Mul ==> r == arith("*"@)
            &&& op is Div ==> r == arith("/"@)
            &&& op is Mod ==> r == arith("%"@)
            &&& op is Comp ==> r == logic(">"@)
            &&& op is EComp ==> r == logic(">="@)
            &&& op is Eq ==> r == logic("=="@)
            &&& op is And ==> r == logic("&&"@)
            &&& op is Or ==> r == logic("||"@)
        }),
{
    let s1 = below.push(ItemV::Var(basic_ty(t), y));
    assert(st.stack.drop_last() == s1);
    assert(s1.drop_last() == below);
}

/// The literal that a token denotes, where it is one.
pub open spec fn token_literal(t: TokenV) -> Option<LiteralV> {
    match t {
        TokenV::Int(i) => Some(LiteralV::Int(i)),
        TokenV::Float(f) => Some(LiteralV::Float(f)),
        TokenV::Str(s) => Some(LiteralV::Str(s)),
        TokenV::Bool(b) => Some(LiteralV::Bool(b)),
        _ => None,
    }
}

/// A token after an operand that does not extend it (by a member, a call or
/// an index).
pub open spec fn ends_operand(t: TokenV) -> bool {
    t != TokenV::Dot && t != TokenV::LeftParen && t != TokenV::Colon && t != TokenV::Exec && t != TokenV::LeftBrace
}

/// A token after which an expression of binding strength above `prec` ends:
/// anything but an operator, or a binary operator that binds no more
/// strongly than `prec`.
pub open spec fn ends_level(t: TokenV, prec: u8) -> bool {
    match t {
        TokenV::Operator(c) => is_binary_op(c) && operator_level(c) <= prec,
        _ => true,
    }
}

/// Reading a token, where the current one is not the end, leaves less to read.
proof fn lemma_next_rem(ps: PS)
    requires
        next_s(ps) is Some,
        ps.cur != Some(TokenV::EOF),
    ensures
        next_s(ps) matches Some((t, q)) ==> rem(q) < rem(ps) && q.cur == Some(t),
{
    reveal(next_s);
    lemma_byte_len_ge(ps.lex.code);
    lemma_lex_step_progress(ps.lex);
}

/// No binary operator is the assignment sign.
proof fn lemma_binary_not_assign(c: Seq<char>)
    ensures
        is_binary_op(c) ==> c != "="@,
{
    reveal_strlit("=");
    reveal_strlit("&&");
    reveal_strlit("||");
    reveal_strlit("==");
    reveal_strlit("<");
    reveal_strlit(">");
    reveal_strlit(">=");
    reveal_strlit("<=");
    reveal_strlit("+");
    reveal_strlit("-");
    reveal_strlit("*");
    reveal_strlit("/");
    reveal_strlit("%");
    if c == "="@ {
        assert(c.len() == 1 && c[0] == '=');
        assert(c != "&&"@ && c != "||"@ && c != "=="@ && c != ">="@ && c != "<="@);
        assert("<"@[0] != c[0] && ">"@[0] != c[0] && "+"@[0] != c[0] && "-"@[0] != c[0]);
        assert("*"@[0] != c[0] && "/"@[0] != c[0] && "%"@[0] != c[0]);
    }
}

/// A literal operand that nothing extends is read as a literal node.
proof fn lemma_literal_operand(ps: PS, q: PS, a: TokenV, l: LiteralV, t: TokenV)
    requires
        ps.cur == Some(a),
        token_literal(a) == Some(l),
        next_s(ps) == Some((t, q)),
        ends_operand(t),
    ensures
        index_s(ps) == Some((Ok::<NodeV, ()>(un(q, ExprV::Literal(l))), q)),
        rem(q) < rem(ps),
        q.cur == Some(t),
{
    lemma_next_rem(ps);
    let n = un(q, ExprV::Literal(l));
    assert(cur_s(ps) == Some((a, ps)));
    assert(lit_s(ps, l) == Some((Ok::<NodeV, ()>(n), q)));
    assert(expr_s(ps) == Some((Ok::<NodeV, ()>(n), q)));
    assert(cur_s(q) == Some((t, q)));
    assert(member_s(ps) == Some((Ok::<NodeV, ()>(n), q)));
    assert(spec_s(ps) == Some((Ok::<NodeV, ()>(n), q)));
    assert(call_fn_s(ps) == Some((Ok::<NodeV, ()>(n), q)));
}

/// After a token that ends the expression, the operator loop gives back
/// what it holds.
proof fn lemma_loop_ends(ps: PS, t: TokenV, left: NodeV, prec: u8)
    requires
        ps.cur == Some(t),
        ends_level(t, prec),
    ensures
        level_loop_s(ps, left, prec) == Some((Ok::<NodeV, ()>(left), ps)),
{
    if let TokenV::Operator(c) = t {
        lemma_binary_not_assign(c);
    }
}

/// A literal operand followed by a token that ends the expression.
proof fn lemma_lone_operand(ps: PS, q: PS, a: TokenV, l: LiteralV, t: TokenV, prec: u8)
    requires
        ps.cur == Some(a),
        token_literal(a) == Some(l),
        next_s(ps) == Some((t, q)),
        ends_operand(t),
        ends_level(t, prec),
    ensures
        level_s(ps, prec) == Some((Ok::<NodeV, ()>(un(q, ExprV::Literal(l))), q)),
        rem(q) < rem(ps),
        q.cur == Some(t),
{
    lemma_literal_operand(ps, q, a, l, t);
    lemma_loop_ends(q, t, un(q, ExprV::Literal(l)), prec);
}

/// In `a o1 b o2 c`, of literal operands and binary operators that bind more
/// strongly than `prec`, followed by a token that ends the expression, the
/// operator that binds more strongly takes its operands first; of two
/// operators of one level the left one does, so they associate to the left:
/// `10 - 3 - 2` is `(10 - 3) - 2`, and `1 + 2 * 3` is `1 + (2 * 3)`.
pub proof fn law_operators_group_by_level(
    ps0: PS,
    ps1: PS,
    ps2: PS,
    ps3: PS,
    ps4: PS,
    ps5: PS,
    a: TokenV,
    b: TokenV,
    c: TokenV,
    la: LiteralV,
    lb: LiteralV,
    lc: LiteralV,
    o1: Seq<char>,
    o2: Seq<char>,
    t: TokenV,
    prec: u8,
)
    requires
        ps0.cur == Some(a),
        next_s(ps0) == Some((TokenV::Operator(o1), ps1)),
        next_s(ps1) == Some((b, ps2)),
        next_s(ps2) == Some((TokenV::Operator(o2), ps3)),
        next_s(ps3) == Some((c, ps4)),
        next_s(ps4) == Some((t, ps5)),
        token_literal(a) == Some(la),
        token_literal(b) == Some(lb),
        token_literal(c) == Some(lc),
        is_binary_op(o1),
        is_binary_op(o2),
        operator_level(o1) > prec,
        operator_level(o2) > prec,
        ends_operand(t),
        ends_level(t, prec),
    ensures
        ({
            let x = un(ps1, ExprV::Literal(la));
            let y = un(ps3, ExprV::Literal(lb));
            let z = un(ps5, ExprV::Literal(lc));
            level_s(ps0, prec) == Some((
                Ok::<NodeV, ()>(
                    if operator_level(o2) > operator_level(o1) {
                        un(
                            ps5,
                            ExprV::BinaryExpr {
                                op: o1,
                                left: Box::new(x),
                                right: Box::new(un(ps5, ExprV::BinaryExpr { op: o2, left: Box::new(y), right: Box::new(z) })),
                            },
                        )
                    } else {
                        un(
                            ps5,
                            ExprV::BinaryExpr {
                                op: o2,
                                left: Box::new(un(ps3, ExprV::BinaryExpr { op: o1, left: Box::new(x), right: Box::new(y) })),
                                right: Box::new(z),
                            },
                        )
                    },
                ),
                ps5,
            ))
        }),
{
    let x = un(ps1, ExprV::Literal(la));
    let y = un(ps3, ExprV::Literal(lb));
    let z = un(ps5, ExprV::Literal(lc));
    let l1 = operator_level(o1);
    let l2 = operator_level(o2);
    lemma_binary_not_assign(o1);
    lemma_binary_not_assign(o2);
    lemma_literal_operand(ps0, ps1, a, la, TokenV::Operator(o1));
    lemma_next_rem(ps1);
    lemma_literal_operand(ps2, ps3, b, lb, TokenV::Operator(o2));
    lemma_next_rem(ps3);
    assert(level_s(ps0, prec) == level_loop_s(ps1, x, prec));
    if l2 > l1 {
        let yz = un(ps5, ExprV::BinaryExpr { op: o2, left: Box::new(y), right: Box::new(z) });
        lemma_lone_operand(ps4, ps5, c, lc, t, l2);
        assert(level_loop_s(ps3, y, l1) == level_loop_s(ps5, yz, l1));
        lemma_loop_ends(ps5, t, yz, l1);
        assert(level_s(ps2, l1) == Some((Ok::<NodeV, ()>(yz), ps5)));
        let all = un(ps5, ExprV::BinaryExpr { op: o1, left: Box::new(x), right: Box::new(yz) });
        assert(level_loop_s(ps1, x, prec) == level_loop_s(ps5, all, prec));
        lemma_loop_ends(ps5, t, all, prec);
    } else {
        let xy = un(ps3, ExprV::BinaryExpr { op: o1, left: Box::new(x), right: Box::new(y) });
        lemma_loop_ends(ps3, TokenV::Operator(o2), y, l1);
        assert(level_s(ps2, l1) == Some((Ok::<NodeV, ()>(y), ps3)));
        assert(level_loop_s(ps1, x, prec) == level_loop_s(ps3, xy, prec));
        lemma_lone_operand(ps4, ps5, c, lc, t, l2);
        let all = un(ps5, ExprV::BinaryExpr { op: o2, left: Box::new(xy), right: Box::new(z) });
        assert(level_loop_s(ps3, xy, prec) == level_loop_s(ps5, all, prec));
        lemma_loop_ends(ps5, t, all, prec);
    }
}

} // verus!
