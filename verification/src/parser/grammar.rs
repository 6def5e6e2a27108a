//! What the parser does, as functions on plain values: each takes the
//! parser's state and gives the parsed node (or a failure) and the state
//! after it, or `None` where the parser would fail or not come back.
use vstd::prelude::*;
use super::ast::{is_binary_op, node_debug, operator_level, BlueprintNV, ExprV, IdentNV, NodeV};
use crate::err::{ErrInfo, ErrKind};
use crate::lexer::{byte_len, lex_step, lex_wf, LexV};
use crate::scope::Scope;
use crate::text::decimal;
use crate::token::{Token, TokenV};
use crate::types::{plain_ty, KindV};

verus! {

/// The text that the derived `Debug` format gives for a token.
pub uninterp spec fn token_debug(t: TokenV) -> Seq<char>;

/// The text that the derived pretty `Debug` format (`{:#?}`) gives for a token.
pub uninterp spec fn token_pretty(t: TokenV) -> Seq<char>;

/// The debug text of a token: `format!("{:?}", t)` through the `Debug` impl
/// that `derive` writes. Claimed: the text is `token_debug` of the token's
/// value, so it depends on that value alone. Left unsaid: what the text is;
/// std documents the derived format as unstable.
#[verifier::external_body]
pub(crate) fn debug_token(t: &Token) -> (r: String)
    ensures
        r@ == token_debug(t@),
{
    format!("{:?}", t)
}

/// The pretty debug text of a token: `format!("{:#?}", t)` through the derived
/// `Debug` impl. Claimed: the text is `token_pretty` of the token's value.
/// Left unsaid: what the text is; std documents the derived format as unstable.
#[verifier::external_body]
pub(crate) fn pretty_token(t: &Token) -> (r: String)
    ensures
        r@ == token_pretty(t@),
{
    format!("{:#?}", t)
}

/// The state of a parser as plain values: the lexer, the position it
/// reports, the current token (none before the first is read), the program
/// so far, the scope of the expression at hand, and the errors reported.
pub struct PS {
    pub lex: LexV,
    pub line: u16,
    pub column: u16,
    pub cur: Option<TokenV>,
    pub body: Seq<NodeV>,
    pub functions: Seq<BlueprintNV>,
    pub scope: Scope,
    pub errors: Seq<ErrInfo>,
}

/// What is left to read: the characters after the lexer's position, and
/// one more for a current token other than the end.
pub open spec fn rem(ps: PS) -> nat {
    let chars: nat = if ps.lex.pos < byte_len(ps.lex.code) { (byte_len(ps.lex.code) - ps.lex.pos) as nat } else { 0 };
    let tok: nat = match ps.cur {
        Some(TokenV::EOF) => 0,
        _ => 1,
    };
    chars + tok
}

/// Reading the next token: the lexer's next token becomes the current one.
#[verifier::opaque]
pub open spec fn next_s(ps: PS) -> Option<(TokenV, PS)> {
    if !lex_wf(ps.lex) {
        None
    } else {
        match lex_step(ps.lex) {
            None => None,
            Some((t, l2)) => Some((t, PS { lex: l2, cur: Some(t), ..ps })),
        }
    }
}

/// Reading the next token makes it the current one and changes nothing but
/// the lexer.
pub proof fn lemma_next_s(ps: PS)
    ensures
        next_s(ps) matches Some((t, q)) ==> q == (PS { lex: q.lex, cur: Some(t), ..ps }),
{
    reveal(next_s);
}

/// The current token, read first where there is none yet.
pub open spec fn cur_s(ps: PS) -> Option<(TokenV, PS)> {
    match ps.cur {
        Some(t) => Some((t, ps)),
        None => next_s(ps),
    }
}

/// A node of unknown type at the parser's position.
pub open spec fn un(ps: PS, e: ExprV) -> NodeV {
    NodeV { expr: e, ty: plain_ty(KindV::Unknown), line: ps.line, start: ps.column, end: ps.column }
}

/// The state with an error reported at the parser's position.
pub open spec fn err_s(ps: PS, kind: ErrKind, msg: Seq<char>) -> PS {
    PS { errors: ps.errors.push(ErrInfo { kind: kind, msg: msg, line: ps.line as nat, column: ps.column as nat }), ..ps }
}

/// The state with another scope.
pub open spec fn scoped(ps: PS, s: Scope) -> PS {
    PS { scope: s, ..ps }
}

/// Expecting the token `tok`: where it is the current one, the next token
/// is read and returned; else the next token is read, an error reported,
/// and an error token returned.
pub open spec fn except_s(ps: PS, tok: TokenV) -> Option<(TokenV, PS)> {
    match cur_s(ps) {
        None => None,
        Some((c, ps1)) => if c != tok {
            match next_s(ps1) {
                None => None,
                Some((_, ps2)) => Some((
                    TokenV::Error("unexcepted token"@),
                    err_s(
                        ps2,
                        ErrKind::UnexceptedTokenE,
                        "unexcepted token ["@ + token_debug(c) + "] excepted ["@ + token_debug(tok) + "]"@,
                    ),
                )),
            }
        } else {
            next_s(ps1)
        },
    }
}

/// Which parser reads the items of a list.
pub enum ItemParser {
    Level,
    Spec,
    Expr,
}

/// Which items a list accepts.
pub enum ItemFilter {
    Any,
    TaggedIdent,
}

/// Whether a list accepts an item.
pub open spec fn accepts(of: ItemFilter, n: NodeV) -> bool {
    match of {
        ItemFilter::Any => true,
        ItemFilter::TaggedIdent => n.expr matches ExprV::Ident(IdentNV::Tagged(_, _)),
    }
}

/// The result of parsing one node, with the state after it.
pub type PR = Option<(Result<NodeV, ()>, PS)>;

/// The result of parsing a list of nodes, with the state after it.
pub type PRS = Option<(Result<Seq<NodeV>, ()>, PS)>;

/// An expression whose operators bind more strongly than `prec`: an
/// indexed expression followed by operators, each applied to what stands
/// left of it and the expression of higher binding strength to its right;
/// `=` makes an assignment of everything to its right.
pub open spec fn level_s(ps: PS, prec: u8) -> PR
    decreases rem(ps), 7nat, 0nat,
{
    match index_s(ps) {
        None => None,
        Some((Err(()), ps1)) => Some((Err(()), ps1)),
        Some((Ok(left), ps1)) => if rem(ps1) >= rem(ps) {
            None
        } else {
            level_loop_s(ps1, left, prec)
        },
    }
}

/// The operators that follow `left` in an expression of binding strength above `prec`.
pub open spec fn level_loop_s(ps: PS, left: NodeV, prec: u8) -> PR
    decreases rem(ps), 8nat, 0nat,
{
    match cur_s(ps) {
        None => None,
        Some((t, ps1)) => match t {
            TokenV::Operator(c) => if c == "="@ {
                match next_s(ps1) {
                    None => None,
                    Some((_, ps2)) => {
                        let ps3 = scoped(ps2, Scope::Value);
                        if rem(ps3) >= rem(ps) {
                            None
                        } else {
                            match level_s(ps3, 0) {
                                None => None,
                                Some((Err(()), ps4)) => Some((Err(()), ps4)),
                                Some((Ok(right), ps4)) => Some((
                                    Ok(un(ps4, ExprV::VarAssign { name: Box::new(left), val: Box::new(right) })),
                                    ps4,
                                )),
                            }
                        }
                    },
                }
            } else if !is_binary_op(c) {
                None
            } else if !(operator_level(c) > prec) {
                Some((Ok(left), ps1))
            } else {
                match next_s(ps1) {
                    None => None,
                    Some((_, ps2)) => if rem(ps2) >= rem(ps) {
                        None
                    } else {
                        match level_s(ps2, operator_level(c)) {
                            None => None,
                            Some((Err(()), ps3)) => Some((Err(()), ps3)),
                            Some((Ok(right), ps3)) => if rem(ps3) >= rem(ps) {
                                None
                            } else {
                                level_loop_s(
                                    ps3,
                                    un(ps3, ExprV::BinaryExpr { op: c, left: Box::new(left), right: Box::new(right) }),
                                    prec,
                                )
                            },
                        }
                    },
                }
            },
            _ => Some((Ok(left), ps1)),
        },
    }
}

/// A call, optionally indexed by an expression in braces.
pub open spec fn index_s(ps: PS) -> PR
    decreases rem(ps), 6nat, 0nat,
{
    match call_fn_s(ps) {
        None => None,
        Some((Err(()), ps1)) => Some((Err(()), ps1)),
        Some((Ok(e), ps1)) => match cur_s(ps1) {
            None => None,
            Some((t, ps2)) => if t == TokenV::LeftBrace {
                match next_s(ps2) {
                    None => None,
                    Some((_, ps3)) => if rem(ps3) >= rem(ps) {
                        None
                    } else {
                        match level_s(ps3, 0) {
                            None => None,
                            Some((Err(()), ps4)) => Some((Err(()), ps4)),
                            Some((Ok(idx), ps4)) => match except_s(ps4, TokenV::RightBrace) {
                                None => None,
                                Some((_, ps5)) => Some((
                                    Ok(un(ps5, ExprV::IndexExpr { parent: Box::new(e), index: Box::new(idx) })),
                                    ps5,
                                )),
                            },
                        }
                    },
                }
            } else {
                Some((Ok(e), ps2))
            },
        },
    }
}

/// A specialised expression, optionally called: with `:` and a list of
/// arguments, or with `!` and none.
pub open spec fn call_fn_s(ps: PS) -> PR
    decreases rem(ps), 5nat, 0nat,
{
    match spec_s(ps) {
        None => None,
        Some((Err(()), ps1)) => Some((Err(()), ps1)),
        Some((Ok(call), ps1)) => match cur_s(ps1) {
            None => None,
            Some((t, ps2)) => if t == TokenV::Colon {
                match next_s(ps2) {
                    None => None,
                    Some((_, ps3)) => if rem(ps3) >= rem(ps) {
                        None
                    } else {
                        match list_s(ps3) {
                            None => None,
                            Some((Err(()), ps4)) => Some((Err(()), ps4)),
                            Some((Ok(args), ps4)) => Some((
                                Ok(un(ps4, ExprV::FnCall { name: Box::new(call), args: args })),
                                ps4,
                            )),
                        }
                    },
                }
            } else if t == TokenV::Exec {
                match next_s(ps2) {
                    None => None,
                    Some((_, ps3)) => Some((Ok(un(ps3, ExprV::FnCall { name: Box::new(call), args: Seq::empty() })), ps3)),
                }
            } else {
                Some((Ok(call), ps2))
            },
        },
    }
}

/// A member expression, specialised by a list in parentheses where it is a name.
pub open spec fn spec_s(ps: PS) -> PR
    decreases rem(ps), 4nat, 0nat,
{
    match member_s(ps) {
        None => None,
        Some((Err(()), ps1)) => Some((Err(()), ps1)),
        Some((Ok(left), ps1)) => match cur_s(ps1) {
            None => None,
            Some((t, ps2)) => if t == TokenV::LeftParen && left.expr is Ident {
                match next_s(ps2) {
                    None => None,
                    Some((_, ps3)) => if rem(ps3) >= rem(ps) {
                        None
                    } else {
                        match list_of_s(ps3, ItemParser::Spec, ItemFilter::Any, TokenV::RightParen, Seq::empty()) {
                            None => None,
                            Some((Err(()), ps4)) => Some((Err(()), ps4)),
                            Some((Ok(spec), ps4)) => {
                                let n = un(ps4, ExprV::SpecExpr { parent: Box::new(left), spec: spec });
                                match except_s(ps4, TokenV::RightParen) {
                                    None => None,
                                    Some((_, ps5)) => Some((Ok(n), ps5)),
                                }
                            },
                        }
                    },
                }
            } else {
                Some((Ok(left), ps2))
            },
        },
    }
}

/// A primary expression, optionally followed by `.` and a member name.
pub open spec fn member_s(ps: PS) -> PR
    decreases rem(ps), 3nat, 0nat,
{
    match expr_s(ps) {
        None => None,
        Some((Err(()), ps1)) => Some((Err(()), ps1)),
        Some((Ok(left), ps1)) => match cur_s(ps1) {
            None => None,
            Some((t, ps2)) => if t == TokenV::Dot {
                match next_s(ps2) {
                    None => None,
                    Some((_, ps3)) => if rem(ps3) >= rem(ps) {
                        None
                    } else {
                        match expr_s(ps3) {
                            None => None,
                            Some((Err(()), ps4)) => Some((Err(()), ps4)),
                            Some((Ok(right), ps4)) => match right.expr {
                                ExprV::Ident(id) => Some((
                                    Ok(un(ps4, ExprV::MemberExpr { parent: Box::new(left), child: ident_text(id) })),
                                    ps4,
                                )),
                                _ => {
                                    let ps5 = err_s(ps4, ErrKind::UnexceptedTokenE, "expected id in member expr got "@ + node_debug(right));
                                    Some((Ok(un(ps5, ExprV::Literal(crate::parser::ast::LiteralV::Int(0)))), ps5))
                                },
                            },
                        }
                    },
                }
            } else {
                Some((Ok(left), ps2))
            },
        },
    }
}

/// The name that a name model holds.
pub open spec fn ident_text(id: IdentNV) -> Seq<char> {
    match id {
        IdentNV::Tagged(_, v) => v,
        IdentNV::Typed(_, v) => v,
        IdentNV::UnTagged(v) => v,
    }
}

/// A comma-separated list of expressions, up to the end of the input.
pub open spec fn list_s(ps: PS) -> PRS
    decreases rem(ps), 10nat, 0nat,
{
    list_of_s(ps, ItemParser::Level, ItemFilter::Any, TokenV::EOF, Seq::empty())
}

/// A comma-separated list of items read by `by`, after the items `acc`:
/// it ends before `term`, or after an item that no comma follows; an item
/// that the list does not accept is an error.
pub open spec fn list_of_s(ps: PS, by: ItemParser, of: ItemFilter, term: TokenV, acc: Seq<NodeV>) -> PRS
    decreases rem(ps), 9nat, 0nat,
{
    match cur_s(ps) {
        None => None,
        Some((t, ps1)) => if t == term {
            Some((Ok(acc), ps1))
        } else if rem(ps1) > rem(ps) {
            None
        } else {
            let item = match by {
                ItemParser::Level => level_s(ps1, 0),
                ItemParser::Spec => spec_s(ps1),
                ItemParser::Expr => expr_s(ps1),
            };
            match item {
                None => None,
                Some((Err(()), ps2)) => Some((Err(()), ps2)),
                Some((Ok(n), ps2)) => if accepts(of, n) {
                    match cur_s(ps2) {
                        None => None,
                        Some((t2, ps3)) => if t2 != TokenV::Comma {
                            Some((Ok(acc.push(n)), ps3))
                        } else {
                            match next_s(ps3) {
                                None => None,
                                Some((_, ps4)) => if rem(ps4) >= rem(ps) {
                                    None
                                } else {
                                    list_of_s(ps4, by, of, term, acc.push(n))
                                },
                            }
                        },
                    }
                } else {
                    Some((Err(()), err_s(ps2, ErrKind::UnexceptedTokenE, "unexpected expr "@ + node_debug(n))))
                },
            }
        },
    }
}

/// A literal, a name (with a type expression after `-`), an expression in
/// parentheses, a list in braces, a `use`, or a keyword's construct; any
/// other token is an error and is skipped.
pub open spec fn expr_s(ps: PS) -> PR
    decreases rem(ps), 2nat, 0nat,
{
    match cur_s(ps) {
        None => None,
        Some((tok, ps1)) => if rem(ps1) > rem(ps) {
            None
        } else {
            match tok {
                TokenV::Int(i) => lit_s(ps1, crate::parser::ast::LiteralV::Int(i)),
                TokenV::Float(f) => lit_s(ps1, crate::parser::ast::LiteralV::Float(f)),
                TokenV::Bool(b) => lit_s(ps1, crate::parser::ast::LiteralV::Bool(b)),
                TokenV::Str(s) => lit_s(ps1, crate::parser::ast::LiteralV::Str(s)),
                TokenV::Error(_) => Some((Err(()), ps1)),
                TokenV::Ident(id) => match next_s(ps1) {
                    None => None,
                    Some((_, ps2)) => match cur_s(ps2) {
                        None => None,
                        Some((t2, ps3)) => if t2 == TokenV::Dash {
                            match next_s(ps3) {
                                None => None,
                                Some((_, ps4)) => if rem(ps4) >= rem(ps) {
                                    None
                                } else {
                                    match spec_s(ps4) {
                                        None => None,
                                        Some((Err(()), ps5)) => Some((Err(()), ps5)),
                                        Some((Ok(tag), ps5)) => Some((
                                            Ok(un(ps5, ExprV::Ident(IdentNV::Tagged(Box::new(tag), id)))),
                                            ps5,
                                        )),
                                    }
                                },
                            }
                        } else {
                            Some((Ok(un(ps3, ExprV::Ident(IdentNV::UnTagged(id)))), ps3))
                        },
                    },
                },
                TokenV::LeftParen => match next_s(ps1) {
                    None => None,
                    Some((_, ps2)) => if rem(ps2) >= rem(ps) {
                        None
                    } else {
                        match level_s(ps2, 0) {
                            None => None,
                            Some((r, ps3)) => match except_s(ps3, TokenV::RightParen) {
                                None => None,
                                Some((_, ps4)) => Some((r, ps4)),
                            },
                        }
                    },
                },
                TokenV::LeftBrace => match next_s(ps1) {
                    None => None,
                    Some((_, ps2)) => if rem(ps2) >= rem(ps) {
                        None
                    } else {
                        match list_s(ps2) {
                            None => None,
                            Some((Err(()), ps3)) => Some((Err(()), ps3)),
                            Some((Ok(values), ps3)) => match except_s(ps3, TokenV::RightBrace) {
                                None => None,
                                Some((_, ps4)) => Some((Ok(un(ps4, ExprV::ListExpr(values))), ps4)),
                            },
                        }
                    },
                },
                TokenV::UseKw => match next_s(ps1) {
                    None => None,
                    Some((t2, ps2)) => match t2 {
                        TokenV::Str(path) => match next_s(scoped(ps2, Scope::Use)) {
                            None => None,
                            Some((_, ps3)) => Some((Ok(un(ps3, ExprV::Use(path))), ps3)),
                        },
                        _ => Some((Err(()), err_s(ps2, ErrKind::UnexceptedTokenE, "unexcepted token ["@ + token_pretty(t2) + "]"@))),
                    },
                },
                TokenV::ExternKw => extern_s(ps1),
                TokenV::SetKw => declare_s(ps1),
                TokenV::WhileKw => while_s(ps1),
                TokenV::IfKw => if_s(ps1),
                TokenV::RetKw => ret_s(ps1),
                _ => {
                    let ps2 = err_s(ps1, ErrKind::UnexceptedTokenE, "unexcepted token ["@ + token_pretty(tok) + "]"@);
                    match next_s(ps2) {
                        None => None,
                        Some((_, ps3)) => Some((Err(()), ps3)),
                    }
                },
            }
        },
    }
}

/// A literal: the token is read past.
pub open spec fn lit_s(ps: PS, l: crate::parser::ast::LiteralV) -> PR {
    match next_s(ps) {
        None => None,
        Some((_, ps2)) => Some((Ok(un(ps2, ExprV::Literal(l))), ps2)),
    }
}

/// The parameters of an extern declaration: the names with a type
/// expression among the nodes, an error reported for each other node.
pub open spec fn extern_params_s(ps: PS, params: Seq<NodeV>) -> (Seq<IdentNV>, PS)
    decreases params.len(),
{
    if params.len() == 0 {
        (Seq::empty(), ps)
    } else {
        let (ids, ps1) = extern_params_s(ps, params.drop_last());
        let i = (params.len() - 1) as nat;
        match params.last().expr {
            ExprV::Ident(IdentNV::Tagged(tag, v)) => (ids.push(IdentNV::Tagged(tag, v)), ps1),
            _ => (ids, err_s(ps1, ErrKind::UnexceptedTokenE, "expected a typed id as extern param "@ + decimal(i))),
        }
    }
}

/// An extern declaration: a name with a type expression, `:`, and a list
/// of parameters.
pub open spec fn extern_s(ps: PS) -> PR
    decreases rem(ps), 1nat, 0nat,
{
    match next_s(ps) {
        None => None,
        Some((_, ps1)) => if rem(ps1) >= rem(ps) {
            None
        } else {
            match expr_s(ps1) {
                None => None,
                Some((Err(()), ps2)) => Some((Err(()), ps2)),
                Some((Ok(name), ps2)) => match name.expr {
                    ExprV::Ident(IdentNV::Tagged(tag, v)) => match except_s(ps2, TokenV::Colon) {
                        None => None,
                        Some((_, ps3)) => if rem(ps3) >= rem(ps) {
                            None
                        } else {
                            match list_s(ps3) {
                                None => None,
                                Some((Err(()), ps4)) => Some((Err(()), ps4)),
                                Some((Ok(params), ps4)) => {
                                    let (ids, ps5) = extern_params_s(ps4, params);
                                    Some((Ok(un(ps5, ExprV::Extern { name: IdentNV::Tagged(tag, v), params: ids })), ps5))
                                },
                            }
                        },
                    },
                    _ => None,
                },
            }
        },
    }
}

/// A declaration after `set`: a name, then `=` and a value, or `[` and the
/// fields of a compound type, or else a function.
pub open spec fn declare_s(ps: PS) -> PR
    decreases rem(ps), 1nat, 0nat,
{
    match next_s(ps) {
        None => None,
        Some((_, ps1)) => if rem(ps1) >= rem(ps) {
            None
        } else {
            match expr_s(ps1) {
                None => None,
                Some((Err(()), ps2)) => Some((Err(()), ps2)),
                Some((Ok(left), ps2)) => {
                    let ps3 = scoped(ps2, Scope::Value);
                    match left.expr {
                        ExprV::Ident(name) => match cur_s(ps3) {
                            None => None,
                            Some((t, ps4)) => if rem(ps4) >= rem(ps) {
                                None
                            } else if t == TokenV::Operator("="@) {
                                match next_s(ps4) {
                                    None => None,
                                    Some((_, ps5)) => if rem(ps5) >= rem(ps) {
                                        None
                                    } else {
                                        match level_s(ps5, 0) {
                                            None => None,
                                            Some((Err(()), ps6)) => Some((Err(()), ps6)),
                                            Some((Ok(e), ps6)) => Some((
                                                Ok(un(ps6, ExprV::VarDeclare { name: name, val: Box::new(e) })),
                                                ps6,
                                            )),
                                        }
                                    },
                                }
                            } else if t == TokenV::LeftBracket {
                                declare_atom_s(ps4, name)
                            } else {
                                declare_fn_s(ps4, name)
                            },
                        },
                        _ => Some((
                            Ok(left),
                            err_s(
                                ps3,
                                ErrKind::UnexceptedTokenE,
                                "unexcept token in set expression ["@ + node_debug(left) + "] excepted an id"@,
                            ),
                        )),
                    }
                },
            }
        },
    }
}

/// The fields of a compound type: names with type expressions in brackets.
pub open spec fn declare_atom_s(ps: PS, name: IdentNV) -> PR
    decreases rem(ps), 0nat, 0nat,
{
    match name {
        IdentNV::UnTagged(id) => match next_s(ps) {
            None => None,
            Some((_, ps1)) => if rem(ps1) >= rem(ps) {
                None
            } else {
                match list_of_s(ps1, ItemParser::Expr, ItemFilter::TaggedIdent, TokenV::RightBracket, Seq::empty()) {
                    None => None,
                    Some((Err(()), ps2)) => Some((Err(()), ps2)),
                    Some((Ok(fields), ps2)) => match except_s(ps2, TokenV::RightBracket) {
                        None => None,
                        Some((_, ps3)) => Some((Ok(un(ps3, ExprV::AtomDeclare { name: id, fields: fields })), ps3)),
                    },
                }
            },
        },
        _ => Some((
            Err(()),
            err_s(ps, ErrKind::UnexceptedTokenE, "expected an untagged id as a name for Atom in Atom declare"@),
        )),
    }
}

/// The names among the nodes, where all of them are names.
pub open spec fn arg_ids(args: Seq<NodeV>) -> Option<Seq<IdentNV>> {
    if forall|i: int| 0 <= i < args.len() ==> (#[trigger] args[i]).expr is Ident {
        Some(args.map_values(|n: NodeV| n.expr->Ident_0))
    } else {
        None
    }
}

/// A function: its parameters after `:` (or `!` for none) and its body;
/// it is recorded in the program and stands as its name and position.
/// Where a parameter is no name, an error is reported and an expression is
/// parsed in the function's place.
pub open spec fn declare_fn_s(ps: PS, id: IdentNV) -> PR
    decreases rem(ps), 0nat, 0nat,
{
    match cur_s(ps) {
        None => None,
        Some((t, ps1)) => if t == TokenV::Colon {
            match next_s(ps1) {
                None => None,
                Some((_, ps2)) => if rem(ps2) >= rem(ps) {
                    None
                } else {
                    match list_s(ps2) {
                        None => None,
                        Some((Err(()), ps3)) => Some((Err(()), ps3)),
                        Some((Ok(args), ps3)) => if rem(ps3) >= rem(ps) {
                            None
                        } else {
                            match arg_ids(args) {
                                Some(ids) => fn_body_s(ps3, id, ids),
                                None => level_s(err_s(ps3, ErrKind::UnexceptedArgs, "excepted an id for arg"@), 0),
                            }
                        },
                    }
                },
            }
        } else {
            match except_s(ps1, TokenV::Exec) {
                None => None,
                Some((_, ps2)) => if rem(ps2) >= rem(ps) {
                    None
                } else {
                    fn_body_s(ps2, id, Seq::empty())
                },
            }
        },
    }
}

/// The body of a function named `id` with parameters `ids`; the function
/// is recorded in the program and stands as its name and position.
pub open spec fn fn_body_s(ps: PS, id: IdentNV, ids: Seq<IdentNV>) -> PR
    decreases rem(ps), 11nat, 0nat,
{
    match body_s(ps) {
        None => None,
        Some((body, ps4)) => {
            let ps5 = PS {
                functions: ps4.functions.push(BlueprintNV { name: id, args: ids, body: body }),
                scope: Scope::Value,
                ..ps4
            };
            Some((Ok(un(ps5, ExprV::PosInfo(ident_text(id), ps5.line, ps5.column))), ps5))
        },
    }
}

/// A conditional: the condition, the body, and optionally `else` with
/// another conditional or a body.
pub open spec fn if_s(ps: PS) -> PR
    decreases rem(ps), 1nat, 0nat,
{
    match next_s(ps) {
        None => None,
        Some((_, ps1)) => {
            let ps2 = scoped(ps1, Scope::Value);
            if rem(ps2) >= rem(ps) {
                None
            } else {
                match level_s(ps2, 0) {
                    None => None,
                    Some((Err(()), ps3)) => Some((Err(()), ps3)),
                    Some((Ok(cond), ps3)) => if rem(ps3) >= rem(ps) {
                        None
                    } else {
                        match body_s(ps3) {
                            None => None,
                            Some((body, ps4)) => match cur_s(ps4) {
                                None => None,
                                Some((t, ps5)) => if t == TokenV::ElseKw {
                                    match next_s(ps5) {
                                        None => None,
                                        Some((_, ps6)) => match cur_s(ps6) {
                                            None => None,
                                            Some((t2, ps7)) => if rem(ps7) >= rem(ps) {
                                                None
                                            } else if t2 == TokenV::IfKw {
                                                match if_s(ps7) {
                                                    None => None,
                                                    Some((Err(()), ps8)) => Some((Err(()), ps8)),
                                                    Some((Ok(a), ps8)) => Some((
                                                        Ok(un(ps8, ExprV::IfExpr { condition: Box::new(cond), body: body, alt: Some(Box::new(a)) })),
                                                        ps8,
                                                    )),
                                                }
                                            } else {
                                                match body_s(ps7) {
                                                    None => None,
                                                    Some((b2, ps8)) => {
                                                        let a = un(ps8, ExprV::Block(b2));
                                                        Some((
                                                            Ok(un(ps8, ExprV::IfExpr { condition: Box::new(cond), body: body, alt: Some(Box::new(a)) })),
                                                            ps8,
                                                        ))
                                                    },
                                                }
                                            },
                                        },
                                    }
                                } else {
                                    Some((Ok(un(ps5, ExprV::IfExpr { condition: Box::new(cond), body: body, alt: None })), ps5))
                                },
                            },
                        }
                    },
                }
            }
        },
    }
}

/// A loop: the condition and the body.
pub open spec fn while_s(ps: PS) -> PR
    decreases rem(ps), 1nat, 0nat,
{
    match next_s(ps) {
        None => None,
        Some((_, ps1)) => {
            let ps2 = scoped(ps1, Scope::Value);
            if rem(ps2) >= rem(ps) {
                None
            } else {
                match level_s(ps2, 0) {
                    None => None,
                    Some((Err(()), ps3)) => Some((Err(()), ps3)),
                    Some((Ok(cond), ps3)) => if rem(ps3) >= rem(ps) {
                        None
                    } else {
                        match body_s(ps3) {
                            None => None,
                            Some((body, ps4)) => Some((Ok(un(ps4, ExprV::WhileExpr { condition: Box::new(cond), body: body })), ps4)),
                        }
                    },
                }
            }
        },
    }
}

/// A return of the expression that follows.
pub open spec fn ret_s(ps: PS) -> PR
    decreases rem(ps), 1nat, 0nat,
{
    match next_s(ps) {
        None => None,
        Some((_, ps1)) => {
            let ps2 = scoped(ps1, Scope::Value);
            if rem(ps2) >= rem(ps) {
                None
            } else {
                match level_s(ps2, 0) {
                    None => None,
                    Some((Err(()), ps3)) => Some((Err(()), ps3)),
                    Some((Ok(e), ps3)) => Some((Ok(un(ps3, ExprV::RetExpr(Box::new(e)))), ps3)),
                }
            }
        },
    }
}

/// A statement of a body or program: parsed at the top scope; one whose
/// value is not used is discarded.
pub open spec fn statement_s(ps: PS) -> Option<(Option<NodeV>, PS)>
    decreases rem(ps), 7nat, 2nat,
{
    let ps1 = scoped(ps, Scope::Top);
    match level_s(ps1, 0) {
        None => None,
        Some((Err(()), ps2)) => Some((None, ps2)),
        Some((Ok(e), ps2)) => Some((
            Some(if !(ps2.scope is Value || ps2.scope is Use) { un(ps2, ExprV::Discard(Box::new(e))) } else { e }),
            ps2,
        )),
    }
}

/// The statements of a body up to `]` or the end, after the statements `acc`;
/// none where a statement reads nothing, as the parser would not stop.
#[verifier::opaque]
pub open spec fn body_loop_s(ps: PS, acc: Seq<NodeV>) -> Option<(Seq<NodeV>, PS)>
    decreases rem(ps), 9nat, 0nat,
{
    match cur_s(ps) {
        None => None,
        Some((t, ps1)) => if t == TokenV::RightBracket || t == TokenV::EOF {
            Some((acc, ps1))
        } else if rem(ps1) > rem(ps) {
            None
        } else {
            match statement_s(ps1) {
                None => None,
                Some((s, ps2)) => if rem(ps2) >= rem(ps) {
                    None
                } else {
                    body_loop_s(ps2, match s { Some(n) => acc.push(n), None => acc })
                },
            }
        },
    }
}

/// A body: statements in brackets.
pub open spec fn body_s(ps: PS) -> Option<(Seq<NodeV>, PS)>
    decreases rem(ps), 10nat, 0nat,
{
    match except_s(ps, TokenV::LeftBracket) {
        None => None,
        Some((_, ps1)) => if rem(ps1) > rem(ps) {
            None
        } else {
            match body_loop_s(ps1, Seq::empty()) {
                None => None,
                Some((body, ps2)) => match except_s(ps2, TokenV::RightBracket) {
                    None => None,
                    Some((_, ps3)) => Some((body, ps3)),
                },
            }
        },
    }
}

/// The statements of a program up to the end, each added to its body;
/// none where a statement reads nothing, as the parser would not stop.
pub open spec fn prog_s(ps: PS) -> Option<PS>
    decreases rem(ps),
{
    match cur_s(ps) {
        None => None,
        Some((t, ps1)) => if t == TokenV::EOF {
            Some(ps1)
        } else {
            match statement_s(ps1) {
                None => None,
                Some((s, ps2)) => if rem(ps2) >= rem(ps) {
                    None
                } else {
                    prog_s(match s {
                        Some(n) => PS { body: ps2.body.push(n), ..ps2 },
                        None => ps2,
                    })
                },
            }
        },
    }
}

} // verus!

verus! {

/// A body is its opening bracket, its statements and its closing bracket.
pub proof fn lemma_body_s_unfold(ps: PS)
    ensures
        body_s(ps) == (match except_s(ps, TokenV::LeftBracket) {
            None => None,
            Some((_, ps1)) => if rem(ps1) > rem(ps) {
                None
            } else {
                match body_loop_s(ps1, Seq::empty()) {
                    None => None,
                    Some((body, ps2)) => match except_s(ps2, TokenV::RightBracket) {
                        None => None,
                        Some((_, ps3)) => Some((body, ps3)),
                    },
                }
            },
        }),
{
    reveal(body_loop_s);
}

/// One step of the statements of a body.
pub proof fn lemma_body_loop_unfold(ps: PS, acc: Seq<NodeV>)
    ensures
        body_loop_s(ps, acc) == (match cur_s(ps) {
            None => None,
            Some((t, ps1)) => if t == TokenV::RightBracket || t == TokenV::EOF {
                Some((acc, ps1))
            } else if rem(ps1) > rem(ps) {
                None
            } else {
                match statement_s(ps1) {
                    None => None,
                    Some((s, ps2)) => if rem(ps2) >= rem(ps) {
                        None
                    } else {
                        body_loop_s(ps2, match s { Some(n) => acc.push(n), None => acc })
                    },
                }
            },
        }),
{
    reveal(body_loop_s);
}

} // verus!
