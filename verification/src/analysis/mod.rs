//! The analyzer: checks the types of a parsed program and lowers it to the
//! intermediate representation.
pub mod analysis;
pub mod body;
pub mod decls;
pub mod support;

use vstd::prelude::*;
use crate::convert::can_convert;
use crate::enviroment::{bind, plain_sym, EnvM, Enviroment, SymV};
use crate::err::{ATErr, ErrInfo, ErrKind};
use crate::ir::{instrs_v, IROpV, InstrV, Instruction};
use crate::parser::ast::{ident_name, ident_ty, literal_ty, node_debug, node_v, Expr, Ident, Node};
use crate::text::decimal;
use crate::typeeq::{kind_eq, ty_eq};
use crate::types::{basic_ty, plain_ty, BasicType, DetailsV, KindV, TyV};
use crate::typestr::ty_str;

verus! {

/// The analyzer's state: the working directory, the environment, the imports
/// and functions met so far, the position it reports errors at, and the errors
/// it has reported.
pub struct Analyzer {
    pub workdir: String,
    pub env: Enviroment,
    pub imports: Vec<Node>,
    pub functions: Vec<Node>,
    pub line: u16,
    pub column: u16,
    pub errors: Vec<ATErr>,
}

/// What analyzing one node gives: its instructions or an error, and the
/// meaning of names afterwards.
pub struct Outcome {
    pub out: Result<Seq<InstrV>, ErrInfo>,
    pub env: EnvM,
}

/// What analyzing a list of nodes in order gives.
pub struct SeqOutcome {
    pub out: Result<Seq<Seq<InstrV>>, ErrInfo>,
    pub env: EnvM,
}

/// An error at a position.
pub open spec fn at(kind: ErrKind, msg: Seq<char>, pos: (nat, nat)) -> ErrInfo {
    ErrInfo { kind: kind, msg: msg, line: pos.0, column: pos.1 }
}

/// An instruction as plain values.
pub open spec fn ins(op: IROpV, ty: TyV) -> InstrV {
    InstrV { op: op, ty: ty }
}

/// The type of the value that a list of instructions leaves: that of the last one.
pub open spec fn last_ty(v: Seq<InstrV>) -> TyV {
    v.last().ty
}

/// The nodes that the analyzer handles: literals, identifiers, calls, binary
/// operations, declarations, assignments, discarded values and non-empty
/// blocks, all of whose parts it handles.
pub open spec fn analyzable(n: Node) -> bool
    decreases n,
{
    match n.expr {
        Expr::Literal(_) => true,
        Expr::Ident(_) => true,
        Expr::FnCall { name, args } => analyzable(*name) && all_analyzable(args@),
        Expr::BinaryExpr { op, left, right } => {
            &&& analyzer_op(op@) is Some
            &&& analyzable(*left)
            &&& analyzable(*right)
        },
        Expr::VarDeclare { name, val } => (match name {
            Ident::Tagged(tag, _) => analyzable(*tag),
            _ => true,
        }) && analyzable(*val),
        Expr::VarAssign { name, val } => analyzable(*name) && analyzable(*val),
        Expr::Discard(e) => analyzable(*e),
        Expr::Block(b) => b@.len() > 0 && all_analyzable(b@),
        _ => false,
    }
}

/// Whether the analyzer handles every node of a list.
pub open spec fn all_analyzable(ns: Seq<Node>) -> bool
    decreases ns,
{
    if ns.len() == 0 {
        true
    } else {
        all_analyzable(ns.drop_last()) && analyzable(ns.last())
    }
}

/// The operation of a binary operator, and whether its operands are swapped
/// (`<` and `<=` are `>` and `>=` with swapped operands).
pub open spec fn analyzer_op(op: Seq<char>) -> Option<(IROpV, bool)> {
    if op == "+"@ {
        Some((IROpV::Add, false))
    } else if op == "-"@ {
        Some((IROpV::Sub, false))
    } else if op == "*"@ {
        Some((IROpV::Mul, false))
    } else if op == "/"@ {
        Some((IROpV::Div, false))
    } else if op == "%"@ {
        Some((IROpV::Mod, false))
    } else if op == "=="@ {
        Some((IROpV::Eq, false))
    } else if op == "<"@ {
        Some((IROpV::Comp, true))
    } else if op == ">"@ {
        Some((IROpV::Comp, false))
    } else if op == "<="@ {
        Some((IROpV::EComp, true))
    } else if op == ">="@ {
        Some((IROpV::EComp, false))
    } else if op == "&&"@ {
        Some((IROpV::And, false))
    } else if op == "||"@ {
        Some((IROpV::Or, false))
    } else {
        None
    }
}

/// Makes the types of two operands agree: where they differ, the one that
/// converts into the other gets a conversion (the left one first); where
/// neither does, a type mismatch.
pub open spec fn unify(l: Seq<InstrV>, r: Seq<InstrV>) -> Result<(Seq<InstrV>, Seq<InstrV>), Seq<char>> {
    let lt = last_ty(l);
    let rt = last_ty(r);
    if !ty_eq(lt, rt) {
        if can_convert(lt.kind, rt.kind) {
            Ok((l.push(ins(IROpV::Conv(lt), rt)), r))
        } else if can_convert(rt.kind, lt.kind) {
            Ok((l, r.push(ins(IROpV::Conv(rt), lt))))
        } else {
            Err("type mismatch got "@ + ty_str(lt) + " and "@ + ty_str(rt))
        }
    } else {
        Ok((l, r))
    }
}

/// The type that a binary operation leaves: `bool` for comparisons and logic,
/// else the type of its (possibly swapped) left operand.
pub open spec fn binary_ty(op: IROpV, left: Seq<InstrV>) -> TyV {
    match op {
        IROpV::EComp | IROpV::Comp | IROpV::And | IROpV::Or => basic_ty(BasicType::Bool),
        _ => last_ty(left),
    }
}

/// The instruction lists of arguments made to fit the parameter types, from
/// index `i` on: an argument of another type gets a conversion where the
/// parameter's kind converts into the argument's, else a type mismatch.
pub open spec fn fit_args(params: Seq<TyV>, args: Seq<Seq<InstrV>>, i: int, pos: (nat, nat)) -> Result<Seq<Seq<InstrV>>, ErrInfo>
    decreases args.len() - i,
{
    if i >= args.len() || i < 0 {
        Ok(args)
    } else {
        let ty = last_ty(args[i]);
        if !ty_eq(ty, params[i]) {
            if can_convert(params[i].kind, ty.kind) {
                fit_args(params, args.update(i, args[i].push(ins(IROpV::Conv(ty), params[i]))), i + 1, pos)
            } else {
                Err(at(
                    ErrKind::TypeMismatch,
                    "expected arg of type "@ + ty_str(params[i]) + " got "@ + ty_str(ty) + ", at arg "@
                        + decimal(i as nat),
                    pos,
                ))
            }
        } else {
            fit_args(params, args, i + 1, pos)
        }
    }
}

/// All instruction lists of a sequence, one after the other.
pub open spec fn flatten(s: Seq<Seq<InstrV>>) -> Seq<InstrV>
    decreases s.len(),
{
    if s.len() == 0 {
        Seq::empty()
    } else {
        flatten(s.drop_last()) + s.last()
    }
}

/// Analysis of a node in an environment whose names mean `m`.
pub open spec fn analysis(m: EnvM, n: Node, pos: (nat, nat)) -> Outcome
    decreases n,
{
    match n.expr {
        Expr::Literal(l) => Outcome { out: Ok(seq![ins(IROpV::Const(l@), literal_ty(l))]), env: m },
        Expr::Ident(id) => match id {
            Ident::UnTagged(v) => match m(v@) {
                None => Outcome {
                    out: Err(at(ErrKind::UndeclaredVar, "undeclared variable: "@ + v@, pos)),
                    env: m,
                },
                Some(s) => Outcome { out: Ok(seq![ins(IROpV::Load(s.name), s.ty)]), env: m },
            },
            _ => Outcome {
                out: Err(at(
                    ErrKind::UnexceptedTokenE,
                    "ID "@ + ident_name(id) + " must be untagged (without @Type)"@,
                    pos,
                )),
                env: m,
            },
        },
        Expr::FnCall { name, args } => {
            let o = analysis(m, *name, pos);
            match o.out {
                Err(e) => o,
                Ok(ni) => {
                    let ty = last_ty(ni);
                    match ty.kind {
                        KindV::Function(f) => {
                            let so = analysis_seq(o.env, args@, pos);
                            match so.out {
                                Err(e) => Outcome { out: Err(e), env: so.env },
                                Ok(ais) => if args@.len() != f.params.len() {
                                    Outcome {
                                        out: Err(at(
                                            ErrKind::UnexceptedArgs,
                                            "expected "@ + decimal(f.params.len()) + " args got "@
                                                + decimal(args@.len()),
                                            pos,
                                        )),
                                        env: so.env,
                                    }
                                } else {
                                    match fit_args(f.params, ais, 0, pos) {
                                        Err(e) => Outcome { out: Err(e), env: so.env },
                                        Ok(fitted) => Outcome {
                                            out: Ok(flatten(fitted) + ni + seq![ins(IROpV::Call(args@.len() as u16), ty)]),
                                            env: so.env,
                                        },
                                    }
                                },
                            }
                        },
                        _ => Outcome {
                            out: Err(at(
                                ErrKind::InvaildType,
                                "type "@ + ty_str(ty) + " doesnt impl Call, cannot call "@ + ty_str(ty),
                                pos,
                            )),
                            env: o.env,
                        },
                    }
                },
            }
        },
        Expr::BinaryExpr { op, left, right } => {
            let lo = analysis(m, *left, pos);
            match lo.out {
                Err(e) => lo,
                Ok(li) => {
                    let ro = analysis(lo.env, *right, pos);
                    match ro.out {
                        Err(e) => ro,
                        Ok(ri) => match unify(li, ri) {
                            Err(msg) => Outcome { out: Err(at(ErrKind::TypeMismatch, msg, pos)), env: ro.env },
                            Ok((l, r)) => {
                                let (o, swap) = analyzer_op(op@)->0;
                                let (l2, r2) = if swap { (r, l) } else { (l, r) };
                                Outcome { out: Ok(l2 + r2 + seq![ins(o, binary_ty(o, l2))]), env: ro.env }
                            },
                        },
                    }
                },
            }
        },
        Expr::VarDeclare { name, val } => {
            let (id_out, m1) = unknown_id(m, name, pos);
            match id_out {
                Err(e) => Outcome { out: Err(e), env: m1 },
                Ok((nm, t)) => {
                    let expected = plain_ty(t.kind);
                    let vo = analysis(m1, *val, pos);
                    match vo.out {
                        Err(e) => vo,
                        Ok(vi) => {
                            let ty = last_ty(vi);
                            if !ty_eq(ty, expected) {
                                Outcome {
                                    out: Err(at(ErrKind::InvaildType, "got "@ + ty_str(ty) + " but expected "@ + ty_str(expected), pos)),
                                    env: vo.env,
                                }
                            } else {
                                Outcome {
                                    out: Ok(vi.push(ins(IROpV::Store(nm), ty))),
                                    env: bind(vo.env, nm, plain_sym(nm, ty)),
                                }
                            }
                        },
                    }
                },
            }
        },
        Expr::VarAssign { name, val } => {
            let no = analysis(m, *name, pos);
            match no.out {
                Err(e) => no,
                Ok(ni) => {
                    let vo = analysis(no.env, *val, pos);
                    match vo.out {
                        Err(e) => vo,
                        Ok(vi) => {
                            let ty = last_ty(vi);
                            if !ty_eq(ty, last_ty(ni)) {
                                Outcome {
                                    out: Err(at(
                                        ErrKind::TypeMismatch,
                                        "type mismatch got "@ + ty_str(ty) + " and "@ + ty_str(last_ty(ni))
                                            + ", cannot assign to "@ + node_debug(node_v(*name))
                                            + " with a value of different type"@,
                                        pos,
                                    )),
                                    env: vo.env,
                                }
                            } else {
                                Outcome { out: Ok(vi.push(ins(IROpV::SetVar, ty))), env: vo.env }
                            }
                        },
                    }
                },
            }
        },
        Expr::Discard(e) => {
            let o = analysis(m, *e, pos);
            match o.out {
                Err(er) => o,
                Ok(v) => if kind_eq(last_ty(v).kind, KindV::Basic(BasicType::Void)) {
                    o
                } else {
                    Outcome { out: Ok(v.push(ins(IROpV::Pop, basic_ty(BasicType::Void)))), env: o.env }
                },
            }
        },
        Expr::Block(b) => {
            let so = analysis_seq(m, b@, pos);
            match so.out {
                Err(e) => Outcome { out: Err(e), env: so.env },
                Ok(vs) => Outcome {
                    out: Ok(seq![ins(IROpV::Block(flatten(vs)), last_ty(flatten(vs)))]),
                    env: so.env,
                },
            }
        },
        _ => Outcome { out: Ok(Seq::empty()), env: m },
    }
}

/// What resolving a declared name gives: for a name with a type expression,
/// the type that expression stands for (an error where it is no type); else
/// the name's own type; and the meaning of names afterwards.
pub open spec fn unknown_id(m: EnvM, id: Ident, pos: (nat, nat)) -> (Result<(Seq<char>, TyV), ErrInfo>, EnvM)
    decreases id,
{
    match id {
        Ident::Tagged(tag, v) => {
            let to = analysis(m, *tag, pos);
            match to.out {
                Err(e) => (Err(e), to.env),
                Ok(ti) => {
                    let ty = last_ty(ti);
                    if ty.details != Some(DetailsV::Type) {
                        (Err(at(ErrKind::InvaildType, "got "@ + node_debug(node_v(*tag)) + " but expected a type"@, pos)), to.env)
                    } else {
                        (Ok((v@, ty)), to.env)
                    }
                },
            }
        },
        _ => (Ok((ident_name(id), ident_ty(id))), m),
    }
}

/// The analysis of a call once its callee has been analyzed to `ni`, a
/// function of type `f`: the arguments are analyzed in order, counted, and fit
/// to the parameter types.
pub open spec fn handle_rest(m: EnvM, ni: Seq<InstrV>, f: crate::types::FunV, args: Seq<Node>, pos: (nat, nat)) -> Outcome {
    let ty = last_ty(ni);
    let so = analysis_seq(m, args, pos);
    match so.out {
        Err(e) => Outcome { out: Err(e), env: so.env },
        Ok(ais) => if args.len() != f.params.len() {
            Outcome {
                out: Err(at(
                    ErrKind::UnexceptedArgs,
                    "expected "@ + decimal(f.params.len()) + " args got "@ + decimal(args.len()),
                    pos,
                )),
                env: so.env,
            }
        } else {
            match fit_args(f.params, ais, 0, pos) {
                Err(e) => Outcome { out: Err(e), env: so.env },
                Ok(fitted) => Outcome {
                    out: Ok(flatten(fitted) + ni + seq![ins(IROpV::Call(args.len() as u16), ty)]),
                    env: so.env,
                },
            }
        },
    }
}

/// Whether a call left the analyzer's working directory, imports and
/// functions as they were.
pub open spec fn keeps_setup(a: Analyzer, b: Analyzer) -> bool {
    &&& b.workdir == a.workdir
    &&& b.imports == a.imports
    &&& b.functions == a.functions
}

/// Whether analyzing a node only reads the environment: it declares and
/// assigns nothing, at any depth.
pub open spec fn reads_only(n: Node) -> bool
    decreases n,
{
    match n.expr {
        Expr::FnCall { name, args } => reads_only(*name) && all_reads_only(args@),
        Expr::BinaryExpr { op, left, right } => reads_only(*left) && reads_only(*right),
        Expr::VarDeclare { name, val } => false,
        Expr::VarAssign { name, val } => false,
        Expr::Discard(e) => reads_only(*e),
        Expr::Block(b) => all_reads_only(b@),
        _ => true,
    }
}

/// Whether analyzing each node of a list only reads the environment.
pub open spec fn all_reads_only(ns: Seq<Node>) -> bool
    decreases ns,
{
    if ns.len() == 0 {
        true
    } else {
        all_reads_only(ns.drop_last()) && reads_only(ns.last())
    }
}

/// The position at which an analyzer reports errors.
pub open spec fn an_pos(a: Analyzer) -> (nat, nat) {
    (a.line as nat, a.column as nat)
}

/// Whether a call of the analyzer went from `a` to `b` with result `r` as the
/// outcome `o` says: the environment means what `o` says, and either the
/// instructions are those of `o` with no new error, or the error of `o` was
/// reported and its kind returned.
pub open spec fn analyzed(a: Analyzer, b: Analyzer, o: Outcome, r: Result<Vec<Instruction>, ErrKind>) -> bool {
    &&& keeps_setup(a, b)
    &&& b.line == a.line
    &&& b.column == a.column
    &&& crate::enviroment::env_m(b.env) == o.env
    &&& b.env.blueprints == a.env.blueprints
    &&& match o.out {
        Ok(v) => r is Ok && instrs_v(r->Ok_0@) == v && crate::err::errs_view(b.errors@) == crate::err::errs_view(a.errors@),
        Err(e) => r == Err::<Vec<Instruction>, ErrKind>(e.kind) && crate::err::errs_view(b.errors@) == crate::err::errs_view(a.errors@).push(e),
    }
}

/// Analysis of a list of nodes in order, each in the environment the previous left.
pub open spec fn analysis_seq(m: EnvM, ns: Seq<Node>, pos: (nat, nat)) -> SeqOutcome
    decreases ns,
{
    if ns.len() == 0 {
        SeqOutcome { out: Ok(Seq::empty()), env: m }
    } else {
        let so = analysis_seq(m, ns.drop_last(), pos);
        match so.out {
            Err(e) => so,
            Ok(vs) => {
                let o = analysis(so.env, ns.last(), pos);
                match o.out {
                    Err(e) => SeqOutcome { out: Err(e), env: o.env },
                    Ok(v) => SeqOutcome { out: Ok(vs.push(v)), env: o.env },
                }
            },
        }
    }
}

} // verus!
