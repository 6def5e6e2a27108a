//! Translation of the intermediate representation to C: the stack machine
//! is simulated on a stack of C expressions, and statements are emitted
//! where a value is stored, returned, discarded or a void function called.
use vstd::prelude::*;
use super::codegen::{
    c_var_name, comma_join, int_text, pop_text, pop_texts, redeclared, var_index, lemma_var_index_bounds, CgV, Codegen,
};
use super::{
    add_once, c_params, c_type, groups_v, include_line, join_groups, join_text, lines_v, tabs_of, types_to_cnamed, type_to_c, Emit,
    Emiter, Item, ItemV, item_ty, named_v,
};
use crate::builtins::str_v;
use crate::ir::{IROp, IROpV, IdentV, InstrV, Instruction, instr_v, instrs_v, instrss_v, op_v, ident_v, idents_v};
use crate::parser::ast::Ident;
use crate::typeeq::{atom_eq, kind_eq, kinds_equal, ty_eq, types_equal};
use crate::types::{basic_ty, kind_v, plain_ty, AtomKind, AtomType, BasicType, KindV, TyV};
use crate::text::{copy_string, from_str, push_str, str_eq};

verus! {

/// What emitting an operation gave, as plain values.
pub enum EmitV {
    Body(Seq<Seq<char>>),
    Line(Seq<char>),
    Nothing,
}

impl View for Emit {
    type V = EmitV;

    open spec fn view(&self) -> EmitV {
        match self {
            Emit::Body(ls) => EmitV::Body(lines_v(ls@)),
            Emit::Line(l) => EmitV::Line(l@),
            Emit::Nothing => EmitV::Nothing,
        }
    }
}

/// An emitter as plain values: its lines and its depth.
pub struct EmV {
    pub lines: Seq<Seq<char>>,
    pub col: u32,
}

impl View for Emiter {
    type V = EmV;

    open spec fn view(&self) -> EmV {
        EmV { lines: lines_v(self.body@), col: self.col }
    }
}

/// An emitter after adding lines at its depth.
pub open spec fn em_lines(em: EmV, ls: Seq<Seq<char>>) -> EmV {
    EmV { lines: em.lines + ls.map_values(|l: Seq<char>| tabs_of(em.col as nat) + l), ..em }
}

/// An emitter after adding what an operation gave.
pub open spec fn em_embed(em: EmV, e: EmitV) -> EmV {
    match e {
        EmitV::Body(ls) => em_lines(em, ls),
        EmitV::Line(l) => EmV { lines: em.lines.push(tabs_of(em.col as nat) + l + ";"@), ..em },
        EmitV::Nothing => em,
    }
}

/// An emitter after a block's header, one level deeper; none at the deepest level.
pub open spec fn em_header(em: EmV, s: Seq<char>) -> Option<EmV> {
    if em.col < u32::MAX {
        Some(EmV { lines: em.lines.push(tabs_of(em.col as nat) + s), col: (em.col + 1) as u32 })
    } else {
        None
    }
}

/// An emitter after closing a block.
pub open spec fn em_end(em: EmV) -> EmV {
    let col: u32 = if em.col > 0 { (em.col - 1) as u32 } else { 0 };
    EmV { lines: em.lines.push(tabs_of(col as nat) + "}"@), col: col }
}

/// The state with a value pushed.
pub open spec fn with_push(st: CgV, i: ItemV) -> CgV {
    CgV { stack: st.stack.push(i), ..st }
}

/// The state with another stack.
pub open spec fn with_stack(st: CgV, s: Seq<ItemV>) -> CgV {
    CgV { stack: s, ..st }
}

/// The type and name of a parameter, where it has no type expression
/// (a bare one is of type `any`).
pub open spec fn param_of(i: IdentV) -> Option<(TyV, Seq<char>)> {
    match i {
        IdentV::Tagged(_) => None,
        IdentV::Typed(t, v) => Some((t, v)),
        IdentV::UnTagged(v) => Some((plain_ty(KindV::Any), v)),
    }
}

/// The types and names of parameters, where none has a type expression.
pub open spec fn params_of(ids: Seq<IdentV>) -> Option<Seq<(TyV, Seq<char>)>> {
    if forall|j: int| 0 <= j < ids.len() ==> (#[trigger] param_of(ids[j])) is Some {
        Some(ids.map_values(|i: IdentV| param_of(i)->0))
    } else {
        None
    }
}

/// Whether each parameter's type has C text.
pub open spec fn c_typed(ps: Seq<(TyV, Seq<char>)>) -> bool {
    forall|j: int| 0 <= j < ps.len() ==> c_type((#[trigger] ps[j]).0) is Some
}

/// What emitting one operation gives: the state after it and what it emits.
pub struct Step {
    pub st: CgV,
    pub emit: EmitV,
}

/// What emitting the operations of a body into an emitter gives.
pub struct BodyOut {
    pub st: CgV,
    pub em: EmV,
}

/// The state with a function added: its header (return type, name,
/// parameters), its body's statements one level deeper, and a closing
/// brace; none where a type has no C text or the body cannot be emitted.
pub open spec fn fn_s(st: CgV, name: Seq<char>, args: Seq<(TyV, Seq<char>)>, ret: TyV, body: Seq<InstrV>) -> Option<CgV>
    decreases body, 1nat,
{
    match c_type(ret) {
        None => None,
        Some(tc) => if !c_typed(args) {
            None
        } else {
            match em_header(EmV { lines: Seq::empty(), col: st.col }, tc + " "@ + name + "("@ + c_params(args) + ") {"@) {
                None => None,
                Some(em1) => match body_s(st, em1, body) {
                    None => None,
                    Some(b) => Some(CgV { functions: b.st.functions.push(em_end(b.em).lines), ..b.st }),
                },
            }
        },
    }
}

/// Emitting the operations of a body in order into an emitter.
pub open spec fn body_s(st: CgV, em: EmV, body: Seq<InstrV>) -> Option<BodyOut>
    decreases body, 0nat,
{
    if body.len() == 0 {
        Some(BodyOut { st: st, em: em })
    } else {
        match body_s(st, em, body.drop_last()) {
            None => None,
            Some(b) => match bond_s(b.st, body.last()) {
                None => None,
                Some(s) => Some(BodyOut { st: s.st, em: em_embed(b.em, s.emit) }),
            },
        }
    }
}

/// Running the operations of a list's items in order; what they emit is dropped.
pub open spec fn items_s(st: CgV, items: Seq<Seq<InstrV>>) -> Option<CgV>
    decreases items, 0nat,
{
    if items.len() == 0 {
        Some(st)
    } else {
        match items_s(st, items.drop_last()) {
            None => None,
            Some(st1) => match body_s(st1, EmV { lines: Seq::empty(), col: 0 }, items.last()) {
                None => None,
                Some(b) => Some(b.st),
            },
        }
    }
}

/// The lines of the operations of an alternative: a body's lines as they
/// are, a statement with its semicolon.
pub open spec fn alt_s(st: CgV, alt: Seq<InstrV>) -> Option<(CgV, Seq<Seq<char>>)>
    decreases alt, 0nat,
{
    if alt.len() == 0 {
        Some((st, Seq::empty()))
    } else {
        match alt_s(st, alt.drop_last()) {
            None => None,
            Some((st1, ls)) => match bond_s(st1, alt.last()) {
                None => None,
                Some(s) => Some((
                    s.st,
                    match s.emit {
                        EmitV::Body(b) => ls + b,
                        EmitV::Line(l) => ls.push(l + ";"@),
                        EmitV::Nothing => ls,
                    },
                )),
            },
        }
    }
}

/// Whether a line begins with `if`.
pub open spec fn starts_if(l: Seq<char>) -> bool {
    l.len() >= 2 && l[0] == 'i' && l[1] == 'f'
}

/// The runtime function of a binary operation on dynamic values.
pub open spec fn dyn_fn(op: IROpV) -> Seq<char> {
    match op {
        IROpV::Add => "__add__"@,
        IROpV::Sub => "__sub__"@,
        IROpV::Mul => "__mul__"@,
        IROpV::Div => "__div__"@,
        IROpV::Mod => "__mod__"@,
        IROpV::Comp => "__comp__"@,
        IROpV::EComp => "__ecomp__"@,
        IROpV::Eq => "__eq__"@,
        IROpV::And => "__and__"@,
        _ => "__or__"@,
    }
}

/// The C operator of a binary operation, and whether its result is a boolean.
pub open spec fn c_op(op: IROpV) -> (Seq<char>, bool) {
    match op {
        IROpV::Add => ("+"@, false),
        IROpV::Sub => ("-"@, false),
        IROpV::Mul => ("*"@, false),
        IROpV::Div => ("/"@, false),
        IROpV::Mod => ("%"@, false),
        IROpV::Comp => (">"@, true),
        IROpV::Eq => ("=="@, true),
        IROpV::EComp => (">="@, true),
        IROpV::And => ("&&"@, true),
        _ => ("||"@, true),
    }
}

/// The runtime function of a binary operation on strings, where there is one.
pub open spec fn str_fn(op: Seq<char>) -> Option<Seq<char>> {
    if op == "+"@ {
        Some("__stradd__"@)
    } else if op == "-"@ {
        Some("__strsub__"@)
    } else if op == "=="@ {
        Some("__streq__"@)
    } else if op == ">"@ {
        Some("__strcomp__"@)
    } else if op == ">="@ {
        Some("__strecomp__"@)
    } else {
        None
    }
}

/// Whether an operation is a binary one.
pub open spec fn is_binary(op: IROpV) -> bool {
    op is Add || op is Sub || op is Mul || op is Div || op is Mod || op is Comp || op is EComp || op is Eq
        || op is And || op is Or
}

/// A binary operation of result type `ty` on the two top values: a call of
/// the runtime on dynamic values; of the string runtime where the top
/// value is a string; else the C operator, the top value on its left.
pub open spec fn binary_s(st: CgV, op: IROpV, ty: TyV) -> Option<CgV> {
    if st.stack.len() == 0 {
        None
    } else {
        let top_ty = item_ty(st.stack.last());
        match pop_text(st.stack) {
            None => None,
            Some(a) => match pop_text(a.rest) {
                None => None,
                Some(b) => if kind_eq(ty.kind, KindV::Dynamic) || kind_eq(top_ty.kind, KindV::Dynamic) {
                    Some(with_stack(st, b.rest.push(ItemV::Expr(plain_ty(KindV::Dynamic), dyn_fn(op) + "("@ + a.text + ", "@ + b.text + ")"@))))
                } else {
                    let (o, boolean) = c_op(op);
                    let rty = if boolean { basic_ty(BasicType::Bool) } else { top_ty };
                    if kind_eq(top_ty.kind, KindV::Atom(str_v())) {
                        match str_fn(o) {
                            None => None,
                            Some(f) => Some(with_stack(st, b.rest.push(ItemV::Expr(rty, f + "("@ + a.text + ", "@ + b.text + ")"@)))),
                        }
                    } else {
                        Some(with_stack(st, b.rest.push(ItemV::Expr(rty, a.text + " "@ + o + " "@ + b.text))))
                    }
                },
            },
        }
    }
}

/// A conversion of the top value from type `from` into type `into`, where
/// the backend has one: into a dynamic value from a number, a boolean, a
/// string or a dynamic value; into a float or a string from an integer.
pub open spec fn conv_s(st: CgV, into: TyV, from: TyV) -> Option<CgV> {
    match pop_text(st.stack) {
        None => None,
        Some(p) => {
            let item = p.text;
            let conv: Option<Seq<char>> = match into.kind {
                KindV::Dynamic => match from.kind {
                    KindV::Basic(BasicType::Int) => Some("__int__"@ + "("@ + item + ")"@),
                    KindV::Basic(BasicType::Float) => Some("__float__"@ + "("@ + item + ")"@),
                    KindV::Basic(BasicType::Bool) => Some("__bool__"@ + "("@ + item + ")"@),
                    KindV::Atom(a) => if atom_eq(a, str_v()) { Some("__str__"@ + "("@ + item + ")"@) } else { None },
                    KindV::Dynamic => Some(item),
                    _ => None,
                },
                KindV::Basic(BasicType::Float) => match from.kind {
                    KindV::Basic(BasicType::Int) => Some("(float)"@ + item),
                    _ => None,
                },
                KindV::Atom(a) => if atom_eq(a, str_v()) {
                    match from.kind {
                        KindV::Basic(BasicType::Int) => Some("itos("@ + item + ")"@),
                        _ => None,
                    }
                } else {
                    None
                },
                _ => None,
            };
            match conv {
                None => None,
                Some(c) => Some(with_stack(st, p.rest.push(ItemV::Expr(into, c)))),
            }
        },
    }
}

/// What emitting one operation gives; none where the backend cannot emit it.
pub open spec fn bond_s(st: CgV, ins: InstrV) -> Option<Step>
    decreases ins, 2nat,
{
    let ty = ins.ty;
    match ins.op {
        IROpV::Def(ret, name, args, body) => match params_of(args) {
            None => None,
            Some(ps) => match fn_s(st, name, ps, ret, body) {
                None => None,
                Some(st2) => Some(Step { st: st2, emit: EmitV::Nothing }),
            },
        },
        IROpV::Extern(name, params) => match (c_type(ty), params_of(params)) {
            (Some(tc), Some(ps)) => if c_typed(ps) {
                Some(Step {
                    st: CgV { externs: add_once(st.externs, tc + " "@ + name + "("@ + c_params(ps) + ");"@), ..st },
                    emit: EmitV::Nothing,
                })
            } else {
                None
            },
            _ => None,
        },
        IROpV::Alloc(_) => Some(Step { st: st, emit: EmitV::Nothing }),
        IROpV::Dealloc(name) => Some(Step {
            st: st,
            emit: if kind_eq(ty.kind, KindV::Atom(str_v())) { EmitV::Line("free"@ + "("@ + name + ")"@) } else { EmitV::Nothing },
        }),
        IROpV::Const(c) => Some(Step { st: with_push(st, ItemV::Const(c)), emit: EmitV::Nothing }),
        IROpV::List(lt, items) => match items_s(st, items) {
            None => None,
            Some(st1) => Some(Step { st: with_push(st1, ItemV::List(lt, items.len() as u16)), emit: EmitV::Nothing }),
        },
        IROpV::Store(name) => match (pop_text(st.stack), c_type(ty)) {
            (Some(p), Some(tc)) => Some(Step {
                st: with_stack(st, p.rest),
                emit: EmitV::Line(tc + " "@ + name + " = "@ + p.text),
            }),
            _ => None,
        },
        IROpV::Load(name) => Some(Step { st: with_push(st, ItemV::Var(ty, c_var_name(st.vars, name))), emit: EmitV::Nothing }),
        IROpV::LoadProp(name) => match pop_text(st.stack) {
            None => None,
            Some(p) => Some(Step { st: with_stack(st, p.rest.push(ItemV::Expr(ty, p.text + "->"@ + name))), emit: EmitV::Nothing }),
        },
        IROpV::LoadIdx => match pop_text(st.stack) {
            None => None,
            Some(idx) => match (pop_text(idx.rest), c_type(ty)) {
                (Some(e), Some(tc)) => Some(Step {
                    st: with_stack(st, e.rest.push(ItemV::Expr(ty, "__listget__("@ + e.text + ", "@ + tc + ", "@ + idx.text + ")"@))),
                    emit: EmitV::Nothing,
                }),
                _ => None,
            },
        },
        IROpV::Call(count) => match pop_text(st.stack) {
            None => None,
            Some(n) => match pop_texts(n.rest, count as nat) {
                None => None,
                Some(a) => {
                    let call = n.text + "("@ + comma_join(a.texts) + ")"@;
                    if kind_eq(ty.kind, KindV::Basic(BasicType::Void)) {
                        Some(Step { st: with_stack(st, a.rest), emit: EmitV::Line(call) })
                    } else {
                        Some(Step { st: with_stack(st, a.rest.push(ItemV::Expr(ty, call))), emit: EmitV::Nothing })
                    }
                },
            },
        },
        IROpV::While(body) => match pop_text(st.stack) {
            None => None,
            Some(c) => match em_header(EmV { lines: Seq::empty(), col: st.col }, "while ("@ + c.text + ") {"@) {
                None => None,
                Some(em1) => match body_s(with_stack(st, c.rest), em1, body) {
                    None => None,
                    Some(b) => Some(Step { st: b.st, emit: EmitV::Body(em_end(b.em).lines) }),
                },
            },
        },
        IROpV::If(body, alt) => match pop_text(st.stack) {
            None => None,
            Some(c) => match em_header(EmV { lines: Seq::empty(), col: st.col }, "if ("@ + c.text + ") {"@) {
                None => None,
                Some(em1) => match body_s(with_stack(st, c.rest), em1, body) {
                    None => None,
                    Some(b) => {
                        let em2 = em_end(b.em);
                        if alt.len() == 0 {
                            Some(Step { st: b.st, emit: EmitV::Body(em2.lines) })
                        } else {
                            match alt_s(b.st, alt) {
                                None => None,
                                Some((st3, ls)) => if ls.len() == 0 {
                                    None
                                } else if starts_if(ls[0]) {
                                    Some(Step { st: st3, emit: EmitV::Body(em_lines(em2, ls.update(0, "else "@ + ls[0])).lines) })
                                } else {
                                    match em_header(em2, "else {"@) {
                                        None => None,
                                        Some(em3) => Some(Step { st: st3, emit: EmitV::Body(em_end(em_lines(em3, ls)).lines) }),
                                    }
                                },
                            }
                        }
                    },
                },
            },
        },
        IROpV::Conv(from) => match conv_s(st, ty, from) {
            None => None,
            Some(st2) => Some(Step { st: st2, emit: EmitV::Nothing }),
        },
        IROpV::Pop => if st.stack.len() > 0 {
            match pop_text(st.stack) {
                None => None,
                Some(p) => Some(Step { st: with_stack(st, p.rest), emit: EmitV::Line(p.text) }),
            }
        } else {
            Some(Step { st: st, emit: EmitV::Nothing })
        },
        IROpV::SetVar => match pop_text(st.stack) {
            None => None,
            Some(v) => match (pop_text(v.rest), c_type(ty)) {
                (Some(n), Some(tc)) => {
                    let st1 = with_stack(st, n.rest);
                    match var_index(st.vars, n.text) {
                        Some(i) => if !ty_eq(st.vars[i].ty, ty) {
                            if st.vars[i].count < i32::MAX {
                                let vars2 = redeclared(st.vars, n.text, ty);
                                Some(Step {
                                    st: CgV { vars: vars2, ..st1 },
                                    emit: EmitV::Line(tc + " "@ + c_var_name(vars2, n.text) + " = "@ + v.text),
                                })
                            } else {
                                None
                            }
                        } else {
                            Some(Step { st: st1, emit: EmitV::Nothing })
                        },
                        None => Some(Step { st: st1, emit: EmitV::Line(c_var_name(st.vars, n.text) + " = "@ + v.text) }),
                    }
                },
                _ => None,
            },
        },
        IROpV::Ret => match pop_text(st.stack) {
            None => None,
            Some(p) => Some(Step { st: with_stack(st, p.rest), emit: EmitV::Line("return "@ + p.text) }),
        },
        _ => if is_binary(ins.op) {
            match binary_s(st, ins.op, ty) {
                None => None,
                Some(st2) => Some(Step { st: st2, emit: EmitV::Nothing }),
            }
        } else {
            None
        },
    }
}

/// The state with leading imports included and leading function
/// definitions emitted, and the operations that follow them.
pub open spec fn prefix_s(st: CgV, ir: Seq<InstrV>) -> Option<(CgV, Seq<InstrV>)>
    decreases ir.len(),
{
    if ir.len() == 0 {
        Some((st, ir))
    } else {
        match ir[0].op {
            IROpV::Import(module, _, _) => prefix_s(
                CgV { includes: add_once(st.includes, include_line(module)), ..st },
                ir.drop_first(),
            ),
            IROpV::Def(ret, name, args, body) => match params_of(args) {
                None => None,
                Some(ps) => match fn_s(st, name, ps, ret, body) {
                    None => None,
                    Some(st2) => prefix_s(st2, ir.drop_first()),
                },
            },
            _ => Some((st, ir)),
        }
    }
}

/// The C text of a module: its includes, its extern declarations and its
/// functions' lines (an empty line between two functions), line by line.
pub open spec fn module_text(st: CgV) -> Seq<char> {
    join_text(st.includes + st.externs + join_groups(st.functions, "\n\n"@), "\n"@)
}

/// The C text of a program: leading imports become includes, leading
/// function definitions become functions, and the rest becomes `main`.
pub open spec fn codegen_s(st: CgV, ir: Seq<InstrV>) -> Option<(Seq<char>, CgV)> {
    match prefix_s(st, ir) {
        None => None,
        Some((st1, rest)) => match fn_s(st1, "main"@, Seq::empty(), basic_ty(BasicType::Int), rest) {
            None => None,
            Some(st2) => Some((
                module_text(st2),
                CgV { includes: Seq::empty(), externs: Seq::empty(), functions: Seq::empty(), ..st2 },
            )),
        },
    }
}

/// Where a body can be emitted, so can each of its prefixes.
pub proof fn lemma_body_prefix(st: CgV, em: EmV, body: Seq<InstrV>, i: int)
    requires
        body_s(st, em, body) is Some,
        0 <= i <= body.len(),
    ensures
        body_s(st, em, body.subrange(0, i)) is Some,
    decreases body.len() - i,
{
    if i < body.len() {
        assert(body.subrange(0, i + 1).drop_last() =~= body.subrange(0, i));
        lemma_body_prefix(st, em, body, i + 1);
    } else {
        assert(body.subrange(0, i) =~= body);
    }
}

/// Where a list's items can be run, so can each prefix of them.
pub proof fn lemma_items_prefix(st: CgV, items: Seq<Seq<InstrV>>, i: int)
    requires
        items_s(st, items) is Some,
        0 <= i <= items.len(),
    ensures
        items_s(st, items.subrange(0, i)) is Some,
    decreases items.len() - i,
{
    if i < items.len() {
        assert(items.subrange(0, i + 1).drop_last() =~= items.subrange(0, i));
        lemma_items_prefix(st, items, i + 1);
    } else {
        assert(items.subrange(0, i) =~= items);
    }
}

/// Where an alternative can be emitted, so can each of its prefixes.
pub proof fn lemma_alt_prefix(st: CgV, alt: Seq<InstrV>, i: int)
    requires
        alt_s(st, alt) is Some,
        0 <= i <= alt.len(),
    ensures
        alt_s(st, alt.subrange(0, i)) is Some,
    decreases alt.len() - i,
{
    if i < alt.len() {
        assert(alt.subrange(0, i + 1).drop_last() =~= alt.subrange(0, i));
        lemma_alt_prefix(st, alt, i + 1);
    } else {
        assert(alt.subrange(0, i) =~= alt);
    }
}

/// The models of a list of instructions with its first one removed.
pub proof fn lemma_instrs_v_drop_first(s: Seq<Instruction>)
    requires
        s.len() > 0,
    ensures
        instrs_v(s.drop_first()) == instrs_v(s).drop_first(),
{
    crate::ir::lemma_instrs_v(s);
    crate::ir::lemma_instrs_v(s.drop_first());
    assert(instrs_v(s.drop_first()) =~= instrs_v(s).drop_first());
}

impl Codegen {
    /// A call of `name` with one argument.
    fn call_one(&self, name: &str, arg: String) -> (r: String)
        ensures
            r@ == name@ + "("@ + arg@ + ")"@,
    {
        let mut s = from_str(name);
        push_str(&mut s, "(");
        push_str(&mut s, arg.as_str());
        push_str(&mut s, ")");
        s
    }

    /// A call of `name` with arguments, separated by `, `.
    fn call(&self, name: &str, args: Vec<String>) -> (r: String)
        ensures
            r@ == name@ + "("@ + comma_join(lines_v(args@)) + ")"@,
    {
        let mut s = from_str(name);
        push_str(&mut s, "(");
        let j = super::codegen::join_comma(&args);
        push_str(&mut s, j.as_str());
        push_str(&mut s, ")");
        s
    }

    /// Converts the top value from type `from` into type `into`.
    fn bond_conv(&mut self, into: AtomType, from: AtomType)
        requires
            conv_s(old(self)@, into@, from@) is Some,
        ensures
            final(self)@ == conv_s(old(self)@, into@, from@)->0,
    {
        let ghost st = self@;
        let item = self.pop_str();
        assert(into@.kind == kind_v(into.kind));
        assert(from@.kind == kind_v(from.kind));
        let conv = match &into.kind {
            AtomKind::Dynamic => match &from.kind {
                AtomKind::Basic(BasicType::Int) => self.call_one("__int__", item),
                AtomKind::Basic(BasicType::Float) => self.call_one("__float__", item),
                AtomKind::Basic(BasicType::Bool) => self.call_one("__bool__", item),
                AtomKind::Dynamic => item,
                _ => self.call_one("__str__", item),
            },
            AtomKind::Basic(BasicType::Float) => {
                let mut s = from_str("(float)");
                push_str(&mut s, item.as_str());
                s
            },
            _ => {
                let mut s = from_str("itos(");
                push_str(&mut s, item.as_str());
                push_str(&mut s, ")");
                s
            },
        };
        self.push(Item::Expr(into, conv));
    }

    /// A binary operation on the two top values with result type `ty`:
    /// through the string runtime where the top value is a string, else the
    /// C operator `op` with the top value on its left.
    fn genbinary(&mut self, op: &str, ty: AtomType) -> (r: Item)
        requires
            old(self)@.stack.len() > 0,
            pop_text(old(self)@.stack) matches Some(a) && pop_text(a.rest) is Some,
            kind_eq(item_ty(old(self)@.stack.last()).kind, KindV::Atom(str_v())) ==> str_fn(op@) is Some,
        ensures
            ({
                let a = pop_text(old(self)@.stack)->0;
                let b = pop_text(a.rest)->0;
                &&& final(self)@ == with_stack(old(self)@, b.rest)
                &&& r@ == if kind_eq(item_ty(old(self)@.stack.last()).kind, KindV::Atom(str_v())) {
                    ItemV::Expr(ty@, str_fn(op@)->0 + "("@ + a.text + ", "@ + b.text + ")"@)
                } else {
                    ItemV::Expr(ty@, a.text + " "@ + op@ + " "@ + b.text)
                }
            }),
    {
        let top = self.borrow().get_ty();
        let s = crate::builtins::str_atom();
        let sk = AtomKind::Atom(s);
        assert(kind_v(sk) == KindV::Atom(str_v()));
        assert(top@.kind == kind_v(top.kind));
        if kinds_equal(&top.kind, &sk) {
            let binop = if str_eq(op, "+") {
                "__stradd__"
            } else if str_eq(op, "-") {
                "__strsub__"
            } else if str_eq(op, "==") {
                "__streq__"
            } else if str_eq(op, ">") {
                "__strcomp__"
            } else {
                "__strecomp__"
            };
            let a = self.pop_str();
            let b = self.pop_str();
            let mut t = from_str(binop);
            push_str(&mut t, "(");
            push_str(&mut t, a.as_str());
            push_str(&mut t, ", ");
            push_str(&mut t, b.as_str());
            push_str(&mut t, ")");
            Item::Expr(ty, t)
        } else {
            let a = self.pop_str();
            let b = self.pop_str();
            let mut t = a;
            push_str(&mut t, " ");
            push_str(&mut t, op);
            push_str(&mut t, " ");
            push_str(&mut t, b.as_str());
            Item::Expr(ty, t)
        }
    }

    /// A binary operation whose result has the type of the top value.
    fn binary(&mut self, op: &str) -> (r: Item)
        requires
            old(self)@.stack.len() > 0,
            pop_text(old(self)@.stack) matches Some(a) && pop_text(a.rest) is Some,
            kind_eq(item_ty(old(self)@.stack.last()).kind, KindV::Atom(str_v())) ==> str_fn(op@) is Some,
        ensures
            ({
                let a = pop_text(old(self)@.stack)->0;
                let b = pop_text(a.rest)->0;
                let ty = item_ty(old(self)@.stack.last());
                &&& final(self)@ == with_stack(old(self)@, b.rest)
                &&& r@ == if kind_eq(ty.kind, KindV::Atom(str_v())) {
                    ItemV::Expr(ty, str_fn(op@)->0 + "("@ + a.text + ", "@ + b.text + ")"@)
                } else {
                    ItemV::Expr(ty, a.text + " "@ + op@ + " "@ + b.text)
                }
            }),
    {
        let ty = self.borrow().get_ty();
        self.genbinary(op, ty)
    }

    /// A binary operation whose result is a boolean.
    fn binaryb(&mut self, op: &str) -> (r: Item)
        requires
            old(self)@.stack.len() > 0,
            pop_text(old(self)@.stack) matches Some(a) && pop_text(a.rest) is Some,
            kind_eq(item_ty(old(self)@.stack.last()).kind, KindV::Atom(str_v())) ==> str_fn(op@) is Some,
        ensures
            ({
                let a = pop_text(old(self)@.stack)->0;
                let b = pop_text(a.rest)->0;
                let ty = basic_ty(BasicType::Bool);
                &&& final(self)@ == with_stack(old(self)@, b.rest)
                &&& r@ == if kind_eq(item_ty(old(self)@.stack.last()).kind, KindV::Atom(str_v())) {
                    ItemV::Expr(ty, str_fn(op@)->0 + "("@ + a.text + ", "@ + b.text + ")"@)
                } else {
                    ItemV::Expr(ty, a.text + " "@ + op@ + " "@ + b.text)
                }
            }),
    {
        self.genbinary(op, AtomType::basic(BasicType::Bool))
    }

    /// A binary operation of result type `ty` on the two top values.
    fn bond_binary(&mut self, op: IROp, ty: AtomType) -> (r: Emit)
        requires
            is_binary(op_v(op)),
            binary_s(old(self)@, op_v(op), ty@) is Some,
        ensures
            final(self)@ == binary_s(old(self)@, op_v(op), ty@)->0,
            r@ == EmitV::Nothing,
    {
        let d = AtomKind::Dynamic;
        assert(kind_v(d) == KindV::Dynamic);
        assert(ty@.kind == kind_v(ty.kind));
        let top = self.borrow().get_ty();
        assert(top@.kind == kind_v(top.kind));
        let item = if kinds_equal(&ty.kind, &d) || kinds_equal(&top.kind, &d) {
            let a = self.pop_str();
            let b = self.pop_str();
            let ghost av0 = a@;
            let ghost bv0 = b@;
            let ops = vec![a, b];
            let name = match op {
                IROp::Add => "__add__",
                IROp::Sub => "__sub__",
                IROp::Mul => "__mul__",
                IROp::Div => "__div__",
                IROp::Mod => "__mod__",
                IROp::Comp => "__comp__",
                IROp::EComp => "__ecomp__",
                IROp::Eq => "__eq__",
                IROp::And => "__and__",
                _ => "__or__",
            };
            proof {
                reveal_strlit("__add__");
            }
            assert(name@ == dyn_fn(op_v(op)));
            assert(lines_v(ops@) =~= seq![av0, bv0]);
            assert(comma_join(seq![av0, bv0]) =~= av0 + ", "@ + bv0) by {
                assert(seq![av0, bv0].drop_last() =~= seq![av0]);
                assert(comma_join(seq![av0]) == av0);
            }
            let t = self.call(name, ops);
            assert(t@ =~= dyn_fn(op_v(op)) + "("@ + av0 + ", "@ + bv0 + ")"@);
            assert(kind_v(AtomKind::Dynamic) == KindV::Dynamic);
            Item::Expr(AtomType::plain(AtomKind::Dynamic), t)
        } else {
            match op {
                IROp::Add => self.binary("+"),
                IROp::Sub => self.binary("-"),
                IROp::Mul => self.binary("*"),
                IROp::Div => self.binary("/"),
                IROp::Mod => self.binary("%"),
                IROp::Comp => self.binaryb(">"),
                IROp::Eq => self.binaryb("=="),
                IROp::EComp => self.binaryb(">="),
                IROp::And => self.binaryb("&&"),
                _ => self.binaryb("||"),
            }
        };
        self.push(item);
        Emit::Nothing
    }
}

/// The types and names of parameters that have no type expression.
fn params_tuples(params: Vec<Ident>) -> (r: Vec<(AtomType, String)>)
    requires
        params_of(idents_v(params@)) is Some,
    ensures
        named_v(r@) == params_of(idents_v(params@))->0,
{
    let ghost orig = params@;
    let ghost ids = idents_v(orig);
    let mut rest = params;
    let total = rest.len();
    let mut out: Vec<(AtomType, String)> = Vec::new();
    let mut i: usize = 0;
    assert(rest@ =~= orig.subrange(0, total as int));
    while rest.len() > 0
        invariant
            i + rest@.len() == orig.len(),
            orig.len() <= usize::MAX,
            rest@ == orig.subrange(i as int, orig.len() as int),
            ids == idents_v(orig),
            params_of(ids) is Some,
            out@.len() == i,
            forall|j: int| 0 <= j < i ==> named_v(out@)[j] == param_of(ids[j])->0,
        decreases rest@.len(),
    {
        let p = rest.remove(0);
        assert(p == orig[i as int]);
        assert(ids[i as int] == ident_v(p));
        assert(param_of(ids[i as int]) is Some);
        let t = p.tuple();
        let ghost tv = (t.0@, t.1@);
        assert(tv == param_of(ids[i as int])->0);
        let ghost o0 = out@;
        out.push(t);
        assert forall|j: int| 0 <= j < i + 1 implies named_v(out@)[j] == param_of(ids[j])->0 by {
            if j < i {
                assert(out@[j] == o0[j]);
                assert(named_v(o0)[j] == param_of(ids[j])->0);
            } else {
                assert(named_v(out@)[j] == tv);
            }
        }
        assert(rest@ =~= orig.subrange(i + 1, orig.len() as int));
        i = i + 1;
    }
    assert(named_v(out@) =~= params_of(ids)->0);
    out
}

impl Codegen {
    /// Emits the operations of a body in order into an emitter.
    fn bond_body(&mut self, em: &mut Emiter, body: Vec<Instruction>)
        requires
            body_s(old(self)@, old(em)@, instrs_v(body@)) is Some,
        ensures
            body_s(old(self)@, old(em)@, instrs_v(body@)) == Some(BodyOut { st: final(self)@, em: final(em)@ }),
        decreases body, 0nat,
    {
        let ghost orig = body@;
        let ghost bv = instrs_v(orig);
        let ghost st0 = self@;
        let ghost em0 = em@;
        let mut rest = body;
        let total = rest.len();
        let mut i: usize = 0;
        proof {
            crate::ir::lemma_instrs_v(orig);
            assert(bv.subrange(0, 0) =~= Seq::<InstrV>::empty());
            assert(rest@ =~= orig.subrange(0, total as int));
        }
        while rest.len() > 0
            invariant
                i + rest@.len() == orig.len(),
                orig.len() <= usize::MAX,
                rest@ == orig.subrange(i as int, orig.len() as int),
                bv == instrs_v(orig),
                bv.len() == orig.len(),
                forall|j: int| 0 <= j < orig.len() ==> #[trigger] bv[j] == instr_v(orig[j]),
                body_s(st0, em0, bv) is Some,
                body_s(st0, em0, bv.subrange(0, i as int)) == Some(BodyOut { st: self@, em: em@ }),
                orig == body@,
            decreases rest@.len(),
        {
            let item = rest.remove(0);
            assert(item == orig[i as int]);
            proof {
                lemma_body_prefix(st0, em0, bv, i + 1);
                let post = bv.subrange(0, i + 1);
                assert(post.drop_last() =~= bv.subrange(0, i as int));
                assert(post.last() == bv[i as int]);
                assert(decreases_to!(body => body@));
                assert(decreases_to!(body@ => body@[i as int]));
            }
            let e = self.bond(item);
            em.embed(e);
            proof {
                let post = bv.subrange(0, i + 1);
                assert(em@ == em_embed(body_s(st0, em0, bv.subrange(0, i as int))->0.em, e@)) by {
                    let em1 = body_s(st0, em0, bv.subrange(0, i as int))->0.em;
                    match e {
                        Emit::Body(ls) => {},
                        Emit::Line(l) => {
                            assert(tabs_of(em1.col as nat) + l@ + ";"@ =~= tabs_of(em1.col as nat) + l@ + ";"@);
                        },
                        Emit::Nothing => {},
                    }
                }
            }
            assert(rest@ =~= orig.subrange(i + 1, orig.len() as int));
            i = i + 1;
        }
        assert(bv.subrange(0, bv.len() as int) =~= bv);
    }

    /// Adds a function: its header, its body one level deeper and a closing brace.
    fn bond_fn(&mut self, name: String, args: Vec<(AtomType, String)>, ret: AtomType, body: Vec<Instruction>)
        requires
            fn_s(old(self)@, name@, named_v(args@), ret@, instrs_v(body@)) is Some,
        ensures
            final(self)@ == fn_s(old(self)@, name@, named_v(args@), ret@, instrs_v(body@))->0,
        decreases body, 1nat,
    {
        let ty = type_to_c(&ret);
        proof {
            assert forall|j: int| 0 <= j < args@.len() implies c_type((#[trigger] args@[j]).0@) is Some by {
                assert(named_v(args@)[j].0 == args@[j].0@);
            }
        }
        let ghost nv = named_v(args@);
        let params = types_to_cnamed(args);
        let mut emiter = self.emiter();
        let mut header = ty;
        push_str(&mut header, " ");
        push_str(&mut header, name.as_str());
        push_str(&mut header, "(");
        push_str(&mut header, params.as_str());
        push_str(&mut header, ") {");
        assert(emiter@.lines =~= Seq::<Seq<char>>::empty());
        emiter.emit_header(header.as_str());
        self.bond_body(&mut emiter, body);
        emiter.end();
        let lines = emiter.finish();
        let ghost f0 = self.module.functions@;
        self.module.func(lines);
        assert(groups_v(self.module.functions@) =~= groups_v(f0).push(lines_v(lines@)));
    }

    /// Adds an extern declaration of a function of return type `ret`.
    fn bond_extern(&mut self, ret: AtomType, name: String, params: Vec<Ident>) -> (r: Emit)
        requires
            c_type(ret@) is Some,
            params_of(idents_v(params@)) matches Some(ps) && c_typed(ps),
        ensures
            final(self)@ == (CgV {
                externs: add_once(old(self)@.externs, c_type(ret@)->0 + " "@ + name@ + "("@ + c_params(params_of(idents_v(params@))->0) + ");"@),
                ..old(self)@
            }),
            r@ == EmitV::Nothing,
    {
        let ty = type_to_c(&ret);
        let ghost ps = params_of(idents_v(params@))->0;
        let tuples = params_tuples(params);
        proof {
            assert forall|j: int| 0 <= j < tuples@.len() implies c_type((#[trigger] tuples@[j]).0@) is Some by {
                assert(named_v(tuples@)[j] == ps[j]);
            }
        }
        let ps_text = types_to_cnamed(tuples);
        let mut line = ty;
        push_str(&mut line, " ");
        push_str(&mut line, name.as_str());
        push_str(&mut line, "(");
        push_str(&mut line, ps_text.as_str());
        push_str(&mut line, ");");
        self.module.extern_add(line);
        Emit::Nothing
    }

    /// Runs the operations of each item of a list in order; what they emit is dropped.
    fn bond_items(&mut self, items: Vec<Vec<Instruction>>)
        requires
            items_s(old(self)@, instrss_v(items@)) is Some,
        ensures
            items_s(old(self)@, instrss_v(items@)) == Some(final(self)@),
        decreases items, 0nat,
    {
        let ghost orig = items@;
        let ghost iv = instrss_v(orig);
        let ghost st0 = self@;
        let mut rest = items;
        let total = rest.len();
        let mut i: usize = 0;
        proof {
            crate::analysis::analysis::lemma_instrss_v(orig);
            assert(iv.subrange(0, 0) =~= Seq::<Seq<InstrV>>::empty());
            assert(rest@ =~= orig.subrange(0, total as int));
        }
        while rest.len() > 0
            invariant
                i + rest@.len() == orig.len(),
                orig.len() <= usize::MAX,
                rest@ == orig.subrange(i as int, orig.len() as int),
                iv == instrss_v(orig),
                iv.len() == orig.len(),
                forall|j: int| 0 <= j < orig.len() ==> #[trigger] iv[j] == instrs_v(orig[j]@),
                items_s(st0, iv) is Some,
                items_s(st0, iv.subrange(0, i as int)) == Some(self@),
                orig == items@,
            decreases rest@.len(),
        {
            let item = rest.remove(0);
            assert(item == orig[i as int]);
            proof {
                lemma_items_prefix(st0, iv, i + 1);
                let post = iv.subrange(0, i + 1);
                assert(post.drop_last() =~= iv.subrange(0, i as int));
                assert(post.last() == iv[i as int]);
                assert(decreases_to!(items => items@));
                assert(decreases_to!(items@ => items@[i as int]));
            }
            let mut em = Emiter::new(0);
            assert(em@.lines =~= Seq::<Seq<char>>::empty());
            assert(em@ == (EmV { lines: Seq::empty(), col: 0 }));
            self.bond_body(&mut em, item);
            assert(rest@ =~= orig.subrange(i + 1, orig.len() as int));
            i = i + 1;
        }
        assert(iv.subrange(0, iv.len() as int) =~= iv);
    }

    /// The lines of the operations of an alternative.
    fn bond_alt(&mut self, alt: Vec<Instruction>) -> (r: Vec<String>)
        requires
            alt_s(old(self)@, instrs_v(alt@)) is Some,
        ensures
            alt_s(old(self)@, instrs_v(alt@)) == Some((final(self)@, lines_v(r@))),
        decreases alt, 0nat,
    {
        let ghost orig = alt@;
        let ghost bv = instrs_v(orig);
        let ghost st0 = self@;
        let mut rest = alt;
        let total = rest.len();
        let mut out: Vec<String> = Vec::new();
        let mut i: usize = 0;
        proof {
            crate::ir::lemma_instrs_v(orig);
            assert(bv.subrange(0, 0) =~= Seq::<InstrV>::empty());
            assert(rest@ =~= orig.subrange(0, total as int));
            assert(lines_v(out@) =~= Seq::<Seq<char>>::empty());
        }
        while rest.len() > 0
            invariant
                i + rest@.len() == orig.len(),
                orig.len() <= usize::MAX,
                rest@ == orig.subrange(i as int, orig.len() as int),
                bv == instrs_v(orig),
                bv.len() == orig.len(),
                forall|j: int| 0 <= j < orig.len() ==> #[trigger] bv[j] == instr_v(orig[j]),
                alt_s(st0, bv) is Some,
                alt_s(st0, bv.subrange(0, i as int)) == Some((self@, lines_v(out@))),
                orig == alt@,
            decreases rest@.len(),
        {
            let item = rest.remove(0);
            assert(item == orig[i as int]);
            proof {
                lemma_alt_prefix(st0, bv, i + 1);
                let post = bv.subrange(0, i + 1);
                assert(post.drop_last() =~= bv.subrange(0, i as int));
                assert(post.last() == bv[i as int]);
                assert(decreases_to!(alt => alt@));
                assert(decreases_to!(alt@ => alt@[i as int]));
            }
            let ghost o0 = lines_v(out@);
            let e = self.bond(item);
            match e {
                Emit::Body(lines) => {
                    let mut k: usize = 0;
                    while k < lines.len()
                        invariant
                            k <= lines@.len(),
                            lines_v(out@) == o0 + lines_v(lines@).subrange(0, k as int),
                        decreases lines@.len() - k,
                    {
                        let ghost ob = lines_v(out@);
                        out.push(copy_string(&lines[k]));
                        assert(lines_v(out@) =~= ob.push(lines@[k as int]@));
                        assert(lines_v(lines@).subrange(0, k + 1) =~= lines_v(lines@).subrange(0, k as int).push(lines@[k as int]@));
                        k = k + 1;
                    }
                    assert(lines_v(lines@).subrange(0, lines@.len() as int) =~= lines_v(lines@));
                },
                Emit::Line(l) => {
                    let mut t = l;
                    push_str(&mut t, ";");
                    out.push(t);
                    assert(lines_v(out@) =~= o0.push(t@));
                },
                Emit::Nothing => {},
            }
            assert(rest@ =~= orig.subrange(i + 1, orig.len() as int));
            i = i + 1;
        }
        assert(bv.subrange(0, bv.len() as int) =~= bv);
        out
    }

    /// A loop on the top value: its header, its body one level deeper and a
    /// closing brace.
    fn bond_while(&mut self, body: Vec<Instruction>, Ghost(whole): Ghost<Instruction>) -> (r: Emit)
        requires
            whole.op == IROp::While(body),
            bond_s(old(self)@, whole@) is Some,
        ensures
            bond_s(old(self)@, whole@) == Some(Step { st: final(self)@, emit: r@ }),
        decreases whole, 1nat,
    {
        assert(decreases_to!(whole => body));
        let mut emiter = self.emiter();
        let cond = self.pop_str();
        let mut header = from_str("while (");
        push_str(&mut header, cond.as_str());
        push_str(&mut header, ") {");
        assert(emiter@.lines =~= Seq::<Seq<char>>::empty());
        emiter.emit_header(header.as_str());
        self.bond_body(&mut emiter, body);
        emiter.end();
        Emit::Body(emiter.finish())
    }

    /// A conditional on the top value: its header, its body one level deeper
    /// and a closing brace, then its alternative: an `else if` where it
    /// begins with a conditional, else an `else` block.
    fn bond_if(&mut self, body: Vec<Instruction>, alt: Vec<Instruction>, Ghost(whole): Ghost<Instruction>) -> (r: Emit)
        requires
            whole.op == IROp::If(body, alt),
            bond_s(old(self)@, whole@) is Some,
        ensures
            bond_s(old(self)@, whole@) == Some(Step { st: final(self)@, emit: r@ }),
        decreases whole, 1nat,
    {
        assert(decreases_to!(whole => body));
        assert(decreases_to!(whole => alt));
        let mut emiter = self.emiter();
        let cond = self.pop_str();
        let mut header = from_str("if (");
        push_str(&mut header, cond.as_str());
        push_str(&mut header, ") {");
        assert(emiter@.lines =~= Seq::<Seq<char>>::empty());
        emiter.emit_header(header.as_str());
        self.bond_body(&mut emiter, body);
        emiter.end();
        if alt.len() > 0 {
            let mut compiled_alt = self.bond_alt(alt);
            let first = compiled_alt[0].as_str();
            let n = first.unicode_len();
            let starts = n >= 2 && first.get_char(0) == 'i' && first.get_char(1) == 'f';
            if starts {
                let mut t = from_str("else ");
                push_str(&mut t, compiled_alt[0].as_str());
                let ghost c0 = lines_v(compiled_alt@);
                compiled_alt.set(0, t);
                assert(lines_v(compiled_alt@) =~= c0.update(0, "else "@ + c0[0]));
                emiter.lines(compiled_alt);
            } else {
                emiter.emit_header("else {");
                emiter.lines(compiled_alt);
                emiter.end();
            }
        }
        Emit::Body(emiter.finish())
    }

    /// Emits one operation: stack operations change the simulated stack,
    /// and a statement or block is returned where one is due.
    #[verifier::rlimit(60)]
    pub fn bond(&mut self, ins: Instruction) -> (r: Emit)
        requires
            bond_s(old(self)@, ins@) is Some,
        ensures
            bond_s(old(self)@, ins@) == Some(Step { st: final(self)@, emit: r@ }),
        decreases ins, 2nat,
    {
        let ghost whole = ins;
        let Instruction { op, ty } = ins;
        match op {
            IROp::Def(ret, name, args, body) => {
                assert(decreases_to!(whole => body));
                assert(whole@.op == IROpV::Def(ret@, name@, idents_v(args@), instrs_v(body@)));
                let tuples = params_tuples(args);
                self.bond_fn(name, tuples, ret, body);
                Emit::Nothing
            },
            IROp::Extern(name, params) => self.bond_extern(ty, name, params),
            IROp::Alloc(_) => Emit::Nothing,
            IROp::Dealloc(name) => {
                let sk = AtomKind::Atom(crate::builtins::str_atom());
                assert(kind_v(sk) == KindV::Atom(str_v()));
                assert(ty@.kind == kind_v(ty.kind));
                if kinds_equal(&ty.kind, &sk) {
                    let line = self.call_one("free", name);
                    Emit::Line(line)
                } else {
                    Emit::Nothing
                }
            },
            IROp::Const(con) => {
                self.push(Item::Const(con));
                Emit::Nothing
            },
            IROp::List(lt, items) => {
                assert(decreases_to!(whole => items));
                let n = items.len();
                proof {
                    crate::analysis::analysis::lemma_instrss_v(items@);
                }
                self.bond_items(items);
                self.push(Item::List(lt, n as u16));
                Emit::Nothing
            },
            IROp::Store(name) => {
                let val = self.pop_str();
                let mut line = type_to_c(&ty);
                push_str(&mut line, " ");
                push_str(&mut line, name.as_str());
                push_str(&mut line, " = ");
                push_str(&mut line, val.as_str());
                Emit::Line(line)
            },
            IROp::Load(name) => {
                let cname = self.get_var(name);
                self.push(Item::Var(ty, cname));
                Emit::Nothing
            },
            IROp::LoadProp(name) => {
                let mut t = self.pop_str();
                push_str(&mut t, "->");
                push_str(&mut t, name.as_str());
                self.push(Item::Expr(ty, t));
                Emit::Nothing
            },
            IROp::LoadIdx => {
                let idx = self.pop_str();
                let expr = self.pop_str();
                let mut t = from_str("__listget__(");
                push_str(&mut t, expr.as_str());
                push_str(&mut t, ", ");
                let tc = type_to_c(&ty);
                push_str(&mut t, tc.as_str());
                push_str(&mut t, ", ");
                push_str(&mut t, idx.as_str());
                push_str(&mut t, ")");
                self.push(Item::Expr(ty, t));
                Emit::Nothing
            },
            IROp::Call(count) => {
                let name = self.pop_str();
                proof {
                    super::codegen::lemma_pop_shrinks(self@.stack, count as nat);
                }
                let args = self.pop_amount(count);
                let joined = super::codegen::join_comma(&args);
                let mut call = name;
                push_str(&mut call, "(");
                push_str(&mut call, joined.as_str());
                push_str(&mut call, ")");
                let v = AtomKind::Basic(BasicType::Void);
                assert(kind_v(v) == KindV::Basic(BasicType::Void));
                assert(ty@.kind == kind_v(ty.kind));
                if kinds_equal(&ty.kind, &v) {
                    Emit::Line(call)
                } else {
                    self.push(Item::Expr(ty, call));
                    Emit::Nothing
                }
            },
            IROp::While(body) => self.bond_while(body, Ghost(whole)),
            IROp::If(body, alt) => self.bond_if(body, alt, Ghost(whole)),
            IROp::Conv(from) => {
                self.bond_conv(ty, from);
                Emit::Nothing
            },
            IROp::Pop => {
                if self.stack.len() > 0 {
                    let t = self.pop_str();
                    Emit::Line(t)
                } else {
                    Emit::Nothing
                }
            },
            IROp::SetVar => {
                let val = self.pop_str();
                let name = self.pop_str();
                let tyc = type_to_c(&ty);
                proof {
                    lemma_var_index_bounds(self@.vars, name@);
                }
                match super::codegen::find_var(&self.variables, &name) {
                    Some(i) => {
                        if !types_equal(&self.variables[i].ty, &ty) {
                            let ghost tv = ty@;
                            let cname = self.var(name, ty);
                            let mut line = tyc;
                            push_str(&mut line, " ");
                            push_str(&mut line, cname.as_str());
                            push_str(&mut line, " = ");
                            push_str(&mut line, val.as_str());
                            Emit::Line(line)
                        } else {
                            Emit::Nothing
                        }
                    },
                    None => {
                        let mut line = self.get_var(name);
                        push_str(&mut line, " = ");
                        push_str(&mut line, val.as_str());
                        Emit::Line(line)
                    },
                }
            },
            IROp::Ret => {
                let val = self.pop_str();
                let mut line = from_str("return ");
                push_str(&mut line, val.as_str());
                Emit::Line(line)
            },
            IROp::Add | IROp::Sub | IROp::Mul | IROp::Div | IROp::Mod | IROp::Comp | IROp::EComp | IROp::Eq | IROp::And
            | IROp::Or => self.bond_binary(op, ty),
            _ => {
                proof {
                    assert(false);
                }
                Emit::Nothing
            },
        }
    }

    /// The C text of a program: leading imports become includes, leading
    /// function definitions become functions, and the rest becomes `main`.
    pub fn codegen(&mut self, ir: Vec<Instruction>) -> (r: String)
        requires
            codegen_s(old(self)@, instrs_v(ir@)) is Some,
        ensures
            codegen_s(old(self)@, instrs_v(ir@)) == Some((r@, final(self)@)),
    {
        let ghost st0 = self@;
        let ghost orig = instrs_v(ir@);
        let mut ir = ir;
        #[verifier::loop_isolation(false)]
        loop
            invariant
                prefix_s(st0, orig) == prefix_s(self@, instrs_v(ir@)),
                prefix_s(st0, orig) is Some,
            decreases ir@.len(),
        {
            if ir.len() == 0 {
                assert(prefix_s(self@, instrs_v(ir@)) == Some((self@, instrs_v(ir@))));
                break;
            }
            proof {
                crate::ir::lemma_instrs_v(ir@);
                lemma_instrs_v_drop_first(ir@);
            }
            let is_import = match &ir[0].op {
                IROp::Import(_, _, _) => true,
                _ => false,
            };
            let is_def = match &ir[0].op {
                IROp::Def(_, _, _, _) => true,
                _ => false,
            };
            if is_import {
                let first = ir.remove(0);
                match first.op {
                    IROp::Import(module, _, _) => {
                        self.module.add_include(module);
                    },
                    _ => {},
                }
            } else if is_def {
                let first = ir.remove(0);
                match first.op {
                    IROp::Def(ret, name, args, body) => {
                        let tuples = params_tuples(args);
                        self.bond_fn(name, tuples, ret, body);
                    },
                    _ => {},
                }
            } else {
                assert(prefix_s(self@, instrs_v(ir@)) == Some((self@, instrs_v(ir@))));
                break;
            }
        }
        let main = from_str("main");
        proof {
            reveal_strlit("main");
        }
        let args: Vec<(AtomType, String)> = Vec::new();
        assert(named_v(args@) =~= Seq::<(TyV, Seq<char>)>::empty());
        self.bond_fn(main, args, AtomType::basic(BasicType::Int), ir);
        let ghost st2 = self@;
        let text = self.module.finish();
        assert(self@.includes =~= Seq::<Seq<char>>::empty());
        assert(self@.externs =~= Seq::<Seq<char>>::empty());
        assert(self@.functions =~= Seq::<Seq<Seq<char>>>::empty());
        assert(text@ == module_text(st2));
        text
    }
}

} // verus!
