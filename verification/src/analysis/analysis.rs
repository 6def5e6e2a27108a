//! The analysis of each kind of node.
use vstd::prelude::*;
use super::{
    unknown_id,
    all_analyzable, an_pos, analysis, analysis_seq, analyzable, analyzed, analyzer_op, at,
    binary_ty, fit_args, flatten, handle_rest, ins, last_ty, unify,
    Analyzer, Outcome, SeqOutcome, keeps_setup, reads_only, all_reads_only,
};
use crate::convert::{can_convert, can_implicitly_convert};
use crate::enviroment::{bind, builtin, env_m, plain_sym, EnvM, Enviroment, Symbol};
use crate::err::{errs_view, ATErr, ErrInfo, ErrKind};
use crate::ir::{op_v, instr_v, instrs_v, instrss_v, lemma_instrs_v, lemma_instrs_v_add, lemma_instrs_v_one, IROp, IROpV, InstrV, Instruction, Program as IrProgram};
use crate::parser::ast::{debug_node, node_debug, node_v, Program, ident_name, ident_ty, literal_ty, Expr, Ident, Node};
use crate::text::{copy_string, decimal, push_decimal, push_str, str_eq};
use crate::typeeq::{kind_eq, kinds_equal, ty_eq, types_equal};
use crate::types::{lemma_tys_v, basic_ty, kind_v, plain_ty, ty_v, tys_v, AtomDetails, AtomKind, AtomType, BasicType, DetailsV, FunctionType, KindV, TyV};
use crate::typestr::{push_ty, ty_str};

verus! {

/// The views of a list of instructions.
pub open spec fn iv(v: Vec<Instruction>) -> Seq<InstrV> {
    instrs_v(v@)
}

/// The views of a list of instruction lists.
pub open spec fn ivv(v: Vec<Vec<Instruction>>) -> Seq<Seq<InstrV>> {
    instrss_v(v@)
}

/// The type of the value that a non-empty list of instructions leaves.
pub fn get_instrs_type(instrs: &Vec<Instruction>) -> (r: AtomType)
    requires
        instrs@.len() > 0,
    ensures
        r@ == last_ty(instrs_v(instrs@)),
{
    proof {
        lemma_instrs_v(instrs@);
    }
    instrs[instrs.len() - 1].ty()
}

/// What an analysis that succeeds gives is not empty.
pub proof fn lemma_analysis_nonempty(m: EnvM, n: Node, pos: (nat, nat))
    requires
        analyzable(n),
    ensures
        analysis(m, n, pos).out matches Ok(v) ==> v.len() > 0,
    decreases n,
{
    if let Expr::Discard(e) = n.expr {
        lemma_analysis_nonempty(m, *e, pos);
    }
}

/// What an analysis of a list that succeeds gives has one non-empty list per node.
pub proof fn lemma_analysis_seq_nonempty(m: EnvM, ns: Seq<Node>, pos: (nat, nat))
    requires
        all_analyzable(ns),
    ensures
        analysis_seq(m, ns, pos).out matches Ok(vs) ==> vs.len() == ns.len() && forall|i: int|
            0 <= i < vs.len() ==> (#[trigger] vs[i]).len() > 0,
    decreases ns.len(),
{
    if ns.len() > 0 {
        lemma_analysis_seq_nonempty(m, ns.drop_last(), pos);
        let so = analysis_seq(m, ns.drop_last(), pos);
        if so.out is Ok {
            lemma_analysis_nonempty(so.env, ns.last(), pos);
        }
    }
}

/// The flattening of lists of which one is not empty is not empty.
pub proof fn lemma_flatten_len(s: Seq<Seq<InstrV>>)
    ensures
        flatten(s).len() >= if s.len() > 0 { s.last().len() } else { 0 },
        (exists|i: int| 0 <= i < s.len() && #[trigger] s[i].len() > 0) ==> flatten(s).len() > 0,
    decreases s.len(),
{
    if s.len() > 0 {
        lemma_flatten_len(s.drop_last());
        if exists|i: int| 0 <= i < s.len() && #[trigger] s[i].len() > 0 {
            let i = choose|i: int| 0 <= i < s.len() && #[trigger] s[i].len() > 0;
            if i < s.len() - 1 {
                assert(s.drop_last()[i] == s[i]);
            }
        }
    }
}

/// Appends each list of `src` to `dst`, in order.
pub fn flatten_into(dst: &mut Vec<Instruction>, src: Vec<Vec<Instruction>>)
    ensures
        instrs_v(final(dst)@) == instrs_v(old(dst)@) + flatten(instrss_v(src@)),
{
    let ghost start = instrs_v(dst@);
    let ghost all = instrss_v(src@);
    let ghost orig = src@;
    let mut src = src;
    let total = src.len();
    let mut i: usize = 0;
    proof {
        lemma_instrss_v(orig);
        assert(orig.subrange(0, 0) =~= Seq::<Vec<Instruction>>::empty());
        assert(instrss_v(orig.subrange(0, 0)) =~= Seq::<Seq<InstrV>>::empty());
        assert(start + flatten(Seq::<Seq<InstrV>>::empty()) =~= start);
        assert(src@ =~= orig.subrange(0, orig.len() as int));
    }
    while src.len() > 0
        invariant
            i + src@.len() == orig.len(),
            orig.len() <= usize::MAX,
            src@ == orig.subrange(i as int, orig.len() as int),
            all == instrss_v(orig),
            all.len() == orig.len(),
            forall|j: int| 0 <= j < orig.len() ==> #[trigger] all[j] == instrs_v(orig[j]@),
            instrs_v(dst@) == start + flatten(all.subrange(0, i as int)),
        decreases src@.len(),
    {
        let mut item = src.remove(0);
        assert(item == orig[i as int]);
        let ghost before = dst@;
        dst.append(&mut item);
        proof {
            lemma_instrs_v_add(before, orig[i as int]@);
            let sub = all.subrange(0, i + 1);
            assert(sub.drop_last() =~= all.subrange(0, i as int));
            assert(sub.last() == all[i as int]);
            assert(instrs_v(dst@) =~= start + flatten(sub));
            assert(src@ =~= orig.subrange(i + 1, orig.len() as int));
        }
        i = i + 1;
    }
    assert(all.subrange(0, all.len() as int) =~= all);
}

/// The views of lists of instruction lists have its length and its elements' views.
pub proof fn lemma_instrss_v(s: Seq<Vec<Instruction>>)
    ensures
        instrss_v(s).len() == s.len(),
        forall|i: int| 0 <= i < s.len() ==> #[trigger] instrss_v(s)[i] == instrs_v(s[i]@),
    decreases s.len(),
{
    if s.len() > 0 {
        lemma_instrss_v(s.drop_last());
    }
}

impl Analyzer {
    /// An analyzer in the top-level environment, reporting errors at line 0, column 0.
    pub fn new(workdir: String) -> (r: Self)
        ensures
            r.workdir == workdir,
            r.line == 0,
            r.column == 0,
            r.errors@.len() == 0,
            r.env.parent is None,
            r.env.blueprints@.len() == 0,
            forall|k: Seq<char>| #[trigger] crate::enviroment::env_get(r.env, k) == builtin(k),
            r.imports@.len() == 0,
            r.functions@.len() == 0,
    {
        Self {
            env: Enviroment::init(),
            functions: Vec::new(),
            imports: Vec::new(),
            line: 0,
            column: 0,
            workdir,
            errors: Vec::new(),
        }
    }

    /// Analyzes a whole program with a fresh analyzer in the top-level
    /// environment, reporting errors at line 0, column 0.
    pub fn analyze_program(workdir: String, program: Program) -> (r: Result<IrProgram, ErrKind>)
        requires
            all_analyzable(program.body@),
        ensures
            match analysis_seq(|k: Seq<char>| builtin(k), program.body@, (0, 0)).out {
                Ok(vs) => r is Ok && instrs_v(r->Ok_0.instructions@) == flatten(vs),
                Err(e) => r == Err::<IrProgram, ErrKind>(e.kind),
            },
    {
        let mut analyzer = Analyzer::new(workdir);
        assert(env_m(analyzer.env) =~= (|k: Seq<char>| builtin(k)));
        analyzer.run_program(program)
    }

    /// Analyzes the top-level expressions of a program in order, one after
    /// the other, and collects their instructions; the errors reported stay
    /// with the analyzer.
    pub fn run_program(&mut self, program: Program) -> (r: Result<IrProgram, ErrKind>)
        requires
            all_analyzable(program.body@),
        ensures
            ({
                let so = analysis_seq(env_m(old(self).env), program.body@, an_pos(*old(self)));
                &&& keeps_setup(*old(self), *final(self))
                &&& (all_reads_only(program.body@) ==> final(self).env == old(self).env)
                &&& final(self).line == old(self).line
                &&& final(self).column == old(self).column
                &&& env_m(final(self).env) == so.env
                &&& final(self).env.blueprints == old(self).env.blueprints
                &&& match so.out {
                    Ok(vs) => r is Ok && instrs_v(r->Ok_0.instructions@) == flatten(vs)
                        && errs_view(final(self).errors@) == errs_view(old(self).errors@),
                    Err(e) => r == Err::<IrProgram, ErrKind>(e.kind)
                        && errs_view(final(self).errors@) == errs_view(old(self).errors@).push(e),
                }
            }),
    {
        let ghost orig = program.body@;
        let ghost m = env_m(self.env);
        let ghost pos = an_pos(*self);
        let ghost start_errs = errs_view(self.errors@);
        let mut items = program.body;
        let total = items.len();
        let mut instructions: Vec<Instruction> = Vec::new();
        let mut i: usize = 0;
        proof {
            assert(orig.subrange(0, 0) =~= Seq::<Node>::empty());
            assert(instrs_v(instructions@) =~= Seq::<InstrV>::empty());
            assert(flatten(Seq::<Seq<InstrV>>::empty()) =~= Seq::<InstrV>::empty());
            assert(items@ =~= orig.subrange(0, orig.len() as int));
        }
        #[verifier::loop_isolation(false)]
        while items.len() > 0
            invariant
                i + items@.len() == orig.len(),
                orig.len() <= usize::MAX,
                items@ == orig.subrange(i as int, orig.len() as int),
                all_analyzable(orig),
                self.line == old(self).line,
                self.column == old(self).column,
                an_pos(*self) == pos,
                m == env_m(old(self).env),
                pos == an_pos(*old(self)),
                self.env.blueprints == old(self).env.blueprints,
                keeps_setup(*old(self), *self),
                all_reads_only(orig) ==> self.env == old(self).env,
                analysis_seq(m, orig.subrange(0, i as int), pos).out matches Ok(vs) && instrs_v(instructions@) == flatten(vs),
                env_m(self.env) == analysis_seq(m, orig.subrange(0, i as int), pos).env,
                errs_view(self.errors@) == start_errs,
            decreases items@.len(),
        {
            let item = items.remove(0);
            assert(item == orig[i as int]);
            proof {
                lemma_all_analyzable_at(orig, i as int);
                if all_reads_only(orig) {
                    lemma_all_reads_only_at(orig, i as int);
                }
            }
            let ghost pre = orig.subrange(0, i as int);
            let ghost post = orig.subrange(0, i + 1);
            assert(post.drop_last() =~= pre);
            assert(post.last() == item);
            let ghost env_before = env_m(self.env);
            let res = self.analyze(item);
            match res {
                Err(k) => {
                    proof {
                        let o = analysis(env_before, item, pos);
                        let so = analysis_seq(m, pre, pos);
                        assert(so.out is Ok);
                        assert(o.out is Err);
                        assert(analysis_seq(m, post, pos) == SeqOutcome { out: Err(o.out->Err_0), env: o.env });
                        lemma_analysis_seq_err_prefix(m, orig, i + 1, pos);
                    }
                    return Err(k);
                },
                Ok(mut v) => {
                    let ghost a = instructions@;
                    let ghost b = v@;
                    instructions.append(&mut v);
                    proof {
                        lemma_instrs_v_add(a, b);
                        let vs = analysis_seq(m, pre, pos).out->Ok_0;
                        assert(analysis_seq(m, post, pos).out == Ok::<Seq<Seq<InstrV>>, ErrInfo>(vs.push(instrs_v(b))));
                        assert(vs.push(instrs_v(b)).drop_last() =~= vs);
                    }
                    assert(items@ =~= orig.subrange(i + 1, orig.len() as int));
                },
            }
            i = i + 1;
        }
        assert(orig.subrange(0, orig.len() as int) =~= orig);
        Ok(IrProgram { instructions })
    }

    /// Reports an error of kind `kind` with message `msg`, and returns its kind.
    fn error(&mut self, kind: ErrKind, msg: String) -> (r: ErrKind)
        ensures
            r == kind,
            errs_view(final(self).errors@) == errs_view(old(self).errors@).push(at(kind, msg@, an_pos(*old(self)))),
            final(self).env == old(self).env,
            final(self).line == old(self).line,
            final(self).column == old(self).column,
            keeps_setup(*old(self), *final(self)),
    {
        let e = ATErr { kind, msg, line: self.line as u32, column: self.column as u32 };
        let ghost before = self.errors@;
        self.errors.push(e);
        assert(errs_view(self.errors@) =~= errs_view(before).push(e@));
        kind
    }

    /// Analyzes a node: checks its types, records the names it declares, and
    /// returns its instructions.
    pub fn analyze(&mut self, node: Node) -> (r: Result<Vec<Instruction>, ErrKind>)
        requires
            analyzable(node),
        ensures
            analyzed(*old(self), *final(self), analysis(env_m(old(self).env), node, an_pos(*old(self))), r),
            reads_only(node) ==> final(self).env == old(self).env,
        decreases node, 3int,
    {
        let ghost whole = node;
        let ghost m = env_m(self.env);
        let ghost pos = an_pos(*self);
        match node.expr {
            Expr::Literal(lit) => {
                let ty = lit.get_ty();
                let i = Instruction::new(IROp::Const(lit), ty);
                let r = vec![i];
                proof {
                    lemma_instrs_v_one(i);
                    assert(r@ =~= seq![i]);
                }
                Ok(r)
            },
            Expr::Ident(id) => {
                match id {
                    Ident::UnTagged(name) => {
                        let found = match self.env.get(&name) {
                            Some(sym) => Some(Instruction::new(IROp::Load(copy_string(&sym.name)), sym.ty.copy())),
                            None => None,
                        };
                        match found {
                            Some(i) => {
                                let r = vec![i];
                                proof {
                                    lemma_instrs_v_one(i);
                                    assert(r@ =~= seq![i]);
                                }
                                Ok(r)
                            },
                            None => {
                                let mut msg = String::new();
                                push_str(&mut msg, "undeclared variable: ");
                                push_str(&mut msg, name.as_str());
                                assert(msg@ =~= "undeclared variable: "@ + name@);
                                Err(self.error(ErrKind::UndeclaredVar, msg))
                            },
                        }
                    },
                    other => {
                        let mut msg = String::new();
                        push_str(&mut msg, "ID ");
                        push_str(&mut msg, other.val().as_str());
                        push_str(&mut msg, " must be untagged (without @Type)");
                        assert(msg@ =~= "ID "@ + ident_name(other) + " must be untagged (without @Type)"@);
                        Err(self.error(ErrKind::UnexceptedTokenE, msg))
                    },
                }
            },
            Expr::FnCall { name, args } => self.analyze_fn_call(*name, args, Ghost(whole)),
            Expr::BinaryExpr { op, left, right } => self.analyze_binary_expr(op, *left, *right, Ghost(whole)),
            Expr::VarDeclare { name, val } => self.analyze_var_declare(name, *val, Ghost(whole)),
            Expr::VarAssign { name, val } => self.analyze_var_assign(*name, *val, Ghost(whole)),
            Expr::Discard(e) => {
                let ghost inner = *e;
                let mut results = self.analyze(*e)?;
                proof {
                    lemma_analysis_nonempty(m, inner, pos);
                }
                let t = get_instrs_type(&results);
                let void = AtomKind::Basic(BasicType::Void);
                assert(kind_v(void) == KindV::Basic(BasicType::Void));
                if kinds_equal(&t.kind, &void) {
                    return Ok(results);
                }
                let ty = AtomType::basic(BasicType::Void);
                let ghost before = results@;
                let p = Instruction::new(IROp::Pop, ty);
                results.push(p);
                proof {
                    lemma_instrs_v_one(p);
                    lemma_instrs_v_add(before, seq![p]);
                    assert(results@ =~= before + seq![p]);
                    assert(instrs_v(results@) =~= instrs_v(before).push(ins(IROpV::Pop, basic_ty(BasicType::Void))));
                }
                Ok(results)
            },
            Expr::Block(block) => {
                let ghost items = block@;
                let parts = self.analyze_items(block, Ghost(whole))?;
                let mut results: Vec<Instruction> = Vec::new();
                proof {
                    lemma_analysis_seq_nonempty(m, items, pos);
                    lemma_flatten_len(instrss_v(parts@));
                    lemma_instrss_v(parts@);
                    assert(instrss_v(parts@)[0].len() > 0);
                    assert(instrs_v(results@) =~= Seq::<InstrV>::empty());
                }
                flatten_into(&mut results, parts);
                assert(instrs_v(results@) =~= flatten(instrss_v(parts@)));
                let ty = get_instrs_type(&results);
                let b = Instruction::new(IROp::Block(results), ty);
                let r = vec![b];
                proof {
                    lemma_instrs_v_one(b);
                    assert(r@ =~= seq![b]);
                }
                Ok(r)
            },
            _ => Ok(Vec::new()),
        }
    }

    /// Makes the types of two non-empty instruction lists agree, by a
    /// conversion of one of them where they differ; reports a type mismatch
    /// where neither converts into the other.
    pub fn type_unify(&mut self, left: Vec<Instruction>, right: Vec<Instruction>) -> (r: Result<(Vec<Instruction>, Vec<Instruction>), ErrKind>)
        requires
            left@.len() > 0,
            right@.len() > 0,
        ensures
            final(self).env == old(self).env,
            final(self).line == old(self).line,
            final(self).column == old(self).column,
            keeps_setup(*old(self), *final(self)),
            match unify(iv(left), iv(right)) {
                Ok((a, b)) => r is Ok && iv(r->Ok_0.0) == a && iv(r->Ok_0.1) == b
                    && errs_view(final(self).errors@) == errs_view(old(self).errors@),
                Err(msg) => r == Err::<(Vec<Instruction>, Vec<Instruction>), ErrKind>(ErrKind::TypeMismatch)
                    && errs_view(final(self).errors@) == errs_view(old(self).errors@).push(
                    at(ErrKind::TypeMismatch, msg, an_pos(*old(self))),
                ),
            },
    {
        let mut left = left;
        let mut right = right;
        let left_type = get_instrs_type(&left);
        let right_type = get_instrs_type(&right);
        let ghost l0 = left@;
        let ghost r0 = right@;
        if !types_equal(&left_type, &right_type) {
            if can_implicitly_convert(&left_type.kind, &right_type.kind) {
                let c = Instruction::new(IROp::Conv(left_type), right_type);
                left.push(c);
                proof {
                    lemma_instrs_v_one(c);
                    lemma_instrs_v_add(l0, seq![c]);
                    assert(left@ =~= l0 + seq![c]);
                }
            } else if can_implicitly_convert(&right_type.kind, &left_type.kind) {
                let c = Instruction::new(IROp::Conv(right_type), left_type);
                right.push(c);
                proof {
                    lemma_instrs_v_one(c);
                    lemma_instrs_v_add(r0, seq![c]);
                    assert(right@ =~= r0 + seq![c]);
                }
            } else {
                let mut msg = String::new();
                push_str(&mut msg, "type mismatch got ");
                push_ty(&mut msg, &left_type);
                push_str(&mut msg, " and ");
                push_ty(&mut msg, &right_type);
                assert(msg@ =~= "type mismatch got "@ + ty_str(left_type@) + " and "@ + ty_str(right_type@));
                return Err(self.error(ErrKind::TypeMismatch, msg));
            }
        }
        Ok((left, right))
    }

    /// Analyzes a binary operation: both operands, made to agree in type,
    /// then the operation (with the operands swapped for `<` and `<=`).
    fn analyze_binary_expr(&mut self, op: String, left: Node, right: Node, Ghost(whole): Ghost<Node>) -> (r: Result<Vec<Instruction>, ErrKind>)
        requires
            whole.expr == (Expr::BinaryExpr { op: op, left: Box::new(left), right: Box::new(right) }),
            analyzable(whole),
        ensures
            analyzed(*old(self), *final(self), analysis(env_m(old(self).env), whole, an_pos(*old(self))), r),
            reads_only(whole) ==> final(self).env == old(self).env,
        decreases whole, 2int,
    {
        let ghost m = env_m(self.env);
        let ghost pos = an_pos(*self);
        assert(decreases_to!(whole => left));
        assert(decreases_to!(whole => right));
        let ghost lnode = left;
        let ghost rnode = right;
        let left_i = self.analyze(left)?;
        let ghost m1 = env_m(self.env);
        let right_i = self.analyze(right)?;
        proof {
            lemma_analysis_nonempty(m, lnode, pos);
            lemma_analysis_nonempty(m1, rnode, pos);
        }
        let (l, r) = self.type_unify(left_i, right_i)?;
        let (o, swap) = if str_eq(op.as_str(), "+") {
            (IROp::Add, false)
        } else if str_eq(op.as_str(), "-") {
            (IROp::Sub, false)
        } else if str_eq(op.as_str(), "*") {
            (IROp::Mul, false)
        } else if str_eq(op.as_str(), "/") {
            (IROp::Div, false)
        } else if str_eq(op.as_str(), "%") {
            (IROp::Mod, false)
        } else if str_eq(op.as_str(), "==") {
            (IROp::Eq, false)
        } else if str_eq(op.as_str(), "<") {
            (IROp::Comp, true)
        } else if str_eq(op.as_str(), ">") {
            (IROp::Comp, false)
        } else if str_eq(op.as_str(), "<=") {
            (IROp::EComp, true)
        } else if str_eq(op.as_str(), ">=") {
            (IROp::EComp, false)
        } else if str_eq(op.as_str(), "&&") {
            (IROp::And, false)
        } else {
            assert(op@ == "||"@);
            (IROp::Or, false)
        };
        assert(analyzer_op(op@) == Some((op_v(o), swap)));
        let (mut l2, mut r2) = if swap { (r, l) } else { (l, r) };
        let ty = match o {
            IROp::EComp | IROp::Comp | IROp::And | IROp::Or => AtomType::basic(BasicType::Bool),
            _ => get_instrs_type(&l2),
        };
        assert(ty@ == binary_ty(op_v(o), iv(l2)));
        let ghost a = l2@;
        let ghost b = r2@;
        l2.append(&mut r2);
        let fin = Instruction::new(o, ty);
        l2.push(fin);
        proof {
            lemma_instrs_v_one(fin);
            lemma_instrs_v_add(a, b);
            lemma_instrs_v_add(a + b, seq![fin]);
            assert(l2@ =~= a + b + seq![fin]);
        }
        Ok(l2)
    }

    /// Analyzes an assignment: the target, then the value, which must be of
    /// the target's type.
    fn analyze_var_assign(&mut self, name: Node, val: Node, Ghost(whole): Ghost<Node>) -> (r: Result<Vec<Instruction>, ErrKind>)
        requires
            whole.expr == (Expr::VarAssign { name: Box::new(name), val: Box::new(val) }),
            analyzable(whole),
        ensures
            analyzed(*old(self), *final(self), analysis(env_m(old(self).env), whole, an_pos(*old(self))), r),
        decreases whole, 2int,
    {
        let ghost m = env_m(self.env);
        let ghost pos = an_pos(*self);
        assert(decreases_to!(whole => name));
        assert(decreases_to!(whole => val));
        let ghost nnode = name;
        let ghost vnode = val;
        let name_text = debug_node(&name);
        let name_i = self.analyze(name)?;
        let ghost m1 = env_m(self.env);
        let mut val_i = self.analyze(val)?;
        proof {
            lemma_analysis_nonempty(m, nnode, pos);
            lemma_analysis_nonempty(m1, vnode, pos);
        }
        let ty = get_instrs_type(&val_i);
        let nty = get_instrs_type(&name_i);
        if !types_equal(&ty, &nty) {
            let mut msg = String::new();
            push_str(&mut msg, "type mismatch got ");
            push_ty(&mut msg, &ty);
            push_str(&mut msg, " and ");
            push_ty(&mut msg, &nty);
            push_str(&mut msg, ", cannot assign to ");
            push_str(&mut msg, name_text.as_str());
            push_str(&mut msg, " with a value of different type");
            assert(msg@ =~= "type mismatch got "@ + ty_str(ty@) + " and "@ + ty_str(nty@) + ", cannot assign to "@
                + node_debug(node_v(nnode)) + " with a value of different type"@);
            return Err(self.error(ErrKind::TypeMismatch, msg));
        }
        let ghost before = val_i@;
        let ghost tyv = ty@;
        let s = Instruction::new(IROp::SetVar, ty);
        val_i.push(s);
        proof {
            lemma_instrs_v_one(s);
            lemma_instrs_v_add(before, seq![s]);
            assert(val_i@ =~= before + seq![s]);
            assert(instrs_v(val_i@) =~= instrs_v(before).push(ins(IROpV::SetVar, tyv)));
        }
        Ok(val_i)
    }

    /// Resolves a declared name: a name with a type expression gets the type
    /// that the expression stands for, which must be a type.
    pub(crate) fn analyze_unknown_id(&mut self, id: Ident) -> (r: Result<Ident, ErrKind>)
        requires
            id matches Ident::Tagged(tag, _) ==> analyzable(*tag),
        ensures
            ({
                let (out, m2) = unknown_id(env_m(old(self).env), id, an_pos(*old(self)));
                &&& keeps_setup(*old(self), *final(self))
                &&& final(self).line == old(self).line
                &&& final(self).column == old(self).column
                &&& env_m(final(self).env) == m2
                &&& final(self).env.blueprints == old(self).env.blueprints
                &&& match out {
                    Ok((nm, t)) => r is Ok && !(r->Ok_0 is Tagged) && ident_name(r->Ok_0) == nm && ident_ty(r->Ok_0) == t
                        && errs_view(final(self).errors@) == errs_view(old(self).errors@),
                    Err(e) => r == Err::<Ident, ErrKind>(e.kind) && errs_view(final(self).errors@) == errs_view(old(self).errors@).push(e),
                }
            }),
        decreases id, 0int,
    {
        let ghost m = env_m(self.env);
        let ghost pos = an_pos(*self);
        match id {
            Ident::Tagged(tag, name) => {
                let ghost tnode = *tag;
                assert(decreases_to!(id => tnode));
                let tag_text = debug_node(&tag);
                let ti = self.analyze(*tag)?;
                proof {
                    lemma_analysis_nonempty(m, tnode, pos);
                }
                let ty = get_instrs_type(&ti);
                let is_type = match &ty.details {
                    Some(AtomDetails::Type) => true,
                    _ => false,
                };
                assert(is_type == (ty@.details == Some(DetailsV::Type)));
                if !is_type {
                    let mut msg = String::new();
                    push_str(&mut msg, "got ");
                    push_str(&mut msg, tag_text.as_str());
                    push_str(&mut msg, " but expected a type");
                    assert(msg@ =~= "got "@ + node_debug(node_v(tnode)) + " but expected a type"@);
                    return Err(self.error(ErrKind::InvaildType, msg));
                }
                Ok(Ident::Typed(ty, name))
            },
            other => Ok(other),
        }
    }

    /// Analyzes a declaration: resolves the declared name, analyzes the value,
    /// which must be of the declared type, binds the name to the value's type
    /// and stores the value.
    fn analyze_var_declare(&mut self, name: Ident, val: Node, Ghost(whole): Ghost<Node>) -> (r: Result<Vec<Instruction>, ErrKind>)
        requires
            whole.expr == (Expr::VarDeclare { name: name, val: Box::new(val) }),
            analyzable(whole),
        ensures
            analyzed(*old(self), *final(self), analysis(env_m(old(self).env), whole, an_pos(*old(self))), r),
        decreases whole, 2int,
    {
        let ghost m = env_m(self.env);
        let ghost pos = an_pos(*self);
        assert(decreases_to!(whole => name));
        assert(decreases_to!(whole => val));
        let ghost vnode = val;
        let id = self.analyze_unknown_id(name)?;
        let ghost m1 = env_m(self.env);
        let id_ty = id.ty();
        let expected = AtomType::plain(id_ty.kind);
        let mut val_i = self.analyze(val)?;
        proof {
            lemma_analysis_nonempty(m1, vnode, pos);
        }
        let ty = get_instrs_type(&val_i);
        if !types_equal(&ty, &expected) {
            let mut msg = String::new();
            push_str(&mut msg, "got ");
            push_ty(&mut msg, &ty);
            push_str(&mut msg, " but expected ");
            push_ty(&mut msg, &expected);
            assert(msg@ =~= "got "@ + ty_str(ty@) + " but expected "@ + ty_str(expected@));
            return Err(self.error(ErrKind::InvaildType, msg));
        }
        let nm = copy_string(id.val());
        let sym = Symbol::plain(copy_string(id.val()), ty.copy());
        self.env.add(sym);
        let ghost before = val_i@;
        let ghost tyv = ty@;
        let ghost nmv = nm@;
        let s = Instruction::new(IROp::Store(nm), ty);
        val_i.push(s);
        proof {
            lemma_instrs_v_one(s);
            lemma_instrs_v_add(before, seq![s]);
            assert(val_i@ =~= before + seq![s]);
            assert(instrs_v(val_i@) =~= instrs_v(before).push(ins(IROpV::Store(nmv), tyv)));
        }
        Ok(val_i)
    }

    /// Analyzes a call: the callee, which must be of a function type, then
    /// the arguments.
    fn analyze_fn_call(&mut self, name: Node, args: Vec<Node>, Ghost(whole): Ghost<Node>) -> (r: Result<Vec<Instruction>, ErrKind>)
        requires
            whole.expr == (Expr::FnCall { name: Box::new(name), args: args }),
            analyzable(whole),
        ensures
            analyzed(*old(self), *final(self), analysis(env_m(old(self).env), whole, an_pos(*old(self))), r),
            reads_only(whole) ==> final(self).env == old(self).env,
        decreases whole, 2int,
    {
        let ghost m = env_m(self.env);
        let ghost pos = an_pos(*self);
        assert(decreases_to!(whole => name));
        assert(decreases_to!(whole => args));
        let ghost nnode = name;
        let name_i = self.analyze(name)?;
        proof {
            lemma_analysis_nonempty(m, nnode, pos);
        }
        let ty = get_instrs_type(&name_i);
        match &ty.kind {
            AtomKind::Function(func_t) => {
                let f = func_t.copy();
                assert(ty@.kind == kind_v(ty.kind));
                assert(ty@.kind == KindV::Function(f@));
                self.handle_function_call(f, name_i, args, Ghost(whole))
            },
            _ => {
                let mut msg = String::new();
                push_str(&mut msg, "type ");
                push_ty(&mut msg, &ty);
                push_str(&mut msg, " doesnt impl Call, cannot call ");
                push_ty(&mut msg, &ty);
                assert(ty@.kind == kind_v(ty.kind));
                assert(!(ty@.kind is Function));
                assert(msg@ =~= "type "@ + ty_str(ty@) + " doesnt impl Call, cannot call "@ + ty_str(ty@));
                Err(self.error(ErrKind::InvaildType, msg))
            },
        }
    }

    /// Analyzes the arguments of a call to a function of type `func_t` whose
    /// callee's instructions are `name`, checks their number and fits them to
    /// the parameter types, and calls.
    fn handle_function_call(&mut self, func_t: FunctionType, name: Vec<Instruction>, args: Vec<Node>, Ghost(whole): Ghost<Node>) -> (r: Result<Vec<Instruction>, ErrKind>)
        requires
            name@.len() > 0,
            all_analyzable(args@),
            decreases_to!(whole => args),
        ensures
            analyzed(*old(self), *final(self), handle_rest(env_m(old(self).env), iv(name), func_t@, args@, an_pos(*old(self))), r),
            all_reads_only(args@) ==> final(self).env == old(self).env,
        decreases whole, 1int,
    {
        let ghost m = env_m(self.env);
        let ghost pos = an_pos(*self);
        let ghost items = args@;
        let count = args.len();
        let parts = self.analyze_items(args, Ghost(whole))?;
        let ghost ps = tys_v(func_t.params@);
        let ghost orig = ivv(parts);
        proof {
            lemma_analysis_seq_nonempty(m, items, pos);
            lemma_tys_v(func_t.params@);
            lemma_instrss_v(parts@);
        }
        if count != func_t.params.len() {
            let mut msg = String::new();
            push_str(&mut msg, "expected ");
            push_decimal(&mut msg, func_t.params.len() as u64);
            push_str(&mut msg, " args got ");
            push_decimal(&mut msg, count as u64);
            assert(msg@ =~= "expected "@ + decimal(ps.len()) + " args got "@ + decimal(items.len()));
            return Err(self.error(ErrKind::UnexceptedArgs, msg));
        }
        let mut fitted: Vec<Vec<Instruction>> = Vec::new();
        let mut rest = parts;
        let mut i: usize = 0;
        let ghost snapshot = *self;
        proof {
            assert(ivv(fitted) =~= Seq::<Seq<InstrV>>::empty());
            assert(orig.subrange(0, count as int) =~= orig);
            assert(ivv(fitted) + orig.subrange(0, count as int) =~= orig);
            assert(ivv(rest) =~= orig.subrange(0, count as int));
        }
        #[verifier::loop_isolation(false)]
        while i < count
            invariant
                count == ps.len(),
                count == orig.len(),
                ps == tys_v(func_t.params@),
                func_t.params@.len() == count,
                forall|j: int| 0 <= j < count ==> #[trigger] ps[j] == func_t.params@[j]@,
                forall|j: int| 0 <= j < count ==> (#[trigger] orig[j]).len() > 0,
                i <= count,
                i + rest@.len() == count,
                ivv(rest) == orig.subrange(i as int, count as int),
                ivv(fitted).len() == i,
                fit_args(ps, orig, 0, pos) == fit_args(ps, ivv(fitted) + orig.subrange(i as int, count as int), i as int, pos),
                *self == snapshot,
                an_pos(snapshot) == pos,
            decreases count - i,
        {
            proof {
                lemma_instrss_v(rest@);
            }
            let ghost cur = ivv(fitted) + orig.subrange(i as int, count as int);
            let ghost rest_before = rest@;
            let mut item = rest.remove(0);
            assert(iv(item) == orig[i as int]);
            assert(cur[i as int] == orig[i as int]);
            proof {
                lemma_instrs_v(item@);
            }
            let ty = get_instrs_type(&item);
            let p = &func_t.params[i];
            assert(p@ == ps[i as int]);
            let ghost before_item = item@;
            let ghost tyv = ty@;
            if !types_equal(&ty, p) {
                if can_implicitly_convert(&p.kind, &ty.kind) {
                    let c = Instruction::new(IROp::Conv(ty), p.copy());
                    item.push(c);
                    proof {
                        lemma_instrs_v_one(c);
                        lemma_instrs_v_add(before_item, seq![c]);
                        assert(item@ =~= before_item + seq![c]);
                        assert(iv(item) =~= orig[i as int].push(ins(IROpV::Conv(tyv), ps[i as int])));
                    }
                } else {
                    let mut msg = String::new();
                    push_str(&mut msg, "expected arg of type ");
                    push_ty(&mut msg, p);
                    push_str(&mut msg, " got ");
                    push_ty(&mut msg, &ty);
                    push_str(&mut msg, ", at arg ");
                    push_decimal(&mut msg, i as u64);
                    assert(msg@ =~= "expected arg of type "@ + ty_str(ps[i as int]) + " got "@ + ty_str(ty@) + ", at arg "@
                        + decimal(i as nat));
                    return Err(self.error(ErrKind::TypeMismatch, msg));
                }
            }
            let ghost fitted_before = fitted@;
            let ghost item_v = iv(item);
            fitted.push(item);
            proof {
                assert(fitted@.drop_last() =~= fitted_before);
                assert(ivv(fitted) == instrss_v(fitted_before).push(item_v));
                let next = ivv(fitted) + orig.subrange(i + 1, count as int);
                lemma_instrss_v(rest@);
                assert(rest@ =~= rest_before.drop_first());
                lemma_instrss_v(rest_before);
                assert forall|j: int| 0 <= j < rest@.len() implies #[trigger] ivv(rest)[j] == orig.subrange(i + 1, count as int)[j] by {
                    assert(ivv(rest)[j] == instrs_v(rest@[j]@));
                    assert(rest@[j] == rest_before[j + 1]);
                    assert(instrss_v(rest_before)[j + 1] == orig.subrange(i as int, count as int)[j + 1]);
                }
                assert(ivv(rest) =~= orig.subrange(i + 1, count as int));
                if ty_eq(tyv, ps[i as int]) {
                    assert(next =~= cur);
                } else {
                    assert(next =~= cur.update(i as int, cur[i as int].push(ins(IROpV::Conv(tyv), ps[i as int]))));
                }
            }
            i = i + 1;
        }
        assert(orig.subrange(count as int, count as int) =~= Seq::<Seq<InstrV>>::empty());
        assert(ivv(fitted) + orig.subrange(count as int, count as int) =~= ivv(fitted));
        let ty = get_instrs_type(&name);
        let mut result: Vec<Instruction> = Vec::new();
        assert(instrs_v(result@) =~= Seq::<InstrV>::empty());
        let ghost fv = ivv(fitted);
        flatten_into(&mut result, fitted);
        assert(instrs_v(result@) =~= flatten(fv));
        let ghost a = result@;
        let ghost nv = name@;
        let mut name = name;
        result.append(&mut name);
        let call = Instruction::new(IROp::Call(count as u16), ty);
        result.push(call);
        proof {
            lemma_instrs_v_one(call);
            lemma_instrs_v_add(a, nv);
            lemma_instrs_v_add(a + nv, seq![call]);
            assert(result@ =~= a + nv + seq![call]);
        }
        Ok(result)
    }

    /// Analyzes a list of nodes in order.
    fn analyze_items(&mut self, items: Vec<Node>, Ghost(whole): Ghost<Node>) -> (r: Result<Vec<Vec<Instruction>>, ErrKind>)
        requires
            all_analyzable(items@),
            decreases_to!(whole => items),
        ensures
            ({
                let so = analysis_seq(env_m(old(self).env), items@, an_pos(*old(self)));
                &&& keeps_setup(*old(self), *final(self))
                &&& (all_reads_only(items@) ==> final(self).env == old(self).env)
                &&& final(self).line == old(self).line
                &&& final(self).column == old(self).column
                &&& env_m(final(self).env) == so.env
                &&& final(self).env.blueprints == old(self).env.blueprints
                &&& match so.out {
                    Ok(vs) => r is Ok && instrss_v(r->Ok_0@) == vs && errs_view(final(self).errors@) == errs_view(old(self).errors@),
                    Err(e) => r == Err::<Vec<Vec<Instruction>>, ErrKind>(e.kind) && errs_view(final(self).errors@) == errs_view(old(self).errors@).push(e),
                }
            }),
        decreases whole, 0int,
    {
        let ghost orig = items@;
        let ghost m = env_m(self.env);
        let ghost pos = an_pos(*self);
        let ghost start_errs = errs_view(self.errors@);
        let mut items = items;
        let total = items.len();
        let mut instr: Vec<Vec<Instruction>> = Vec::new();
        let mut i: usize = 0;
        proof {
            assert(orig.subrange(0, 0) =~= Seq::<Node>::empty());
            assert(instrss_v(instr@) =~= Seq::<Seq<InstrV>>::empty());
            assert(items@ =~= orig.subrange(0, orig.len() as int));
        }
        #[verifier::loop_isolation(false)]
        while items.len() > 0
            invariant
                i + items@.len() == orig.len(),
                orig.len() <= usize::MAX,
                items@ == orig.subrange(i as int, orig.len() as int),
                all_analyzable(orig),
                decreases_to!(whole => orig),
                self.line == old(self).line,
                self.column == old(self).column,
                an_pos(*self) == pos,
                m == env_m(old(self).env),
                pos == an_pos(*old(self)),
                self.env.blueprints == old(self).env.blueprints,
                keeps_setup(*old(self), *self),
                all_reads_only(orig) ==> self.env == old(self).env,
                analysis_seq(m, orig.subrange(0, i as int), pos).out matches Ok(vs) && instrss_v(instr@) == vs,
                env_m(self.env) == analysis_seq(m, orig.subrange(0, i as int), pos).env,
                errs_view(self.errors@) == start_errs,
            decreases items@.len(),
        {
            let item = items.remove(0);
            assert(item == orig[i as int]);
            proof {
                lemma_all_analyzable_at(orig, i as int);
                if all_reads_only(orig) {
                    lemma_all_reads_only_at(orig, i as int);
                }
                assert(decreases_to!(whole => item));
            }
            let ghost pre = orig.subrange(0, i as int);
            let ghost post = orig.subrange(0, i + 1);
            assert(post.drop_last() =~= pre);
            assert(post.last() == item);
            let ghost env_before = env_m(self.env);
            let res = self.analyze(item);
            match res {
                Err(k) => {
                    proof {
                        let o = analysis(env_before, item, pos);
                        let so = analysis_seq(m, pre, pos);
                        assert(so.out is Ok);
                        assert(so.env == env_before);
                        assert(o.out is Err);
                        assert(analysis_seq(m, post, pos) == SeqOutcome { out: Err(o.out->Err_0), env: o.env });
                        lemma_analysis_seq_err_prefix(m, orig, i + 1, pos);
                    }
                    return Err(k);
                },
                Ok(v) => {
                    let ghost before = instr@;
                    instr.push(v);
                    assert(instr@.drop_last() =~= before);
                    assert(items@ =~= orig.subrange(i + 1, orig.len() as int));
                },
            }
            i = i + 1;
        }
        assert(orig.subrange(0, orig.len() as int) =~= orig);
        Ok(instr)
    }
}

/// The analyzer handles each node of a list it handles.
pub proof fn lemma_all_analyzable_at(ns: Seq<Node>, i: int)
    requires
        all_analyzable(ns),
        0 <= i < ns.len(),
    ensures
        analyzable(ns[i]),
    decreases ns.len(),
{
    if i < ns.len() - 1 {
        lemma_all_analyzable_at(ns.drop_last(), i);
    }
}

/// Each node of a list that only reads the environment only reads it.
pub proof fn lemma_all_reads_only_at(ns: Seq<Node>, i: int)
    requires
        all_reads_only(ns),
        0 <= i < ns.len(),
    ensures
        reads_only(ns[i]),
    decreases ns.len(),
{
    if i < ns.len() - 1 {
        lemma_all_reads_only_at(ns.drop_last(), i);
    }
}

/// Once the analysis of a prefix fails, so does that of the whole list, with
/// the same error and environment.
pub proof fn lemma_analysis_seq_err_prefix(m: EnvM, ns: Seq<Node>, i: int, pos: (nat, nat))
    requires
        0 <= i <= ns.len(),
        analysis_seq(m, ns.subrange(0, i), pos).out is Err,
    ensures
        analysis_seq(m, ns, pos) == analysis_seq(m, ns.subrange(0, i), pos),
    decreases ns.len() - i,
{
    if i < ns.len() {
        let next = ns.subrange(0, i + 1);
        assert(next.drop_last() =~= ns.subrange(0, i));
        lemma_analysis_seq_err_prefix(m, ns, i + 1, pos);
    } else {
        assert(ns.subrange(0, i) =~= ns);
    }
}

} // verus!
