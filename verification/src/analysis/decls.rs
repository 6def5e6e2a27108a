//! Declarations that the analyzer records before it analyzes code: expected
//! types of names, function definitions and imported functions.
use vstd::prelude::*;
use super::{an_pos, analyzable, keeps_setup, unknown_id, Analyzer};
use crate::enviroment::{bind, env_get, env_m, plain_sym, scope_get, with_expected, EnvM, Enviroment, Symbol, SymV};
use crate::err::{errs_view, ErrInfo, ErrKind};
use crate::mangle::{mangled, type_mangle};
use crate::parser::ast::{ident_name, ident_ty, Blueprint, Expr, Ident, Node};
use crate::text::{copy_string, from_str};
use crate::types::{
    copy_types, fun_v, kind_v, plain_ty, tys_v, AtomKind, AtomType, BlueprintType, BlueprintV, FunV, FunctionType,
    KindV, TyV,
};

verus! {

/// Resolving a list of declared names in order, each in the meaning of
/// names that the previous one left.
pub open spec fn unknown_ids(m: EnvM, ids: Seq<Ident>, pos: (nat, nat)) -> (Result<Seq<(Seq<char>, TyV)>, ErrInfo>, EnvM)
    decreases ids.len(),
{
    if ids.len() == 0 {
        (Ok(Seq::empty()), m)
    } else {
        let (o, m1) = unknown_ids(m, ids.drop_last(), pos);
        match o {
            Err(e) => (Err(e), m1),
            Ok(rs) => {
                let (o2, m2) = unknown_id(m1, ids.last(), pos);
                match o2 {
                    Err(e) => (Err(e), m2),
                    Ok(x) => (Ok(rs.push(x)), m2),
                }
            },
        }
    }
}

/// Whether every type expression among some declared names is one the
/// analyzer handles.
pub open spec fn ids_analyzable(ids: Seq<Ident>) -> bool {
    forall|j: int| 0 <= j < ids.len() ==> (#[trigger] ids[j] matches Ident::Tagged(tag, _) ==> analyzable(*tag))
}

/// The types of resolved names.
pub open spec fn res_tys(rs: Seq<(Seq<char>, TyV)>) -> Seq<TyV> {
    rs.map_values(|x: (Seq<char>, TyV)| x.1)
}

/// The type that a function name gets when an overload named `name` is
/// added: a new blueprint type where the name means nothing yet, the
/// blueprint type it has with the overload appended; none where it names
/// something else.
pub open spec fn with_overload(prev: Option<SymV>, name: Seq<char>) -> Option<TyV> {
    match prev {
        None => Some(plain_ty(KindV::Blueprint(BlueprintV { name: name, overloads: seq![name] }))),
        Some(s) => match s.ty.kind {
            KindV::Blueprint(b) => Some(plain_ty(KindV::Blueprint(BlueprintV { name: b.name, overloads: b.overloads.push(name) }))),
            _ => None,
        },
    }
}

/// What recording one function definition gives: its resolved parameters
/// and overload name, or an error; the meaning of names afterwards; and
/// whether its name names something other than a function, which stops the
/// recording.
pub open spec fn def_step(m: EnvM, bp: Blueprint, pos: (nat, nat)) -> (Result<(Seq<(Seq<char>, TyV)>, Seq<char>), ErrInfo>, EnvM, bool) {
    let (o, m1) = unknown_ids(m, bp.args@, pos);
    match o {
        Err(e) => (Err(e), m1, false),
        Ok(args) => {
            let ref_name = ident_name(bp.name);
            let over = mangled(ref_name, res_tys(args));
            match with_overload(m1(ref_name), over) {
                None => (Err(ErrInfo { kind: ErrKind::InvaildType, msg: Seq::empty(), line: 0, column: 0 }), m1, true),
                Some(t) => (Ok((args, over)), bind(m1, ref_name, plain_sym(ref_name, t)), false),
            }
        },
    }
}

/// What recording the function definitions of a list gives: for each, its
/// resolved parameters and its overload name, or the first error; the
/// meaning of names afterwards; and whether a name that is no function
/// stops the recording.
pub struct DefsOutcome {
    pub out: Result<Seq<(Seq<(Seq<char>, TyV)>, Seq<char>)>, ErrInfo>,
    pub env: EnvM,
    pub stuck: bool,
}

/// Recording function definitions in order: each one's parameters are
/// resolved, its name gets the overload named after the parameter types,
/// and its name is bound to the blueprint type with that overload.
pub open spec fn defs(m: EnvM, bps: Seq<Blueprint>, pos: (nat, nat)) -> DefsOutcome
    decreases bps.len(),
{
    if bps.len() == 0 {
        DefsOutcome { out: Ok(Seq::empty()), env: m, stuck: false }
    } else {
        let d = defs(m, bps.drop_last(), pos);
        if d.stuck {
            d
        } else {
            match d.out {
                Err(e) => d,
                Ok(rs) => {
                    let (o, m1, stuck) = def_step(d.env, bps.last(), pos);
                    match o {
                        Err(e) => DefsOutcome { out: Err(e), env: m1, stuck: stuck },
                        Ok(x) => DefsOutcome { out: Ok(rs.push(x)), env: m1, stuck: false },
                    }
                },
            }
        }
    }
}

/// Whether `new` is `old` with its name replaced by `v`.
pub open spec fn renamed(old: Ident, new: Ident, v: Seq<char>) -> bool {
    &&& ident_name(new) == v
    &&& match (old, new) {
        (Ident::Tagged(a, _), Ident::Tagged(b, _)) => a == b,
        (Ident::Typed(a, _), Ident::Typed(b, _)) => a == b,
        (Ident::UnTagged(_), Ident::UnTagged(_)) => true,
        _ => false,
    }
}

/// Whether the identifiers `ids` are the resolved names `rs`.
pub open spec fn resolved(ids: Seq<Ident>, rs: Seq<(Seq<char>, TyV)>) -> bool {
    &&& ids.len() == rs.len()
    &&& forall|j: int|
        0 <= j < ids.len() ==> !(#[trigger] ids[j] is Tagged) && ident_name(ids[j]) == rs[j].0 && ident_ty(ids[j]) == rs[j].1
}

/// Whether `new` is the definition `old` recorded with resolved parameters
/// and overload name `res`.
pub open spec fn recorded(old: Blueprint, new: Blueprint, res: (Seq<(Seq<char>, TyV)>, Seq<char>)) -> bool {
    &&& renamed(old.name, new.name, res.1)
    &&& resolved(new.args@, res.0)
    &&& new.body == old.body
}

/// Once recording a prefix gets stuck, so does recording the whole list.
pub proof fn lemma_defs_stuck_prefix(m: EnvM, bps: Seq<Blueprint>, i: int, pos: (nat, nat))
    requires
        0 <= i <= bps.len(),
        defs(m, bps.subrange(0, i), pos).stuck,
    ensures
        defs(m, bps, pos).stuck,
    decreases bps.len() - i,
{
    if i < bps.len() {
        assert(bps.subrange(0, i + 1).drop_last() =~= bps.subrange(0, i));
        lemma_defs_stuck_prefix(m, bps, i + 1, pos);
    } else {
        assert(bps.subrange(0, i) =~= bps);
    }
}

/// Once recording a prefix fails, recording the whole list fails the same way.
pub proof fn lemma_defs_err_prefix(m: EnvM, bps: Seq<Blueprint>, i: int, pos: (nat, nat))
    requires
        0 <= i <= bps.len(),
        defs(m, bps.subrange(0, i), pos).out is Err,
        !defs(m, bps.subrange(0, i), pos).stuck,
    ensures
        defs(m, bps, pos) == defs(m, bps.subrange(0, i), pos),
    decreases bps.len() - i,
{
    if i < bps.len() {
        assert(bps.subrange(0, i + 1).drop_last() =~= bps.subrange(0, i));
        lemma_defs_err_prefix(m, bps, i + 1, pos);
    } else {
        assert(bps.subrange(0, i) =~= bps);
    }
}

/// Once resolving a prefix of names fails, resolving them all fails the same way.
pub proof fn lemma_ids_err_prefix(m: EnvM, ids: Seq<Ident>, i: int, pos: (nat, nat))
    requires
        0 <= i <= ids.len(),
        unknown_ids(m, ids.subrange(0, i), pos).0 is Err,
    ensures
        unknown_ids(m, ids, pos) == unknown_ids(m, ids.subrange(0, i), pos),
    decreases ids.len() - i,
{
    if i < ids.len() {
        assert(ids.subrange(0, i + 1).drop_last() =~= ids.subrange(0, i));
        lemma_ids_err_prefix(m, ids, i + 1, pos);
    } else {
        assert(ids.subrange(0, i) =~= ids);
    }
}

impl Analyzer {
    /// Resolves declared names in order; returns them and their types.
    fn resolve_args(&mut self, args: Vec<Ident>) -> (r: Result<(Vec<Ident>, Vec<AtomType>), ErrKind>)
        requires
            ids_analyzable(args@),
        ensures
            keeps_setup(*old(self), *final(self)),
            ({
                let (out, m2) = unknown_ids(env_m(old(self).env), args@, an_pos(*old(self)));
                &&& final(self).line == old(self).line
                &&& final(self).column == old(self).column
                &&& env_m(final(self).env) == m2
                &&& final(self).env.blueprints == old(self).env.blueprints
                &&& match out {
                    Ok(rs) => r is Ok && resolved(r->Ok_0.0@, rs) && tys_v(r->Ok_0.1@) == res_tys(rs)
                        && errs_view(final(self).errors@) == errs_view(old(self).errors@),
                    Err(e) => r == Err::<(Vec<Ident>, Vec<AtomType>), ErrKind>(e.kind)
                        && errs_view(final(self).errors@) == errs_view(old(self).errors@).push(e),
                }
            }),
    {
        let ghost orig = args@;
        let ghost m = env_m(self.env);
        let ghost pos = an_pos(*self);
        let ghost start_errs = errs_view(self.errors@);
        let mut rest = args;
        let total = rest.len();
        let mut params: Vec<Ident> = Vec::new();
        let mut types: Vec<AtomType> = Vec::new();
        let mut i: usize = 0;
        proof {
            assert(orig.subrange(0, 0) =~= Seq::<Ident>::empty());
            assert(rest@ =~= orig.subrange(0, total as int));
            assert(tys_v(types@) =~= Seq::<TyV>::empty());
            assert(res_tys(Seq::<(Seq<char>, TyV)>::empty()) =~= Seq::<TyV>::empty());
        }
        #[verifier::loop_isolation(false)]
        while rest.len() > 0
            invariant
                i + rest@.len() == orig.len(),
                orig.len() <= usize::MAX,
                rest@ == orig.subrange(i as int, orig.len() as int),
                ids_analyzable(orig),
                self.line == old(self).line,
                self.column == old(self).column,
                an_pos(*self) == pos,
                self.env.blueprints == old(self).env.blueprints,
                keeps_setup(*old(self), *self),
                unknown_ids(m, orig.subrange(0, i as int), pos).0 matches Ok(rs) && resolved(params@, rs)
                    && tys_v(types@) == res_tys(rs),
                env_m(self.env) == unknown_ids(m, orig.subrange(0, i as int), pos).1,
                errs_view(self.errors@) == start_errs,
            decreases rest@.len(),
        {
            let arg = rest.remove(0);
            assert(arg == orig[i as int]);
            let ghost pre = orig.subrange(0, i as int);
            let ghost post = orig.subrange(0, i + 1);
            assert(post.drop_last() =~= pre);
            assert(post.last() == arg);
            let ghost env_before = env_m(self.env);
            let res = self.analyze_unknown_id(arg);
            match res {
                Err(k) => {
                    proof {
                        assert(unknown_ids(m, post, pos).0 is Err);
                        lemma_ids_err_prefix(m, orig, i + 1, pos);
                    }
                    return Err(k);
                },
                Ok(id) => {
                    let ghost rs = unknown_ids(m, pre, pos).0->Ok_0;
                    let ghost x = unknown_id(env_before, arg, pos).0->Ok_0;
                    let t = id.ty();
                    let ghost p0 = params@;
                    let ghost t0 = types@;
                    params.push(id);
                    types.push(t);
                    proof {
                        assert(unknown_ids(m, post, pos).0 == Ok::<Seq<(Seq<char>, TyV)>, ErrInfo>(rs.push(x)));
                        assert(types@.drop_last() =~= t0);
                        assert(res_tys(rs.push(x)) =~= res_tys(rs).push(x.1));
                        assert(resolved(params@, rs.push(x))) by {
                            assert forall|j: int| 0 <= j < params@.len() implies !(#[trigger] params@[j] is Tagged)
                                && ident_name(params@[j]) == rs.push(x)[j].0 && ident_ty(params@[j]) == rs.push(x)[j].1 by {
                                if j < p0.len() {
                                    assert(params@[j] == p0[j]);
                                }
                            }
                        }
                    }
                    assert(rest@ =~= orig.subrange(i + 1, orig.len() as int));
                },
            }
            i = i + 1;
        }
        assert(orig.subrange(0, orig.len() as int) =~= orig);
        Ok((params, types))
    }

    /// Records one function definition: resolves its parameters, names it
    /// after its parameter types, and binds its own name to the blueprint
    /// type that lists that overload.
    fn record_one(&mut self, bp: Blueprint) -> (r: Result<Blueprint, ErrKind>)
        requires
            ids_analyzable(bp.args@),
            !def_step(env_m(old(self).env), bp, an_pos(*old(self))).2,
        ensures
            keeps_setup(*old(self), *final(self)),
            ({
                let (out, m2, _) = def_step(env_m(old(self).env), bp, an_pos(*old(self)));
                &&& final(self).line == old(self).line
                &&& final(self).column == old(self).column
                &&& env_m(final(self).env) == m2
                &&& final(self).env.blueprints == old(self).env.blueprints
                &&& match out {
                    Ok(res) => r is Ok && recorded(bp, r->Ok_0, res) && errs_view(final(self).errors@) == errs_view(old(self).errors@),
                    Err(e) => r == Err::<Blueprint, ErrKind>(e.kind) && errs_view(final(self).errors@) == errs_view(old(self).errors@).push(e),
                }
            }),
    {
        let ghost m = env_m(self.env);
        let ghost pos = an_pos(*self);
        let ghost bpv = bp;
        let Blueprint { name, args, body } = bp;
        let (params, types) = self.resolve_args(args)?;
        let ghost m1 = env_m(self.env);
        let ghost args_r = unknown_ids(m, bpv.args@, pos).0->Ok_0;
        let ref_name = copy_string(name.val());
        let over = type_mangle(copy_string(name.val()), types);
        assert(over@ == mangled(ref_name@, res_tys(args_r)));
        let mut name = name;
        *name.val_mut() = copy_string(&over);
        let prev = self.env.get_ty(&ref_name);
        let blueprint_ty = match prev {
            None => {
                let b = BlueprintType { name: copy_string(&over), overloads: vec![over] };
                let k = AtomKind::Blueprint(b);
                proof {
                    assert(b.overloads@.drop_last() =~= Seq::<String>::empty());
                    assert(crate::types::strs_v(b.overloads@) =~= seq![over@]);
                    assert(kind_v(k) == KindV::Blueprint(BlueprintV { name: over@, overloads: seq![over@] }));
                }
                AtomType::plain(k)
            },
            Some(t) => {
                let ghost tv = t@;
                assert(tv.kind == kind_v(t.kind));
                match t.kind {
                    AtomKind::Blueprint(b) => {
                        let mut b = b;
                        let ghost ov0 = b.overloads@;
                        b.overloads.push(over);
                        let k = AtomKind::Blueprint(b);
                        proof {
                            assert(crate::types::strs_v(b.overloads@) =~= crate::types::strs_v(ov0).push(over@));
                        }
                        AtomType::plain(k)
                    },
                    _ => {
                        proof {
                            assert(!(tv.kind is Blueprint));
                            assert(false);
                        }
                        AtomType::plain(AtomKind::Unknown)
                    },
                }
            },
        };
        assert(with_overload(m1(ref_name@), over@) == Some(blueprint_ty@));
        self.env.add(Symbol::plain(ref_name, blueprint_ty));
        Ok(Blueprint { name, args: params, body })
    }

    /// Declares that the symbol `name` of the current scope is expected to
    /// have the type that the type expression of `from` stands for, where
    /// `from` has one.
    pub fn expect_as(&mut self, name: &String, from: Ident) -> (r: Result<(), ErrKind>)
        requires
            from matches Ident::Tagged(tag, _) ==> analyzable(*tag),
        ensures
            keeps_setup(*old(self), *final(self)),
            final(self).line == old(self).line,
            final(self).column == old(self).column,
            final(self).env.blueprints == old(self).env.blueprints,
            !(from is Tagged) ==> *final(self) == *old(self) && r is Ok,
            from is Tagged ==> {
                let (out, m2) = unknown_id(env_m(old(self).env), from, an_pos(*old(self)));
                match out {
                    Ok((_, t)) => {
                        &&& r is Ok
                        &&& errs_view(final(self).errors@) == errs_view(old(self).errors@)
                        &&& exists|mid: Enviroment| {
                            &&& #[trigger] env_m(mid) == m2
                            &&& env_m(final(self).env) == match scope_get(mid.symbols@, name@) {
                                Some(s) => bind(m2, name@, with_expected(s, t)),
                                None => m2,
                            }
                        }
                    },
                    Err(e) => {
                        &&& r == Err::<(), ErrKind>(e.kind)
                        &&& errs_view(final(self).errors@) == errs_view(old(self).errors@).push(e)
                        &&& env_m(final(self).env) == m2
                    },
                }
            },
    {
        if let Ident::Tagged(_, _) = from {
            let id = self.analyze_unknown_id(from)?;
            let ghost mid = self.env;
            let t = id.ty();
            self.env.expect(name, t);
            assert(env_m(self.env) == match scope_get(mid.symbols@, name@) {
                Some(s) => bind(env_m(mid), name@, with_expected(s, ident_ty(id))),
                None => env_m(mid),
            });
            Ok(())
        } else {
            Ok(())
        }
    }

    /// Declares that the symbol named by `name` is expected to have the type
    /// that its type expression stands for, where it has one.
    pub fn expect(&mut self, name: Ident) -> (r: Result<(), ErrKind>)
        requires
            name matches Ident::Tagged(tag, _) ==> analyzable(*tag),
        ensures
            keeps_setup(*old(self), *final(self)),
            final(self).line == old(self).line,
            final(self).column == old(self).column,
            final(self).env.blueprints == old(self).env.blueprints,
            !(name is Tagged) ==> *final(self) == *old(self) && r is Ok,
            name is Tagged ==> {
                let (out, m2) = unknown_id(env_m(old(self).env), name, an_pos(*old(self)));
                match out {
                    Ok((_, t)) => {
                        &&& r is Ok
                        &&& errs_view(final(self).errors@) == errs_view(old(self).errors@)
                        &&& exists|mid: Enviroment| {
                            &&& #[trigger] env_m(mid) == m2
                            &&& env_m(final(self).env) == match scope_get(mid.symbols@, ident_name(name)) {
                                Some(s) => bind(m2, ident_name(name), with_expected(s, t)),
                                None => m2,
                            }
                        }
                    },
                    Err(e) => {
                        &&& r == Err::<(), ErrKind>(e.kind)
                        &&& errs_view(final(self).errors@) == errs_view(old(self).errors@).push(e)
                        &&& env_m(final(self).env) == m2
                    },
                }
            },
    {
        let v = copy_string(name.val());
        self.expect_as(&v, name)
    }

    /// Binds `name` to a function of the parameter types `params` returning
    /// `ty`, and adds a node that imports it from `module` to `body`.
    fn import(&mut self, body: &mut Vec<Node>, ty: AtomType, module: &str, name: &str, params: Vec<AtomType>)
        ensures
            keeps_setup(*old(self), *final(self)),
            ({
                let f = KindV::Function(FunV { params: tys_v(params@), ret: Box::new(ty@) });
                &&& env_m(final(self).env) == bind(env_m(old(self).env), name@, plain_sym(name@, plain_ty(f)))
                &&& final(self).env.blueprints == old(self).env.blueprints
                &&& final(self).line == old(self).line
                &&& final(self).column == old(self).column
                &&& final(self).errors == old(self).errors
                &&& final(body)@.len() == old(body)@.len() + 1
                &&& final(body)@.drop_last() == old(body)@
                &&& final(body)@.last().ty@ == plain_ty(f)
                &&& final(body)@.last().expr matches Expr::Import { module: m, name: n, params: ps }
                    && m@ == module@ && n@ == name@ && tys_v(ps@) == tys_v(params@)
            }),
    {
        let func = FunctionType { params: copy_types(&params), return_type: Box::new(ty) };
        self.env.push_function(from_str(name), func.copy());
        let k = AtomKind::Function(func);
        assert(kind_v(k) == KindV::Function(func@));
        let node = Node {
            expr: Expr::Import { module: from_str(module), name: from_str(name), params },
            ty: AtomType::plain(k),
            line: 0,
            start: 0,
            end: 0,
        };
        let ghost b0 = body@;
        body.push(node);
        assert(body@.drop_last() =~= b0);
    }

    /// Records function definitions: resolves each one's parameters, names
    /// it after its parameter types, binds its own name to the blueprint
    /// type that lists the overload, and keeps the definitions.
    #[verifier::rlimit(40)]
    pub fn blueprints(&mut self, blueprints: Vec<Blueprint>) -> (r: Result<(), ErrKind>)
        requires
            forall|j: int| 0 <= j < blueprints@.len() ==> ids_analyzable((#[trigger] blueprints@[j]).args@),
            !defs(env_m(old(self).env), blueprints@, an_pos(*old(self))).stuck,
        ensures
            keeps_setup(*old(self), *final(self)),
            ({
                let d = defs(env_m(old(self).env), blueprints@, an_pos(*old(self)));
                let n = old(self).env.blueprints@.len();
                &&& final(self).line == old(self).line
                &&& final(self).column == old(self).column
                &&& env_m(final(self).env) == d.env
                &&& match d.out {
                    Ok(rs) => {
                        &&& r is Ok
                        &&& errs_view(final(self).errors@) == errs_view(old(self).errors@)
                        &&& final(self).env.blueprints@.len() == n + blueprints@.len()
                        &&& final(self).env.blueprints@.subrange(0, n as int) == old(self).env.blueprints@
                        &&& forall|j: int|
                            0 <= j < blueprints@.len() ==> recorded(blueprints@[j], #[trigger] final(self).env.blueprints@[n + j], rs[j])
                    },
                    Err(e) => {
                        &&& r == Err::<(), ErrKind>(e.kind)
                        &&& errs_view(final(self).errors@) == errs_view(old(self).errors@).push(e)
                        &&& final(self).env.blueprints == old(self).env.blueprints
                    },
                }
            }),
    {
        let ghost orig = blueprints@;
        let ghost m = env_m(self.env);
        let ghost pos = an_pos(*self);
        let ghost start_errs = errs_view(self.errors@);
        let mut rest = blueprints;
        let total = rest.len();
        let mut done: Vec<Blueprint> = Vec::new();
        let mut i: usize = 0;
        proof {
            assert(orig.subrange(0, 0) =~= Seq::<Blueprint>::empty());
            assert(rest@ =~= orig.subrange(0, total as int));
        }
        #[verifier::loop_isolation(false)]
        while rest.len() > 0
            invariant
                i + rest@.len() == orig.len(),
                orig.len() <= usize::MAX,
                rest@ == orig.subrange(i as int, orig.len() as int),
                self.line == old(self).line,
                self.column == old(self).column,
                an_pos(*self) == pos,
                self.env.blueprints == old(self).env.blueprints,
                keeps_setup(*old(self), *self),
                !defs(m, orig.subrange(0, i as int), pos).stuck,
                defs(m, orig.subrange(0, i as int), pos).out matches Ok(rs) && rs.len() == i && done@.len() == i
                    && forall|j: int| 0 <= j < i ==> recorded(orig[j], #[trigger] done@[j], rs[j]),
                env_m(self.env) == defs(m, orig.subrange(0, i as int), pos).env,
                errs_view(self.errors@) == start_errs,
            decreases rest@.len(),
        {
            let bp = rest.remove(0);
            assert(bp == orig[i as int]);
            let ghost pre = orig.subrange(0, i as int);
            let ghost post = orig.subrange(0, i + 1);
            assert(post.drop_last() =~= pre);
            assert(post.last() == bp);
            proof {
                if defs(m, post, pos).stuck {
                    lemma_defs_stuck_prefix(m, orig, i + 1, pos);
                }
            }
            let ghost d0 = defs(m, pre, pos);
            let ghost env_before = env_m(self.env);
            let res = self.record_one(bp);
            let nb = match res {
                Err(k) => {
                    proof {
                        assert(defs(m, post, pos).out is Err);
                        lemma_defs_err_prefix(m, orig, i + 1, pos);
                    }
                    return Err(k);
                },
                Ok(nb) => nb,
            };
            let ghost done0 = done@;
            let ghost nbv = nb;
            done.push(nb);
            proof {
                let rs = d0.out->Ok_0;
                let x = def_step(d0.env, bp, pos).0->Ok_0;
                assert(env_before == d0.env);
                assert(recorded(bp, nbv, x));
                assert(done@[i as int] == nbv);
                assert(defs(m, post, pos).out == Ok::<Seq<(Seq<(Seq<char>, TyV)>, Seq<char>)>, ErrInfo>(rs.push(x)));
                assert forall|j: int| 0 <= j < i + 1 implies recorded(orig[j], #[trigger] done@[j], rs.push(x)[j]) by {
                    if j < i {
                        assert(done@[j] == done0[j]);
                        assert(rs.push(x)[j] == rs[j]);
                    } else {
                        assert(rs.push(x)[j] == x);
                    }
                }
            }
            assert(rest@ =~= orig.subrange(i + 1, orig.len() as int));
            i = i + 1;
        }
        assert(orig.subrange(0, orig.len() as int) =~= orig);
        let ghost before = self.env.blueprints@;
        self.env.blueprints.append(&mut done);
        assert(self.env.blueprints@.subrange(0, before.len() as int) =~= before);
        Ok(())
    }
}

} // verus!
