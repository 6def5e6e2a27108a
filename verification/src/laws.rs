//! What holds across the operations of the library: the errors of the
//! lexer, lookups after changes to an environment, renaming of overloads and
//! reading their types back, the lines of a module, the blocks an emitter
//! writes and the codes of errors.
use vstd::prelude::*;
use crate::backend::c::codegen::{const_text, pop_text, Popped};
use crate::backend::c::{add_once, tabs_of, ItemV};
use crate::backend::c::gen::{em_embed, em_end, em_header, em_lines, EmV, EmitV};
use crate::err::{error_text, ErrInfo};
use crate::lexer::{
    lemma_skip_blank_moves, lemma_until_end_bounds, lex_step, moved, skip_blank, until_end, byte_len,
    LexV,
};
use crate::token::TokenV;
use crate::typestr::{basic_str, ty_str};
use crate::enviroment::{bind, env_get, env_m, Enviroment, SymV};
use crate::err::{err_code, ErrKind};
use crate::mangle::{first_index, mangle_char, mangle_chars, mangled, mangled_list, split_on};
use crate::typeeq::{all_found, atom_eq, kind_eq, lookup, pairs_eq, ty_eq};
use crate::types::{DetailsV, KindV, TyV};

verus! {

/// Once a symbol is added, its name gives back that symbol, and every other
/// name means what it meant before.
pub proof fn law_add_then_get(e: Enviroment, s: SymV, k: Seq<char>)
    ensures
        bind(env_m(e), s.name, s)(s.name) == Some(s),
        k != s.name ==> bind(env_m(e), s.name, s)(k) == env_get(e, k),
{
}

/// Replacing the symbol of a name that is known makes the name give the new
/// symbol; replacing one that is unknown changes no name.
pub proof fn law_modify_then_get(e: Enviroment, name: Seq<char>, s: SymV, k: Seq<char>)
    ensures
        env_get(e, name) is Some ==> bind(env_m(e), name, s)(name) == Some(s),
        env_get(e, name) is None ==> env_m(e)(k) == env_get(e, k),
{
}

/// A fresh scope inside an environment sees every name as the environment
/// does, until something is added to it.
pub proof fn law_child_sees_parent(c: Enviroment, e: Enviroment, k: Seq<char>)
    requires
        c.symbols@.len() == 0,
        c.parent == Some(Box::new(e)),
    ensures
        env_get(c, k) == env_get(e, k),
{
    assert(crate::enviroment::scope_get(c.symbols@, k) is None);
}

/// `first_index` stops at the first `c`, and at the end where there is none.
proof fn lemma_first_index_props(s: Seq<char>, c: char)
    ensures
        0 <= first_index(s, c) <= s.len(),
        forall|j: int| 0 <= j < first_index(s, c) ==> s[j] != c,
        first_index(s, c) < s.len() ==> s[first_index(s, c)] == c,
    decreases s.len(),
{
    if s.len() > 0 && s[0] != c {
        lemma_first_index_props(s.drop_first(), c);
        assert forall|j: int| 0 <= j < first_index(s, c) implies s[j] != c by {
            if j > 0 {
                assert(s[j] == s.drop_first()[j - 1]);
            }
        }
    }
}

/// The part of a mangled name after its type marker: `empty`, or the mangled
/// types.
pub open spec fn type_part(ts: Seq<TyV>) -> Seq<char> {
    if ts.len() == 0 {
        "empty"@
    } else {
        mangled_list(ts)
    }
}

/// A mangled name splits at its first `$` into the name it was made from
/// (cut at its own first `$`) and its type list.
pub proof fn law_mangled_parts(name: Seq<char>, ts: Seq<TyV>)
    ensures
        ({
            let m = mangled(name, ts);
            let cut = name.subrange(0, first_index(name, '$'));
            &&& first_index(m, '$') == cut.len()
            &&& m.subrange(0, first_index(m, '$')) == cut
            &&& m.subrange(first_index(m, '$') + 1, m.len() as int) == type_part(ts)
        }),
{
    reveal_strlit("$");
    lemma_first_index_props(name, '$');
    let m = mangled(name, ts);
    let cut = name.subrange(0, first_index(name, '$'));
    assert(m == cut + "$"@ + type_part(ts));
    assert(m[cut.len() as int] == '$');
    assert forall|j: int| 0 <= j < cut.len() implies m[j] != '$' by {
        assert(m[j] == name[j]);
    }
    crate::mangle::lemma_first_index(m, '$', cut.len() as int);
    assert(m.subrange(0, cut.len() as int) =~= cut);
    assert(m.subrange(cut.len() as int + 1, m.len() as int) =~= type_part(ts));
}

/// Mangling a name that is mangled already replaces its types: the earlier
/// types are dropped.
pub proof fn law_remangle(name: Seq<char>, ts: Seq<TyV>, us: Seq<TyV>)
    ensures
        mangled(mangled(name, ts), us) == mangled(name, us),
{
    law_mangled_parts(name, ts);
}

/// Whether no line occurs twice.
pub open spec fn no_repeats(s: Seq<Seq<char>>) -> bool {
    forall|i: int, j: int| 0 <= i < j < s.len() ==> s[i] != s[j]
}

/// Adding a line once keeps a list free of repeats, the line is then in the
/// list, and adding it again changes nothing.
pub proof fn law_add_once(s: Seq<Seq<char>>, x: Seq<char>)
    ensures
        add_once(s, x).contains(x),
        no_repeats(s) ==> no_repeats(add_once(s, x)),
        add_once(add_once(s, x), x) == add_once(s, x),
{
    if !s.contains(x) {
        assert(s.push(x)[s.len() as int] == x);
        assert forall|i: int, j: int| no_repeats(s) && 0 <= i < j < s.push(x).len() implies s.push(x)[i] != s.push(x)[j] by {
            if j == s.len() {
                assert(s[i] == s.push(x)[i]);
            }
        }
    }
}

/// The depth after a block is closed.
pub open spec fn closed_depth(col: nat) -> nat {
    if col > 0 {
        (col - 1) as nat
    } else {
        0
    }
}

/// Closing a block right after opening one gives back the depth it was
/// opened at, so the closing brace stands level with the header.
pub proof fn law_block_depth(col: nat)
    ensures
        closed_depth(col + 1) == col,
{
}

/// Distinct kinds of errors have distinct codes.
pub proof fn law_err_codes(a: ErrKind, b: ErrKind)
    ensures
        err_code(a) == err_code(b) ==> a == b,
{
}


/// Whether no two entries of a list of named types share a name.
pub open spec fn names_unique(s: Seq<(Seq<char>, TyV)>) -> bool {
    forall|i: int, j: int| 0 <= i < j < s.len() ==> s[i].0 != s[j].0
}

/// Whether every list of named types inside a type has distinct names, as
/// the maps of fields and generic parameters have.
pub open spec fn ty_wf(t: TyV) -> bool
    decreases t,
{
    &&& kind_wf(t.kind)
    &&& match t.details {
        Some(DetailsV::Unknown(b)) => ty_wf(*b),
        _ => true,
    }
}

/// Whether every list of named types inside a kind has distinct names.
pub open spec fn kind_wf(k: KindV) -> bool
    decreases k,
{
    match k {
        KindV::Atom(a) => {
            &&& names_unique(a.fields)
            &&& names_unique(a.generics)
            &&& forall|i: int| 0 <= i < a.fields.len() ==> ty_wf(#[trigger] a.fields[i].1)
            &&& forall|i: int| 0 <= i < a.generics.len() ==> ty_wf(#[trigger] a.generics[i].1)
        },
        KindV::Function(f) => {
            &&& forall|i: int| 0 <= i < f.params.len() ==> ty_wf(#[trigger] f.params[i])
            &&& ty_wf(*f.ret)
        },
        _ => true,
    }
}

/// In a list with distinct names, each entry is what its name looks up.
proof fn lemma_lookup_unique(ys: Seq<(Seq<char>, TyV)>, i: int)
    requires
        names_unique(ys),
        0 <= i < ys.len(),
    ensures
        lookup(ys, ys[i].0) == Some(ys[i].1),
    decreases i,
{
    if i > 0 {
        assert(ys[0].0 != ys[i].0);
        assert(ys.drop_first()[i - 1] == ys[i]);
        lemma_lookup_unique(ys.drop_first(), i - 1);
    }
}

/// A prefix of a list with distinct names, whose types equal themselves, is
/// all found in the list.
proof fn lemma_found_refl(xs: Seq<(Seq<char>, TyV)>, ys: Seq<(Seq<char>, TyV)>)
    requires
        xs.len() <= ys.len(),
        forall|i: int| 0 <= i < xs.len() ==> xs[i] == ys[i],
        names_unique(ys),
        forall|i: int| 0 <= i < ys.len() ==> ty_eq(#[trigger] ys[i].1, ys[i].1),
    ensures
        all_found(xs, ys),
    decreases xs.len(),
{
    if xs.len() > 0 {
        lemma_found_refl(xs.drop_last(), ys);
        lemma_lookup_unique(ys, xs.len() - 1);
        assert(ty_eq(ys[xs.len() - 1].1, ys[xs.len() - 1].1));
    }
}

/// A prefix of a list of types that equal themselves matches the list.
proof fn lemma_pairs_refl(xs: Seq<TyV>, ys: Seq<TyV>)
    requires
        xs.len() <= ys.len(),
        forall|i: int| 0 <= i < xs.len() ==> xs[i] == ys[i],
        forall|i: int| 0 <= i < ys.len() ==> ty_eq(#[trigger] ys[i], ys[i]),
    ensures
        pairs_eq(xs, ys),
    decreases xs.len(),
{
    if xs.len() > 0 {
        lemma_pairs_refl(xs.drop_last(), ys);
        assert(ty_eq(ys[xs.len() - 1], ys[xs.len() - 1]));
    }
}

/// A well-formed kind equals itself.
proof fn lemma_kind_refl(k: KindV)
    requires
        kind_wf(k),
    ensures
        kind_eq(k, k),
    decreases k,
{
    match k {
        KindV::Atom(a) => {
            assert forall|i: int| 0 <= i < a.fields.len() implies ty_eq(#[trigger] a.fields[i].1, a.fields[i].1) by {
                assert(decreases_to!(k => a.fields[i].1));
                lemma_ty_refl(a.fields[i].1);
            }
            assert forall|i: int| 0 <= i < a.generics.len() implies ty_eq(#[trigger] a.generics[i].1, a.generics[i].1) by {
                assert(decreases_to!(k => a.generics[i].1));
                lemma_ty_refl(a.generics[i].1);
            }
            lemma_found_refl(a.fields, a.fields);
            lemma_found_refl(a.generics, a.generics);
            assert(atom_eq(a, a));
        },
        KindV::Function(f) => {
            assert forall|i: int| 0 <= i < f.params.len() implies ty_eq(#[trigger] f.params[i], f.params[i]) by {
                assert(decreases_to!(k => f.params[i]));
                lemma_ty_refl(f.params[i]);
            }
            lemma_pairs_refl(f.params, f.params);
            lemma_ty_refl(*f.ret);
        },
        _ => {},
    }
}

/// A well-formed type equals itself.
proof fn lemma_ty_refl(t: TyV)
    requires
        ty_wf(t),
    ensures
        ty_eq(t, t),
    decreases t,
{
    lemma_kind_refl(t.kind);
    match t.details {
        Some(DetailsV::Unknown(b)) => {
            lemma_ty_refl(*b);
        },
        _ => {},
    }
}

/// Every type whose lists of fields and generic parameters have distinct
/// names, as maps do, is equal to itself.
pub proof fn law_type_eq_reflexive(t: TyV)
    requires
        ty_wf(t),
    ensures
        ty_eq(t, t),
{
    lemma_ty_refl(t);
}


/// The value pushed last on the code generator's stack is the one taken off
/// next, and what lies below is left as it was; a constant, variable or
/// expression comes off as its C text.
pub proof fn law_push_then_pop(st: Seq<ItemV>, it: ItemV)
    ensures
        st.push(it).last() == it,
        st.push(it).drop_last() == st,
        it matches ItemV::Const(c) ==> pop_text(st.push(it)) == Some(Popped { text: const_text(c), rest: st }),
        it matches ItemV::Var(_, n) ==> pop_text(st.push(it)) == Some(Popped { text: n, rest: st }),
        it matches ItemV::Expr(_, e) ==> pop_text(st.push(it)) == Some(Popped { text: e, rest: st }),
{
    assert(st.push(it).drop_last() =~= st);
}


/// Whether one lexer call reported an error as the original lexer does:
/// the token is an error exactly when one error was appended, that error is
/// of the unknown-character kind and the token carries its report text, and
/// otherwise the errors are unchanged.
pub open spec fn lex_error_law(v: LexV, t: TokenV, w: LexV) -> bool {
    &&& (t is Error) <==> w.errors.len() == v.errors.len() + 1
    &&& (t is Error) ==> {
        let e = w.errors.last();
        &&& w.errors.drop_last() == v.errors
        &&& e.kind == ErrKind::UnknownCharE
        &&& t == TokenV::Error(error_text(e.kind, e.msg, e.line, e.column))
    }
    &&& !(t is Error) ==> w.errors == v.errors
}

/// Every call of the lexer that returns gives an error token exactly when it
/// appends one unknown-character error, whose report the token carries; the
/// errors met before are never changed.
pub proof fn law_lex_errors(v: LexV)
    requires
        lex_step(v) is Some,
    ensures
        ({
            let (t, w) = lex_step(v)->0;
            lex_error_law(v, t, w)
        }),
    decreases v.code.len() - v.pos,
{
    let c = v.code;
    lemma_skip_blank_moves(c, v.pos, v.line, v.column);
    let (p, l, k) = skip_blank(c, v.pos, v.line, v.column)->0;
    if p < byte_len(c) && 0 <= p < c.len() {
        if c[p] == '#' {
            lemma_until_end_bounds(c, p, '\n');
            let e = until_end(c, p, '\n')->0;
            let w = moved(v, e, l + 1, k + (e - p));
            law_lex_errors(w);
        } else {
            let (t, w) = lex_step(v)->0;
            if t is Error {
                assert(w.errors.drop_last() =~= v.errors);
            }
        }
    }
}

/// A written type appears unchanged in a mangled name when it holds no
/// bracket and no comma.
proof fn lemma_mangle_plain(s: Seq<char>)
    requires
        forall|i: int| 0 <= i < s.len() ==> s[i] != '(' && s[i] != ')' && s[i] != ',',
    ensures
        mangle_chars(s) == s,
    decreases s.len(),
{
    if s.len() > 0 {
        lemma_mangle_plain(s.drop_last());
        assert(mangle_char(s.last()) == seq![s.last()]);
        assert(s.drop_last().push(s.last()) =~= s);
    }
}

/// Splitting a text that does not hold the separator gives the text alone.
proof fn lemma_split_none(s: Seq<char>, c: char)
    requires
        forall|i: int| 0 <= i < s.len() ==> s[i] != c,
    ensures
        split_on(s, c) == seq![s],
    decreases s.len(),
{
    if s.len() > 0 {
        lemma_split_none(s.drop_last(), c);
        assert(s.last() != c);
        assert(s.drop_last().push(s.last()) =~= s);
        assert(seq![s.drop_last()].update(0, s.drop_last().push(s.last())) =~= seq![s]);
        let r = split_on(s.drop_last(), c);
        assert(r.len() == 1 && r.last() == s.drop_last());
        assert(split_on(s, c) == r.update(r.len() - 1, r.last().push(s.last())));
    } else {
        assert(s =~= Seq::<char>::empty());
    }
}

/// Splitting `a`, a separator and a piece without it gives the pieces of `a`
/// and then that piece.
proof fn lemma_split_append(a: Seq<char>, c: char, b: Seq<char>)
    requires
        forall|i: int| 0 <= i < b.len() ==> b[i] != c,
    ensures
        split_on(a + seq![c] + b, c) == split_on(a, c).push(b),
    decreases b.len(),
{
    let s = a + seq![c] + b;
    if b.len() == 0 {
        assert(b =~= Seq::<char>::empty());
        assert(s.drop_last() =~= a);
        assert(s.last() == c);
    } else {
        assert(s.drop_last() =~= a + seq![c] + b.drop_last());
        lemma_split_append(a, c, b.drop_last());
        assert(s.last() == b.last());
        assert(b.last() != c);
        assert(b.drop_last().push(b.last()) =~= b);
        let r = split_on(a, c).push(b.drop_last());
        assert(r.last() == b.drop_last());
        assert(r.update(r.len() - 1, r.last().push(b.last())) =~= split_on(a, c).push(b));
        assert(split_on(s, c) == r.update(r.len() - 1, r.last().push(s.last())));
    }
}

/// The written basic types hold no bracket, comma or underscore.
proof fn lemma_basic_plain(t: TyV)
    requires
        t.kind is Basic,
    ensures
        forall|i: int| 0 <= i < ty_str(t).len() ==> ty_str(t)[i] != '(' && ty_str(t)[i] != ')' && ty_str(t)[i]
            != ',' && ty_str(t)[i] != '_',
{
    reveal_strlit("int");
    reveal_strlit("float");
    reveal_strlit("bool");
    reveal_strlit("void");
}

/// The type list of a mangled name of basic types, split at `_`, gives the
/// written types.
proof fn lemma_split_types(ts: Seq<TyV>)
    requires
        ts.len() > 0,
        forall|i: int| 0 <= i < ts.len() ==> (#[trigger] ts[i]).kind is Basic,
    ensures
        split_on(mangled_list(ts), '_') == ts.map_values(|t: TyV| ty_str(t)),
    decreases ts.len(),
{
    lemma_basic_plain(ts.last());
    lemma_mangle_plain(ty_str(ts.last()));
    if ts.len() == 1 {
        lemma_basic_plain(ts[0]);
        lemma_mangle_plain(ty_str(ts[0]));
        lemma_split_none(ty_str(ts[0]), '_');
        assert(ts.map_values(|t: TyV| ty_str(t)) =~= seq![ty_str(ts[0])]);
    } else {
        let d = ts.drop_last();
        assert forall|i: int| 0 <= i < d.len() implies (#[trigger] d[i]).kind is Basic by {
            assert(d[i] == ts[i]);
        }
        lemma_split_types(d);
        reveal_strlit("_");
        assert(mangled_list(ts) == mangled_list(d) + seq!['_'] + ty_str(ts.last()));
        lemma_split_append(mangled_list(d), '_', ty_str(ts.last()));
        assert(d.map_values(|t: TyV| ty_str(t)).push(ty_str(ts.last())) =~= ts.map_values(|t: TyV| ty_str(t)));
    }
}

/// Reading the types back from a mangled name of basic types: the part after
/// its first `$`, split at each `_`, is `empty` where there are no types, and
/// the written types otherwise, whatever the name was.
pub proof fn law_mangle_types_read_back(name: Seq<char>, ts: Seq<TyV>)
    requires
        forall|i: int| 0 <= i < ts.len() ==> (#[trigger] ts[i]).kind is Basic,
    ensures
        ({
            let m = mangled(name, ts);
            &&& exists|i: int| 0 <= i < m.len() && m[i] == '$'
            &&& split_on(m.subrange(first_index(m, '$') + 1, m.len() as int), '_') == if ts.len() == 0 {
                seq!["empty"@]
            } else {
                ts.map_values(|t: TyV| ty_str(t))
            }
        }),
{
    law_mangled_parts(name, ts);
    let m = mangled(name, ts);
    let cut = name.subrange(0, first_index(name, '$'));
    reveal_strlit("$");
    assert(m[cut.len() as int] == '$');
    if ts.len() == 0 {
        reveal_strlit("empty");
        lemma_split_none("empty"@, '_');
    } else {
        lemma_split_types(ts);
    }
}

/// What may stand inside a block: a statement, lines, or what emitting an
/// operation gave.
pub enum BlockStep {
    Emit(Seq<char>),
    Lines(Seq<Seq<char>>),
    Embed(EmitV),
}

/// An emitter after one step inside a block (`emit`, `lines` or `embed`).
pub open spec fn block_step(em: EmV, st: BlockStep) -> EmV {
    match st {
        BlockStep::Emit(s) => em_embed(em, EmitV::Line(s)),
        BlockStep::Lines(ls) => em_lines(em, ls),
        BlockStep::Embed(e) => em_embed(em, e),
    }
}

/// An emitter after several steps inside a block.
pub open spec fn block_steps(em: EmV, steps: Seq<BlockStep>) -> EmV
    decreases steps.len(),
{
    if steps.len() == 0 {
        em
    } else {
        block_step(block_steps(em, steps.drop_last()), steps.last())
    }
}

/// Steps inside a block keep the depth and only add lines.
proof fn lemma_block_steps(em: EmV, steps: Seq<BlockStep>)
    ensures
        block_steps(em, steps).col == em.col,
        block_steps(em, steps).lines.len() >= em.lines.len(),
        block_steps(em, steps).lines.subrange(0, em.lines.len() as int) == em.lines,
    decreases steps.len(),
{
    if steps.len() > 0 {
        lemma_block_steps(em, steps.drop_last());
        let b = block_steps(em, steps.drop_last());
        let a = block_step(b, steps.last());
        assert(a.lines.subrange(0, b.lines.len() as int) =~= b.lines);
        assert(a.lines.subrange(0, em.lines.len() as int) =~= b.lines.subrange(0, em.lines.len() as int));
    }
}

/// A block opened by `emit_header` at depth `c`, filled by any `emit`,
/// `lines` and `embed` calls and closed by `end`, leaves the emitter at depth
/// `c`: its header line and its closing brace both stand at depth `c`, after
/// the lines that were there before.
pub proof fn law_block_closes_level(em: EmV, h: Seq<char>, steps: Seq<BlockStep>)
    requires
        em.col < u32::MAX,
    ensures
        ({
            let done = em_end(block_steps(em_header(em, h)->0, steps));
            &&& done.col == em.col
            &&& done.lines.last() == tabs_of(em.col as nat) + "}"@
            &&& done.lines.len() >= em.lines.len() + 2
            &&& done.lines.subrange(0, em.lines.len() as int) == em.lines
            &&& done.lines[em.lines.len() as int] == tabs_of(em.col as nat) + h
        }),
{
    let e1 = em_header(em, h)->0;
    lemma_block_steps(e1, steps);
    let b = block_steps(e1, steps);
    let done = em_end(b);
    assert(done.lines.subrange(0, e1.lines.len() as int) =~= b.lines.subrange(0, e1.lines.len() as int));
    assert(b.lines.subrange(0, e1.lines.len() as int)[em.lines.len() as int] == e1.lines[em.lines.len() as int]);
    assert(done.lines.subrange(0, em.lines.len() as int) =~= e1.lines.subrange(0, em.lines.len() as int));
    assert(e1.lines.subrange(0, em.lines.len() as int) =~= em.lines);
}

} // verus!
