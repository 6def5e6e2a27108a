//! How types are written out, and the mangled names of overloads.
use vstd::prelude::*;
use crate::text::{copy_string, push_char, push_str};
use crate::types::{
    atom_size, entries_size, generics_of, kind_size, lemma_entries_size, lemma_tys_size, lemma_tys_v,
    strs_v, ty_size, ty_v, tys_size, tys_v, Atom, AtomKind, AtomType, AtomV, BasicType, BlueprintType,
    FunV, FunctionType, Generics, KindV, TyV,
};

verus! {

/// The name of a basic type.
pub open spec fn basic_str(b: BasicType) -> Seq<char> {
    match b {
        BasicType::Float => "float"@,
        BasicType::Int => "int"@,
        BasicType::Void => "void"@,
        BasicType::Bool => "bool"@,
    }
}

/// How a type is written.
pub open spec fn ty_str(t: TyV) -> Seq<char>
    decreases t,
{
    kind_str(t.kind)
}

/// How a kind is written.
pub open spec fn kind_str(k: KindV) -> Seq<char>
    decreases k,
{
    match k {
        KindV::Any => "any"@,
        KindV::Dynamic => "Dynamic"@,
        KindV::Basic(b) => basic_str(b),
        KindV::Atom(a) => atom_str(a),
        KindV::Blueprint(b) => "Blueprint("@ + b.name + ", "@ + join_strs(b.overloads) + ")"@,
        KindV::Function(f) => "Fn("@ + list_str(f.params) + ") -> "@ + ty_str(*f.ret),
        KindV::Unknown => "Unknown"@,
    }
}

/// How a compound type is written: its name, then its generic parameters in
/// brackets where it has any.
pub open spec fn atom_str(a: AtomV) -> Seq<char>
    decreases a,
{
    if a.generics.len() > 0 {
        a.name + "("@ + gens_str(a.generics) + ")"@
    } else {
        a.name
    }
}

/// How generic parameters are written, separated by `", "`.
pub open spec fn gens_str(gs: Seq<(Seq<char>, TyV)>) -> Seq<char>
    decreases gs,
{
    if gs.len() == 0 {
        Seq::empty()
    } else if gs.len() == 1 {
        gen_str(gs[0])
    } else {
        gens_str(gs.drop_last()) + ", "@ + gen_str(gs.last())
    }
}

/// How one generic parameter is written: its name while it is unknown, its
/// type otherwise.
pub open spec fn gen_str(g: (Seq<char>, TyV)) -> Seq<char>
    decreases g,
{
    if g.1.kind is Unknown {
        g.0
    } else {
        ty_str(g.1)
    }
}

/// How a list of types is written, separated by `", "`.
pub open spec fn list_str(ts: Seq<TyV>) -> Seq<char>
    decreases ts,
{
    if ts.len() == 0 {
        Seq::empty()
    } else if ts.len() == 1 {
        ty_str(ts[0])
    } else {
        list_str(ts.drop_last()) + ", "@ + ty_str(ts.last())
    }
}

/// A list of strings joined by `", "`.
pub open spec fn join_strs(ss: Seq<Seq<char>>) -> Seq<char>
    decreases ss.len(),
{
    if ss.len() == 0 {
        Seq::empty()
    } else if ss.len() == 1 {
        ss[0]
    } else {
        join_strs(ss.drop_last()) + ", "@ + ss.last()
    }
}

/// Appends the name of a basic type.
pub fn push_basic(s: &mut String, b: BasicType)
    ensures
        final(s)@ == old(s)@ + basic_str(b),
{
    match b {
        BasicType::Float => push_str(s, "float"),
        BasicType::Int => push_str(s, "int"),
        BasicType::Void => push_str(s, "void"),
        BasicType::Bool => push_str(s, "bool"),
    }
}

/// Appends how a type is written.
pub fn push_ty(s: &mut String, t: &AtomType)
    ensures
        final(s)@ == old(s)@ + ty_str(t@),
    decreases ty_size(t@),
{
    push_kind(s, &t.kind);
}

/// Appends how a kind is written.
pub fn push_kind(s: &mut String, k: &AtomKind)
    ensures
        final(s)@ == old(s)@ + kind_str(k@),
    decreases kind_size(k@),
{
    let ghost start = s@;
    match k {
        AtomKind::Any => push_str(s, "any"),
        AtomKind::Dynamic => push_str(s, "Dynamic"),
        AtomKind::Basic(b) => push_basic(s, *b),
        AtomKind::Atom(a) => push_atom(s, a),
        AtomKind::Blueprint(b) => {
            push_str(s, "Blueprint(");
            push_str(s, b.name.as_str());
            push_str(s, ", ");
            push_joined(s, &b.overloads);
            push_str(s, ")");
            assert(s@ =~= start + kind_str(k@));
        },
        AtomKind::Function(f) => {
            push_str(s, "Fn(");
            push_list(s, &f.params);
            push_str(s, ") -> ");
            push_ty(s, &*f.return_type);
            assert(s@ =~= start + kind_str(k@));
        },
        AtomKind::Unknown => push_str(s, "Unknown"),
    }
}

/// Appends how a compound type is written.
pub fn push_atom(s: &mut String, a: &Atom)
    ensures
        final(s)@ == old(s)@ + atom_str(a@),
    decreases atom_size(a@),
{
    let ghost start = s@;
    push_str(s, a.name.as_str());
    if a.generics.len() > 0 {
        push_str(s, "(");
        push_gens(s, &a.generics);
        push_str(s, ")");
    }
    assert(s@ =~= start + atom_str(a@));
}

/// Appends how generic parameters are written.
pub fn push_gens(s: &mut String, gs: &Generics)
    ensures
        final(s)@ == old(s)@ + gens_str(generics_of(*gs)),
    decreases entries_size(generics_of(*gs)),
{
    let ghost start = s@;
    let ghost e = generics_of(*gs);
    assert(e.subrange(0, 0) =~= Seq::<(Seq<char>, TyV)>::empty());
    let n = gs.len();
    let mut i: usize = 0;
    while i < n
        invariant
            n == e.len(),
            e == generics_of(*gs),
            i <= n,
            s@ == start + gens_str(e.subrange(0, i as int)),
        decreases n - i,
    {
        if i > 0 {
            push_str(s, ", ");
        }
        let ghost mid = s@;
        let (k, t) = gs.get_index(i);
        assert(ty_v(*t).kind == crate::types::kind_v(t.kind));
        if let AtomKind::Unknown = t.kind {
            assert(e[i as int].1.kind is Unknown);
            push_str(s, k.as_str());
        } else {
            assert(!(e[i as int].1.kind is Unknown));
            proof {
                lemma_entries_size(e, i as int);
            }
            push_ty(s, t);
        }
        proof {
            let sub = e.subrange(0, i + 1);
            assert(s@ == mid + gen_str(e[i as int]));
            assert(sub.drop_last() =~= e.subrange(0, i as int));
            assert(sub.last() == e[i as int]);
            if i == 0 {
                assert(sub.len() == 1);
                assert(sub[0] == e[0]);
                assert(gens_str(sub) == gen_str(e[0]));
            } else {
                assert(gens_str(sub) == gens_str(e.subrange(0, i as int)) + ", "@ + gen_str(e[i as int]));
            }
            assert(s@ =~= start + gens_str(sub));
        }
        i = i + 1;
    }
    assert(e.subrange(0, e.len() as int) =~= e);
}

/// Appends how a list of types is written.
pub fn push_list(s: &mut String, ts: &Vec<AtomType>)
    ensures
        final(s)@ == old(s)@ + list_str(tys_v(ts@)),
    decreases tys_size(tys_v(ts@)),
{
    let ghost start = s@;
    let ghost e = tys_v(ts@);
    proof {
        lemma_tys_v(ts@);
        assert(e.subrange(0, 0) =~= Seq::<TyV>::empty());
    }
    let mut i: usize = 0;
    while i < ts.len()
        invariant
            i <= ts.len(),
            e == tys_v(ts@),
            e.len() == ts@.len(),
            forall|j: int| 0 <= j < ts@.len() ==> #[trigger] e[j] == ty_v(ts@[j]),
            s@ == start + list_str(e.subrange(0, i as int)),
        decreases ts.len() - i,
    {
        if i > 0 {
            push_str(s, ", ");
        }
        proof {
            lemma_tys_size(e, i as int);
        }
        push_ty(s, &ts[i]);
        proof {
            let sub = e.subrange(0, i + 1);
            assert(sub.drop_last() =~= e.subrange(0, i as int));
            if i == 0 {
                assert(sub.len() == 1);
            }
            assert(s@ =~= start + list_str(sub));
        }
        i = i + 1;
    }
    assert(e.subrange(0, e.len() as int) =~= e);
}

/// Appends a list of strings joined by `", "`.
pub fn push_joined(s: &mut String, ss: &Vec<String>)
    ensures
        final(s)@ == old(s)@ + join_strs(strs_v(ss@)),
{
    let ghost start = s@;
    let ghost e = strs_v(ss@);
    assert(e.subrange(0, 0) =~= Seq::<Seq<char>>::empty());
    let mut i: usize = 0;
    while i < ss.len()
        invariant
            i <= ss.len(),
            e == strs_v(ss@),
            e.len() == ss@.len(),
            s@ == start + join_strs(e.subrange(0, i as int)),
        decreases ss.len() - i,
    {
        if i > 0 {
            push_str(s, ", ");
        }
        push_str(s, ss[i].as_str());
        proof {
            let sub = e.subrange(0, i + 1);
            assert(sub.drop_last() =~= e.subrange(0, i as int));
            if i == 0 {
                assert(sub.len() == 1);
            }
            assert(s@ =~= start + join_strs(sub));
        }
        i = i + 1;
    }
    assert(e.subrange(0, e.len() as int) =~= e);
}

impl BasicType {
    /// The name of this basic type.
    pub fn to_string(&self) -> (r: String)
        ensures
            r@ == basic_str(*self),
    {
        let mut s = String::new();
        push_basic(&mut s, *self);
        assert(s@ =~= basic_str(*self));
        s
    }
}

impl AtomType {
    /// How this type is written.
    pub fn to_string(&self) -> (r: String)
        ensures
            r@ == ty_str(self@),
    {
        let mut s = String::new();
        push_ty(&mut s, self);
        assert(s@ =~= ty_str(self@));
        s
    }
}

impl AtomKind {
    /// How this kind is written.
    pub fn to_string(&self) -> (r: String)
        ensures
            r@ == kind_str(self@),
    {
        let mut s = String::new();
        push_kind(&mut s, self);
        assert(s@ =~= kind_str(self@));
        s
    }
}

impl Atom {
    /// How this compound type is written.
    pub fn to_string(&self) -> (r: String)
        ensures
            r@ == atom_str(self@),
    {
        let mut s = String::new();
        push_atom(&mut s, self);
        assert(s@ =~= atom_str(self@));
        s
    }
}

} // verus!
