//! Equality of types, as the derived comparisons of the source language's
//! compiler define it: fields and generic parameters compare as maps.
use vstd::prelude::*;
use crate::text::{str_eq};
use crate::types::{atom_size, entries_size, entries_v, fun_size, generics_of, kind_size, lemma_entries_size, lemma_tys_size, strs_v, ty_size, ty_v, tys_size, tys_v, lemma_entries_v, lemma_tys_v, Atom, AtomV, AtomDetails, AtomKind, AtomType, DetailsV, Generics, KindV, TyV};

verus! {

/// The type stored under `key` in a list of named types: the first entry with
/// that name.
pub open spec fn lookup(ys: Seq<(Seq<char>, TyV)>, key: Seq<char>) -> Option<TyV>
    decreases ys.len(),
{
    if ys.len() == 0 {
        None
    } else if ys[0].0 == key {
        Some(ys[0].1)
    } else {
        lookup(ys.drop_first(), key)
    }
}

/// Whether two types are equal.
pub open spec fn ty_eq(a: TyV, b: TyV) -> bool
    decreases a,
{
    kind_eq(a.kind, b.kind) && match (a.details, b.details) {
        (None, None) => true,
        (Some(DetailsV::Type), Some(DetailsV::Type)) => true,
        (Some(DetailsV::Unknown(x)), Some(DetailsV::Unknown(y))) => ty_eq(*x, *y),
        _ => false,
    }
}

/// Whether two kinds are equal.
pub open spec fn kind_eq(a: KindV, b: KindV) -> bool
    decreases a,
{
    match (a, b) {
        (KindV::Basic(x), KindV::Basic(y)) => x == y,
        (KindV::Atom(x), KindV::Atom(y)) => atom_eq(x, y),
        (KindV::Function(f), KindV::Function(g)) => {
            &&& f.params.len() == g.params.len()
            &&& pairs_eq(f.params, g.params)
            &&& ty_eq(*f.ret, *g.ret)
        },
        (KindV::Blueprint(x), KindV::Blueprint(y)) => x == y,
        (KindV::Dynamic, KindV::Dynamic) => true,
        (KindV::Unknown, KindV::Unknown) => true,
        (KindV::Any, KindV::Any) => true,
        _ => false,
    }
}

/// Whether two compound types are equal: same name, and fields and generic
/// parameters equal as maps.
pub open spec fn atom_eq(a: AtomV, b: AtomV) -> bool
    decreases a,
{
    &&& a.name == b.name
    &&& a.fields.len() == b.fields.len()
    &&& all_found(a.fields, b.fields)
    &&& a.generics.len() == b.generics.len()
    &&& all_found(a.generics, b.generics)
}

/// Whether every entry of `xs` is found in `ys` with an equal type.
pub open spec fn all_found(xs: Seq<(Seq<char>, TyV)>, ys: Seq<(Seq<char>, TyV)>) -> bool
    decreases xs,
{
    if xs.len() == 0 {
        true
    } else {
        &&& all_found(xs.drop_last(), ys)
        &&& match lookup(ys, xs.last().0) {
            Some(v) => ty_eq(xs.last().1, v),
            None => false,
        }
    }
}

/// Whether the types of `xs` equal those of `ys` at the same positions.
pub open spec fn pairs_eq(xs: Seq<TyV>, ys: Seq<TyV>) -> bool
    decreases xs,
{
    if xs.len() == 0 {
        true
    } else {
        pairs_eq(xs.drop_last(), ys) && ty_eq(xs.last(), ys[xs.len() - 1])
    }
}

/// The type stored under `key` in a list of named types.
pub fn entry_lookup<'a>(ys: &'a Vec<(String, AtomType)>, key: &str) -> (r: Option<&'a AtomType>)
    ensures
        match lookup(entries_v(ys@), key@) {
            None => r is None,
            Some(v) => r is Some && r->0@ == v,
        },
{
    let ghost e = entries_v(ys@);
    proof {
        lemma_entries_v(ys@);
    }
    let mut i: usize = 0;
    assert(e.subrange(0, e.len() as int) =~= e);
    while i < ys.len()
        invariant
            i <= ys.len(),
            e == entries_v(ys@),
            e.len() == ys@.len(),
            forall|j: int| 0 <= j < ys@.len() ==> #[trigger] e[j] == (ys@[j].0@, ty_v(ys@[j].1)),
            lookup(e, key@) == lookup(e.subrange(i as int, e.len() as int), key@),
        decreases ys.len() - i,
    {
        let ghost rest = e.subrange(i as int, e.len() as int);
        if str_eq(ys[i].0.as_str(), key) {
            return Some(&ys[i].1);
        }
        assert(rest.drop_first() =~= e.subrange(i + 1, e.len() as int));
        i = i + 1;
    }
    None
}

/// Whether two types are equal.
pub fn types_equal(a: &AtomType, b: &AtomType) -> (r: bool)
    ensures
        r == ty_eq(a@, b@),
    decreases ty_size(a@),
{
    if !kinds_equal(&a.kind, &b.kind) {
        return false;
    }
    match (&a.details, &b.details) {
        (None, None) => true,
        (Some(AtomDetails::Type), Some(AtomDetails::Type)) => true,
        (Some(AtomDetails::Unknown(x)), Some(AtomDetails::Unknown(y))) => types_equal(&**x, &**y),
        _ => false,
    }
}

/// Whether two kinds are equal.
pub fn kinds_equal(a: &AtomKind, b: &AtomKind) -> (r: bool)
    ensures
        r == kind_eq(a@, b@),
    decreases kind_size(a@),
{
    match (a, b) {
        (AtomKind::Basic(x), AtomKind::Basic(y)) => *x == *y,
        (AtomKind::Atom(x), AtomKind::Atom(y)) => atoms_equal(x, y),
        (AtomKind::Function(f), AtomKind::Function(g)) => {
            proof {
                lemma_tys_v(f.params@);
                lemma_tys_v(g.params@);
            }
            if f.params.len() != g.params.len() {
                return false;
            }
            if !types_all_equal(&f.params, &g.params) {
                return false;
            }
            types_equal(&*f.return_type, &*g.return_type)
        },
        (AtomKind::Blueprint(x), AtomKind::Blueprint(y)) => {
            if !str_eq(x.name.as_str(), y.name.as_str()) {
                return false;
            }
            strings_equal(&x.overloads, &y.overloads)
        },
        (AtomKind::Dynamic, AtomKind::Dynamic) => true,
        (AtomKind::Unknown, AtomKind::Unknown) => true,
        (AtomKind::Any, AtomKind::Any) => true,
        _ => false,
    }
}

/// Whether two lists of strings are equal.
pub fn strings_equal(a: &Vec<String>, b: &Vec<String>) -> (r: bool)
    ensures
        r == (strs_v(a@) == strs_v(b@)),
{
    if a.len() != b.len() {
        assert(strs_v(a@).len() != strs_v(b@).len());
        return false;
    }
    let mut i: usize = 0;
    while i < a.len()
        invariant
            i <= a.len(),
            a.len() == b.len(),
            forall|j: int| 0 <= j < i ==> #[trigger] a@[j]@ == b@[j]@,
        decreases a.len() - i,
    {
        if !str_eq(a[i].as_str(), b[i].as_str()) {
            assert(strs_v(a@)[i as int] != strs_v(b@)[i as int]);
            return false;
        }
        i = i + 1;
    }
    assert(strs_v(a@) =~= strs_v(b@));
    true
}

/// Whether two lists of types of the same length are equal position by position.
pub fn types_all_equal(xs: &Vec<AtomType>, ys: &Vec<AtomType>) -> (r: bool)
    requires
        xs.len() == ys.len(),
    ensures
        r == pairs_eq(tys_v(xs@), tys_v(ys@)),
    decreases tys_size(tys_v(xs@)),
{
    let ghost ex = tys_v(xs@);
    let ghost ey = tys_v(ys@);
    proof {
        lemma_tys_v(xs@);
        lemma_tys_v(ys@);
        assert(ex.subrange(0, 0) =~= Seq::<TyV>::empty());
    }
    let mut i: usize = 0;
    while i < xs.len()
        invariant
            i <= xs.len(),
            xs.len() == ys.len(),
            ex == tys_v(xs@),
            ey == tys_v(ys@),
            ex.len() == xs@.len(),
            ey.len() == ys@.len(),
            forall|j: int| 0 <= j < xs@.len() ==> #[trigger] ex[j] == ty_v(xs@[j]),
            forall|j: int| 0 <= j < ys@.len() ==> #[trigger] ey[j] == ty_v(ys@[j]),
            pairs_eq(ex.subrange(0, i as int), ey),
        decreases xs.len() - i,
    {
        proof {
            lemma_tys_size(ex, i as int);
        }
        let same = types_equal(&xs[i], &ys[i]);
        assert(ex.subrange(0, i + 1).drop_last() =~= ex.subrange(0, i as int));
        if !same {
            proof {
                if pairs_eq(ex, ey) {
                    assert(ex.subrange(0, ex.len() as int) =~= ex);
                    lemma_pairs_eq_prefix(ex, ey, i + 1, ex.len() as int);
                }
            }
            return false;
        }
        i = i + 1;
    }
    assert(ex.subrange(0, ex.len() as int) =~= ex);
    true
}

/// Position-by-position equality of a sequence implies it of each prefix.
pub proof fn lemma_pairs_eq_prefix(xs: Seq<TyV>, ys: Seq<TyV>, i: int, n: int)
    requires
        0 <= i <= n <= xs.len(),
        pairs_eq(xs.subrange(0, n), ys),
    ensures
        pairs_eq(xs.subrange(0, i), ys),
    decreases n - i,
{
    if i < n {
        assert(xs.subrange(0, n).drop_last() =~= xs.subrange(0, n - 1));
        lemma_pairs_eq_prefix(xs, ys, i, n - 1);
    }
}

/// Whether `all_found` holds of a sequence implies it of each prefix.
pub proof fn lemma_all_found_prefix(xs: Seq<(Seq<char>, TyV)>, ys: Seq<(Seq<char>, TyV)>, i: int, n: int)
    requires
        0 <= i <= n <= xs.len(),
        all_found(xs.subrange(0, n), ys),
    ensures
        all_found(xs.subrange(0, i), ys),
    decreases n - i,
{
    if i < n {
        assert(xs.subrange(0, n).drop_last() =~= xs.subrange(0, n - 1));
        lemma_all_found_prefix(xs, ys, i, n - 1);
    }
}

/// Whether every entry of `xs` is found in `ys` with an equal type.
pub fn entries_all_found(xs: &Vec<(String, AtomType)>, ys: &Vec<(String, AtomType)>) -> (r: bool)
    ensures
        r == all_found(entries_v(xs@), entries_v(ys@)),
    decreases entries_size(entries_v(xs@)),
{
    let ghost ex = entries_v(xs@);
    let ghost ey = entries_v(ys@);
    proof {
        lemma_entries_v(xs@);
        assert(ex.subrange(0, 0) =~= Seq::<(Seq<char>, TyV)>::empty());
    }
    let mut i: usize = 0;
    while i < xs.len()
        invariant
            i <= xs.len(),
            ex == entries_v(xs@),
            ey == entries_v(ys@),
            ex.len() == xs@.len(),
            forall|j: int| 0 <= j < xs@.len() ==> #[trigger] ex[j] == (xs@[j].0@, ty_v(xs@[j].1)),
            all_found(ex.subrange(0, i as int), ey),
        decreases xs.len() - i,
    {
        assert(ex.subrange(0, i + 1).drop_last() =~= ex.subrange(0, i as int));
        let found = entry_lookup(ys, xs[i].0.as_str());
        let ok = match found {
            None => false,
            Some(v) => {
                proof {
                    lemma_entries_size(ex, i as int);
                }
                types_equal(&xs[i].1, v)
            },
        };
        if !ok {
            proof {
                if all_found(ex, ey) {
                    assert(ex.subrange(0, ex.len() as int) =~= ex);
                    lemma_all_found_prefix(ex, ey, i + 1, ex.len() as int);
                }
            }
            return false;
        }
        i = i + 1;
    }
    assert(ex.subrange(0, ex.len() as int) =~= ex);
    true
}

/// Whether two compound types are equal.
pub fn atoms_equal(a: &Atom, b: &Atom) -> (r: bool)
    ensures
        r == atom_eq(a@, b@),
    decreases atom_size(a@),
{
    proof {
        lemma_entries_v(a.fields@);
        lemma_entries_v(b.fields@);
    }
    str_eq(a.name.as_str(), b.name.as_str()) && a.fields.len() == b.fields.len()
        && entries_all_found(&a.fields, &b.fields) && a.generics.len() == b.generics.len()
        && generics_all_found(&a.generics, &b.generics)
}

/// The type of the first generic parameter named `key`.
pub fn generics_lookup<'a>(ys: &'a Generics, key: &str) -> (r: Option<&'a AtomType>)
    ensures
        match lookup(generics_of(*ys), key@) {
            None => r is None,
            Some(v) => r is Some && r->0@ == v,
        },
{
    let ghost e = generics_of(*ys);
    let n = ys.len();
    let mut i: usize = 0;
    assert(e.subrange(0, e.len() as int) =~= e);
    while i < n
        invariant
            n == e.len(),
            e == generics_of(*ys),
            i <= n,
            lookup(e, key@) == lookup(e.subrange(i as int, e.len() as int), key@),
        decreases n - i,
    {
        let ghost rest = e.subrange(i as int, e.len() as int);
        let (k, t) = ys.get_index(i);
        if str_eq(k.as_str(), key) {
            assert(rest[0] == e[i as int]);
            return Some(t);
        }
        assert(rest.drop_first() =~= e.subrange(i + 1, e.len() as int));
        i = i + 1;
    }
    None
}

/// Whether every generic parameter of `xs` is found in `ys` with an equal type.
pub fn generics_all_found(xs: &Generics, ys: &Generics) -> (r: bool)
    ensures
        r == all_found(generics_of(*xs), generics_of(*ys)),
    decreases entries_size(generics_of(*xs)),
{
    let ghost ex = generics_of(*xs);
    let ghost ey = generics_of(*ys);
    let n = xs.len();
    assert(ex.subrange(0, 0) =~= Seq::<(Seq<char>, TyV)>::empty());
    let mut i: usize = 0;
    while i < n
        invariant
            n == ex.len(),
            ex == generics_of(*xs),
            ey == generics_of(*ys),
            i <= n,
            all_found(ex.subrange(0, i as int), ey),
        decreases n - i,
    {
        assert(ex.subrange(0, i + 1).drop_last() =~= ex.subrange(0, i as int));
        let (k, t) = xs.get_index(i);
        let found = generics_lookup(ys, k.as_str());
        let ok = match found {
            None => false,
            Some(v) => {
                proof {
                    lemma_entries_size(ex, i as int);
                }
                types_equal(t, v)
            },
        };
        if !ok {
            proof {
                if all_found(ex, ey) {
                    assert(ex.subrange(0, ex.len() as int) =~= ex);
                    lemma_all_found_prefix(ex, ey, i + 1, ex.len() as int);
                }
            }
            return false;
        }
        i = i + 1;
    }
    assert(ex.subrange(0, ex.len() as int) =~= ex);
    true
}

} // verus!
