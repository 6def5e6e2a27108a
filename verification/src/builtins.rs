//! The built-in compound types, and operations on types.
use vstd::prelude::*;
use crate::text::{from_str, str_eq};
use crate::typeeq::{atom_eq, entry_lookup, kind_eq, lookup, atoms_equal, kinds_equal};
use crate::types::{
    basic_ty, entries_v, generics_of, key_index, kind_v, lemma_entries_v, plain_ty, ty_v, tys_v, Atom,
    AtomDetails, AtomKind, AtomType, AtomV, BasicType, DetailsV, Generics, KindV, TyV,
};

verus! {

/// A generic parameter that is not yet known.
pub open spec fn unknown_param(name: Seq<char>) -> (Seq<char>, TyV) {
    (name, plain_ty(KindV::Unknown))
}

/// The built-in `List` type: a `size` field and one generic parameter `T`.
pub open spec fn list_v() -> AtomV {
    AtomV {
        name: "List"@,
        fields: seq![("size"@, basic_ty(BasicType::Int))],
        generics: seq![unknown_param("T"@)],
    }
}

/// The built-in `str` type: a `size` field and no generic parameters.
pub open spec fn str_v() -> AtomV {
    AtomV { name: "str"@, fields: seq![("size"@, basic_ty(BasicType::Int))], generics: seq![] }
}

/// The built-in `Back` type: no fields and one generic parameter `T`.
pub open spec fn back_v() -> AtomV {
    AtomV { name: "Back"@, fields: seq![], generics: seq![unknown_param("T"@)] }
}

/// The built-in `Const` type: a field `T` of unknown type and one generic parameter `T`.
pub open spec fn const_v() -> AtomV {
    AtomV { name: "Const"@, fields: seq![unknown_param("T"@)], generics: seq![unknown_param("T"@)] }
}

/// A named type of unknown kind.
fn unknown_entry(name: &str) -> (r: (String, AtomType))
    ensures
        r.0@ == name@,
        ty_v(r.1) == plain_ty(KindV::Unknown),
{
    (from_str(name), AtomType::plain(AtomKind::Unknown))
}

/// A named type of basic kind.
fn basic_entry(name: &str, b: BasicType) -> (r: (String, AtomType))
    ensures
        r.0@ == name@,
        ty_v(r.1) == basic_ty(b),
{
    (from_str(name), AtomType::basic(b))
}

/// The models of a list of one named type.
proof fn lemma_entries_one(e: (String, AtomType))
    ensures
        entries_v(seq![e]) == seq![(e.0@, ty_v(e.1))],
{
    assert(seq![e].drop_last() =~= Seq::<(String, AtomType)>::empty());
    assert(entries_v(Seq::<(String, AtomType)>::empty()) =~= Seq::<(Seq<char>, TyV)>::empty());
    assert(entries_v(seq![e]) =~= seq![(e.0@, ty_v(e.1))]);
}

/// Generic parameters holding the one parameter `T`, not yet known.
fn unknown_t() -> (r: Generics)
    ensures
        generics_of(r) == seq![unknown_param("T"@)],
{
    let mut g = Generics::new();
    let (name, ty) = unknown_entry("T");
    g.insert(name, ty);
    assert(generics_of(g) =~= seq![unknown_param("T"@)]);
    g
}

/// The built-in `List` type.
pub fn list_atom() -> (r: Atom)
    ensures
        r@ == list_v(),
{
    let f = basic_entry("size", BasicType::Int);
    proof {
        lemma_entries_one(f);
    }
    Atom { name: from_str("List"), fields: vec![f], generics: unknown_t() }
}

/// The built-in `str` type.
pub fn str_atom() -> (r: Atom)
    ensures
        r@ == str_v(),
{
    let f = basic_entry("size", BasicType::Int);
    proof {
        lemma_entries_one(f);
    }
    Atom { name: from_str("str"), fields: vec![f], generics: Generics::new() }
}

/// The built-in `Back` type.
pub fn back_atom() -> (r: Atom)
    ensures
        r@ == back_v(),
{
    let r = Atom { name: from_str("Back"), fields: Vec::new(), generics: unknown_t() };
    assert(entries_v(r.fields@) =~= Seq::<(Seq<char>, TyV)>::empty());
    r
}

/// The built-in `Const` type.
pub fn const_atom() -> (r: Atom)
    ensures
        r@ == const_v(),
{
    let f = unknown_entry("T");
    proof {
        lemma_entries_one(f);
    }
    Atom { name: from_str("Const"), fields: vec![f], generics: unknown_t() }
}

/// A compound type with the generic parameters at the front replaced, in
/// order, by the types of `specs`.
pub open spec fn spec_atom(a: AtomV, specs: Seq<TyV>) -> AtomV {
    AtomV {
        generics: Seq::new(
            a.generics.len(),
            |i: int|
                if i < specs.len() {
                    (a.generics[i].0, specs[i])
                } else {
                    a.generics[i]
                },
        ),
        ..a
    }
}

impl Atom {
    /// A compound type with the given name, fields and generic parameters.
    pub fn new(name: String, fields: Vec<(String, AtomType)>, generics: Generics) -> (r: Atom)
        ensures
            r@ == (AtomV { name: name@, fields: entries_v(fields@), generics: generics_of(generics) }),
    {
        Atom { name, fields, generics }
    }

    /// This compound type with its first generic parameters given the types of
    /// `specs`, in order.
    pub fn spec(&self, specs: &[AtomType]) -> (r: Atom)
        requires
            specs@.len() <= self@.generics.len(),
        ensures
            r@ == spec_atom(self@, tys_v(specs@)),
    {
        let mut this = self.copy();
        proof {
            crate::types::lemma_tys_v(specs@);
        }
        let ghost g0 = generics_of(self.generics);
        let mut idx: usize = 0;
        while idx < specs.len()
            invariant
                idx <= specs@.len(),
                specs@.len() <= g0.len(),
                g0 == self@.generics,
                this.name@ == self.name@,
                entries_v(this.fields@) == entries_v(self.fields@),
                generics_of(this.generics).len() == g0.len(),
                tys_v(specs@).len() == specs@.len(),
                forall|j: int| 0 <= j < specs@.len() ==> #[trigger] tys_v(specs@)[j] == ty_v(specs@[j]),
                forall|j: int|
                    0 <= j < g0.len() ==> #[trigger] generics_of(this.generics)[j] == if j < idx {
                        (g0[j].0, ty_v(specs@[j]))
                    } else {
                        g0[j]
                    },
            decreases specs@.len() - idx,
        {
            let value = specs[idx].copy();
            this.generics.set_type(idx, value);
            idx = idx + 1;
        }
        assert(generics_of(this.generics) =~= spec_atom(self@, tys_v(specs@)).generics);
        this
    }
}

impl AtomType {
    /// Whether this type stands for a type (rather than a value).
    pub fn is_type(&self) -> (r: bool)
        ensures
            r == (self@.details matches Some(DetailsV::Type)),
    {
        match &self.details {
            Some(AtomDetails::Type) => true,
            _ => false,
        }
    }

    /// The type of the field `name` of a compound type.
    pub fn get(&self, name: &String) -> (r: Option<&AtomType>)
        ensures
            match self@.kind {
                KindV::Atom(a) => match lookup(a.fields, name@) {
                    None => r is None,
                    Some(v) => r is Some && r->0@ == v,
                },
                _ => r is None,
            },
    {
        assert(ty_v(*self).kind == kind_v(self.kind));
        match &self.kind {
            AtomKind::Atom(a) => {
                assert(kind_v(self.kind) == KindV::Atom(crate::types::atom_v(*a)));
                entry_lookup(&a.fields, name.as_str())
            },
            _ => None,
        }
    }

    /// The number of generic parameters of a compound type that stands for a type.
    pub fn generics(&self) -> (r: i32)
        ensures
            r == if (self@.details matches Some(DetailsV::Type)) {
                match self@.kind {
                    KindV::Atom(a) => a.generics.len() as i32,
                    _ => 0,
                }
            } else {
                0
            },
    {
        assert(ty_v(*self).kind == kind_v(self.kind));
        if self.is_type() {
            match &self.kind {
                AtomKind::Atom(a) => {
                    assert(ty_v(*self).kind == kind_v(self.kind));
                    assert(kind_v(self.kind) == KindV::Atom(crate::types::atom_v(*a)));
                    a.generics.len() as i32
                },
                _ => 0,
            }
        } else {
            0
        }
    }
}

} // verus!
