//! The types of the language and their plain-value models.
use vstd::prelude::*;
use crate::text::{copy_string, str_eq};

verus! {

/// The basic types.
#[derive(Debug, Clone, Copy, PartialEq, Eq, Structural)]
pub enum BasicType {
    Int,
    Float,
    Bool,
    Void,
}

/// The type of a function: its parameters and its return type.
#[derive(Debug)]
pub struct FunctionType {
    pub params: Vec<AtomType>,
    pub return_type: Box<AtomType>,
}

/// A function whose overloads are generated per argument types.
#[derive(Debug)]
pub struct BlueprintType {
    pub name: String,
    pub overloads: Vec<String>,
}

/// A compound type: a name, named fields, and named generic parameters in
/// declaration order. The fields hold no name twice when built by this crate;
/// a lookup finds the first entry with the name.
#[derive(Debug)]
pub struct Atom {
    pub name: String,
    pub fields: Vec<(String, AtomType)>,
    pub generics: Generics,
}

/// Generic parameters: an `indexmap::IndexMap` from names to types, which
/// keeps its entries in the order they were first inserted, each name once.
#[verifier::external_body]
#[derive(Debug)]
pub struct Generics {
    map: indexmap::IndexMap<String, AtomType>,
}

/// The entries of generic parameters, in the map's order, as names and type
/// models.
pub uninterp spec fn generics_of(g: Generics) -> Seq<(Seq<char>, TyV)>;

/// The index of the first entry named `k`.
pub open spec fn key_index(s: Seq<(Seq<char>, TyV)>, k: Seq<char>) -> Option<int>
    decreases s.len(),
{
    if s.len() == 0 {
        None
    } else if s[0].0 == k {
        Some(0)
    } else {
        match key_index(s.drop_first(), k) {
            Some(i) => Some(i + 1),
            None => None,
        }
    }
}

/// The entries after inserting `k` with type `t`: where an entry has the
/// name, its type is replaced in place; otherwise the entry is appended.
pub open spec fn insert_entry(s: Seq<(Seq<char>, TyV)>, k: Seq<char>, t: TyV) -> Seq<(Seq<char>, TyV)> {
    match key_index(s, k) {
        Some(i) => s.update(i, (k, t)),
        None => s.push((k, t)),
    }
}

/// The entries after inserting each of `es` in order.
pub open spec fn insert_all(s: Seq<(Seq<char>, TyV)>, es: Seq<(Seq<char>, TyV)>) -> Seq<(Seq<char>, TyV)>
    decreases es.len(),
{
    if es.len() == 0 {
        s
    } else {
        insert_entry(insert_all(s, es.drop_last()), es.last().0, es.last().1)
    }
}

impl Generics {
    /// Generic parameters made by inserting each of `entries` in order into
    /// an empty map: a name given twice keeps its first place and takes its
    /// last type.
    pub fn from_entries(entries: Vec<(String, AtomType)>) -> (r: Generics)
        ensures
            generics_of(r) == insert_all(Seq::empty(), entries_v(entries@)),
    {
        let ghost e = entries_v(entries@);
        proof {
            lemma_entries_v(entries@);
        }
        let mut g = Generics::new();
        let mut i: usize = 0;
        assert(e.subrange(0, 0).len() == 0);
        while i < entries.len()
            invariant
                i <= entries@.len(),
                e == entries_v(entries@),
                e.len() == entries@.len(),
                forall|j: int| 0 <= j < entries@.len() ==> #[trigger] e[j] == (entries@[j].0@, ty_v(entries@[j].1)),
                generics_of(g) == insert_all(Seq::empty(), e.subrange(0, i as int)),
            decreases entries@.len() - i,
        {
            let name = copy_string(&entries[i].0);
            let ty = entries[i].1.copy();
            g.insert(name, ty);
            proof {
                let sub = e.subrange(0, i + 1);
                assert(sub.drop_last() =~= e.subrange(0, i as int));
                assert(sub.last() == e[i as int]);
            }
            i = i + 1;
        }
        assert(e.subrange(0, e.len() as int) =~= e);
        g
    }

    /// No generic parameters (`IndexMap::new`). Claimed: the map has no entries.
    #[verifier::external_body]
    pub(crate) fn new() -> (r: Generics)
        ensures
            generics_of(r) == Seq::<(Seq<char>, TyV)>::empty(),
    {
        Generics { map: indexmap::IndexMap::new() }
    }

    /// Adds or replaces a parameter (`IndexMap::insert`). Claimed, as the
    /// crate documents: where an entry has the name, its type is replaced in
    /// place and its key kept; otherwise the entry is appended last.
    #[verifier::external_body]
    pub(crate) fn insert(&mut self, name: String, ty: AtomType)
        ensures
            generics_of(*final(self)) == insert_entry(generics_of(*old(self)), name@, ty@),
    {
        self.map.insert(name, ty);
    }

    /// The number of parameters (`IndexMap::len`). Claimed: the number of entries.
    #[verifier::external_body]
    pub(crate) fn len(&self) -> (r: usize)
        ensures
            r == generics_of(*self).len(),
    {
        self.map.len()
    }

    /// The parameter at index `i` (`IndexMap::get_index`). Claimed: the name
    /// and type of the entry at `i`, and that no other entry has that name.
    #[verifier::external_body]
    pub(crate) fn get_index(&self, i: usize) -> (r: (&String, &AtomType))
        requires
            i < generics_of(*self).len(),
        ensures
            r.0@ == generics_of(*self)[i as int].0,
            r.1@ == generics_of(*self)[i as int].1,
            forall|j: int| 0 <= j < generics_of(*self).len() && j != i ==> generics_of(*self)[j].0 != r.0@,
    {
        self.map.get_index(i).unwrap()
    }

    /// Replaces the type of the parameter at index `i` through
    /// `IndexMap::get_index_mut`. Claimed: only that entry's type changes.
    #[verifier::external_body]
    pub(crate) fn set_type(&mut self, i: usize, ty: AtomType)
        requires
            i < generics_of(*old(self)).len(),
        ensures
            generics_of(*final(self)) == generics_of(*old(self)).update(
                i as int,
                (generics_of(*old(self))[i as int].0, ty@),
            ),
    {
        *self.map.get_index_mut(i).unwrap().1 = ty;
    }
}

/// The kind of a type.
#[derive(Debug)]
pub enum AtomKind {
    Basic(BasicType),
    Atom(Atom),
    Function(FunctionType),
    Blueprint(BlueprintType),
    Dynamic,
    Unknown,
    Any,
}

/// Extra facts about a type: that it names a type, or an assumed type.
#[derive(Debug)]
pub enum AtomDetails {
    Type,
    Unknown(Box<AtomType>),
}

/// A type: its kind and optional details.
#[derive(Debug)]
pub struct AtomType {
    pub kind: AtomKind,
    pub details: Option<AtomDetails>,
}

/// A function type as plain values.
pub struct FunV {
    pub params: Seq<TyV>,
    pub ret: Box<TyV>,
}

/// A blueprint type as plain values.
pub struct BlueprintV {
    pub name: Seq<char>,
    pub overloads: Seq<Seq<char>>,
}

/// A compound type as plain values.
pub struct AtomV {
    pub name: Seq<char>,
    pub fields: Seq<(Seq<char>, TyV)>,
    pub generics: Seq<(Seq<char>, TyV)>,
}

/// A kind as plain values.
pub enum KindV {
    Basic(BasicType),
    Atom(AtomV),
    Function(FunV),
    Blueprint(BlueprintV),
    Dynamic,
    Unknown,
    Any,
}

/// Details as plain values.
pub enum DetailsV {
    Type,
    Unknown(Box<TyV>),
}

/// A type as plain values.
pub struct TyV {
    pub kind: KindV,
    pub details: Option<DetailsV>,
}

/// The model of a type.
pub open spec fn ty_v(t: AtomType) -> TyV
    decreases t,
{
    TyV {
        kind: kind_v(t.kind),
        details: match t.details {
            None => None,
            Some(AtomDetails::Type) => Some(DetailsV::Type),
            Some(AtomDetails::Unknown(b)) => Some(DetailsV::Unknown(Box::new(ty_v(*b)))),
        },
    }
}

/// The model of a kind.
pub open spec fn kind_v(k: AtomKind) -> KindV
    decreases k,
{
    match k {
        AtomKind::Basic(b) => KindV::Basic(b),
        AtomKind::Atom(a) => KindV::Atom(atom_v(a)),
        AtomKind::Function(f) => KindV::Function(fun_v(f)),
        AtomKind::Blueprint(b) => KindV::Blueprint(blueprint_v(b)),
        AtomKind::Dynamic => KindV::Dynamic,
        AtomKind::Unknown => KindV::Unknown,
        AtomKind::Any => KindV::Any,
    }
}

/// The model of a compound type.
pub open spec fn atom_v(a: Atom) -> AtomV
    decreases a,
{
    AtomV { name: a.name@, fields: entries_v(a.fields@), generics: generics_of(a.generics) }
}

/// The model of a function type.
pub open spec fn fun_v(f: FunctionType) -> FunV
    decreases f,
{
    FunV { params: tys_v(f.params@), ret: Box::new(ty_v(*f.return_type)) }
}

/// The model of a blueprint type.
pub open spec fn blueprint_v(b: BlueprintType) -> BlueprintV {
    BlueprintV { name: b.name@, overloads: strs_v(b.overloads@) }
}

/// The models of a sequence of strings.
pub open spec fn strs_v(s: Seq<String>) -> Seq<Seq<char>> {
    s.map_values(|x: String| x@)
}

/// The models of a sequence of types.
pub open spec fn tys_v(s: Seq<AtomType>) -> Seq<TyV>
    decreases s,
{
    if s.len() == 0 {
        Seq::empty()
    } else {
        tys_v(s.drop_last()).push(ty_v(s.last()))
    }
}

/// The models of a sequence of named types.
pub open spec fn entries_v(s: Seq<(String, AtomType)>) -> Seq<(Seq<char>, TyV)>
    decreases s,
{
    if s.len() == 0 {
        Seq::empty()
    } else {
        entries_v(s.drop_last()).push((s.last().0@, ty_v(s.last().1)))
    }
}

impl View for AtomType {
    type V = TyV;

    open spec fn view(&self) -> TyV {
        ty_v(*self)
    }
}

impl View for AtomKind {
    type V = KindV;

    open spec fn view(&self) -> KindV {
        kind_v(*self)
    }
}

impl View for Atom {
    type V = AtomV;

    open spec fn view(&self) -> AtomV {
        atom_v(*self)
    }
}

impl View for FunctionType {
    type V = FunV;

    open spec fn view(&self) -> FunV {
        fun_v(*self)
    }
}

/// The models of a sequence of types have its length and its elements' models.
pub proof fn lemma_tys_v(s: Seq<AtomType>)
    ensures
        tys_v(s).len() == s.len(),
        forall|i: int| 0 <= i < s.len() ==> #[trigger] tys_v(s)[i] == ty_v(s[i]),
    decreases s.len(),
{
    if s.len() > 0 {
        lemma_tys_v(s.drop_last());
    }
}

/// The models of a sequence of named types have its length and its elements' models.
pub proof fn lemma_entries_v(s: Seq<(String, AtomType)>)
    ensures
        entries_v(s).len() == s.len(),
        forall|i: int|
            0 <= i < s.len() ==> #[trigger] entries_v(s)[i] == (s[i].0@, ty_v(s[i].1)),
    decreases s.len(),
{
    if s.len() > 0 {
        lemma_entries_v(s.drop_last());
    }
}

/// A prefix of a sequence of types has the prefix of the models.
pub proof fn lemma_tys_v_prefix(s: Seq<AtomType>, i: int)
    requires
        0 <= i < s.len(),
    ensures
        tys_v(s.subrange(0, i + 1)) == tys_v(s.subrange(0, i)).push(ty_v(s[i])),
{
    assert(s.subrange(0, i + 1).drop_last() =~= s.subrange(0, i));
}

/// A prefix of a sequence of named types has the prefix of the models.
pub proof fn lemma_entries_v_prefix(s: Seq<(String, AtomType)>, i: int)
    requires
        0 <= i < s.len(),
    ensures
        entries_v(s.subrange(0, i + 1)) == entries_v(s.subrange(0, i)).push((s[i].0@, ty_v(s[i].1))),
{
    assert(s.subrange(0, i + 1).drop_last() =~= s.subrange(0, i));
}

/// The size of a type: one for each type, kind, compound type, function
/// type and list of parts in it.
pub open spec fn ty_size(t: TyV) -> nat
    decreases t,
{
    1 + kind_size(t.kind) + match t.details {
        Some(DetailsV::Unknown(b)) => ty_size(*b),
        _ => 0,
    }
}

/// The size of a kind.
pub open spec fn kind_size(k: KindV) -> nat
    decreases k,
{
    1 + match k {
        KindV::Atom(a) => atom_size(a),
        KindV::Function(f) => fun_size(f),
        _ => 0,
    }
}

/// The size of a compound type.
pub open spec fn atom_size(a: AtomV) -> nat
    decreases a,
{
    1 + entries_size(a.fields) + entries_size(a.generics)
}

/// The size of a function type.
pub open spec fn fun_size(f: FunV) -> nat
    decreases f,
{
    1 + tys_size(f.params) + ty_size(*f.ret)
}

/// The size of a list of named types.
pub open spec fn entries_size(s: Seq<(Seq<char>, TyV)>) -> nat
    decreases s,
{
    if s.len() == 0 {
        1
    } else {
        entries_size(s.drop_last()) + ty_size(s.last().1) + 1
    }
}

/// The size of a list of types.
pub open spec fn tys_size(s: Seq<TyV>) -> nat
    decreases s,
{
    if s.len() == 0 {
        1
    } else {
        tys_size(s.drop_last()) + ty_size(s.last()) + 1
    }
}

/// Each type of a list of named types is smaller than the list.
pub proof fn lemma_entries_size(s: Seq<(Seq<char>, TyV)>, i: int)
    requires
        0 <= i < s.len(),
    ensures
        ty_size(s[i].1) < entries_size(s),
    decreases s.len(),
{
    if i < s.len() - 1 {
        assert(s.drop_last()[i] == s[i]);
        lemma_entries_size(s.drop_last(), i);
    }
}

/// Each type of a list is smaller than the list.
pub proof fn lemma_tys_size(s: Seq<TyV>, i: int)
    requires
        0 <= i < s.len(),
    ensures
        ty_size(s[i]) < tys_size(s),
    decreases s.len(),
{
    if i < s.len() - 1 {
        assert(s.drop_last()[i] == s[i]);
        lemma_tys_size(s.drop_last(), i);
    }
}

/// The type of a basic kind, with no details.
pub open spec fn basic_ty(b: BasicType) -> TyV {
    TyV { kind: KindV::Basic(b), details: None }
}

/// A type of the given kind with no details.
pub open spec fn plain_ty(k: KindV) -> TyV {
    TyV { kind: k, details: None }
}

impl AtomType {
    /// A copy of this type.
    pub fn copy(&self) -> (r: AtomType)
        ensures
            r@ == self@,
        decreases ty_size(self@),
    {
        let details = match &self.details {
            None => None,
            Some(AtomDetails::Type) => Some(AtomDetails::Type),
            Some(AtomDetails::Unknown(b)) => Some(AtomDetails::Unknown(Box::new((**b).copy()))),
        };
        AtomType { kind: self.kind.copy(), details }
    }

    /// A type of the basic kind `b`, with no details.
    pub fn basic(b: BasicType) -> (r: AtomType)
        ensures
            r@ == basic_ty(b),
    {
        let k = AtomKind::Basic(b);
        assert(kind_v(k) == KindV::Basic(b));
        AtomType { kind: k, details: None }
    }

    /// A type of kind `kind`, with no details.
    pub fn plain(kind: AtomKind) -> (r: AtomType)
        ensures
            r@ == plain_ty(kind@),
    {
        AtomType { kind, details: None }
    }
}

impl AtomKind {
    /// A copy of this kind.
    pub fn copy(&self) -> (r: AtomKind)
        ensures
            r@ == self@,
        decreases kind_size(self@),
    {
        match self {
            AtomKind::Basic(b) => AtomKind::Basic(*b),
            AtomKind::Atom(a) => AtomKind::Atom(a.copy()),
            AtomKind::Function(f) => AtomKind::Function(f.copy()),
            AtomKind::Blueprint(b) => AtomKind::Blueprint(b.copy()),
            AtomKind::Dynamic => AtomKind::Dynamic,
            AtomKind::Unknown => AtomKind::Unknown,
            AtomKind::Any => AtomKind::Any,
        }
    }
}

/// A copy of a list of named types.
pub fn copy_entries(s: &Vec<(String, AtomType)>) -> (r: Vec<(String, AtomType)>)
    ensures
        entries_v(r@) == entries_v(s@),
    decreases entries_size(entries_v(s@)),
{
    let mut r: Vec<(String, AtomType)> = Vec::new();
    let mut i: usize = 0;
    proof {
        lemma_entries_v(s@);
    }
    while i < s.len()
        invariant
            i <= s.len(),
            entries_v(s@).len() == s@.len(),
            forall|j: int| 0 <= j < s@.len() ==> #[trigger] entries_v(s@)[j] == (s@[j].0@, ty_v(s@[j].1)),
            entries_v(r@) == entries_v(s@.subrange(0, i as int)),
        decreases s.len() - i,
    {
        proof {
            lemma_entries_size(entries_v(s@), i as int);
        }
        let t = s[i].1.copy();
        let n = copy_string(&s[i].0);
        let ghost before = r@;
        r.push((n, t));
        proof {
            assert(r@.drop_last() =~= before);
            lemma_entries_v_prefix(s@, i as int);
        }
        i = i + 1;
    }
    assert(s@.subrange(0, s@.len() as int) =~= s@);
    r
}

/// A copy of a list of types.
pub fn copy_types(s: &Vec<AtomType>) -> (r: Vec<AtomType>)
    ensures
        tys_v(r@) == tys_v(s@),
    decreases tys_size(tys_v(s@)),
{
    let mut r: Vec<AtomType> = Vec::new();
    let mut i: usize = 0;
    proof {
        lemma_tys_v(s@);
    }
    while i < s.len()
        invariant
            i <= s.len(),
            tys_v(s@).len() == s@.len(),
            forall|j: int| 0 <= j < s@.len() ==> #[trigger] tys_v(s@)[j] == ty_v(s@[j]),
            tys_v(r@) == tys_v(s@.subrange(0, i as int)),
        decreases s.len() - i,
    {
        proof {
            lemma_tys_size(tys_v(s@), i as int);
        }
        let t = s[i].copy();
        let ghost before = r@;
        r.push(t);
        proof {
            assert(r@.drop_last() =~= before);
            lemma_tys_v_prefix(s@, i as int);
        }
        i = i + 1;
    }
    assert(s@.subrange(0, s@.len() as int) =~= s@);
    r
}

/// A copy of generic parameters, built by inserting each entry in order.
pub fn copy_generics(g: &Generics) -> (r: Generics)
    ensures
        generics_of(r) == generics_of(*g),
    decreases entries_size(generics_of(*g)),
{
    let ghost e = generics_of(*g);
    let mut r = Generics::new();
    let n = g.len();
    let mut i: usize = 0;
    assert(e.subrange(0, 0) =~= generics_of(r));
    while i < n
        invariant
            n == e.len(),
            e == generics_of(*g),
            i <= n,
            generics_of(r) == e.subrange(0, i as int),
        decreases n - i,
    {
        let (k, t) = g.get_index(i);
        proof {
            lemma_entries_size(e, i as int);
            lemma_key_absent(e.subrange(0, i as int), k@);
        }
        let name = copy_string(k);
        let ty = t.copy();
        r.insert(name, ty);
        assert(generics_of(r) =~= e.subrange(0, i + 1));
        i = i + 1;
    }
    assert(e.subrange(0, n as int) =~= e);
    r
}

/// A name that no entry has has no index.
pub proof fn lemma_key_absent(s: Seq<(Seq<char>, TyV)>, k: Seq<char>)
    requires
        forall|j: int| 0 <= j < s.len() ==> s[j].0 != k,
    ensures
        key_index(s, k) is None,
    decreases s.len(),
{
    if s.len() > 0 {
        assert forall|j: int| 0 <= j < s.drop_first().len() implies s.drop_first()[j].0 != k by {
            assert(s.drop_first()[j] == s[j + 1]);
        }
        lemma_key_absent(s.drop_first(), k);
    }
}

/// A copy of a list of strings.
pub fn copy_strings(s: &Vec<String>) -> (r: Vec<String>)
    ensures
        strs_v(r@) == strs_v(s@),
{
    let mut r: Vec<String> = Vec::new();
    let mut i: usize = 0;
    while i < s.len()
        invariant
            i <= s.len(),
            r@.len() == i,
            forall|j: int| 0 <= j < i ==> #[trigger] r@[j]@ == s@[j]@,
        decreases s.len() - i,
    {
        r.push(copy_string(&s[i]));
        i = i + 1;
    }
    assert(strs_v(r@) =~= strs_v(s@));
    r
}

impl Atom {
    /// A copy of this compound type.
    pub fn copy(&self) -> (r: Atom)
        ensures
            r@ == self@,
        decreases atom_size(self@),
    {
        Atom {
            name: copy_string(&self.name),
            fields: copy_entries(&self.fields),
            generics: copy_generics(&self.generics),
        }
    }
}

impl FunctionType {
    /// A copy of this function type.
    pub fn copy(&self) -> (r: FunctionType)
        ensures
            r@ == self@,
        decreases fun_size(self@),
    {
        FunctionType { params: copy_types(&self.params), return_type: Box::new((*self.return_type).copy()) }
    }
}

impl BlueprintType {
    /// A copy of this blueprint type.
    pub fn copy(&self) -> (r: BlueprintType)
        ensures
            blueprint_v(r) == blueprint_v(*self),
    {
        BlueprintType { name: copy_string(&self.name), overloads: copy_strings(&self.overloads) }
    }
}

} // verus!
