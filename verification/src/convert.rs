//! Which types convert implicitly into which, and which operators a type supports.
use vstd::prelude::*;
use crate::builtins::{const_atom, const_v, spec_atom, str_atom, str_v};
use crate::text::str_eq;
use crate::typeeq::{atom_eq, atoms_equal, kind_eq, kinds_equal};
use crate::types::{kind_v, plain_ty, ty_v, tys_v, Atom, AtomKind, AtomType, AtomV, BasicType, KindV, TyV};

verus! {

/// The kinds that a value of kind `from` converts into implicitly: `Dynamic`,
/// `str` and `Const(from)` always; the parameter of an unspecialised `Const`;
/// `float` from `int`; and anything from `Dynamic`.
pub open spec fn conversions(from: KindV) -> Seq<KindV> {
    seq![KindV::Dynamic, KindV::Atom(str_v()), KindV::Atom(spec_atom(const_v(), seq![plain_ty(from)]))]
        + match from {
        KindV::Atom(a) => if atom_eq(a, const_v()) {
            seq![a.generics[0].1.kind]
        } else {
            Seq::empty()
        },
        KindV::Basic(BasicType::Int) => seq![KindV::Basic(BasicType::Float)],
        KindV::Dynamic => seq![KindV::Any],
        _ => Seq::empty(),
    }
}

/// Whether a value of kind `from` converts implicitly into kind `to`: `to` is
/// among its conversions, or `Any` is.
pub open spec fn can_convert(from: KindV, to: KindV) -> bool {
    let cs = conversions(from);
    (exists|i: int| 0 <= i < cs.len() && kind_eq(cs[i], to)) || (exists|i: int|
        0 <= i < cs.len() && kind_eq(cs[i], KindV::Any))
}

/// The models of a sequence of kinds.
pub open spec fn kinds_v(s: Seq<AtomKind>) -> Seq<KindV> {
    s.map_values(|k: AtomKind| k@)
}

/// The kinds that a value of kind `from` converts into implicitly.
pub fn implicit_conversions(from: &AtomKind) -> (r: Vec<AtomKind>)
    ensures
        kinds_v(r@) == conversions(from@),
{
    let t = AtomType::plain(from.copy());
    let specs = [t];
    proof {
        assert(specs@.drop_last() =~= Seq::<AtomType>::empty());
        assert(tys_v(Seq::<AtomType>::empty()) =~= Seq::<TyV>::empty());
        assert(tys_v(specs@) =~= seq![plain_ty(from@)]);
    }
    let c = const_atom();
    let spec_const = c.spec(&specs);
    let mut results: Vec<AtomKind> = vec![AtomKind::Dynamic, AtomKind::Atom(str_atom()), AtomKind::Atom(spec_const)];
    proof {
        assert(kind_v(AtomKind::Dynamic) == KindV::Dynamic);
    }
    let ghost base = kinds_v(results@);
    assert(base =~= seq![KindV::Dynamic, KindV::Atom(str_v()), KindV::Atom(spec_atom(const_v(), seq![plain_ty(from@)]))]);
    match from {
        AtomKind::Atom(a) => {
            assert(from@ == KindV::Atom(a@));
            if atoms_equal(a, &const_atom()) {
                let (_, t) = a.generics.get_index(0);
                let k = t.kind.copy();
                assert(ty_v(*t).kind == kind_v(t.kind));
                results.push(k);
            }
        },
        AtomKind::Basic(BasicType::Int) => {
            let k = AtomKind::Basic(BasicType::Float);
            assert(k@ == KindV::Basic(BasicType::Float));
            results.push(k);
        },
        AtomKind::Dynamic => {
            assert(from@ == KindV::Dynamic);
            assert(AtomKind::Any@ == KindV::Any);
            results.push(AtomKind::Any);
        },
        _ => {
            assert(from@ matches KindV::Basic(b) ==> b != BasicType::Int);
        },
    }
    assert(kinds_v(results@) =~= conversions(from@));
    results
}

/// Whether a value of kind `from` converts implicitly into kind `to`.
pub fn can_implicitly_convert(from: &AtomKind, to: &AtomKind) -> (r: bool)
    ensures
        r == can_convert(from@, to@),
{
    let conversions = implicit_conversions(from);
    let ghost cs = kinds_v(conversions@);
    let mut found_to = false;
    let mut found_any = false;
    let mut i: usize = 0;
    let any = AtomKind::Any;
    assert(any@ == KindV::Any);
    while i < conversions.len()
        invariant
            i <= conversions.len(),
            cs == kinds_v(conversions@),
            any@ == KindV::Any,
            found_to == exists|j: int| 0 <= j < i && kind_eq(cs[j], to@),
            found_any == exists|j: int| 0 <= j < i && kind_eq(cs[j], KindV::Any),
        decreases conversions.len() - i,
    {
        assert(cs[i as int] == conversions@[i as int]@);
        let hit_to = kinds_equal(&conversions[i], to);
        let hit_any = kinds_equal(&conversions[i], &any);
        proof {
            if hit_to {
                assert(0 <= i < i + 1 && kind_eq(cs[i as int], to@));
            }
            if hit_any {
                assert(0 <= i < i + 1 && kind_eq(cs[i as int], KindV::Any));
            }
            assert((exists|j: int| 0 <= j < i + 1 && kind_eq(cs[j], to@)) == (found_to || hit_to));
            assert((exists|j: int| 0 <= j < i + 1 && kind_eq(cs[j], KindV::Any)) == (found_any || hit_any));
        }
        found_to = found_to || hit_to;
        found_any = found_any || hit_any;
        i = i + 1;
    }
    found_to || found_any
}

/// The operators that values of a type support.
pub open spec fn ops_of(t: TyV) -> Seq<Seq<char>> {
    match t.kind {
        KindV::Basic(BasicType::Bool) => seq!["=="@, "||"@, "&&"@],
        KindV::Basic(BasicType::Float) | KindV::Basic(BasicType::Int) => seq![
            "+"@,
            "-"@,
            "*"@,
            "/"@,
            "%"@,
            "<"@,
            ">"@,
            "<="@,
            ">="@,
            "=="@,
        ],
        KindV::Atom(a) => if atom_eq(a, str_v()) || a.name == "List"@ {
            seq!["<"@, ">"@, "=="@, "<="@, ">="@, "+"@, "-"@]
        } else {
            Seq::empty()
        },
        KindV::Dynamic | KindV::Unknown => seq![
            "&&"@,
            "||"@,
            "=="@,
            "<"@,
            ">"@,
            "<="@,
            ">="@,
            "+"@,
            "-"@,
            "*"@,
            "/"@,
            "%"@,
        ],
        _ => Seq::empty(),
    }
}

/// The views of a sequence of string slices.
pub open spec fn str_views(s: Seq<&'static str>) -> Seq<Seq<char>> {
    s.map_values(|x: &'static str| x@)
}

impl AtomType {
    /// The operators that values of this type support.
    pub fn get_op(&self) -> (r: Vec<&'static str>)
        ensures
            str_views(r@) == ops_of(self@),
    {
        assert(ty_v(*self).kind == kind_v(self.kind));
        let r: Vec<&'static str> = match &self.kind {
            AtomKind::Basic(BasicType::Bool) => vec!["==", "||", "&&"],
            AtomKind::Basic(BasicType::Float) | AtomKind::Basic(BasicType::Int) => vec![
                "+",
                "-",
                "*",
                "/",
                "%",
                "<",
                ">",
                "<=",
                ">=",
                "==",
            ],
            AtomKind::Atom(atom) => {
                assert(kind_v(self.kind) == KindV::Atom(atom@));
                if atoms_equal(atom, &str_atom()) || str_eq(atom.name.as_str(), "List") {
                    vec!["<", ">", "==", "<=", ">=", "+", "-"]
                } else {
                    Vec::new()
                }
            },
            AtomKind::Dynamic | AtomKind::Unknown => vec![
                "&&",
                "||",
                "==",
                "<",
                ">",
                "<=",
                ">=",
                "+",
                "-",
                "*",
                "/",
                "%",
            ],
            _ => Vec::new(),
        };
        assert(str_views(r@) =~= ops_of(self@));
        r
    }
}

/// Whether values of type `ty` support the operator `op`.
pub fn supports_op(ty: &AtomType, op: &String) -> (r: bool)
    ensures
        r == exists|i: int| 0 <= i < ops_of(ty@).len() && ops_of(ty@)[i] == op@,
{
    let ops = ty.get_op();
    let ghost os = str_views(ops@);
    let mut i: usize = 0;
    while i < ops.len()
        invariant
            i <= ops.len(),
            os == str_views(ops@),
            os == ops_of(ty@),
            forall|j: int| 0 <= j < i ==> os[j] != op@,
        decreases ops.len() - i,
    {
        assert(os[i as int] == ops@[i as int]@);
        if str_eq(ops[i], op.as_str()) {
            assert(os[i as int] == op@);
            assert(os == ops_of(ty@));
            return true;
        }
        i = i + 1;
    }
    false
}

} // verus!
