//! The constant types of the constant-type front end: their names, and the
//! overload names built from them.
use vstd::prelude::*;
use crate::parser::ast::Node;
use crate::text::{copy_string, push_str, str_eq};

pub use crate::err::{ATErr, ErrKind};

verus! {

/// A constant type: a basic type, a dynamic or unknown one, a list, a
/// function, a blueprint, or an object with named members.
#[derive(Debug)]
pub enum ConstType {
    Int,
    Float,
    Str,
    Bool,
    Dynamic,
    Void,
    Unknown(Option<Box<ConstType>>),
    List(Box<ConstType>),
    Func(Box<ConstType>, Vec<ConstType>, String),
    Blueprint { argc: u32, name: String },
    Obj(Vec<(String, ConstType)>),
}

/// A constant type as plain values.
pub enum ConstV {
    Int,
    Float,
    Str,
    Bool,
    Dynamic,
    Void,
    Unknown(Option<Box<ConstV>>),
    List(Box<ConstV>),
    Func(Box<ConstV>, Seq<ConstV>, Seq<char>),
    Blueprint { argc: u32, name: Seq<char> },
    Obj(Seq<(Seq<char>, ConstV)>),
}

/// The model of a constant type.
pub open spec fn const_v(t: ConstType) -> ConstV
    decreases t,
{
    match t {
        ConstType::Int => ConstV::Int,
        ConstType::Float => ConstV::Float,
        ConstType::Str => ConstV::Str,
        ConstType::Bool => ConstV::Bool,
        ConstType::Dynamic => ConstV::Dynamic,
        ConstType::Void => ConstV::Void,
        ConstType::Unknown(o) => ConstV::Unknown(match o {
            Some(b) => Some(Box::new(const_v(*b))),
            None => None,
        }),
        ConstType::List(b) => ConstV::List(Box::new(const_v(*b))),
        ConstType::Func(r, ps, n) => ConstV::Func(Box::new(const_v(*r)), consts_v(ps@), n@),
        ConstType::Blueprint { argc, name } => ConstV::Blueprint { argc: argc, name: name@ },
        ConstType::Obj(ms) => ConstV::Obj(members_v(ms@)),
    }
}

/// The models of a list of constant types.
pub open spec fn consts_v(s: Seq<ConstType>) -> Seq<ConstV>
    decreases s,
{
    if s.len() == 0 {
        Seq::empty()
    } else {
        consts_v(s.drop_last()).push(const_v(s.last()))
    }
}

/// The models of the named members of an object.
pub open spec fn members_v(s: Seq<(String, ConstType)>) -> Seq<(Seq<char>, ConstV)>
    decreases s,
{
    if s.len() == 0 {
        Seq::empty()
    } else {
        members_v(s.drop_last()).push((s.last().0@, const_v(s.last().1)))
    }
}

impl View for ConstType {
    type V = ConstV;

    open spec fn view(&self) -> ConstV {
        const_v(*self)
    }
}

/// The type of the first member named `name`.
pub open spec fn member(ms: Seq<(Seq<char>, ConstV)>, name: Seq<char>) -> Option<ConstV>
    decreases ms.len(),
{
    if ms.len() == 0 {
        None
    } else if ms[0].0 == name {
        Some(ms[0].1)
    } else {
        member(ms.drop_first(), name)
    }
}

/// The type of member `name` of a type: an object's member of that name;
/// `int` for a list's `size` and `elem_size`; none otherwise.
pub open spec fn const_member(t: ConstV, name: Seq<char>) -> Option<ConstV> {
    match t {
        ConstV::Obj(ms) => member(ms, name),
        ConstV::List(_) => if name == "size"@ || name == "elem_size"@ {
            Some(ConstV::Int)
        } else {
            None
        },
        _ => None,
    }
}

/// The name of a basic constant type, `none` for the others.
pub open spec fn const_name(t: ConstV) -> Seq<char> {
    match t {
        ConstV::Int => "int"@,
        ConstV::Float => "float"@,
        ConstV::Str => "str"@,
        ConstV::Bool => "bool"@,
        _ => "none"@,
    }
}

/// The models of a list of members have its length and its elements' models.
proof fn lemma_members_v(s: Seq<(String, ConstType)>)
    ensures
        members_v(s).len() == s.len(),
        forall|i: int| 0 <= i < s.len() ==> #[trigger] members_v(s)[i] == (s[i].0@, const_v(s[i].1)),
    decreases s.len(),
{
    if s.len() > 0 {
        lemma_members_v(s.drop_last());
    }
}

/// The models of a list of types have its length and its elements' models.
proof fn lemma_consts_v(s: Seq<ConstType>)
    ensures
        consts_v(s).len() == s.len(),
        forall|i: int| 0 <= i < s.len() ==> #[trigger] consts_v(s)[i] == const_v(s[i]),
    decreases s.len(),
{
    if s.len() > 0 {
        lemma_consts_v(s.drop_last());
    }
}

/// Looking a member up from index `i` on is looking it up in what is left.
proof fn lemma_member_from(ms: Seq<(Seq<char>, ConstV)>, name: Seq<char>, i: int)
    requires
        0 <= i < ms.len(),
        forall|j: int| 0 <= j < i ==> ms[j].0 != name,
    ensures
        member(ms, name) == member(ms.subrange(i, ms.len() as int), name),
    decreases i,
{
    if i > 0 {
        assert(ms.drop_first().subrange(i - 1, ms.drop_first().len() as int) =~= ms.subrange(i, ms.len() as int));
        lemma_member_from(ms.drop_first(), name, i - 1);
    } else {
        assert(ms.subrange(0, ms.len() as int) =~= ms);
    }
}

impl ConstType {
    /// A copy of this type.
    #[verifier::loop_isolation(false)]
    pub fn copy(&self) -> (r: ConstType)
        ensures
            r@ == self@,
        decreases self,
    {
        match self {
            ConstType::Int => ConstType::Int,
            ConstType::Float => ConstType::Float,
            ConstType::Str => ConstType::Str,
            ConstType::Bool => ConstType::Bool,
            ConstType::Dynamic => ConstType::Dynamic,
            ConstType::Void => ConstType::Void,
            ConstType::Unknown(o) => ConstType::Unknown(match o {
                Some(b) => Some(Box::new((**b).copy())),
                None => None,
            }),
            ConstType::List(b) => ConstType::List(Box::new((**b).copy())),
            ConstType::Func(r, ps, n) => {
                let mut out: Vec<ConstType> = Vec::new();
                let mut i: usize = 0;
                proof {
                    lemma_consts_v(ps@);
                }
                while i < ps.len()
                    invariant
                        i <= ps@.len(),
                        consts_v(ps@).len() == ps@.len(),
                        forall|j: int| 0 <= j < ps@.len() ==> #[trigger] consts_v(ps@)[j] == const_v(ps@[j]),
                        out@.len() == i,
                        forall|j: int| 0 <= j < i ==> const_v(#[trigger] out@[j]) == const_v(ps@[j]),
                    decreases ps@.len() - i,
                {
                    assert(*ps == self->Func_1);
                    assert(decreases_to!(*self => self->Func_1));
                    assert(decreases_to!(*ps => ps@));
                    assert(decreases_to!(ps@ => ps@[i as int]));
                    out.push(ps[i].copy());
                    i = i + 1;
                }
                proof {
                    lemma_consts_v(out@);
                    assert(consts_v(out@) =~= consts_v(ps@));
                }
                ConstType::Func(Box::new((**r).copy()), out, copy_string(n))
            },
            ConstType::Blueprint { argc, name } => ConstType::Blueprint { argc: *argc, name: copy_string(name) },
            ConstType::Obj(ms) => {
                let mut out: Vec<(String, ConstType)> = Vec::new();
                let mut i: usize = 0;
                proof {
                    lemma_members_v(ms@);
                }
                while i < ms.len()
                    invariant
                        i <= ms@.len(),
                        members_v(ms@).len() == ms@.len(),
                        forall|j: int| 0 <= j < ms@.len() ==> #[trigger] members_v(ms@)[j] == (ms@[j].0@, const_v(ms@[j].1)),
                        out@.len() == i,
                        forall|j: int| 0 <= j < i ==> (#[trigger] out@[j]).0@ == ms@[j].0@ && const_v(out@[j].1) == const_v(ms@[j].1),
                    decreases ms@.len() - i,
                {
                    assert(*ms == self->Obj_0);
                    assert(decreases_to!(*self => self->Obj_0));
                    assert(decreases_to!(*ms => ms@));
                    assert(decreases_to!(ms@ => ms@[i as int]));
                    assert(decreases_to!(ms@[i as int] => ms@[i as int].1));
                    out.push((copy_string(&ms[i].0), ms[i].1.copy()));
                    i = i + 1;
                }
                proof {
                    lemma_members_v(out@);
                    assert(members_v(out@) =~= members_v(ms@));
                }
                ConstType::Obj(out)
            },
        }
    }

    /// The type of member `name`: an object's member of that name (the first
    /// one), `int` for a list's `size` and `elem_size`, none otherwise.
    #[verifier::loop_isolation(false)]
    pub fn get(&self, name: &String) -> (r: Option<ConstType>)
        ensures
            match const_member(self@, name@) {
                Some(t) => r is Some && r->0@ == t,
                None => r is None,
            },
    {
        match self {
            ConstType::Obj(o) => {
                let ghost ms = members_v(o@);
                proof {
                    lemma_members_v(o@);
                }
                let mut i: usize = 0;
                while i < o.len()
                    invariant
                        i <= o@.len(),
                        ms == members_v(o@),
                        ms.len() == o@.len(),
                        forall|j: int| 0 <= j < o@.len() ==> #[trigger] ms[j] == (o@[j].0@, const_v(o@[j].1)),
                        forall|j: int| 0 <= j < i ==> ms[j].0 != name@,
                    decreases o@.len() - i,
                {
                    if str_eq(o[i].0.as_str(), name.as_str()) {
                        let r = o[i].1.copy();
                        proof {
                            lemma_member_from(ms, name@, i as int);
                            let sub = ms.subrange(i as int, ms.len() as int);
                            assert(sub.len() > 0);
                            assert(sub[0] == ms[i as int]);
                            assert(sub[0].0 == name@);
                            assert(member(sub, name@) == Some(ms[i as int].1));
                            assert(self@ == ConstV::Obj(ms));
                        }
                        return Some(r);
                    }
                    i = i + 1;
                }
                proof {
                    lemma_member_absent(ms, name@);
                }
                None
            },
            ConstType::List(_) => {
                if str_eq(name.as_str(), "size") || str_eq(name.as_str(), "elem_size") {
                    Some(ConstType::Int)
                } else {
                    None
                }
            },
            _ => None,
        }
    }

    /// The name of a basic type, `none` for the others.
    pub fn as_str(&self) -> (r: &'static str)
        ensures
            r@ == const_name(self@),
    {
        match self {
            ConstType::Int => "int",
            ConstType::Float => "float",
            ConstType::Str => "str",
            ConstType::Bool => "bool",
            _ => "none",
        }
    }
}

/// A member absent from every entry is not found.
proof fn lemma_member_absent(ms: Seq<(Seq<char>, ConstV)>, name: Seq<char>)
    requires
        forall|j: int| 0 <= j < ms.len() ==> ms[j].0 != name,
    ensures
        member(ms, name) is None,
    decreases ms.len(),
{
    if ms.len() > 0 {
        assert forall|j: int| 0 <= j < ms.drop_first().len() implies ms.drop_first()[j].0 != name by {
            assert(ms.drop_first()[j] == ms[j + 1]);
        }
        lemma_member_absent(ms.drop_first(), name);
    }
}

/// An overload name: the name followed, for each type, by `_` and the
/// type's name.
pub open spec fn const_mangled(name: Seq<char>, types: Seq<ConstV>) -> Seq<char>
    decreases types.len(),
{
    if types.len() == 0 {
        name
    } else {
        const_mangled(name, types.drop_last()) + "_"@ + const_name(types.last())
    }
}

/// The overload name of `name` for the constant types `types`.
pub fn type_mangle(name: String, types: Vec<ConstType>) -> (r: String)
    ensures
        r@ == const_mangled(name@, consts_v(types@)),
{
    let ghost cs = consts_v(types@);
    proof {
        lemma_consts_v(types@);
    }
    let mut mangle = String::new();
    push_str(&mut mangle, name.as_str());
    let mut i: usize = 0;
    assert(cs.subrange(0, 0) =~= Seq::<ConstV>::empty());
    while i < types.len()
        invariant
            i <= types@.len(),
            cs == consts_v(types@),
            cs.len() == types@.len(),
            forall|j: int| 0 <= j < types@.len() ==> #[trigger] cs[j] == const_v(types@[j]),
            mangle@ == const_mangled(name@, cs.subrange(0, i as int)),
        decreases types@.len() - i,
    {
        push_str(&mut mangle, "_");
        push_str(&mut mangle, types[i].as_str());
        proof {
            let g = cs.subrange(0, i + 1);
            assert(g.drop_last() =~= cs.subrange(0, i as int));
            assert(g.last() == cs[i as int]);
        }
        i = i + 1;
    }
    assert(cs.subrange(0, cs.len() as int) =~= cs);
    mangle
}

/// Where an expression of the constant-type front end stands: as a value, in a
/// function, or at the top.
#[derive(Debug)]
pub enum Scope {
    Value,
    _Func(String),
    Top,
}

impl Scope {
    /// Whether an expression in this scope has its value used: only as a value.
    pub fn is_used(&self) -> (r: bool)
        ensures
            r == (*self is Value),
    {
        match self {
            Scope::Value => true,
            _ => false,
        }
    }
}


/// Whether two constant types are equal: the same variant with equal parts,
/// the members of two objects compared as maps.
pub open spec fn const_eq(a: ConstV, b: ConstV) -> bool
    decreases a,
{
    match (a, b) {
        (ConstV::Int, ConstV::Int) => true,
        (ConstV::Float, ConstV::Float) => true,
        (ConstV::Str, ConstV::Str) => true,
        (ConstV::Bool, ConstV::Bool) => true,
        (ConstV::Dynamic, ConstV::Dynamic) => true,
        (ConstV::Void, ConstV::Void) => true,
        (ConstV::Unknown(x), ConstV::Unknown(y)) => match (x, y) {
            (None, None) => true,
            (Some(p), Some(q)) => const_eq(*p, *q),
            _ => false,
        },
        (ConstV::List(x), ConstV::List(y)) => const_eq(*x, *y),
        (ConstV::Func(r1, p1, n1), ConstV::Func(r2, p2, n2)) => {
            &&& const_eq(*r1, *r2)
            &&& p1.len() == p2.len()
            &&& consts_eq(p1, p2)
            &&& n1 == n2
        },
        (ConstV::Blueprint { argc: a1, name: n1 }, ConstV::Blueprint { argc: a2, name: n2 }) => a1 == a2 && n1 == n2,
        (ConstV::Obj(m1), ConstV::Obj(m2)) => m1.len() == m2.len() && members_found(m1, m2),
        _ => false,
    }
}

/// Whether the types of `xs` equal those of `ys` at the same positions.
pub open spec fn consts_eq(xs: Seq<ConstV>, ys: Seq<ConstV>) -> bool
    decreases xs,
{
    if xs.len() == 0 {
        true
    } else {
        consts_eq(xs.drop_last(), ys) && const_eq(xs.last(), ys[xs.len() - 1])
    }
}

/// Whether every member of `xs` is found in `ys` with an equal type.
pub open spec fn members_found(xs: Seq<(Seq<char>, ConstV)>, ys: Seq<(Seq<char>, ConstV)>) -> bool
    decreases xs,
{
    if xs.len() == 0 {
        true
    } else {
        &&& members_found(xs.drop_last(), ys)
        &&& match member(ys, xs.last().0) {
            Some(v) => const_eq(xs.last().1, v),
            None => false,
        }
    }
}

/// Position-by-position equality of a sequence implies it of each prefix.
proof fn lemma_consts_eq_prefix(xs: Seq<ConstV>, ys: Seq<ConstV>, i: int, n: int)
    requires
        0 <= i <= n <= xs.len(),
        consts_eq(xs.subrange(0, n), ys),
    ensures
        consts_eq(xs.subrange(0, i), ys),
    decreases n - i,
{
    if i < n {
        assert(xs.subrange(0, n).drop_last() =~= xs.subrange(0, n - 1));
        lemma_consts_eq_prefix(xs, ys, i, n - 1);
    }
}

/// `members_found` of a sequence implies it of each prefix.
proof fn lemma_members_found_prefix(xs: Seq<(Seq<char>, ConstV)>, ys: Seq<(Seq<char>, ConstV)>, i: int, n: int)
    requires
        0 <= i <= n <= xs.len(),
        members_found(xs.subrange(0, n), ys),
    ensures
        members_found(xs.subrange(0, i), ys),
    decreases n - i,
{
    if i < n {
        assert(xs.subrange(0, n).drop_last() =~= xs.subrange(0, n - 1));
        lemma_members_found_prefix(xs, ys, i, n - 1);
    }
}

/// The type of the first member named `key`.
fn member_lookup<'a>(ys: &'a Vec<(String, ConstType)>, key: &str) -> (r: Option<&'a ConstType>)
    ensures
        match member(members_v(ys@), key@) {
            None => r is None,
            Some(v) => r is Some && r->0@ == v,
        },
{
    let ghost e = members_v(ys@);
    proof {
        lemma_members_v(ys@);
    }
    let mut i: usize = 0;
    while i < ys.len()
        invariant
            i <= ys.len(),
            e == members_v(ys@),
            e.len() == ys@.len(),
            forall|j: int| 0 <= j < ys@.len() ==> #[trigger] e[j] == (ys@[j].0@, const_v(ys@[j].1)),
            forall|j: int| 0 <= j < i ==> e[j].0 != key@,
        decreases ys.len() - i,
    {
        if str_eq(ys[i].0.as_str(), key) {
            proof {
                lemma_member_from(e, key@, i as int);
                let sub = e.subrange(i as int, e.len() as int);
                assert(sub[0] == e[i as int]);
            }
            return Some(&ys[i].1);
        }
        i = i + 1;
    }
    proof {
        lemma_member_absent(e, key@);
    }
    None
}

/// Whether two constant types are equal.
pub fn const_equal(a: &ConstType, b: &ConstType) -> (r: bool)
    ensures
        r == const_eq(a@, b@),
    decreases a,
{
    match (a, b) {
        (ConstType::Int, ConstType::Int) => true,
        (ConstType::Float, ConstType::Float) => true,
        (ConstType::Str, ConstType::Str) => true,
        (ConstType::Bool, ConstType::Bool) => true,
        (ConstType::Dynamic, ConstType::Dynamic) => true,
        (ConstType::Void, ConstType::Void) => true,
        (ConstType::Unknown(x), ConstType::Unknown(y)) => match (x, y) {
            (None, None) => true,
            (Some(p), Some(q)) => const_equal(&**p, &**q),
            _ => false,
        },
        (ConstType::List(x), ConstType::List(y)) => const_equal(&**x, &**y),
        (ConstType::Func(r1, p1, n1), ConstType::Func(r2, p2, n2)) => {
            proof {
                lemma_consts_v(p1@);
                lemma_consts_v(p2@);
            }
            if !const_equal(&**r1, &**r2) {
                return false;
            }
            if p1.len() != p2.len() {
                return false;
            }
            if !consts_all_equal(p1, p2) {
                return false;
            }
            str_eq(n1.as_str(), n2.as_str())
        },
        (ConstType::Blueprint { argc: a1, name: n1 }, ConstType::Blueprint { argc: a2, name: n2 }) => {
            *a1 == *a2 && str_eq(n1.as_str(), n2.as_str())
        },
        (ConstType::Obj(m1), ConstType::Obj(m2)) => {
            proof {
                lemma_members_v(m1@);
                lemma_members_v(m2@);
            }
            m1.len() == m2.len() && members_all_found(m1, m2)
        },
        _ => false,
    }
}

/// Whether two lists of constant types of the same length are equal
/// position by position.
fn consts_all_equal(xs: &Vec<ConstType>, ys: &Vec<ConstType>) -> (r: bool)
    requires
        xs.len() == ys.len(),
    ensures
        r == consts_eq(consts_v(xs@), consts_v(ys@)),
    decreases xs,
{
    let ghost ex = consts_v(xs@);
    let ghost ey = consts_v(ys@);
    proof {
        lemma_consts_v(xs@);
        lemma_consts_v(ys@);
        assert(ex.subrange(0, 0) =~= Seq::<ConstV>::empty());
    }
    let mut i: usize = 0;
    while i < xs.len()
        invariant
            i <= xs.len(),
            xs.len() == ys.len(),
            ex == consts_v(xs@),
            ey == consts_v(ys@),
            ex.len() == xs@.len(),
            ey.len() == ys@.len(),
            forall|j: int| 0 <= j < xs@.len() ==> #[trigger] ex[j] == const_v(xs@[j]),
            forall|j: int| 0 <= j < ys@.len() ==> #[trigger] ey[j] == const_v(ys@[j]),
            consts_eq(ex.subrange(0, i as int), ey),
        decreases xs.len() - i,
    {
        assert(decreases_to!(xs => xs@[i as int]));
        let same = const_equal(&xs[i], &ys[i]);
        assert(ex.subrange(0, i + 1).drop_last() =~= ex.subrange(0, i as int));
        if !same {
            proof {
                if consts_eq(ex, ey) {
                    assert(ex.subrange(0, ex.len() as int) =~= ex);
                    lemma_consts_eq_prefix(ex, ey, i + 1, ex.len() as int);
                }
            }
            return false;
        }
        i = i + 1;
    }
    assert(ex.subrange(0, ex.len() as int) =~= ex);
    true
}

/// Whether every member of `xs` is found in `ys` with an equal type.
fn members_all_found(xs: &Vec<(String, ConstType)>, ys: &Vec<(String, ConstType)>) -> (r: bool)
    ensures
        r == members_found(members_v(xs@), members_v(ys@)),
    decreases xs,
{
    let ghost ex = members_v(xs@);
    let ghost ey = members_v(ys@);
    proof {
        lemma_members_v(xs@);
        assert(ex.subrange(0, 0) =~= Seq::<(Seq<char>, ConstV)>::empty());
    }
    let mut i: usize = 0;
    while i < xs.len()
        invariant
            i <= xs.len(),
            ex == members_v(xs@),
            ey == members_v(ys@),
            ex.len() == xs@.len(),
            forall|j: int| 0 <= j < xs@.len() ==> #[trigger] ex[j] == (xs@[j].0@, const_v(xs@[j].1)),
            members_found(ex.subrange(0, i as int), ey),
        decreases xs.len() - i,
    {
        assert(ex.subrange(0, i + 1).drop_last() =~= ex.subrange(0, i as int));
        let found = member_lookup(ys, xs[i].0.as_str());
        let ok = match found {
            None => false,
            Some(v) => {
                assert(decreases_to!(xs => xs@[i as int].1));
                const_equal(&xs[i].1, v)
            },
        };
        if !ok {
            proof {
                if members_found(ex, ey) {
                    assert(ex.subrange(0, ex.len() as int) =~= ex);
                    lemma_members_found_prefix(ex, ey, i + 1, ex.len() as int);
                }
            }
            return false;
        }
        i = i + 1;
    }
    assert(ex.subrange(0, ex.len() as int) =~= ex);
    true
}


/// A name of the constant-type front end, with the constant type it is tagged with.
#[derive(Debug)]
pub struct Ident {
    pub val: String,
    pub tag: Option<ConstType>,
}

/// A function definition of the constant-type front end: its name, parameters and body.
#[derive(Debug)]
pub struct Blueprint {
    pub name: String,
    pub args: Vec<Ident>,
    pub body: Vec<Node>,
}

/// A scope of the constant-type front end: the types of its variables, the type
/// being built, the enclosing scope, and the function definitions known here.
#[derive(Debug)]
pub struct Enviroment {
    pub vars: Vec<(String, ConstType)>,
    pub current: ConstType,
    pub parent: Option<Box<Enviroment>>,
    pub blueprints: Vec<Blueprint>,
}

/// The type stored under `key` in a list of variables: the first entry with
/// that name.
pub open spec fn var_of(s: Seq<(String, ConstType)>, key: Seq<char>) -> Option<ConstV>
    decreases s.len(),
{
    if s.len() == 0 {
        None
    } else if s[0].0@ == key {
        Some(const_v(s[0].1))
    } else {
        var_of(s.drop_first(), key)
    }
}

/// The type of `key` in a scope, else in the enclosing ones.
pub open spec fn env_ty(e: Enviroment, key: Seq<char>) -> Option<ConstV>
    decreases e,
{
    match var_of(e.vars@, key) {
        Some(t) => Some(t),
        None => match e.parent {
            Some(p) => env_ty(*p, key),
            None => None,
        },
    }
}

/// The variables after `key` is bound to `t`, as lookups.
pub open spec fn var_bound(s: Seq<(String, ConstType)>, key: Seq<char>, t: ConstV, k: Seq<char>) -> Option<ConstV> {
    if k == key {
        Some(t)
    } else {
        var_of(s, k)
    }
}

/// The first entry named `key` decides the lookup.
proof fn lemma_var_first(s: Seq<(String, ConstType)>, key: Seq<char>, i: int)
    requires
        0 <= i < s.len(),
        s[i].0@ == key,
        forall|j: int| 0 <= j < i ==> s[j].0@ != key,
    ensures
        var_of(s, key) == Some(const_v(s[i].1)),
    decreases i,
{
    if i > 0 {
        assert(s.drop_first()[i - 1] == s[i]);
        lemma_var_first(s.drop_first(), key, i - 1);
    }
}

/// A name that no entry has is not found.
proof fn lemma_var_absent(s: Seq<(String, ConstType)>, key: Seq<char>)
    requires
        forall|j: int| 0 <= j < s.len() ==> s[j].0@ != key,
    ensures
        var_of(s, key) is None,
    decreases s.len(),
{
    if s.len() > 0 {
        assert forall|j: int| 0 <= j < s.drop_first().len() implies s.drop_first()[j].0@ != key by {
            assert(s.drop_first()[j] == s[j + 1]);
        }
        lemma_var_absent(s.drop_first(), key);
    }
}

/// Replacing the first entry of a name binds the name and keeps the others.
proof fn lemma_var_set(s: Seq<(String, ConstType)>, i: int, x: (String, ConstType), k: Seq<char>)
    requires
        0 <= i < s.len(),
        s[i].0@ == x.0@,
        forall|j: int| 0 <= j < i ==> s[j].0@ != x.0@,
    ensures
        var_of(s.update(i, x), k) == var_bound(s, x.0@, const_v(x.1), k),
    decreases i,
{
    if i > 0 {
        assert(s.update(i, x).drop_first() =~= s.drop_first().update(i - 1, x));
        assert forall|j: int| 0 <= j < i - 1 implies s.drop_first()[j].0@ != x.0@ by {
            assert(s.drop_first()[j] == s[j + 1]);
        }
        lemma_var_set(s.drop_first(), i - 1, x, k);
    } else {
        assert(s.update(0, x).drop_first() =~= s.drop_first());
    }
}

/// Appending an entry for a name not yet present binds it and keeps the others.
proof fn lemma_var_push(s: Seq<(String, ConstType)>, x: (String, ConstType), k: Seq<char>)
    requires
        var_of(s, x.0@) is None,
    ensures
        var_of(s.push(x), k) == var_bound(s, x.0@, const_v(x.1), k),
    decreases s.len(),
{
    if s.len() > 0 {
        assert(s.push(x).drop_first() =~= s.drop_first().push(x));
        assert(s.push(x)[0] == s[0]);
        lemma_var_push(s.drop_first(), x, k);
    } else {
        assert(s.push(x)[0] == x);
        assert(s.push(x).drop_first() =~= Seq::<(String, ConstType)>::empty());
        assert(var_of(s.push(x).drop_first(), k) is None);
        assert(var_of(s, k) is None);
    }
}

/// The index of the first variable named `name`.
fn var_index(vars: &Vec<(String, ConstType)>, name: &str) -> (r: Option<usize>)
    ensures
        match r {
            Some(i) => {
                &&& i < vars@.len()
                &&& vars@[i as int].0@ == name@
                &&& forall|j: int| 0 <= j < i ==> vars@[j].0@ != name@
            },
            None => forall|j: int| 0 <= j < vars@.len() ==> vars@[j].0@ != name@,
        },
{
    let mut i: usize = 0;
    while i < vars.len()
        invariant
            i <= vars@.len(),
            forall|j: int| 0 <= j < i ==> vars@[j].0@ != name@,
        decreases vars@.len() - i,
    {
        if str_eq(vars[i].0.as_str(), name) {
            return Some(i);
        }
        i = i + 1;
    }
    None
}

/// The first definition named `name` in a list.
pub open spec fn first_def(s: Seq<Blueprint>, name: Seq<char>) -> Option<Blueprint>
    decreases s.len(),
{
    if s.len() == 0 {
        None
    } else if s[0].name@ == name {
        Some(s[0])
    } else {
        first_def(s.drop_first(), name)
    }
}

/// The definition named `name` in a scope, else in its enclosing scope (one
/// level only).
pub open spec fn env_def(e: Enviroment, name: Seq<char>) -> Option<Blueprint> {
    match first_def(e.blueprints@, name) {
        Some(b) => Some(b),
        None => match e.parent {
            Some(p) => first_def(p.blueprints@, name),
            None => None,
        },
    }
}

/// The binding that the definitions of `bps` give `k`: the last one named
/// `k`, as a blueprint type with its parameter count.
pub open spec fn def_binding(bps: Seq<Blueprint>, k: Seq<char>) -> Option<ConstV>
    decreases bps.len(),
{
    if bps.len() == 0 {
        None
    } else if bps.last().name@ == k {
        Some(ConstV::Blueprint { argc: bps.last().args@.len() as u32, name: k })
    } else {
        def_binding(bps.drop_last(), k)
    }
}

/// The first definition named `name` in a list, found from index `i` on.
fn def_index(s: &Vec<Blueprint>, name: &String) -> (r: Option<usize>)
    ensures
        match first_def(s@, name@) {
            Some(b) => r is Some && r->0 < s@.len() && s@[r->0 as int] == b,
            None => r is None,
        },
{
    let mut i: usize = 0;
    assert(s@.subrange(0, s@.len() as int) =~= s@);
    while i < s.len()
        invariant
            i <= s@.len(),
            first_def(s@, name@) == first_def(s@.subrange(i as int, s@.len() as int), name@),
        decreases s@.len() - i,
    {
        let ghost rest = s@.subrange(i as int, s@.len() as int);
        if str_eq(s[i].name.as_str(), name.as_str()) {
            assert(rest[0] == s@[i as int]);
            return Some(i);
        }
        assert(rest.drop_first() =~= s@.subrange(i + 1, s@.len() as int));
        i = i + 1;
    }
    None
}

impl Enviroment {
    /// An empty scope inside `parent`, building nothing.
    pub fn new(parent: Option<Box<Self>>) -> (r: Self)
        ensures
            r.vars@.len() == 0,
            r.current@ == ConstV::Void,
            r.parent == parent,
            r.blueprints@.len() == 0,
    {
        Enviroment { vars: Vec::new(), current: ConstType::Void, parent, blueprints: Vec::new() }
    }

    /// Enters a new empty scope inside this one.
    pub fn child(&mut self)
        ensures
            final(self).vars@.len() == 0,
            final(self).current@ == ConstV::Void,
            final(self).parent == Some(Box::new(*old(self))),
            final(self).blueprints@.len() == 0,
    {
        let mut outer = Enviroment::new(None);
        std::mem::swap(&mut outer, self);
        *self = Enviroment::new(Some(Box::new(outer)));
    }

    /// Leaves this scope for the enclosing one, where there is one; says
    /// whether there was.
    pub fn parent(&mut self) -> (r: bool)
        ensures
            r == old(self).parent is Some,
            r ==> *final(self) == *old(self).parent->0,
            !r ==> *final(self) == *old(self),
    {
        let p = self.parent.take();
        match p {
            Some(b) => {
                *self = *b;
                true
            },
            None => false,
        }
    }

    /// Binds `name` to `ty` in this scope.
    pub fn add(&mut self, name: &String, ty: ConstType)
        ensures
            forall|k: Seq<char>| #[trigger] var_of(final(self).vars@, k) == var_bound(old(self).vars@, name@, ty@, k),
            final(self).parent == old(self).parent,
            final(self).current == old(self).current,
            final(self).blueprints == old(self).blueprints,
    {
        let key = copy_string(name);
        let ghost tv = ty@;
        let ghost before = self.vars@;
        match var_index(&self.vars, name.as_str()) {
            Some(i) => {
                self.vars.set(i, (key, ty));
                assert forall|k: Seq<char>| #[trigger] var_of(self.vars@, k) == var_bound(before, name@, tv, k) by {
                    lemma_var_set(before, i as int, (key, ty), k);
                }
            },
            None => {
                proof {
                    lemma_var_absent(before, name@);
                }
                self.vars.push((key, ty));
                assert forall|k: Seq<char>| #[trigger] var_of(self.vars@, k) == var_bound(before, name@, tv, k) by {
                    lemma_var_push(before, (key, ty), k);
                }
            },
        }
    }

    /// The type of `name`, here or in an enclosing scope.
    pub fn get_ty(&self, name: &String) -> (r: Option<ConstType>)
        ensures
            match env_ty(*self, name@) {
                Some(t) => r is Some && r->0@ == t,
                None => r is None,
            },
        decreases self,
    {
        match var_index(&self.vars, name.as_str()) {
            Some(i) => {
                proof {
                    lemma_var_first(self.vars@, name@, i as int);
                }
                Some(self.vars[i].1.copy())
            },
            None => {
                proof {
                    lemma_var_absent(self.vars@, name@);
                }
                match &self.parent {
                    Some(p) => p.get_ty(name),
                    None => None,
                }
            },
        }
    }

    /// Whether `name` has a type here or in an enclosing scope.
    pub fn has(&self, name: &String) -> (r: bool)
        ensures
            r == (env_ty(*self, name@) is Some),
        decreases self,
    {
        match var_index(&self.vars, name.as_str()) {
            Some(i) => {
                proof {
                    lemma_var_first(self.vars@, name@, i as int);
                }
                true
            },
            None => {
                proof {
                    lemma_var_absent(self.vars@, name@);
                }
                match &self.parent {
                    Some(p) => p.has(name),
                    None => false,
                }
            },
        }
    }

    /// The function type of `name` in this scope, where its first parameter
    /// is `ty`: the function that a member access on a `ty` can call.
    pub fn ty_parent_fn(&self, ty: &ConstType, name: &String) -> (r: Option<ConstType>)
        requires
            var_of(self.vars@, name@) matches Some(ConstV::Func(_, ps, _)) ==> ps.len() > 0,
        ensures
            match var_of(self.vars@, name@) {
                Some(ConstV::Func(r0, ps, n)) => if const_eq(ps[0], ty@) {
                    r is Some && r->0@ == ConstV::Func(r0, ps, n)
                } else {
                    r is None
                },
                _ => r is None,
            },
    {
        match var_index(&self.vars, name.as_str()) {
            Some(i) => {
                proof {
                    lemma_var_first(self.vars@, name@, i as int);
                }
                match &self.vars[i].1 {
                    ConstType::Func(_, args, _) => {
                        proof {
                            lemma_consts_v(args@);
                        }
                        if const_equal(&args[0], ty) {
                            Some(self.vars[i].1.copy())
                        } else {
                            None
                        }
                    },
                    _ => None,
                }
            },
            None => {
                proof {
                    lemma_var_absent(self.vars@, name@);
                }
                None
            },
        }
    }

    /// Gives `name` the type `ty` where this scope has it; a name found only
    /// in an enclosing scope is left as it is.
    pub fn modify(&mut self, name: &String, ty: ConstType)
        ensures
            forall|k: Seq<char>| #[trigger] var_of(final(self).vars@, k) == if var_of(old(self).vars@, name@) is Some {
                var_bound(old(self).vars@, name@, ty@, k)
            } else {
                var_of(old(self).vars@, k)
            },
            final(self).parent == old(self).parent,
            final(self).current == old(self).current,
            final(self).blueprints == old(self).blueprints,
    {
        let ghost before = self.vars@;
        let ghost tv = ty@;
        match var_index(&self.vars, name.as_str()) {
            Some(i) => {
                proof {
                    lemma_var_first(before, name@, i as int);
                }
                let key = copy_string(name);
                self.vars.set(i, (key, ty));
                assert forall|k: Seq<char>| #[trigger] var_of(self.vars@, k) == var_bound(before, name@, tv, k) by {
                    lemma_var_set(before, i as int, (key, ty), k);
                }
            },
            None => {
                proof {
                    lemma_var_absent(before, name@);
                }
            },
        }
    }

    /// Binds `name` to the function type with these parameters and result.
    pub fn push_function(&mut self, name: String, args: Vec<ConstType>, ty: ConstType)
        ensures
            forall|k: Seq<char>| #[trigger] var_of(final(self).vars@, k) == var_bound(
                old(self).vars@,
                name@,
                ConstV::Func(Box::new(ty@), consts_v(args@), name@),
                k,
            ),
            final(self).parent == old(self).parent,
            final(self).current == old(self).current,
            final(self).blueprints == old(self).blueprints,
    {
        let key = copy_string(&name);
        self.add(&key, ConstType::Func(Box::new(ty), args, name));
    }

    /// The definition named `name` here, else in the enclosing scope.
    pub fn get_blueprint(&self, name: &String) -> (r: Option<&Blueprint>)
        ensures
            match env_def(*self, name@) {
                Some(b) => r is Some && *r->0 == b,
                None => r is None,
            },
    {
        match def_index(&self.blueprints, name) {
            Some(i) => Some(&self.blueprints[i]),
            None => match &self.parent {
                Some(p) => match def_index(&p.blueprints, name) {
                    Some(j) => Some(&p.blueprints[j]),
                    None => None,
                },
                None => None,
            },
        }
    }

    /// Takes these definitions as this scope's, and binds each one's name
    /// to a blueprint type with its parameter count, in order.
    pub fn blueprints(&mut self, blueprints: Vec<Blueprint>)
        ensures
            final(self).blueprints == blueprints,
            forall|k: Seq<char>| #[trigger] var_of(final(self).vars@, k) == match def_binding(blueprints@, k) {
                Some(v) => Some(v),
                None => var_of(old(self).vars@, k),
            },
            final(self).parent == old(self).parent,
            final(self).current == old(self).current,
    {
        let ghost v0 = self.vars@;
        let mut i: usize = 0;
        while i < blueprints.len()
            invariant
                i <= blueprints@.len(),
                self.parent == old(self).parent,
                self.current == old(self).current,
                forall|k: Seq<char>| #[trigger] var_of(self.vars@, k) == match def_binding(blueprints@.subrange(0, i as int), k) {
                    Some(v) => Some(v),
                    None => var_of(v0, k),
                },
            decreases blueprints@.len() - i,
        {
            let argc = blueprints[i].args.len() as u32;
            let name = copy_string(&blueprints[i].name);
            let ty = ConstType::Blueprint { argc, name: copy_string(&blueprints[i].name) };
            let ghost before = self.vars@;
            self.add(&name, ty);
            proof {
                let g = blueprints@.subrange(0, i + 1);
                assert(g.drop_last() =~= blueprints@.subrange(0, i as int));
                assert(g.last() == blueprints@[i as int]);
            }
            i = i + 1;
        }
        assert(blueprints@.subrange(0, blueprints@.len() as int) =~= blueprints@);
        self.blueprints = blueprints;
    }
}

} // verus!
