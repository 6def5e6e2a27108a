//! The environment: nested scopes of symbols, each with a type.
use vstd::prelude::*;
use crate::builtins::{back_atom, back_v, const_atom, const_v, list_atom, list_v, str_atom, str_v};
use crate::parser::ast::{ident_name, Blueprint, Literal, LiteralV};
use crate::text::{copy_string, str_eq};
use crate::typeeq::{ty_eq, types_equal};
use crate::types::{kind_v, plain_ty, ty_v, AtomDetails, AtomKind, AtomType, BasicType, DetailsV, FunctionType, KindV, TyV};

verus! {

/// A symbol: a name, its type, an optional known value, and the type it is
/// expected to have.
#[derive(Debug)]
pub struct Symbol {
    pub name: String,
    pub ty: AtomType,
    pub value: Option<Literal>,
    pub expected: Option<AtomType>,
}

/// A symbol as plain values.
pub struct SymV {
    pub name: Seq<char>,
    pub ty: TyV,
    pub value: Option<LiteralV>,
    pub expected: Option<TyV>,
}

impl View for Symbol {
    type V = SymV;

    open spec fn view(&self) -> SymV {
        SymV {
            name: self.name@,
            ty: self.ty@,
            value: match self.value {
                Some(l) => Some(l@),
                None => None,
            },
            expected: match self.expected {
                Some(t) => Some(t@),
                None => None,
            },
        }
    }
}

/// A scope chain: the symbols of this scope under their names, the enclosing
/// scope, and the function definitions known here.
#[derive(Debug)]
pub struct Enviroment {
    pub symbols: Vec<(String, Symbol)>,
    pub parent: Option<Box<Enviroment>>,
    pub blueprints: Vec<Blueprint>,
}

/// The symbol stored under `key` in one scope: the first entry with that name.
pub open spec fn scope_get(s: Seq<(String, Symbol)>, key: Seq<char>) -> Option<SymV>
    decreases s.len(),
{
    if s.len() == 0 {
        None
    } else if s[0].0@ == key {
        Some(s[0].1@)
    } else {
        scope_get(s.drop_first(), key)
    }
}

/// The symbol that `key` names: in this scope, else in the enclosing ones.
pub open spec fn env_get(e: Enviroment, key: Seq<char>) -> Option<SymV>
    decreases e,
{
    match scope_get(e.symbols@, key) {
        Some(s) => Some(s),
        None => match e.parent {
            Some(p) => env_get(*p, key),
            None => None,
        },
    }
}

/// A model of what names mean: a lookup function.
pub type EnvM = spec_fn(Seq<char>) -> Option<SymV>;

/// What the names of an environment mean.
pub open spec fn env_m(e: Enviroment) -> EnvM {
    |k: Seq<char>| env_get(e, k)
}

/// A lookup function with `key` bound to `s`.
pub open spec fn bind(m: EnvM, key: Seq<char>, s: SymV) -> EnvM {
    |k: Seq<char>| if k == key { Some(s) } else { m(k) }
}

/// A symbol with no value and no expected type.
pub open spec fn plain_sym(name: Seq<char>, ty: TyV) -> SymV {
    SymV { name: name, ty: ty, value: None, expected: None }
}

/// The type of a built-in type name, as a type that stands for a type.
pub open spec fn type_ty(k: KindV) -> TyV {
    TyV { kind: k, details: Some(DetailsV::Type) }
}

/// The names that the top-level environment defines: the basic types,
/// `Dynamic`, and the built-in compound types.
pub open spec fn builtin(key: Seq<char>) -> Option<SymV> {
    if key == "int"@ {
        Some(plain_sym(key, type_ty(KindV::Basic(BasicType::Int))))
    } else if key == "float"@ {
        Some(plain_sym(key, type_ty(KindV::Basic(BasicType::Float))))
    } else if key == "void"@ {
        Some(plain_sym(key, type_ty(KindV::Basic(BasicType::Void))))
    } else if key == "Dynamic"@ {
        Some(plain_sym(key, type_ty(KindV::Dynamic)))
    } else if key == "bool"@ {
        Some(plain_sym(key, type_ty(KindV::Basic(BasicType::Bool))))
    } else if key == "List"@ {
        Some(plain_sym(key, type_ty(KindV::Atom(list_v()))))
    } else if key == "Back"@ {
        Some(plain_sym(key, type_ty(KindV::Atom(back_v()))))
    } else if key == "str"@ {
        Some(plain_sym(key, type_ty(KindV::Atom(str_v()))))
    } else if key == "Const"@ {
        Some(plain_sym(key, type_ty(KindV::Atom(const_v()))))
    } else {
        None
    }
}

/// Whether the first entry named `key` in a scope is at index `i`.
pub open spec fn first_at(s: Seq<(String, Symbol)>, key: Seq<char>, i: int) -> bool {
    &&& 0 <= i < s.len()
    &&& s[i].0@ == key
    &&& forall|j: int| 0 <= j < i ==> #[trigger] s[j].0@ != key
}

/// A scope lookup finds the first entry with the name.
pub proof fn lemma_scope_get(s: Seq<(String, Symbol)>, key: Seq<char>, i: int)
    requires
        0 <= i <= s.len(),
        forall|j: int| 0 <= j < i ==> #[trigger] s[j].0@ != key,
    ensures
        scope_get(s, key) == scope_get(s.subrange(i, s.len() as int), key),
    decreases i,
{
    if i == 0 {
        assert(s.subrange(0, s.len() as int) =~= s);
    } else {
        assert(s[0].0@ != key);
        assert(s.drop_first().subrange(i - 1, s.drop_first().len() as int) =~= s.subrange(i, s.len() as int));
        assert forall|j: int| 0 <= j < i - 1 implies #[trigger] s.drop_first()[j].0@ != key by {
            assert(s.drop_first()[j] == s[j + 1]);
        }
        lemma_scope_get(s.drop_first(), key, i - 1);
    }
}

/// The index of the first entry named `key` in a scope, if any.
fn scope_index(s: &Vec<(String, Symbol)>, key: &str) -> (r: Option<usize>)
    ensures
        match r {
            Some(i) => first_at(s@, key@, i as int) && scope_get(s@, key@) == Some(s@[i as int].1@),
            None => scope_get(s@, key@) is None && forall|j: int| 0 <= j < s@.len() ==> #[trigger] s@[j].0@ != key@,
        },
{
    let mut i: usize = 0;
    while i < s.len()
        invariant
            i <= s.len(),
            forall|j: int| 0 <= j < i ==> #[trigger] s@[j].0@ != key@,
        decreases s.len() - i,
    {
        if str_eq(s[i].0.as_str(), key) {
            proof {
                lemma_scope_get(s@, key@, i as int);
            }
            return Some(i);
        }
        i = i + 1;
    }
    proof {
        lemma_scope_get(s@, key@, i as int);
        assert(s@.subrange(i as int, s@.len() as int) =~= Seq::<(String, Symbol)>::empty());
    }
    None
}

/// Replacing the entry at the first index of `key` rebinds `key` and keeps the rest.
proof fn lemma_scope_replace(s: Seq<(String, Symbol)>, key: Seq<char>, i: int, e: (String, Symbol))
    requires
        first_at(s, key, i),
        e.0@ == key,
    ensures
        forall|k: Seq<char>| #[trigger] scope_get(s.update(i, e), k) == if k == key {
            Some(e.1@)
        } else {
            scope_get(s, k)
        },
{
    let t = s.update(i, e);
    assert forall|k: Seq<char>| #[trigger] scope_get(t, k) == if k == key {
        Some(e.1@)
    } else {
        scope_get(s, k)
    } by {
        if k == key {
            assert forall|j: int| 0 <= j < i implies #[trigger] t[j].0@ != k by {
                assert(t[j] == s[j]);
            }
            lemma_scope_get(t, k, i);
            let rest = t.subrange(i, t.len() as int);
            assert(rest[0] == e);
        } else {
            assert forall|j: int| 0 <= j < s.len() && (s[j].0@ == k || t[j].0@ == k) implies s[j] == t[j] by {
                if j == i {
                    assert(t[j] == e);
                }
            }
            assert forall|j: int| 0 <= j < s.len() implies (s[j].0@ == k) == (t[j].0@ == k) by {
                if j == i {
                    assert(t[j] == e);
                }
            }
            lemma_scope_skip_other(s, t, k, 0);
            assert(s.subrange(0, s.len() as int) =~= s);
            assert(t.subrange(0, t.len() as int) =~= t);
        }
    }
}

/// Two scopes that agree on every entry not named `key` agree on lookups of other names.
proof fn lemma_scope_skip_other(s: Seq<(String, Symbol)>, t: Seq<(String, Symbol)>, k: Seq<char>, i: int)
    requires
        s.len() == t.len(),
        0 <= i <= s.len(),
        forall|j: int| 0 <= j < s.len() && (s[j].0@ == k || t[j].0@ == k) ==> s[j] == t[j],
        forall|j: int| 0 <= j < s.len() ==> (s[j].0@ == k) == (t[j].0@ == k),
    ensures
        scope_get(s.subrange(i, s.len() as int), k) == scope_get(t.subrange(i, t.len() as int), k),
    decreases s.len() - i,
{
    if i < s.len() {
        lemma_scope_skip_other(s, t, k, i + 1);
        let a = s.subrange(i, s.len() as int);
        let b = t.subrange(i, t.len() as int);
        assert(a.drop_first() =~= s.subrange(i + 1, s.len() as int));
        assert(b.drop_first() =~= t.subrange(i + 1, t.len() as int));
        assert(a[0] == s[i]);
        assert(b[0] == t[i]);
    }
    if i == 0 {
        assert(s.subrange(0, s.len() as int) =~= s);
        assert(t.subrange(0, t.len() as int) =~= t);
    }
}

/// Appending an entry for a name that a scope lacks binds that name.
proof fn lemma_scope_push(s: Seq<(String, Symbol)>, e: (String, Symbol))
    requires
        scope_get(s, e.0@) is None,
    ensures
        forall|k: Seq<char>| #[trigger] scope_get(s.push(e), k) == if k == e.0@ {
            Some(e.1@)
        } else {
            scope_get(s, k)
        },
    decreases s.len(),
{
    assert forall|k: Seq<char>| #[trigger] scope_get(s.push(e), k) == if k == e.0@ {
        Some(e.1@)
    } else {
        scope_get(s, k)
    } by {
        lemma_scope_push_one(s, e, k);
    }
}

proof fn lemma_scope_push_one(s: Seq<(String, Symbol)>, e: (String, Symbol), k: Seq<char>)
    requires
        scope_get(s, e.0@) is None,
    ensures
        scope_get(s.push(e), k) == if k == e.0@ {
            Some(e.1@)
        } else {
            scope_get(s, k)
        },
    decreases s.len(),
{
    if s.len() == 0 {
        assert(s.push(e).drop_first() =~= Seq::<(String, Symbol)>::empty());
        assert(scope_get(Seq::<(String, Symbol)>::empty(), k) is None);
        assert(s.push(e)[0] == e);
    } else {
        assert(s.push(e).drop_first() =~= s.drop_first().push(e));
        assert(s.push(e)[0] == s[0]);
        assert(s[0].0@ != e.0@);
        if s[0].0@ != k {
            lemma_scope_push_one(s.drop_first(), e, k);
        }
    }
}

impl Symbol {
    /// A symbol with no value and no expected type.
    pub fn plain(name: String, ty: AtomType) -> (r: Symbol)
        ensures
            r@ == plain_sym(name@, ty@),
            r.name == name,
    {
        Symbol { name, ty, value: None, expected: None }
    }
}

/// A built-in type entry.
fn type_entry(name: &str, kind: AtomKind) -> (r: (String, Symbol))
    ensures
        r.0@ == name@,
        r.1@ == plain_sym(name@, type_ty(kind@)),
{
    let ty = AtomType { kind, details: Some(AtomDetails::Type) };
    (from_str_copy(name), Symbol::plain(from_str_copy(name), ty))
}

/// A new string with the characters of `t`.
fn from_str_copy(t: &str) -> (r: String)
    ensures
        r@ == t@,
{
    crate::text::from_str(t)
}

impl Enviroment {
    /// The top-level environment: the built-in type names, with no enclosing scope.
    pub fn init() -> (r: Self)
        ensures
            r.parent is None,
            r.blueprints@.len() == 0,
            forall|k: Seq<char>| #[trigger] env_get(r, k) == builtin(k),
    {
        let mut symbols: Vec<(String, Symbol)> = Vec::new();
        symbols.push(type_entry("int", AtomKind::Basic(BasicType::Int)));
        symbols.push(type_entry("float", AtomKind::Basic(BasicType::Float)));
        symbols.push(type_entry("void", AtomKind::Basic(BasicType::Void)));
        symbols.push(type_entry("Dynamic", AtomKind::Dynamic));
        symbols.push(type_entry("bool", AtomKind::Basic(BasicType::Bool)));
        symbols.push(type_entry("List", AtomKind::Atom(list_atom())));
        symbols.push(type_entry("Back", AtomKind::Atom(back_atom())));
        symbols.push(type_entry("str", AtomKind::Atom(str_atom())));
        symbols.push(type_entry("Const", AtomKind::Atom(const_atom())));
        let r = Self { symbols, parent: None, blueprints: Vec::new() };
        proof {
            reveal_strlit("int");
            reveal_strlit("float");
            reveal_strlit("void");
            reveal_strlit("Dynamic");
            reveal_strlit("bool");
            reveal_strlit("List");
            reveal_strlit("Back");
            reveal_strlit("str");
            reveal_strlit("Const");
            let s = r.symbols@;
            assert forall|k: Seq<char>| #[trigger] env_get(r, k) == builtin(k) by {
                let mut i: int = 0;
                assert(s.drop_first() =~= s.subrange(1, 9));
                lemma_scope_get(s, k, 0);
                assert(s.subrange(0, 9) =~= s);
                reveal_with_fuel(scope_get, 10);
                assert(scope_get(s, k) == builtin(k));
            }
        }
        r
    }
}

} // verus!

verus! {

/// The function definition named `name`: in this scope, else in the enclosing ones.
pub open spec fn env_blueprint(e: Enviroment, name: Seq<char>) -> Option<Blueprint>
    decreases e,
{
    match first_blueprint(e.blueprints@, name) {
        Some(b) => Some(b),
        None => match e.parent {
            Some(p) => env_blueprint(*p, name),
            None => None,
        },
    }
}

/// The first function definition named `name` in a list.
pub open spec fn first_blueprint(s: Seq<Blueprint>, name: Seq<char>) -> Option<Blueprint>
    decreases s.len(),
{
    if s.len() == 0 {
        None
    } else if ident_name(s[0].name) == name {
        Some(s[0])
    } else {
        first_blueprint(s.drop_first(), name)
    }
}

/// The symbol `s` with its type replaced.
pub open spec fn with_ty(s: SymV, ty: TyV) -> SymV {
    SymV { ty: ty, ..s }
}

/// The symbol `s` with its expected type set.
pub open spec fn with_expected(s: SymV, ty: TyV) -> SymV {
    SymV { expected: Some(ty), ..s }
}

/// The outermost scope of a chain.
pub open spec fn env_top(e: Enviroment) -> Enviroment
    decreases e,
{
    match e.parent {
        Some(p) => env_top(*p),
        None => e,
    }
}

/// The chain `e` with its outermost scope replaced by `t`.
pub open spec fn with_top(e: Enviroment, t: Enviroment) -> Enviroment
    decreases e,
{
    match e.parent {
        Some(p) => Enviroment { parent: Some(Box::new(with_top(*p, t))), ..e },
        None => t,
    }
}

impl Enviroment {
    /// An empty scope inside `parent`.
    pub fn new(parent: Option<Box<Self>>) -> (r: Self)
        ensures
            r.symbols@.len() == 0,
            r.blueprints@.len() == 0,
            r.parent == parent,
            env_m(r) == match parent {
                Some(p) => env_m(*p),
                None => |k: Seq<char>| None::<SymV>,
            },
    {
        let r = Self { symbols: Vec::new(), parent, blueprints: Vec::new() };
        assert(env_m(r) =~= match parent {
            Some(p) => env_m(*p),
            None => |k: Seq<char>| None::<SymV>,
        });
        r
    }

    /// Enters a new empty scope inside this one.
    pub fn child(&mut self)
        ensures
            final(self).symbols@.len() == 0,
            final(self).blueprints@.len() == 0,
            final(self).parent == Some(Box::new(*old(self))),
            env_m(*final(self)) == env_m(*old(self)),
    {
        let mut outer = Enviroment { symbols: Vec::new(), parent: None, blueprints: Vec::new() };
        std::mem::swap(&mut outer, self);
        *self = Enviroment::new(Some(Box::new(outer)));
    }

    /// Leaves this scope for the enclosing one.
    pub fn parent(&mut self)
        requires
            old(self).parent is Some,
        ensures
            *final(self) == *old(self).parent->0,
    {
        let p = self.parent.take();
        match p {
            Some(b) => {
                *self = *b;
            },
            None => {},
        }
    }

    /// The symbol that `name` names.
    pub fn get(&self, name: &String) -> (r: Option<&Symbol>)
        ensures
            match env_get(*self, name@) {
                Some(s) => r is Some && r->0@ == s,
                None => r is None,
            },
        decreases self,
    {
        match scope_index(&self.symbols, name.as_str()) {
            Some(i) => Some(&self.symbols[i].1),
            None => match &self.parent {
                Some(p) => p.get(name),
                None => None,
            },
        }
    }

    /// The type of the symbol that `name` names.
    pub fn get_ty(&self, name: &String) -> (r: Option<AtomType>)
        ensures
            match env_get(*self, name@) {
                Some(s) => r is Some && r->0@ == s.ty,
                None => r is None,
            },
    {
        match self.get(name) {
            Some(sym) => Some(sym.ty.copy()),
            None => None,
        }
    }

    /// Whether `name` names a symbol.
    pub fn has(&self, name: &String) -> (r: bool)
        ensures
            r == (env_get(*self, name@) is Some),
    {
        self.get(name).is_some()
    }

    /// Replaces the symbol that `name` names, in the innermost scope that has it.
    pub fn modify(&mut self, name: &String, sym: Symbol)
        ensures
            env_m(*final(self)) == if env_get(*old(self), name@) is Some {
                bind(env_m(*old(self)), name@, sym@)
            } else {
                env_m(*old(self))
            },
            final(self).blueprints == old(self).blueprints,
        decreases *old(self),
    {
        match scope_index(&self.symbols, name.as_str()) {
            Some(i) => {
                let ghost before = self.symbols@;
                let key = copy_string(name);
                self.symbols.set(i, (key, sym));
                proof {
                    lemma_scope_replace(before, name@, i as int, (key, sym));
                }
                assert(env_m(*self) =~= bind(env_m(*old(self)), name@, sym@));
            },
            None => {
                let p = self.parent.take();
                match p {
                    Some(mut b) => {
                        let ghost bo = *b;
                        (&mut *b).modify(name, sym);
                        let ghost bn = *b;
                        self.parent = Some(b);
                        assert forall|k: Seq<char>| #[trigger] env_get(*self, k) == (if env_get(*old(self), name@) is Some {
                            bind(env_m(*old(self)), name@, sym@)
                        } else {
                            env_m(*old(self))
                        })(k) by {
                            assert(env_m(bn)(k) == env_get(bn, k));
                            assert(env_m(bo)(k) == env_get(bo, k));
                        }
                        assert(env_m(*self) =~= if env_get(*old(self), name@) is Some {
                            bind(env_m(*old(self)), name@, sym@)
                        } else {
                            env_m(*old(self))
                        });
                    },
                    None => {
                        assert(env_m(*self) =~= env_m(*old(self)));
                    },
                }
            },
        }
    }

    /// Replaces the type of the symbol that `name` names, in the innermost scope that has it.
    pub fn modify_ty(&mut self, name: &String, ty: AtomType)
        ensures
            env_m(*final(self)) == match env_get(*old(self), name@) {
                Some(s) => bind(env_m(*old(self)), name@, with_ty(s, ty@)),
                None => env_m(*old(self)),
            },
            final(self).blueprints == old(self).blueprints,
        decreases *old(self),
    {
        match scope_index(&self.symbols, name.as_str()) {
            Some(i) => {
                let ghost before = self.symbols@;
                let key = copy_string(name);
                let old_sym = &self.symbols[i].1;
                let value = match &old_sym.value {
                    Some(l) => Some(l.copy()),
                    None => None,
                };
                let expected = match &old_sym.expected {
                    Some(t) => Some(t.copy()),
                    None => None,
                };
                let sym = Symbol { name: copy_string(&old_sym.name), ty, value, expected };
                self.symbols.set(i, (key, sym));
                proof {
                    lemma_scope_replace(before, name@, i as int, (key, sym));
                }
                assert(env_m(*self) =~= bind(env_m(*old(self)), name@, with_ty(env_get(*old(self), name@)->0, ty@)));
            },
            None => {
                let p = self.parent.take();
                match p {
                    Some(mut b) => {
                        let ghost bo = *b;
                        (&mut *b).modify_ty(name, ty);
                        let ghost bn = *b;
                        self.parent = Some(b);
                        assert forall|k: Seq<char>| #[trigger] env_get(*self, k) == (match env_get(*old(self), name@) {
                            Some(s) => bind(env_m(*old(self)), name@, with_ty(s, ty@)),
                            None => env_m(*old(self)),
                        })(k) by {
                            assert(env_m(bn)(k) == env_get(bn, k));
                            assert(env_m(bo)(k) == env_get(bo, k));
                        }
                        assert(env_m(*self) =~= match env_get(*old(self), name@) {
                            Some(s) => bind(env_m(*old(self)), name@, with_ty(s, ty@)),
                            None => env_m(*old(self)),
                        });
                    },
                    None => {
                        assert(env_m(*self) =~= env_m(*old(self)));
                    },
                }
            },
        }
    }

    /// Binds `sym` under its name in this scope, replacing an earlier symbol of
    /// this scope with that name.
    pub fn add(&mut self, sym: Symbol)
        ensures
            env_m(*final(self)) == bind(env_m(*old(self)), sym.name@, sym@),
            scope_get(final(self).symbols@, sym.name@) == Some(sym@),
            final(self).parent == old(self).parent,
            final(self).blueprints == old(self).blueprints,
    {
        let name = copy_string(&sym.name);
        match scope_index(&self.symbols, name.as_str()) {
            Some(i) => {
                let ghost before = self.symbols@;
                self.symbols.set(i, (name, sym));
                proof {
                    lemma_scope_replace(before, sym.name@, i as int, (name, sym));
                }
            },
            None => {
                let ghost before = self.symbols@;
                self.symbols.push((name, sym));
                proof {
                    lemma_scope_push(before, (name, sym));
                }
            },
        }
        assert(env_m(*self) =~= bind(env_m(*old(self)), sym.name@, sym@));
    }

    /// Binds `name` to a function of type `func` in this scope.
    pub fn push_function(&mut self, name: String, func: FunctionType)
        ensures
            env_m(*final(self)) == bind(
                env_m(*old(self)),
                name@,
                plain_sym(name@, plain_ty(KindV::Function(func@))),
            ),
            final(self).parent == old(self).parent,
            final(self).blueprints == old(self).blueprints,
    {
        let k = AtomKind::Function(func);
        assert(kind_v(k) == KindV::Function(func@));
        let sym = Symbol::plain(name, AtomType::plain(k));
        self.add(sym);
    }

    /// Sets the expected type of the symbol `name` of this scope, where this scope has it.
    pub fn expect(&mut self, name: &String, ty: AtomType)
        ensures
            env_m(*final(self)) == match scope_get(old(self).symbols@, name@) {
                Some(s) => bind(env_m(*old(self)), name@, with_expected(s, ty@)),
                None => env_m(*old(self)),
            },
            final(self).parent == old(self).parent,
            final(self).blueprints == old(self).blueprints,
    {
        match scope_index(&self.symbols, name.as_str()) {
            Some(i) => {
                let ghost before = self.symbols@;
                let key = copy_string(name);
                let old_sym = &self.symbols[i].1;
                let value = match &old_sym.value {
                    Some(l) => Some(l.copy()),
                    None => None,
                };
                let sym = Symbol { name: copy_string(&old_sym.name), ty: old_sym.ty.copy(), value, expected: Some(ty) };
                self.symbols.set(i, (key, sym));
                proof {
                    lemma_scope_replace(before, name@, i as int, (key, sym));
                }
                assert(env_m(*self) =~= bind(env_m(*old(self)), name@, with_expected(scope_get(old(self).symbols@, name@)->0, ty@)));
            },
            None => {
                assert(env_m(*self) =~= env_m(*old(self)));
            },
        }
    }

    /// Whether the symbol `name` may hold a value of type `ty`: it has no
    /// expected type, or its expected type is `ty`.
    pub fn is_expected(&mut self, name: &String, ty: &AtomType) -> (r: bool)
        requires
            env_get(*old(self), name@) is Some,
        ensures
            *final(self) == *old(self),
            r == match env_get(*old(self), name@)->0.expected {
                None => true,
                Some(e) => ty_eq(e, ty@),
            },
    {
        let sym = self.get(name);
        match sym {
            Some(s) => match &s.expected {
                None => true,
                Some(e) => types_equal(e, ty),
            },
            None => false,
        }
    }

    /// The type of the function `name` of this scope, where its first parameter has type `ty`.
    pub fn ty_parent_fn(&self, ty: &AtomType, name: &String) -> (r: Option<AtomType>)
        requires
            scope_get(self.symbols@, name@) matches Some(s) ==> (s.ty.kind matches KindV::Function(f) ==> f.params.len() > 0),
        ensures
            match scope_get(self.symbols@, name@) {
                Some(s) => match s.ty.kind {
                    KindV::Function(f) => if ty_eq(f.params[0], ty@) {
                        r is Some && r->0@ == s.ty
                    } else {
                        r is None
                    },
                    _ => r is None,
                },
                None => r is None,
            },
    {
        match scope_index(&self.symbols, name.as_str()) {
            Some(i) => {
                let sym = &self.symbols[i].1;
                assert(ty_v(sym.ty).kind == kind_v(sym.ty.kind));
                match &sym.ty.kind {
                    AtomKind::Function(f) => {
                        proof {
                            crate::types::lemma_tys_v(f.params@);
                        }
                        if types_equal(&f.params[0], ty) {
                            Some(sym.ty.copy())
                        } else {
                            None
                        }
                    },
                    _ => None,
                }
            },
            None => None,
        }
    }

    /// The function definition named `name`.
    pub fn get_blueprint(&self, name: &String) -> (r: Option<&Blueprint>)
        ensures
            match env_blueprint(*self, name@) {
                Some(b) => r is Some && *r->0 == b,
                None => r is None,
            },
        decreases self,
    {
        let mut i: usize = 0;
        assert(self.blueprints@.subrange(0, self.blueprints@.len() as int) =~= self.blueprints@);
        while i < self.blueprints.len()
            invariant
                i <= self.blueprints.len(),
                first_blueprint(self.blueprints@, name@) == first_blueprint(self.blueprints@.subrange(i as int, self.blueprints@.len() as int), name@),
            decreases self.blueprints.len() - i,
        {
            let ghost rest = self.blueprints@.subrange(i as int, self.blueprints@.len() as int);
            if str_eq(self.blueprints[i].name.val().as_str(), name.as_str()) {
                assert(rest[0] == self.blueprints@[i as int]);
                return Some(&self.blueprints[i]);
            }
            assert(rest.drop_first() =~= self.blueprints@.subrange(i + 1, self.blueprints@.len() as int));
            i = i + 1;
        }
        match &self.parent {
            Some(p) => p.get_blueprint(name),
            None => None,
        }
    }

    /// The outermost scope of the chain, to be changed in place.
    pub fn top(&mut self) -> (r: &mut Enviroment)
        ensures
            *r == env_top(*old(self)),
            *final(self) == with_top(*old(self), *final(r)),
        decreases *old(self),
    {
        if self.parent.is_none() {
            self
        } else {
            match &mut self.parent {
                Some(p) => (**p).top(),
                None => vstd::pervasive::unreached(),
            }
        }
    }
}

} // verus!
