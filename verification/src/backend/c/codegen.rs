//! The state of the C code generator: a stack of values, the variables it
//! has redeclared, and the module it writes.
use vstd::prelude::*;
use super::{c_type, groups_v, lines_v, tabs_of, Emiter, Item, ItemV, Module};
use crate::parser::ast::{Literal, LiteralV};
use crate::text::{copy_string, decimal, from_str, push_char, push_decimal, push_str};
use crate::types::{AtomType, TyV};

verus! {

/// The C text of an integer, with a minus sign where it is negative.
pub open spec fn int_text(i: int) -> Seq<char> {
    if i < 0 {
        "-"@ + decimal((-i) as nat)
    } else {
        decimal(i as nat)
    }
}

/// The C text of a constant: the number, the digits of a float as written,
/// a new string built from the text, or `1`/`0` for a boolean.
pub open spec fn const_text(l: LiteralV) -> Seq<char> {
    match l {
        LiteralV::Int(i) => int_text(i as int),
        LiteralV::Float(s) => s,
        LiteralV::Str(s) => "__strnew__(\""@ + s + "\")"@,
        LiteralV::Bool(b) => if b { "1"@ } else { "0"@ },
    }
}

/// Texts joined with `, ` between two.
pub open spec fn comma_join(ls: Seq<Seq<char>>) -> Seq<char>
    decreases ls.len(),
{
    if ls.len() == 0 {
        Seq::empty()
    } else if ls.len() == 1 {
        ls[0]
    } else {
        comma_join(ls.drop_last()) + ", "@ + ls.last()
    }
}

/// A value taken off a stack as C text, and the stack left.
pub struct Popped {
    pub text: Seq<char>,
    pub rest: Seq<ItemV>,
}

/// Values taken off a stack as C text, and the stack left.
pub struct PoppedN {
    pub texts: Seq<Seq<char>>,
    pub rest: Seq<ItemV>,
}

/// Taking the top value off a stack as C text: a constant's text, a
/// variable's name, an expression's text, or for a list of `n` items the
/// call that builds it from the `n` values below it (the deepest first);
/// none where the stack runs out or an element type has no C text.
pub open spec fn pop_text(st: Seq<ItemV>) -> Option<Popped>
    decreases st.len(), 0nat, 0nat,
{
    if st.len() == 0 {
        None
    } else {
        let rest = st.drop_last();
        match st.last() {
            ItemV::Const(c) => Some(Popped { text: const_text(c), rest: rest }),
            ItemV::Var(_, n) => Some(Popped { text: n, rest: rest }),
            ItemV::Expr(_, e) => Some(Popped { text: e, rest: rest }),
            ItemV::List(ty, size) => match pop_texts(rest, size as nat) {
                None => None,
                Some(p) => match c_type(ty) {
                    None => None,
                    Some(tc) => Some(Popped {
                        text: "__listnew__(sizeof("@ + tc + "), "@ + decimal(size as nat) + ", "@ + comma_join(p.texts.reverse()) + ")"@,
                        rest: p.rest,
                    }),
                },
            },
        }
    }
}

/// Taking `n` values off a stack as C text, the top one first.
pub open spec fn pop_texts(st: Seq<ItemV>, n: nat) -> Option<PoppedN>
    decreases st.len(), 1nat, n,
{
    if n == 0 {
        Some(PoppedN { texts: Seq::empty(), rest: st })
    } else {
        match pop_text(st) {
            None => None,
            Some(p) => if p.rest.len() > st.len() {
                None
            } else {
                match pop_texts(p.rest, (n - 1) as nat) {
                    None => None,
                    Some(q) => Some(PoppedN { texts: seq![p.text] + q.texts, rest: q.rest }),
                }
            },
        }
    }
}

/// Taking values off a stack leaves a shorter stack, and `n` texts for `n` values.
pub proof fn lemma_pop_shrinks(st: Seq<ItemV>, n: nat)
    ensures
        pop_text(st) matches Some(p) ==> p.rest.len() < st.len(),
        pop_texts(st, n) matches Some(q) ==> q.rest.len() <= st.len() && q.texts.len() == n,
    decreases st.len(), n,
{
    if st.len() > 0 {
        if let ItemV::List(ty, size) = st.last() {
            lemma_pop_shrinks(st.drop_last(), size as nat);
        }
    }
    if n > 0 {
        if let Some(p) = pop_text(st) {
            if st.len() > 0 {
                if let ItemV::List(ty, size) = st.last() {
                    lemma_pop_shrinks(st.drop_last(), size as nat);
                }
            }
            lemma_pop_shrinks(p.rest, (n - 1) as nat);
        }
    }
}

/// A variable the generator has (re)declared: its name, how often it was
/// redeclared, and its type.
pub struct VarV {
    pub name: Seq<char>,
    pub count: i32,
    pub ty: TyV,
}

/// An entry of the generator's variables.
pub struct VarEntry {
    pub name: String,
    pub count: i32,
    pub ty: AtomType,
}

/// The index of the entry for `name`: the last one with that name.
pub open spec fn var_index(vars: Seq<VarV>, name: Seq<char>) -> Option<int>
    decreases vars.len(),
{
    if vars.len() == 0 {
        None
    } else if vars.last().name == name {
        Some(vars.len() - 1)
    } else {
        var_index(vars.drop_last(), name)
    }
}

/// The C name of variable `name`: its name where it was never redeclared,
/// else its name followed by the number of redeclarations.
pub open spec fn c_var_name(vars: Seq<VarV>, name: Seq<char>) -> Seq<char> {
    match var_index(vars, name) {
        None => name,
        Some(i) => if vars[i].count == 0 {
            name
        } else {
            name + int_text(vars[i].count as int)
        },
    }
}

/// The variables after (re)declaring `name` with type `ty`: a new entry
/// with count zero, or the entry's count raised by one and its type replaced.
pub open spec fn redeclared(vars: Seq<VarV>, name: Seq<char>, ty: TyV) -> Seq<VarV> {
    match var_index(vars, name) {
        None => vars.push(VarV { name: name, count: 0i32, ty: ty }),
        Some(i) => vars.update(i, VarV { name: name, count: (vars[i].count + 1) as i32, ty: ty }),
    }
}

/// The models of the generator's variables.
pub open spec fn vars_v(v: Seq<VarEntry>) -> Seq<VarV> {
    v.map_values(|e: VarEntry| VarV { name: e.name@, count: e.count, ty: e.ty@ })
}

/// The state of the generator as plain values.
pub struct CgV {
    pub stack: Seq<ItemV>,
    pub vars: Seq<VarV>,
    pub includes: Seq<Seq<char>>,
    pub externs: Seq<Seq<char>>,
    pub functions: Seq<Seq<Seq<char>>>,
    pub col: u32,
}

/// The generator: a stack that simulates the stack machine of the
/// intermediate representation, the variables it has redeclared, and the
/// module it writes.
pub struct Codegen {
    pub stack: Vec<Item>,
    pub variables: Vec<VarEntry>,
    pub module: Module,
}

/// The models of a stack.
pub open spec fn items_v(s: Seq<Item>) -> Seq<ItemV> {
    s.map_values(|i: Item| i@)
}

impl View for Codegen {
    type V = CgV;

    open spec fn view(&self) -> CgV {
        CgV {
            stack: items_v(self.stack@),
            vars: vars_v(self.variables@),
            includes: lines_v(self.module.includes@),
            externs: lines_v(self.module.externs@),
            functions: groups_v(self.module.functions@),
            col: self.module.col,
        }
    }
}

/// Appends the C text of an integer.
fn push_int(s: &mut String, i: i32)
    ensures
        final(s)@ == old(s)@ + int_text(i as int),
{
    if i < 0 {
        push_char(s, '-');
        let v: i64 = i as i64;
        let m: u64 = (-v) as u64;
        push_decimal(s, m);
        assert(final(s)@ =~= old(s)@ + int_text(i as int)) by {
            reveal_strlit("-");
        }
    } else {
        push_decimal(s, i as u64);
    }
}

/// Appends the C text of a constant.
fn push_const(s: &mut String, l: &Literal)
    ensures
        final(s)@ == old(s)@ + const_text(l@),
{
    let ghost s0 = s@;
    match l {
        Literal::Int(i) => push_int(s, *i),
        Literal::Float(f) => push_str(s, f.as_str()),
        Literal::Str(t) => {
            push_str(s, "__strnew__(\"");
            push_str(s, t.as_str());
            push_str(s, "\")");
            assert(s@ =~= s0 + ("__strnew__(\""@ + t@ + "\")"@));
        },
        Literal::Bool(b) => {
            if *b {
                push_str(s, "1");
            } else {
                push_str(s, "0");
            }
        },
    }
}

impl Codegen {
    /// A generator with an empty stack, no variables and an empty module.
    pub fn new() -> (r: Self)
        ensures
            r@.stack.len() == 0,
            r@.vars.len() == 0,
            r@.includes.len() == 0,
            r@.externs.len() == 0,
            r@.functions.len() == 0,
            r@.col == 0,
    {
        Self { stack: Vec::new(), variables: Vec::new(), module: Module::new() }
    }

    /// Pushes a value.
    pub fn push(&mut self, item: Item)
        ensures
            final(self)@ == (CgV { stack: old(self)@.stack.push(item@), ..old(self)@ }),
    {
        let ghost s0 = self.stack@;
        self.stack.push(item);
        assert(items_v(self.stack@) =~= items_v(s0).push(item@));
    }

    /// The top value.
    pub fn borrow(&self) -> (r: &Item)
        requires
            self@.stack.len() > 0,
        ensures
            r@ == self@.stack.last(),
    {
        self.stack.last().unwrap()
    }

    /// Takes the top value off the stack.
    pub fn pop(&mut self) -> (r: Item)
        requires
            old(self)@.stack.len() > 0,
        ensures
            r@ == old(self)@.stack.last(),
            final(self)@ == (CgV { stack: old(self)@.stack.drop_last(), ..old(self)@ }),
    {
        let ghost s0 = self.stack@;
        let r = self.stack.pop().unwrap();
        assert(items_v(self.stack@) =~= items_v(s0).drop_last());
        r
    }

    /// Takes the top value off the stack as C text.
    pub fn pop_str(&mut self) -> (r: String)
        requires
            pop_text(old(self)@.stack) is Some,
        ensures
            r@ == pop_text(old(self)@.stack).unwrap().text,
            final(self)@ == (CgV { stack: pop_text(old(self)@.stack).unwrap().rest, ..old(self)@ }),
        decreases old(self)@.stack.len(), 0nat, 0nat,
    {
        let item = self.pop();
        match item {
            Item::Const(con) => {
                let mut s = String::new();
                push_const(&mut s, &con);
                assert(s@ =~= const_text(con@));
                s
            },
            Item::Var(_, name) => name,
            Item::Expr(_, expr) => expr,
            Item::List(ty, size) => {
                proof {
                    lemma_pop_shrinks(self@.stack, size as nat);
                }
                let popped = self.pop_amount(size);
                let ghost its = lines_v(popped@);
                let items = reversed(&popped);
                let mut s = String::new();
                push_str(&mut s, "__listnew__(sizeof(");
                let tc = super::type_to_c(&ty);
                push_str(&mut s, tc.as_str());
                push_str(&mut s, "), ");
                push_decimal(&mut s, size as u64);
                push_str(&mut s, ", ");
                let joined = join_comma(&items);
                push_str(&mut s, joined.as_str());
                push_str(&mut s, ")");
                assert(s@ =~= "__listnew__(sizeof("@ + tc@ + "), "@ + decimal(size as nat) + ", "@ + comma_join(its.reverse()) + ")"@);
                s
            },
        }
    }

    /// Takes `count` values off the stack as C text, the top one first.
    pub fn pop_amount(&mut self, count: u16) -> (r: Vec<String>)
        requires
            pop_texts(old(self)@.stack, count as nat) is Some,
        ensures
            lines_v(r@) == pop_texts(old(self)@.stack, count as nat).unwrap().texts,
            final(self)@ == (CgV { stack: pop_texts(old(self)@.stack, count as nat).unwrap().rest, ..old(self)@ }),
        decreases old(self)@.stack.len(), 1nat, count,
    {
        let mut results: Vec<String> = Vec::new();
        let ghost st0 = self@.stack;
        let mut i: u16 = 0;
        proof {
            lemma_pop_texts_prefix(st0, count as nat, 0);
            assert(lines_v(results@) =~= Seq::<Seq<char>>::empty());
        }
        while i < count
            invariant
                i <= count,
                pop_texts(st0, count as nat) is Some,
                pop_texts(st0, i as nat) matches Some(q) && lines_v(results@) == q.texts && self@.stack == q.rest
                    && pop_texts(q.rest, (count - i) as nat) is Some,
                self@.vars == old(self)@.vars,
                self@.includes == old(self)@.includes,
                self@.externs == old(self)@.externs,
                self@.functions == old(self)@.functions,
                self@.col == old(self)@.col,
                st0 == old(self)@.stack,
                st0.len() <= old(self)@.stack.len(),
            decreases count - i,
        {
            proof {
                lemma_pop_shrinks(self@.stack, (count - i) as nat);
                lemma_pop_shrinks(st0, i as nat);
                lemma_pop_texts_step(st0, i as nat);
            }
            let ghost r0 = lines_v(results@);
            let s = self.pop_str();
            results.push(s);
            assert(lines_v(results@) =~= r0.push(s@));
            i = i + 1;
        }
        proof {
            lemma_pop_texts_prefix(st0, count as nat, count as nat);
        }
        results
    }

    /// The C name of variable `name`.
    pub fn get_var(&self, name: String) -> (r: String)
        ensures
            r@ == c_var_name(self@.vars, name@),
    {
        match find_var(&self.variables, &name) {
            None => name,
            Some(i) => {
                let count = self.variables[i].count;
                if count == 0 {
                    name
                } else {
                    let mut n = name;
                    push_int(&mut n, count);
                    n
                }
            },
        }
    }

    /// (Re)declares variable `name` with type `ty` and returns its C name.
    pub fn var(&mut self, name: String, ty: AtomType) -> (r: String)
        requires
            var_index(old(self)@.vars, name@) matches Some(i) ==> old(self)@.vars[i].count < i32::MAX,
        ensures
            final(self)@ == (CgV { vars: redeclared(old(self)@.vars, name@, ty@), ..old(self)@ }),
            r@ == c_var_name(final(self)@.vars, name@),
    {
        let ghost v0 = self@.vars;
        match find_var(&self.variables, &name) {
            None => {
                let ghost raw = self.variables@;
                let ghost tv = ty@;
                self.variables.push(VarEntry { name: copy_string(&name), count: 0, ty });
                assert(vars_v(self.variables@) =~= vars_v(raw).push(VarV { name: name@, count: 0i32, ty: tv }));
                proof {
                    lemma_var_index_last(vars_v(self.variables@), name@);
                }
                name
            },
            Some(i) => {
                let count = self.variables[i].count + 1;
                let ghost raw = self.variables@;
                let ghost tv = ty@;
                self.variables.set(i, VarEntry { name: copy_string(&name), count, ty });
                let ghost e = VarV { name: name@, count: count, ty: tv };
                assert(vars_v(self.variables@) =~= vars_v(raw).update(i as int, e));
                proof {
                    lemma_var_index_update(vars_v(raw), name@, i as int, e);
                }
                self.get_var(name)
            },
        }
    }

    /// An emitter at the module's depth.
    pub fn emiter(&self) -> (r: Emiter)
        ensures
            r.body@.len() == 0,
            r.col == self@.col,
    {
        Emiter::new(self.module.col)
    }
}

/// Popping `i + 1` values is popping `i` and then one more.
proof fn lemma_pop_texts_step(st: Seq<ItemV>, i: nat)
    requires
        pop_texts(st, i) matches Some(q) && pop_text(q.rest) is Some,
    ensures
        ({
            let q = pop_texts(st, i).unwrap();
            let p = pop_text(q.rest).unwrap();
            pop_texts(st, i + 1) == Some(PoppedN { texts: q.texts.push(p.text), rest: p.rest })
        }),
    decreases i,
{
    lemma_pop_shrinks(st, 0);
    if i > 0 {
        let p0 = pop_text(st).unwrap();
        lemma_pop_shrinks(p0.rest, (i - 1) as nat);
        lemma_pop_texts_step(p0.rest, (i - 1) as nat);
        let q1 = pop_texts(p0.rest, (i - 1) as nat).unwrap();
        let p = pop_text(q1.rest).unwrap();
        assert((seq![p0.text] + q1.texts).push(p.text) =~= seq![p0.text] + q1.texts.push(p.text));
    } else {
        let p = pop_text(st).unwrap();
        lemma_pop_shrinks(p.rest, 0);
        assert(seq![p.text] + Seq::<Seq<char>>::empty() =~= Seq::<Seq<char>>::empty().push(p.text));
    }
}

/// Where `n` values can be popped, so can fewer, and what is left can give the rest.
proof fn lemma_pop_texts_prefix(st: Seq<ItemV>, n: nat, i: nat)
    requires
        pop_texts(st, n) is Some,
        i <= n,
    ensures
        pop_texts(st, i) matches Some(q) && pop_texts(q.rest, (n - i) as nat) is Some
            && pop_texts(q.rest, (n - i) as nat).unwrap().rest == pop_texts(st, n).unwrap().rest,
    decreases i,
{
    if i > 0 {
        lemma_pop_shrinks(st, 0);
        let p = pop_text(st).unwrap();
        lemma_pop_texts_prefix(p.rest, (n - 1) as nat, (i - 1) as nat);
    }
}

/// The texts in reverse order.
fn reversed(v: &Vec<String>) -> (r: Vec<String>)
    ensures
        lines_v(r@) == lines_v(v@).reverse(),
{
    let ghost ls = lines_v(v@);
    let mut r: Vec<String> = Vec::new();
    let mut i: usize = v.len();
    assert(lines_v(r@) =~= ls.subrange(i as int, ls.len() as int).reverse());
    while i > 0
        invariant
            i <= v@.len(),
            ls == lines_v(v@),
            lines_v(r@) == ls.subrange(i as int, ls.len() as int).reverse(),
        decreases i,
    {
        let ghost r0 = lines_v(r@);
        r.push(copy_string(&v[i - 1]));
        assert(lines_v(r@) =~= r0.push(ls[i - 1]));
        assert(ls.subrange(i - 1, ls.len() as int).reverse() =~= ls.subrange(i as int, ls.len() as int).reverse().push(ls[i - 1]));
        i = i - 1;
    }
    assert(ls.subrange(0, ls.len() as int) =~= ls);
    r
}

/// Texts joined with `, ` between two.
pub(crate) fn join_comma(v: &Vec<String>) -> (r: String)
    ensures
        r@ == comma_join(lines_v(v@)),
{
    let ghost ls = lines_v(v@);
    let mut s = String::new();
    let mut i: usize = 0;
    assert(ls.subrange(0, 0) =~= Seq::<Seq<char>>::empty());
    while i < v.len()
        invariant
            i <= v@.len(),
            ls == lines_v(v@),
            s@ == comma_join(ls.subrange(0, i as int)),
        decreases v@.len() - i,
    {
        if i > 0 {
            push_str(&mut s, ", ");
        }
        push_str(&mut s, v[i].as_str());
        proof {
            let g = ls.subrange(0, i + 1);
            assert(g.drop_last() =~= ls.subrange(0, i as int));
            if i == 0 {
                assert(s@ =~= g[0]);
            }
        }
        i = i + 1;
    }
    assert(ls.subrange(0, ls.len() as int) =~= ls);
    s
}

/// The index of the entry for `name` among the generator's variables.
pub(crate) fn find_var(vars: &Vec<VarEntry>, name: &String) -> (r: Option<usize>)
    ensures
        r is None <==> var_index(vars_v(vars@), name@) is None,
        r matches Some(j) ==> var_index(vars_v(vars@), name@) == Some(j as int) && j < vars@.len()
            && vars@[j as int].name@ == name@,
{
    proof {
        lemma_var_index_bounds(vars_v(vars@), name@);
    }
    let ghost vs = vars_v(vars@);
    let mut i: usize = vars.len();
    assert(vs.subrange(0, i as int) =~= vs);
    while i > 0
        invariant
            i <= vars@.len(),
            vs == vars_v(vars@),
            var_index(vs, name@) == var_index(vs.subrange(0, i as int), name@),
        decreases i,
    {
        let ghost sub = vs.subrange(0, i as int);
        if crate::text::str_eq(vars[i - 1].name.as_str(), name.as_str()) {
            assert(sub.last() == vs[i - 1]);
            return Some(i - 1);
        }
        assert(sub.drop_last() =~= vs.subrange(0, i - 1));
        i = i - 1;
    }
    None
}

/// The entry found for `name` is one of the list, and is named `name`.
pub proof fn lemma_var_index_bounds(vars: Seq<VarV>, name: Seq<char>)
    ensures
        var_index(vars, name) matches Some(i) ==> 0 <= i < vars.len() && vars[i].name == name,
    decreases vars.len(),
{
    if vars.len() > 0 && vars.last().name != name {
        lemma_var_index_bounds(vars.drop_last(), name);
    }
}

/// After a new entry for `name` at the end, it is the one found.
proof fn lemma_var_index_last(vars: Seq<VarV>, name: Seq<char>)
    requires
        vars.len() > 0,
        vars.last().name == name,
    ensures
        var_index(vars, name) == Some(vars.len() - 1),
{
}

/// Replacing the entry found for `name` by another entry for `name` keeps it the one found.
proof fn lemma_var_index_update(vars: Seq<VarV>, name: Seq<char>, i: int, e: VarV)
    requires
        var_index(vars, name) == Some(i),
        e.name == name,
    ensures
        var_index(vars.update(i, e), name) == Some(i),
    decreases vars.len(),
{
    lemma_var_index_bounds(vars, name);
    if i < vars.len() - 1 {
        lemma_var_index_update(vars.drop_last(), name, i, e);
        assert(vars.update(i, e).drop_last() =~= vars.drop_last().update(i, e));
    }
}

} // verus!
