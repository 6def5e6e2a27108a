//! The C backend: C text for types, an emitter of indented lines, and a
//! module that collects includes, extern declarations and functions.
pub mod outfile;
pub mod codegen;
pub mod gen;
use self::gen::{em_embed, em_end, em_header, em_lines, EmitV};
use vstd::prelude::*;
use crate::builtins::{back_v, list_atom, list_v, spec_atom, str_v};
use crate::parser::ast::{literal_ty, Literal, LiteralV};
use crate::text::{copy_string, from_str, push_str, str_eq};
use crate::typeeq::{atom_eq, atoms_equal};
use crate::types::{kind_v, plain_ty, tys_v, ty_v, AtomKind, AtomType, BasicType, KindV, TyV};

verus! {

/// What emitting an operation gives: several lines, one statement, or nothing.
#[derive(Debug)]
pub enum Emit {
    Body(Vec<String>),
    Line(String),
    Nothing,
}

/// The text of a list of lines.
pub open spec fn lines_v(v: Seq<String>) -> Seq<Seq<char>> {
    v.map_values(|s: String| s@)
}

/// `n` tab characters.
pub open spec fn tabs_of(n: nat) -> Seq<char> {
    Seq::new(n, |i: int| '\t')
}

/// `count` tab characters.
pub fn tabs(count: u32) -> (r: String)
    ensures
        r@ == tabs_of(count as nat),
{
    let mut t = String::new();
    let mut i: u32 = 0;
    while i < count
        invariant
            i <= count,
            t@ == tabs_of(i as nat),
        decreases count - i,
    {
        push_str(&mut t, "\t");
        proof {
            reveal_strlit("\t");
        }
        assert(t@ =~= tabs_of((i + 1) as nat));
        i = i + 1;
    }
    t
}

/// Lines of C under construction, each indented by the current depth.
pub struct Emiter {
    pub body: Vec<String>,
    pub col: u32,
}

impl Emiter {
    /// An emitter with no lines at depth `col`.
    pub fn new(col: u32) -> (r: Self)
        ensures
            r.body@.len() == 0,
            r.col == col,
    {
        Self { body: Vec::new(), col }
    }

    /// One level less deep, unless at the top.
    pub fn sub_col(&mut self)
        ensures
            final(self).body == old(self).body,
            final(self).col == if old(self).col > 0 { old(self).col - 1 } else { 0 },
    {
        if self.col > 0 {
            self.col = self.col - 1;
        }
    }

    /// Adds a line indented to the current depth.
    pub fn line(&mut self, s: &str)
        ensures
            final(self).col == old(self).col,
            lines_v(final(self).body@) == lines_v(old(self).body@).push(tabs_of(old(self).col as nat) + s@),
    {
        let mut l = tabs(self.col);
        push_str(&mut l, s);
        let ghost b0 = self.body@;
        self.body.push(l);
        assert(lines_v(self.body@) =~= lines_v(b0).push(tabs_of(self.col as nat) + s@));
    }

    /// Adds lines, each indented to the current depth.
    pub fn lines(&mut self, lines: Vec<String>)
        ensures
            final(self).col == old(self).col,
            lines_v(final(self).body@) == lines_v(old(self).body@) + lines_v(lines@).map_values(
                |l: Seq<char>| tabs_of(old(self).col as nat) + l,
            ),
            final(self)@ == em_lines(old(self)@, lines_v(lines@)),
    {
        let ghost b0 = lines_v(self.body@);
        let ghost ls = lines_v(lines@);
        let ghost t = tabs_of(self.col as nat);
        let mut i: usize = 0;
        assert(b0 + ls.subrange(0, 0).map_values(|l: Seq<char>| t + l) =~= b0);
        while i < lines.len()
            invariant
                i <= lines@.len(),
                ls == lines_v(lines@),
                t == tabs_of(self.col as nat),
                self.col == old(self).col,
                lines_v(self.body@) == b0 + ls.subrange(0, i as int).map_values(|l: Seq<char>| t + l),
            decreases lines@.len() - i,
        {
            self.line(lines[i].as_str());
            assert(ls.subrange(0, i + 1).map_values(|l: Seq<char>| t + l) =~= ls.subrange(0, i as int).map_values(
                |l: Seq<char>| t + l,
            ).push(t + lines@[i as int]@));
            i = i + 1;
        }
        assert(ls.subrange(0, ls.len() as int) =~= ls);
    }

    /// Adds a statement: the text and a semicolon.
    pub fn emit(&mut self, s: &str)
        ensures
            final(self).col == old(self).col,
            lines_v(final(self).body@) == lines_v(old(self).body@).push(tabs_of(old(self).col as nat) + s@ + ";"@),
            final(self)@ == em_embed(old(self)@, EmitV::Line(s@)),
    {
        let mut l = from_str(s);
        push_str(&mut l, ";");
        let ghost b0 = lines_v(self.body@);
        self.line(l.as_str());
        assert(tabs_of(self.col as nat) + l@ =~= tabs_of(self.col as nat) + s@ + ";"@);
    }

    /// Adds the header of a block and goes one level deeper.
    pub fn emit_header(&mut self, s: &str)
        requires
            old(self).col < u32::MAX,
        ensures
            final(self).col == old(self).col + 1,
            lines_v(final(self).body@) == lines_v(old(self).body@).push(tabs_of(old(self).col as nat) + s@),
            em_header(old(self)@, s@) == Some(final(self)@),
    {
        self.line(s);
        self.col = self.col + 1;
    }

    /// Adds what emitting an operation gave: its lines, its statement, or nothing.
    pub fn embed(&mut self, emit: Emit)
        ensures
            final(self).col == old(self).col,
            lines_v(final(self).body@) == match emit {
                Emit::Body(items) => lines_v(old(self).body@) + lines_v(items@).map_values(
                    |l: Seq<char>| tabs_of(old(self).col as nat) + l,
                ),
                Emit::Line(line) => lines_v(old(self).body@).push(tabs_of(old(self).col as nat) + line@ + ";"@),
                Emit::Nothing => lines_v(old(self).body@),
            },
            final(self)@ == em_embed(old(self)@, emit@),
    {
        match emit {
            Emit::Body(items) => self.lines(items),
            Emit::Line(line) => self.emit(line.as_str()),
            Emit::Nothing => {},
        }
    }

    /// Closes a block: one level less deep, then a closing brace.
    pub fn end(&mut self)
        ensures
            final(self).col == if old(self).col > 0 { old(self).col - 1 } else { 0 },
            lines_v(final(self).body@) == lines_v(old(self).body@).push(tabs_of(final(self).col as nat) + "}"@),
            final(self)@ == em_end(old(self)@),
    {
        self.sub_col();
        self.line("}");
    }

    /// The lines emitted.
    pub fn finish(self) -> (r: Vec<String>)
        ensures
            r == self.body,
    {
        self.body
    }
}

/// A C translation unit under construction: include lines, extern
/// declarations and functions, the first two without repeats.
pub struct Module {
    pub includes: Vec<String>,
    pub externs: Vec<String>,
    pub functions: Vec<Vec<String>>,
    pub col: u32,
}

/// The include line of a header.
pub open spec fn include_line(name: Seq<char>) -> Seq<char> {
    "#include \""@ + name + ".h\""@
}

/// `s` with `x` added at the end, unless it holds `x` already.
pub open spec fn add_once(s: Seq<Seq<char>>, x: Seq<char>) -> Seq<Seq<char>> {
    if s.contains(x) {
        s
    } else {
        s.push(x)
    }
}

/// The lines of several functions, with a line `sep` between two functions.
pub open spec fn join_groups(fs: Seq<Seq<Seq<char>>>, sep: Seq<char>) -> Seq<Seq<char>>
    decreases fs.len(),
{
    if fs.len() == 0 {
        Seq::empty()
    } else if fs.len() == 1 {
        fs[0]
    } else {
        join_groups(fs.drop_last(), sep) + seq![sep] + fs.last()
    }
}

/// Lines joined into one text with `sep` between two lines.
pub open spec fn join_text(ls: Seq<Seq<char>>, sep: Seq<char>) -> Seq<char>
    decreases ls.len(),
{
    if ls.len() == 0 {
        Seq::empty()
    } else if ls.len() == 1 {
        ls[0]
    } else {
        join_text(ls.drop_last(), sep) + sep + ls.last()
    }
}

/// The lines of each function of a module.
pub open spec fn groups_v(fs: Seq<Vec<String>>) -> Seq<Seq<Seq<char>>> {
    fs.map_values(|f: Vec<String>| lines_v(f@))
}

/// Whether a list of strings holds `x`.
fn has_line(v: &Vec<String>, x: &String) -> (r: bool)
    ensures
        r == lines_v(v@).contains(x@),
{
    let mut i: usize = 0;
    while i < v.len()
        invariant
            i <= v@.len(),
            forall|j: int| 0 <= j < i ==> lines_v(v@)[j] != x@,
        decreases v@.len() - i,
    {
        if str_eq(v[i].as_str(), x.as_str()) {
            assert(lines_v(v@)[i as int] == x@);
            return true;
        }
        i = i + 1;
    }
    false
}

impl Module {
    /// An empty module at depth zero.
    pub fn new() -> (r: Self)
        ensures
            r.includes@.len() == 0,
            r.externs@.len() == 0,
            r.functions@.len() == 0,
            r.col == 0,
    {
        Self { includes: Vec::new(), externs: Vec::new(), functions: Vec::new(), col: 0 }
    }

    /// Includes the header `include`, unless it is included already.
    pub fn add_include(&mut self, header: String)
        ensures
            lines_v(final(self).includes@) == add_once(lines_v(old(self).includes@), include_line(header@)),
            final(self).externs == old(self).externs,
            final(self).functions == old(self).functions,
            final(self).col == old(self).col,
    {
        let mut l = String::new();
        push_str(&mut l, "#include \"");
        push_str(&mut l, header.as_str());
        push_str(&mut l, ".h\"");
        assert(l@ =~= include_line(header@));
        if !has_line(&self.includes, &l) {
            let ghost i0 = self.includes@;
            self.includes.push(l);
            assert(lines_v(self.includes@) =~= lines_v(i0).push(l@));
        }
    }

    /// Declares `extern_`, unless it is declared already.
    pub fn extern_add(&mut self, extern_: String)
        ensures
            lines_v(final(self).externs@) == add_once(lines_v(old(self).externs@), extern_@),
            final(self).includes == old(self).includes,
            final(self).functions == old(self).functions,
            final(self).col == old(self).col,
    {
        if !has_line(&self.externs, &extern_) {
            let ghost e0 = self.externs@;
            let ghost x = extern_@;
            self.externs.push(extern_);
            assert(lines_v(self.externs@) =~= lines_v(e0).push(x));
        }
    }

    /// Adds a function, given by its lines.
    pub fn func(&mut self, func: Vec<String>)
        ensures
            final(self).functions@ == old(self).functions@.push(func),
            final(self).includes == old(self).includes,
            final(self).externs == old(self).externs,
            final(self).col == old(self).col,
    {
        self.functions.push(func);
    }

    /// The C text of the module: the includes, the extern declarations and
    /// the functions' lines (an empty line between two functions), one line
    /// after the other; the module is left empty.
    pub fn finish(&mut self) -> (r: String)
        ensures
            r@ == join_text(
                lines_v(old(self).includes@) + lines_v(old(self).externs@) + join_groups(groups_v(old(self).functions@), "\n\n"@),
                "\n"@,
            ),
            final(self).includes@.len() == 0,
            final(self).externs@.len() == 0,
            final(self).functions@.len() == 0,
            final(self).col == old(self).col,
    {
        let ghost inc = lines_v(self.includes@);
        let ghost ext = lines_v(self.externs@);
        let ghost fs = groups_v(self.functions@);
        let mut lines: Vec<String> = Vec::new();
        lines.append(&mut self.includes);
        lines.append(&mut self.externs);
        assert(lines_v(lines@) =~= inc + ext);
        let mut funcs: Vec<Vec<String>> = Vec::new();
        std::mem::swap(&mut funcs, &mut self.functions);
        let mut i: usize = 0;
        let ghost base = inc + ext;
        assert(fs.subrange(0, 0) =~= Seq::<Seq<Seq<char>>>::empty());
        assert(base + join_groups(fs.subrange(0, 0), "\n\n"@) =~= base);
        while i < funcs.len()
            invariant
                i <= funcs@.len(),
                fs == groups_v(funcs@),
                lines_v(lines@) == base + join_groups(fs.subrange(0, i as int), "\n\n"@),
                self.includes@.len() == 0,
                self.externs@.len() == 0,
                self.functions@.len() == 0,
                self.col == old(self).col,
            decreases funcs@.len() - i,
        {
            let ghost before = lines_v(lines@);
            if i > 0 {
                lines.push(from_str("\n\n"));
            }
            let mut j: usize = 0;
            let ghost mid = lines_v(lines@);
            while j < funcs[i].len()
                invariant
                    i < funcs@.len(),
                    j <= funcs@[i as int]@.len(),
                    lines_v(lines@) == mid + lines_v(funcs@[i as int]@).subrange(0, j as int),
                decreases funcs@[i as int]@.len() - j,
            {
                let ghost lb = lines_v(lines@);
                lines.push(copy_string(&funcs[i][j]));
                assert(lines_v(lines@) =~= lb.push(funcs@[i as int]@[j as int]@));
                assert(lines_v(funcs@[i as int]@).subrange(0, j + 1) =~= lines_v(funcs@[i as int]@).subrange(0, j as int).push(
                    funcs@[i as int]@[j as int]@,
                ));
                j = j + 1;
            }
            proof {
                let g = fs.subrange(0, i + 1);
                assert(g.drop_last() =~= fs.subrange(0, i as int));
                assert(g.last() == lines_v(funcs@[i as int]@));
                assert(lines_v(funcs@[i as int]@).subrange(0, funcs@[i as int]@.len() as int) =~= lines_v(funcs@[i as int]@));
                reveal_strlit("\n\n");
                if i == 0 {
                    assert(join_groups(g, "\n\n"@) == g[0]);
                    assert(mid =~= base);
                } else {
                    assert(mid =~= before.push("\n\n"@));
                }
                assert(lines_v(lines@) =~= base + join_groups(g, "\n\n"@));
            }
            i = i + 1;
        }
        assert(fs.subrange(0, fs.len() as int) =~= fs);
        let ghost all = lines_v(lines@);
        let mut code = String::new();
        let mut k: usize = 0;
        assert(all.subrange(0, 0) =~= Seq::<Seq<char>>::empty());
        while k < lines.len()
            invariant
                k <= lines@.len(),
                all == lines_v(lines@),
                code@ == join_text(all.subrange(0, k as int), "\n"@),
            decreases lines@.len() - k,
        {
            if k > 0 {
                push_str(&mut code, "\n");
            }
            push_str(&mut code, lines[k].as_str());
            proof {
                let g = all.subrange(0, k + 1);
                assert(g.drop_last() =~= all.subrange(0, k as int));
                if k == 0 {
                    assert(code@ =~= g[0]);
                }
            }
            k = k + 1;
        }
        assert(all.subrange(0, all.len() as int) =~= all);
        code
    }
}

/// The C text of a type, where the backend has one: `int`, `float`,
/// `_Bool`, `void`, `Obj` for dynamic values, `Str*` for strings, `List*`
/// for lists, and `char*` for a `Back` of strings.
pub open spec fn c_type(t: TyV) -> Option<Seq<char>> {
    match t.kind {
        KindV::Basic(BasicType::Int) => Some("int"@),
        KindV::Basic(BasicType::Float) => Some("float"@),
        KindV::Basic(BasicType::Bool) => Some("_Bool"@),
        KindV::Basic(BasicType::Void) => Some("void"@),
        KindV::Dynamic => Some("Obj"@),
        KindV::Atom(a) => if atom_eq(a, str_v()) {
            Some("Str*"@)
        } else if a.name == list_v().name {
            Some("List*"@)
        } else if a.name == back_v().name && a.generics.len() > 0 && (a.generics[0].1.kind matches KindV::Atom(g)
            && atom_eq(g, str_v())) {
            Some("char*"@)
        } else {
            None
        },
        _ => None,
    }
}

/// The C text of a type the backend knows.
pub fn type_to_c(ty: &AtomType) -> (r: String)
    requires
        c_type(ty@) is Some,
    ensures
        r@ == c_type(ty@)->0,
{
    assert(ty@.kind == kind_v(ty.kind));
    match &ty.kind {
        AtomKind::Basic(BasicType::Int) => from_str("int"),
        AtomKind::Basic(BasicType::Float) => from_str("float"),
        AtomKind::Basic(BasicType::Bool) => from_str("_Bool"),
        AtomKind::Basic(BasicType::Void) => from_str("void"),
        AtomKind::Dynamic => from_str("Obj"),
        AtomKind::Atom(atom) => {
            if atoms_equal(atom, &crate::builtins::str_atom()) {
                from_str("Str*")
            } else if str_eq(atom.name.as_str(), "List") {
                proof {
                    reveal_strlit("List");
                }
                from_str("List*")
            } else {
                proof {
                    reveal_strlit("List");
                    reveal_strlit("Back");
                }
                from_str("char*")
            }
        },
        _ => {
            proof {
                assert(false);
            }
            from_str("void")
        },
    }
}

/// Typed names as a C parameter list: each type's C text, a space and the
/// name, with `, ` between two.
pub open spec fn c_params(tys: Seq<(TyV, Seq<char>)>) -> Seq<char>
    decreases tys.len(),
{
    if tys.len() == 0 {
        Seq::empty()
    } else if tys.len() == 1 {
        c_type(tys[0].0)->0 + " "@ + tys[0].1
    } else {
        c_params(tys.drop_last()) + ", "@ + c_type(tys.last().0)->0 + " "@ + tys.last().1
    }
}

/// The models of typed names.
pub open spec fn named_v(s: Seq<(AtomType, String)>) -> Seq<(TyV, Seq<char>)> {
    s.map_values(|p: (AtomType, String)| (p.0@, p.1@))
}

/// Typed names, of types the backend knows, as a C parameter list.
pub fn types_to_cnamed(tys: Vec<(AtomType, String)>) -> (r: String)
    requires
        forall|j: int| 0 <= j < tys@.len() ==> c_type((#[trigger] tys@[j]).0@) is Some,
    ensures
        r@ == c_params(named_v(tys@)),
{
    let ghost ns = named_v(tys@);
    let mut s = String::new();
    let mut i: usize = 0;
    assert(ns.subrange(0, 0) =~= Seq::<(TyV, Seq<char>)>::empty());
    while i < tys.len()
        invariant
            i <= tys@.len(),
            ns == named_v(tys@),
            forall|j: int| 0 <= j < tys@.len() ==> c_type((#[trigger] tys@[j]).0@) is Some,
            s@ == c_params(ns.subrange(0, i as int)),
        decreases tys@.len() - i,
    {
        if i > 0 {
            push_str(&mut s, ", ");
        }
        let t = type_to_c(&tys[i].0);
        push_str(&mut s, t.as_str());
        push_str(&mut s, " ");
        push_str(&mut s, tys[i].1.as_str());
        proof {
            let g = ns.subrange(0, i + 1);
            assert(g.drop_last() =~= ns.subrange(0, i as int));
            assert(g.last() == ns[i as int]);
            if i == 0 {
                assert(s@ =~= c_params(g));
            } else {
                assert(s@ =~= c_params(g));
            }
        }
        i = i + 1;
    }
    assert(ns.subrange(0, ns.len() as int) =~= ns);
    s
}

/// A value on the stack of the code generator: a constant, a variable, an
/// expression given by its C text, or a list of the given number of items
/// (below it on the stack).
#[derive(Debug)]
pub enum Item {
    Const(Literal),
    Var(AtomType, String),
    Expr(AtomType, String),
    List(AtomType, u16),
}

/// An item as plain values.
pub enum ItemV {
    Const(LiteralV),
    Var(TyV, Seq<char>),
    Expr(TyV, Seq<char>),
    List(TyV, u16),
}

impl View for Item {
    type V = ItemV;

    open spec fn view(&self) -> ItemV {
        match self {
            Item::Const(l) => ItemV::Const(l@),
            Item::Var(t, n) => ItemV::Var(t@, n@),
            Item::Expr(t, e) => ItemV::Expr(t@, e@),
            Item::List(t, n) => ItemV::List(t@, *n),
        }
    }
}

/// The type of a literal model.
pub open spec fn literal_v_ty(l: LiteralV) -> TyV {
    match l {
        LiteralV::Int(_) => crate::types::basic_ty(BasicType::Int),
        LiteralV::Float(_) => crate::types::basic_ty(BasicType::Float),
        LiteralV::Str(_) => plain_ty(KindV::Atom(str_v())),
        LiteralV::Bool(_) => crate::types::basic_ty(BasicType::Bool),
    }
}

/// The type of an item: a list's is `List` of its element type.
pub open spec fn item_ty(i: ItemV) -> TyV {
    match i {
        ItemV::Expr(t, _) => t,
        ItemV::Var(t, _) => t,
        ItemV::List(t, _) => plain_ty(KindV::Atom(spec_atom(list_v(), seq![t]))),
        ItemV::Const(l) => literal_v_ty(l),
    }
}

impl Item {
    /// The type of this item.
    pub fn get_ty(&self) -> (r: AtomType)
        ensures
            r@ == item_ty(self@),
    {
        match self {
            Item::Expr(ty, _) => ty.copy(),
            Item::Var(ty, _) => ty.copy(),
            Item::List(ty, _) => {
                let specs = [ty.copy()];
                proof {
                    assert(specs@.drop_last() =~= Seq::<AtomType>::empty());
                    assert(tys_v(Seq::<AtomType>::empty()) =~= Seq::<TyV>::empty());
                    assert(tys_v(specs@) =~= seq![ty@]);
                }
                let k = AtomKind::Atom(list_atom().spec(&specs));
                assert(kind_v(k) == KindV::Atom(spec_atom(list_v(), seq![ty@])));
                AtomType::plain(k)
            },
            Item::Const(literal) => {
                let t = literal.get_ty();
                assert(literal_ty(*literal) == literal_v_ty(literal@));
                t
            },
        }
    }
}

} // verus!
