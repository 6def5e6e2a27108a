//! The syntax tree produced by the parser.
use vstd::prelude::*;
use crate::builtins::{str_atom, str_v};
use crate::text::{copy_string, str_eq};
use crate::types::{basic_ty, plain_ty, ty_v, tys_v, AtomKind, AtomType, BasicType, KindV, TyV};

verus! {

/// A literal. A float keeps the digits and the dot as written.
#[derive(Debug)]
pub enum Literal {
    Int(i32),
    Float(String),
    Str(String),
    Bool(bool),
}

/// The type of a literal.
pub open spec fn literal_ty(l: Literal) -> TyV {
    match l {
        Literal::Int(_) => basic_ty(BasicType::Int),
        Literal::Float(_) => basic_ty(BasicType::Float),
        Literal::Str(_) => plain_ty(KindV::Atom(str_v())),
        Literal::Bool(_) => basic_ty(BasicType::Bool),
    }
}

/// A literal as plain values.
pub enum LiteralV {
    Int(i32),
    Float(Seq<char>),
    Str(Seq<char>),
    Bool(bool),
}

impl View for Literal {
    type V = LiteralV;

    open spec fn view(&self) -> LiteralV {
        match self {
            Literal::Int(i) => LiteralV::Int(*i),
            Literal::Float(s) => LiteralV::Float(s@),
            Literal::Str(s) => LiteralV::Str(s@),
            Literal::Bool(b) => LiteralV::Bool(*b),
        }
    }
}

impl Literal {
    /// The type of this literal.
    pub fn get_ty(&self) -> (r: AtomType)
        ensures
            r@ == literal_ty(*self),
    {
        match self {
            Literal::Int(_) => AtomType::basic(BasicType::Int),
            Literal::Float(_) => AtomType::basic(BasicType::Float),
            Literal::Str(_) => {
                let k = AtomKind::Atom(str_atom());
                assert(crate::types::kind_v(k) == KindV::Atom(str_v()));
                AtomType::plain(k)
            },
            Literal::Bool(_) => AtomType::basic(BasicType::Bool),
        }
    }

    /// A copy of this literal.
    pub fn copy(&self) -> (r: Literal)
        ensures
            r@ == self@,
    {
        match self {
            Literal::Int(i) => Literal::Int(*i),
            Literal::Float(s) => Literal::Float(copy_string(s)),
            Literal::Str(s) => Literal::Str(copy_string(s)),
            Literal::Bool(b) => Literal::Bool(*b),
        }
    }
}

/// The binding strength of a binary operator.
pub open spec fn operator_level(op: Seq<char>) -> u8 {
    if op == "&&"@ || op == "||"@ {
        1
    } else if op == "=="@ {
        2
    } else if op == "<"@ || op == ">"@ || op == ">="@ || op == "<="@ {
        3
    } else if op == "+"@ || op == "-"@ {
        4
    } else {
        5
    }
}

/// The binary operators.
pub open spec fn is_binary_op(op: Seq<char>) -> bool {
    op == "&&"@ || op == "||"@ || op == "=="@ || op == "<"@ || op == ">"@ || op == ">="@ || op
        == "<="@ || op == "+"@ || op == "-"@ || op == "*"@ || op == "/"@ || op == "%"@
}

/// The binding strength of a binary operator: `&&` and `||` bind loosest,
/// then `==`, then comparisons, then `+` and `-`, then `*`, `/` and `%`.
pub fn get_operator_level(op: &str) -> (r: u8)
    requires
        is_binary_op(op@),
    ensures
        r == operator_level(op@),
{
    if str_eq(op, "&&") || str_eq(op, "||") {
        1
    } else if str_eq(op, "==") {
        2
    } else if str_eq(op, "<") || str_eq(op, ">") || str_eq(op, ">=") || str_eq(op, "<=") {
        3
    } else if str_eq(op, "+") || str_eq(op, "-") {
        4
    } else {
        5
    }
}

/// An expression.
#[derive(Debug)]
pub enum Expr {
    Use(String),
    Literal(Literal),
    ListExpr(Vec<Node>),
    BinaryExpr { op: String, left: Box<Node>, right: Box<Node> },
    Ident(Ident),
    VarDeclare { name: Ident, val: Box<Node> },
    VarAssign { name: Box<Node>, val: Box<Node> },
    FnCall { name: Box<Node>, args: Vec<Node> },
    Import { module: String, name: String, params: Vec<AtomType> },
    Func { ret: AtomType, name: String, args: Vec<Ident>, body: Vec<Node> },
    Extern { name: Ident, params: Vec<Ident> },
    AtomDeclare { name: String, fields: Vec<Node> },
    IfExpr { condition: Box<Node>, body: Vec<Node>, alt: Option<Box<Node>> },
    WhileExpr { condition: Box<Node>, body: Vec<Node> },
    MemberExpr { parent: Box<Node>, child: String },
    IndexExpr { parent: Box<Node>, index: Box<Node> },
    SpecExpr { parent: Box<Node>, spec: Vec<Node> },
    Discard(Box<Node>),
    Block(Vec<Node>),
    PosInfo(String, u16, u16),
    RetExpr(Box<Node>),
    As(Box<Node>),
}

/// An expression with its type and position.
#[derive(Debug)]
pub struct Node {
    pub expr: Expr,
    pub ty: AtomType,
    pub line: u16,
    pub start: u16,
    pub end: u16,
}

/// A node of unknown type at position zero.
pub fn untyped(expr: Expr) -> (r: Node)
    ensures
        r.expr == expr,
        r.ty@ == plain_ty(KindV::Unknown),
        r.line == 0 && r.start == 0 && r.end == 0,
{
    Node { expr, ty: AtomType::plain(AtomKind::Unknown), line: 0, start: 0, end: 0 }
}

/// A name, with a type expression, with a type, or bare.
#[derive(Debug)]
pub enum Ident {
    Tagged(Box<Node>, String),
    Typed(AtomType, String),
    UnTagged(String),
}

/// The name that an identifier holds.
pub open spec fn ident_name(id: Ident) -> Seq<char> {
    match id {
        Ident::Tagged(_, v) => v@,
        Ident::Typed(_, v) => v@,
        Ident::UnTagged(v) => v@,
    }
}

/// The type of an identifier that is typed or bare: its type, or `any`.
pub open spec fn ident_ty(id: Ident) -> TyV {
    match id {
        Ident::Typed(t, _) => t@,
        _ => plain_ty(KindV::Any),
    }
}

impl Ident {
    /// The name.
    pub fn val(&self) -> (r: &String)
        ensures
            r@ == ident_name(*self),
    {
        match self {
            Ident::Tagged(_, val) => val,
            Ident::UnTagged(val) => val,
            Ident::Typed(_, val) => val,
        }
    }

    /// The name, to be changed in place; the kind of identifier and its type
    /// are kept.
    pub fn val_mut(&mut self) -> (r: &mut String)
        ensures
            *r == match *old(self) {
                Ident::Tagged(_, v) => v,
                Ident::Typed(_, v) => v,
                Ident::UnTagged(v) => v,
            },
            *final(self) == match *old(self) {
                Ident::Tagged(t, _) => Ident::Tagged(t, *final(r)),
                Ident::Typed(t, _) => Ident::Typed(t, *final(r)),
                Ident::UnTagged(_) => Ident::UnTagged(*final(r)),
            },
    {
        match self {
            Ident::Tagged(_, val) => val,
            Ident::UnTagged(val) => val,
            Ident::Typed(_, val) => val,
        }
    }

    /// The type and the name of a typed or bare identifier (bare ones are of type `any`).
    pub fn tuple(self) -> (r: (AtomType, String))
        requires
            !(self is Tagged),
        ensures
            r.0@ == ident_ty(self),
            r.1@ == ident_name(self),
    {
        match self {
            Ident::Typed(ty, val) => (ty, val),
            Ident::UnTagged(val) => (AtomType::plain(AtomKind::Any), val),
            Ident::Tagged(_, val) => (AtomType::plain(AtomKind::Any), val),
        }
    }

    /// The type of a typed or bare identifier (bare ones are of type `any`).
    pub fn ty(&self) -> (r: AtomType)
        requires
            !(self is Tagged),
        ensures
            r@ == ident_ty(*self),
    {
        match self {
            Ident::Typed(ty, _) => ty.copy(),
            _ => AtomType::plain(AtomKind::Any),
        }
    }
}

/// A function definition: its name, its parameters and its body.
#[derive(Debug)]
pub struct Blueprint {
    pub name: Ident,
    pub args: Vec<Ident>,
    pub body: Vec<Node>,
}

/// A parsed program: its top-level expressions and its function definitions.
#[derive(Debug)]
pub struct Program {
    pub body: Vec<Node>,
    pub functions: Vec<Blueprint>,
}

/// A name as plain values.
pub enum IdentNV {
    Tagged(Box<NodeV>, Seq<char>),
    Typed(TyV, Seq<char>),
    UnTagged(Seq<char>),
}

/// An expression as plain values.
pub enum ExprV {
    Use(Seq<char>),
    Literal(LiteralV),
    ListExpr(Seq<NodeV>),
    BinaryExpr { op: Seq<char>, left: Box<NodeV>, right: Box<NodeV> },
    Ident(IdentNV),
    VarDeclare { name: IdentNV, val: Box<NodeV> },
    VarAssign { name: Box<NodeV>, val: Box<NodeV> },
    FnCall { name: Box<NodeV>, args: Seq<NodeV> },
    Import { module: Seq<char>, name: Seq<char>, params: Seq<TyV> },
    Func { ret: TyV, name: Seq<char>, args: Seq<IdentNV>, body: Seq<NodeV> },
    Extern { name: IdentNV, params: Seq<IdentNV> },
    AtomDeclare { name: Seq<char>, fields: Seq<NodeV> },
    IfExpr { condition: Box<NodeV>, body: Seq<NodeV>, alt: Option<Box<NodeV>> },
    WhileExpr { condition: Box<NodeV>, body: Seq<NodeV> },
    MemberExpr { parent: Box<NodeV>, child: Seq<char> },
    IndexExpr { parent: Box<NodeV>, index: Box<NodeV> },
    SpecExpr { parent: Box<NodeV>, spec: Seq<NodeV> },
    Discard(Box<NodeV>),
    Block(Seq<NodeV>),
    PosInfo(Seq<char>, u16, u16),
    RetExpr(Box<NodeV>),
    As(Box<NodeV>),
}

/// A node as plain values.
pub struct NodeV {
    pub expr: ExprV,
    pub ty: TyV,
    pub line: u16,
    pub start: u16,
    pub end: u16,
}

/// The model of a node.
pub open spec fn node_v(n: Node) -> NodeV
    decreases n,
{
    NodeV { expr: expr_v(n.expr), ty: n.ty@, line: n.line, start: n.start, end: n.end }
}

/// The model of an expression.
pub open spec fn expr_v(e: Expr) -> ExprV
    decreases e,
{
    match e {
        Expr::Use(s) => ExprV::Use(s@),
        Expr::Literal(l) => ExprV::Literal(l@),
        Expr::ListExpr(v) => ExprV::ListExpr(nodes_v(v@)),
        Expr::BinaryExpr { op, left, right } => ExprV::BinaryExpr {
            op: op@,
            left: Box::new(node_v(*left)),
            right: Box::new(node_v(*right)),
        },
        Expr::Ident(i) => ExprV::Ident(ident_nv(i)),
        Expr::VarDeclare { name, val } => ExprV::VarDeclare { name: ident_nv(name), val: Box::new(node_v(*val)) },
        Expr::VarAssign { name, val } => ExprV::VarAssign { name: Box::new(node_v(*name)), val: Box::new(node_v(*val)) },
        Expr::FnCall { name, args } => ExprV::FnCall { name: Box::new(node_v(*name)), args: nodes_v(args@) },
        Expr::Import { module, name, params } => ExprV::Import { module: module@, name: name@, params: tys_v(params@) },
        Expr::Func { ret, name, args, body } => ExprV::Func {
            ret: ret@,
            name: name@,
            args: idents_nv(args@),
            body: nodes_v(body@),
        },
        Expr::Extern { name, params } => ExprV::Extern { name: ident_nv(name), params: idents_nv(params@) },
        Expr::AtomDeclare { name, fields } => ExprV::AtomDeclare { name: name@, fields: nodes_v(fields@) },
        Expr::IfExpr { condition, body, alt } => ExprV::IfExpr {
            condition: Box::new(node_v(*condition)),
            body: nodes_v(body@),
            alt: match alt {
                Some(a) => Some(Box::new(node_v(*a))),
                None => None,
            },
        },
        Expr::WhileExpr { condition, body } => ExprV::WhileExpr { condition: Box::new(node_v(*condition)), body: nodes_v(body@) },
        Expr::MemberExpr { parent, child } => ExprV::MemberExpr { parent: Box::new(node_v(*parent)), child: child@ },
        Expr::IndexExpr { parent, index } => ExprV::IndexExpr { parent: Box::new(node_v(*parent)), index: Box::new(node_v(*index)) },
        Expr::SpecExpr { parent, spec } => ExprV::SpecExpr { parent: Box::new(node_v(*parent)), spec: nodes_v(spec@) },
        Expr::Discard(b) => ExprV::Discard(Box::new(node_v(*b))),
        Expr::Block(v) => ExprV::Block(nodes_v(v@)),
        Expr::PosInfo(s, a, b) => ExprV::PosInfo(s@, a, b),
        Expr::RetExpr(b) => ExprV::RetExpr(Box::new(node_v(*b))),
        Expr::As(b) => ExprV::As(Box::new(node_v(*b))),
    }
}

/// The models of a list of nodes.
pub open spec fn nodes_v(s: Seq<Node>) -> Seq<NodeV>
    decreases s,
{
    if s.len() == 0 {
        Seq::empty()
    } else {
        nodes_v(s.drop_last()).push(node_v(s.last()))
    }
}

/// The model of a name.
pub open spec fn ident_nv(i: Ident) -> IdentNV
    decreases i,
{
    match i {
        Ident::Tagged(b, v) => IdentNV::Tagged(Box::new(node_v(*b)), v@),
        Ident::Typed(t, v) => IdentNV::Typed(t@, v@),
        Ident::UnTagged(v) => IdentNV::UnTagged(v@),
    }
}

/// The models of a list of names.
pub open spec fn idents_nv(s: Seq<Ident>) -> Seq<IdentNV>
    decreases s,
{
    if s.len() == 0 {
        Seq::empty()
    } else {
        idents_nv(s.drop_last()).push(ident_nv(s.last()))
    }
}

impl View for Node {
    type V = NodeV;

    open spec fn view(&self) -> NodeV {
        node_v(*self)
    }
}

/// The models of a list of nodes have its length and its elements' models.
pub proof fn lemma_nodes_v(s: Seq<Node>)
    ensures
        nodes_v(s).len() == s.len(),
        forall|i: int| 0 <= i < s.len() ==> #[trigger] nodes_v(s)[i] == node_v(s[i]),
    decreases s.len(),
{
    if s.len() > 0 {
        lemma_nodes_v(s.drop_last());
    }
}

/// The models of a list of names have its length and its elements' models.
pub proof fn lemma_idents_nv(s: Seq<Ident>)
    ensures
        idents_nv(s).len() == s.len(),
        forall|i: int| 0 <= i < s.len() ==> #[trigger] idents_nv(s)[i] == ident_nv(s[i]),
    decreases s.len(),
{
    if s.len() > 0 {
        lemma_idents_nv(s.drop_last());
    }
}

/// The text that the derived `Debug` format gives for a node.
pub uninterp spec fn node_debug(n: NodeV) -> Seq<char>;

/// The debug text of a node: `format!("{:?}", n)` through the derived `Debug`
/// impls. Claimed: the text is `node_debug` of the node's value, so it
/// depends on that value alone. Left unsaid: what the text is; std documents
/// the derived format as unstable.
#[verifier::external_body]
pub(crate) fn debug_node(n: &Node) -> (r: String)
    ensures
        r@ == node_debug(n@),
{
    format!("{:?}", n)
}

/// A function definition as plain values.
pub struct BlueprintNV {
    pub name: IdentNV,
    pub args: Seq<IdentNV>,
    pub body: Seq<NodeV>,
}

/// The model of a function definition.
pub open spec fn blueprint_nv(b: Blueprint) -> BlueprintNV {
    BlueprintNV { name: ident_nv(b.name), args: idents_nv(b.args@), body: nodes_v(b.body@) }
}

/// The models of a list of function definitions.
pub open spec fn blueprints_nv(s: Seq<Blueprint>) -> Seq<BlueprintNV> {
    s.map_values(|b: Blueprint| blueprint_nv(b))
}

} // verus!
