//! The intermediate representation: a stack-based instruction list, each
//! instruction with the type of the value it leaves.
use vstd::prelude::*;
use crate::parser::ast::{Ident, Literal, LiteralV};
use crate::types::{ty_v, tys_v, AtomType, TyV};

verus! {

/// A program in the intermediate representation.
#[derive(Debug)]
pub struct Program {
    pub instructions: Vec<Instruction>,
}

/// An operation with the type of its result.
#[derive(Debug)]
pub struct Instruction {
    pub op: IROp,
    pub ty: AtomType,
}

/// The operations.
#[derive(Debug)]
pub enum IROp {
    Import(String, String, Vec<AtomType>),
    Extern(String, Vec<Ident>),
    Def(AtomType, String, Vec<Ident>, Vec<Instruction>),
    Call(u16),
    Ret,
    Add,
    Sub,
    Mul,
    Div,
    Mod,
    Comp,
    EComp,
    Eq,
    And,
    Or,
    Const(Literal),
    /// A list of the element type, each item given by the instructions that
    /// compute it. The items are instructions, each an operation with its
    /// type, as everywhere else in the code generator, which reads the type
    /// of the values it combines; bare operations would carry no type.
    List(AtomType, Vec<Vec<Instruction>>),
    Conv(AtomType),
    Alloc(String),
    Dealloc(String),
    Store(String),
    SetVar,
    Load(String),
    Get,
    LoadProp(String),
    LoadIdx,
    Block(Vec<Instruction>),
    If(Vec<Instruction>, Vec<Instruction>),
    While(Vec<Instruction>),
    Pop,
}

/// An identifier as plain values (a tagged one keeps only its name).
pub enum IdentV {
    Tagged(Seq<char>),
    Typed(TyV, Seq<char>),
    UnTagged(Seq<char>),
}

/// An operation as plain values.
pub enum IROpV {
    Import(Seq<char>, Seq<char>, Seq<TyV>),
    Extern(Seq<char>, Seq<IdentV>),
    Def(TyV, Seq<char>, Seq<IdentV>, Seq<InstrV>),
    Call(u16),
    Ret,
    Add,
    Sub,
    Mul,
    Div,
    Mod,
    Comp,
    EComp,
    Eq,
    And,
    Or,
    Const(LiteralV),
    List(TyV, Seq<Seq<InstrV>>),
    Conv(TyV),
    Alloc(Seq<char>),
    Dealloc(Seq<char>),
    Store(Seq<char>),
    SetVar,
    Load(Seq<char>),
    Get,
    LoadProp(Seq<char>),
    LoadIdx,
    Block(Seq<InstrV>),
    If(Seq<InstrV>, Seq<InstrV>),
    While(Seq<InstrV>),
    Pop,
}

/// An instruction as plain values.
pub struct InstrV {
    pub op: IROpV,
    pub ty: TyV,
}

/// The model of an identifier.
pub open spec fn ident_v(i: Ident) -> IdentV {
    match i {
        Ident::Tagged(_, v) => IdentV::Tagged(v@),
        Ident::Typed(t, v) => IdentV::Typed(t@, v@),
        Ident::UnTagged(v) => IdentV::UnTagged(v@),
    }
}

/// The models of a sequence of identifiers.
pub open spec fn idents_v(s: Seq<Ident>) -> Seq<IdentV> {
    s.map_values(|i: Ident| ident_v(i))
}

/// The model of an instruction.
pub open spec fn instr_v(i: Instruction) -> InstrV
    decreases i,
{
    InstrV { op: op_v(i.op), ty: i.ty@ }
}

/// The model of an operation.
pub open spec fn op_v(o: IROp) -> IROpV
    decreases o,
{
    match o {
        IROp::Import(m, n, ps) => IROpV::Import(m@, n@, tys_v(ps@)),
        IROp::Extern(n, ps) => IROpV::Extern(n@, idents_v(ps@)),
        IROp::Def(t, n, ps, body) => IROpV::Def(t@, n@, idents_v(ps@), instrs_v(body@)),
        IROp::Call(n) => IROpV::Call(n),
        IROp::Ret => IROpV::Ret,
        IROp::Add => IROpV::Add,
        IROp::Sub => IROpV::Sub,
        IROp::Mul => IROpV::Mul,
        IROp::Div => IROpV::Div,
        IROp::Mod => IROpV::Mod,
        IROp::Comp => IROpV::Comp,
        IROp::EComp => IROpV::EComp,
        IROp::Eq => IROpV::Eq,
        IROp::And => IROpV::And,
        IROp::Or => IROpV::Or,
        IROp::Const(l) => IROpV::Const(l@),
        IROp::List(t, items) => IROpV::List(t@, instrss_v(items@)),
        IROp::Conv(t) => IROpV::Conv(t@),
        IROp::Alloc(n) => IROpV::Alloc(n@),
        IROp::Dealloc(n) => IROpV::Dealloc(n@),
        IROp::Store(n) => IROpV::Store(n@),
        IROp::SetVar => IROpV::SetVar,
        IROp::Load(n) => IROpV::Load(n@),
        IROp::Get => IROpV::Get,
        IROp::LoadProp(n) => IROpV::LoadProp(n@),
        IROp::LoadIdx => IROpV::LoadIdx,
        IROp::Block(b) => IROpV::Block(instrs_v(b@)),
        IROp::If(b, a) => IROpV::If(instrs_v(b@), instrs_v(a@)),
        IROp::While(b) => IROpV::While(instrs_v(b@)),
        IROp::Pop => IROpV::Pop,
    }
}

/// The models of a sequence of instructions.
pub open spec fn instrs_v(s: Seq<Instruction>) -> Seq<InstrV>
    decreases s,
{
    if s.len() == 0 {
        Seq::empty()
    } else {
        instrs_v(s.drop_last()).push(instr_v(s.last()))
    }
}

/// The models of a sequence of instruction lists.
pub open spec fn instrss_v(s: Seq<Vec<Instruction>>) -> Seq<Seq<InstrV>>
    decreases s,
{
    if s.len() == 0 {
        Seq::empty()
    } else {
        instrss_v(s.drop_last()).push(instrs_v(s.last()@))
    }
}

impl View for Instruction {
    type V = InstrV;

    open spec fn view(&self) -> InstrV {
        instr_v(*self)
    }
}

/// The models of a sequence of instructions have its length and its elements' models.
pub proof fn lemma_instrs_v(s: Seq<Instruction>)
    ensures
        instrs_v(s).len() == s.len(),
        forall|i: int| 0 <= i < s.len() ==> #[trigger] instrs_v(s)[i] == instr_v(s[i]),
    decreases s.len(),
{
    if s.len() > 0 {
        lemma_instrs_v(s.drop_last());
    }
}

/// The models of a concatenation are the concatenation of the models.
pub proof fn lemma_instrs_v_add(a: Seq<Instruction>, b: Seq<Instruction>)
    ensures
        instrs_v(a + b) == instrs_v(a) + instrs_v(b),
    decreases b.len(),
{
    if b.len() == 0 {
        assert(a + b =~= a);
        assert(instrs_v(b) =~= Seq::<InstrV>::empty());
        assert(instrs_v(a) + instrs_v(b) =~= instrs_v(a));
    } else {
        lemma_instrs_v_add(a, b.drop_last());
        assert((a + b).drop_last() =~= a + b.drop_last());
        assert((a + b).last() == b.last());
        assert(instrs_v(a + b) =~= instrs_v(a) + instrs_v(b));
    }
}

/// The model of a one-element sequence of instructions.
pub proof fn lemma_instrs_v_one(i: Instruction)
    ensures
        instrs_v(seq![i]) == seq![instr_v(i)],
{
    assert(seq![i].drop_last() =~= Seq::<Instruction>::empty());
    assert(instrs_v(Seq::<Instruction>::empty()) =~= Seq::<InstrV>::empty());
    assert(instrs_v(seq![i]) =~= seq![instr_v(i)]);
}

impl Instruction {
    /// An instruction.
    pub fn new(op: IROp, ty: AtomType) -> (r: Self)
        ensures
            r.op == op,
            r.ty == ty,
    {
        Self { op, ty }
    }

    /// A copy of the type of this instruction's result.
    pub fn ty(&self) -> (r: AtomType)
        ensures
            r@ == self.ty@,
    {
        self.ty.copy()
    }
}

} // verus!
