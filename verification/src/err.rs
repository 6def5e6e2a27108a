//! Compile-time errors.
use vstd::prelude::*;
use crate::text::{decimal, push_decimal, push_str};

verus! {

/// The kinds of compile-time errors; each has a numeric code.
#[derive(Debug, Clone, Copy, PartialEq, Eq, Structural)]
pub enum ErrKind {
    UnknownCharE,
    UnexceptedTokenE,
    InvaildType,
    UndeclaredVar,
    VarAlreadyDeclared,
    OperationNotGranted,
    UnexceptedArgs,
    TypeMismatch,
}

/// The numeric code of an error kind: its position in the declaration.
pub open spec fn err_code(k: ErrKind) -> nat {
    match k {
        ErrKind::UnknownCharE => 0,
        ErrKind::UnexceptedTokenE => 1,
        ErrKind::InvaildType => 2,
        ErrKind::UndeclaredVar => 3,
        ErrKind::VarAlreadyDeclared => 4,
        ErrKind::OperationNotGranted => 5,
        ErrKind::UnexceptedArgs => 6,
        ErrKind::TypeMismatch => 7,
    }
}

impl ErrKind {
    /// The numeric code of this kind.
    pub fn code(&self) -> (r: u8)
        ensures
            r == err_code(*self),
    {
        match self {
            ErrKind::UnknownCharE => 0,
            ErrKind::UnexceptedTokenE => 1,
            ErrKind::InvaildType => 2,
            ErrKind::UndeclaredVar => 3,
            ErrKind::VarAlreadyDeclared => 4,
            ErrKind::OperationNotGranted => 5,
            ErrKind::UnexceptedArgs => 6,
            ErrKind::TypeMismatch => 7,
        }
    }
}

/// A compile-time error: its kind, message and position.
#[derive(Debug)]
pub struct ATErr {
    pub kind: ErrKind,
    pub msg: String,
    pub line: u32,
    pub column: u32,
}

/// What an error holds, as plain values.
pub struct ErrInfo {
    pub kind: ErrKind,
    pub msg: Seq<char>,
    pub line: nat,
    pub column: nat,
}

impl View for ATErr {
    type V = ErrInfo;

    open spec fn view(&self) -> ErrInfo {
        ErrInfo { kind: self.kind, msg: self.msg@, line: self.line as nat, column: self.column as nat }
    }
}

/// The views of a sequence of errors.
pub open spec fn errs_view(v: Seq<ATErr>) -> Seq<ErrInfo> {
    v.map_values(|e: ATErr| e@)
}

/// The text that reports an error: its code, message and position, on three lines.
pub open spec fn error_text(kind: ErrKind, msg: Seq<char>, line: nat, column: nat) -> Seq<char> {
    "code:AT00"@ + decimal(err_code(kind)) + "\n"@ + msg + "\nat line:"@ + decimal(line)
        + ", column:"@ + decimal(column)
}

impl ATErr {
    /// The report text of this error.
    pub fn get_error(&self) -> (r: String)
        ensures
            r@ == error_text(self.kind, self.msg@, self.line as nat, self.column as nat),
    {
        let mut r = String::new();
        push_str(&mut r, "code:AT00");
        push_decimal(&mut r, self.kind.code() as u64);
        push_str(&mut r, "\n");
        push_str(&mut r, self.msg.as_str());
        push_str(&mut r, "\nat line:");
        push_decimal(&mut r, self.line as u64);
        push_str(&mut r, ", column:");
        push_decimal(&mut r, self.column as u64);
        r
    }
}

} // verus!
