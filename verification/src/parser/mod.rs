//! The parser: reads tokens from the lexer and builds the syntax tree of a
//! program, its top-level statements and its function definitions.
pub mod ast;
pub mod grammar;
pub mod parse;

use vstd::prelude::*;
use self::ast::{blueprints_nv, expr_v, ident_nv, idents_nv, nodes_v, Blueprint, Expr, Ident, Node, NodeV, Program};
use self::grammar::{cur_s, err_s, except_s, next_s, un, debug_token, PS};
use crate::err::{errs_view, ATErr, ErrKind};
use crate::lexer::Lexer;
use crate::scope::Scope;
use crate::text::{push_str};
use crate::token::{Token, TokenV};
use crate::types::{AtomKind, AtomType};

verus! {

/// A parser: the lexer it reads from, the position it reports, the current
/// token, the program built so far, the scope of the expression at hand,
/// and the errors reported.
#[derive(Debug)]
pub struct Parser {
    pub lexer: Lexer,
    pub line: u16,
    pub column: u16,
    pub current_tok: Option<Token>,
    pub program: Program,
    pub current_scope: Scope,
    pub errors: Vec<ATErr>,
}

impl View for Parser {
    type V = PS;

    open spec fn view(&self) -> PS {
        PS {
            lex: self.lexer@,
            line: self.line,
            column: self.column,
            cur: match self.current_tok {
                Some(t) => Some(t@),
                None => None,
            },
            body: nodes_v(self.program.body@),
            functions: blueprints_nv(self.program.functions@),
            scope: self.current_scope,
            errors: errs_view(self.errors@),
        }
    }
}

/// The outcome of a parse as plain values.
pub open spec fn res_v(r: Result<Node, ()>) -> Result<NodeV, ()> {
    match r {
        Ok(n) => Ok(n@),
        Err(()) => Err(()),
    }
}

impl Parser {
    /// A parser at the start of `code`, reporting line 1, column 0, at the
    /// top scope, with an empty program and no errors.
    pub fn new(code: String) -> (r: Self)
        ensures
            r@ == (PS {
                lex: crate::lexer::LexV { code: code@, pos: 0, line: 0, column: 0, errors: Seq::empty() },
                line: 1,
                column: 0,
                cur: None,
                body: Seq::empty(),
                functions: Seq::empty(),
                scope: Scope::Top,
                errors: Seq::empty(),
            }),
    {
        let r = Self {
            lexer: Lexer::new(code),
            line: 1,
            column: 0,
            current_tok: None,
            program: Program { body: Vec::new(), functions: Vec::new() },
            current_scope: Scope::Top,
            errors: Vec::new(),
        };
        assert(nodes_v(r.program.body@) =~= Seq::<NodeV>::empty());
        assert(blueprints_nv(r.program.functions@) =~= Seq::<self::ast::BlueprintNV>::empty());
        assert(errs_view(r.errors@) =~= Seq::<crate::err::ErrInfo>::empty());
        r
    }

    /// Reports an error at the parser's position.
    pub fn err(&mut self, kind: ErrKind, msg: String)
        ensures
            final(self)@ == err_s(old(self)@, kind, msg@),
    {
        let e = ATErr { kind, msg, line: self.line as u32, column: self.column as u32 };
        let ghost before = self.errors@;
        self.errors.push(e);
        assert(errs_view(self.errors@) =~= errs_view(before).push(e@));
    }

    /// Records a function definition in the program.
    pub fn push_function(&mut self, name: Ident, params: Vec<Ident>, body: Vec<Node>)
        ensures
            final(self)@ == (PS {
                functions: old(self)@.functions.push(self::ast::BlueprintNV {
                    name: ident_nv(name),
                    args: idents_nv(params@),
                    body: nodes_v(body@),
                }),
                ..old(self)@
            }),
    {
        let ghost before = self.program.functions@;
        self.program.functions.push(Blueprint { name, args: params, body });
        assert(blueprints_nv(self.program.functions@) =~= blueprints_nv(before).push(
            self::ast::blueprint_nv(Blueprint { name, args: params, body }),
        ));
    }

    /// The current token, read first where there is none yet.
    pub fn current(&mut self) -> (r: Token)
        requires
            cur_s(old(self)@) is Some,
        ensures
            cur_s(old(self)@) == Some((r@, final(self)@)),
            final(self)@.cur == Some(r@),
    {
        if self.current_tok.is_none() {
            self.next();
        }
        match &self.current_tok {
            Some(t) => t.copy(),
            None => Token::EOF,
        }
    }

    /// Reads the next token, which becomes the current one.
    pub fn next(&mut self) -> (r: Token)
        requires
            next_s(old(self)@) is Some,
        ensures
            next_s(old(self)@) == Some((r@, final(self)@)),
            final(self)@.cur == Some(r@),
    {
        reveal(next_s);
        let t = self.lexer.tokenize();
        self.current_tok = Some(t.copy());
        t
    }

    /// Expects the token `tok`: where it is the current one, reads and
    /// returns the next token; else reads the next token, reports an error
    /// and returns an error token.
    pub fn except(&mut self, tok: Token) -> (r: Token)
        requires
            except_s(old(self)@, tok@) is Some,
        ensures
            except_s(old(self)@, tok@) == Some((r@, final(self)@)),
            final(self)@.cur is Some,
    {
        let c = self.current();
        if !c.same(&tok) {
            self.next();
            let mut msg = String::new();
            push_str(&mut msg, "unexcepted token [");
            let d1 = debug_token(&c);
            push_str(&mut msg, d1.as_str());
            push_str(&mut msg, "] excepted [");
            let d2 = debug_token(&tok);
            push_str(&mut msg, d2.as_str());
            push_str(&mut msg, "]");
            self.err(ErrKind::UnexceptedTokenE, msg);
            let t = Token::Error(crate::text::from_str("unexcepted token"));
            t
        } else {
            self.next()
        }
    }

    /// A node of unknown type at the parser's position.
    pub fn untyped(&self, expr: Expr) -> (r: Node)
        ensures
            r@ == un(self@, expr_v(expr)),
    {
        Node { expr, ty: AtomType::plain(AtomKind::Unknown), line: self.line, start: self.column, end: self.column }
    }
}

} // verus!
