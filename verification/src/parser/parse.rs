//! The recursive-descent parser.
use vstd::prelude::*;
use super::ast::{
    get_operator_level, ident_nv, idents_nv, lemma_nodes_v, node_debug, node_v, nodes_v, debug_node, Expr, Ident, Literal,
    Node, NodeV, Program, ExprV, IdentNV,
};
use super::grammar::{lemma_body_loop_unfold, lemma_body_s_unfold, lemma_next_s, 
    accepts, arg_ids, body_loop_s, body_s, call_fn_s, cur_s, declare_atom_s, declare_fn_s, declare_s, err_s,
    except_s, expr_s, extern_params_s, extern_s, fn_body_s, ident_text, if_s, index_s, level_loop_s, level_s,
    list_of_s, list_s, lit_s, member_s, next_s, pretty_token, prog_s, rem, ret_s, scoped, spec_s, statement_s, un,
    while_s, ItemFilter, ItemParser, PS, token_pretty,
};
use super::{res_v, Parser};
use crate::err::ErrKind;
use crate::scope::Scope;
use crate::text::{copy_string, from_str, push_decimal, push_str, str_eq};
use crate::token::{Token, TokenV};

verus! {

/// The models of a list of nodes with one more at the end.
proof fn lemma_nodes_push(s: Seq<Node>, n: Node)
    ensures
        nodes_v(s.push(n)) == nodes_v(s).push(node_v(n)),
{
    assert(s.push(n).drop_last() =~= s);
}

/// The shape of a node's model follows the shape of the node.
proof fn lemma_node_shape(n: Node)
    ensures
        (n.expr is Ident) == (n@.expr is Ident),
        (n.expr matches Expr::Ident(Ident::Tagged(_, _))) == (n@.expr matches ExprV::Ident(IdentNV::Tagged(_, _))),
        n.expr matches Expr::Ident(id) ==> n@.expr == ExprV::Ident(ident_nv(id)),
{
    if let Expr::Ident(id) = n.expr {
        assert(n@.expr == ExprV::Ident(ident_nv(id)));
        if let Ident::Tagged(b, v) = id {
            assert(ident_nv(id) == IdentNV::Tagged(Box::new(node_v(*b)), v@));
        } else {
            assert(!(ident_nv(id) is Tagged));
        }
    }
}

impl Parser {
    /// Parses the program: statements up to the end, each added to the
    /// program's body (discarded where its value is not used).
    #[verifier::rlimit(100)]
    pub fn parse_all(&mut self)
        requires
            prog_s(old(self)@) is Some,
        ensures
            prog_s(old(self)@) == Some(final(self)@),
    {
        loop
            invariant
                prog_s(self@) is Some,
                prog_s(old(self)@) == prog_s(self@),
            decreases rem(self@),
        {
            let ghost ps = self@;
            let t = self.current();
            let ghost psc = self@;
            if let Token::EOF = t {
                assert(prog_s(ps) == Some(psc));
                return;
            }
            assert(prog_s(ps) == (match statement_s(psc) {
                None => None,
                Some((s, ps2)) => if rem(ps2) >= rem(ps) {
                    None
                } else {
                    prog_s(match s {
                        Some(n) => PS { body: ps2.body.push(n), ..ps2 },
                        None => ps2,
                    })
                },
            }));
            let s = self.parse_statement();
            let ghost ps2 = self@;
            match s {
                Some(n) => {
                    let ghost b0 = self.program.body@;
                    self.program.body.push(n);
                    proof {
                        lemma_nodes_push(b0, n);
                    }
                    assert(self@ == PS { body: ps2.body.push(n@), ..ps2 });
                },
                None => {},
            }
        }
    }

    /// Parses the program and returns it.
    pub fn parse_prog(self) -> (r: Program)
        requires
            prog_s(self@) is Some,
        ensures
            nodes_v(r.body@) == prog_s(self@)->0.body,
            super::ast::blueprints_nv(r.functions@) == prog_s(self@)->0.functions,
    {
        let mut p = self;
        p.parse_all();
        p.program
    }

    /// Parses a statement at the top scope; one whose value is not used is discarded.
    #[verifier::rlimit(60)]
    fn parse_statement(&mut self) -> (r: Option<Node>)
        requires
            statement_s(old(self)@) is Some,
        ensures
            statement_s(old(self)@) == Some((
                match r {
                    Some(n) => Some(n@),
                    None => None::<NodeV>,
                },
                final(self)@,
            )),
        decreases rem(old(self)@), 7nat, 2nat,
    {
        self.current_scope = Scope::Top;
        match self.parse_level(0) {
            Ok(expr) => {
                if !self.current_scope.is_used() {
                    Some(self.untyped(Expr::Discard(Box::new(expr))))
                } else {
                    Some(expr)
                }
            },
            Err(()) => None,
        }
    }

    /// Parses an expression whose operators bind more strongly than `precedence`.
    pub fn parse_level(&mut self, precedence: u8) -> (r: Result<Node, ()>)
        requires
            level_s(old(self)@, precedence) is Some,
        ensures
            level_s(old(self)@, precedence) == Some((res_v(r), final(self)@)),
        decreases rem(old(self)@), 7nat, 0nat,
    {
        let mut left = self.parse_index()?;
        #[verifier::loop_isolation(false)]
        loop
            invariant
                level_s(old(self)@, precedence) == level_loop_s(self@, left@, precedence),
                level_loop_s(self@, left@, precedence) is Some,
                rem(self@) < rem(old(self)@),
            decreases rem(self@),
        {
            let ghost ps = self@;
            let t = self.current();
            match t {
                Token::Operator(c) => {
                    if str_eq(c.as_str(), "=") {
                        self.next();
                        self.current_scope = Scope::Value;
                        let right = self.parse_level(0)?;
                        left = self.untyped(Expr::VarAssign { name: Box::new(left), val: Box::new(right) });
                        return Ok(left);
                    }
                    let level = get_operator_level(c.as_str());
                    if !(level > precedence) {
                        return Ok(left);
                    }
                    self.next();
                    let right = self.parse_level(level)?;
                    left = self.untyped(Expr::BinaryExpr { op: c, left: Box::new(left), right: Box::new(right) });
                },
                _ => {
                    return Ok(left);
                },
            }
        }
    }

    /// Parses a call, optionally indexed by an expression in braces.
    fn parse_index(&mut self) -> (r: Result<Node, ()>)
        requires
            index_s(old(self)@) is Some,
        ensures
            index_s(old(self)@) == Some((res_v(r), final(self)@)),
        decreases rem(old(self)@), 6nat, 0nat,
    {
        let expr = self.parse_call_fn()?;
        if let Token::LeftBrace = self.current() {
            self.next();
            let index = Box::new(self.parse_level(0)?);
            self.except(Token::RightBrace);
            return Ok(self.untyped(Expr::IndexExpr { parent: Box::new(expr), index }));
        }
        Ok(expr)
    }

    /// Parses a specialised expression, optionally called with `:` and a
    /// list of arguments, or with `!` and none.
    #[verifier::rlimit(60)]
    fn parse_call_fn(&mut self) -> (r: Result<Node, ()>)
        requires
            call_fn_s(old(self)@) is Some,
        ensures
            call_fn_s(old(self)@) == Some((res_v(r), final(self)@)),
        decreases rem(old(self)@), 5nat, 0nat,
    {
        let call = self.parse_spec()?;
        if let Token::Colon = self.current() {
            self.next();
            let args = self.parse_list()?;
            return Ok(self.untyped(Expr::FnCall { name: Box::new(call), args }));
        }
        if let Token::Exec = self.current() {
            self.next();
            return Ok(self.untyped(Expr::FnCall { name: Box::new(call), args: Vec::new() }));
        }
        Ok(call)
    }

    /// Parses a member expression, specialised by a list in parentheses
    /// where it is a name.
    fn parse_spec(&mut self) -> (r: Result<Node, ()>)
        requires
            spec_s(old(self)@) is Some,
        ensures
            spec_s(old(self)@) == Some((res_v(r), final(self)@)),
        decreases rem(old(self)@), 4nat, 0nat,
    {
        let mut left = self.parse_member()?;
        let paren = match self.current() {
            Token::LeftParen => true,
            _ => false,
        };
        if paren && matches!(left.expr, Expr::Ident(_)) {
            self.next();
            let spec = self.parse_list_of(ItemParser::Spec, ItemFilter::Any, Token::RightParen)?;
            left = self.untyped(Expr::SpecExpr { parent: Box::new(left), spec });
            self.except(Token::RightParen);
        }
        Ok(left)
    }

    /// Parses a primary expression, optionally followed by `.` and a member name.
    fn parse_member(&mut self) -> (r: Result<Node, ()>)
        requires
            member_s(old(self)@) is Some,
        ensures
            member_s(old(self)@) == Some((res_v(r), final(self)@)),
        decreases rem(old(self)@), 3nat, 0nat,
    {
        let left = self.parse_expr()?;
        if let Token::Dot = self.current() {
            self.next();
            let right = self.parse_expr()?;
            proof {
                lemma_node_shape(right);
            }
            if matches!(right.expr, Expr::Ident(_)) {
                match right.expr {
                    Expr::Ident(id) => {
                        let child = copy_string(id.val());
                        assert(child@ == ident_text(ident_nv(id)));
                        Ok(self.untyped(Expr::MemberExpr { parent: Box::new(left), child }))
                    },
                    _ => Err(()),
                }
            } else {
                let mut msg = from_str("expected id in member expr got ");
                let d = debug_node(&right);
                push_str(&mut msg, d.as_str());
                self.err(ErrKind::UnexceptedTokenE, msg);
                Ok(self.untyped(Expr::Literal(Literal::Int(0))))
            }
        } else {
            Ok(left)
        }
    }

    /// Parses a comma-separated list of expressions, up to the end of the input.
    fn parse_list(&mut self) -> (r: Result<Vec<Node>, ()>)
        requires
            list_s(old(self)@) is Some,
        ensures
            list_s(old(self)@) == Some((
                match r {
                    Ok(v) => Ok(nodes_v(v@)),
                    Err(()) => Err(()),
                },
                final(self)@,
            )),
        decreases rem(old(self)@), 10nat, 0nat,
    {
        self.parse_list_of(ItemParser::Level, ItemFilter::Any, Token::EOF)
    }

    /// Parses a comma-separated list of items read by `func`: it ends
    /// before `term`, or after an item that no comma follows; an item that
    /// `of` does not accept is an error.
    fn parse_list_of(&mut self, func: ItemParser, of: ItemFilter, term: Token) -> (r: Result<Vec<Node>, ()>)
        requires
            list_of_s(old(self)@, func, of, term@, Seq::empty()) is Some,
        ensures
            list_of_s(old(self)@, func, of, term@, Seq::empty()) == Some((
                match r {
                    Ok(v) => Ok(nodes_v(v@)),
                    Err(()) => Err(()),
                },
                final(self)@,
            )),
        decreases rem(old(self)@), 9nat, 0nat,
    {
        let mut items: Vec<Node> = Vec::new();
        assert(nodes_v(items@) =~= Seq::<NodeV>::empty());
        loop
            invariant
                list_of_s(old(self)@, func, of, term@, Seq::empty()) == list_of_s(self@, func, of, term@, nodes_v(items@)),
                list_of_s(self@, func, of, term@, nodes_v(items@)) is Some,
                rem(self@) <= rem(old(self)@),
            decreases rem(self@),
        {
            let ghost ps = self@;
            let ghost acc = nodes_v(items@);
            let cur = self.current();
            let ghost ps1 = self@;
            if cur.same(&term) {
                assert(list_of_s(ps, func, of, term@, acc) == Some((Ok::<Seq<NodeV>, ()>(acc), ps1)));
                return Ok(items);
            }
            assert(rem(ps1) <= rem(ps));
            let item = match func {
                ItemParser::Level => self.parse_level(0),
                ItemParser::Spec => self.parse_spec(),
                ItemParser::Expr => self.parse_expr(),
            };
            let ghost ps2 = self@;
            let item = match item {
                Ok(n) => n,
                Err(()) => {
                    assert(list_of_s(ps, func, of, term@, acc) == Some((Err::<Seq<NodeV>, ()>(()), ps2)));
                    return Err(());
                },
            };
            proof {
                lemma_node_shape(item);
            }
            let ok = match of {
                ItemFilter::Any => true,
                ItemFilter::TaggedIdent => matches!(item.expr, Expr::Ident(Ident::Tagged(_, _))),
            };
            assert(ok == accepts(of, item@));
            if ok {
                let ghost i0 = items@;
                let ghost iv = item@;
                items.push(item);
                proof {
                    lemma_nodes_push(i0, item);
                }
                assert(nodes_v(items@) == acc.push(iv));
                let c2 = self.current();
                let ghost ps3 = self@;
                let sep = match c2 {
                    Token::Comma => true,
                    _ => false,
                };
                if !sep {
                    assert(list_of_s(ps, func, of, term@, acc) == Some((Ok::<Seq<NodeV>, ()>(acc.push(iv)), ps3)));
                    return Ok(items);
                }
                self.next();
                assert(list_of_s(ps, func, of, term@, acc) == list_of_s(self@, func, of, term@, acc.push(iv)));
            } else {
                let mut msg = from_str("unexpected expr ");
                let d = debug_node(&item);
                push_str(&mut msg, d.as_str());
                self.err(ErrKind::UnexceptedTokenE, msg);
                return Err(());
            }
        }
    }

    /// Parses a literal, a name (with a type expression after `-`), an
    /// expression in parentheses, a list in braces, a `use`, or a keyword's
    /// construct; any other token is reported and skipped.
    #[verifier::rlimit(60)]
    fn parse_expr(&mut self) -> (r: Result<Node, ()>)
        requires
            expr_s(old(self)@) is Some,
        ensures
            expr_s(old(self)@) == Some((res_v(r), final(self)@)),
        decreases rem(old(self)@), 2nat, 0nat,
    {
        let tok = self.current();
        match tok {
            Token::Int(i) => {
                self.next();
                Ok(self.untyped(Expr::Literal(Literal::Int(i))))
            },
            Token::Float(f) => {
                self.next();
                Ok(self.untyped(Expr::Literal(Literal::Float(f))))
            },
            Token::Bool(val) => {
                self.next();
                Ok(self.untyped(Expr::Literal(Literal::Bool(val))))
            },
            Token::Str(s) => {
                self.next();
                Ok(self.untyped(Expr::Literal(Literal::Str(s))))
            },
            Token::Error(_) => Err(()),
            Token::Ident(id) => {
                self.next();
                if let Token::Dash = self.current() {
                    self.next();
                    let tag = self.parse_spec()?;
                    Ok(self.untyped(Expr::Ident(Ident::Tagged(Box::new(tag), id))))
                } else {
                    Ok(self.untyped(Expr::Ident(Ident::UnTagged(id))))
                }
            },
            Token::LeftParen => {
                self.next();
                let expr = self.parse_level(0);
                self.except(Token::RightParen);
                expr
            },
            Token::LeftBrace => {
                self.next();
                let values = self.parse_list()?;
                self.except(Token::RightBrace);
                Ok(self.untyped(Expr::ListExpr(values)))
            },
            Token::UseKw => {
                let t2 = self.next();
                if let Token::Str(path) = t2 {
                    self.current_scope = Scope::Use;
                    self.next();
                    Ok(self.untyped(Expr::Use(path)))
                } else {
                    let tok2 = self.current();
                    let mut msg = from_str("unexcepted token [");
                    let d = pretty_token(&tok2);
                    push_str(&mut msg, d.as_str());
                    push_str(&mut msg, "]");
                    self.err(ErrKind::UnexceptedTokenE, msg);
                    Err(())
                }
            },
            Token::ExternKw => self.parse_extern(),
            Token::SetKw => self.parse_declare(),
            Token::WhileKw => self.parse_while_expr(),
            Token::IfKw => self.parse_if_expr(),
            Token::RetKw => self.parse_ret_expr(),
            _ => {
                let mut msg = from_str("unexcepted token [");
                let d = pretty_token(&tok);
                push_str(&mut msg, d.as_str());
                push_str(&mut msg, "]");
                self.err(ErrKind::UnexceptedTokenE, msg);
                self.next();
                Err(())
            },
        }
    }

    /// Parses an extern declaration: a name with a type expression, `:`,
    /// and a list of parameters, each of which must be a name with a type
    /// expression.
    fn parse_extern(&mut self) -> (r: Result<Node, ()>)
        requires
            extern_s(old(self)@) is Some,
        ensures
            extern_s(old(self)@) == Some((res_v(r), final(self)@)),
        decreases rem(old(self)@), 1nat, 0nat,
    {
        self.next();
        let name = self.parse_expr()?;
        proof {
            lemma_node_shape(name);
        }
        match name.expr {
            Expr::Ident(id) => {
                if let Ident::Tagged(_, _) = id {
                    self.except(Token::Colon);
                    let params = self.parse_list()?;
                    let id_params = self.extern_params(params);
                    Ok(self.untyped(Expr::Extern { name: id, params: id_params }))
                } else {
                    proof {
                        assert(false);
                    }
                    Err(())
                }
            },
            _ => {
                proof {
                    assert(false);
                }
                Err(())
            },
        }
    }

    /// The parameters of an extern declaration: the names with a type
    /// expression among the nodes; each other node is reported.
    fn extern_params(&mut self, params: Vec<Node>) -> (r: Vec<Ident>)
        ensures
            extern_params_s(old(self)@, nodes_v(params@)) == (idents_nv(r@), final(self)@),
    {
        let ghost orig = params@;
        let ghost st0 = self@;
        let mut rest = params;
        let total = rest.len();
        let mut id_params: Vec<Ident> = Vec::new();
        let mut i: usize = 0;
        proof {
            lemma_nodes_v(orig);
            assert(nodes_v(orig).subrange(0, 0) =~= Seq::<NodeV>::empty());
            assert(idents_nv(id_params@) =~= Seq::<IdentNV>::empty());
            assert(rest@ =~= orig.subrange(0, total as int));
        }
        while rest.len() > 0
            invariant
                i + rest@.len() == orig.len(),
                orig.len() <= usize::MAX,
                rest@ == orig.subrange(i as int, orig.len() as int),
                nodes_v(orig).len() == orig.len(),
                forall|j: int| 0 <= j < orig.len() ==> #[trigger] nodes_v(orig)[j] == node_v(orig[j]),
                extern_params_s(st0, nodes_v(orig).subrange(0, i as int)) == (idents_nv(id_params@), self@),
            decreases rest@.len(),
        {
            let node = rest.remove(0);
            assert(node == orig[i as int]);
            let ghost pre = nodes_v(orig).subrange(0, i as int);
            let ghost post = nodes_v(orig).subrange(0, i + 1);
            assert(post.drop_last() =~= pre);
            assert(post.last() == node_v(node));
            proof {
                lemma_node_shape(node);
            }
            let is_tagged = matches!(node.expr, Expr::Ident(Ident::Tagged(_, _)));
            if is_tagged {
                match node.expr {
                    Expr::Ident(id) => {
                        let ghost p0 = id_params@;
                        id_params.push(id);
                        assert(id_params@.drop_last() =~= p0);
                    },
                    _ => {},
                }
            } else {
                let mut msg = from_str("expected a typed id as extern param ");
                push_decimal(&mut msg, i as u64);
                self.err(ErrKind::UnexceptedTokenE, msg);
            }
            assert(rest@ =~= orig.subrange(i + 1, orig.len() as int));
            i = i + 1;
        }
        assert(nodes_v(orig).subrange(0, orig.len() as int) =~= nodes_v(orig));
        id_params
    }

    /// Parses a declaration after `set`: a name, then `=` and a value, or
    /// `[` and the fields of a compound type, or else a function.
    fn parse_declare(&mut self) -> (r: Result<Node, ()>)
        requires
            declare_s(old(self)@) is Some,
        ensures
            declare_s(old(self)@) == Some((res_v(r), final(self)@)),
        decreases rem(old(self)@), 1nat, 0nat,
    {
        self.next();
        let left = self.parse_expr()?;
        self.current_scope = Scope::Value;
        if matches!(left.expr, Expr::Ident(_)) {
            match left.expr {
                Expr::Ident(name) => {
                    let t = self.current();
                    let is_assign = match &t {
                        Token::Operator(o) => str_eq(o.as_str(), "="),
                        _ => false,
                    };
                    if is_assign {
                        self.next();
                        let expr = self.parse_level(0)?;
                        Ok(self.untyped(Expr::VarDeclare { name, val: Box::new(expr) }))
                    } else if let Token::LeftBracket = t {
                        self.parse_declare_atom(name)
                    } else {
                        self.parse_declare_fn(name)
                    }
                },
                _ => Err(()),
            }
        } else {
            let mut msg = from_str("unexcept token in set expression [");
            let d = debug_node(&left);
            push_str(&mut msg, d.as_str());
            push_str(&mut msg, "] excepted an id");
            self.err(ErrKind::UnexceptedTokenE, msg);
            Ok(left)
        }
    }

    /// Parses the fields of a compound type named by an untagged name:
    /// names with type expressions in brackets.
    fn parse_declare_atom(&mut self, name: Ident) -> (r: Result<Node, ()>)
        requires
            declare_atom_s(old(self)@, ident_nv(name)) is Some,
        ensures
            declare_atom_s(old(self)@, ident_nv(name)) == Some((res_v(r), final(self)@)),
        decreases rem(old(self)@), 0nat, 0nat,
    {
        let name = match name {
            Ident::UnTagged(id) => id,
            _ => {
                self.err(
                    ErrKind::UnexceptedTokenE,
                    from_str("expected an untagged id as a name for Atom in Atom declare"),
                );
                return Err(());
            },
        };
        self.next();
        let fields = self.parse_list_of(ItemParser::Expr, ItemFilter::TaggedIdent, Token::RightBracket)?;
        self.except(Token::RightBracket);
        Ok(self.untyped(Expr::AtomDeclare { name, fields }))
    }

    /// Parses a function: its parameters after `:` (or `!` for none) and its
    /// body; it is recorded in the program and stands as its name and
    /// position. Where a parameter is no name, it is reported and an
    /// expression is parsed in the function's place.
    fn parse_declare_fn(&mut self, id: Ident) -> (r: Result<Node, ()>)
        requires
            declare_fn_s(old(self)@, ident_nv(id)) is Some,
        ensures
            declare_fn_s(old(self)@, ident_nv(id)) == Some((res_v(r), final(self)@)),
        decreases rem(old(self)@), 0nat, 0nat,
    {
        let mut id_args: Vec<Ident> = Vec::new();
        if let Token::Colon = self.current() {
            self.next();
            let args = self.parse_list()?;
            let ghost av = nodes_v(args@);
            let all_ids = self.all_idents(&args);
            if !all_ids {
                self.err(ErrKind::UnexceptedArgs, from_str("excepted an id for arg"));
                return self.parse_level(0);
            }
            id_args = take_idents(args);
        } else {
            self.except(Token::Exec);
            assert(idents_nv(id_args@) =~= Seq::<IdentNV>::empty());
        }
        self.parse_fn_body(id, id_args)
    }

    /// Whether each node is a name.
    fn all_idents(&self, args: &Vec<Node>) -> (r: bool)
        ensures
            r == (arg_ids(nodes_v(args@)) is Some),
    {
        proof {
            lemma_nodes_v(args@);
        }
        let mut i: usize = 0;
        while i < args.len()
            invariant
                i <= args@.len(),
                nodes_v(args@).len() == args@.len(),
                forall|j: int| 0 <= j < args@.len() ==> #[trigger] nodes_v(args@)[j] == node_v(args@[j]),
                forall|j: int| 0 <= j < i ==> (#[trigger] nodes_v(args@)[j]).expr is Ident,
            decreases args@.len() - i,
        {
            if !matches!(args[i].expr, Expr::Ident(_)) {
                assert(!(nodes_v(args@)[i as int].expr is Ident));
                return false;
            }
            i = i + 1;
        }
        true
    }

    /// Parses the body of a function named `id` with parameters `id_args`,
    /// records the function, and returns its name and position.
    fn parse_fn_body(&mut self, id: Ident, id_args: Vec<Ident>) -> (r: Result<Node, ()>)
        requires
            fn_body_s(old(self)@, ident_nv(id), idents_nv(id_args@)) is Some,
        ensures
            fn_body_s(old(self)@, ident_nv(id), idents_nv(id_args@)) == Some((res_v(r), final(self)@)),
        decreases rem(old(self)@), 11nat, 0nat,
    {
        let body = self.parse_body();
        let name = copy_string(id.val());
        assert(name@ == ident_text(ident_nv(id)));
        self.push_function(id, id_args, body);
        self.current_scope = Scope::Value;
        let line = self.line;
        let column = self.column;
        Ok(self.untyped(Expr::PosInfo(name, line, column)))
    }

    /// Parses a conditional: the condition, the body, and optionally `else`
    /// with another conditional or a body.
    fn parse_if_expr(&mut self) -> (r: Result<Node, ()>)
        requires
            if_s(old(self)@) is Some,
        ensures
            if_s(old(self)@) == Some((res_v(r), final(self)@)),
        decreases rem(old(self)@), 1nat, 0nat,
    {
        self.next();
        self.current_scope = Scope::Value;
        let condition = self.parse_level(0)?;
        let body = self.parse_body();
        let mut alt: Option<Box<Node>> = None;
        if let Token::ElseKw = self.current() {
            self.next();
            if let Token::IfKw = self.current() {
                alt = Some(Box::new(self.parse_if_expr()?));
            } else {
                let body = self.parse_body();
                alt = Some(Box::new(self.untyped(Expr::Block(body))));
            }
        }
        Ok(self.untyped(Expr::IfExpr { condition: Box::new(condition), body, alt }))
    }

    /// Parses a loop: the condition and the body.
    fn parse_while_expr(&mut self) -> (r: Result<Node, ()>)
        requires
            while_s(old(self)@) is Some,
        ensures
            while_s(old(self)@) == Some((res_v(r), final(self)@)),
        decreases rem(old(self)@), 1nat, 0nat,
    {
        self.next();
        self.current_scope = Scope::Value;
        let condition = self.parse_level(0)?;
        let body = self.parse_body();
        Ok(self.untyped(Expr::WhileExpr { condition: Box::new(condition), body }))
    }

    /// Parses a body: statements in brackets, each discarded where its
    /// value is not used.
    fn parse_body(&mut self) -> (r: Vec<Node>)
        requires
            body_s(old(self)@) is Some,
        ensures
            body_s(old(self)@) == Some((nodes_v(r@), final(self)@)),
        decreases rem(old(self)@), 10nat, 0nat,
    {
        let mut body: Vec<Node> = Vec::new();
        let ghost ps0 = self@;
        self.except(Token::LeftBracket);
        proof {
            lemma_body_s_unfold(ps0);
        }
        assert(nodes_v(body@) =~= Seq::<NodeV>::empty());
        self.parse_body_items(&mut body);
        self.except(Token::RightBracket);
        body
    }

    /// Parses the statements of a body up to `]` or the end, adding each to
    /// `body` (discarded where its value is not used).
    fn parse_body_items(&mut self, body: &mut Vec<Node>)
        requires
            body_loop_s(old(self)@, nodes_v(old(body)@)) is Some,
        ensures
            body_loop_s(old(self)@, nodes_v(old(body)@)) == Some((nodes_v(final(body)@), final(self)@)),
        decreases rem(old(self)@), 9nat, 0nat,
    {
        let ghost ps = self@;
        let ghost acc = nodes_v(body@);
        proof {
            lemma_body_loop_unfold(ps, acc);
        }
        let t = self.current();
        let stop = match t {
            Token::RightBracket => true,
            Token::EOF => true,
            _ => false,
        };
        if stop {
            return;
        }
        match self.parse_statement() {
            Some(n) => {
                let ghost b0 = body@;
                body.push(n);
                proof {
                    lemma_nodes_push(b0, n);
                }
            },
            None => {},
        }
        self.parse_body_items(body);
    }

    /// Parses a return of the expression that follows.
    fn parse_ret_expr(&mut self) -> (r: Result<Node, ()>)
        requires
            ret_s(old(self)@) is Some,
        ensures
            ret_s(old(self)@) == Some((res_v(r), final(self)@)),
        decreases rem(old(self)@), 1nat, 0nat,
    {
        self.next();
        self.current_scope = Scope::Value;
        let expr = self.parse_level(0)?;
        Ok(self.untyped(Expr::RetExpr(Box::new(expr))))
    }
}

/// The names that a list of nodes, all names, holds.
fn take_idents(args: Vec<Node>) -> (r: Vec<Ident>)
    requires
        arg_ids(nodes_v(args@)) is Some,
    ensures
        idents_nv(r@) == arg_ids(nodes_v(args@))->0,
{
    let ghost orig = args@;
    let mut rest = args;
    let total = rest.len();
    let mut out: Vec<Ident> = Vec::new();
    let mut i: usize = 0;
    proof {
        lemma_nodes_v(orig);
        super::ast::lemma_idents_nv(out@);
        assert(rest@ =~= orig.subrange(0, total as int));
    }
    while rest.len() > 0
        invariant
            i + rest@.len() == orig.len(),
            orig.len() <= usize::MAX,
            rest@ == orig.subrange(i as int, orig.len() as int),
            nodes_v(orig).len() == orig.len(),
            forall|j: int| 0 <= j < orig.len() ==> #[trigger] nodes_v(orig)[j] == node_v(orig[j]),
            forall|j: int| 0 <= j < orig.len() ==> (#[trigger] nodes_v(orig)[j]).expr is Ident,
            idents_nv(out@).len() == i,
            forall|j: int| 0 <= j < i ==> #[trigger] idents_nv(out@)[j] == nodes_v(orig)[j].expr->Ident_0,
        decreases rest@.len(),
    {
        let node = rest.remove(0);
        assert(node == orig[i as int]);
        assert(nodes_v(orig)[i as int].expr is Ident);
        match node.expr {
            Expr::Ident(id) => {
                let ghost o0 = out@;
                out.push(id);
                proof {
                    assert(out@.drop_last() =~= o0);
                    super::ast::lemma_idents_nv(out@);
                    super::ast::lemma_idents_nv(o0);
                    assert forall|j: int| 0 <= j < i + 1 implies #[trigger] idents_nv(out@)[j] == nodes_v(orig)[j].expr->Ident_0 by {
                        if j < i {
                            assert(out@[j] == o0[j]);
                        }
                    }
                }
            },
            _ => {},
        }
        assert(rest@ =~= orig.subrange(i + 1, orig.len() as int));
        i = i + 1;
    }
    proof {
        super::ast::lemma_idents_nv(out@);
    }
    assert(idents_nv(out@) =~= arg_ids(nodes_v(orig))->0);
    out
}

} // verus!
