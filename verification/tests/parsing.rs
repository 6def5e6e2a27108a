use covalent::err::ErrKind;
use covalent::parser::ast::{Expr, Ident, Literal};
use covalent::parser::Parser;
use covalent::token::Token;

#[test]
fn declarations_and_functions() {
    let p = Parser::new("set x = 5\nset f: a {\n  ret a\n}\n".to_string());
    let prog = p.parse_prog();
    assert_eq!(prog.body.len(), 2);
    match &prog.body[0].expr {
        Expr::VarDeclare { name, val } => {
            assert_eq!(name.val(), "x");
            assert!(matches!(val.expr, Expr::Literal(Literal::Int(5))));
        },
        other => panic!("unexpected {:?}", other),
    }
    assert!(matches!(&prog.body[1].expr, Expr::PosInfo(n, _, _) if n == "f"));
    assert_eq!(prog.functions.len(), 1);
    assert_eq!(prog.functions[0].name.val(), "f");
    assert_eq!(prog.functions[0].args.len(), 1);
    assert_eq!(prog.functions[0].body.len(), 1);
    assert!(matches!(prog.functions[0].body[0].expr, Expr::RetExpr(_)));
}

#[test]
fn binary_operators_bind_by_level() {
    let p = Parser::new("set y = 1 + 2 * 3".to_string());
    let prog = p.parse_prog();
    match &prog.body[0].expr {
        Expr::VarDeclare { val, .. } => match &val.expr {
            Expr::BinaryExpr { op, left, right } => {
                assert_eq!(op, "+");
                assert!(matches!(left.expr, Expr::Literal(Literal::Int(1))));
                assert!(matches!(&right.expr, Expr::BinaryExpr { op, .. } if op == "*"));
            },
            other => panic!("unexpected {:?}", other),
        },
        other => panic!("unexpected {:?}", other),
    }
}

#[test]
fn unused_values_are_discarded() {
    let p = Parser::new("f: 1, 2".to_string());
    let prog = p.parse_prog();
    assert_eq!(prog.body.len(), 1);
    match &prog.body[0].expr {
        Expr::Discard(inner) => match &inner.expr {
            Expr::FnCall { name, args } => {
                assert!(matches!(&name.expr, Expr::Ident(Ident::UnTagged(n)) if n == "f"));
                assert_eq!(args.len(), 2);
            },
            other => panic!("unexpected {:?}", other),
        },
        other => panic!("unexpected {:?}", other),
    }
}

#[test]
fn unexpected_token_is_reported() {
    let mut p = Parser::new(") 1".to_string());
    p.parse_all();
    assert_eq!(p.errors.len(), 1);
    assert!(matches!(p.errors[0].kind, ErrKind::UnexceptedTokenE));
    assert_eq!(p.program.body.len(), 1);
}

#[test]
fn current_and_next_tokens() {
    let mut p = Parser::new("a b ".to_string());
    assert!(matches!(p.current(), Token::Ident(x) if x == "a"));
    assert!(matches!(p.next(), Token::Ident(x) if x == "b"));
    assert!(matches!(p.next(), Token::EOF));
}

#[test]
fn unexpected_operator_is_shown_in_pretty_form() {
    let mut p = Parser::new("+ 1".to_string());
    p.parse_all();
    assert_eq!(p.errors[0].msg, "unexcepted token [Operator(\n    \"+\",\n)]");
}

#[test]
fn missing_closing_paren_is_reported() {
    let mut p = Parser::new("(1 2".to_string());
    p.parse_all();
    assert_eq!(p.errors[0].msg, "unexcepted token [Int(2)] excepted [RightParen]");
}

#[test]
fn member_of_a_non_name_is_reported() {
    let mut p = Parser::new("a . 1".to_string());
    p.parse_all();
    assert_eq!(p.errors.len(), 1);
    assert!(p.errors[0].msg.starts_with("expected id in member expr got Node {"));
    assert!(p.errors[0].msg.contains("Literal(Int(1))"));
}

#[test]
fn names_change_in_place() {
    let mut id = Ident::UnTagged("f".to_string());
    *id.val_mut() = "f$int".to_string();
    assert!(matches!(&id, Ident::UnTagged(n) if n == "f$int"));
    assert_eq!(id.val(), "f$int");
}
