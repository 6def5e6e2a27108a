use covalent::source::{const_equal, Blueprint, ConstType, Enviroment, Ident};

fn name(s: &str) -> String {
    s.to_string()
}

#[test]
fn early_scope_add_and_lookup() {
    let mut env = Enviroment::new(None);
    assert!(!env.has(&name("x")));
    env.add(&name("x"), ConstType::Int);
    assert!(matches!(env.get_ty(&name("x")), Some(ConstType::Int)));
    env.add(&name("x"), ConstType::Float);
    assert!(matches!(env.get_ty(&name("x")), Some(ConstType::Float)));
    assert_eq!(env.vars.len(), 1);
}

#[test]
fn early_scopes_nest() {
    let mut env = Enviroment::new(None);
    env.add(&name("x"), ConstType::Int);
    env.child();
    assert!(env.has(&name("x")));
    env.add(&name("y"), ConstType::Str);
    env.modify(&name("x"), ConstType::Bool);
    assert!(env.parent());
    assert!(!env.has(&name("y")));
    assert!(matches!(env.get_ty(&name("x")), Some(ConstType::Int)));
    env.modify(&name("x"), ConstType::Bool);
    assert!(matches!(env.get_ty(&name("x")), Some(ConstType::Bool)));
    assert!(!env.parent());
    assert!(env.has(&name("x")));
}

#[test]
fn member_functions_by_first_parameter() {
    let mut env = Enviroment::new(None);
    let list = ConstType::List(Box::new(ConstType::Int));
    env.push_function(name("push"), vec![list.copy(), ConstType::Int], list.copy());
    assert!(matches!(env.ty_parent_fn(&list, &name("push")), Some(ConstType::Func(_, _, n)) if n == "push"));
    assert!(env.ty_parent_fn(&ConstType::Str, &name("push")).is_none());
    assert!(env.ty_parent_fn(&list, &name("pop")).is_none());
}

#[test]
fn definitions_become_blueprint_types() {
    let mut env = Enviroment::new(None);
    env.blueprints(vec![Blueprint {
        name: name("f"),
        args: vec![Ident { val: name("a"), tag: None }, Ident { val: name("b"), tag: Some(ConstType::Int) }],
        body: vec![],
    }]);
    assert!(matches!(env.get_ty(&name("f")), Some(ConstType::Blueprint { argc: 2, name }) if name == "f"));
    assert_eq!(env.get_blueprint(&name("f")).unwrap().args.len(), 2);
    env.child();
    assert!(env.get_blueprint(&name("f")).is_some());
    env.child();
    assert!(env.get_blueprint(&name("f")).is_none());
    assert!(env.get_blueprint(&name("g")).is_none());
}

#[test]
fn constant_types_compare_objects_as_maps() {
    let a = ConstType::Obj(vec![(name("a"), ConstType::Int), (name("b"), ConstType::Bool)]);
    let b = ConstType::Obj(vec![(name("b"), ConstType::Bool), (name("a"), ConstType::Int)]);
    let c = ConstType::Obj(vec![(name("a"), ConstType::Int), (name("b"), ConstType::Str)]);
    assert!(const_equal(&a, &b));
    assert!(!const_equal(&a, &c));
    let f = ConstType::Func(Box::new(ConstType::Void), vec![ConstType::Int], name("f"));
    let g = ConstType::Func(Box::new(ConstType::Void), vec![ConstType::Int], name("f"));
    let h = ConstType::Func(Box::new(ConstType::Void), vec![ConstType::Float], name("f"));
    assert!(const_equal(&f, &g));
    assert!(!const_equal(&f, &h));
    assert!(!const_equal(&ConstType::Int, &ConstType::Float));
    assert!(const_equal(&ConstType::Unknown(None), &ConstType::Unknown(None)));
    assert!(!const_equal(&ConstType::Unknown(None), &ConstType::Unknown(Some(Box::new(ConstType::Int)))));
}
