use covalent::builtins::{list_atom, str_atom};
use covalent::convert::{can_implicitly_convert, supports_op};
use covalent::enviroment::{Enviroment, Symbol};
use covalent::mangle::{mangle_types, type_mangle};
use covalent::typeeq::types_equal;
use covalent::types::{Atom, AtomKind, AtomType, BasicType, BlueprintType, FunctionType, Generics};

fn basic(b: BasicType) -> AtomType {
    AtomType::basic(b)
}

#[test]
fn written_types() {
    assert_eq!(BasicType::Int.to_string(), "int");
    assert_eq!(BasicType::Bool.to_string(), "bool");
    assert_eq!(basic(BasicType::Float).to_string(), "float");
    assert_eq!(AtomType::plain(AtomKind::Dynamic).to_string(), "Dynamic");
    assert_eq!(AtomType::plain(AtomKind::Any).to_string(), "any");
    assert_eq!(AtomType::plain(AtomKind::Unknown).to_string(), "Unknown");
    assert_eq!(list_atom().to_string(), "List(T)");
    assert_eq!(str_atom().to_string(), "str");
    let f = FunctionType { params: vec![basic(BasicType::Int), basic(BasicType::Float)], return_type: Box::new(basic(BasicType::Void)) };
    assert_eq!(AtomKind::Function(f).to_string(), "Fn(int, float) -> void");
    let b = BlueprintType { name: "f".to_string(), overloads: vec!["a".to_string(), "b".to_string()] };
    assert_eq!(AtomKind::Blueprint(b).to_string(), "Blueprint(f, a, b)");
    let spec = list_atom().spec(&[basic(BasicType::Int)]);
    assert_eq!(spec.to_string(), "List(int)");
}

#[test]
fn mangled_overload_names() {
    assert_eq!(type_mangle("factorial".to_string(), vec![basic(BasicType::Int)]), "factorial$int");
    assert_eq!(type_mangle("f".to_string(), vec![]), "f$empty");
    assert_eq!(type_mangle("g".to_string(), vec![basic(BasicType::Int), basic(BasicType::Float)]), "g$int_float");
    assert_eq!(type_mangle("h".to_string(), vec![AtomType::plain(AtomKind::Atom(list_atom()))]), "h$List__T__");
}

#[test]
fn remangling_replaces_the_types() {
    let once = type_mangle("factorial".to_string(), vec![basic(BasicType::Int)]);
    assert_eq!(type_mangle(once, vec![basic(BasicType::Float)]), "factorial$float");
}

#[test]
fn mangled_types_read_back() {
    assert_eq!(mangle_types("f$int_float".to_string()), vec!["int", "float"]);
    assert_eq!(mangle_types("f$empty".to_string()), vec!["empty"]);
    assert_eq!(mangle_types("a$b$c_".to_string()), vec!["b$c", ""]);
}

#[test]
fn type_equality() {
    assert!(types_equal(&basic(BasicType::Int), &basic(BasicType::Int)));
    assert!(!types_equal(&basic(BasicType::Int), &basic(BasicType::Float)));
    let l1 = AtomType::plain(AtomKind::Atom(list_atom()));
    let l2 = AtomType::plain(AtomKind::Atom(list_atom()));
    assert!(types_equal(&l1, &l2));
    let l3 = AtomType::plain(AtomKind::Atom(list_atom().spec(&[basic(BasicType::Int)])));
    assert!(!types_equal(&l1, &l3));
}

#[test]
fn implicit_conversions() {
    let int = AtomKind::Basic(BasicType::Int);
    let float = AtomKind::Basic(BasicType::Float);
    assert!(can_implicitly_convert(&int, &float));
    assert!(!can_implicitly_convert(&float, &int));
    assert!(can_implicitly_convert(&float, &AtomKind::Dynamic));
    assert!(can_implicitly_convert(&AtomKind::Dynamic, &int));
    assert!(can_implicitly_convert(&AtomKind::Basic(BasicType::Bool), &AtomKind::Atom(str_atom())));
}

#[test]
fn supported_operators() {
    assert!(supports_op(&basic(BasicType::Int), &"+".to_string()));
    assert!(supports_op(&basic(BasicType::Float), &"%".to_string()));
    assert!(!supports_op(&basic(BasicType::Bool), &"+".to_string()));
    assert!(supports_op(&basic(BasicType::Bool), &"&&".to_string()));
    assert!(supports_op(&AtomType::plain(AtomKind::Atom(str_atom())), &"+".to_string()));
    assert!(!supports_op(&AtomType::plain(AtomKind::Atom(str_atom())), &"*".to_string()));
    assert!(!supports_op(&basic(BasicType::Void), &"==".to_string()));
}

#[test]
fn builtin_names() {
    let env = Enviroment::init();
    assert!(env.has(&"int".to_string()));
    assert!(env.has(&"List".to_string()));
    assert!(!env.has(&"foo".to_string()));
    assert!(env.get_ty(&"float".to_string()).unwrap().is_type());
}

#[test]
fn added_symbol_is_found() {
    let mut env = Enviroment::init();
    env.add(Symbol::plain("x".to_string(), basic(BasicType::Int)));
    assert_eq!(env.get(&"x".to_string()).unwrap().name, "x");
    assert_eq!(env.get_ty(&"x".to_string()).unwrap().to_string(), "int");
    env.add(Symbol::plain("x".to_string(), basic(BasicType::Bool)));
    assert_eq!(env.get_ty(&"x".to_string()).unwrap().to_string(), "bool");
}

#[test]
fn scopes_nest_and_unwind() {
    let mut env = Enviroment::init();
    env.add(Symbol::plain("x".to_string(), basic(BasicType::Int)));
    env.child();
    assert!(env.has(&"x".to_string()));
    env.add(Symbol::plain("y".to_string(), basic(BasicType::Float)));
    assert!(env.has(&"y".to_string()));
    env.modify(&"x".to_string(), Symbol::plain("x".to_string(), basic(BasicType::Float)));
    env.parent();
    assert!(!env.has(&"y".to_string()));
    assert_eq!(env.get_ty(&"x".to_string()).unwrap().to_string(), "float");
}

#[test]
fn modifying_an_unknown_name_changes_nothing() {
    let mut env = Enviroment::init();
    env.modify(&"zz".to_string(), Symbol::plain("zz".to_string(), basic(BasicType::Int)));
    assert!(!env.has(&"zz".to_string()));
}

#[test]
fn outermost_scope_is_reached() {
    let mut env = Enviroment::init();
    env.child();
    env.child();
    env.top().add(Symbol::plain("t".to_string(), basic(BasicType::Int)));
    env.parent();
    env.parent();
    assert!(env.has(&"t".to_string()));
    assert!(env.get_blueprint(&"t".to_string()).is_none());
}

#[test]
fn atoms_are_built_from_parts() {
    let a = Atom::new("P".to_string(), vec![("x".to_string(), basic(BasicType::Int))], Generics::from_entries(vec![]));
    let t = AtomType::plain(AtomKind::Atom(a));
    assert_eq!(t.get(&"x".to_string()).unwrap().to_string(), "int");
    assert!(t.get(&"y".to_string()).is_none());
    assert_eq!(t.generics(), 0);
}

#[test]
fn generic_parameters_keep_insertion_order() {
    let g = Generics::from_entries(vec![
        ("T".to_string(), AtomType::plain(AtomKind::Unknown)),
        ("U".to_string(), basic(BasicType::Int)),
        ("T".to_string(), basic(BasicType::Float)),
    ]);
    let t = AtomType::plain(AtomKind::Atom(Atom::new("Pair".to_string(), vec![], g)));
    assert_eq!(t.to_string(), "Pair(float, int)");
    assert_eq!(t.copy().to_string(), "Pair(float, int)");
    assert!(types_equal(&t, &t.copy()));
    let u = AtomType::plain(AtomKind::Atom(Atom::new(
        "Pair".to_string(),
        vec![],
        Generics::from_entries(vec![("U".to_string(), basic(BasicType::Int)), ("T".to_string(), basic(BasicType::Float))]),
    )));
    assert_eq!(u.to_string(), "Pair(int, float)");
    assert!(types_equal(&t, &u));
}

#[test]
fn mangled_basic_types_read_back() {
    let m = type_mangle("g$old".to_string(), vec![basic(BasicType::Float), basic(BasicType::Bool), basic(BasicType::Int)]);
    assert_eq!(m, "g$float_bool_int");
    assert_eq!(mangle_types(m), vec!["float", "bool", "int"]);
    assert_eq!(mangle_types(type_mangle("h".to_string(), vec![])), vec!["empty"]);
}
