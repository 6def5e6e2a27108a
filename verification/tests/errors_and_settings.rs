use covalent::ast::get_operator_level as early_operator_level;
use covalent::compiler::{Backend, CSettings, CompilerConfig};
use covalent::err::{ATErr, ErrKind};
use covalent::parser::ast::get_operator_level;
use covalent::scope::Scope;
use covalent::source::{type_mangle as const_type_mangle, ConstType};

#[test]
fn error_text_has_code_message_and_position() {
    let e = ATErr { kind: ErrKind::UndeclaredVar, msg: "x is undeclared".to_string(), line: 3, column: 17 };
    assert_eq!(e.get_error(), "code:AT003\nx is undeclared\nat line:3, column:17");
}

#[test]
fn error_text_of_first_kind() {
    let e = ATErr { kind: ErrKind::UnknownCharE, msg: String::new(), line: 0, column: 0 };
    assert_eq!(e.get_error(), "code:AT000\n\nat line:0, column:0");
}

#[test]
fn error_codes_follow_declaration_order() {
    assert_eq!(ErrKind::UnknownCharE.code(), 0);
    assert_eq!(ErrKind::UnexceptedTokenE.code(), 1);
    assert_eq!(ErrKind::InvaildType.code(), 2);
    assert_eq!(ErrKind::UndeclaredVar.code(), 3);
    assert_eq!(ErrKind::VarAlreadyDeclared.code(), 4);
    assert_eq!(ErrKind::OperationNotGranted.code(), 5);
    assert_eq!(ErrKind::UnexceptedArgs.code(), 6);
    assert_eq!(ErrKind::TypeMismatch.code(), 7);
}

#[test]
fn scope_value_and_use_are_used() {
    assert!(Scope::Value.is_used());
    assert!(Scope::Use.is_used());
    assert!(!Scope::Top.is_used());
    assert!(!Scope::_Func("f".to_string()).is_used());
}

#[test]
fn early_scope_only_value_is_used() {
    assert!(covalent::source::Scope::Value.is_used());
    assert!(!covalent::source::Scope::Top.is_used());
    assert!(!covalent::source::Scope::_Func("f".to_string()).is_used());
}

#[test]
fn operator_levels() {
    assert_eq!(get_operator_level("&&"), 1);
    assert_eq!(get_operator_level("||"), 1);
    assert_eq!(get_operator_level("=="), 2);
    assert_eq!(get_operator_level("<"), 3);
    assert_eq!(get_operator_level(">="), 3);
    assert_eq!(get_operator_level("<="), 3);
    assert_eq!(get_operator_level("+"), 4);
    assert_eq!(get_operator_level("-"), 4);
    assert_eq!(get_operator_level("*"), 5);
    assert_eq!(get_operator_level("/"), 5);
    assert_eq!(get_operator_level("%"), 5);
}

#[test]
fn early_operator_levels() {
    assert_eq!(early_operator_level("&"), 1);
    assert_eq!(early_operator_level("|"), 1);
    assert_eq!(early_operator_level("=="), 2);
    assert_eq!(early_operator_level(">"), 3);
    assert_eq!(early_operator_level("+"), 4);
    assert_eq!(early_operator_level("/"), 5);
}

#[test]
fn const_type_names() {
    assert_eq!(ConstType::Int.as_str(), "int");
    assert_eq!(ConstType::Float.as_str(), "float");
    assert_eq!(ConstType::Str.as_str(), "str");
    assert_eq!(ConstType::Bool.as_str(), "bool");
    assert_eq!(ConstType::Void.as_str(), "none");
    assert_eq!(ConstType::List(Box::new(ConstType::Int)).as_str(), "none");
}

#[test]
fn const_type_members() {
    let list = ConstType::List(Box::new(ConstType::Str));
    assert!(matches!(list.get(&"size".to_string()), Some(ConstType::Int)));
    assert!(matches!(list.get(&"elem_size".to_string()), Some(ConstType::Int)));
    assert!(list.get(&"len".to_string()).is_none());
    let obj = ConstType::Obj(vec![
        ("a".to_string(), ConstType::Bool),
        ("b".to_string(), ConstType::Float),
        ("a".to_string(), ConstType::Int),
    ]);
    assert!(matches!(obj.get(&"a".to_string()), Some(ConstType::Bool)));
    assert!(matches!(obj.get(&"b".to_string()), Some(ConstType::Float)));
    assert!(obj.get(&"c".to_string()).is_none());
    assert!(ConstType::Int.get(&"size".to_string()).is_none());
}

#[test]
fn const_type_copy_keeps_members() {
    let f = ConstType::Func(Box::new(ConstType::Int), vec![ConstType::Float, ConstType::Str], "g".to_string());
    match f.copy() {
        ConstType::Func(r, ps, n) => {
            assert!(matches!(*r, ConstType::Int));
            assert_eq!(ps.len(), 2);
            assert!(matches!(ps[0], ConstType::Float));
            assert!(matches!(ps[1], ConstType::Str));
            assert_eq!(n, "g");
        },
        _ => panic!("copy changed the variant"),
    }
}

#[test]
fn const_overload_names() {
    assert_eq!(const_type_mangle("add".to_string(), vec![ConstType::Int, ConstType::Float]), "add_int_float");
    assert_eq!(const_type_mangle("f".to_string(), vec![]), "f");
    assert_eq!(const_type_mangle("g".to_string(), vec![ConstType::Dynamic, ConstType::Bool]), "g_none_bool");
}

#[test]
fn settings_keep_their_parts() {
    let s = CSettings::new(Some("clang".to_string()), vec!["-O2".to_string()]);
    assert_eq!(s.compiler, Some("clang".to_string()));
    assert_eq!(s.flags, vec!["-O2".to_string()]);
}

#[test]
fn config_library_directory_is_beside_the_compiler() {
    let c = CompilerConfig::new(
        "set x = 1".to_string(),
        Backend::C(CSettings::new(None, Vec::new())),
        true,
        "out".to_string(),
        "work".to_string(),
        "/opt/covalent/bin",
    );
    assert_eq!(c.libdir, "/opt/covalent/bin/lib");
    assert_eq!(c.input, "set x = 1");
    assert!(c.debug);
    assert_eq!(c.output, "out");
    assert_eq!(c.workdir, "work");
    assert!(matches!(c.backend, Backend::C(_)));
}

#[test]
fn early_config_keeps_its_parts() {
    let c = covalent::CompilerConfig::new(
        "x".to_string(),
        covalent::Backend::WASM,
        covalent::BackendSettings::Custom(vec!["a".to_string()]),
        false,
        true,
    );
    assert_eq!(c.input, "x");
    assert!(matches!(c.backend, covalent::Backend::WASM));
    assert!(!c.debug);
    assert!(c.repl);
    let s = covalent::CSettings::new(None, vec![]);
    assert!(s.compiler.is_none());
}
