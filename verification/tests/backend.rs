use covalent::backend::c::codegen::Codegen;
use covalent::backend::c::{tabs, type_to_c, types_to_cnamed, Emit, Emiter, Item, Module};
use covalent::parser::ast::Literal;
use covalent::types::{AtomKind, AtomType, BasicType};

fn int_ty() -> AtomType {
    AtomType::basic(BasicType::Int)
}

#[test]
fn tab_strings() {
    assert_eq!(tabs(0), "");
    assert_eq!(tabs(3), "\t\t\t");
}

#[test]
fn emitted_blocks_are_indented() {
    let mut e = Emiter::new(0);
    e.emit_header("int main() {");
    e.emit("int x = 1");
    e.line("// note");
    e.end();
    assert_eq!(e.col, 0);
    assert_eq!(e.finish(), vec!["int main() {", "\tint x = 1;", "\t// note", "}"]);
}

#[test]
fn closing_at_depth_zero_stays_at_zero() {
    let mut e = Emiter::new(0);
    e.end();
    assert_eq!(e.col, 0);
    e.sub_col();
    assert_eq!(e.col, 0);
    assert_eq!(e.finish(), vec!["}"]);
}

#[test]
fn embedded_emits() {
    let mut e = Emiter::new(1);
    e.embed(Emit::Line("f()".to_string()));
    e.embed(Emit::Nothing);
    e.embed(Emit::Body(vec!["a".to_string(), "b".to_string()]));
    e.lines(vec!["c".to_string()]);
    assert_eq!(e.finish(), vec!["\tf();", "\ta", "\tb", "\tc"]);
}

#[test]
fn module_text_and_includes_once() {
    let mut m = Module::new();
    m.add_include("stdio".to_string());
    m.add_include("stdio".to_string());
    m.extern_add("int puts(char* s);".to_string());
    m.extern_add("int puts(char* s);".to_string());
    assert_eq!(m.includes.len(), 1);
    assert_eq!(m.externs.len(), 1);
    m.func(vec!["void f() {".to_string(), "}".to_string()]);
    m.func(vec!["int main() {".to_string(), "}".to_string()]);
    let text = m.finish();
    assert_eq!(text, "#include \"stdio.h\"\nint puts(char* s);\nvoid f() {\n}\n\n\n\nint main() {\n}");
    assert_eq!(m.includes.len(), 0);
    assert_eq!(m.functions.len(), 0);
}

#[test]
fn c_types() {
    assert_eq!(type_to_c(&int_ty()), "int");
    assert_eq!(type_to_c(&AtomType::basic(BasicType::Float)), "float");
    assert_eq!(type_to_c(&AtomType::basic(BasicType::Bool)), "_Bool");
    assert_eq!(type_to_c(&AtomType::basic(BasicType::Void)), "void");
    assert_eq!(type_to_c(&AtomType::plain(AtomKind::Dynamic)), "Obj");
    assert_eq!(type_to_c(&AtomType::plain(AtomKind::Atom(covalent::builtins::str_atom()))), "Str*");
}

#[test]
fn c_parameter_lists() {
    assert_eq!(types_to_cnamed(vec![]), "");
    assert_eq!(
        types_to_cnamed(vec![(int_ty(), "x".to_string()), (AtomType::basic(BasicType::Float), "y".to_string())]),
        "int x, float y"
    );
}

#[test]
fn stack_gives_back_what_was_pushed() {
    let mut cg = Codegen::new();
    cg.push(Item::Const(Literal::Int(-12)));
    cg.push(Item::Var(int_ty(), "v".to_string()));
    assert_eq!(cg.pop_str(), "v");
    assert_eq!(cg.pop_str(), "-12");
}

#[test]
fn constants_as_c_text() {
    let mut cg = Codegen::new();
    cg.push(Item::Const(Literal::Bool(true)));
    cg.push(Item::Const(Literal::Str("hi".to_string())));
    cg.push(Item::Const(Literal::Float("2.5".to_string())));
    assert_eq!(cg.pop_amount(3), vec!["2.5", "__strnew__(\"hi\")", "1"]);
}

#[test]
fn redeclared_variables_get_numbered() {
    let mut cg = Codegen::new();
    assert_eq!(cg.var("x".to_string(), int_ty()), "x");
    assert_eq!(cg.var("x".to_string(), AtomType::basic(BasicType::Float)), "x1");
    assert_eq!(cg.var("x".to_string(), int_ty()), "x2");
    assert_eq!(cg.get_var("x".to_string()), "x2");
    assert_eq!(cg.get_var("y".to_string()), "y");
}

#[test]
fn c_file_path_flattens_slashes() {
    assert_eq!(covalent::backend::c::outfile::out_path("a/b\\c"), "/tmp/covalent/'a_b_c'.c");
    assert_eq!(covalent::backend::c::outfile::out_path("prog"), "/tmp/covalent/'prog'.c");
}

#[test]
fn c_compiler_arguments() {
    let args = covalent::backend::c::outfile::compile_args("/l", "out", "/tmp/covalent/'out'.c");
    assert_eq!(
        args,
        vec!["-Wno-implicit-function-declaration", "-I/l", "-oout", "/tmp/covalent/'out'.c", "/l/runtime.o", "/l/gc.o"]
    );
}

#[test]
fn closing_brace_lines_up_with_its_header() {
    let mut e = Emiter::new(2);
    e.line("// before");
    e.emit_header("while (x) {");
    e.emit("x = x - 1");
    e.lines(vec!["a".to_string()]);
    e.embed(Emit::Body(vec!["if (y) {".to_string(), "}".to_string()]));
    e.embed(Emit::Line("f()".to_string()));
    e.end();
    assert_eq!(e.col, 2);
    assert_eq!(
        e.finish(),
        vec![
            "\t\t// before",
            "\t\twhile (x) {",
            "\t\t\tx = x - 1;",
            "\t\t\ta",
            "\t\t\tif (y) {",
            "\t\t\t}",
            "\t\t\tf();",
            "\t\t}"
        ]
    );
}
