use covalent::analysis::Analyzer;
use covalent::backend::c::codegen::Codegen;
use covalent::err::ErrKind;
use covalent::parser::Parser;

fn compile(code: &str) -> String {
    let parser = Parser::new(code.to_string());
    let prog = parser.parse_prog();
    let ir = Analyzer::analyze_program(String::new(), prog).expect("analysis failed");
    let mut cg = Codegen::new();
    cg.codegen(ir.instructions)
}

#[test]
fn expression_statement_becomes_main() {
    assert_eq!(compile("1 + 2"), "int main() {\n\t2 + 1;\n}");
}

#[test]
fn untyped_declaration_is_refused() {
    let mut parser = Parser::new("set y = 5".to_string());
    parser.parse_all();
    let mut analyzer = Analyzer::new(String::new());
    let r = analyzer.run_program(parser.program);
    assert!(matches!(r, Err(ErrKind::InvaildType)));
    assert_eq!(analyzer.errors.len(), 1);
    assert_eq!(analyzer.errors[0].msg, "got int but expected any");
}

#[test]
fn call_of_an_unknown_function_is_refused() {
    let parser = Parser::new("set a = factorial: 5".to_string());
    let prog = parser.parse_prog();
    let mut analyzer = Analyzer::new(String::new());
    let r = analyzer.run_program(prog);
    assert!(matches!(r, Err(ErrKind::UndeclaredVar)));
    assert_eq!(analyzer.errors[0].msg, "undeclared variable: factorial");
}

#[test]
fn definitions_are_not_handled_by_the_program_pass() {
    let parser = Parser::new(
        "set factorial: x {\n  if x == 1 {\n    ret 1\n  }\n  ret x * factorial: x - 1\n}\n".to_string(),
    );
    let prog = parser.parse_prog();
    assert_eq!(prog.functions.len(), 1);
    assert_eq!(prog.functions[0].name.val(), "factorial");
    assert!(!covalent::analysis::support::nodes_analyzable(&prog.body));
}

#[test]
fn handled_programs() {
    let parser = Parser::new("set a = 1 + 2\nf: x, 1".to_string());
    let prog = parser.parse_prog();
    assert!(covalent::analysis::support::nodes_analyzable(&prog.body));
    assert!(covalent::analysis::support::op_known("<="));
    assert!(!covalent::analysis::support::op_known("^"));
}

#[test]
fn analyzing_names_leaves_the_analyzer_setup() {
    let parser = Parser::new("x\nint\n".to_string());
    let prog = parser.parse_prog();
    let mut analyzer = Analyzer::new("work".to_string());
    let before = analyzer.env.symbols.len();
    let r = analyzer.run_program(prog);
    assert!(matches!(r, Err(ErrKind::UndeclaredVar)));
    assert_eq!(analyzer.env.symbols.len(), before);
    assert!(analyzer.env.parent.is_none());
    assert_eq!(analyzer.workdir, "work");
    assert_eq!(analyzer.imports.len(), 0);
    assert_eq!(analyzer.functions.len(), 0);
}
