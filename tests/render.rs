use hdl_render::ast::{Decl, Expr, Function, Module, Parallel, Port, Sequential, Stmt, Ty};
use hdl_render::doc::Doc;
use hdl_render::num::decimal_string;
use hdl_render::print::RenderError;

fn text_of(d: Result<Doc, RenderError>) -> String {
    d.expect("renderable").render().expect("indentation fits")
}

fn ty_text(t: Ty) -> String {
    text_of(t.to_doc())
}

fn int_port(name: &str) -> Port {
    Port::Input(Decl::Int(name.to_string(), Ty::Int))
}

fn example_module() -> Module {
    Module::new(
        "m".to_string(),
        vec![
            Port::Input(Decl::Int("a".to_string(), Ty::Int)),
            Port::Output(Decl::Logic("b".to_string(), Ty::Width(1))),
        ],
        vec![],
    )
}

#[test]
fn vector_width_two_or_more_shows_range() {
    assert_eq!(ty_text(Ty::Width(2)), "[1:0]");
    assert_eq!(ty_text(Ty::Width(8)), "[7:0]");
    assert_eq!(ty_text(Ty::Width(32)), "[31:0]");
    assert_eq!(ty_text(Ty::Width(u64::MAX)), "[18446744073709551614:0]");
}

#[test]
fn vector_width_one_is_empty() {
    assert_eq!(ty_text(Ty::Width(1)), "");
}

#[test]
fn vector_width_zero_is_rejected() {
    assert_eq!(Ty::Width(0).to_doc().err(), Some(RenderError::ZeroWidth));
}

#[test]
fn plain_types() {
    assert_eq!(ty_text(Ty::Void), "void");
    assert_eq!(ty_text(Ty::Int), "int");
}

#[test]
fn decimal_digits() {
    assert_eq!(decimal_string(0), "0");
    assert_eq!(decimal_string(9), "9");
    assert_eq!(decimal_string(10), "10");
    assert_eq!(decimal_string(1234567890), "1234567890");
}

#[test]
fn example_module_renders() {
    assert_eq!(
        text_of(example_module().to_doc()),
        "module m (\n  input int a,\n  output logic b);\nendmodule\n"
    );
}

#[test]
fn rendering_is_deterministic() {
    let first = text_of(example_module().to_doc());
    let second = text_of(example_module().to_doc());
    assert_eq!(first, second);
}

#[test]
fn module_without_ports() {
    let m = Module::new("m".to_string(), vec![], vec![]);
    assert_eq!(text_of(m.to_doc()), "module m ();\nendmodule\n");
}

#[test]
fn module_body_blank_lines_and_separators() {
    let body = vec![
        Stmt::Parallel(Parallel::Assign),
        Stmt::Decl(Decl::Logic("x".to_string(), Ty::Width(8))),
        Stmt::Decl(Decl::Func(Function::new(Ty::Void, "g".to_string(), vec![], vec![]))),
    ];
    let m = Module::new("top".to_string(), vec![], body);
    assert_eq!(
        text_of(m.to_doc()),
        "module top ();\n  \n  assign;\n  \n  logic [7:0] x;\n  \n  function void g;\n  endfunction\n\nendmodule\n"
    );
}

#[test]
fn ports_interspersed_without_trailing_separator() {
    let m = Module::new(
        "p".to_string(),
        vec![int_port("a"), int_port("b"), int_port("c"), int_port("d")],
        vec![],
    );
    let text = text_of(m.to_doc());
    assert_eq!(
        text,
        "module p (\n  input int a,\n  input int b,\n  input int c,\n  input int d);\nendmodule\n"
    );
    assert_eq!(text.matches(",\n").count(), 3);
    assert!(!text.contains(",);"));
}

#[test]
fn zero_width_port_fails_whole_module() {
    let m = Module::new(
        "bad".to_string(),
        vec![int_port("a"), Port::Output(Decl::Logic("z".to_string(), Ty::Width(0)))],
        vec![],
    );
    assert_eq!(m.to_doc().err(), Some(RenderError::ZeroWidth));
}

#[test]
fn zero_width_in_body_fails_whole_module() {
    let body = vec![Stmt::Parallel(Parallel::Inst(Ty::Width(0)))];
    let m = Module::new("bad".to_string(), vec![], body);
    assert_eq!(m.to_doc().err(), Some(RenderError::ZeroWidth));
}

#[test]
fn unrendered_process_body_is_not_checked() {
    let inner = vec![Sequential::Assign("q".to_string(), Expr::Const(0), Ty::Width(0))];
    let body = vec![Stmt::Parallel(Parallel::AlwaysComb(inner))];
    let m = Module::new("ok".to_string(), vec![], body);
    assert_eq!(text_of(m.to_doc()), "module ok ();\n  \n  always_comb;\n\nendmodule\n");
}

#[test]
fn function_without_body_omits_begin_end() {
    let f = Function::new(Ty::Void, "g".to_string(), vec![], vec![]);
    assert_eq!(text_of(f.to_doc()), "function void g;\nendfunction");
}

#[test]
fn function_with_body_and_inputs() {
    let f = Function::new(
        Ty::Int,
        "f".to_string(),
        vec![int_port("a"), int_port("b")],
        vec![
            Sequential::Error("boom".to_string()),
            Sequential::Assign("x".to_string(), Expr::Const(1), Ty::Int),
        ],
    );
    assert_eq!(
        text_of(f.to_doc()),
        "function int f;\n  input int a;\n  input int b;\nbegin\n  $error(\"boom\");\n  x int 1;\nend\nendfunction"
    );
}

#[test]
fn function_with_inputs_only() {
    let f = Function::new(Ty::Width(4), "h".to_string(), vec![int_port("a")], vec![]);
    assert_eq!(text_of(f.to_doc()), "function [3:0] h;\n  input int a;\n\nendfunction");
}

#[test]
fn function_with_body_only() {
    let f = Function::new(
        Ty::Void,
        "k".to_string(),
        vec![],
        vec![Sequential::Event(Ty::Int, Expr::Ident("clk".to_string()))],
    );
    assert_eq!(text_of(f.to_doc()), "function void k;begin\n  int clk;\nend\nendfunction");
}

#[test]
fn zero_width_return_type_rejected() {
    let f = Function::new(Ty::Width(0), "z".to_string(), vec![], vec![]);
    assert_eq!(f.to_doc().err(), Some(RenderError::ZeroWidth));
}

#[test]
fn logic_declarations() {
    let one = Decl::Logic("b".to_string(), Ty::Width(1));
    let four = Decl::Logic("v".to_string(), Ty::Width(4));
    let int = Decl::Logic("c".to_string(), Ty::Int);
    assert_eq!(text_of(one.to_doc()), "logic b");
    assert_eq!(text_of(four.to_doc()), "logic [3:0] v");
    assert_eq!(text_of(int.to_doc()), "logic int c");
}

#[test]
fn parameter_declaration() {
    let p = Decl::Param("N".to_string(), Ty::Int, Expr::Const(4));
    assert_eq!(text_of(p.to_doc()), "parameter int N = 4");
}

#[test]
fn assertion_without_recovery() {
    let a = Sequential::Assert(Expr::Ident("ok".to_string()), None);
    assert_eq!(text_of(a.to_doc()), "assert(ok)");
}

#[test]
fn assertion_with_recovery() {
    let recovery = Sequential::Error("bad".to_string());
    let a = Sequential::Assert(Expr::Ident("ok".to_string()), Some(Box::new(recovery)));
    assert_eq!(text_of(a.to_doc()), "assert(ok) else $error(\"bad\")");
}

#[test]
fn branch_shows_condition_only() {
    let then_branch = vec![Sequential::Error("x".to_string())];
    let s = Sequential::If(Expr::Ident("c".to_string()), then_branch, vec![]);
    assert_eq!(text_of(s.to_doc()), "if (c)");
}

#[test]
fn parallel_headers() {
    let body = vec![Sequential::Error("x".to_string())];
    assert_eq!(text_of(Parallel::Assign.to_doc()), "assign");
    assert_eq!(text_of(Parallel::AlwaysComb(vec![]).to_doc()), "always_comb");
    let ff = Parallel::AlwaysFF(Expr::Ident("clk".to_string()), body);
    assert_eq!(text_of(ff.to_doc()), "always_ff");
    assert_eq!(text_of(Parallel::Inst(Ty::Width(3)).to_doc()), "[2:0]");
}

#[test]
fn statement_forwards_to_its_kind() {
    let s = Stmt::Decl(Decl::Int("n".to_string(), Ty::Int));
    assert_eq!(text_of(s.to_doc()), "int n");
}

#[test]
fn ty_width_accessor() {
    assert_eq!(Ty::Width(7).width(), 7);
    assert_eq!(Ty::Int.width(), 0);
}

#[test]
fn doc_intersperse() {
    let items = vec![Doc::text("a"), Doc::text("b"), Doc::text("c")];
    let d = Doc::intersperse(items, Doc::text(", "));
    assert_eq!(d.render().unwrap(), "a, b, c");
    assert_eq!(Doc::intersperse(vec![], Doc::text(",")).render().unwrap(), "");
    assert_eq!(Doc::intersperse(vec![Doc::text("x")], Doc::text(",")).render().unwrap(), "x");
}

#[test]
fn doc_nest_indents_breaks_inside_only() {
    let inner = Doc::text("a").append(Doc::hardline()).append(Doc::text("b"));
    let d = inner.nest(4).append(Doc::hardline()).append(Doc::text("c"));
    assert_eq!(d.render().unwrap(), "a\n    b\nc");
}

#[test]
fn doc_render_into_at_indentation() {
    let d = Doc::text("x").append(Doc::space()).append(Doc::hardline()).append(Doc::nil());
    let mut out = String::from(">");
    assert!(d.render_into(3, &mut out));
    assert_eq!(out, ">x \n   ");
}

#[test]
fn doc_indentation_overflow_reported() {
    let d = Doc::hardline().nest(usize::MAX).nest(1);
    assert!(d.render().is_none());
}

#[test]
fn doc_duplicate_is_equal() {
    let d = Doc::string("a".to_string()).append(Doc::hardline()).nest(2);
    assert_eq!(d.duplicate().render(), d.render());
}
