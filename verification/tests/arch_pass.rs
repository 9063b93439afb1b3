use arch_builder::ast::{
    Alias, Decorator, ElifElseClause, Expr, Identifier, Parameter, Stmt, StmtAssign, StmtClassDef,
    StmtExpr, StmtFor, StmtFunctionDef, StmtIf, StmtImport, StmtImportFrom, StmtTry,
};
use arch_builder::constants::{BuildStatus, BuildSteps, SymType};
use arch_builder::ast::StmtAnnAssign;
use arch_builder::evaluation::{Evaluation, EvaluationSymbol, EvaluationValue};
use arch_builder::import_binder::ExportListIssue;
use arch_builder::python_arch_builder::{
    ArchAction, ArchError, ArchEvent, ExportWarning, ImportResult, Phase, PythonArchBuilder,
};
use arch_builder::symbols::file_symbol::Dependency;
use arch_builder::symbols::graph::SymbolGraph;
use arch_builder::symbols::symbol::Symbol;
use ruff_text_size::{TextRange, TextSize};

fn span(start: u32, end: u32) -> TextRange {
    TextRange::new(TextSize::new(start), TextSize::new(end))
}

fn ident(name: &str, start: u32) -> Identifier {
    Identifier { id: name.to_string(), range: span(start, start + name.len() as u32) }
}

fn name_expr(name: &str, start: u32) -> Expr {
    Expr::Name { id: name.to_string(), range: span(start, start + name.len() as u32) }
}

fn lit(text: &str, start: u32) -> Expr {
    Expr::StringLiteral { value: text.to_string(), range: span(start, start + text.len() as u32 + 2) }
}

fn assign(name: &str, start: u32) -> Stmt {
    Stmt::Assign(StmtAssign {
        targets: vec![name_expr(name, start)],
        value: Expr::Other { range: span(start + 10, start + 11) },
        range: span(start, start + 11),
    })
}

fn import(name: &str, asname: Option<&str>, start: u32) -> Stmt {
    Stmt::Import(StmtImport {
        names: vec![Alias {
            name: ident(name, start + 7),
            asname: asname.map(|a| ident(a, start + 30)),
            range: span(start + 7, start + 40),
        }],
        range: span(start, start + 40),
    })
}

fn import_star(module: &str, start: u32) -> Stmt {
    Stmt::ImportFrom(StmtImportFrom {
        module: Some(ident(module, start + 5)),
        names: vec![Alias { name: ident("*", start + 20), asname: None, range: span(start + 20, start + 21) }],
        level: 0,
        range: span(start, start + 21),
    })
}

fn param(name: &str, start: u32) -> Parameter {
    Parameter {
        name: ident(name, start),
        range: span(start, start + name.len() as u32),
        is_args: false,
        is_kwargs: false,
    }
}

fn pass_stmt(start: u32) -> Stmt {
    Stmt::Other { range: span(start, start + 4) }
}

fn def(name: &str, decorators: Vec<&str>, args: Vec<Parameter>, body: Vec<Stmt>, start: u32) -> Stmt {
    Stmt::FunctionDef(StmtFunctionDef {
        name: ident(name, start + 4),
        decorator_list: decorators
            .into_iter()
            .map(|d| Decorator { expression: name_expr(d, start), range: span(start, start + 1) })
            .collect(),
        posonlyargs: vec![],
        args,
        body,
        range: span(start, start + 100),
    })
}

fn class(name: &str, body: Vec<Stmt>, start: u32) -> Stmt {
    Stmt::ClassDef(StmtClassDef { name: ident(name, start + 6), body, range: span(start, start + 100) })
}

/// A graph with a root and one module below it; the module's index.
fn graph_with_module(external: bool) -> (SymbolGraph, usize) {
    let mut graph = SymbolGraph::new();
    let file = graph.add_new_file(0, "m".to_string(), "/ws/m.py".to_string(), external);
    (graph, file)
}

fn start_on(graph: &mut SymbolGraph, file: usize, tree: Vec<Stmt>) -> (PythonArchBuilder, ArchAction) {
    let mut builder = PythonArchBuilder::new(file);
    let first = builder.load_arch(graph, ArchEvent::Start).unwrap();
    assert!(matches!(first, ArchAction::ReadFile { .. }));
    let action = builder
        .load_arch(graph, ArchEvent::File { in_workspace: true, ast: Some(tree) })
        .unwrap();
    (builder, action)
}

/// Runs a pass that needs no answer but acknowledgements.
fn run_plain(graph: &mut SymbolGraph, file: usize, tree: Vec<Stmt>) {
    let (mut builder, mut action) = start_on(graph, file, tree);
    loop {
        match action {
            ArchAction::ClassDefined { .. } | ArchAction::Complete { .. } => {
                action = builder.load_arch(graph, ArchEvent::Ack).unwrap();
            }
            ArchAction::Done => break,
            _ => panic!("the pass asked for an answer"),
        }
    }
}

fn child_names(graph: &SymbolGraph, id: usize) -> Vec<String> {
    graph.get(id).content().unwrap().symbols.iter().map(|b| b.name.clone()).collect()
}

fn child(graph: &SymbolGraph, id: usize, name: &str) -> usize {
    let found = graph.get_content_symbol(id, &name.to_string(), u32::MAX);
    assert_eq!(found.len(), 1);
    found[0]
}

fn list_value(names: Vec<(&str, u32)>) -> Vec<Evaluation> {
    vec![Evaluation {
        symbol: EvaluationSymbol { symbol: None, instance: Some(true) },
        value: Some(EvaluationValue::List(names.into_iter().map(|(n, at)| lit(n, at)).collect())),
        range: Some(span(10, 20)),
    }]
}

/// Builds `pkg` with `__all__ = ["a", "b"]` and the names a, b, c.
fn build_pkg(graph: &mut SymbolGraph) -> usize {
    let pkg = graph.add_new_package(0, "pkg".to_string(), "/lib/pkg".to_string(), String::new(), false);
    let tree = vec![
        Stmt::Assign(StmtAssign {
            targets: vec![name_expr("__all__", 0)],
            value: Expr::List { elts: vec![lit("a", 11), lit("b", 16)], range: span(10, 20) },
            range: span(0, 20),
        }),
        assign("a", 30),
        assign("b", 50),
        assign("c", 70),
    ];
    let (mut builder, action) = start_on(graph, pkg, tree);
    match action {
        ArchAction::Evaluate { value, parent, position } => {
            assert_eq!(value, span(10, 20));
            assert_eq!(parent, pkg);
            assert_eq!(position, 0);
        }
        _ => panic!("the export list was not evaluated"),
    }
    let action = builder
        .load_arch(
            graph,
            ArchEvent::Evaluation { evaluations: list_value(vec![("a", 11), ("b", 16)]), diagnostics: vec![] },
        )
        .unwrap();
    assert!(matches!(action, ArchAction::Complete { has_ast: true, .. }));
    assert!(matches!(builder.load_arch(graph, ArchEvent::Ack).unwrap(), ArchAction::Done));
    pkg
}

#[test]
fn wildcard_import_binds_the_export_list() {
    let mut graph = SymbolGraph::new();
    let pkg = build_pkg(&mut graph);
    assert_eq!(child_names(&graph, pkg), vec!["__all__", "a", "b", "c"]);
    let m = graph.add_new_file(0, "m".to_string(), "/ws/m.py".to_string(), false);
    let (mut builder, action) = start_on(&mut graph, m, vec![import_star("pkg", 0)]);
    match action {
        ArchAction::ResolveImport { scope, module, level, range } => {
            assert_eq!(scope, m);
            assert_eq!(module, Some("pkg".to_string()));
            assert_eq!(level, Some(0));
            assert_eq!(range, span(0, 21));
        }
        _ => panic!("the wildcard import was not resolved"),
    }
    let result = ImportResult { found: true, symbol: pkg, file_tree: (vec![], vec![]), range: span(0, 21) };
    let action = builder.load_arch(&mut graph, ArchEvent::Import(result)).unwrap();
    assert!(matches!(action, ArchAction::Complete { has_ast: true, .. }));
    assert_eq!(child_names(&graph, m), vec!["a", "b"]);
    for name in ["a", "b"] {
        let v = child(&graph, m, name);
        let source = child(&graph, pkg, name);
        match graph.get(v) {
            Symbol::Variable(var) => {
                assert!(var.is_import_variable);
                assert!(!var.is_parameter);
                assert_eq!(var.range, span(0, 21));
                assert_eq!(var.evaluations.len(), 1);
                assert_eq!(var.evaluations[0].symbol.symbol, Some(source));
                assert!(var.evaluations[0].value.is_none());
            }
            _ => panic!("an import must bind a variable"),
        }
    }
    let edge = Dependency { target: pkg, step: BuildSteps::Arch, dep_step: BuildSteps::Arch };
    match graph.get(m) {
        Symbol::File(f) => assert_eq!(f.dependencies, vec![edge]),
        _ => panic!("m is a module"),
    }
    let back = Dependency { target: m, step: BuildSteps::Arch, dep_step: BuildSteps::Arch };
    match graph.get(pkg) {
        Symbol::Package(f) => assert_eq!(f.dependents, vec![back]),
        _ => panic!("pkg is a package"),
    }
}

#[test]
fn wildcard_import_without_export_list_binds_every_name() {
    let mut graph = SymbolGraph::new();
    let lib = graph.add_new_file(0, "lib".to_string(), "/ws/lib.py".to_string(), false);
    run_plain(&mut graph, lib, vec![assign("a", 0), assign("b", 20), assign("a", 40)]);
    let m = graph.add_new_file(0, "m".to_string(), "/ws/m.py".to_string(), false);
    let (mut builder, _) = start_on(&mut graph, m, vec![import_star("lib", 0)]);
    let result = ImportResult { found: true, symbol: lib, file_tree: (vec![], vec![]), range: span(0, 21) };
    builder.load_arch(&mut graph, ArchEvent::Import(result)).unwrap();
    assert_eq!(child_names(&graph, m), vec!["a", "b"]);
    let a = child(&graph, m, "a");
    let sources = graph.get_content_symbol(lib, &"a".to_string(), u32::MAX);
    assert_eq!(sources.len(), 2);
    match graph.get(a) {
        Symbol::Variable(var) => {
            let targets: Vec<Option<usize>> = var.evaluations.iter().map(|e| e.symbol.symbol).collect();
            assert_eq!(targets, vec![Some(sources[0]), Some(sources[1])]);
        }
        _ => panic!("an import must bind a variable"),
    }
}

#[test]
fn export_list_in_external_file_declares_its_names() {
    let (mut graph, file) = graph_with_module(true);
    let tree = vec![
        Stmt::Assign(StmtAssign {
            targets: vec![name_expr("__all__", 0)],
            value: Expr::List { elts: vec![lit("x", 11), lit("y", 16)], range: span(10, 20) },
            range: span(0, 20),
        }),
        import("sys", None, 21),
    ];
    let (mut builder, action) = start_on(&mut graph, file, tree);
    assert!(matches!(action, ArchAction::Evaluate { .. }));
    let action = builder
        .load_arch(
            &mut graph,
            ArchEvent::Evaluation { evaluations: list_value(vec![("x", 11), ("y", 16)]), diagnostics: vec![] },
        )
        .unwrap();
    assert!(matches!(action, ArchAction::Complete { .. }));
    assert_eq!(child_names(&graph, file), vec!["__all__", "sys", "x", "y"]);
    match graph.get(child(&graph, file, "__all__")) {
        Symbol::Variable(var) => {
            assert_eq!(var.evaluations.len(), 1);
            match &var.evaluations[0].value {
                Some(EvaluationValue::List(items)) => assert_eq!(items.len(), 2),
                _ => panic!("the variable must carry the list"),
            }
        }
        _ => panic!("__all__ is a variable"),
    }
    assert_eq!(graph.get(child(&graph, file, "x")).range(), Some(span(11, 14)));
    assert_eq!(graph.get(child(&graph, file, "y")).range(), Some(span(16, 19)));
    match graph.get(child(&graph, file, "x")) {
        Symbol::Variable(var) => assert!(!var.is_import_variable && var.evaluations.is_empty()),
        _ => panic!("a declared export is a variable"),
    }
}

#[test]
fn export_list_in_workspace_file_declares_nothing() {
    let (mut graph, file) = graph_with_module(false);
    let tree = vec![Stmt::Assign(StmtAssign {
        targets: vec![name_expr("__all__", 0)],
        value: Expr::List { elts: vec![lit("x", 11)], range: span(10, 20) },
        range: span(0, 20),
    })];
    let (mut builder, _) = start_on(&mut graph, file, tree);
    builder
        .load_arch(
            &mut graph,
            ArchEvent::Evaluation { evaluations: list_value(vec![("x", 11)]), diagnostics: vec![] },
        )
        .unwrap();
    assert_eq!(child_names(&graph, file), vec!["__all__"]);
}

#[test]
fn declared_export_that_is_bound_gets_no_second_symbol() {
    let (mut graph, file) = graph_with_module(true);
    let tree = vec![
        Stmt::Assign(StmtAssign {
            targets: vec![name_expr("__all__", 0)],
            value: Expr::List { elts: vec![lit("x", 11), 
                Expr::Other { range: span(15, 16) }, lit("z", 17)], range: span(10, 20) },
            range: span(0, 20),
        }),
        assign("x", 30),
    ];
    let (mut builder, _) = start_on(&mut graph, file, tree);
    let value = vec![Evaluation {
        symbol: EvaluationSymbol { symbol: None, instance: None },
        value: Some(EvaluationValue::List(vec![lit("x", 11), Expr::Other { range: span(15, 16) }, lit("z", 17)])),
        range: None,
    }];
    builder
        .load_arch(&mut graph, ArchEvent::Evaluation { evaluations: value, diagnostics: vec![] })
        .unwrap();
    assert_eq!(child_names(&graph, file), vec!["__all__", "x", "z"]);
}

#[test]
fn function_body_binds_no_import_and_no_assignment() {
    let (mut graph, file) = graph_with_module(false);
    let body = vec![import("os", None, 10), assign("x", 60)];
    run_plain(&mut graph, file, vec![def("f", vec![], vec![], body, 0)]);
    assert_eq!(child_names(&graph, file), vec!["f"]);
    let f = child(&graph, file, "f");
    assert_eq!(graph.get(f).typ(), SymType::Function);
    assert!(child_names(&graph, f).is_empty());
    match graph.get(f) {
        Symbol::Function(func) => assert!(func.args.is_empty()),
        _ => panic!("f is a function"),
    }
    assert_eq!(graph.len(), 3);
}

#[test]
fn class_has_docstring_and_method() {
    let (mut graph, file) = graph_with_module(false);
    let method = def("m", vec![], vec![param("self", 30)], vec![pass_stmt(40)], 20);
    let doc = Stmt::Expr(StmtExpr { value: lit("doc", 10), range: span(10, 15) });
    let (mut builder, action) = start_on(&mut graph, file, vec![class("C", vec![doc, method], 0)]);
    let c = child(&graph, file, "C");
    match action {
        ArchAction::ClassDefined { class } => assert_eq!(class, c),
        _ => panic!("the class hook was not asked for"),
    }
    assert!(matches!(builder.load_arch(&mut graph, ArchEvent::Ack).unwrap(), ArchAction::Complete { .. }));
    match graph.get(c) {
        Symbol::Class(class) => {
            assert_eq!(class.doc_string, Some("doc".to_string()));
            assert_eq!(class.range, span(0, 100));
            assert!(class.bases.is_empty());
        }
        _ => panic!("C is a class"),
    }
    assert_eq!(child_names(&graph, c), vec!["m"]);
    let m = child(&graph, c, "m");
    match graph.get(m) {
        Symbol::Function(func) => {
            assert_eq!(func.args.len(), 1);
            assert_eq!(func.args[0].symbol, child(&graph, m, "self"));
            assert_eq!(func.doc_string, None);
            assert!(func.can_be_in_class());
        }
        _ => panic!("m is a function"),
    }
    assert_eq!(graph.get(m).parent(), Some(c));
    assert_eq!(graph.get(c).parent(), Some(file));
}

#[test]
fn staticmethod_decorator_marks_function_static() {
    let (mut graph, file) = graph_with_module(false);
    let g = def("g", vec!["staticmethod"], vec![param("x", 30)], vec![pass_stmt(40)], 0);
    run_plain(&mut graph, file, vec![g]);
    let g = child(&graph, file, "g");
    match graph.get(g) {
        Symbol::Function(func) => {
            assert!(func.is_static);
            assert!(!func.is_property);
            assert_eq!(func.args.len(), 1);
            assert!(!func.args[0].is_args && !func.args[0].is_kwargs);
            assert!(func.args[0].default_value.is_none());
            match graph.get(func.args[0].symbol) {
                Symbol::Variable(x) => {
                    assert_eq!(x.name, "x");
                    assert!(x.is_parameter);
                    assert!(!x.is_import_variable);
                    assert_eq!(x.range, span(30, 31));
                }
                _ => panic!("a parameter is a variable"),
            }
        }
        _ => panic!("g is a function"),
    }
}

#[test]
fn property_decorator_marks_function_property() {
    let (mut graph, file) = graph_with_module(false);
    let doc = Stmt::Expr(StmtExpr { value: lit("text", 50), range: span(50, 56) });
    let mut p = def("p", vec!["other", "property"], vec![], vec![doc], 0);
    if let Stmt::FunctionDef(d) = &mut p {
        d.posonlyargs = vec![param("a", 20)];
        d.args = vec![Parameter { is_args: true, ..param("rest", 25) }, Parameter { is_kwargs: true, ..param("kw", 35) }];
    }
    run_plain(&mut graph, file, vec![p]);
    let p = child(&graph, file, "p");
    match graph.get(p) {
        Symbol::Function(func) => {
            assert!(func.is_property && !func.is_static);
            assert_eq!(func.doc_string, Some("text".to_string()));
            let flags: Vec<(bool, bool)> = func.args.iter().map(|a| (a.is_args, a.is_kwargs)).collect();
            assert_eq!(flags, vec![(false, false), (true, false), (false, true)]);
        }
        _ => panic!("p is a function"),
    }
    assert_eq!(child_names(&graph, p), vec!["a", "rest", "kw"]);
}

#[test]
fn unresolved_wildcard_import_is_recorded() {
    let (mut graph, file) = graph_with_module(false);
    let (mut builder, action) = start_on(&mut graph, file, vec![import_star("missing_pkg", 0)]);
    assert!(matches!(action, ArchAction::ResolveImport { .. }));
    let result = ImportResult {
        found: false,
        symbol: 0,
        file_tree: (vec!["ws".to_string()], vec!["missing_pkg".to_string()]),
        range: span(0, 21),
    };
    let action = builder.load_arch(&mut graph, ArchEvent::Import(result)).unwrap();
    match action {
        ArchAction::NotFound { file: reported } => assert_eq!(reported, file),
        _ => panic!("the file was not reported"),
    }
    assert!(child_names(&graph, file).is_empty());
    match graph.get(file) {
        Symbol::File(f) => {
            assert_eq!(f.not_found_paths.len(), 1);
            assert_eq!(f.not_found_paths[0].step, BuildSteps::Arch);
            assert_eq!(f.not_found_paths[0].path, vec!["ws".to_string(), "missing_pkg".to_string()]);
            assert!(f.dependencies.is_empty());
        }
        _ => panic!("m is a module"),
    }
    assert!(matches!(builder.load_arch(&mut graph, ArchEvent::Ack).unwrap(), ArchAction::Complete { .. }));
}

#[test]
fn wildcard_import_from_unfinished_file_counts_as_not_found() {
    let mut graph = SymbolGraph::new();
    let lib = graph.add_new_file(0, "lib".to_string(), "/ws/lib.py".to_string(), false);
    let m = graph.add_new_file(0, "m".to_string(), "/ws/m.py".to_string(), false);
    let (mut builder, _) = start_on(&mut graph, m, vec![import_star("lib", 0)]);
    let result = ImportResult {
        found: true,
        symbol: lib,
        file_tree: (vec!["ws".to_string()], vec!["lib".to_string()]),
        range: span(0, 21),
    };
    let action = builder.load_arch(&mut graph, ArchEvent::Import(result)).unwrap();
    assert!(matches!(action, ArchAction::NotFound { .. }));
    match graph.get(m) {
        Symbol::File(f) => assert_eq!(f.not_found_paths.len(), 1),
        _ => panic!("m is a module"),
    }
}

#[test]
fn wildcard_import_below_the_top_binds_nothing() {
    let (mut graph, file) = graph_with_module(false);
    let in_class = class("C", vec![import_star("pkg", 10)], 0);
    let in_function = def("f", vec![], vec![], vec![import_star("pkg", 210)], 200);
    let (mut builder, action) = start_on(&mut graph, file, vec![in_class, in_function]);
    assert!(matches!(action, ArchAction::ClassDefined { .. }));
    assert!(matches!(builder.load_arch(&mut graph, ArchEvent::Ack).unwrap(), ArchAction::Complete { .. }));
    assert_eq!(child_names(&graph, file), vec!["C", "f"]);
    assert!(child_names(&graph, child(&graph, file, "C")).is_empty());
    assert!(child_names(&graph, child(&graph, file, "f")).is_empty());
}

#[test]
fn wildcard_import_in_a_branch_at_the_top_is_resolved() {
    let (mut graph, file) = graph_with_module(false);
    let branch = Stmt::If(StmtIf { body: vec![import_star("pkg", 10)], elif_else_clauses: vec![], range: span(0, 40) });
    let (_, action) = start_on(&mut graph, file, vec![branch]);
    assert!(matches!(action, ArchAction::ResolveImport { .. }));
}

#[test]
fn dotted_import_binds_first_segment() {
    let (mut graph, file) = graph_with_module(false);
    run_plain(&mut graph, file, vec![import("a.b.c", None, 0), import("a.b.c", Some("z"), 50), import("os", None, 100)]);
    assert_eq!(child_names(&graph, file), vec!["a", "z", "os"]);
    for name in ["a", "z", "os"] {
        match graph.get(child(&graph, file, name)) {
            Symbol::Variable(v) => {
                assert!(v.is_import_variable);
                assert!(v.evaluations.is_empty());
            }
            _ => panic!("an import binds a variable"),
        }
    }
    assert_eq!(graph.get(child(&graph, file, "a")).range(), Some(span(7, 40)));
}

#[test]
fn import_in_class_binds_in_the_class() {
    let (mut graph, file) = graph_with_module(false);
    let (mut builder, _) = start_on(&mut graph, file, vec![class("C", vec![import("os", None, 10), assign("x", 60)], 0)]);
    builder.load_arch(&mut graph, ArchEvent::Ack).unwrap();
    assert_eq!(child_names(&graph, file), vec!["C"]);
    assert_eq!(child_names(&graph, child(&graph, file, "C")), vec!["os", "x"]);
}

#[test]
fn branches_are_all_walked() {
    let (mut graph, file) = graph_with_module(false);
    let if_stmt = Stmt::If(StmtIf {
        body: vec![assign("a", 10)],
        elif_else_clauses: vec![
            ElifElseClause { body: vec![assign("b", 30)], range: span(30, 50) },
            ElifElseClause { body: vec![assign("c", 50)], range: span(50, 70) },
        ],
        range: span(0, 70),
    });
    let try_stmt = Stmt::Try(StmtTry {
        body: vec![assign("d", 80)],
        orelse: vec![assign("e", 100)],
        finalbody: vec![assign("f", 120)],
        range: span(70, 140),
    });
    let for_stmt = Stmt::For(StmtFor {
        target: Expr::Tuple {
            elts: vec![name_expr("i", 150), Expr::Starred { value: Box::new(name_expr("rest", 153)), range: span(152, 157) }],
            range: span(150, 157),
        },
        body: vec![assign("g", 160)],
        orelse: vec![assign("h", 180)],
        range: span(140, 200),
    });
    run_plain(&mut graph, file, vec![if_stmt, try_stmt, for_stmt]);
    assert_eq!(child_names(&graph, file), vec!["a", "b", "c", "d", "e", "f", "i", "rest", "g", "h"]);
    assert_eq!(graph.get(child(&graph, file, "rest")).range(), Some(span(153, 157)));
}

#[test]
fn for_target_in_function_is_bound() {
    let (mut graph, file) = graph_with_module(false);
    let for_stmt = Stmt::For(StmtFor {
        target: name_expr("i", 20),
        body: vec![assign("x", 30), def("inner", vec![], vec![], vec![], 50)],
        orelse: vec![],
        range: span(10, 200),
    });
    run_plain(&mut graph, file, vec![def("f", vec![], vec![], vec![for_stmt], 0)]);
    let f = child(&graph, file, "f");
    assert_eq!(child_names(&graph, f), vec!["i", "inner"]);
}

#[test]
fn rebinding_a_name_keeps_both_symbols_in_order() {
    let (mut graph, file) = graph_with_module(false);
    run_plain(&mut graph, file, vec![assign("a", 0), assign("a", 20)]);
    let found = graph.get_content_symbol(file, &"a".to_string(), u32::MAX);
    assert_eq!(found.len(), 2);
    assert!(found[0] < found[1]);
    assert_eq!(graph.get(found[0]).range(), Some(span(0, 1)));
    assert_eq!(graph.get(found[1]).range(), Some(span(20, 21)));
}

#[test]
fn status_goes_from_pending_to_done() {
    let (mut graph, file) = graph_with_module(false);
    assert_eq!(graph.get(file).build_progress().get(BuildSteps::Arch), BuildStatus::Pending);
    let mut builder = PythonArchBuilder::new(file);
    builder.load_arch(&mut graph, ArchEvent::Start).unwrap();
    assert_eq!(graph.get(file).build_progress().get(BuildSteps::Arch), BuildStatus::InProgress);
    let action = builder.load_arch(&mut graph, ArchEvent::File { in_workspace: false, ast: Some(vec![]) }).unwrap();
    match action {
        ArchAction::Complete { file: done, has_ast, diagnostics } => {
            assert_eq!(done, file);
            assert!(has_ast);
            assert!(diagnostics.is_empty());
        }
        _ => panic!("an empty file is complete at once"),
    }
    assert_eq!(graph.get(file).build_progress().get(BuildSteps::Arch), BuildStatus::InProgress);
    assert!(matches!(builder.load_arch(&mut graph, ArchEvent::Ack).unwrap(), ArchAction::Done));
    assert_eq!(graph.get(file).build_progress().get(BuildSteps::Arch), BuildStatus::Done);
    assert_eq!(graph.get(file).build_progress().get(BuildSteps::ArchEval), BuildStatus::Pending);
    assert_eq!(builder.phase, Phase::Finished);
}

#[test]
fn missing_tree_completes_without_children() {
    let (mut graph, file) = graph_with_module(false);
    let mut builder = PythonArchBuilder::new(file);
    builder.load_arch(&mut graph, ArchEvent::Start).unwrap();
    let action = builder.load_arch(&mut graph, ArchEvent::File { in_workspace: true, ast: None }).unwrap();
    assert!(matches!(action, ArchAction::Complete { has_ast: false, .. }));
    assert!(matches!(builder.load_arch(&mut graph, ArchEvent::Ack).unwrap(), ArchAction::Done));
    assert!(child_names(&graph, file).is_empty());
    assert_eq!(graph.get(file).build_progress().get(BuildSteps::Arch), BuildStatus::Done);
    assert!(graph.get(file).in_workspace());
}

#[test]
fn root_and_variable_are_passed_over() {
    let (mut graph, file) = graph_with_module(false);
    let mut on_root = PythonArchBuilder::new(0);
    assert!(matches!(on_root.load_arch(&mut graph, ArchEvent::Start).unwrap(), ArchAction::Done));
    assert_eq!(graph.get(0).build_progress().get(BuildSteps::Arch), BuildStatus::Pending);
    let v = graph.add_new_variable(file, &"v".to_string(), &span(0, 1));
    let mut on_variable = PythonArchBuilder::new(v);
    assert!(matches!(on_variable.load_arch(&mut graph, ArchEvent::Start).unwrap(), ArchAction::Done));
    assert_eq!(graph.len(), 3);
}

#[test]
fn package_reads_its_init_file() {
    let mut graph = SymbolGraph::new();
    let pkg = graph.add_new_package(0, "pkg".to_string(), "/lib/pkg".to_string(), "i".to_string(), true);
    let mut builder = PythonArchBuilder::new(pkg);
    match builder.load_arch(&mut graph, ArchEvent::Start).unwrap() {
        ArchAction::ReadFile { path, diagnostics } => {
            assert_eq!(path, "/lib/pkg/__init__.pyi");
            assert!(diagnostics.is_empty());
        }
        _ => panic!("the file was not asked for"),
    }
    let slash = graph.add_new_package(0, "q".to_string(), "/lib/q/".to_string(), String::new(), true);
    let mut builder = PythonArchBuilder::new(slash);
    match builder.load_arch(&mut graph, ArchEvent::Start).unwrap() {
        ArchAction::ReadFile { path, .. } => assert_eq!(path, "/lib/q/__init__.py"),
        _ => panic!("the file was not asked for"),
    }
    let (mut graph, file) = graph_with_module(false);
    let mut builder = PythonArchBuilder::new(file);
    match builder.load_arch(&mut graph, ArchEvent::Start).unwrap() {
        ArchAction::ReadFile { path, .. } => assert_eq!(path, "/ws/m.py"),
        _ => panic!("the file was not asked for"),
    }
}

#[test]
fn workspace_membership_comes_from_parent_or_file_manager() {
    let mut graph = SymbolGraph::new();
    let pkg = graph.add_new_package(0, "pkg".to_string(), "/ws/pkg".to_string(), String::new(), false);
    let mut builder = PythonArchBuilder::new(pkg);
    builder.load_arch(&mut graph, ArchEvent::Start).unwrap();
    builder.load_arch(&mut graph, ArchEvent::File { in_workspace: true, ast: None }).unwrap();
    assert!(graph.get(pkg).in_workspace());
    let inside = graph.add_new_file(pkg, "a".to_string(), "/ws/pkg/a.py".to_string(), false);
    let mut builder = PythonArchBuilder::new(inside);
    builder.load_arch(&mut graph, ArchEvent::Start).unwrap();
    builder.load_arch(&mut graph, ArchEvent::File { in_workspace: false, ast: None }).unwrap();
    assert!(graph.get(inside).in_workspace());
    let outside = graph.add_new_file(0, "b".to_string(), "/other/b.py".to_string(), false);
    let mut builder = PythonArchBuilder::new(outside);
    builder.load_arch(&mut graph, ArchEvent::Start).unwrap();
    builder.load_arch(&mut graph, ArchEvent::File { in_workspace: false, ast: None }).unwrap();
    assert!(!graph.get(outside).in_workspace());
}

#[test]
fn errors_leave_everything_as_it_was() {
    let (mut graph, file) = graph_with_module(false);
    let mut builder = PythonArchBuilder::new(file);
    assert_eq!(builder.load_arch(&mut graph, ArchEvent::Ack).err(), Some(ArchError::UnexpectedEvent));
    assert_eq!(
        builder.load_arch(&mut graph, ArchEvent::File { in_workspace: true, ast: None }).err(),
        Some(ArchError::UnexpectedEvent)
    );
    assert_eq!(builder.phase, Phase::Created);
    let mut nowhere = PythonArchBuilder::new(99);
    assert_eq!(nowhere.load_arch(&mut graph, ArchEvent::Start).err(), Some(ArchError::UnknownSymbol));
    let c = graph.add_new_class(file, &"C".to_string(), &span(0, 5));
    let mut on_class = PythonArchBuilder::new(c);
    assert_eq!(on_class.load_arch(&mut graph, ArchEvent::Start).err(), Some(ArchError::NotSinglePath));
    builder.load_arch(&mut graph, ArchEvent::Start).unwrap();
    assert_eq!(builder.load_arch(&mut graph, ArchEvent::Start).err(), Some(ArchError::UnexpectedEvent));
    let mut second = PythonArchBuilder::new(file);
    assert_eq!(second.load_arch(&mut graph, ArchEvent::Start).err(), Some(ArchError::NotPending));
    assert_eq!(graph.get(file).build_progress().get(BuildSteps::Arch), BuildStatus::InProgress);
    assert_eq!(graph.len(), 3);
}

#[test]
fn import_result_outside_the_graph_is_refused() {
    let (mut graph, file) = graph_with_module(false);
    let (mut builder, _) = start_on(&mut graph, file, vec![import_star("pkg", 0)]);
    let result = ImportResult { found: true, symbol: 50, file_tree: (vec![], vec![]), range: span(0, 21) };
    assert_eq!(builder.load_arch(&mut graph, ArchEvent::Import(result)).err(), Some(ArchError::UnknownSymbol));
    assert_eq!(builder.phase, Phase::AwaitImport);
    assert!(child_names(&graph, file).is_empty());
}

#[test]
fn running_twice_gives_the_same_children() {
    let tree = || {
        vec![
            import("a.b", None, 0),
            class("C", vec![def("m", vec!["property"], vec![param("self", 130)], vec![], 120)], 100),
            assign("x", 300),
        ]
    };
    let shape = |graph: &SymbolGraph, file: usize| -> Vec<(String, SymType, Option<TextRange>, Vec<String>)> {
        graph
            .get(file)
            .content()
            .unwrap()
            .symbols
            .iter()
            .map(|b| {
                let s = graph.get(b.symbol);
                let inner = s.content().map(|c| c.symbols.iter().map(|x| x.name.clone()).collect()).unwrap_or_default();
                (b.name.clone(), s.typ(), s.range(), inner)
            })
            .collect()
    };
    let (mut first, file_a) = graph_with_module(false);
    let (mut builder, _) = start_on(&mut first, file_a, tree());
    builder.load_arch(&mut first, ArchEvent::Ack).unwrap();
    let mut second = SymbolGraph::new();
    second.add_new_file(0, "other".to_string(), "/ws/o.py".to_string(), false);
    let file_b = second.add_new_file(0, "m".to_string(), "/ws/m.py".to_string(), false);
    let (mut builder, _) = start_on(&mut second, file_b, tree());
    builder.load_arch(&mut second, ArchEvent::Ack).unwrap();
    assert_eq!(shape(&first, file_a), shape(&second, file_b));
    assert_eq!(shape(&first, file_a).len(), 3);
}

#[test]
fn diagnostics_are_handed_on() {
    let (mut graph, file) = graph_with_module(false);
    let mut builder = PythonArchBuilder::new(file);
    let early = lsp_types::Diagnostic { message: "early".to_string(), ..Default::default() };
    builder.diagnostics.push(early.clone());
    match builder.load_arch(&mut graph, ArchEvent::Start).unwrap() {
        ArchAction::ReadFile { diagnostics, .. } => assert_eq!(diagnostics, vec![early.clone()]),
        _ => panic!("the file was not asked for"),
    }
    let tree = vec![Stmt::Assign(StmtAssign {
        targets: vec![name_expr("__all__", 0)],
        value: Expr::Other { range: span(10, 20) },
        range: span(0, 20),
    })];
    builder.load_arch(&mut graph, ArchEvent::File { in_workspace: true, ast: Some(tree) }).unwrap();
    let late = lsp_types::Diagnostic { message: "late".to_string(), ..Default::default() };
    let action = builder
        .load_arch(&mut graph, ArchEvent::Evaluation { evaluations: vec![], diagnostics: vec![late.clone()] })
        .unwrap();
    match action {
        ArchAction::Complete { diagnostics, .. } => assert_eq!(diagnostics, vec![early, late]),
        _ => panic!("the walk must be over"),
    }
    assert!(builder.diagnostics.is_empty());
}

/// Builds a module that binds `__all__`, a and b, and answers the
/// evaluation of the export list with `value`.
fn build_lib(graph: &mut SymbolGraph, value: Vec<Evaluation>) -> usize {
    let lib = graph.add_new_file(0, "lib".to_string(), "/ws/lib.py".to_string(), false);
    let tree = vec![
        Stmt::Assign(StmtAssign {
            targets: vec![name_expr("__all__", 0)],
            value: Expr::Other { range: span(10, 20) },
            range: span(0, 20),
        }),
        assign("a", 30),
        assign("b", 50),
    ];
    let (mut builder, _) = start_on(graph, lib, tree);
    builder.load_arch(graph, ArchEvent::Evaluation { evaluations: value, diagnostics: vec![] }).unwrap();
    builder.load_arch(graph, ArchEvent::Ack).unwrap();
    lib
}

fn import_all_from(graph: &mut SymbolGraph, lib: usize) -> (usize, PythonArchBuilder) {
    let m = graph.add_new_file(0, "m".to_string(), "/ws/m.py".to_string(), false);
    let (mut builder, _) = start_on(graph, m, vec![import_star("lib", 0)]);
    let result = ImportResult { found: true, symbol: lib, file_tree: (vec![], vec![]), range: span(0, 21) };
    builder.load_arch(graph, ArchEvent::Import(result)).unwrap();
    (m, builder)
}

fn valued(value: Option<EvaluationValue>) -> Evaluation {
    Evaluation { symbol: EvaluationSymbol { symbol: None, instance: None }, value, range: None }
}

#[test]
fn mixed_export_list_binds_its_strings_and_warns() {
    let mut graph = SymbolGraph::new();
    let list = EvaluationValue::Tuple(vec![lit("b", 11), Expr::Other { range: span(14, 15) }, lit("zz", 16)]);
    let lib = build_lib(&mut graph, vec![valued(Some(list))]);
    let (m, builder) = import_all_from(&mut graph, lib);
    assert_eq!(child_names(&graph, m), vec!["b"]);
    assert_eq!(builder.warnings, vec![ExportWarning { target: lib, issue: ExportListIssue::ParseError }]);
}

#[test]
fn export_list_without_value_lets_every_name_through() {
    let mut graph = SymbolGraph::new();
    let lib = build_lib(&mut graph, vec![valued(None)]);
    let (m, builder) = import_all_from(&mut graph, lib);
    assert_eq!(child_names(&graph, m), vec!["__all__", "a", "b"]);
    assert_eq!(builder.warnings, vec![ExportWarning { target: lib, issue: ExportListIssue::NoValue }]);
}

#[test]
fn export_list_with_several_evaluations_lets_every_name_through() {
    let mut graph = SymbolGraph::new();
    let two = vec![
        valued(Some(EvaluationValue::List(vec![lit("a", 11)]))),
        valued(Some(EvaluationValue::List(vec![lit("b", 11)]))),
    ];
    let lib = build_lib(&mut graph, two);
    let (m, builder) = import_all_from(&mut graph, lib);
    assert_eq!(child_names(&graph, m), vec!["__all__", "a", "b"]);
    assert_eq!(builder.warnings, vec![ExportWarning { target: lib, issue: ExportListIssue::Evaluations }]);
    let mut graph = SymbolGraph::new();
    let lib = build_lib(&mut graph, vec![]);
    let (m, builder) = import_all_from(&mut graph, lib);
    assert_eq!(child_names(&graph, m), vec!["__all__", "a", "b"]);
    assert_eq!(builder.warnings.len(), 1);
}

#[test]
fn constant_export_list_names_one_symbol() {
    let mut graph = SymbolGraph::new();
    let lib = build_lib(&mut graph, vec![valued(Some(EvaluationValue::Constant(lit("a", 10))))]);
    let (m, builder) = import_all_from(&mut graph, lib);
    assert_eq!(child_names(&graph, m), vec!["a"]);
    assert!(builder.warnings.is_empty());
}

#[test]
fn unknown_export_list_binds_nothing_and_warns() {
    let mut graph = SymbolGraph::new();
    let lib = build_lib(&mut graph, vec![valued(Some(EvaluationValue::Any))]);
    let (m, builder) = import_all_from(&mut graph, lib);
    assert!(child_names(&graph, m).is_empty());
    assert_eq!(builder.warnings, vec![ExportWarning { target: lib, issue: ExportListIssue::ParseError }]);
    match graph.get(m) {
        Symbol::File(f) => assert!(f.dependencies.is_empty()),
        _ => panic!("m is a module"),
    }
}

#[test]
fn export_list_name_that_the_module_lacks_is_not_bound() {
    let mut graph = SymbolGraph::new();
    let list = EvaluationValue::List(vec![lit("a", 11), lit("ghost", 15)]);
    let lib = build_lib(&mut graph, vec![valued(Some(list))]);
    let (m, builder) = import_all_from(&mut graph, lib);
    assert_eq!(child_names(&graph, m), vec!["a"]);
    assert!(builder.warnings.is_empty());
}

#[test]
fn annotated_assignment_keeps_the_span_of_its_annotation() {
    let (mut graph, file) = graph_with_module(false);
    let annotated = Stmt::AnnAssign(StmtAnnAssign {
        target: name_expr("x", 0),
        annotation: Expr::Other { range: span(3, 6) },
        value: None,
        range: span(0, 6),
    });
    run_plain(&mut graph, file, vec![annotated, assign("y", 10)]);
    assert_eq!(child_names(&graph, file), vec!["x", "y"]);
    match graph.get(child(&graph, file, "x")) {
        Symbol::Variable(v) => {
            assert_eq!(v.annotation, Some(span(3, 6)));
            assert_eq!(v.range, span(0, 1));
        }
        _ => panic!("x is a variable"),
    }
    match graph.get(child(&graph, file, "y")) {
        Symbol::Variable(v) => assert_eq!(v.annotation, None),
        _ => panic!("y is a variable"),
    }
}

#[test]
fn annotated_export_list_is_evaluated() {
    let (mut graph, file) = graph_with_module(false);
    let annotated = Stmt::AnnAssign(StmtAnnAssign {
        target: name_expr("__all__", 0),
        annotation: Expr::Other { range: span(9, 13) },
        value: Some(Expr::List { elts: vec![], range: span(16, 18) }),
        range: span(0, 18),
    });
    let (_, action) = start_on(&mut graph, file, vec![annotated]);
    match action {
        ArchAction::Evaluate { value, parent, position } => {
            assert_eq!(value, span(16, 18));
            assert_eq!(parent, file);
            assert_eq!(position, 0);
        }
        _ => panic!("the export list was not evaluated"),
    }
}

#[test]
fn export_list_in_a_class_is_a_plain_variable() {
    let (mut graph, file) = graph_with_module(true);
    let inner = Stmt::Assign(StmtAssign {
        targets: vec![name_expr("__all__", 10)],
        value: Expr::List { elts: vec![lit("x", 21)], range: span(20, 26) },
        range: span(10, 26),
    });
    let (_, action) = start_on(&mut graph, file, vec![class("C", vec![inner], 0)]);
    assert!(matches!(action, ArchAction::ClassDefined { .. }));
    assert_eq!(child_names(&graph, child(&graph, file, "C")), vec!["__all__"]);
}

#[test]
fn namespace_and_compiled_module_are_passed_over() {
    let mut graph = SymbolGraph::new();
    let ns = graph.add_new_namespace(0, "ns".to_string(), vec!["/a/ns".to_string(), "/b/ns".to_string()]);
    let so = graph.add_new_compiled(ns, "fast".to_string(), "/a/ns/fast.so".to_string());
    assert_eq!(graph.get(ns).typ(), SymType::Namespace);
    assert_eq!(graph.get(ns).paths().len(), 2);
    assert_eq!(graph.get(so).typ(), SymType::Compiled);
    assert_eq!(graph.get(so).parent(), Some(ns));
    for id in [ns, so] {
        let mut builder = PythonArchBuilder::new(id);
        assert!(matches!(builder.load_arch(&mut graph, ArchEvent::Start).unwrap(), ArchAction::Done));
        assert_eq!(builder.phase, Phase::Finished);
        assert_eq!(graph.get(id).build_progress().get(BuildSteps::Arch), BuildStatus::Pending);
    }
    assert_eq!(graph.len(), 3);
}
