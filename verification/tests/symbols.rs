use arch_builder::constants::{BuildProgress, BuildStatus, BuildSteps, SymType};
use arch_builder::evaluation::{Evaluation, EvaluationSymbol};
use arch_builder::symbols::file_symbol::Dependency;
use arch_builder::symbols::function_symbol::{Argument, FunctionSymbol};
use arch_builder::symbols::graph::SymbolGraph;
use arch_builder::symbols::symbol::Symbol;
use arch_builder::symbols::symbol_mgr::{SectionRange, SymbolMgr};
use arch_builder::symbols::variable_symbol::VariableSymbol;
use ruff_text_size::{TextRange, TextSize};

fn at(start: u32, end: u32) -> TextRange {
    TextRange::new(TextSize::new(start), TextSize::new(end))
}

fn evaluation(instance: Option<bool>) -> Evaluation {
    Evaluation { symbol: EvaluationSymbol { symbol: Some(1), instance }, value: None, range: None }
}

fn argument(is_args: bool, is_kwargs: bool) -> Argument {
    Argument { symbol: 0, default_value: None, is_args, is_kwargs }
}

#[test]
fn new_function_is_empty_with_one_section() {
    let f = FunctionSymbol::new("f".to_string(), at(3, 9), true);
    assert_eq!(f.name, "f");
    assert_eq!(f.range, at(3, 9));
    assert!(f.is_external);
    assert!(!f.is_static && !f.is_property);
    assert!(f.doc_string.is_none() && f.parent.is_none() && f.weak_self.is_none());
    assert!(f.args.is_empty() && f.evaluations.is_empty());
    assert_eq!(f.status, BuildProgress {
        arch: BuildStatus::Pending,
        arch_eval: BuildStatus::Pending,
        odoo: BuildStatus::Pending,
        validation: BuildStatus::Pending,
    });
    assert_eq!(f.content.sections, vec![SectionRange { start: 0, index: 0 }]);
    assert!(f.content.symbols.is_empty());
}

#[test]
fn function_add_symbol_appends_in_order() {
    let mut f = FunctionSymbol::new("f".to_string(), at(0, 1), false);
    f.add_symbol("a".to_string(), 7, 0);
    f.add_symbol("b".to_string(), 9, 0);
    f.add_symbol("a".to_string(), 11, 0);
    let bound: Vec<(String, u32, usize)> =
        f.content.symbols.iter().map(|b| (b.name.clone(), b.section, b.symbol)).collect();
    assert_eq!(bound, vec![("a".to_string(), 0, 7), ("b".to_string(), 0, 9), ("a".to_string(), 0, 11)]);
    assert_eq!(f.content.get_content_symbol(&"a".to_string(), u32::MAX), vec![7, 11]);
    assert_eq!(f.content.names(), vec!["a".to_string(), "b".to_string()]);
}

#[test]
fn function_can_be_in_class_needs_a_plain_parameter() {
    let mut f = FunctionSymbol::new("f".to_string(), at(0, 1), false);
    assert!(!f.can_be_in_class());
    f.args.push(argument(true, false));
    f.args.push(argument(false, true));
    assert!(!f.can_be_in_class());
    f.args.push(argument(false, false));
    assert!(f.can_be_in_class());
}

#[test]
fn new_variable_has_no_flags() {
    let v = VariableSymbol::new("v".to_string(), at(2, 3), true);
    assert_eq!(v.name, "v");
    assert_eq!(v.range, at(2, 3));
    assert!(v.is_external);
    assert!(!v.is_import_variable && !v.is_parameter);
    assert!(v.evaluations.is_empty() && v.doc_string.is_none());
    assert!(v.parent.is_none() && v.weak_self.is_none());
}

#[test]
fn type_alias_needs_evaluations_that_are_no_instances() {
    let mut v = VariableSymbol::new("v".to_string(), at(0, 1), false);
    assert!(!v.is_type_alias());
    v.evaluations.push(evaluation(Some(false)));
    assert!(v.is_type_alias());
    v.is_import_variable = true;
    assert!(!v.is_type_alias());
    v.is_import_variable = false;
    v.evaluations.push(evaluation(None));
    assert!(!v.is_type_alias());
    v.evaluations.pop();
    v.evaluations.push(evaluation(Some(true)));
    assert!(!v.is_type_alias());
}

#[test]
fn section_for_position_is_the_last_that_starts_before() {
    let mut mgr = SymbolMgr::new();
    assert_eq!(mgr.get_section_for(0), SectionRange { start: 0, index: 0 });
    assert_eq!(mgr.get_section_for(500), SectionRange { start: 0, index: 0 });
    assert_eq!(mgr.add_section(10), SectionRange { start: 10, index: 1 });
    assert_eq!(mgr.add_section(20), SectionRange { start: 20, index: 2 });
    assert_eq!(mgr.get_section_for(9).index, 0);
    assert_eq!(mgr.get_section_for(10).index, 1);
    assert_eq!(mgr.get_section_for(19).index, 1);
    assert_eq!(mgr.get_section_for(20).index, 2);
    assert_eq!(mgr.get_section_for(u32::MAX).index, 2);
}

#[test]
fn lookup_sees_bindings_of_sections_started() {
    let mut mgr = SymbolMgr::new();
    mgr.add_section(10);
    mgr.add_symbol("x".to_string(), 4, 0);
    mgr.add_symbol("x".to_string(), 5, 1);
    mgr.add_symbol("y".to_string(), 6, 1);
    assert_eq!(mgr.get_content_symbol(&"x".to_string(), 5), vec![4]);
    assert_eq!(mgr.get_content_symbol(&"x".to_string(), 10), vec![4, 5]);
    assert_eq!(mgr.get_content_symbol(&"x".to_string(), u32::MAX), vec![4, 5]);
    assert_eq!(mgr.get_content_symbol(&"y".to_string(), 9), Vec::<usize>::new());
    assert_eq!(mgr.get_content_symbol(&"z".to_string(), u32::MAX), Vec::<usize>::new());
}

#[test]
fn new_graph_holds_the_root() {
    let graph = SymbolGraph::new();
    assert_eq!(graph.len(), 1);
    assert_eq!(graph.get(0).typ(), SymType::Root);
    assert_eq!(graph.get(0).parent(), None);
    assert!(graph.get(0).content().is_none());
    assert!(graph.get(0).paths().is_empty());
}

#[test]
fn variable_lands_in_the_section_where_its_span_starts() {
    let mut graph = SymbolGraph::new();
    let file = graph.add_new_file(0, "m".to_string(), "/m.py".to_string(), true);
    assert_eq!(graph.add_section(file, 10), Some(SectionRange { start: 10, index: 1 }));
    assert_eq!(graph.add_section(file, 5), None);
    assert_eq!(graph.add_section(0, 10), None);
    let early = graph.add_new_variable(file, &"a".to_string(), &at(3, 4));
    let late = graph.add_new_variable(file, &"a".to_string(), &at(12, 13));
    let edge = graph.add_new_class(file, &"C".to_string(), &at(10, 30));
    let sections: Vec<u32> = graph.get(file).content().unwrap().symbols.iter().map(|b| b.section).collect();
    assert_eq!(sections, vec![0, 1, 1]);
    assert_eq!(graph.get_content_symbol(file, &"a".to_string(), 9), vec![early]);
    assert_eq!(graph.get_content_symbol(file, &"a".to_string(), u32::MAX), vec![early, late]);
    assert_eq!(graph.content_names(file), vec!["a".to_string(), "C".to_string()]);
    assert_eq!(graph.get(edge).typ(), SymType::Class);
    assert!(graph.get(edge).is_external());
    assert_eq!(graph.get(late).parent(), Some(file));
    match graph.get(late) {
        Symbol::Variable(v) => assert_eq!(v.weak_self, Some(late)),
        _ => panic!("a variable was added"),
    }
}

#[test]
fn file_of_a_symbol_is_its_nearest_module() {
    let mut graph = SymbolGraph::new();
    let pkg = graph.add_new_package(0, "p".to_string(), "/p".to_string(), String::new(), false);
    let file = graph.add_new_file(pkg, "m".to_string(), "/p/m.py".to_string(), false);
    let class = graph.add_new_class(file, &"C".to_string(), &at(0, 9));
    let method = graph.add_new_function(class, &"f".to_string(), &at(2, 8));
    let var = graph.add_new_variable(method, &"x".to_string(), &at(3, 4));
    assert_eq!(graph.get_file(var), Some(file));
    assert_eq!(graph.get_file(class), Some(file));
    assert_eq!(graph.get_file(file), Some(file));
    assert_eq!(graph.get_file(pkg), Some(pkg));
    assert_eq!(graph.get_file(0), None);
    assert_eq!(graph.get(pkg).paths(), vec!["/p".to_string()]);
    assert!(class < method && method < var);
}

#[test]
fn upgrade_follows_only_references_into_the_graph() {
    let graph = SymbolGraph::new();
    assert_eq!(graph.upgrade(&EvaluationSymbol { symbol: Some(0), instance: None }), Some(0));
    assert_eq!(graph.upgrade(&EvaluationSymbol { symbol: Some(1), instance: None }), None);
    assert_eq!(graph.upgrade(&EvaluationSymbol { symbol: None, instance: None }), None);
}

#[test]
fn dependency_is_recorded_once_on_both_files() {
    let mut graph = SymbolGraph::new();
    let a = graph.add_new_file(0, "a".to_string(), "/a.py".to_string(), false);
    let b = graph.add_new_file(0, "b".to_string(), "/b.py".to_string(), false);
    graph.add_dependency(a, b, BuildSteps::Arch, BuildSteps::Arch);
    graph.add_dependency(a, b, BuildSteps::Arch, BuildSteps::Arch);
    graph.add_dependency(a, b, BuildSteps::ArchEval, BuildSteps::Arch);
    let arch = Dependency { target: b, step: BuildSteps::Arch, dep_step: BuildSteps::Arch };
    let eval = Dependency { target: b, step: BuildSteps::ArchEval, dep_step: BuildSteps::Arch };
    match graph.get(a) {
        Symbol::File(f) => {
            assert_eq!(f.dependencies, vec![arch, eval]);
            assert!(f.dependents.is_empty());
        }
        _ => panic!("a is a module"),
    }
    match graph.get(b) {
        Symbol::File(f) => {
            assert_eq!(f.dependents.len(), 2);
            assert_eq!(f.dependents[0].target, a);
            assert!(f.dependencies.is_empty());
        }
        _ => panic!("b is a module"),
    }
}

#[test]
fn setters_change_one_symbol() {
    let mut graph = SymbolGraph::new();
    let file = graph.add_new_file(0, "m".to_string(), "/m.py".to_string(), false);
    let f = graph.add_new_function(file, &"f".to_string(), &at(0, 9));
    let v = graph.add_new_variable(f, &"x".to_string(), &at(2, 3));
    graph.set_build_status(file, BuildSteps::Odoo, BuildStatus::Done);
    graph.set_build_status(v, BuildSteps::Arch, BuildStatus::Done);
    graph.set_function_flags(f, true, false);
    graph.set_doc_string(f, Some("d".to_string()));
    graph.set_parameter(v);
    graph.add_argument(f, Argument { symbol: v, default_value: None, is_args: true, is_kwargs: false });
    graph.add_not_found_path(file, BuildSteps::Arch, vec!["x".to_string()]);
    assert_eq!(graph.get(file).build_progress().get(BuildSteps::Odoo), BuildStatus::Done);
    assert_eq!(graph.get(file).build_progress().get(BuildSteps::Arch), BuildStatus::Pending);
    assert_eq!(graph.get(v).build_progress().get(BuildSteps::Arch), BuildStatus::Pending);
    match graph.get(f) {
        Symbol::Function(func) => {
            assert!(func.is_static && !func.is_property);
            assert_eq!(func.doc_string, Some("d".to_string()));
            assert_eq!(func.args.len(), 1);
            assert!(!func.can_be_in_class());
        }
        _ => panic!("f is a function"),
    }
    match graph.get(v) {
        Symbol::Variable(var) => assert!(var.is_parameter && !var.is_import_variable),
        _ => panic!("x is a variable"),
    }
}
