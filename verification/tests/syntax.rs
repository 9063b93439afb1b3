use arch_builder::arch_plan::{Scope, WalkOp};
use arch_builder::ast::{doc_string, Alias, Expr, Identifier, Stmt, StmtExpr, StmtImportFrom};
use arch_builder::evaluation::{extract_literals, EvaluationValue};
use arch_builder::python_arch_builder::PythonArchBuilder;
use arch_builder::python_utils::{first_dotted_segment, unpack_assign};
use ruff_text_size::{TextRange, TextSize};

fn rng(start: u32, end: u32) -> TextRange {
    TextRange::new(TextSize::new(start), TextSize::new(end))
}

fn text(value: &str) -> Expr {
    Expr::StringLiteral { value: value.to_string(), range: rng(0, 1) }
}

fn named(id: &str, start: u32) -> Expr {
    Expr::Name { id: id.to_string(), range: rng(start, start + 1) }
}

fn other() -> Expr {
    Expr::Other { range: rng(0, 1) }
}

#[test]
fn export_list_without_value_is_an_error() {
    assert_eq!(PythonArchBuilder::extract_all_symbol_eval_values(None), (vec![], true));
}

#[test]
fn unknown_or_dict_export_list_is_an_error() {
    assert_eq!(PythonArchBuilder::extract_all_symbol_eval_values(Some(&EvaluationValue::Any)), (vec![], true));
    assert_eq!(PythonArchBuilder::extract_all_symbol_eval_values(Some(&EvaluationValue::Dict)), (vec![], true));
}

#[test]
fn constant_export_list_declares_a_string() {
    let value = EvaluationValue::Constant(text("only"));
    assert_eq!(
        PythonArchBuilder::extract_all_symbol_eval_values(Some(&value)),
        (vec!["only".to_string()], false)
    );
    let number = EvaluationValue::Constant(other());
    assert_eq!(PythonArchBuilder::extract_all_symbol_eval_values(Some(&number)), (vec![], true));
}

#[test]
fn list_export_list_keeps_its_strings_and_flags_the_rest() {
    let pure = EvaluationValue::List(vec![text("a"), text("b"), text("a")]);
    assert_eq!(
        PythonArchBuilder::extract_all_symbol_eval_values(Some(&pure)),
        (vec!["a".to_string(), "b".to_string(), "a".to_string()], false)
    );
    let mixed = EvaluationValue::Tuple(vec![text("a"), named("x", 0), text("b")]);
    assert_eq!(
        PythonArchBuilder::extract_all_symbol_eval_values(Some(&mixed)),
        (vec!["a".to_string(), "b".to_string()], true)
    );
    let empty = EvaluationValue::List(vec![]);
    assert_eq!(PythonArchBuilder::extract_all_symbol_eval_values(Some(&empty)), (vec![], false));
    assert_eq!(extract_literals(&vec![other()]), (vec![], true));
}

#[test]
fn first_segment_of_dotted_names() {
    assert_eq!(first_dotted_segment(&"a.b.c".to_string()), "a");
    assert_eq!(first_dotted_segment(&"os".to_string()), "os");
    assert_eq!(first_dotted_segment(&"pkg.sub".to_string()), "pkg");
    assert_eq!(first_dotted_segment(&".rel".to_string()), "");
    assert_eq!(first_dotted_segment(&"".to_string()), "");
    assert_eq!(first_dotted_segment(&"é.x".to_string()), "é");
}

#[test]
fn unpacking_flattens_tuples_lists_and_stars() {
    let targets = vec![
        named("a", 0),
        Expr::Tuple {
            elts: vec![
                named("b", 2),
                Expr::List { elts: vec![named("c", 4), other()], range: rng(4, 8) },
                Expr::Starred { value: Box::new(named("d", 9)), range: rng(8, 10) },
            ],
            range: rng(2, 10),
        },
        other(),
    ];
    let value = Expr::Other { range: rng(20, 25) };
    let assigns = unpack_assign(&targets, None, Some(&value));
    let seen: Vec<(String, TextRange, Option<TextRange>)> =
        assigns.iter().map(|a| (a.target.clone(), a.range, a.value)).collect();
    assert_eq!(
        seen,
        vec![
            ("a".to_string(), rng(0, 1), Some(rng(20, 25))),
            ("b".to_string(), rng(2, 3), None),
            ("c".to_string(), rng(4, 5), None),
            ("d".to_string(), rng(9, 10), None),
        ]
    );
    assert!(assigns.iter().all(|a| a.annotation.is_none()));
}

#[test]
fn unpacking_keeps_the_annotation_of_a_name() {
    let annotation = Expr::Other { range: rng(5, 8) };
    let assigns = unpack_assign(&vec![named("x", 0)], Some(&annotation), None);
    assert_eq!(assigns.len(), 1);
    assert_eq!(assigns[0].annotation, Some(rng(5, 8)));
    assert_eq!(assigns[0].value, None);
}

#[test]
fn docstring_is_the_first_string_statement() {
    let with_doc = vec![
        Stmt::Expr(StmtExpr { value: text("doc"), range: rng(0, 5) }),
        Stmt::Expr(StmtExpr { value: text("later"), range: rng(6, 13) }),
    ];
    assert_eq!(doc_string(&with_doc), Some("doc".to_string()));
    let late = vec![Stmt::Other { range: rng(0, 4) }, Stmt::Expr(StmtExpr { value: text("doc"), range: rng(5, 10) })];
    assert_eq!(doc_string(&late), None);
    assert_eq!(doc_string(&vec![Stmt::Expr(StmtExpr { value: other(), range: rng(0, 1) })]), None);
    assert_eq!(doc_string(&vec![]), None);
}

#[test]
fn plan_of_a_star_import_depends_on_the_scope() {
    let star = Stmt::ImportFrom(StmtImportFrom {
        module: Some(Identifier { id: "pkg".to_string(), range: rng(5, 8) }),
        names: vec![
            Alias { name: Identifier { id: "*".to_string(), range: rng(16, 17) }, asname: None, range: rng(16, 17) },
        ],
        level: 2,
        range: rng(0, 17),
    });
    let nodes = vec![star];
    let mut at_top: Vec<WalkOp> = vec![];
    PythonArchBuilder::visit_node(&nodes, Scope::File, &mut at_top);
    assert_eq!(at_top.len(), 1);
    match &at_top[0] {
        WalkOp::ImportAll { module, level, range } => {
            assert_eq!(module, &Some("pkg".to_string()));
            assert_eq!(level, &Some(2));
            assert_eq!(range, &rng(0, 17));
        }
        _ => panic!("a star at the top is resolved"),
    }
    let mut in_class: Vec<WalkOp> = vec![];
    PythonArchBuilder::visit_node(&nodes, Scope::Class, &mut in_class);
    assert!(in_class.is_empty());
    let mut in_function: Vec<WalkOp> = vec![];
    PythonArchBuilder::visit_node(&nodes, Scope::Function, &mut in_function);
    assert!(in_function.is_empty());
}
