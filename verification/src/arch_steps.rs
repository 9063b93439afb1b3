//! What each step of the builder does to the symbol graph.
use vstd::prelude::*;
use ruff_text_size::TextRange;
use crate::arch_plan::{parameter_op_models, ParameterModel, ParameterOp};
use crate::constants::SymType;
use crate::ast::Expr;
use crate::evaluation::{Evaluation, EvaluationValue};
use crate::symbols::function_symbol::Argument;
use crate::symbols::graph::{add_symbol, SymbolGraph};
use crate::symbols::symbol::SymbolModel;
use crate::symbols::symbol_mgr::binding_set;
use crate::symbols::variable_symbol::opt_text;

verus! {

/// The graph `h` holds the symbols of `g`, each of the kind it had, and
/// maybe more.
pub open spec fn kinds_kept(g: Seq<SymbolModel>, h: Seq<SymbolModel>) -> bool {
    &&& g.len() <= h.len()
    &&& forall|i: int| 0 <= i < g.len() ==> (#[trigger] h[i]).typ == g[i].typ
}

/// The graph `g` after a variable was created in container `top` and given
/// its flags and evaluations.
pub open spec fn bind_variable(
    g: Seq<SymbolModel>,
    top: int,
    name: Seq<char>,
    range: TextRange,
    is_import_variable: bool,
    is_parameter: bool,
    evaluations: Seq<Evaluation>,
) -> Seq<SymbolModel> {
    let g1 = add_symbol(g, top, SymType::Variable, name, range);
    g1.update(
        g.len() as int,
        SymbolModel { is_import_variable, is_parameter, evaluations, ..g1[g.len() as int] },
    )
}

/// The graph `g` after a variable was created in container `top` for an
/// assigned name, with the span of its annotation if it has one.
pub open spec fn bind_assigned(
    g: Seq<SymbolModel>,
    top: int,
    name: Seq<char>,
    range: TextRange,
    annotation: Option<TextRange>,
) -> Seq<SymbolModel> {
    let g1 = add_symbol(g, top, SymType::Variable, name, range);
    g1.update(g.len() as int, SymbolModel { annotation, ..g1[g.len() as int] })
}

/// The graph `g` after parameter `p` was created in function `f` and
/// entered in its parameter list, without a default value.
pub open spec fn with_parameter(g: Seq<SymbolModel>, f: int, p: ParameterModel) -> Seq<SymbolModel> {
    let g1 = bind_variable(g, f, p.name, p.range, false, true, Seq::empty());
    g1.update(
        f,
        SymbolModel {
            args: g1[f].args.push(
                Argument {
                    symbol: g.len() as usize,
                    default_value: None,
                    is_args: p.is_args,
                    is_kwargs: p.is_kwargs,
                },
            ),
            ..g1[f]
        },
    )
}

/// The graph `g` after the parameters were created in function `f`, in
/// their order.
pub open spec fn with_parameters(g: Seq<SymbolModel>, f: int, parameters: Seq<ParameterModel>) -> Seq<
    SymbolModel,
>
    decreases parameters.len(),
{
    if parameters.len() == 0 {
        g
    } else {
        with_parameter(with_parameters(g, f, parameters.drop_last()), f, parameters.last())
    }
}

/// The graph `g` after a function was created in container `top`, with
/// its flags, its docstring and its parameters. The function is symbol
/// `g.len()`.
pub open spec fn define_function(
    g: Seq<SymbolModel>,
    top: int,
    name: Seq<char>,
    range: TextRange,
    is_static: bool,
    is_property: bool,
    doc_string: Option<Seq<char>>,
    parameters: Seq<ParameterModel>,
) -> Seq<SymbolModel> {
    let g1 = add_symbol(g, top, SymType::Function, name, range);
    let f = g.len() as int;
    let g2 = g1.update(f, SymbolModel { is_static, is_property, doc_string, ..g1[f] });
    with_parameters(g2, f, parameters)
}

/// The graph `g` after a class was created in container `top`, with its
/// docstring. The class is symbol `g.len()`.
pub open spec fn define_class(
    g: Seq<SymbolModel>,
    top: int,
    name: Seq<char>,
    range: TextRange,
    doc_string: Option<Seq<char>>,
) -> Seq<SymbolModel> {
    let g1 = add_symbol(g, top, SymType::Class, name, range);
    let c = g.len() as int;
    g1.update(c, SymbolModel { doc_string, ..g1[c] })
}

/// Creating a variable keeps every symbol and its kind, and adds one
/// variable at the end.
pub proof fn lemma_bind_variable(
    g: Seq<SymbolModel>,
    top: int,
    name: Seq<char>,
    range: TextRange,
    is_import_variable: bool,
    is_parameter: bool,
    evaluations: Seq<Evaluation>,
)
    requires
        0 <= top < g.len(),
    ensures
        kinds_kept(g, bind_variable(g, top, name, range, is_import_variable, is_parameter, evaluations)),
        bind_variable(g, top, name, range, is_import_variable, is_parameter, evaluations).len()
            == g.len() + 1,
        bind_variable(g, top, name, range, is_import_variable, is_parameter, evaluations)[g.len() as int].typ
            == SymType::Variable,
{
}

/// Creating parameters keeps every symbol and its kind.
pub proof fn lemma_with_parameters(g: Seq<SymbolModel>, f: int, parameters: Seq<ParameterModel>)
    requires
        0 <= f < g.len(),
    ensures
        kinds_kept(g, with_parameters(g, f, parameters)),
        with_parameters(g, f, parameters).len() == g.len() + parameters.len(),
    decreases parameters.len(),
{
    if parameters.len() > 0 {
        let g1 = with_parameters(g, f, parameters.drop_last());
        lemma_with_parameters(g, f, parameters.drop_last());
        lemma_bind_variable(g1, f, parameters.last().name, parameters.last().range, false, true, Seq::empty());
    }
}

/// Creating a function and its parameters keeps every symbol and its
/// kind; the function is the first new symbol.
pub proof fn lemma_define_function(
    g: Seq<SymbolModel>,
    top: int,
    name: Seq<char>,
    range: TextRange,
    is_static: bool,
    is_property: bool,
    doc_string: Option<Seq<char>>,
    parameters: Seq<ParameterModel>,
)
    requires
        0 <= top < g.len(),
    ensures
        kinds_kept(
            g,
            define_function(g, top, name, range, is_static, is_property, doc_string, parameters),
        ),
        define_function(g, top, name, range, is_static, is_property, doc_string, parameters).len()
            > g.len(),
        define_function(
            g,
            top,
            name,
            range,
            is_static,
            is_property,
            doc_string,
            parameters,
        )[g.len() as int].typ == SymType::Function,
{
    let g1 = add_symbol(g, top, SymType::Function, name, range);
    let f = g.len() as int;
    let g2 = g1.update(f, SymbolModel { is_static, is_property, doc_string, ..g1[f] });
    lemma_with_parameters(g2, f, parameters);
}

/// Creating a class keeps every symbol and its kind; the class is the new
/// symbol.
pub proof fn lemma_define_class(
    g: Seq<SymbolModel>,
    top: int,
    name: Seq<char>,
    range: TextRange,
    doc_string: Option<Seq<char>>,
)
    requires
        0 <= top < g.len(),
    ensures
        kinds_kept(g, define_class(g, top, name, range, doc_string)),
        define_class(g, top, name, range, doc_string).len() == g.len() + 1,
        define_class(g, top, name, range, doc_string)[g.len() as int].typ == SymType::Class,
{
}

/// Creates a variable in container `top` and gives it its flags and
/// evaluations.
pub fn bind_variable_in(
    graph: &mut SymbolGraph,
    top: usize,
    name: &String,
    range: &TextRange,
    is_import_variable: bool,
    is_parameter: bool,
    evaluations: Vec<Evaluation>,
) -> (id: usize)
    requires
        old(graph).wf(),
        top < old(graph)@.len(),
        old(graph)@[top as int].typ.is_container(),
    ensures
        final(graph).wf(),
        id == old(graph)@.len(),
        final(graph)@ == bind_variable(
            old(graph)@,
            top as int,
            name@,
            *range,
            is_import_variable,
            is_parameter,
            evaluations@,
        ),
{
    let id = graph.add_new_variable(top, name, range);
    if is_import_variable {
        graph.set_import_variable(id);
    }
    if is_parameter {
        graph.set_parameter(id);
    }
    graph.set_evaluations(id, evaluations);
    assert(graph@ =~= bind_variable(
        old(graph)@,
        top as int,
        name@,
        *range,
        is_import_variable,
        is_parameter,
        evaluations@,
    ));
    id
}

/// Creates a variable in container `top` for an assigned name.
pub fn bind_assigned_in(
    graph: &mut SymbolGraph,
    top: usize,
    name: &String,
    range: &TextRange,
    annotation: Option<TextRange>,
) -> (id: usize)
    requires
        old(graph).wf(),
        top < old(graph)@.len(),
        old(graph)@[top as int].typ.is_container(),
    ensures
        final(graph).wf(),
        id == old(graph)@.len(),
        final(graph)@ == bind_assigned(old(graph)@, top as int, name@, *range, annotation),
{
    let id = graph.add_new_variable(top, name, range);
    graph.set_annotation(id, annotation);
    id
}

/// Creates the parameters of function `f`, in their order.
pub fn add_parameters(graph: &mut SymbolGraph, f: usize, parameters: &Vec<ParameterOp>)
    requires
        old(graph).wf(),
        f < old(graph)@.len(),
        old(graph)@[f as int].typ == SymType::Function,
    ensures
        final(graph).wf(),
        final(graph)@ == with_parameters(old(graph)@, f as int, parameter_op_models(parameters@)),
{
    let ghost all = parameter_op_models(parameters@);
    let mut i: usize = 0;
    assert(all.take(0).len() == 0);
    while i < parameters.len()
        invariant
            i <= parameters.len(),
            all == parameter_op_models(parameters@),
            graph.wf(),
            f < old(graph)@.len(),
            old(graph)@[f as int].typ == SymType::Function,
            graph@ == with_parameters(old(graph)@, f as int, all.take(i as int)),
        decreases parameters.len() - i,
    {
        proof {
            lemma_with_parameters(old(graph)@, f as int, all.take(i as int));
        }
        let p = &parameters[i];
        let ghost g0 = graph@;
        let param = bind_variable_in(graph, f, &p.name, &p.range, false, true, Vec::new());
        proof {
            lemma_bind_variable(g0, f as int, p.name@, p.range, false, true, Seq::empty());
        }
        graph.add_argument(
            f,
            Argument { symbol: param, default_value: None, is_args: p.is_args, is_kwargs: p.is_kwargs },
        );
        proof {
            let next = all.take(i + 1);
            assert(next.drop_last() == all.take(i as int));
            assert(next.last() == p@);
        }
        i += 1;
    }
    assert(all.take(parameters.len() as int) == all);
}

/// Creates a function in container `top`, with its flags, its docstring
/// and its parameters.
pub fn define_function_in(
    graph: &mut SymbolGraph,
    top: usize,
    name: &String,
    range: &TextRange,
    is_static: bool,
    is_property: bool,
    doc_string: Option<String>,
    parameters: &Vec<ParameterOp>,
) -> (id: usize)
    requires
        old(graph).wf(),
        top < old(graph)@.len(),
        old(graph)@[top as int].typ.is_container(),
    ensures
        final(graph).wf(),
        id == old(graph)@.len(),
        final(graph)@ == define_function(
            old(graph)@,
            top as int,
            name@,
            *range,
            is_static,
            is_property,
            opt_text(doc_string),
            parameter_op_models(parameters@),
        ),
{
    let id = graph.add_new_function(top, name, range);
    graph.set_function_flags(id, is_static, is_property);
    graph.set_doc_string(id, doc_string);
    proof {
        let g1 = add_symbol(old(graph)@, top as int, SymType::Function, name@, *range);
        assert(graph@ =~= g1.update(
            id as int,
            SymbolModel { is_static, is_property, doc_string: opt_text(doc_string), ..g1[id as int] },
        ));
    }
    add_parameters(graph, id, parameters);
    id
}

/// Creates a class in container `top`, with its docstring.
pub fn define_class_in(
    graph: &mut SymbolGraph,
    top: usize,
    name: &String,
    range: &TextRange,
    doc_string: Option<String>,
) -> (id: usize)
    requires
        old(graph).wf(),
        top < old(graph)@.len(),
        old(graph)@[top as int].typ.is_container(),
    ensures
        final(graph).wf(),
        id == old(graph)@.len(),
        final(graph)@ == define_class(old(graph)@, top as int, name@, *range, opt_text(doc_string)),
{
    let id = graph.add_new_class(top, name, range);
    graph.set_doc_string(id, doc_string);
    id
}

/// A name that an export list declares, with the span of its literal.
pub struct ExportModel {
    pub name: Seq<char>,
    pub range: TextRange,
}

pub open spec fn export_model(e: (String, TextRange)) -> ExportModel {
    ExportModel { name: e.0@, range: e.1 }
}

pub open spec fn export_models(exports: Seq<(String, TextRange)>) -> Seq<ExportModel> {
    exports.map_values(|e: (String, TextRange)| export_model(e))
}

/// The string literals among `elts`, each with its own span, in order.
pub open spec fn literal_exports(elts: Seq<Expr>) -> Seq<ExportModel>
    decreases elts.len(),
{
    if elts.len() == 0 {
        Seq::empty()
    } else {
        let rest = literal_exports(elts.drop_last());
        match elts.last() {
            Expr::StringLiteral { value, range } => rest.push(ExportModel { name: value@, range }),
            _ => rest,
        }
    }
}

/// The names to declare for an export list although nothing in the file
/// defines them: in an external file, the string literals of the list that
/// the first evaluation holds. Workspace files get none.
pub open spec fn synthetic_exports(evaluations: Seq<Evaluation>, is_external: bool) -> Seq<ExportModel> {
    if is_external && evaluations.len() > 0 {
        match evaluations[0].value {
            Some(EvaluationValue::List(list)) => literal_exports(list@),
            _ => Seq::empty(),
        }
    } else {
        Seq::empty()
    }
}

/// The graph `g` after export `e` was declared in container `top`: a
/// variable is created unless `top` binds the name already.
pub open spec fn resolve_export(g: Seq<SymbolModel>, top: int, e: ExportModel) -> Seq<SymbolModel> {
    if binding_set(g[top].bindings, g[top].sections, e.name, u32::MAX).len() == 0 {
        add_symbol(g, top, SymType::Variable, e.name, e.range)
    } else {
        g
    }
}

/// The graph `g` after the exports were declared in container `top`, in
/// their order.
pub open spec fn resolve_exports(g: Seq<SymbolModel>, top: int, exports: Seq<ExportModel>) -> Seq<
    SymbolModel,
>
    decreases exports.len(),
{
    if exports.len() == 0 {
        g
    } else {
        resolve_export(resolve_exports(g, top, exports.drop_last()), top, exports.last())
    }
}

/// Declaring exports keeps every symbol and its kind.
pub proof fn lemma_resolve_exports(g: Seq<SymbolModel>, top: int, exports: Seq<ExportModel>)
    requires
        0 <= top < g.len(),
    ensures
        kinds_kept(g, resolve_exports(g, top, exports)),
    decreases exports.len(),
{
    if exports.len() > 0 {
        lemma_resolve_exports(g, top, exports.drop_last());
    }
}

/// Appends to `out` the names to declare for the export list whose
/// evaluations are `evaluations`.
pub fn record_exports(evaluations: &Vec<Evaluation>, is_external: bool, out: &mut Vec<(String, TextRange)>)
    ensures
        export_models(final(out)@) == export_models(old(out)@) + synthetic_exports(
            evaluations@,
            is_external,
        ),
{
    if is_external && evaluations.len() > 0 {
        match &evaluations[0].value {
            Some(EvaluationValue::List(list)) => {
                let mut i: usize = 0;
                assert(export_models(out@) =~= export_models(old(out)@) + literal_exports(
                    list@.take(0),
                ));
                while i < list.len()
                    invariant
                        i <= list.len(),
                        export_models(out@) == export_models(old(out)@) + literal_exports(
                            list@.take(i as int),
                        ),
                    decreases list.len() - i,
                {
                    let ghost before = export_models(out@);
                    proof {
                        let next = list@.take(i + 1);
                        assert(next.drop_last() == list@.take(i as int));
                        assert(next.last() == list@[i as int]);
                    }
                    match &list[i] {
                        Expr::StringLiteral { value, range } => {
                            out.push((value.clone(), *range));
                            assert(export_models(out@) =~= before.push(
                                ExportModel { name: value@, range: *range },
                            ));
                            assert(export_models(out@) =~= export_models(old(out)@) + literal_exports(
                                list@.take(i + 1),
                            ));
                        },
                        _ => {},
                    }
                    i += 1;
                }
                assert(list@.take(list.len() as int) == list@);
            },
            _ => {
                assert(export_models(out@) =~= export_models(old(out)@) + synthetic_exports(
                    evaluations@,
                    is_external,
                ));
            },
        }
    } else {
        assert(export_models(out@) =~= export_models(old(out)@) + synthetic_exports(
            evaluations@,
            is_external,
        ));
    }
}

/// The name of the file that holds the source of a package.
pub open spec fn init_file() -> Seq<char> {
    "__init__.py"@
}

/// The path of the init file of the package in directory `dir`: the
/// directory, a slash unless the directory is empty or ends in one, the
/// name of the init file, and the extension `i_ext`.
pub open spec fn init_path(dir: Seq<char>, i_ext: Seq<char>) -> Seq<char> {
    (if dir.len() == 0 || dir.last() == '/' {
        dir
    } else {
        dir.push('/')
    }) + init_file() + i_ext
}

/// Builds the path of the init file of the package in directory `dir`.
pub fn init_file_path(dir: &String, i_ext: &String) -> (path: String)
    ensures
        path@ == init_path(dir@, i_ext@),
{
    let n = dir.as_str().unicode_len();
    let mut path = dir.clone();
    if n > 0 && dir.as_str().get_char(n - 1) != '/' {
        proof {
            reveal_strlit("/");
        }
        path.append("/");
        assert(path@ =~= dir@.push('/'));
    }
    path.append("__init__.py");
    path.append(i_ext.as_str());
    path
}

/// Declares in container `top` the names of `exports` that it does not
/// bind yet.
pub fn resolve_exports_in(graph: &mut SymbolGraph, top: usize, exports: &Vec<(String, TextRange)>)
    requires
        old(graph).wf(),
        top < old(graph)@.len(),
        old(graph)@[top as int].typ.is_container(),
    ensures
        final(graph).wf(),
        final(graph)@ == resolve_exports(old(graph)@, top as int, export_models(exports@)),
{
    let ghost all = export_models(exports@);
    let mut i: usize = 0;
    assert(all.take(0).len() == 0);
    while i < exports.len()
        invariant
            i <= exports.len(),
            all == export_models(exports@),
            graph.wf(),
            top < old(graph)@.len(),
            old(graph)@[top as int].typ.is_container(),
            graph@ == resolve_exports(old(graph)@, top as int, all.take(i as int)),
        decreases exports.len() - i,
    {
        proof {
            lemma_resolve_exports(old(graph)@, top as int, all.take(i as int));
            let next = all.take(i + 1);
            assert(next.drop_last() == all.take(i as int));
            assert(next.last() == export_model(exports@[i as int]));
        }
        let e = &exports[i];
        let bound = graph.get_content_symbol(top, &e.0, u32::MAX);
        if bound.len() == 0 {
            graph.add_new_variable(top, &e.0, &e.1);
        }
        i += 1;
    }
    assert(all.take(exports.len() as int) == all);
}

} // verus!
