//! Wildcard imports: which names of the target module are bound, under
//! what filter, and which files the bindings tie together.
use vstd::prelude::*;
use ruff_text_size::TextRange;
use crate::arch_plan::all_name;
use crate::arch_steps::{bind_variable, bind_variable_in, kinds_kept, lemma_bind_variable};
use crate::constants::BuildSteps;
use crate::evaluation::{export_names, export_parse_error, texts, Evaluation, EvaluationSymbol};
use crate::python_arch_builder::PythonArchBuilder;
use crate::symbols::graph::{
    add_dependency,
    file_of,
    graph_wf,
    lemma_binding_set_in_graph,
    lemma_file_of,
    SymbolGraph,
};
use crate::symbols::symbol::SymbolModel;
use crate::symbols::symbol_mgr::{binding_set, contains_text, distinct_names};

verus! {

/// The names of a target module to bind, each with the children of the
/// target that it is bound to there.
pub struct Imported {
    pub name: String,
    pub sources: Vec<usize>,
}

pub struct ImportedModel {
    pub name: Seq<char>,
    pub sources: Seq<usize>,
}

impl View for Imported {
    type V = ImportedModel;

    open spec fn view(&self) -> ImportedModel {
        ImportedModel { name: self.name@, sources: self.sources@ }
    }
}

pub open spec fn imported_models(imports: Seq<Imported>) -> Seq<ImportedModel> {
    imports.map_values(|i: Imported| i@)
}

/// The texts of an optional list of strings.
pub open spec fn opt_texts(names: Option<Vec<String>>) -> Option<Seq<Seq<char>>> {
    match names {
        Some(names) => Some(texts(names@)),
        None => None,
    }
}

/// The evaluation of an import variable that leads to `source`: a
/// non-owning reference, with no value.
pub open spec fn weak_evaluation(source: usize) -> Evaluation {
    Evaluation {
        symbol: EvaluationSymbol { symbol: Some(source), instance: None },
        value: None,
        range: None,
    }
}

pub open spec fn weak_evaluations(sources: Seq<usize>) -> Seq<Evaluation> {
    sources.map_values(|s: usize| weak_evaluation(s))
}

/// The filter that the export list of module `target` puts on a wildcard
/// import: the names of the list, when the first symbol bound to `__all__`
/// has exactly one evaluation and that evaluation has a value; `None`, which
/// lets every name through, when there is no `__all__` or it has another
/// shape.
pub open spec fn export_filter(g: Seq<SymbolModel>, target: int) -> Option<Seq<Seq<char>>> {
    let alls = binding_set(g[target].bindings, g[target].sections, all_name(), u32::MAX);
    if alls.len() == 0 {
        None
    } else {
        let evaluations = g[alls[0] as int].evaluations;
        if evaluations.len() == 1 && evaluations[0].value.is_some() {
            Some(export_names(evaluations[0].value))
        } else {
            None
        }
    }
}

/// What is wrong with the export list of a module, from the point of view
/// of a wildcard import.
#[derive(Clone, Copy, Debug, PartialEq, Eq, Structural)]
pub enum ExportListIssue {
    /// The symbol bound to `__all__` has no evaluation, or more than one.
    Evaluations,
    /// The evaluation has no value.
    NoValue,
    /// The value holds something that is no string literal.
    ParseError,
}

/// What is wrong with the export list of module `target`, if anything.
/// A module without `__all__` has nothing wrong.
pub open spec fn export_issue(g: Seq<SymbolModel>, target: int) -> Option<ExportListIssue> {
    let alls = binding_set(g[target].bindings, g[target].sections, all_name(), u32::MAX);
    if alls.len() == 0 {
        None
    } else {
        let evaluations = g[alls[0] as int].evaluations;
        if evaluations.len() != 1 {
            Some(ExportListIssue::Evaluations)
        } else if evaluations[0].value.is_none() {
            Some(ExportListIssue::NoValue)
        } else if export_parse_error(evaluations[0].value) {
            Some(ExportListIssue::ParseError)
        } else {
            None
        }
    }
}

/// Whether a filter lets `name` through.
pub open spec fn allowed(filter: Option<Seq<Seq<char>>>, name: Seq<char>) -> bool {
    match filter {
        Some(names) => names.contains(name),
        None => true,
    }
}

/// Those of `names` that the filter lets through, each with all the
/// children of `target` bound to it.
pub open spec fn imported_names(
    names: Seq<Seq<char>>,
    g: Seq<SymbolModel>,
    target: int,
    filter: Option<Seq<Seq<char>>>,
) -> Seq<ImportedModel>
    decreases names.len(),
{
    if names.len() == 0 {
        Seq::empty()
    } else {
        let rest = imported_names(names.drop_last(), g, target, filter);
        let name = names.last();
        if allowed(filter, name) {
            rest.push(
                ImportedModel {
                    name,
                    sources: binding_set(g[target].bindings, g[target].sections, name, u32::MAX),
                },
            )
        } else {
            rest
        }
    }
}

/// What a wildcard import from module `target` binds: the names of the
/// module that its export list lets through, in the order in which the
/// module first bound them.
pub open spec fn wildcard_imports(g: Seq<SymbolModel>, target: int) -> Seq<ImportedModel> {
    imported_names(distinct_names(g[target].bindings), g, target, export_filter(g, target))
}

/// The graph `g` after one import variable was created in `top` for each
/// of `imports`, with the span `range` and one evaluation for each source.
pub open spec fn bind_imports(
    g: Seq<SymbolModel>,
    top: int,
    imports: Seq<ImportedModel>,
    range: TextRange,
) -> Seq<SymbolModel>
    decreases imports.len(),
{
    if imports.len() == 0 {
        g
    } else {
        bind_variable(
            bind_imports(g, top, imports.drop_last(), range),
            top,
            imports.last().name,
            range,
            true,
            false,
            weak_evaluations(imports.last().sources),
        )
    }
}

/// The graph `g` after the edge from `file` to the file of the first
/// source of `import` was recorded, with the first phase on both ends. No
/// edge leads from a file to itself.
pub open spec fn link_file(g: Seq<SymbolModel>, file: int, import: ImportedModel) -> Seq<SymbolModel> {
    if import.sources.len() > 0 {
        match file_of(g, import.sources[0] as int) {
            Some(f) => if f != file {
                add_dependency(g, file, f as int, BuildSteps::Arch, BuildSteps::Arch)
            } else {
                g
            },
            None => g,
        }
    } else {
        g
    }
}

/// The graph `g` after the edges for all of `imports` were recorded.
pub open spec fn link_files(g: Seq<SymbolModel>, file: int, imports: Seq<ImportedModel>) -> Seq<
    SymbolModel,
>
    decreases imports.len(),
{
    if imports.len() == 0 {
        g
    } else {
        link_file(link_files(g, file, imports.drop_last()), file, imports.last())
    }
}

/// Binding imports keeps every symbol and its kind.
pub proof fn lemma_bind_imports(g: Seq<SymbolModel>, top: int, imports: Seq<ImportedModel>, range: TextRange)
    requires
        0 <= top < g.len(),
    ensures
        kinds_kept(g, bind_imports(g, top, imports, range)),
        bind_imports(g, top, imports, range).len() == g.len() + imports.len(),
    decreases imports.len(),
{
    if imports.len() > 0 {
        let g1 = bind_imports(g, top, imports.drop_last(), range);
        lemma_bind_imports(g, top, imports.drop_last(), range);
        lemma_bind_variable(
            g1,
            top,
            imports.last().name,
            range,
            true,
            false,
            weak_evaluations(imports.last().sources),
        );
    }
}

/// Recording an edge keeps every symbol and its kind, and adds none.
pub proof fn lemma_link_file(g: Seq<SymbolModel>, file: int, import: ImportedModel)
    requires
        0 <= file < g.len(),
        g.len() <= usize::MAX,
    ensures
        kinds_kept(g, link_file(g, file, import)),
        link_file(g, file, import).len() == g.len(),
{
    if import.sources.len() > 0 {
        lemma_file_of(g, import.sources[0] as int);
    }
}

/// Recording edges keeps every symbol and its kind, and adds none.
pub proof fn lemma_link_files(g: Seq<SymbolModel>, file: int, imports: Seq<ImportedModel>)
    requires
        0 <= file < g.len(),
        g.len() <= usize::MAX,
    ensures
        kinds_kept(g, link_files(g, file, imports)),
        link_files(g, file, imports).len() == g.len(),
    decreases imports.len(),
{
    if imports.len() > 0 {
        lemma_link_files(g, file, imports.drop_last());
        lemma_link_file(link_files(g, file, imports.drop_last()), file, imports.last());
    }
}

/// Reads the filter that the export list of module `target` puts on a
/// wildcard import, and what is wrong with the list.
pub fn export_filter_of(graph: &SymbolGraph, target: usize) -> (res: (
    Option<Vec<String>>,
    Option<ExportListIssue>,
))
    requires
        graph.wf(),
        target < graph@.len(),
    ensures
        opt_texts(res.0) == export_filter(graph@, target as int),
        res.1 == export_issue(graph@, target as int),
{
    let name = String::from_str("__all__");
    let alls = graph.get_content_symbol(target, &name, u32::MAX);
    if alls.len() == 0 {
        return (None, None);
    }
    let first = alls[0];
    proof {
        lemma_binding_set_in_graph(graph@, target as int, all_name(), u32::MAX);
    }
    match graph.get(first).evaluations() {
        Some(evaluations) => {
            if evaluations.len() == 1 {
                match &evaluations[0].value {
                    Some(value) => {
                        let (names, parse_error) = PythonArchBuilder::extract_all_symbol_eval_values(
                            Some(value),
                        );
                        let issue = if parse_error {
                            Some(ExportListIssue::ParseError)
                        } else {
                            None
                        };
                        (Some(names), issue)
                    },
                    None => (None, Some(ExportListIssue::NoValue)),
                }
            } else {
                (None, Some(ExportListIssue::Evaluations))
            }
        },
        None => (None, Some(ExportListIssue::Evaluations)),
    }
}

/// Collects what a wildcard import from module `target` binds, and what
/// is wrong with the export list of the module.
pub fn collect_wildcard(graph: &SymbolGraph, target: usize) -> (res: (
    Vec<Imported>,
    Option<ExportListIssue>,
))
    requires
        graph.wf(),
        target < graph@.len(),
    ensures
        imported_models(res.0@) == wildcard_imports(graph@, target as int),
        res.1 == export_issue(graph@, target as int),
{
    let (filter, issue) = export_filter_of(graph, target);
    assert(graph_wf(graph@));
    assert(crate::symbols::graph::symbol_wf(graph@, target as int));
    let names = graph.content_names(target);
    let ghost all = texts(names@);
    let ghost f = opt_texts(filter);
    let mut imports: Vec<Imported> = Vec::new();
    let mut i: usize = 0;
    assert(imported_models(imports@) =~= imported_names(all.take(0), graph@, target as int, f));
    while i < names.len()
        invariant
            i <= names.len(),
            graph.wf(),
            target < graph@.len(),
            all == texts(names@),
            f == opt_texts(filter),
            imported_models(imports@) == imported_names(all.take(i as int), graph@, target as int, f),
        decreases names.len() - i,
    {
        let name = &names[i];
        let pass = match &filter {
            Some(list) => contains_text(list, name),
            None => true,
        };
        proof {
            let next = all.take(i + 1);
            assert(next.drop_last() == all.take(i as int));
            assert(next.last() == name@);
        }
        if pass {
            let sources = graph.get_content_symbol(target, name, u32::MAX);
            let ghost before = imported_models(imports@);
            imports.push(Imported { name: name.clone(), sources });
            assert(imported_models(imports@) =~= before.push(
                ImportedModel { name: name@, sources: sources@ },
            ));
        }
        i += 1;
    }
    assert(all.take(names.len() as int) == all);
    (imports, issue)
}

/// One non-owning evaluation for each of `sources`.
pub fn weak_evaluations_of(sources: &Vec<usize>) -> (evaluations: Vec<Evaluation>)
    ensures
        evaluations@ == weak_evaluations(sources@),
{
    let mut evaluations: Vec<Evaluation> = Vec::new();
    let mut i: usize = 0;
    while i < sources.len()
        invariant
            i <= sources.len(),
            evaluations@ == weak_evaluations(sources@).take(i as int),
        decreases sources.len() - i,
    {
        evaluations.push(
            Evaluation {
                symbol: EvaluationSymbol { symbol: Some(sources[i]), instance: None },
                value: None,
                range: None,
            },
        );
        assert(evaluations@ =~= weak_evaluations(sources@).take(i + 1));
        i += 1;
    }
    assert(weak_evaluations(sources@).take(sources.len() as int) =~= weak_evaluations(sources@));
    evaluations
}

/// Creates in `top` one import variable for each of `imports`.
pub fn bind_imports_in(graph: &mut SymbolGraph, top: usize, imports: &Vec<Imported>, range: &TextRange)
    requires
        old(graph).wf(),
        top < old(graph)@.len(),
        old(graph)@[top as int].typ.is_container(),
    ensures
        final(graph).wf(),
        final(graph)@ == bind_imports(old(graph)@, top as int, imported_models(imports@), *range),
{
    let ghost all = imported_models(imports@);
    let mut i: usize = 0;
    assert(all.take(0).len() == 0);
    while i < imports.len()
        invariant
            i <= imports.len(),
            all == imported_models(imports@),
            graph.wf(),
            top < old(graph)@.len(),
            old(graph)@[top as int].typ.is_container(),
            graph@ == bind_imports(old(graph)@, top as int, all.take(i as int), *range),
        decreases imports.len() - i,
    {
        proof {
            lemma_bind_imports(old(graph)@, top as int, all.take(i as int), *range);
            let next = all.take(i + 1);
            assert(next.drop_last() == all.take(i as int));
            assert(next.last() == imports@[i as int]@);
        }
        let import = &imports[i];
        let evaluations = weak_evaluations_of(&import.sources);
        bind_variable_in(graph, top, &import.name, range, true, false, evaluations);
        i += 1;
    }
    assert(all.take(imports.len() as int) == all);
}

/// Records the edges from `file` to the files that `imports` lead to.
pub fn link_files_in(graph: &mut SymbolGraph, file: usize, imports: &Vec<Imported>)
    requires
        old(graph).wf(),
        file < old(graph)@.len(),
        old(graph)@[file as int].typ.is_file(),
    ensures
        final(graph).wf(),
        final(graph)@ == link_files(old(graph)@, file as int, imported_models(imports@)),
{
    let ghost all = imported_models(imports@);
    let mut i: usize = 0;
    assert(all.take(0).len() == 0);
    while i < imports.len()
        invariant
            i <= imports.len(),
            all == imported_models(imports@),
            graph.wf(),
            old(graph).wf(),
            file < old(graph)@.len(),
            old(graph)@[file as int].typ.is_file(),
            graph@ == link_files(old(graph)@, file as int, all.take(i as int)),
        decreases imports.len() - i,
    {
        proof {
            lemma_link_files(old(graph)@, file as int, all.take(i as int));
            let next = all.take(i + 1);
            assert(next.drop_last() == all.take(i as int));
            assert(next.last() == imports@[i as int]@);
        }
        let import = &imports[i];
        if import.sources.len() > 0 {
            let source = import.sources[0];
            if source < graph.len() {
                proof {
                    lemma_file_of(graph@, source as int);
                }
                match graph.get_file(source) {
                    Some(other) => {
                        if other != file {
                            graph.add_dependency(file, other, BuildSteps::Arch, BuildSteps::Arch);
                        }
                    },
                    None => {},
                }
            }
        }
        i += 1;
    }
    assert(all.take(imports.len() as int) == all);
}

} // verus!
