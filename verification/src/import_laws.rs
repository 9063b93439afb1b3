//! What holds of every import: which names a wildcard import binds, and
//! which files it ties together.
use vstd::prelude::*;
use ruff_text_size::TextRange;
use crate::arch_plan::{import_op, local_name, star, OpModel, Scope};
use crate::ast::{Alias, Expr};
use crate::constants::{BuildSteps, SymType};
use crate::evaluation::{all_literals, literal_names};
use crate::import_binder::{
    allowed,
    bind_imports,
    export_filter,
    imported_names,
    link_file,
    link_files,
    weak_evaluations,
    wildcard_imports,
    ImportedModel,
};
use crate::pass_laws::{extends, kept, lemma_link_files_extends};
use crate::python_utils::{first_segment, lemma_first_segment, segment_end};
use crate::symbols::file_symbol::Dependency;
use crate::symbols::graph::{file_of, lemma_file_of};
use crate::symbols::symbol::SymbolModel;
use crate::symbols::symbol_mgr::{distinct_names, lemma_distinct_names_cover, BindingModel};

verus! {

/// Some import of the list bears the name.
pub open spec fn imports_name(imports: Seq<ImportedModel>, name: Seq<char>) -> bool {
    exists|k: int| 0 <= k < imports.len() && (#[trigger] imports[k]).name == name
}

/// Some binding of the table bears the name.
pub open spec fn binds_name(bindings: Seq<BindingModel>, name: Seq<char>) -> bool {
    exists|k: int| 0 <= k < bindings.len() && (#[trigger] bindings[k]).name == name
}

/// The texts of a list of string literals.
pub open spec fn literal_texts(elts: Seq<Expr>) -> Seq<Seq<char>> {
    elts.map_values(
        |e: Expr|
            match e {
                Expr::StringLiteral { value, .. } => value@,
                _ => Seq::empty(),
            },
    )
}

/// A list that holds string literals alone declares each of them, in
/// order, and is no error.
pub proof fn lemma_pure_export_list(elts: Seq<Expr>)
    requires
        all_literals(elts),
    ensures
        literal_names(elts) == literal_texts(elts),
    decreases elts.len(),
{
    if elts.len() == 0 {
        assert(literal_names(elts) =~= literal_texts(elts));
    } else {
        let front = elts.drop_last();
        assert forall|i: int| 0 <= i < front.len() implies (#[trigger] front[i]) is StringLiteral by {
            assert(elts[i] is StringLiteral);
        }
        lemma_pure_export_list(front);
        assert(elts[elts.len() - 1] is StringLiteral);
        assert(literal_names(elts) =~= literal_texts(elts));
    }
}

/// What passes a filter is what the filter names, among the names given.
pub proof fn lemma_imported_names(
    names: Seq<Seq<char>>,
    g: Seq<SymbolModel>,
    target: int,
    filter: Option<Seq<Seq<char>>>,
    name: Seq<char>,
)
    ensures
        imports_name(imported_names(names, g, target, filter), name) <==> names.contains(name)
            && allowed(filter, name),
    decreases names.len(),
{
    if names.len() > 0 {
        let front = names.drop_last();
        lemma_imported_names(front, g, target, filter, name);
        let rest = imported_names(front, g, target, filter);
        let all = imported_names(names, g, target, filter);
        if imports_name(all, name) {
            let k = choose|k: int| 0 <= k < all.len() && (#[trigger] all[k]).name == name;
            if k < rest.len() {
                assert(rest[k].name == name);
                assert(imports_name(rest, name));
                let i = choose|i: int| 0 <= i < front.len() && front[i] == name;
                assert(names[i] == name);
            } else {
                assert(names[names.len() - 1] == name);
            }
        }
        if names.contains(name) && allowed(filter, name) {
            let i = choose|i: int| 0 <= i < names.len() && names[i] == name;
            if i < front.len() {
                assert(front[i] == name);
                assert(imports_name(rest, name));
                let k = choose|k: int| 0 <= k < rest.len() && (#[trigger] rest[k]).name == name;
                assert(all[k].name == name);
            } else {
                assert(all[all.len() - 1].name == name);
            }
        }
    }
}

/// Export filter: where the export list of a module gives a filter, a
/// wildcard import from the module binds exactly the names of the filter
/// that the module binds itself.
pub proof fn lemma_export_filter(g: Seq<SymbolModel>, target: int, name: Seq<char>)
    requires
        export_filter(g, target).is_some(),
    ensures
        imports_name(wildcard_imports(g, target), name) <==> export_filter(
            g,
            target,
        ).unwrap().contains(name) && binds_name(g[target].bindings, name),
{
    lemma_imported_names(
        distinct_names(g[target].bindings),
        g,
        target,
        export_filter(g, target),
        name,
    );
    lemma_distinct_names_cover(g[target].bindings, name);
}

/// Without an export list that gives a filter, a wildcard import from a
/// module binds exactly the names that the module binds itself.
pub proof fn lemma_no_export_filter(g: Seq<SymbolModel>, target: int, name: Seq<char>)
    requires
        export_filter(g, target).is_none(),
    ensures
        imports_name(wildcard_imports(g, target), name) <==> binds_name(g[target].bindings, name),
{
    lemma_imported_names(
        distinct_names(g[target].bindings),
        g,
        target,
        export_filter(g, target),
        name,
    );
    lemma_distinct_names_cover(g[target].bindings, name);
}

/// Binding imports appends one variable for each import, in order: it
/// bears the name of the import and the given span, is marked as bound by
/// an import, lies in `top`, and refers to each source without owning it.
pub proof fn lemma_bind_imports_symbols(
    g: Seq<SymbolModel>,
    top: int,
    imports: Seq<ImportedModel>,
    range: TextRange,
    k: int,
)
    requires
        0 <= top < g.len(),
        g.len() + imports.len() <= usize::MAX,
        0 <= k < imports.len(),
    ensures
        bind_imports(g, top, imports, range).len() == g.len() + imports.len(),
        ({
            let v = bind_imports(g, top, imports, range)[g.len() + k];
            &&& v.typ == SymType::Variable
            &&& v.name == imports[k].name
            &&& v.range == Some(range)
            &&& v.parent == Some(top as usize)
            &&& v.is_import_variable
            &&& !v.is_parameter
            &&& v.evaluations == weak_evaluations(imports[k].sources)
        }),
    decreases imports.len(),
{
    crate::import_binder::lemma_bind_imports(g, top, imports, range);
    let front = imports.drop_last();
    crate::import_binder::lemma_bind_imports(g, top, front, range);
    if k < front.len() {
        lemma_bind_imports_symbols(g, top, front, range, k);
    }
}

/// The file of a symbol stays its file while the graph grows.
pub proof fn lemma_file_of_extends(g: Seq<SymbolModel>, h: Seq<SymbolModel>, i: int)
    requires
        extends(g, h),
        0 <= i < g.len(),
    ensures
        file_of(h, i) == file_of(g, i),
    decreases i,
{
    reveal(extends);
    assert(kept(g[i], h[i]));
    if !g[i].typ.is_file() {
        match g[i].parent {
            Some(p) => {
                if p < i {
                    lemma_file_of_extends(g, h, p as int);
                }
            },
            None => {},
        }
    }
}

/// The edge that a wildcard import from file `f` leaves on the importing
/// file.
pub open spec fn arch_edge(f: usize) -> Dependency {
    Dependency { target: f, step: BuildSteps::Arch, dep_step: BuildSteps::Arch }
}

/// Recording edges removes none.
pub proof fn lemma_link_file_keeps_edges(g: Seq<SymbolModel>, file: int, import: ImportedModel, d: Dependency)
    requires
        0 <= file < g.len(),
        g.len() <= usize::MAX,
        g[file].dependencies.contains(d),
    ensures
        link_file(g, file, import)[file].dependencies.contains(d),
{
    if import.sources.len() > 0 {
        lemma_file_of(g, import.sources[0] as int);
        match file_of(g, import.sources[0] as int) {
            Some(f) => {
                if f != file {
                    let e = arch_edge(f);
                    let deps = g[file].dependencies;
                    if !deps.contains(e) {
                        let i = choose|i: int| 0 <= i < deps.len() && deps[i] == d;
                        assert(deps.push(e)[i] == d);
                    }
                }
            },
            None => {},
        }
    }
}

/// Dependency edge: a wildcard import that binds a name whose first source
/// lies in another file `f` leaves on the importing file an edge to `f`,
/// with the first phase on both ends.
pub proof fn lemma_wildcard_import_records_edge(
    g: Seq<SymbolModel>,
    file: int,
    imports: Seq<ImportedModel>,
    k: int,
    f: usize,
)
    requires
        0 <= file < g.len(),
        g.len() <= usize::MAX,
        0 <= k < imports.len(),
        imports[k].sources.len() > 0,
        0 <= imports[k].sources[0] < g.len(),
        file_of(g, imports[k].sources[0] as int) == Some(f),
        f != file,
    ensures
        link_files(g, file, imports)[file].dependencies.contains(arch_edge(f)),
    decreases imports.len(),
{
    let front = imports.drop_last();
    let g1 = link_files(g, file, front);
    lemma_link_files_extends(g, file, front);
    if k < front.len() {
        lemma_wildcard_import_records_edge(g, file, front, k, f);
        lemma_link_file_keeps_edges(g1, file, imports.last(), arch_edge(f));
    } else {
        lemma_file_of_extends(g, g1, imports[k].sources[0] as int);
        lemma_file_of(g1, imports[k].sources[0] as int);
        let deps = g1[file].dependencies;
        if !deps.contains(arch_edge(f)) {
            assert(deps.push(arch_edge(f))[deps.len() as int] == arch_edge(f));
        }
    }
}

/// Dotted binding: an import that is no star plans one step, which binds
/// the name after `as` when there is one, and else the part of the dotted
/// name before its first dot.
pub proof fn lemma_dotted_binding(
    alias: Alias,
    module: Option<Seq<char>>,
    level: Option<u32>,
    range: TextRange,
    scope: Scope,
)
    requires
        alias.name.id@ != star(),
    ensures
        import_op(alias, module, level, range, scope) == seq![
            OpModel::Import { name: local_name(alias), range: alias.range },
        ],
        alias.asname matches Some(asname) ==> local_name(alias) == asname.id@,
        alias.asname.is_none() ==> ({
            let name = alias.name.id@;
            let local = local_name(alias);
            &&& local.len() <= name.len()
            &&& local == name.take(local.len() as int)
            &&& !local.contains('.')
            &&& (local.len() < name.len() ==> name[local.len() as int] == '.')
        }),
{
    if alias.asname.is_none() {
        let name = alias.name.id@;
        lemma_first_segment(name);
        let local = first_segment(name);
        assert(local.len() == segment_end(name));
        if local.contains('.') {
            let i = choose|i: int| 0 <= i < local.len() && local[i] == '.';
            assert(name[i] == '.');
        }
    }
}

/// Wildcard confinement: a star in an import that stands in a class or in
/// a function plans no step.
pub proof fn lemma_wildcard_confined(
    alias: Alias,
    module: Option<Seq<char>>,
    level: Option<u32>,
    range: TextRange,
    scope: Scope,
)
    requires
        alias.name.id@ == star(),
        scope != Scope::File,
    ensures
        import_op(alias, module, level, range, scope) == Seq::<OpModel>::empty(),
{
}

} // verus!
