//! What holds of the pass whatever the file holds and whatever the
//! surroundings answer.
use vstd::prelude::*;
use ruff_text_size::TextRange;
use crate::arch_plan::{visit_nodes, visit_stmt, OpModel, ParameterModel, Scope};
use crate::ast::Stmt;
use crate::plan_laws::{
    depth_after,
    depth_change,
    file_steps_at_top,
    lemma_visit_nodes,
    needs_file_scope,
    well_nested,
};
use crate::python_arch_builder::{advance, stack_ok, ActionModel, BuilderModel};
use crate::arch_steps::{
    bind_assigned,
    bind_variable,
    define_class,
    define_function,
    resolve_export,
    resolve_exports,
    with_parameter,
    with_parameters,
    ExportModel,
};
use crate::constants::SymType;
use crate::evaluation::Evaluation;
use crate::import_binder::{bind_imports, link_file, link_files, weak_evaluations, ImportedModel};
use crate::symbols::graph::{add_symbol, file_of, lemma_file_of};
use crate::symbols::symbol::SymbolModel;

verus! {

/// Symbol `b` is symbol `a` at a later time: what identifies a symbol is
/// the same, and the children of `a` are the first children of `b`.
pub open spec fn kept(a: SymbolModel, b: SymbolModel) -> bool {
    &&& b.typ == a.typ
    &&& b.name == a.name
    &&& b.parent == a.parent
    &&& b.weak_self == a.weak_self
    &&& b.range == a.range
    &&& b.is_external == a.is_external
    &&& b.status == a.status
    &&& b.paths == a.paths
    &&& b.sections == a.sections
    &&& a.bindings.len() <= b.bindings.len()
    &&& b.bindings.take(a.bindings.len() as int) == a.bindings
}

/// Graph `h` is graph `g` at a later time: every symbol of `g` is kept,
/// nothing is removed, and children are only appended.
#[verifier::opaque]
pub open spec fn extends(g: Seq<SymbolModel>, h: Seq<SymbolModel>) -> bool {
    &&& g.len() <= h.len()
    &&& forall|i: int| 0 <= i < g.len() ==> kept(g[i], #[trigger] h[i])
}

pub proof fn lemma_extends_refl(g: Seq<SymbolModel>)
    ensures
        extends(g, g),
{
    reveal(extends);
    reveal(evolves);
    reveal(walk_ok);
    assert forall|i: int| 0 <= i < g.len() implies kept(g[i], #[trigger] g[i]) by {
        assert(g[i].bindings.take(g[i].bindings.len() as int) == g[i].bindings);
    }
}

pub proof fn lemma_extends_trans(g: Seq<SymbolModel>, h: Seq<SymbolModel>, k: Seq<SymbolModel>)
    requires
        extends(g, h),
        extends(h, k),
    ensures
        extends(g, k),
{
    reveal(extends);
    reveal(evolves);
    reveal(walk_ok);
    assert forall|i: int| 0 <= i < g.len() implies kept(g[i], #[trigger] k[i]) by {
        assert(kept(g[i], h[i]));
        assert(kept(h[i], k[i]));
        let n = g[i].bindings.len() as int;
        let m = h[i].bindings.len() as int;
        assert(k[i].bindings.take(n) =~= k[i].bindings.take(m).take(n));
    }
}

/// Changing a symbol in what does not identify it keeps the graph.
pub proof fn lemma_update_extends(g: Seq<SymbolModel>, i: int, m: SymbolModel)
    requires
        0 <= i < g.len(),
        kept(g[i], m),
    ensures
        extends(g, g.update(i, m)),
{
    reveal(extends);
    reveal(evolves);
    reveal(walk_ok);
    let h = g.update(i, m);
    assert forall|j: int| 0 <= j < g.len() implies kept(g[j], #[trigger] h[j]) by {
        if j != i {
            assert(g[j].bindings.take(g[j].bindings.len() as int) == g[j].bindings);
        }
    }
}

pub proof fn lemma_add_symbol_extends(
    g: Seq<SymbolModel>,
    top: int,
    typ: SymType,
    name: Seq<char>,
    range: TextRange,
)
    requires
        0 <= top < g.len(),
    ensures
        extends(g, add_symbol(g, top, typ, name, range)),
        add_symbol(g, top, typ, name, range).len() == g.len() + 1,
{
    reveal(extends);
    reveal(evolves);
    reveal(walk_ok);
    let h = add_symbol(g, top, typ, name, range);
    assert forall|j: int| 0 <= j < g.len() implies kept(g[j], #[trigger] h[j]) by {
        assert(h[j].bindings.take(g[j].bindings.len() as int) =~= g[j].bindings);
    }
}

pub proof fn lemma_bind_variable_extends(
    g: Seq<SymbolModel>,
    top: int,
    name: Seq<char>,
    range: TextRange,
    is_import_variable: bool,
    is_parameter: bool,
    evaluations: Seq<Evaluation>,
)
    requires
        0 <= top < g.len(),
    ensures
        extends(g, bind_variable(g, top, name, range, is_import_variable, is_parameter, evaluations)),
        bind_variable(g, top, name, range, is_import_variable, is_parameter, evaluations).len()
            == g.len() + 1,
{
    reveal(extends);
    reveal(evolves);
    reveal(walk_ok);
    lemma_add_symbol_extends(g, top, SymType::Variable, name, range);
    let g1 = add_symbol(g, top, SymType::Variable, name, range);
    let h = bind_variable(g, top, name, range, is_import_variable, is_parameter, evaluations);
    assert forall|j: int| 0 <= j < g.len() implies kept(g[j], #[trigger] h[j]) by {
        assert(kept(g[j], g1[j]));
        assert(h[j] == g1[j]);
    }
}

pub proof fn lemma_bind_assigned_extends(
    g: Seq<SymbolModel>,
    top: int,
    name: Seq<char>,
    range: TextRange,
    annotation: Option<TextRange>,
)
    requires
        0 <= top < g.len(),
    ensures
        extends(g, bind_assigned(g, top, name, range, annotation)),
        bind_assigned(g, top, name, range, annotation).len() == g.len() + 1,
{
    reveal(extends);
    lemma_add_symbol_extends(g, top, SymType::Variable, name, range);
    let g1 = add_symbol(g, top, SymType::Variable, name, range);
    let h = bind_assigned(g, top, name, range, annotation);
    assert forall|j: int| 0 <= j < g.len() implies kept(g[j], #[trigger] h[j]) by {
        assert(kept(g[j], g1[j]));
        assert(h[j] == g1[j]);
    }
}

pub proof fn lemma_with_parameters_extends(g: Seq<SymbolModel>, f: int, parameters: Seq<ParameterModel>)
    requires
        0 <= f < g.len(),
    ensures
        extends(g, with_parameters(g, f, parameters)),
    decreases parameters.len(),
{
    reveal(extends);
    reveal(evolves);
    reveal(walk_ok);
    if parameters.len() == 0 {
        lemma_extends_refl(g);
    } else {
        let g1 = with_parameters(g, f, parameters.drop_last());
        lemma_with_parameters_extends(g, f, parameters.drop_last());
        let p = parameters.last();
        lemma_bind_variable_extends(g1, f, p.name, p.range, false, true, Seq::empty());
        let g2 = bind_variable(g1, f, p.name, p.range, false, true, Seq::empty());
        let h = with_parameter(g1, f, p);
        assert(kept(g2[f], h[f])) by {
            assert(h[f].bindings.take(g2[f].bindings.len() as int) == g2[f].bindings);
        }
        lemma_update_extends(g2, f, h[f]);
        assert(h =~= g2.update(f, h[f]));
        lemma_extends_trans(g1, g2, h);
        lemma_extends_trans(g, g1, h);
    }
}

pub proof fn lemma_define_function_extends(
    g: Seq<SymbolModel>,
    top: int,
    name: Seq<char>,
    range: TextRange,
    is_static: bool,
    is_property: bool,
    doc_string: Option<Seq<char>>,
    parameters: Seq<ParameterModel>,
)
    requires
        0 <= top < g.len(),
    ensures
        extends(
            g,
            define_function(g, top, name, range, is_static, is_property, doc_string, parameters),
        ),
{
    reveal(extends);
    reveal(evolves);
    reveal(walk_ok);
    lemma_add_symbol_extends(g, top, SymType::Function, name, range);
    let g1 = add_symbol(g, top, SymType::Function, name, range);
    let f = g.len() as int;
    let g2 = g1.update(f, SymbolModel { is_static, is_property, doc_string, ..g1[f] });
    assert(kept(g1[f], g2[f])) by {
        assert(g2[f].bindings.take(g1[f].bindings.len() as int) == g1[f].bindings);
    }
    lemma_update_extends(g1, f, g2[f]);
    lemma_with_parameters_extends(g2, f, parameters);
    lemma_extends_trans(g, g1, g2);
    lemma_extends_trans(g, g2, with_parameters(g2, f, parameters));
}

pub proof fn lemma_define_class_extends(
    g: Seq<SymbolModel>,
    top: int,
    name: Seq<char>,
    range: TextRange,
    doc_string: Option<Seq<char>>,
)
    requires
        0 <= top < g.len(),
    ensures
        extends(g, define_class(g, top, name, range, doc_string)),
{
    reveal(extends);
    reveal(evolves);
    reveal(walk_ok);
    lemma_add_symbol_extends(g, top, SymType::Class, name, range);
    let g1 = add_symbol(g, top, SymType::Class, name, range);
    let c = g.len() as int;
    let h = define_class(g, top, name, range, doc_string);
    assert(kept(g1[c], h[c])) by {
        assert(h[c].bindings.take(g1[c].bindings.len() as int) == g1[c].bindings);
    }
    lemma_update_extends(g1, c, h[c]);
    lemma_extends_trans(g, g1, h);
}

pub proof fn lemma_bind_imports_extends(
    g: Seq<SymbolModel>,
    top: int,
    imports: Seq<ImportedModel>,
    range: TextRange,
)
    requires
        0 <= top < g.len(),
    ensures
        extends(g, bind_imports(g, top, imports, range)),
    decreases imports.len(),
{
    reveal(extends);
    reveal(evolves);
    reveal(walk_ok);
    if imports.len() == 0 {
        lemma_extends_refl(g);
    } else {
        let g1 = bind_imports(g, top, imports.drop_last(), range);
        lemma_bind_imports_extends(g, top, imports.drop_last(), range);
        lemma_bind_variable_extends(
            g1,
            top,
            imports.last().name,
            range,
            true,
            false,
            weak_evaluations(imports.last().sources),
        );
        lemma_extends_trans(g, g1, bind_imports(g, top, imports, range));
    }
}

pub proof fn lemma_link_file_extends(g: Seq<SymbolModel>, file: int, import: ImportedModel)
    requires
        0 <= file < g.len(),
        g.len() <= usize::MAX,
    ensures
        extends(g, link_file(g, file, import)),
        link_file(g, file, import).len() == g.len(),
{
    reveal(extends);
    reveal(evolves);
    reveal(walk_ok);
    lemma_extends_refl(g);
    if import.sources.len() > 0 {
        lemma_file_of(g, import.sources[0] as int);
        match file_of(g, import.sources[0] as int) {
            Some(f) => {
                if f != file {
                    let h = link_file(g, file, import);
                    assert forall|j: int| 0 <= j < g.len() implies kept(g[j], #[trigger] h[j]) by {
                        assert(h[j].bindings == g[j].bindings);
                        assert(g[j].bindings.take(g[j].bindings.len() as int) == g[j].bindings);
                    }
                }
            },
            None => {},
        }
    }
}

pub proof fn lemma_link_files_extends(g: Seq<SymbolModel>, file: int, imports: Seq<ImportedModel>)
    requires
        0 <= file < g.len(),
        g.len() <= usize::MAX,
    ensures
        extends(g, link_files(g, file, imports)),
        link_files(g, file, imports).len() == g.len(),
    decreases imports.len(),
{
    reveal(extends);
    reveal(evolves);
    reveal(walk_ok);
    if imports.len() == 0 {
        lemma_extends_refl(g);
    } else {
        let g1 = link_files(g, file, imports.drop_last());
        lemma_link_files_extends(g, file, imports.drop_last());
        lemma_link_file_extends(g1, file, imports.last());
        lemma_extends_trans(g, g1, link_files(g, file, imports));
    }
}

pub proof fn lemma_resolve_exports_extends(g: Seq<SymbolModel>, top: int, exports: Seq<ExportModel>)
    requires
        0 <= top < g.len(),
    ensures
        extends(g, resolve_exports(g, top, exports)),
    decreases exports.len(),
{
    reveal(extends);
    reveal(evolves);
    reveal(walk_ok);
    if exports.len() == 0 {
        lemma_extends_refl(g);
    } else {
        let g1 = resolve_exports(g, top, exports.drop_last());
        lemma_resolve_exports_extends(g, top, exports.drop_last());
        lemma_extends_refl(g1);
        lemma_add_symbol_extends(g1, top, SymType::Variable, exports.last().name, exports.last().range);
        lemma_extends_trans(g, g1, resolve_export(g1, top, exports.last()));
    }
}

/// Graph `h` is graph `g` after some of the pass: as `extends`, but the
/// first phase of a symbol may have moved on, and never back.
#[verifier::opaque]
pub open spec fn evolves(g: Seq<SymbolModel>, h: Seq<SymbolModel>) -> bool {
    &&& g.len() <= h.len()
    &&& forall|i: int|
        0 <= i < g.len() ==> kept(
            g[i],
            SymbolModel { status: g[i].status, ..#[trigger] h[i] },
        ) && h[i].status.arch.rank() >= g[i].status.arch.rank() && h[i].status.arch_eval
            == g[i].status.arch_eval && h[i].status.odoo == g[i].status.odoo
            && h[i].status.validation == g[i].status.validation
}

pub proof fn lemma_extends_evolves(g: Seq<SymbolModel>, h: Seq<SymbolModel>)
    requires
        extends(g, h),
    ensures
        evolves(g, h),
{
    reveal(extends);
    reveal(evolves);
    reveal(walk_ok);
    assert forall|i: int| 0 <= i < g.len() implies kept(
        g[i],
        SymbolModel { status: g[i].status, ..#[trigger] h[i] },
    ) && h[i].status == g[i].status by {
        assert(kept(g[i], h[i]));
    }
}

pub proof fn lemma_evolves_trans(g: Seq<SymbolModel>, h: Seq<SymbolModel>, k: Seq<SymbolModel>)
    requires
        evolves(g, h),
        evolves(h, k),
    ensures
        evolves(g, k),
{
    reveal(extends);
    reveal(evolves);
    reveal(walk_ok);
    assert forall|i: int| 0 <= i < g.len() implies kept(
        g[i],
        SymbolModel { status: g[i].status, ..#[trigger] k[i] },
    ) && k[i].status.arch.rank() >= g[i].status.arch.rank() && k[i].status.arch_eval
        == g[i].status.arch_eval && k[i].status.odoo == g[i].status.odoo && k[i].status.validation
        == g[i].status.validation by {
        let hi = SymbolModel { status: g[i].status, ..h[i] };
        assert(kept(g[i], hi));
        assert(kept(h[i], SymbolModel { status: h[i].status, ..k[i] }));
        let n = g[i].bindings.len() as int;
        let m = h[i].bindings.len() as int;
        assert(k[i].bindings.take(n) =~= k[i].bindings.take(m).take(n));
    }
}

/// Changing a symbol in what does not identify it, and moving its first
/// phase on, lets the graph evolve.
pub proof fn lemma_update_evolves(g: Seq<SymbolModel>, i: int, m: SymbolModel)
    requires
        0 <= i < g.len(),
        kept(g[i], SymbolModel { status: g[i].status, ..m }),
        m.status.arch.rank() >= g[i].status.arch.rank(),
        m.status.arch_eval == g[i].status.arch_eval,
        m.status.odoo == g[i].status.odoo,
        m.status.validation == g[i].status.validation,
    ensures
        evolves(g, g.update(i, m)),
{
    reveal(extends);
    reveal(evolves);
    reveal(walk_ok);
    let h = g.update(i, m);
    assert forall|j: int| 0 <= j < g.len() implies kept(
        g[j],
        SymbolModel { status: g[j].status, ..#[trigger] h[j] },
    ) && h[j].status.arch.rank() >= g[j].status.arch.rank() && h[j].status.arch_eval
        == g[j].status.arch_eval && h[j].status.odoo == g[j].status.odoo && h[j].status.validation
        == g[j].status.validation by {
        if j != i {
            assert(g[j].bindings.take(g[j].bindings.len() as int) == g[j].bindings);
        }
    }
}

/// The symbols of the stack were created one after the other.
pub open spec fn increasing(stack: Seq<usize>) -> bool {
    forall|i: int, j: int| 0 <= i < j < stack.len() ==> stack[i] < stack[j]
}

/// The builder stands in a plan of the tree walk, as deep in the stack as
/// the plan is deep in scopes.
#[verifier::opaque]
pub open spec fn walk_ok(b: BuilderModel) -> bool {
    &&& 0 <= b.next <= b.ops.len()
    &&& well_nested(b.ops)
    &&& file_steps_at_top(b.ops)
    &&& b.sym_stack.len() == 1 + depth_after(b.ops, b.next)
    &&& increasing(b.sym_stack)
}

/// Whether an action asks for something that belongs to the top of a
/// file.
pub open spec fn asks_at_top(action: Option<ActionModel>) -> bool {
    match action {
        Some(ActionModel::ResolveImport { .. }) => true,
        Some(ActionModel::Evaluate { .. }) => true,
        _ => false,
    }
}

/// One step of the walk.
///
/// It keeps every symbol and only appends children; it leaves the stack a
/// stack of containers over the same file; and it binds nothing in the
/// containers below the innermost one. Within a plan of the tree walk it
/// keeps the stack as deep as the plan, and what it asks for the top of a
/// file it asks with the file alone on the stack.
pub proof fn lemma_advance(b: BuilderModel, g: Seq<SymbolModel>)
    requires
        stack_ok(b.sym_stack, g),
        0 <= b.next < b.ops.len(),
        g.len() <= usize::MAX,
    ensures
        extends(g, advance(b, g).graph),
        stack_ok(advance(b, g).builder.sym_stack, advance(b, g).graph),
        advance(b, g).builder.sym_stack[0] == b.sym_stack[0],
        advance(b, g).builder.ops == b.ops,
        advance(b, g).builder.next == b.next + 1,
        forall|j: int|
            0 <= j < b.sym_stack.len() - 1 && increasing(b.sym_stack) ==> advance(
                b,
                g,
            ).graph[#[trigger] b.sym_stack[j] as int].bindings == g[b.sym_stack[j] as int].bindings,
        walk_ok(b) ==> walk_ok(advance(b, g).builder),
        walk_ok(b) && asks_at_top(advance(b, g).action) ==> advance(b, g).builder.sym_stack
            =~= seq![b.sym_stack[0]],
{
    reveal(extends);
    reveal(evolves);
    reveal(walk_ok);
    let a = advance(b, g);
    let top = b.sym_stack.last() as int;
    assert(b.sym_stack[b.sym_stack.len() - 1] < g.len());
    match b.ops[b.next] {
        OpModel::Import { name, range } => {
            lemma_bind_variable_extends(g, top, name, range, true, false, Seq::empty());
        },
        OpModel::Variable { name, range, annotation } => {
            lemma_bind_assigned_extends(g, top, name, range, annotation);
        },
        OpModel::ImportAll { .. } => {
            lemma_extends_refl(g);
        },
        OpModel::Exports { range, annotation, .. } => {
            lemma_bind_assigned_extends(g, top, crate::arch_plan::all_name(), range, annotation);
        },
        OpModel::Function { name, range, is_static, is_property, doc_string, parameters } => {
            lemma_define_function_extends(
                g,
                top,
                name,
                range,
                is_static,
                is_property,
                doc_string,
                parameters,
            );
            crate::arch_steps::lemma_define_function(
                g,
                top,
                name,
                range,
                is_static,
                is_property,
                doc_string,
                parameters,
            );
        },
        OpModel::Class { name, range, doc_string } => {
            lemma_define_class_extends(g, top, name, range, doc_string);
        },
        OpModel::Leave => {
            lemma_extends_refl(g);
        },
    }
    assert(extends(g, a.graph));
    assert forall|i: int| 0 <= i < a.builder.sym_stack.len() implies (
    #[trigger] a.builder.sym_stack[i]) < a.graph.len() && a.graph[a.builder.sym_stack[i] as int].typ.is_container() by {
        if i < b.sym_stack.len() {
            assert(b.sym_stack[i] < g.len());
            assert(kept(g[b.sym_stack[i] as int], a.graph[b.sym_stack[i] as int]));
        }
    }
    assert(kept(g[b.sym_stack[0] as int], a.graph[b.sym_stack[0] as int]));
    assert forall|j: int| 0 <= j < b.sym_stack.len() - 1 && increasing(b.sym_stack) implies a.graph[(
    #[trigger] b.sym_stack[j]) as int].bindings == g[b.sym_stack[j] as int].bindings by {
        assert(b.sym_stack[j] < b.sym_stack[b.sym_stack.len() - 1]);
        assert(b.sym_stack[j] < g.len());
        lemma_step_binds_in_top(b, g, b.sym_stack[j] as int);
    }
    if walk_ok(b) {
        reveal(well_nested);
        reveal(file_steps_at_top);
        assert(depth_after(b.ops, b.next + 1) == depth_after(b.ops, b.next) + depth_change(
            b.ops[b.next],
        ));
        assert(depth_after(b.ops, b.next + 1) >= 0);
        assert forall|i: int, j: int| 0 <= i < j < a.builder.sym_stack.len() implies a.builder.sym_stack[i]
            < a.builder.sym_stack[j] by {
            if j < b.sym_stack.len() {
                assert(b.sym_stack[i] < b.sym_stack[j]);
            } else {
                assert(b.sym_stack[i] < g.len());
            }
        }
        if asks_at_top(a.action) {
            assert(needs_file_scope(b.ops[b.next]));
            assert(depth_after(b.ops, b.next) == 0);
        }
    }
}

/// A step changes the children of no symbol but the one on top of the
/// stack.
pub proof fn lemma_step_binds_in_top(b: BuilderModel, g: Seq<SymbolModel>, i: int)
    requires
        0 <= b.next < b.ops.len(),
        b.sym_stack.len() >= 1,
        b.sym_stack.last() < g.len(),
        g.len() <= usize::MAX,
        0 <= i < g.len(),
        i != b.sym_stack.last(),
    ensures
        advance(b, g).graph[i].bindings == g[i].bindings,
{
    reveal(extends);
    reveal(evolves);
    reveal(walk_ok);
    let top = b.sym_stack.last() as int;
    match b.ops[b.next] {
        OpModel::Function { name, range, is_static, is_property, doc_string, parameters } => {
            let g1 = add_symbol(g, top, SymType::Function, name, range);
            let f = g.len() as int;
            let g2 = g1.update(f, SymbolModel { is_static, is_property, doc_string, ..g1[f] });
            lemma_parameters_bind_in_function(g2, f, parameters, i);
        },
        _ => {},
    }
}

/// Creating the parameters of a function changes the children of no
/// other symbol.
pub proof fn lemma_parameters_bind_in_function(
    g: Seq<SymbolModel>,
    f: int,
    parameters: Seq<ParameterModel>,
    i: int,
)
    requires
        0 <= f < g.len(),
        0 <= i < g.len(),
        i != f,
    ensures
        with_parameters(g, f, parameters).len() >= g.len(),
        with_parameters(g, f, parameters)[i].bindings == g[i].bindings,
    decreases parameters.len(),
{
    reveal(extends);
    reveal(evolves);
    reveal(walk_ok);
    if parameters.len() > 0 {
        lemma_parameters_bind_in_function(g, f, parameters.drop_last(), i);
    }
}

/// Whether a builder stands well in its plan depends on the plan, the
/// place in it and the stack alone.
pub proof fn lemma_walk_ok_same(b: BuilderModel, c: BuilderModel)
    requires
        b.ops == c.ops,
        b.next == c.next,
        b.sym_stack == c.sym_stack,
    ensures
        walk_ok(b) == walk_ok(c),
{
    reveal(walk_ok);
}

/// A builder with the file alone on the stack stands well at the start of
/// the plan of any tree.
pub proof fn lemma_walk_begins(b: BuilderModel, stmts: Seq<Stmt>)
    requires
        b.sym_stack.len() == 1,
        b.ops == visit_nodes(stmts, Scope::File),
        b.next == 0,
    ensures
        walk_ok(b),
{
    reveal(walk_ok);
    lemma_visit_nodes(stmts, Scope::File);
    assert(depth_after(b.ops, 0) == 0);
}

/// A builder with the file alone on the stack and no plan stands well.
pub proof fn lemma_walk_empty(b: BuilderModel)
    requires
        b.sym_stack.len() == 1,
        b.ops.len() == 0,
        b.next == 0,
    ensures
        walk_ok(b),
{
    reveal(walk_ok);
    reveal(well_nested);
    reveal(file_steps_at_top);
    assert(depth_after(b.ops, 0) == 0);
}

/// Status monotonicity: while the graph evolves, the first phase of a
/// symbol never goes back in the order pending, in progress, done; and the
/// later phases stay as they are.
pub proof fn lemma_status_never_goes_back(g: Seq<SymbolModel>, h: Seq<SymbolModel>, i: int)
    requires
        evolves(g, h),
        0 <= i < g.len(),
    ensures
        i < h.len(),
        h[i].status.arch.rank() >= g[i].status.arch.rank(),
        h[i].status.arch_eval == g[i].status.arch_eval,
        h[i].status.odoo == g[i].status.odoo,
        h[i].status.validation == g[i].status.validation,
{
    reveal(evolves);
}

/// While the graph evolves, a symbol stays what it is: its kind, name,
/// parent, span and paths are kept; and its children are only appended, in
/// the sections it had.
pub proof fn lemma_children_are_appended(g: Seq<SymbolModel>, h: Seq<SymbolModel>, i: int)
    requires
        evolves(g, h),
        0 <= i < g.len(),
    ensures
        i < h.len(),
        h[i].typ == g[i].typ,
        h[i].name == g[i].name,
        h[i].parent == g[i].parent,
        h[i].range == g[i].range,
        h[i].paths == g[i].paths,
        h[i].is_external == g[i].is_external,
        h[i].sections == g[i].sections,
        g[i].bindings.len() <= h[i].bindings.len(),
        forall|k: int| 0 <= k < g[i].bindings.len() ==> h[i].bindings[k] == g[i].bindings[k],
{
    reveal(evolves);
    let hi = SymbolModel { status: g[i].status, ..h[i] };
    assert(kept(g[i], hi));
    assert forall|k: int| 0 <= k < g[i].bindings.len() implies h[i].bindings[k] == g[i].bindings[k] by {
        assert(h[i].bindings.take(g[i].bindings.len() as int)[k] == g[i].bindings[k]);
    }
}

/// Scope law, for the plan: in a function, an import and an assignment
/// plan no step.
pub proof fn lemma_function_scope_plans_nothing(stmt: Stmt)
    requires
        stmt is Import || stmt is ImportFrom || stmt is Assign || stmt is AnnAssign,
    ensures
        visit_stmt(stmt, Scope::Function) == Seq::<OpModel>::empty(),
{
}

/// Scope law, for the graph: while the stack holds more than the file, no
/// step gives the file a child. A function is on the stack for as long as
/// its body is walked, so nothing in the body becomes a child of the file.
pub proof fn lemma_file_untouched_inside_scopes(b: BuilderModel, g: Seq<SymbolModel>)
    requires
        stack_ok(b.sym_stack, g),
        increasing(b.sym_stack),
        0 <= b.next < b.ops.len(),
        g.len() <= usize::MAX,
        b.sym_stack.len() >= 2,
    ensures
        advance(b, g).graph[b.sym_stack[0] as int].bindings == g[b.sym_stack[0] as int].bindings,
{
    lemma_advance(b, g);
    assert(b.sym_stack[0] < g.len());
}

/// Dotted binding, for the graph: the step of a named import appends one
/// variable, which bears the planned name and span, is marked as bound by
/// an import, has no evaluation, and is the last child of the container on
/// top of the stack.
pub proof fn lemma_import_step(b: BuilderModel, g: Seq<SymbolModel>)
    requires
        stack_ok(b.sym_stack, g),
        0 <= b.next < b.ops.len(),
        g.len() < usize::MAX,
        b.ops[b.next] is Import,
    ensures
        advance(b, g).action.is_none(),
        advance(b, g).graph.len() == g.len() + 1,
        ({
            let v = advance(b, g).graph[g.len() as int];
            let top = b.sym_stack.last() as int;
            let after = advance(b, g).graph[top].bindings;
            &&& v.typ == SymType::Variable
            &&& v.name == b.ops[b.next]->Import_name
            &&& v.range == Some(b.ops[b.next]->Import_range)
            &&& v.parent == Some(top as usize)
            &&& v.is_import_variable
            &&& v.evaluations.len() == 0
            &&& after.len() == g[top].bindings.len() + 1
            &&& after.last().name == v.name
            &&& after.last().symbol == g.len()
        }),
{
    assert(b.sym_stack[b.sym_stack.len() - 1] < g.len());
}

} // verus!
