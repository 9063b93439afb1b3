//! The shape of what a pass creates, and why it depends on the file and on
//! the answers alone: not on the graph in which the symbols land.
use vstd::prelude::*;
use ruff_text_size::TextRange;
use crate::arch_plan::{all_name, visit_nodes, OpModel, ParameterModel, Scope};
use crate::arch_steps::synthetic_exports;
use crate::import_binder::{
    bind_imports,
    link_files,
    weak_evaluations,
    wildcard_imports,
    ImportedModel,
};
use crate::ast::Stmt;
use crate::constants::{BuildStatus, BuildSteps};
use crate::evaluation::texts;
use crate::import_binder::{lemma_bind_imports, lemma_link_files};
use crate::pass_laws::{lemma_link_files_extends, lemma_walk_begins};
use crate::python_arch_builder::{
    fresh_builder,
    import_usable,
    lies_in_workspace,
    on_evaluation,
    on_file,
    on_import,
    start,
    step,
    warned,
    ArchEvent,
    ImportResult,
    Phase,
};
use crate::symbols::file_symbol::NotFoundModel;
use lsp_types::Diagnostic;
use crate::symbols::graph::lemma_file_of;
use crate::arch_steps::{
    bind_assigned,
    bind_variable,
    define_class,
    define_function,
    with_parameter,
    with_parameters,
    ExportModel,
};
use crate::constants::SymType;
use crate::evaluation::Evaluation;
use crate::pass_laws::{
    extends,
    kept,
    lemma_add_symbol_extends,
    lemma_bind_variable_extends,
    lemma_extends_trans,
    lemma_update_extends,
    lemma_with_parameters_extends,
};
use crate::symbols::graph::add_symbol;
use crate::symbols::symbol::SymbolModel;
use crate::arch_steps::{lemma_resolve_exports, resolve_exports};
use crate::pass_laws::{
    asks_at_top,
    lemma_advance,
    lemma_extends_refl,
    lemma_walk_ok_same,
    walk_ok,
};
use crate::plan_laws::well_nested;
use crate::symbols::symbol_mgr::{binding_set, SectionRange};
use crate::symbols::symbol_mgr::lemma_section_at;
use crate::text::range_start;
use crate::python_arch_builder::{advance, stack_ok, ActionModel, BuilderModel};
use crate::symbols::symbol_mgr::{table_wf, BindingModel};

verus! {

/// Where a symbol hangs, as seen from a pass: on the file that the pass
/// builds, on the `k`-th symbol that the pass created, or elsewhere.
pub enum Place {
    File,
    Created(int),
    Elsewhere,
}

/// A symbol as a pass made it: what it is called, what it is, where it
/// stands in the source, and where it hangs.
pub struct Node {
    pub name: Seq<char>,
    pub typ: SymType,
    pub range: Option<TextRange>,
    pub parent: Place,
}

/// The place of symbol `x` for a pass on `file` that found `base` symbols
/// in the graph.
pub open spec fn place_of(x: int, file: int, base: int) -> Place {
    if x == file {
        Place::File
    } else if x >= base {
        Place::Created(x - base)
    } else {
        Place::Elsewhere
    }
}

pub open spec fn parent_place(parent: Option<usize>, file: int, base: int) -> Place {
    match parent {
        Some(p) => place_of(p as int, file, base),
        None => Place::Elsewhere,
    }
}

/// The `k`-th symbol that the pass created.
pub open spec fn node(g: Seq<SymbolModel>, file: int, base: int, k: int) -> Node {
    let s = g[base + k];
    Node { name: s.name, typ: s.typ, range: s.range, parent: parent_place(s.parent, file, base) }
}

/// The shape of what the pass created: its symbols in the order of their
/// creation. Children are bound in the order in which they are created, so
/// the shape gives the tree below the file with its names, kinds, spans and
/// the order of the children.
pub open spec fn shape(g: Seq<SymbolModel>, file: int, base: int) -> Seq<Node> {
    Seq::new((g.len() - base) as nat, |k: int| node(g, file, base, k))
}

/// The names that a table binds, in the order of the bindings.
pub open spec fn binding_names(bindings: Seq<BindingModel>) -> Seq<Seq<char>> {
    bindings.map_values(|b: BindingModel| b.name)
}

/// The nodes of a list of parameters created in the `f`-th created
/// symbol.
pub open spec fn parameter_nodes(parameters: Seq<ParameterModel>, f: int) -> Seq<Node> {
    parameters.map_values(
        |p: ParameterModel|
            Node {
                name: p.name,
                typ: SymType::Variable,
                range: Some(p.range),
                parent: Place::Created(f),
            },
    )
}

/// A graph that has grown by nothing has the shape it had.
pub proof fn lemma_shape_same(g: Seq<SymbolModel>, h: Seq<SymbolModel>, file: int, base: int)
    requires
        extends(g, h),
        g.len() == h.len(),
        0 <= base <= g.len(),
    ensures
        shape(h, file, base) == shape(g, file, base),
{
    reveal(extends);
    assert forall|k: int| 0 <= k < g.len() - base implies node(h, file, base, k) == node(
        g,
        file,
        base,
        k,
    ) by {
        assert(kept(g[base + k], h[base + k]));
    }
    assert(shape(h, file, base) =~= shape(g, file, base));
}

/// A graph that has grown has the shape it had, and then the new nodes.
pub proof fn lemma_shape_grows(g: Seq<SymbolModel>, h: Seq<SymbolModel>, file: int, base: int)
    requires
        extends(g, h),
        0 <= base <= g.len(),
    ensures
        g.len() <= h.len(),
        shape(h, file, base) == shape(g, file, base) + shape(h, file, base).subrange(
            g.len() - base,
            h.len() - base,
        ),
{
    reveal(extends);
    assert forall|k: int| 0 <= k < g.len() - base implies node(h, file, base, k) == node(
        g,
        file,
        base,
        k,
    ) by {
        assert(kept(g[base + k], h[base + k]));
    }
    assert(shape(h, file, base) =~= shape(g, file, base) + shape(h, file, base).subrange(
        g.len() - base,
        h.len() - base,
    ));
}

/// The shape after one symbol was appended.
pub proof fn lemma_shape_push(g: Seq<SymbolModel>, h: Seq<SymbolModel>, file: int, base: int)
    requires
        extends(g, h),
        h.len() == g.len() + 1,
        0 <= base <= g.len(),
    ensures
        shape(h, file, base) == shape(g, file, base).push(node(h, file, base, g.len() - base)),
{
    lemma_shape_grows(g, h, file, base);
    assert(shape(h, file, base).subrange(g.len() - base, h.len() - base) =~= seq![
        node(h, file, base, g.len() - base),
    ]);
    assert(shape(g, file, base) + seq![node(h, file, base, g.len() - base)] =~= shape(
        g,
        file,
        base,
    ).push(node(h, file, base, g.len() - base)));
}

/// The shape after a symbol was added to container `top`: one node more,
/// which hangs where `top` is.
pub proof fn lemma_add_symbol_shape(
    g: Seq<SymbolModel>,
    top: int,
    typ: SymType,
    name: Seq<char>,
    range: TextRange,
    file: int,
    base: int,
)
    requires
        0 <= top < g.len(),
        g.len() <= usize::MAX,
        0 <= base <= g.len(),
    ensures
        shape(add_symbol(g, top, typ, name, range), file, base) == shape(g, file, base).push(
            Node { name, typ, range: Some(range), parent: place_of(top, file, base) },
        ),
        forall|i: int|
            0 <= i < g.len() && i != top ==> (#[trigger] add_symbol(
                g,
                top,
                typ,
                name,
                range,
            )[i]).bindings == g[i].bindings,
        binding_names(add_symbol(g, top, typ, name, range)[top].bindings) == binding_names(
            g[top].bindings,
        ).push(name),
        add_symbol(g, top, typ, name, range).len() == g.len() + 1,
{
    let h = add_symbol(g, top, typ, name, range);
    lemma_add_symbol_extends(g, top, typ, name, range);
    lemma_shape_push(g, h, file, base);
    assert(binding_names(h[top].bindings) =~= binding_names(g[top].bindings).push(name));
}

/// The shape after a variable was created in container `top`.
pub proof fn lemma_bind_variable_shape(
    g: Seq<SymbolModel>,
    top: int,
    name: Seq<char>,
    range: TextRange,
    is_import_variable: bool,
    is_parameter: bool,
    evaluations: Seq<Evaluation>,
    file: int,
    base: int,
)
    requires
        0 <= top < g.len(),
        g.len() <= usize::MAX,
        0 <= base <= g.len(),
    ensures
        shape(
            bind_variable(g, top, name, range, is_import_variable, is_parameter, evaluations),
            file,
            base,
        ) == shape(g, file, base).push(
            Node {
                name,
                typ: SymType::Variable,
                range: Some(range),
                parent: place_of(top, file, base),
            },
        ),
        forall|i: int|
            0 <= i < g.len() && i != top ==> (#[trigger] bind_variable(
                g,
                top,
                name,
                range,
                is_import_variable,
                is_parameter,
                evaluations,
            )[i]).bindings == g[i].bindings,
        binding_names(
            bind_variable(
                g,
                top,
                name,
                range,
                is_import_variable,
                is_parameter,
                evaluations,
            )[top].bindings,
        ) == binding_names(g[top].bindings).push(name),
        bind_variable(g, top, name, range, is_import_variable, is_parameter, evaluations).len()
            == g.len() + 1,
{
    let h = bind_variable(g, top, name, range, is_import_variable, is_parameter, evaluations);
    lemma_bind_variable_extends(g, top, name, range, is_import_variable, is_parameter, evaluations);
    lemma_shape_push(g, h, file, base);
    assert(binding_names(h[top].bindings) =~= binding_names(g[top].bindings).push(name));
}

/// The shape after the parameters of function `f` were created: one node
/// for each, which hangs on the function.
pub proof fn lemma_with_parameters_shape(
    g: Seq<SymbolModel>,
    f: int,
    parameters: Seq<ParameterModel>,
    file: int,
    base: int,
)
    requires
        0 <= f < g.len(),
        g.len() + parameters.len() <= usize::MAX,
        0 <= base <= f,
        f != file,
    ensures
        with_parameters(g, f, parameters).len() == g.len() + parameters.len(),
        shape(with_parameters(g, f, parameters), file, base) == shape(g, file, base)
            + parameter_nodes(parameters, f - base),
        forall|i: int|
            0 <= i < g.len() && i != f ==> (#[trigger] with_parameters(g, f, parameters)[i]).bindings
                == g[i].bindings,
    decreases parameters.len(),
{
    let nodes = parameter_nodes(parameters, f - base);
    if parameters.len() == 0 {
        assert(shape(g, file, base) + nodes =~= shape(g, file, base));
    } else {
        let front = parameters.drop_last();
        let p = parameters.last();
        let g1 = with_parameters(g, f, front);
        lemma_with_parameters_shape(g, f, front, file, base);
        lemma_bind_variable_shape(g1, f, p.name, p.range, false, true, Seq::empty(), file, base);
        let g2 = bind_variable(g1, f, p.name, p.range, false, true, Seq::empty());
        let h = with_parameter(g1, f, p);
        lemma_bind_variable_extends(g1, f, p.name, p.range, false, true, Seq::empty());
        assert(kept(g2[f], h[f])) by {
            assert(h[f].bindings.take(g2[f].bindings.len() as int) == g2[f].bindings);
        }
        lemma_update_extends(g2, f, h[f]);
        assert(h =~= g2.update(f, h[f]));
        lemma_shape_same(g2, h, file, base);
        let front_nodes = parameter_nodes(front, f - base);
        assert(nodes =~= front_nodes.push(
            Node {
                name: p.name,
                typ: SymType::Variable,
                range: Some(p.range),
                parent: place_of(f, file, base),
            },
        ));
        assert(shape(h, file, base) =~= shape(g, file, base) + nodes);
        assert forall|i: int| 0 <= i < g.len() && i != f implies (#[trigger] h[i]).bindings
            == g[i].bindings by {
            assert(g1[i].bindings == g[i].bindings);
            assert(g2[i].bindings == g1[i].bindings);
        }
    }
}

/// A pass under way: the builder, the graph, and the number of symbols
/// that the pass found in the graph.
pub struct Run {
    pub b: BuilderModel,
    pub g: Seq<SymbolModel>,
    pub base: int,
}

impl Run {
    /// The file that the pass builds.
    pub open spec fn file(self) -> int {
        self.b.sym_stack[0] as int
    }
}

/// What an action asks, with places for symbols.
pub enum Ask {
    ResolveImport { scope: Place, module: Option<Seq<char>>, level: Option<u32>, range: TextRange },
    Evaluate { value: TextRange, parent: Place, position: u32, variable: Place },
    ClassDefined { class: Place },
    Complete,
}

/// A pass under way, without the graph: what the builder waits on, the
/// plan and the place in it, the names noted from export lists, the stack
/// as places, the shape of what was created, the names that the file
/// binds, the kind of the file, and whether it is external.
pub struct Abs {
    pub phase: Phase,
    pub typ: SymType,
    pub ops: Seq<OpModel>,
    pub next: int,
    pub exports: Seq<ExportModel>,
    pub stack: Seq<Place>,
    pub shape: Seq<Node>,
    pub names: Seq<Seq<char>>,
    pub is_external: bool,
}

/// The stack of a pass as places.
pub open spec fn stack_places(stack: Seq<usize>, file: int, base: int) -> Seq<Place> {
    stack.map_values(|x: usize| place_of(x as int, file, base))
}

/// What a pass under way is without its graph.
pub open spec fn abs(run: Run) -> Abs {
    Abs {
        phase: run.b.phase,
        typ: run.g[run.file()].typ,
        ops: run.b.ops,
        next: run.b.next,
        exports: run.b.exports,
        stack: stack_places(run.b.sym_stack, run.file(), run.base),
        shape: shape(run.g, run.file(), run.base),
        names: binding_names(run.g[run.file()].bindings),
        is_external: run.g[run.file()].is_external,
    }
}

/// The number of symbols that a step creates.
pub open spec fn cost(op: OpModel) -> int {
    match op {
        OpModel::Function { parameters, .. } => 1 + parameters.len() as int,
        OpModel::Class { .. } => 1,
        OpModel::Variable { .. } => 1,
        OpModel::Import { .. } => 1,
        OpModel::Exports { .. } => 1,
        _ => 0,
    }
}

/// The number of symbols that the steps from `k` on create.
pub open spec fn cost_from(ops: Seq<OpModel>, k: int) -> int
    decreases ops.len() - k,
{
    if k < 0 || k >= ops.len() {
        0
    } else {
        cost(ops[k]) + cost_from(ops, k + 1)
    }
}

/// The number of symbols that the rest of the walk may create.
pub open spec fn room(b: BuilderModel) -> int {
    cost_from(b.ops, b.next) + b.exports.len()
}

/// The pass is well under way: the stack holds the file, which was there
/// before the pass, below symbols that the pass created; the table of the
/// file is in order; and the graph has room for the rest of the walk.
pub open spec fn run_ok(run: Run) -> bool {
    &&& stack_ok(run.b.sym_stack, run.g)
    &&& walk_ok(run.b)
    &&& run.file() < run.base <= run.g.len()
    &&& forall|j: int| 1 <= j < run.b.sym_stack.len() ==> (#[trigger] run.b.sym_stack[j]) >= run.base
    &&& run.g.len() + room(run.b) <= usize::MAX
    &&& table_wf(run.g[run.file()].sections, run.g[run.file()].bindings)
}

/// The node that a step creates first, where it creates one.
pub open spec fn first_node(op: OpModel, top: Place) -> Node {
    match op {
        OpModel::Import { name, range } => Node {
            name,
            typ: SymType::Variable,
            range: Some(range),
            parent: top,
        },
        OpModel::Variable { name, range, .. } => Node {
            name,
            typ: SymType::Variable,
            range: Some(range),
            parent: top,
        },
        OpModel::Exports { range, .. } => Node {
            name: all_name(),
            typ: SymType::Variable,
            range: Some(range),
            parent: top,
        },
        OpModel::Function { name, range, .. } => Node {
            name,
            typ: SymType::Function,
            range: Some(range),
            parent: top,
        },
        OpModel::Class { name, range, .. } => Node {
            name,
            typ: SymType::Class,
            range: Some(range),
            parent: top,
        },
        _ => Node { name: Seq::empty(), typ: SymType::Variable, range: None, parent: top },
    }
}

/// The nodes that a step creates, when the stack's top is at `top` and
/// `n` nodes are there.
pub open spec fn new_nodes(op: OpModel, top: Place, n: int) -> Seq<Node> {
    match op {
        OpModel::Function { parameters, .. } => seq![first_node(op, top)] + parameter_nodes(
            parameters,
            n,
        ),
        OpModel::ImportAll { .. } => Seq::empty(),
        OpModel::Leave => Seq::empty(),
        _ => seq![first_node(op, top)],
    }
}

/// Where one step leaves a pass that is seen without its graph.
pub struct AbsAdvance {
    pub abs: Abs,
    pub ask: Option<Ask>,
}

/// One step of a pass that is seen without its graph.
pub open spec fn abs_advance(a: Abs) -> AbsAdvance {
    let op = a.ops[a.next];
    let top = a.stack.last();
    let n = a.shape.len() as int;
    let grown = Abs {
        next: a.next + 1,
        shape: a.shape + new_nodes(op, top, n),
        names: if a.stack.len() == 1 && cost(op) > 0 {
            a.names.push(first_node(op, top).name)
        } else {
            a.names
        },
        ..a
    };
    match op {
        OpModel::ImportAll { module, level, range } => AbsAdvance {
            abs: Abs { phase: Phase::AwaitImport, ..grown },
            ask: Some(Ask::ResolveImport { scope: top, module, level, range }),
        },
        OpModel::Exports { value, position, .. } => AbsAdvance {
            abs: Abs { phase: Phase::AwaitEvaluation, ..grown },
            ask: Some(Ask::Evaluate { value, parent: top, position, variable: Place::Created(n) }),
        },
        OpModel::Function { .. } => AbsAdvance {
            abs: Abs { stack: a.stack.push(Place::Created(n)), ..grown },
            ask: None,
        },
        OpModel::Class { .. } => AbsAdvance {
            abs: Abs { stack: a.stack.push(Place::Created(n)), ..grown },
            ask: None,
        },
        OpModel::Leave => if a.stack.len() > 1 {
            let left = Abs { stack: a.stack.drop_last(), ..grown };
            match top {
                Place::Created(k) => if a.shape[k].typ == SymType::Class {
                    AbsAdvance {
                        abs: Abs { phase: Phase::AwaitAck, ..left },
                        ask: Some(Ask::ClassDefined { class: top }),
                    }
                } else {
                    AbsAdvance { abs: left, ask: None }
                },
                _ => AbsAdvance { abs: left, ask: None },
            }
        } else {
            AbsAdvance { abs: grown, ask: None }
        },
        _ => AbsAdvance { abs: grown, ask: None },
    }
}

/// What an action asks, seen from a pass on `file` that found `base`
/// symbols.
pub open spec fn ask_of(action: ActionModel, pending: usize, file: int, base: int) -> Option<Ask> {
    match action {
        ActionModel::ResolveImport { scope, module, level, range } => Some(
            Ask::ResolveImport { scope: place_of(scope as int, file, base), module, level, range },
        ),
        ActionModel::Evaluate { value, parent, position } => Some(
            Ask::Evaluate {
                value,
                parent: place_of(parent as int, file, base),
                position,
                variable: place_of(pending as int, file, base),
            },
        ),
        ActionModel::ClassDefined { class } => Some(
            Ask::ClassDefined { class: place_of(class as int, file, base) },
        ),
        ActionModel::Complete { .. } => Some(Ask::Complete),
        _ => None,
    }
}

/// The rest of the walk costs what its first step costs and what the rest
/// after that costs.
pub proof fn lemma_cost_from(ops: Seq<OpModel>, k: int)
    requires
        0 <= k < ops.len(),
    ensures
        cost_from(ops, k) == cost(ops[k]) + cost_from(ops, k + 1),
        cost_from(ops, k + 1) >= 0,
{
    lemma_cost_nonnegative(ops, k + 1);
}

pub proof fn lemma_cost_nonnegative(ops: Seq<OpModel>, k: int)
    ensures
        cost_from(ops, k) >= 0,
    decreases ops.len() - k,
{
    if 0 <= k < ops.len() {
        lemma_cost_nonnegative(ops, k + 1);
    }
}

/// The names that a file binds after a symbol was added to `top`, and the
/// order of its table: one name more when `top` is the file, and else what
/// they were.
pub proof fn lemma_add_symbol_file(
    g: Seq<SymbolModel>,
    top: int,
    typ: SymType,
    name: Seq<char>,
    range: TextRange,
    file: int,
)
    requires
        0 <= top < g.len(),
        0 <= file < g.len(),
        g.len() <= usize::MAX,
        table_wf(g[file].sections, g[file].bindings),
    ensures
        table_wf(
            add_symbol(g, top, typ, name, range)[file].sections,
            add_symbol(g, top, typ, name, range)[file].bindings,
        ),
        binding_names(add_symbol(g, top, typ, name, range)[file].bindings) == if top == file {
            binding_names(g[file].bindings).push(name)
        } else {
            binding_names(g[file].bindings)
        },
        add_symbol(g, top, typ, name, range)[file].is_external == g[file].is_external,
{
    let h = add_symbol(g, top, typ, name, range);
    if top == file {
        lemma_section_at(g[file].sections, range_start(range));
        assert(binding_names(h[file].bindings) =~= binding_names(g[file].bindings).push(name));
        assert forall|k: int| 0 <= k < h[file].bindings.len() implies (
        #[trigger] h[file].bindings[k]).section < h[file].sections.len() by {
            if k < g[file].bindings.len() {
                assert(g[file].bindings[k].section < g[file].sections.len());
            }
        }
    }
}

/// Where a step leaves a pass.
pub open spec fn after(run: Run) -> Run {
    Run { b: advance(run.b, run.g).builder, g: advance(run.b, run.g).graph, base: run.base }
}

/// What a step asks, as places.
pub open spec fn asked(run: Run) -> Option<Ask> {
    match advance(run.b, run.g).action {
        Some(action) => ask_of(
            action,
            advance(run.b, run.g).builder.pending_variable,
            run.file(),
            run.base,
        ),
        None => None,
    }
}

/// In a pass that is well under way, the top of the stack is the file
/// exactly when the stack holds nothing else.
pub proof fn lemma_top_is_file(run: Run)
    requires
        run_ok(run),
    ensures
        (run.b.sym_stack.len() == 1) == (run.b.sym_stack.last() as int == run.file()),
        0 <= run.b.sym_stack.last() < run.g.len(),
        0 <= run.file() < run.g.len(),
        run.g.len() <= usize::MAX,
{
    reveal(walk_ok);
    let b = run.b;
    assert(b.sym_stack[b.sym_stack.len() - 1] < run.g.len());
    assert(b.sym_stack[0] < run.g.len());
    if b.sym_stack.len() > 1 {
        assert(b.sym_stack[0] < b.sym_stack[b.sym_stack.len() - 1]);
    }
    lemma_cost_nonnegative(b.ops, b.next);
}

/// What creating a function with its parameters does, seen from a pass.
pub proof fn lemma_define_function_shape(
    g: Seq<SymbolModel>,
    top: int,
    name: Seq<char>,
    range: TextRange,
    is_static: bool,
    is_property: bool,
    doc_string: Option<Seq<char>>,
    parameters: Seq<ParameterModel>,
    file: int,
    base: int,
)
    requires
        0 <= top < g.len(),
        0 <= file < base <= g.len(),
        g.len() + 1 + parameters.len() <= usize::MAX,
        table_wf(g[file].sections, g[file].bindings),
    ensures
        ({
            let h = define_function(
                g,
                top,
                name,
                range,
                is_static,
                is_property,
                doc_string,
                parameters,
            );
            &&& h.len() == g.len() + 1 + parameters.len()
            &&& shape(h, file, base) == shape(g, file, base).push(
                Node {
                    name,
                    typ: SymType::Function,
                    range: Some(range),
                    parent: place_of(top, file, base),
                },
            ) + parameter_nodes(parameters, g.len() - base)
            &&& table_wf(h[file].sections, h[file].bindings)
            &&& h[file].is_external == g[file].is_external
            &&& binding_names(h[file].bindings) == if top == file {
                binding_names(g[file].bindings).push(name)
            } else {
                binding_names(g[file].bindings)
            }
        }),
{
    lemma_add_symbol_shape(g, top, SymType::Function, name, range, file, base);
    lemma_add_symbol_file(g, top, SymType::Function, name, range, file);
    lemma_add_symbol_extends(g, top, SymType::Function, name, range);
    let g1 = add_symbol(g, top, SymType::Function, name, range);
    let f = g.len() as int;
    let g2 = g1.update(f, SymbolModel { is_static, is_property, doc_string, ..g1[f] });
    assert(kept(g1[f], g2[f])) by {
        assert(g2[f].bindings.take(g1[f].bindings.len() as int) == g1[f].bindings);
    }
    lemma_update_extends(g1, f, g2[f]);
    lemma_shape_same(g1, g2, file, base);
    lemma_with_parameters_shape(g2, f, parameters, file, base);
    let h = with_parameters(g2, f, parameters);
    assert(h[file].bindings == g2[file].bindings);
    lemma_with_parameters_extends(g2, f, parameters);
    assert(h[file].sections == g2[file].sections && h[file].is_external == g2[file].is_external) by {
        reveal(extends);
        assert(kept(g2[file], h[file]));
    }
}

/// What creating a class does, seen from a pass.
pub proof fn lemma_define_class_shape(
    g: Seq<SymbolModel>,
    top: int,
    name: Seq<char>,
    range: TextRange,
    doc_string: Option<Seq<char>>,
    file: int,
    base: int,
)
    requires
        0 <= top < g.len(),
        0 <= file < base <= g.len(),
        g.len() + 1 <= usize::MAX,
        table_wf(g[file].sections, g[file].bindings),
    ensures
        ({
            let h = define_class(g, top, name, range, doc_string);
            &&& h.len() == g.len() + 1
            &&& shape(h, file, base) == shape(g, file, base).push(
                Node {
                    name,
                    typ: SymType::Class,
                    range: Some(range),
                    parent: place_of(top, file, base),
                },
            )
            &&& table_wf(h[file].sections, h[file].bindings)
            &&& h[file].is_external == g[file].is_external
            &&& binding_names(h[file].bindings) == if top == file {
                binding_names(g[file].bindings).push(name)
            } else {
                binding_names(g[file].bindings)
            }
        }),
{
    lemma_add_symbol_shape(g, top, SymType::Class, name, range, file, base);
    lemma_add_symbol_file(g, top, SymType::Class, name, range, file);
    lemma_add_symbol_extends(g, top, SymType::Class, name, range);
    let g1 = add_symbol(g, top, SymType::Class, name, range);
    let c = g.len() as int;
    let h = define_class(g, top, name, range, doc_string);
    assert(kept(g1[c], h[c])) by {
        assert(h[c].bindings.take(g1[c].bindings.len() as int) == g1[c].bindings);
    }
    lemma_update_extends(g1, c, h[c]);
    lemma_shape_same(g1, h, file, base);
}

/// What creating a variable does, seen from a pass.
pub proof fn lemma_variable_shape(
    g: Seq<SymbolModel>,
    top: int,
    name: Seq<char>,
    range: TextRange,
    is_import_variable: bool,
    annotation: Option<TextRange>,
    file: int,
    base: int,
)
    requires
        0 <= top < g.len(),
        0 <= file < base <= g.len(),
        g.len() + 1 <= usize::MAX,
        table_wf(g[file].sections, g[file].bindings),
    ensures
        ({
            let h = bind_variable(g, top, name, range, is_import_variable, false, Seq::empty());
            let plain = bind_assigned(g, top, name, range, annotation);
            let n = Node {
                name,
                typ: SymType::Variable,
                range: Some(range),
                parent: place_of(top, file, base),
            };
            let names = if top == file {
                binding_names(g[file].bindings).push(name)
            } else {
                binding_names(g[file].bindings)
            };
            &&& h.len() == g.len() + 1
            &&& plain.len() == g.len() + 1
            &&& shape(h, file, base) == shape(g, file, base).push(n)
            &&& shape(plain, file, base) == shape(g, file, base).push(n)
            &&& table_wf(h[file].sections, h[file].bindings)
            &&& table_wf(plain[file].sections, plain[file].bindings)
            &&& h[file].is_external == g[file].is_external
            &&& plain[file].is_external == g[file].is_external
            &&& binding_names(h[file].bindings) == names
            &&& binding_names(plain[file].bindings) == names
        }),
{
    lemma_bind_variable_shape(g, top, name, range, is_import_variable, false, Seq::empty(), file, base);
    lemma_add_symbol_shape(g, top, SymType::Variable, name, range, file, base);
    lemma_add_symbol_file(g, top, SymType::Variable, name, range, file);
    let g1 = add_symbol(g, top, SymType::Variable, name, range);
    let plain = bind_assigned(g, top, name, range, annotation);
    lemma_add_symbol_extends(g, top, SymType::Variable, name, range);
    let v = g.len() as int;
    assert(kept(g1[v], plain[v])) by {
        assert(plain[v].bindings.take(g1[v].bindings.len() as int) == g1[v].bindings);
    }
    lemma_update_extends(g1, v, plain[v]);
    lemma_shape_same(g1, plain, file, base);
}

/// What the step at which a pass stands does to the graph, seen from the
/// pass.
pub open spec fn step_effect(run: Run, h: Seq<SymbolModel>) -> bool {
    let op = run.b.ops[run.b.next];
    let file = run.file();
    &&& h.len() == run.g.len() + cost(op)
    &&& shape(h, file, run.base) == shape(run.g, file, run.base) + new_nodes(
        op,
        place_of(run.b.sym_stack.last() as int, file, run.base),
        run.g.len() - run.base,
    )
    &&& table_wf(h[file].sections, h[file].bindings)
    &&& h[file].is_external == run.g[file].is_external
    &&& binding_names(h[file].bindings) == if run.b.sym_stack.len() == 1 && cost(op) > 0 {
        binding_names(run.g[file].bindings).push(first_node(op, Place::File).name)
    } else {
        binding_names(run.g[file].bindings)
    }
}

/// The effect of a step that creates a variable.
pub proof fn lemma_variable_step(run: Run)
    requires
        run_ok(run),
        0 <= run.b.next < run.b.ops.len(),
        run.b.ops[run.b.next] is Import || run.b.ops[run.b.next] is Variable
            || run.b.ops[run.b.next] is Exports,
    ensures
        step_effect(run, after(run).g),
{
    let g = run.g;
    let file = run.file();
    let base = run.base;
    let top = run.b.sym_stack.last() as int;
    let op = run.b.ops[run.b.next];
    let s0 = shape(g, file, base);
    let at = place_of(top, file, base);
    lemma_cost_from(run.b.ops, run.b.next);
    lemma_top_is_file(run);
    match op {
        OpModel::Import { name, range } => {
            lemma_variable_shape(g, top, name, range, true, None, file, base);
        },
        OpModel::Variable { name, range, annotation } => {
            lemma_variable_shape(g, top, name, range, false, annotation, file, base);
        },
        OpModel::Exports { range, annotation, .. } => {
            lemma_variable_shape(g, top, all_name(), range, false, annotation, file, base);
        },
        _ => {},
    }
    assert(s0.push(first_node(op, at)) =~= s0 + new_nodes(op, at, g.len() - base));
}

/// The effect of a step that creates a function or a class.
pub proof fn lemma_definition_step(run: Run)
    requires
        run_ok(run),
        0 <= run.b.next < run.b.ops.len(),
        run.b.ops[run.b.next] is Function || run.b.ops[run.b.next] is Class,
    ensures
        step_effect(run, after(run).g),
{
    let g = run.g;
    let file = run.file();
    let base = run.base;
    let top = run.b.sym_stack.last() as int;
    let op = run.b.ops[run.b.next];
    let s0 = shape(g, file, base);
    let at = place_of(top, file, base);
    lemma_cost_from(run.b.ops, run.b.next);
    lemma_top_is_file(run);
    match op {
        OpModel::Class { name, range, doc_string } => {
            lemma_define_class_shape(g, top, name, range, doc_string, file, base);
            assert(s0.push(first_node(op, at)) =~= s0 + new_nodes(op, at, g.len() - base));
        },
        OpModel::Function { name, range, is_static, is_property, doc_string, parameters } => {
            lemma_define_function_shape(
                g,
                top,
                name,
                range,
                is_static,
                is_property,
                doc_string,
                parameters,
                file,
                base,
            );
            assert(s0.push(first_node(op, at)) + parameter_nodes(parameters, g.len() - base) =~= s0
                + new_nodes(op, at, g.len() - base));
        },
        _ => {},
    }
}

/// What a step does to the graph, seen from the pass: the graph grows by
/// what the step costs, the shape by the nodes of the step, and the file
/// binds one name more when the step creates a symbol in it.
pub proof fn lemma_step_shape(run: Run)
    requires
        run_ok(run),
        0 <= run.b.next < run.b.ops.len(),
    ensures
        step_effect(run, after(run).g),
{
    let op = run.b.ops[run.b.next];
    if op is Import || op is Variable || op is Exports {
        lemma_variable_step(run);
    } else if op is Function || op is Class {
        lemma_definition_step(run);
    } else {
        let s0 = shape(run.g, run.file(), run.base);
        lemma_top_is_file(run);
        assert(s0 =~= s0 + new_nodes(
            op,
            place_of(run.b.sym_stack.last() as int, run.file(), run.base),
            run.g.len() - run.base,
        ));
    }
}

/// A step of a pass is the step of the pass seen without its graph: what
/// it creates, what it leaves on the stack and what it asks depend on the
/// plan, on the place in it and on the stack as places, not on where in
/// the graph the symbols land.
pub proof fn lemma_abs_advance(run: Run)
    requires
        run_ok(run),
        0 <= run.b.next < run.b.ops.len(),
    ensures
        run_ok(after(run)),
        abs(after(run)) == abs_advance(abs(run)).abs,
        asked(run) == abs_advance(abs(run)).ask,
{
    let b = run.b;
    let g = run.g;
    let file = run.file();
    let base = run.base;
    let top = b.sym_stack.last() as int;
    let op = b.ops[b.next];
    let a = advance(b, g);
    let next = after(run);
    lemma_cost_from(b.ops, b.next);
    lemma_cost_nonnegative(b.ops, b.next);
    lemma_advance(b, g);
    lemma_step_shape(run);
    assert(b.sym_stack[b.sym_stack.len() - 1] < g.len());
    assert(b.sym_stack[0] < g.len());
    assert(next.file() == file);
    assert(a.graph[file].typ == g[file].typ) by {
        reveal(extends);
        assert(kept(g[file], a.graph[file]));
    }
    let places = stack_places(b.sym_stack, file, base);
    assert(places.last() == place_of(top, file, base));
    assert(shape(g, file, base).len() == g.len() - base);
    assert(stack_places(a.builder.sym_stack, file, base) =~= abs_advance(abs(run)).abs.stack) by {
        match op {
            OpModel::Function { .. } => {
                assert(a.builder.sym_stack =~= b.sym_stack.push(g.len() as usize));
            },
            OpModel::Class { .. } => {
                assert(a.builder.sym_stack =~= b.sym_stack.push(g.len() as usize));
            },
            OpModel::Leave => {},
            _ => {},
        }
    }
    assert forall|j: int| 1 <= j < a.builder.sym_stack.len() implies (
    #[trigger] a.builder.sym_stack[j]) >= base by {
        if j < b.sym_stack.len() {
            assert(b.sym_stack[j] >= base);
        }
    }
    if op is Leave && b.sym_stack.len() > 1 {
        assert(b.sym_stack[b.sym_stack.len() - 1] >= base);
        assert(shape(g, file, base)[top - base].typ == g[top].typ);
    }
    assert(places.len() == b.sym_stack.len());
}

/// A table in order binds a name to something exactly when the name is
/// among the names of its bindings.
pub proof fn lemma_bound_names(
    bindings: Seq<BindingModel>,
    sections: Seq<SectionRange>,
    name: Seq<char>,
)
    requires
        table_wf(sections, bindings),
    ensures
        (binding_set(bindings, sections, name, u32::MAX).len() == 0) == !binding_names(
            bindings,
        ).contains(name),
    decreases bindings.len(),
{
    if bindings.len() > 0 {
        let front = bindings.drop_last();
        assert forall|k: int| 0 <= k < front.len() implies (#[trigger] front[k]).section
            < sections.len() by {
            assert(bindings[k].section < sections.len());
        }
        lemma_bound_names(front, sections, name);
        let names = binding_names(bindings);
        let front_names = binding_names(front);
        assert(names =~= front_names.push(bindings.last().name));
        assert(bindings[bindings.len() - 1].section < sections.len());
        if front_names.contains(name) {
            let i = choose|i: int| 0 <= i < front_names.len() && front_names[i] == name;
            assert(names[i] == name);
        }
        if bindings.last().name == name {
            assert(names[names.len() - 1] == name);
        }
        if names.contains(name) && bindings.last().name != name {
            let i = choose|i: int| 0 <= i < names.len() && names[i] == name;
            assert(front_names[i] == name);
        }
    }
}

/// A pass seen without its graph, after the names of `exports` were
/// declared in the file: each name that the file does not bind becomes a
/// variable of the file.
pub open spec fn abs_resolve(a: Abs, exports: Seq<ExportModel>) -> Abs
    decreases exports.len(),
{
    if exports.len() == 0 {
        a
    } else {
        let a1 = abs_resolve(a, exports.drop_last());
        let e = exports.last();
        if a1.names.contains(e.name) {
            a1
        } else {
            Abs {
                shape: a1.shape.push(
                    Node {
                        name: e.name,
                        typ: SymType::Variable,
                        range: Some(e.range),
                        parent: Place::File,
                    },
                ),
                names: a1.names.push(e.name),
                ..a1
            }
        }
    }
}

/// Declaring exports in the file of a pass is declaring them in the pass
/// seen without its graph.
pub proof fn lemma_abs_resolve(run: Run, exports: Seq<ExportModel>)
    requires
        0 <= run.file() < run.base <= run.g.len(),
        run.b.sym_stack.len() >= 1,
        run.g.len() + exports.len() <= usize::MAX,
        table_wf(run.g[run.file()].sections, run.g[run.file()].bindings),
    ensures
        ({
            let h = resolve_exports(run.g, run.file(), exports);
            &&& abs(Run { g: h, ..run }) == abs_resolve(abs(run), exports)
            &&& table_wf(h[run.file()].sections, h[run.file()].bindings)
            &&& run.g.len() <= h.len() <= run.g.len() + exports.len()
            &&& extends(run.g, h)
        }),
    decreases exports.len(),
{
    let file = run.file();
    let base = run.base;
    if exports.len() == 0 {
        lemma_extends_refl(run.g);
    } else {
        let front = exports.drop_last();
        let e = exports.last();
        lemma_abs_resolve(run, front);
        let g1 = resolve_exports(run.g, file, front);
        let a1 = abs_resolve(abs(run), front);
        lemma_bound_names(g1[file].bindings, g1[file].sections, e.name);
        if binding_set(g1[file].bindings, g1[file].sections, e.name, u32::MAX).len() == 0 {
            lemma_add_symbol_shape(g1, file, SymType::Variable, e.name, e.range, file, base);
            lemma_add_symbol_file(g1, file, SymType::Variable, e.name, e.range, file);
            lemma_add_symbol_extends(g1, file, SymType::Variable, e.name, e.range);
            lemma_extends_trans(run.g, g1, add_symbol(g1, file, SymType::Variable, e.name, e.range));
        }
    }
}

/// Where a pass seen without its graph leaves off, and what it asks.
pub struct AbsOutcome {
    pub abs: Abs,
    pub ask: Ask,
}

/// The walk of a pass seen without its graph, up to the first step that
/// asks something, or to the end.
pub open spec fn abs_run(a: Abs) -> AbsOutcome
    decreases a.ops.len() - a.next,
{
    if a.next < 0 || a.next >= a.ops.len() {
        AbsOutcome {
            abs: Abs {
                phase: Phase::AwaitDone,
                exports: Seq::empty(),
                ..abs_resolve(a, a.exports)
            },
            ask: Ask::Complete,
        }
    } else {
        let s = abs_advance(a);
        match s.ask {
            Some(ask) => AbsOutcome { abs: s.abs, ask },
            None => abs_run(s.abs),
        }
    }
}

/// Where the walk leaves a pass.
pub open spec fn walked(run: Run) -> Run {
    Run { b: crate::python_arch_builder::run(run.b, run.g).builder, g: crate::python_arch_builder::run(run.b, run.g).graph, base: run.base }
}

/// The pass is in order but for the room that the graph must have.
pub open spec fn run_ok_but_room(run: Run) -> bool {
    &&& stack_ok(run.b.sym_stack, run.g)
    &&& walk_ok(run.b)
    &&& run.file() < run.base <= run.g.len()
    &&& forall|j: int| 1 <= j < run.b.sym_stack.len() ==> (#[trigger] run.b.sym_stack[j]) >= run.base
    &&& run.g.len() <= usize::MAX
    &&& table_wf(run.g[run.file()].sections, run.g[run.file()].bindings)
}

/// The walk of a pass is the walk of the pass seen without its graph.
pub proof fn lemma_abs_run(run: Run)
    requires
        run_ok(run),
    ensures
        run_ok_but_room(walked(run)),
        walked(run).file() == run.file(),
        abs(walked(run)) == abs_run(abs(run)).abs,
        ask_of(
            crate::python_arch_builder::run(run.b, run.g).action,
            crate::python_arch_builder::run(run.b, run.g).builder.pending_variable,
            run.file(),
            run.base,
        ) == Some(abs_run(abs(run)).ask),
        extends(run.g, walked(run).g),
        asks_at_top(Some(crate::python_arch_builder::run(run.b, run.g).action)) ==> walked(run).b.sym_stack.len() == 1,
    decreases run.b.ops.len() - run.b.next,
{
    let b = run.b;
    let g = run.g;
    lemma_cost_nonnegative(b.ops, b.next);
    if b.next < 0 || b.next >= b.ops.len() {
        assert(b.next == b.ops.len() && b.sym_stack.len() == 1) by {
            reveal(walk_ok);
            reveal(well_nested);
        }
        assert(b.sym_stack.last() == b.sym_stack[0]);
        assert(cost_from(b.ops, b.next) == 0);
        lemma_abs_resolve(run, b.exports);
        let h = resolve_exports(g, run.file(), b.exports);
        lemma_resolve_exports(g, run.file(), b.exports);
        lemma_walk_ok_same(b, walked(run).b);
        assert(stack_ok(walked(run).b.sym_stack, h));
        assert(abs(walked(run)) == abs_run(abs(run)).abs);
    } else {
        lemma_abs_advance(run);
        lemma_advance(b, g);
        let a = advance(b, g);
        match a.action {
            Some(action) => {
                lemma_cost_nonnegative(a.builder.ops, a.builder.next);
            },
            None => {
                lemma_abs_run(after(run));
                lemma_extends_trans(g, a.graph, walked(after(run)).g);
            },
        }
    }
}

/// The names of a list of imports, in order.
pub open spec fn import_names(imports: Seq<ImportedModel>) -> Seq<Seq<char>> {
    imports.map_values(|i: ImportedModel| i.name)
}

/// The nodes of import variables of the given names, which hang at `top`.
pub open spec fn import_nodes(names: Seq<Seq<char>>, range: TextRange, top: Place) -> Seq<Node> {
    names.map_values(
        |n: Seq<char>| Node { name: n, typ: SymType::Variable, range: Some(range), parent: top },
    )
}

/// The shape after import variables were created in container `top`: one
/// node for each import, in order; and the file binds their names when
/// `top` is the file.
pub proof fn lemma_bind_imports_shape(
    g: Seq<SymbolModel>,
    top: int,
    imports: Seq<ImportedModel>,
    range: TextRange,
    file: int,
    base: int,
)
    requires
        0 <= top < g.len(),
        0 <= file < base <= g.len(),
        g.len() + imports.len() <= usize::MAX,
        table_wf(g[file].sections, g[file].bindings),
    ensures
        ({
            let h = bind_imports(g, top, imports, range);
            &&& h.len() == g.len() + imports.len()
            &&& shape(h, file, base) == shape(g, file, base) + import_nodes(
                import_names(imports),
                range,
                place_of(top, file, base),
            )
            &&& table_wf(h[file].sections, h[file].bindings)
            &&& h[file].is_external == g[file].is_external
            &&& binding_names(h[file].bindings) == if top == file {
                binding_names(g[file].bindings) + import_names(imports)
            } else {
                binding_names(g[file].bindings)
            }
        }),
    decreases imports.len(),
{
    let h = bind_imports(g, top, imports, range);
    let nodes = import_nodes(import_names(imports), range, place_of(top, file, base));
    if imports.len() == 0 {
        assert(shape(g, file, base) + nodes =~= shape(g, file, base));
        assert(binding_names(g[file].bindings) + import_names(imports) =~= binding_names(
            g[file].bindings,
        ));
    } else {
        let front = imports.drop_last();
        let last = imports.last();
        let g1 = bind_imports(g, top, front, range);
        lemma_bind_imports_shape(g, top, front, range, file, base);
        lemma_bind_variable_shape(
            g1,
            top,
            last.name,
            range,
            true,
            false,
            weak_evaluations(last.sources),
            file,
            base,
        );
        lemma_add_symbol_file(g1, top, SymType::Variable, last.name, range, file);
        let front_nodes = import_nodes(import_names(front), range, place_of(top, file, base));
        assert(import_names(imports) =~= import_names(front).push(last.name));
        assert(nodes =~= front_nodes.push(
            Node {
                name: last.name,
                typ: SymType::Variable,
                range: Some(range),
                parent: place_of(top, file, base),
            },
        ));
        assert(shape(h, file, base) =~= shape(g, file, base) + nodes);
        if top == file {
            assert(binding_names(h[file].bindings) =~= binding_names(g[file].bindings)
                + import_names(imports));
        }
    }
}

/// Recording the edges of a wildcard import changes no symbol in what a
/// pass sees of it.
pub proof fn lemma_link_files_frame(g: Seq<SymbolModel>, file: int, imports: Seq<ImportedModel>, i: int)
    requires
        0 <= file < g.len(),
        g.len() <= usize::MAX,
        0 <= i < g.len(),
    ensures
        link_files(g, file, imports).len() == g.len(),
        link_files(g, file, imports)[i].bindings == g[i].bindings,
        link_files(g, file, imports)[i].sections == g[i].sections,
        link_files(g, file, imports)[i].is_external == g[i].is_external,
    decreases imports.len(),
{
    if imports.len() > 0 {
        let g1 = link_files(g, file, imports.drop_last());
        lemma_link_files_frame(g, file, imports.drop_last(), i);
        let import = imports.last();
        if import.sources.len() > 0 {
            lemma_file_of(g1, import.sources[0] as int);
        }
    }
}

/// What an event tells a pass, without the graph that it speaks of.
pub enum Answer {
    Start,
    /// The plan of the tree, when the file has one.
    File { plan: Option<Seq<OpModel>> },
    /// Whether the target can be read, and then the names that it exports.
    Import { usable: bool, names: Seq<Seq<char>>, range: TextRange },
    /// The names that the export list declares in an external file.
    Evaluation { listed: Seq<ExportModel> },
    Ack,
}

/// What `event` tells a pass on graph `g`.
pub open spec fn answer_of(event: ArchEvent, g: Seq<SymbolModel>) -> Answer {
    match event {
        ArchEvent::Start => Answer::Start,
        ArchEvent::File { ast, .. } => Answer::File {
            plan: match ast {
                Some(tree) => Some(visit_nodes(tree@, Scope::File)),
                None => None,
            },
        },
        ArchEvent::Import(result) => if import_usable(g, result) {
            Answer::Import {
                usable: true,
                names: import_names(wildcard_imports(g, result.symbol as int)),
                range: result.range,
            }
        } else {
            Answer::Import { usable: false, names: Seq::empty(), range: result.range }
        },
        ArchEvent::Evaluation { evaluations, .. } => Answer::Evaluation {
            listed: synthetic_exports(evaluations@, true),
        },
        ArchEvent::Ack => Answer::Ack,
    }
}

/// A pass seen without its graph, after import variables of the given
/// names were created on top of the stack.
pub open spec fn abs_bind(a: Abs, names: Seq<Seq<char>>, range: TextRange) -> Abs {
    Abs {
        shape: a.shape + import_nodes(names, range, a.stack.last()),
        names: if a.stack.len() == 1 {
            a.names + names
        } else {
            a.names
        },
        ..a
    }
}

/// What an event does to a pass seen without its graph, where the pass
/// takes the event.
pub open spec fn abs_step(a: Abs, answer: Answer) -> Abs {
    match answer {
        Answer::Start => Abs {
            phase: if a.typ == SymType::Namespace || a.typ == SymType::Root || a.typ
                == SymType::Compiled || a.typ == SymType::Variable {
                Phase::Finished
            } else {
                Phase::AwaitFile
            },
            ..a
        },
        Answer::File { plan: Some(plan) } => abs_run(Abs { ops: plan, next: 0, ..a }).abs,
        Answer::File { plan: None } => Abs {
            phase: Phase::AwaitDone,
            ops: Seq::empty(),
            next: 0,
            ..a
        },
        Answer::Import { usable, names, range } => if usable {
            abs_run(abs_bind(a, names, range)).abs
        } else {
            Abs { phase: Phase::AwaitAck, ..a }
        },
        Answer::Evaluation { listed } => abs_run(
            Abs {
                exports: a.exports + if a.is_external {
                    listed
                } else {
                    Seq::empty()
                },
                ..a
            },
        ).abs,
        Answer::Ack => if a.phase == Phase::AwaitAck {
            abs_run(a).abs
        } else {
            Abs { phase: Phase::Finished, ..a }
        },
    }
}

/// The pass can take the event: it is well under way, stands where the
/// event belongs, and the graph has room for what the event brings.
pub open spec fn leg_ok(run: Run, event: ArchEvent) -> bool {
    &&& 0 <= run.file() < run.base <= run.g.len()
    &&& run.g.len() <= usize::MAX
    &&& run.b.sym_stack.len() >= 1
    &&& match event {
        ArchEvent::Start => true,
        ArchEvent::File { ast, .. } => {
            &&& table_wf(run.g[run.file()].sections, run.g[run.file()].bindings)
            &&& match ast {
                Some(tree) => run.g.len() + cost_from(visit_nodes(tree@, Scope::File), 0)
                    + run.b.exports.len() <= usize::MAX,
                None => true,
            }
        },
        ArchEvent::Import(result) => {
            &&& run_ok(run)
            &&& run.b.sym_stack.len() == 1
            &&& (import_usable(run.g, result) ==> run.g.len() + wildcard_imports(
                run.g,
                result.symbol as int,
            ).len() + room(run.b) <= usize::MAX)
        },
        ArchEvent::Evaluation { evaluations, .. } => {
            &&& run_ok(run)
            &&& run.b.sym_stack.len() == 1
            &&& run.g.len() + room(run.b) + synthetic_exports(evaluations@, true).len()
                <= usize::MAX
        },
        ArchEvent::Ack => run.b.phase == Phase::AwaitAck ==> run_ok(run),
    }
}

/// Where an event leaves a pass.
pub open spec fn stepped(run: Run, event: ArchEvent) -> Run {
    match step(run.b, run.g, event) {
        Ok(o) => Run { b: o.builder, g: o.graph, base: run.base },
        Err(_) => run,
    }
}

/// The names that an export list declares depend on whether the file is
/// external, and on the list.
pub proof fn lemma_synthetic_exports(evaluations: Seq<Evaluation>, is_external: bool)
    ensures
        synthetic_exports(evaluations, is_external) == if is_external {
            synthetic_exports(evaluations, true)
        } else {
            Seq::<ExportModel>::empty()
        },
{
}

/// Changing a symbol in what a pass does not look at leaves the pass, seen
/// without its graph, as it was.
pub proof fn lemma_update_abs(run: Run, i: int, m: SymbolModel)
    requires
        0 <= run.file() < run.base <= run.g.len(),
        0 <= i < run.g.len(),
        kept(run.g[i], m),
        m.bindings == run.g[i].bindings,
    ensures
        abs(Run { g: run.g.update(i, m), ..run }) == abs(run),
        extends(run.g, run.g.update(i, m)),
{
    lemma_update_extends(run.g, i, m);
    lemma_shape_same(run.g, run.g.update(i, m), run.file(), run.base);
}

/// The builder does not matter to a pass seen without its graph but for
/// the plan, the place in it, the names noted and the stack.
pub proof fn lemma_abs_same_builder(run: Run, b: BuilderModel)
    requires
        b.ops == run.b.ops,
        b.next == run.b.next,
        b.exports == run.b.exports,
        b.sym_stack == run.b.sym_stack,
    ensures
        abs(Run { b, ..run }) == (Abs { phase: b.phase, ..abs(run) }),
{
}

/// Taking the file, seen without the graph.
pub proof fn lemma_abs_on_file(run: Run, in_workspace: bool, ast: Option<Vec<Stmt>>)
    requires
        leg_ok(run, ArchEvent::File { in_workspace, ast }),
        stack_ok(run.b.sym_stack, run.g),
        run.b.sym_stack.len() == 1,
    ensures
        ({
            let o = on_file(run.b, run.g, in_workspace, ast);
            &&& o.builder.sym_stack[0] == run.b.sym_stack[0]
            &&& abs(Run { b: o.builder, g: o.graph, base: run.base }) == abs_step(
                abs(run),
                answer_of(ArchEvent::File { in_workspace, ast }, run.g),
            )
        }),
{
    let b = run.b;
    let g = run.g;
    let file = run.file();
    assert(b.sym_stack[0] < g.len());
    let m = SymbolModel { in_workspace: lies_in_workspace(g, file, in_workspace), ..g[file] };
    assert(kept(g[file], m)) by {
        assert(m.bindings.take(g[file].bindings.len() as int) == g[file].bindings);
    }
    lemma_update_abs(run, file, m);
    let g1 = g.update(file, m);
    match ast {
        Some(tree) => {
            let plan = visit_nodes(tree@, Scope::File);
            let b1 = BuilderModel { ops: plan, next: 0, ..b };
            let run1 = Run { b: b1, g: g1, base: run.base };
            lemma_walk_begins(b1, tree@);
            assert(run_ok(run1));
            lemma_abs_run(run1);
            assert(abs(run1) == (Abs { ops: plan, next: 0, ..abs(run) }));
        },
        None => {
            let o = on_file(b, g, in_workspace, ast);
            assert(abs(Run { b: o.builder, g: o.graph, base: run.base }) == (Abs {
                phase: Phase::AwaitDone,
                ops: Seq::empty(),
                next: 0,
                ..abs(run)
            }));
        },
    }
}

/// Taking the target of a wildcard import, seen without the graph.
pub proof fn lemma_abs_on_import(run: Run, result: ImportResult)
    requires
        leg_ok(run, ArchEvent::Import(result)),
        on_import(run.b, run.g, result) is Ok,
    ensures
        ({
            let o = on_import(run.b, run.g, result).unwrap();
            &&& o.builder.sym_stack[0] == run.b.sym_stack[0]
            &&& abs(Run { b: o.builder, g: o.graph, base: run.base }) == abs_step(
                abs(run),
                answer_of(ArchEvent::Import(result), run.g),
            )
        }),
{
    let b = run.b;
    let g = run.g;
    let file = run.file();
    let base = run.base;
    lemma_top_is_file(run);
    if !import_usable(g, result) {
        let m = SymbolModel {
            not_found_paths: g[file].not_found_paths.push(
                NotFoundModel {
                    step: BuildSteps::Arch,
                    path: texts(result.file_tree.0@) + texts(result.file_tree.1@),
                },
            ),
            ..g[file]
        };
        assert(kept(g[file], m)) by {
            assert(m.bindings.take(g[file].bindings.len() as int) == g[file].bindings);
        }
        lemma_update_abs(run, file, m);
        lemma_abs_same_builder(
            Run { g: g.update(file, m), ..run },
            BuilderModel { phase: Phase::AwaitAck, ..b },
        );
    } else {
        let imports = wildcard_imports(g, result.symbol as int);
        let g1 = bind_imports(g, file, imports, result.range);
        lemma_cost_nonnegative(b.ops, b.next);
        lemma_bind_imports_shape(g, file, imports, result.range, file, base);
        lemma_bind_imports(g, file, imports, result.range);
        let g2 = link_files(g1, file, imports);
        lemma_link_files(g1, file, imports);
        lemma_link_files_extends(g1, file, imports);
        lemma_link_files_frame(g1, file, imports, file);
        lemma_shape_same(g1, g2, file, base);
        let b2 = warned(b, g, result.symbol);
        lemma_walk_ok_same(b, b2);
        let run2 = Run { b: b2, g: g2, base };
        assert(stack_ok(b.sym_stack, g2)) by {
            assert(b.sym_stack =~= seq![b.sym_stack[0]]);
        }
        assert(run_ok(run2));
        lemma_abs_run(run2);
        assert(import_nodes(import_names(imports), result.range, place_of(file, file, base))
            == import_nodes(import_names(imports), result.range, abs(run).stack.last()));
        assert(abs(run2) == abs_bind(abs(run), import_names(imports), result.range));
    }
}

/// Taking the value of an export list, seen without the graph.
pub proof fn lemma_abs_on_evaluation(run: Run, evaluations: Vec<Evaluation>, diagnostics: Vec<Diagnostic>)
    requires
        leg_ok(run, ArchEvent::Evaluation { evaluations, diagnostics }),
        run.b.pending_variable < run.g.len(),
    ensures
        ({
            let o = on_evaluation(run.b, run.g, evaluations@, diagnostics@);
            &&& o.builder.sym_stack[0] == run.b.sym_stack[0]
            &&& abs(Run { b: o.builder, g: o.graph, base: run.base }) == abs_step(
                abs(run),
                answer_of(ArchEvent::Evaluation { evaluations, diagnostics }, run.g),
            )
        }),
{
    let b = run.b;
    let g = run.g;
    let file = run.file();
    let v = b.pending_variable as int;
    lemma_top_is_file(run);
    let m = SymbolModel { evaluations: evaluations@, ..g[v] };
    assert(kept(g[v], m)) by {
        assert(m.bindings.take(g[v].bindings.len() as int) == g[v].bindings);
    }
    lemma_update_abs(run, v, m);
    let g1 = g.update(v, m);
    let b1 = BuilderModel {
        diagnostics: b.diagnostics + diagnostics@,
        exports: b.exports + synthetic_exports(evaluations@, g[file].is_external),
        ..b
    };
    let run1 = Run { b: b1, g: g1, base: run.base };
    lemma_walk_ok_same(b, b1);
    lemma_synthetic_exports(evaluations@, g[file].is_external);
    assert(stack_ok(b1.sym_stack, g1)) by {
        assert(b.sym_stack =~= seq![b.sym_stack[0]]);
    }
    assert(run_ok(run1));
    lemma_abs_run(run1);
}

/// Taking an event, seen without the graph: what the pass has created
/// after the event, the names that its file binds and the stack as places
/// are what the pass seen without its graph makes of the answer.
pub proof fn lemma_abs_step(run: Run, event: ArchEvent)
    requires
        leg_ok(run, event),
        step(run.b, run.g, event) is Ok,
    ensures
        abs(stepped(run, event)) == abs_step(abs(run), answer_of(event, run.g)),
        stepped(run, event).file() == run.file(),
{
    let b = run.b;
    let g = run.g;
    let file = run.file();
    match event {
        ArchEvent::Start => {
            let o = start(b, g).unwrap();
            let s = g[file];
            if o.graph != g {
                let m = SymbolModel {
                    status: s.status.spec_with(BuildSteps::Arch, BuildStatus::InProgress),
                    ..s
                };
                assert(kept(s, SymbolModel { status: s.status, ..m })) by {
                    assert(m.bindings.take(s.bindings.len() as int) == s.bindings);
                }
                lemma_status_abs(run, m);
            }
            lemma_abs_same_builder(Run { g: o.graph, ..run }, o.builder);
        },
        ArchEvent::File { in_workspace, ast } => {
            lemma_abs_on_file(run, in_workspace, ast);
        },
        ArchEvent::Import(result) => {
            lemma_abs_on_import(run, result);
        },
        ArchEvent::Evaluation { evaluations, diagnostics } => {
            lemma_abs_on_evaluation(run, evaluations, diagnostics);
        },
        ArchEvent::Ack => {
            if b.phase == Phase::AwaitAck {
                lemma_abs_run(run);
            } else {
                let s = g[file];
                let m = SymbolModel {
                    status: s.status.spec_with(BuildSteps::Arch, BuildStatus::Done),
                    ..s
                };
                assert(b.sym_stack[0] < g.len());
                lemma_status_abs(run, m);
                lemma_abs_same_builder(
                    Run { g: g.update(file, m), ..run },
                    BuilderModel { phase: Phase::Finished, ..b },
                );
            }
        },
    }
}

/// Moving the status of the file on leaves the pass, seen without its
/// graph, as it was.
pub proof fn lemma_status_abs(run: Run, m: SymbolModel)
    requires
        0 <= run.file() < run.base <= run.g.len(),
        m == (SymbolModel { status: m.status, ..run.g[run.file()] }),
    ensures
        abs(Run { g: run.g.update(run.file(), m), ..run }) == abs(run),
{
    let g = run.g;
    let h = g.update(run.file(), m);
    assert forall|k: int| 0 <= k < g.len() - run.base implies node(h, run.file(), run.base, k)
        == node(g, run.file(), run.base, k) by {}
    assert(shape(h, run.file(), run.base) =~= shape(g, run.file(), run.base));
}

/// One leg of the same pass twice: two passes that are alike when seen
/// without their graphs, and that are told the same, are alike afterwards.
pub proof fn lemma_same_leg(first: Run, second: Run, told_first: ArchEvent, told_second: ArchEvent)
    requires
        abs(first) == abs(second),
        answer_of(told_first, first.g) == answer_of(told_second, second.g),
        leg_ok(first, told_first),
        leg_ok(second, told_second),
        step(first.b, first.g, told_first) is Ok,
        step(second.b, second.g, told_second) is Ok,
    ensures
        abs(stepped(first, told_first)) == abs(stepped(second, told_second)),
{
    lemma_abs_step(first, told_first);
    lemma_abs_step(second, told_second);
}

/// Where a sequence of events leaves a pass.
pub open spec fn played(run: Run, events: Seq<ArchEvent>) -> Run
    decreases events.len(),
{
    if events.len() == 0 {
        run
    } else {
        stepped(played(run, events.drop_last()), events.last())
    }
}

/// The pass takes every event of the sequence, one after the other.
pub open spec fn takes(run: Run, events: Seq<ArchEvent>) -> bool
    decreases events.len(),
{
    events.len() == 0 || {
        let before = played(run, events.drop_last());
        &&& takes(run, events.drop_last())
        &&& leg_ok(before, events.last())
        &&& step(before.b, before.g, events.last()) is Ok
    }
}

/// Two passes are told the same, event after event: each event tells the
/// one pass of its graph what the matching event tells the other of its
/// own.
pub open spec fn told_alike(
    first: Run,
    told_first: Seq<ArchEvent>,
    second: Run,
    told_second: Seq<ArchEvent>,
) -> bool
    decreases told_first.len(),
{
    &&& told_first.len() == told_second.len()
    &&& (told_first.len() == 0 || {
        &&& told_alike(first, told_first.drop_last(), second, told_second.drop_last())
        &&& answer_of(told_first.last(), played(first, told_first.drop_last()).g) == answer_of(
            told_second.last(),
            played(second, told_second.drop_last()).g,
        )
    })
}

/// A sequence of events leaves the file of the pass at the bottom of the
/// stack, and leaves the pass, seen without its graph, where the answers
/// lead.
pub proof fn lemma_played(run: Run, events: Seq<ArchEvent>)
    requires
        takes(run, events),
    ensures
        played(run, events).file() == run.file(),
        played(run, events).base == run.base,
    decreases events.len(),
{
    if events.len() > 0 {
        lemma_played(run, events.drop_last());
        lemma_abs_step(played(run, events.drop_last()), events.last());
    }
}

/// Idempotence shape: the same pass twice gives the same tree. Two passes
/// that start alike and are told the same, event after event, have created
/// symbols of the same names, kinds and spans, in the same order and hung
/// in the same way, whatever else their graphs hold and wherever in them
/// the symbols have landed; and they stand at the same place of the same
/// plan, waiting on the same.
pub proof fn lemma_idempotence_shape(
    first: Run,
    told_first: Seq<ArchEvent>,
    second: Run,
    told_second: Seq<ArchEvent>,
)
    requires
        abs(first) == abs(second),
        takes(first, told_first),
        takes(second, told_second),
        told_alike(first, told_first, second, told_second),
    ensures
        abs(played(first, told_first)) == abs(played(second, told_second)),
        shape(played(first, told_first).g, first.file(), first.base) == shape(
            played(second, told_second).g,
            second.file(),
            second.base,
        ),
    decreases told_first.len(),
{
    lemma_played(first, told_first);
    lemma_played(second, told_second);
    if told_first.len() > 0 {
        lemma_idempotence_shape(first, told_first.drop_last(), second, told_second.drop_last());
        lemma_same_leg(
            played(first, told_first.drop_last()),
            played(second, told_second.drop_last()),
            told_first.last(),
            told_second.last(),
        );
    }
}

/// Two passes that have yet to start, each on a file without children,
/// are alike when seen without their graphs, if the files are of one kind
/// and both are external or neither is.
pub proof fn lemma_fresh_passes_alike(
    g: Seq<SymbolModel>,
    file: usize,
    h: Seq<SymbolModel>,
    other: usize,
)
    requires
        file < g.len(),
        other < h.len(),
        g[file as int].bindings.len() == 0,
        h[other as int].bindings.len() == 0,
        g[file as int].typ == h[other as int].typ,
        g[file as int].is_external == h[other as int].is_external,
    ensures
        abs(Run { b: fresh_builder(file), g, base: g.len() as int }) == abs(
            Run { b: fresh_builder(other), g: h, base: h.len() as int },
        ),
        abs(Run { b: fresh_builder(file), g, base: g.len() as int }).shape.len() == 0,
{
    let first = Run { b: fresh_builder(file), g, base: g.len() as int };
    let second = Run { b: fresh_builder(other), g: h, base: h.len() as int };
    assert(abs(first).stack =~= abs(second).stack);
    assert(abs(first).shape =~= abs(second).shape);
    assert(abs(first).names =~= abs(second).names);
}

} // verus!
