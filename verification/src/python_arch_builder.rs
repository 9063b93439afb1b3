//! The builder of the architecture pass.
//!
//! The pass needs answers that only its surroundings can give: the syntax
//! tree of the file, the target of a wildcard import, the value of an
//! export list. So the builder runs as far as it can on its own, hands out
//! an action that says what it needs, and goes on when it is handed the
//! event that answers the action.
use vstd::prelude::*;
use lsp_types::Diagnostic;
use ruff_text_size::TextRange;
use crate::arch_plan::{
    all_name,
    op_models,
    parameter_op_models,
    visit_nodes,
    OpModel,
    Scope,
    WalkOp,
};
use crate::arch_steps::{
    bind_assigned,
    bind_assigned_in,
    bind_variable,
    bind_variable_in,
    define_class,
    define_class_in,
    define_function,
    define_function_in,
    export_models,
    init_file_path,
    init_path,
    lemma_bind_variable,
    lemma_define_class,
    lemma_define_function,
    lemma_resolve_exports,
    record_exports,
    resolve_exports,
    resolve_exports_in,
    synthetic_exports,
    ExportModel,
};
use crate::ast::{Expr, Stmt};
use crate::constants::{BuildStatus, BuildSteps, SymType};
use crate::evaluation::{
    clone_texts,
    export_names,
    export_parse_error,
    extract_literals,
    texts,
    Evaluation,
    EvaluationValue,
};
use crate::import_binder::{
    bind_imports,
    bind_imports_in,
    collect_wildcard,
    export_issue,
    imported_models,
    lemma_bind_imports,
    lemma_link_files,
    link_files,
    link_files_in,
    wildcard_imports,
    ExportListIssue,
};
use crate::pass_laws::{
    asks_at_top,
    evolves,
    extends,
    lemma_advance,
    lemma_bind_imports_extends,
    lemma_extends_evolves,
    lemma_extends_refl,
    lemma_extends_trans,
    lemma_link_files_extends,
    lemma_resolve_exports_extends,
    lemma_update_evolves,
    lemma_update_extends,
    lemma_walk_begins,
    lemma_walk_empty,
    lemma_walk_ok_same,
    walk_ok,
};
use crate::symbols::file_symbol::NotFoundModel;
use crate::symbols::graph::SymbolGraph;
use crate::symbols::symbol::{Symbol, SymbolModel};
use crate::symbols::variable_symbol::opt_text;

verus! {

#[verifier::external_type_specification]
#[verifier::external_body]
pub struct ExDiagnostic(Diagnostic);

/// Why the builder refused an event.
#[derive(Clone, Copy, Debug, PartialEq, Eq, Structural)]
pub enum ArchError {
    /// The builder or the event names a symbol that the graph does not
    /// hold, or holds as another kind.
    UnknownSymbol,
    /// The symbol to build does not hold exactly one path.
    NotSinglePath,
    /// The first phase has run on the symbol, or is running.
    NotPending,
    /// The event answers no action that the builder is waiting on.
    UnexpectedEvent,
}

/// Where the builder stands: what it has handed out and waits on.
#[derive(Clone, Copy, Debug, PartialEq, Eq, Structural)]
pub enum Phase {
    /// Nothing has run.
    Created,
    /// Waits for the file and its tree.
    AwaitFile,
    /// Waits for the target of a wildcard import.
    AwaitImport,
    /// Waits for the value of an export list.
    AwaitEvaluation,
    /// Waits for a notification to be taken.
    AwaitAck,
    /// Waits for the end of the completion work.
    AwaitDone,
    /// The pass is over.
    Finished,
}

/// What the resolver found for a wildcard import.
pub struct ImportResult {
    pub found: bool,
    /// The target module. Read only when `found`.
    pub symbol: usize,
    /// Two lists of path segments which, one after the other, name the
    /// file that was looked for.
    pub file_tree: (Vec<String>, Vec<String>),
    pub range: TextRange,
}

/// What is handed to the builder.
pub enum ArchEvent {
    /// Begin the pass.
    Start,
    /// The file manager's answer: whether the path lies in the workspace,
    /// and the tree when the file could be parsed.
    File { in_workspace: bool, ast: Option<Vec<Stmt>> },
    /// The resolver's answer to a wildcard import.
    Import(ImportResult),
    /// The evaluator's answer for an export list.
    Evaluation { evaluations: Vec<Evaluation>, diagnostics: Vec<Diagnostic> },
    /// A notification was taken.
    Ack,
}

/// What the builder asks of its surroundings.
pub enum ArchAction {
    /// Read the file at `path`, attach `diagnostics` to it for the first
    /// phase, and answer with `ArchEvent::File`.
    ReadFile { path: String, diagnostics: Vec<Diagnostic> },
    /// Resolve `from module import *` as seen from `scope`, and answer with
    /// `ArchEvent::Import`.
    ResolveImport { scope: usize, module: Option<String>, level: Option<u32>, range: TextRange },
    /// Evaluate the expression at span `value` as seen from `parent` at
    /// offset `position`, and answer with `ArchEvent::Evaluation`.
    Evaluate { value: TextRange, parent: usize, position: u32 },
    /// Enter `file` in the set of files with an unresolved import, and
    /// answer with `ArchEvent::Ack`.
    NotFound { file: usize },
    /// Run the class hook on `class`, and answer with `ArchEvent::Ack`.
    ClassDefined { class: usize },
    /// The walk is over. With a tree, queue `file` for the next phase;
    /// without one, publish the diagnostics. Then run the completion hook,
    /// and answer with `ArchEvent::Ack`.
    Complete { file: usize, has_ast: bool, diagnostics: Vec<Diagnostic> },
    /// The pass is over; nothing is asked.
    Done,
}

/// What an `ArchAction` stands for.
pub enum ActionModel {
    ReadFile { path: Seq<char>, diagnostics: Seq<Diagnostic> },
    ResolveImport { scope: usize, module: Option<Seq<char>>, level: Option<u32>, range: TextRange },
    Evaluate { value: TextRange, parent: usize, position: u32 },
    NotFound { file: usize },
    ClassDefined { class: usize },
    Complete { file: usize, has_ast: bool, diagnostics: Seq<Diagnostic> },
    Done,
}

impl View for ArchAction {
    type V = ActionModel;

    open spec fn view(&self) -> ActionModel {
        match self {
            ArchAction::ReadFile { path, diagnostics } => ActionModel::ReadFile {
                path: path@,
                diagnostics: diagnostics@,
            },
            ArchAction::ResolveImport { scope, module, level, range } => ActionModel::ResolveImport {
                scope: *scope,
                module: opt_text(*module),
                level: *level,
                range: *range,
            },
            ArchAction::Evaluate { value, parent, position } => ActionModel::Evaluate {
                value: *value,
                parent: *parent,
                position: *position,
            },
            ArchAction::NotFound { file } => ActionModel::NotFound { file: *file },
            ArchAction::ClassDefined { class } => ActionModel::ClassDefined { class: *class },
            ArchAction::Complete { file, has_ast, diagnostics } => ActionModel::Complete {
                file: *file,
                has_ast: *has_ast,
                diagnostics: diagnostics@,
            },
            ArchAction::Done => ActionModel::Done,
        }
    }
}

/// A wildcard import met an export list that it could not read as it
/// stands. The import went on with what the list gave.
#[derive(Clone, Copy, Debug, PartialEq, Eq, Structural)]
pub struct ExportWarning {
    /// The module whose export list it is.
    pub target: usize,
    pub issue: ExportListIssue,
}

pub struct PythonArchBuilder {
    /// The enclosing symbols, innermost last. The first is the file.
    pub sym_stack: Vec<usize>,
    /// Names of an export list to declare once the walk is over.
    pub __all_symbols_to_add: Vec<(String, TextRange)>,
    pub diagnostics: Vec<Diagnostic>,
    /// What the wildcard imports of the pass found wrong with export
    /// lists, in the order of the imports.
    pub warnings: Vec<ExportWarning>,
    /// The steps of the walk.
    pub ops: Vec<WalkOp>,
    /// The number of steps taken.
    pub next: usize,
    pub phase: Phase,
    /// The variable whose evaluations are awaited.
    pub pending_variable: usize,
}

/// What a builder stands for.
pub struct BuilderModel {
    pub sym_stack: Seq<usize>,
    pub exports: Seq<ExportModel>,
    pub diagnostics: Seq<Diagnostic>,
    pub warnings: Seq<ExportWarning>,
    pub ops: Seq<OpModel>,
    pub next: int,
    pub phase: Phase,
    pub pending_variable: usize,
}

impl View for PythonArchBuilder {
    type V = BuilderModel;

    open spec fn view(&self) -> BuilderModel {
        BuilderModel {
            sym_stack: self.sym_stack@,
            exports: export_models(self.__all_symbols_to_add@),
            diagnostics: self.diagnostics@,
            warnings: self.warnings@,
            ops: op_models(self.ops@),
            next: self.next as int,
            phase: self.phase,
            pending_variable: self.pending_variable,
        }
    }
}

/// Where a call of the builder leaves off: its state, the graph, and what
/// it asks.
pub struct Outcome {
    pub builder: BuilderModel,
    pub graph: Seq<SymbolModel>,
    pub action: ActionModel,
}

/// Every symbol of the stack is a container of the graph, and the first is
/// a package or a module.
pub open spec fn stack_ok(stack: Seq<usize>, g: Seq<SymbolModel>) -> bool {
    &&& stack.len() >= 1
    &&& forall|i: int|
        0 <= i < stack.len() ==> (#[trigger] stack[i]) < g.len() && g[stack[i] as int].typ.is_container()
    &&& g[stack[0] as int].typ.is_file()
}

/// The end of the walk: the names of the export lists are declared in the
/// container on top of the stack, and the completion work is asked for,
/// with the diagnostics of the pass.
pub open spec fn complete(b: BuilderModel, g: Seq<SymbolModel>) -> Outcome {
    Outcome {
        builder: BuilderModel {
            phase: Phase::AwaitDone,
            exports: Seq::empty(),
            diagnostics: Seq::empty(),
            ..b
        },
        graph: resolve_exports(g, b.sym_stack.last() as int, b.exports),
        action: ActionModel::Complete {
            file: b.sym_stack[0],
            has_ast: true,
            diagnostics: b.diagnostics,
        },
    }
}

/// Where one step of the walk leaves off. `action` is what the step asks,
/// if it asks anything.
pub struct Advance {
    pub builder: BuilderModel,
    pub graph: Seq<SymbolModel>,
    pub action: Option<ActionModel>,
}

/// The step at which the builder stands.
///
/// A named import and an assigned name become a variable of the container
/// on top of the stack. A definition becomes a function or a class there
/// and goes on top of the stack; leaving it takes it off again, and asks
/// for the class hook when it is a class. A wildcard import asks for its
/// target. An export list becomes a variable and asks for its value.
pub open spec fn advance(b: BuilderModel, g: Seq<SymbolModel>) -> Advance {
    let top = b.sym_stack.last();
    let b1 = BuilderModel { next: b.next + 1, ..b };
    match b.ops[b.next] {
        OpModel::Import { name, range } => Advance {
            builder: b1,
            graph: bind_variable(g, top as int, name, range, true, false, Seq::empty()),
            action: None,
        },
        OpModel::Variable { name, range, annotation } => Advance {
            builder: b1,
            graph: bind_assigned(g, top as int, name, range, annotation),
            action: None,
        },
        OpModel::ImportAll { module, level, range } => Advance {
            builder: BuilderModel { phase: Phase::AwaitImport, ..b1 },
            graph: g,
            action: Some(ActionModel::ResolveImport { scope: top, module, level, range }),
        },
        OpModel::Exports { range, annotation, value, position } => Advance {
            builder: BuilderModel {
                phase: Phase::AwaitEvaluation,
                pending_variable: g.len() as usize,
                ..b1
            },
            graph: bind_assigned(g, top as int, all_name(), range, annotation),
            action: Some(ActionModel::Evaluate { value, parent: top, position }),
        },
        OpModel::Function { name, range, is_static, is_property, doc_string, parameters } => Advance {
            builder: BuilderModel { sym_stack: b.sym_stack.push(g.len() as usize), ..b1 },
            graph: define_function(
                g,
                top as int,
                name,
                range,
                is_static,
                is_property,
                doc_string,
                parameters,
            ),
            action: None,
        },
        OpModel::Class { name, range, doc_string } => Advance {
            builder: BuilderModel { sym_stack: b.sym_stack.push(g.len() as usize), ..b1 },
            graph: define_class(g, top as int, name, range, doc_string),
            action: None,
        },
        OpModel::Leave => if b.sym_stack.len() > 1 {
            let b2 = BuilderModel { sym_stack: b.sym_stack.drop_last(), ..b1 };
            if g[top as int].typ == SymType::Class {
                Advance {
                    builder: BuilderModel { phase: Phase::AwaitAck, ..b2 },
                    graph: g,
                    action: Some(ActionModel::ClassDefined { class: top }),
                }
            } else {
                Advance { builder: b2, graph: g, action: None }
            }
        } else {
            Advance { builder: b1, graph: g, action: None }
        },
    }
}

/// The walk from the step at which the builder stands, up to the first
/// step that asks something, or to the end.
pub open spec fn run(b: BuilderModel, g: Seq<SymbolModel>) -> Outcome
    decreases b.ops.len() - b.next,
{
    if b.next < 0 || b.next >= b.ops.len() {
        complete(b, g)
    } else {
        let a = advance(b, g);
        match a.action {
            Some(action) => Outcome { builder: a.builder, graph: a.graph, action },
            None => run(a.builder, a.graph),
        }
    }
}

/// The start of the pass on the symbol that the builder was made for.
///
/// The root, a namespace, a compiled module and a variable have nothing to
/// build: the pass is over at once. Any other symbol must hold one path and
/// be pending; it is then marked as in progress and its file is asked for,
/// which for a package is the init file.
pub open spec fn start(b: BuilderModel, g: Seq<SymbolModel>) -> Result<Outcome, ArchError> {
    if b.sym_stack.len() != 1 || b.sym_stack[0] >= g.len() {
        Err(ArchError::UnknownSymbol)
    } else {
        let file = b.sym_stack[0] as int;
        let s = g[file];
        if s.typ == SymType::Namespace || s.typ == SymType::Root || s.typ == SymType::Compiled || s.typ
            == SymType::Variable {
            Ok(
                Outcome {
                    builder: BuilderModel { phase: Phase::Finished, ..b },
                    graph: g,
                    action: ActionModel::Done,
                },
            )
        } else if s.paths.len() != 1 {
            Err(ArchError::NotSinglePath)
        } else if s.status.arch != BuildStatus::Pending {
            Err(ArchError::NotPending)
        } else {
            Ok(
                Outcome {
                    builder: BuilderModel { phase: Phase::AwaitFile, ..b },
                    graph: g.update(
                        file,
                        SymbolModel {
                            status: s.status.spec_with(BuildSteps::Arch, BuildStatus::InProgress),
                            ..s
                        },
                    ),
                    action: ActionModel::ReadFile {
                        path: if s.typ == SymType::Package {
                            init_path(s.paths[0], s.i_ext)
                        } else {
                            s.paths[0]
                        },
                        diagnostics: b.diagnostics,
                    },
                },
            )
        }
    }
}

/// Whether the file lies in the workspace: its parent does, or the file
/// manager says so.
pub open spec fn lies_in_workspace(g: Seq<SymbolModel>, file: int, answer: bool) -> bool {
    answer || match g[file].parent {
        Some(p) => p < g.len() && g[p as int].in_workspace,
        None => false,
    }
}

/// The builder gets its file. With a tree, the walk is planned and begins;
/// without one, the completion work is asked for at once.
pub open spec fn on_file(
    b: BuilderModel,
    g: Seq<SymbolModel>,
    in_workspace: bool,
    ast: Option<Vec<Stmt>>,
) -> Outcome {
    let file = b.sym_stack[0] as int;
    let g1 = g.update(
        file,
        SymbolModel { in_workspace: lies_in_workspace(g, file, in_workspace), ..g[file] },
    );
    match ast {
        Some(tree) => run(BuilderModel { ops: visit_nodes(tree@, Scope::File), next: 0, ..b }, g1),
        None => Outcome {
            builder: BuilderModel {
                phase: Phase::AwaitDone,
                diagnostics: Seq::empty(),
                ops: Seq::empty(),
                next: 0,
                ..b
            },
            graph: g1,
            action: ActionModel::Complete {
                file: b.sym_stack[0],
                has_ast: false,
                diagnostics: b.diagnostics,
            },
        },
    }
}

/// The builder after it has noted what is wrong with the export list of
/// module `target`, if anything is.
pub open spec fn warned(b: BuilderModel, g: Seq<SymbolModel>, target: usize) -> BuilderModel {
    match export_issue(g, target as int) {
        Some(issue) => BuilderModel {
            warnings: b.warnings.push(ExportWarning { target, issue }),
            ..b
        },
        None => b,
    }
}

/// Whether a wildcard import can read its target: the resolver found it,
/// and its first phase is done.
pub open spec fn import_usable(g: Seq<SymbolModel>, result: ImportResult) -> bool {
    result.found && g[result.symbol as int].status.arch == BuildStatus::Done
}

/// The builder gets the target of a wildcard import.
///
/// A target that was not found, or whose first phase is not done, is
/// recorded on the file as a path not found, and the file is reported. A
/// target that can be read has its exported names bound in the container on
/// top of the stack, and the file is tied to the files they come from; the
/// walk then goes on.
pub open spec fn on_import(b: BuilderModel, g: Seq<SymbolModel>, result: ImportResult) -> Result<
    Outcome,
    ArchError,
> {
    let file = b.sym_stack[0] as int;
    let top = b.sym_stack.last() as int;
    if result.found && result.symbol >= g.len() {
        Err(ArchError::UnknownSymbol)
    } else if !import_usable(g, result) {
        Ok(
            Outcome {
                builder: BuilderModel { phase: Phase::AwaitAck, ..b },
                graph: g.update(
                    file,
                    SymbolModel {
                        not_found_paths: g[file].not_found_paths.push(
                            NotFoundModel {
                                step: BuildSteps::Arch,
                                path: texts(result.file_tree.0@) + texts(result.file_tree.1@),
                            },
                        ),
                        ..g[file]
                    },
                ),
                action: ActionModel::NotFound { file: b.sym_stack[0] },
            },
        )
    } else {
        let imports = wildcard_imports(g, result.symbol as int);
        let g1 = bind_imports(g, top, imports, result.range);
        Ok(run(warned(b, g, result.symbol), link_files(g1, file, imports)))
    }
}

/// The builder gets the value of an export list: the awaited variable
/// takes the evaluations, the diagnostics join those of the pass, the names
/// to declare at the end are noted, and the walk goes on.
pub open spec fn on_evaluation(
    b: BuilderModel,
    g: Seq<SymbolModel>,
    evaluations: Seq<Evaluation>,
    diagnostics: Seq<Diagnostic>,
) -> Outcome {
    let v = b.pending_variable as int;
    let top = b.sym_stack.last() as int;
    run(
        BuilderModel {
            diagnostics: b.diagnostics + diagnostics,
            exports: b.exports + synthetic_exports(evaluations, g[top].is_external),
            ..b
        },
        g.update(v, SymbolModel { evaluations, ..g[v] }),
    )
}

/// The completion work has ended: the file is marked as done.
pub open spec fn finish(b: BuilderModel, g: Seq<SymbolModel>) -> Outcome {
    let file = b.sym_stack[0] as int;
    Outcome {
        builder: BuilderModel { phase: Phase::Finished, ..b },
        graph: g.update(
            file,
            SymbolModel {
                status: g[file].status.spec_with(BuildSteps::Arch, BuildStatus::Done),
                ..g[file]
            },
        ),
        action: ActionModel::Done,
    }
}

/// What the builder does with an event: the state it reaches, the graph it
/// leaves and the action it hands out; or the error with which it refuses
/// the event.
pub open spec fn step(b: BuilderModel, g: Seq<SymbolModel>, event: ArchEvent) -> Result<
    Outcome,
    ArchError,
> {
    match event {
        ArchEvent::Start => if b.phase == Phase::Created {
            start(b, g)
        } else {
            Err(ArchError::UnexpectedEvent)
        },
        ArchEvent::File { in_workspace, ast } => if b.phase != Phase::AwaitFile {
            Err(ArchError::UnexpectedEvent)
        } else if !stack_ok(b.sym_stack, g) || b.sym_stack.len() != 1 {
            Err(ArchError::UnknownSymbol)
        } else {
            Ok(on_file(b, g, in_workspace, ast))
        },
        ArchEvent::Import(result) => if b.phase != Phase::AwaitImport {
            Err(ArchError::UnexpectedEvent)
        } else if !stack_ok(b.sym_stack, g) {
            Err(ArchError::UnknownSymbol)
        } else {
            on_import(b, g, result)
        },
        ArchEvent::Evaluation { evaluations, diagnostics } => if b.phase != Phase::AwaitEvaluation {
            Err(ArchError::UnexpectedEvent)
        } else if !stack_ok(b.sym_stack, g) || b.pending_variable >= g.len()
            || g[b.pending_variable as int].typ != SymType::Variable {
            Err(ArchError::UnknownSymbol)
        } else {
            Ok(on_evaluation(b, g, evaluations@, diagnostics@))
        },
        ArchEvent::Ack => if b.phase == Phase::AwaitAck {
            if !stack_ok(b.sym_stack, g) {
                Err(ArchError::UnknownSymbol)
            } else {
                Ok(run(b, g))
            }
        } else if b.phase == Phase::AwaitDone {
            if !stack_ok(b.sym_stack, g) {
                Err(ArchError::UnknownSymbol)
            } else {
                Ok(finish(b, g))
            }
        } else {
            Err(ArchError::UnexpectedEvent)
        },
    }
}

/// The value behind an optional reference.
pub open spec fn opt_value(value: Option<&EvaluationValue>) -> Option<EvaluationValue> {
    match value {
        Some(v) => Some(*v),
        None => None,
    }
}

/// Copies a list of diagnostics.
///
/// Trusted: calls `Clone::clone` on the list, which clones each
/// `lsp_types::Diagnostic` by the impl that the crate derives; the copy
/// holds the same diagnostics in the same order.
#[verifier::external_body]
fn clone_diagnostics(diagnostics: &Vec<Diagnostic>) -> (copy: Vec<Diagnostic>)
    ensures
        copy@ == diagnostics@,
{
    diagnostics.clone()
}

/// A builder that has yet to start on `symbol`.
pub open spec fn fresh_builder(symbol: usize) -> BuilderModel {
    BuilderModel {
        sym_stack: seq![symbol],
        exports: Seq::empty(),
        diagnostics: Seq::empty(),
        warnings: Seq::empty(),
        ops: Seq::empty(),
        next: 0,
        phase: Phase::Created,
        pending_variable: 0,
    }
}

impl PythonArchBuilder {
    /// A builder for the pass on `symbol`.
    pub fn new(symbol: usize) -> (builder: PythonArchBuilder)
        ensures
            builder@ == fresh_builder(symbol),
    {
        let mut sym_stack: Vec<usize> = Vec::new();
        sym_stack.push(symbol);
        let builder = PythonArchBuilder {
            sym_stack,
            __all_symbols_to_add: Vec::new(),
            diagnostics: Vec::new(),
            warnings: Vec::new(),
            ops: Vec::new(),
            next: 0,
            phase: Phase::Created,
            pending_variable: 0,
        };
        assert(builder@.sym_stack =~= seq![symbol]);
        assert(builder@.exports =~= Seq::<ExportModel>::empty());
        assert(builder@.ops =~= Seq::<OpModel>::empty());
        builder
    }

    /// Whether every symbol of the stack is a container of `graph`, and
    /// the first a package or a module.
    fn check_stack(&self, graph: &SymbolGraph) -> (ok: bool)
        ensures
            ok == stack_ok(self.sym_stack@, graph@),
    {
        if self.sym_stack.len() < 1 {
            return false;
        }
        let mut i: usize = 0;
        while i < self.sym_stack.len()
            invariant
                i <= self.sym_stack.len(),
                forall|j: int|
                    0 <= j < i ==> (#[trigger] self.sym_stack@[j]) < graph@.len()
                        && graph@[self.sym_stack@[j] as int].typ.is_container(),
            decreases self.sym_stack.len() - i,
        {
            let id = self.sym_stack[i];
            if id >= graph.len() {
                return false;
            }
            match graph.get(id).typ() {
                SymType::Package | SymType::File | SymType::Class | SymType::Function => {},
                _ => {
                    return false;
                },
            }
            i += 1;
        }
        match graph.get(self.sym_stack[0]).typ() {
            SymType::Package | SymType::File => true,
            _ => false,
        }
    }

    /// Declares, in the container on top of the stack, the names noted
    /// from export lists that nothing has bound.
    fn _resolve_all_symbols(&mut self, graph: &mut SymbolGraph)
        requires
            old(graph).wf(),
            stack_ok(old(self).sym_stack@, old(graph)@),
        ensures
            final(graph).wf(),
            stack_ok(final(self).sym_stack@, final(graph)@),
            final(graph)@ == resolve_exports(
                old(graph)@,
                old(self)@.sym_stack.last() as int,
                old(self)@.exports,
            ),
            final(self)@ == (BuilderModel { exports: Seq::empty(), ..old(self)@ }),
    {
        let top = self.sym_stack[self.sym_stack.len() - 1];
        proof {
            lemma_resolve_exports(graph@, top as int, self@.exports);
        }
        resolve_exports_in(graph, top, &self.__all_symbols_to_add);
        self.__all_symbols_to_add = Vec::new();
        assert(self@.exports =~= Seq::<ExportModel>::empty());
    }

    /// Takes the step at which the builder stands.
    fn advance_step(&mut self, graph: &mut SymbolGraph) -> (action: Option<ArchAction>)
        requires
            old(graph).wf(),
            stack_ok(old(self).sym_stack@, old(graph)@),
            old(self).next < old(self).ops.len(),
        ensures
            final(graph).wf(),
            stack_ok(final(self).sym_stack@, final(graph)@),
            final(self).ops == old(self).ops,
            final(self).next == old(self).next + 1,
            advance(old(self)@, old(graph)@) == (Advance {
                builder: final(self)@,
                graph: final(graph)@,
                action: match action {
                    Some(a) => Some(a@),
                    None => None,
                },
            }),
    {
        let top = self.sym_stack[self.sym_stack.len() - 1];
        let ghost b = self@;
        let ghost g = graph@;
        assert(b.ops[b.next] == self.ops@[self.next as int]@);
        match &self.ops[self.next] {
            WalkOp::Import { name, range } => {
                proof {
                    lemma_bind_variable(g, top as int, name@, *range, true, false, Seq::empty());
                }
                bind_variable_in(graph, top, name, range, true, false, Vec::new());
                self.next += 1;
                None
            },
            WalkOp::Variable { name, range, annotation } => {
                bind_assigned_in(graph, top, name, range, *annotation);
                self.next += 1;
                None
            },
            WalkOp::ImportAll { module, level, range } => {
                let action = ArchAction::ResolveImport {
                    scope: top,
                    module: module.clone(),
                    level: *level,
                    range: *range,
                };
                self.next += 1;
                self.phase = Phase::AwaitImport;
                Some(action)
            },
            WalkOp::Exports { range, annotation, value, position } => {
                let action = ArchAction::Evaluate { value: *value, parent: top, position: *position };
                let name = String::from_str("__all__");
                let variable = bind_assigned_in(graph, top, &name, range, *annotation);
                self.next += 1;
                self.phase = Phase::AwaitEvaluation;
                self.pending_variable = variable;
                Some(action)
            },
            WalkOp::Function { name, range, is_static, is_property, doc_string, parameters } => {
                proof {
                    lemma_define_function(
                        g,
                        top as int,
                        name@,
                        *range,
                        *is_static,
                        *is_property,
                        opt_text(*doc_string),
                        parameter_op_models(parameters@),
                    );
                }
                let f = define_function_in(
                    graph,
                    top,
                    name,
                    range,
                    *is_static,
                    *is_property,
                    doc_string.clone(),
                    parameters,
                );
                self.sym_stack.push(f);
                self.next += 1;
                None
            },
            WalkOp::Class { name, range, doc_string } => {
                proof {
                    lemma_define_class(g, top as int, name@, *range, opt_text(*doc_string));
                }
                let c = define_class_in(graph, top, name, range, doc_string.clone());
                self.sym_stack.push(c);
                self.next += 1;
                None
            },
            WalkOp::Leave => {
                self.next += 1;
                if self.sym_stack.len() > 1 {
                    self.sym_stack.pop();
                    assert(self.sym_stack@ =~= b.sym_stack.drop_last());
                    match graph.get(top).typ() {
                        SymType::Class => {
                            self.phase = Phase::AwaitAck;
                            Some(ArchAction::ClassDefined { class: top })
                        },
                        _ => None,
                    }
                } else {
                    None
                }
            },
        }
    }

    /// Walks on from the step at which the builder stands, up to the first
    /// step that asks something, or to the end.
    fn run_walk(&mut self, graph: &mut SymbolGraph) -> (action: ArchAction)
        requires
            old(graph).wf(),
            stack_ok(old(self).sym_stack@, old(graph)@),
        ensures
            final(graph).wf(),
            stack_ok(final(self).sym_stack@, final(graph)@),
            run(old(self)@, old(graph)@) == (Outcome {
                builder: final(self)@,
                graph: final(graph)@,
                action: action@,
            }),
            extends(old(graph)@, final(graph)@),
            final(self)@.sym_stack[0] == old(self)@.sym_stack[0],
            walk_ok(old(self)@) ==> walk_ok(final(self)@),
            walk_ok(old(self)@) && asks_at_top(Some(action@)) ==> final(self)@.sym_stack
                == seq![old(self)@.sym_stack[0]],
    {
        proof {
            lemma_extends_refl(graph@);
        }
        while self.next < self.ops.len()
            invariant
                graph.wf(),
                stack_ok(self.sym_stack@, graph@),
                run(self@, graph@) == run(old(self)@, old(graph)@),
                extends(old(graph)@, graph@),
                self@.sym_stack[0] == old(self)@.sym_stack[0],
                walk_ok(old(self)@) ==> walk_ok(self@),
            decreases self.ops.len() - self.next,
        {
            let ghost b = self@;
            let ghost g = graph@;
            let step = self.advance_step(graph);
            proof {
                lemma_advance(b, g);
                lemma_extends_trans(old(graph)@, g, graph@);
            }
            match step {
                Some(action) => {
                    return action;
                },
                None => {},
            }
        }
        let file = self.sym_stack[0];
        proof {
            lemma_resolve_exports_extends(graph@, self@.sym_stack.last() as int, self@.exports);
            lemma_extends_trans(
                old(graph)@,
                graph@,
                resolve_exports(graph@, self@.sym_stack.last() as int, self@.exports),
            );
        }
        let ghost b = self@;
        self._resolve_all_symbols(graph);
        let mut diagnostics: Vec<Diagnostic> = Vec::new();
        core::mem::swap(&mut diagnostics, &mut self.diagnostics);
        self.phase = Phase::AwaitDone;
        assert(self@.diagnostics =~= Seq::<Diagnostic>::empty());
        proof {
            lemma_walk_ok_same(b, self@);
        }
        ArchAction::Complete { file, has_ast: true, diagnostics }
    }

    /// Starts the pass.
    fn begin(&mut self, graph: &mut SymbolGraph) -> (result: Result<ArchAction, ArchError>)
        requires
            old(graph).wf(),
        ensures
            final(graph).wf(),
            evolves(old(graph)@, final(graph)@),
            walk_ok(old(self)@) ==> walk_ok(final(self)@),
            match result {
                Ok(action) => start(old(self)@, old(graph)@) == Ok::<Outcome, ArchError>(
                    Outcome { builder: final(self)@, graph: final(graph)@, action: action@ },
                ),
                Err(e) => start(old(self)@, old(graph)@) == Err::<Outcome, ArchError>(e)
                    && final(self)@ == old(self)@ && final(graph)@ == old(graph)@,
            },
    {
        proof {
            lemma_extends_refl(graph@);
            lemma_extends_evolves(graph@, graph@);
        }
        if self.sym_stack.len() != 1 || self.sym_stack[0] >= graph.len() {
            return Err(ArchError::UnknownSymbol);
        }
        let file = self.sym_stack[0];
        let symbol = graph.get(file);
        let path = match symbol {
            Symbol::Root(_) | Symbol::Namespace(_) | Symbol::Compiled(_) | Symbol::Variable(_) => {
                self.phase = Phase::Finished;
                proof {
                    lemma_walk_ok_same(old(self)@, self@);
                }
                return Ok(ArchAction::Done);
            },
            Symbol::Package(f) => {
                if f.status.get(BuildSteps::Arch) != BuildStatus::Pending {
                    return Err(ArchError::NotPending);
                }
                init_file_path(&f.path, &f.i_ext)
            },
            Symbol::File(f) => {
                if f.status.get(BuildSteps::Arch) != BuildStatus::Pending {
                    return Err(ArchError::NotPending);
                }
                f.path.clone()
            },
            _ => {
                return Err(ArchError::NotSinglePath);
            },
        };
        proof {
            let g = graph@;
            let m = SymbolModel {
                status: g[file as int].status.spec_with(BuildSteps::Arch, BuildStatus::InProgress),
                ..g[file as int]
            };
            assert(g[file as int].bindings.take(g[file as int].bindings.len() as int)
                == g[file as int].bindings);
            lemma_update_evolves(g, file as int, m);
        }
        graph.set_build_status(file, BuildSteps::Arch, BuildStatus::InProgress);
        self.phase = Phase::AwaitFile;
        proof {
            lemma_walk_ok_same(old(self)@, self@);
        }
        let diagnostics = clone_diagnostics(&self.diagnostics);
        Ok(ArchAction::ReadFile { path, diagnostics })
    }

    /// Takes the file and its tree, and begins the walk.
    fn take_file(&mut self, graph: &mut SymbolGraph, in_workspace: bool, ast: Option<Vec<Stmt>>) -> (action:
        ArchAction)
        requires
            old(graph).wf(),
            stack_ok(old(self).sym_stack@, old(graph)@),
        ensures
            final(graph).wf(),
            on_file(old(self)@, old(graph)@, in_workspace, ast) == (Outcome {
                builder: final(self)@,
                graph: final(graph)@,
                action: action@,
            }),
            extends(old(graph)@, final(graph)@),
            final(self)@.sym_stack[0] == old(self)@.sym_stack[0],
            old(self)@.sym_stack.len() == 1 ==> walk_ok(final(self)@),
            old(self)@.sym_stack.len() == 1 && asks_at_top(Some(action@)) ==> final(self)@.sym_stack
                == old(self)@.sym_stack,
    {
        let file = self.sym_stack[0];
        let inside = in_workspace || match graph.get(file).parent() {
            Some(p) => p < graph.len() && graph.get(p).in_workspace(),
            None => false,
        };
        proof {
            let g = graph@;
            let m = SymbolModel { in_workspace: inside, ..g[file as int] };
            assert(g[file as int].bindings.take(g[file as int].bindings.len() as int)
                == g[file as int].bindings);
            lemma_update_extends(g, file as int, m);
        }
        graph.set_in_workspace(file, inside);
        let ghost g1 = graph@;
        match ast {
            Some(tree) => {
                let mut ops: Vec<WalkOp> = Vec::new();
                Self::visit_node(&tree, Scope::File, &mut ops);
                assert(op_models(ops@) =~= visit_nodes(tree@, Scope::File));
                self.ops = ops;
                self.next = 0;
                proof {
                    if self@.sym_stack.len() == 1 {
                        lemma_walk_begins(self@, tree@);
                    }
                }
                let action = self.run_walk(graph);
                proof {
                    lemma_extends_trans(old(graph)@, g1, graph@);
                    if old(self)@.sym_stack.len() == 1 {
                        assert(old(self)@.sym_stack =~= seq![old(self)@.sym_stack[0]]);
                    }
                }
                action
            },
            None => {
                let mut diagnostics: Vec<Diagnostic> = Vec::new();
                core::mem::swap(&mut diagnostics, &mut self.diagnostics);
                self.phase = Phase::AwaitDone;
                self.ops = Vec::new();
                self.next = 0;
                assert(self@.diagnostics =~= Seq::<Diagnostic>::empty());
                assert(self@.ops =~= Seq::<OpModel>::empty());
                proof {
                    if self@.sym_stack.len() == 1 {
                        lemma_walk_empty(self@);
                    }
                }
                ArchAction::Complete { file, has_ast: false, diagnostics }
            },
        }
    }

    /// Takes the target of a wildcard import.
    fn take_import(&mut self, graph: &mut SymbolGraph, result: ImportResult) -> (res: Result<
        ArchAction,
        ArchError,
    >)
        requires
            old(graph).wf(),
            stack_ok(old(self).sym_stack@, old(graph)@),
        ensures
            final(graph).wf(),
            match res {
                Ok(action) => on_import(old(self)@, old(graph)@, result) == Ok::<Outcome, ArchError>(
                    Outcome { builder: final(self)@, graph: final(graph)@, action: action@ },
                ) && (walk_ok(old(self)@) && asks_at_top(Some(action@)) ==> final(self)@.sym_stack
                    == seq![old(self)@.sym_stack[0]]),
                Err(e) => on_import(old(self)@, old(graph)@, result) == Err::<Outcome, ArchError>(e)
                    && final(self)@ == old(self)@ && final(graph)@ == old(graph)@,
            },
            extends(old(graph)@, final(graph)@),
            final(self)@.sym_stack[0] == old(self)@.sym_stack[0],
            walk_ok(old(self)@) ==> walk_ok(final(self)@),
    {
        let file = self.sym_stack[0];
        let top = self.sym_stack[self.sym_stack.len() - 1];
        proof {
            lemma_extends_refl(graph@);
        }
        if result.found && result.symbol >= graph.len() {
            return Err(ArchError::UnknownSymbol);
        }
        let usable = result.found && graph.get(result.symbol).build_progress().get(BuildSteps::Arch)
            == BuildStatus::Done;
        if !usable {
            let mut path = clone_texts(&result.file_tree.0);
            let mut rest = clone_texts(&result.file_tree.1);
            path.append(&mut rest);
            assert(texts(path@) =~= texts(result.file_tree.0@) + texts(result.file_tree.1@));
            proof {
                let g = graph@;
                let m = SymbolModel {
                    not_found_paths: g[file as int].not_found_paths.push(
                        NotFoundModel { step: BuildSteps::Arch, path: texts(path@) },
                    ),
                    ..g[file as int]
                };
                assert(g[file as int].bindings.take(g[file as int].bindings.len() as int)
                    == g[file as int].bindings);
                lemma_update_extends(g, file as int, m);
            }
            graph.add_not_found_path(file, BuildSteps::Arch, path);
            self.phase = Phase::AwaitAck;
            proof {
                lemma_walk_ok_same(old(self)@, self@);
            }
            return Ok(ArchAction::NotFound { file });
        }
        let (imports, issue) = collect_wildcard(graph, result.symbol);
        match issue {
            Some(issue) => {
                self.warnings.push(ExportWarning { target: result.symbol, issue });
            },
            None => {},
        }
        proof {
            lemma_walk_ok_same(old(self)@, self@);
        }
        proof {
            lemma_bind_imports(graph@, top as int, imported_models(imports@), result.range);
            lemma_bind_imports_extends(graph@, top as int, imported_models(imports@), result.range);
        }
        bind_imports_in(graph, top, &imports, &result.range);
        let ghost g1 = graph@;
        proof {
            lemma_link_files(graph@, file as int, imported_models(imports@));
            lemma_link_files_extends(graph@, file as int, imported_models(imports@));
        }
        link_files_in(graph, file, &imports);
        let ghost g2 = graph@;
        let action = self.run_walk(graph);
        proof {
            lemma_extends_trans(old(graph)@, g1, g2);
            lemma_extends_trans(old(graph)@, g2, graph@);
        }
        Ok(action)
    }

    /// Takes the value of an export list.
    fn take_evaluation(
        &mut self,
        graph: &mut SymbolGraph,
        evaluations: Vec<Evaluation>,
        diagnostics: Vec<Diagnostic>,
    ) -> (action: ArchAction)
        requires
            old(graph).wf(),
            stack_ok(old(self).sym_stack@, old(graph)@),
            old(self).pending_variable < old(graph)@.len(),
            old(graph)@[old(self).pending_variable as int].typ == SymType::Variable,
        ensures
            final(graph).wf(),
            on_evaluation(old(self)@, old(graph)@, evaluations@, diagnostics@) == (Outcome {
                builder: final(self)@,
                graph: final(graph)@,
                action: action@,
            }),
            extends(old(graph)@, final(graph)@),
            final(self)@.sym_stack[0] == old(self)@.sym_stack[0],
            walk_ok(old(self)@) ==> walk_ok(final(self)@),
            walk_ok(old(self)@) && asks_at_top(Some(action@)) ==> final(self)@.sym_stack
                == seq![old(self)@.sym_stack[0]],
    {
        let top = self.sym_stack[self.sym_stack.len() - 1];
        let external = graph.get(top).is_external();
        record_exports(&evaluations, external, &mut self.__all_symbols_to_add);
        proof {
            let g = graph@;
            let v = self.pending_variable as int;
            let m = SymbolModel { evaluations: evaluations@, ..g[v] };
            assert(g[v].bindings.take(g[v].bindings.len() as int) == g[v].bindings);
            lemma_update_extends(g, v, m);
        }
        graph.set_evaluations(self.pending_variable, evaluations);
        let ghost g1 = graph@;
        let mut diagnostics = diagnostics;
        self.diagnostics.append(&mut diagnostics);
        proof {
            lemma_walk_ok_same(old(self)@, self@);
        }
        let action = self.run_walk(graph);
        proof {
            lemma_extends_trans(old(graph)@, g1, graph@);
        }
        action
    }

    /// Marks the file as done.
    fn close(&mut self, graph: &mut SymbolGraph) -> (action: ArchAction)
        requires
            old(graph).wf(),
            stack_ok(old(self).sym_stack@, old(graph)@),
        ensures
            final(graph).wf(),
            finish(old(self)@, old(graph)@) == (Outcome {
                builder: final(self)@,
                graph: final(graph)@,
                action: action@,
            }),
            evolves(old(graph)@, final(graph)@),
            walk_ok(old(self)@) ==> walk_ok(final(self)@),
    {
        proof {
            let g = graph@;
            let file = self.sym_stack[0] as int;
            let m = SymbolModel {
                status: g[file].status.spec_with(BuildSteps::Arch, BuildStatus::Done),
                ..g[file]
            };
            assert(g[file].bindings.take(g[file].bindings.len() as int) == g[file].bindings);
            lemma_update_evolves(g, file, m);
        }
        graph.set_build_status(self.sym_stack[0], BuildSteps::Arch, BuildStatus::Done);
        self.phase = Phase::Finished;
        proof {
            lemma_walk_ok_same(old(self)@, self@);
        }
        ArchAction::Done
    }

    /// Takes `ArchEvent::Start`.
    fn on_start(&mut self, graph: &mut SymbolGraph) -> (result: Result<ArchAction, ArchError>)
        requires
            old(graph).wf(),
        ensures
            final(graph).wf(),
            match result {
                Ok(action) => step(old(self)@, old(graph)@, ArchEvent::Start) == Ok::<Outcome, ArchError>(
                    Outcome { builder: final(self)@, graph: final(graph)@, action: action@ },
                ) && (walk_ok(old(self)@) && asks_at_top(Some(action@)) ==> final(self)@.sym_stack
                    == seq![old(self)@.sym_stack[0]]),
                Err(e) => step(old(self)@, old(graph)@, ArchEvent::Start) == Err::<Outcome, ArchError>(e)
                    && final(self)@ == old(self)@ && final(graph)@ == old(graph)@,
            },
            evolves(old(graph)@, final(graph)@),
            walk_ok(old(self)@) ==> walk_ok(final(self)@),
    {
        proof {
            lemma_extends_refl(graph@);
            lemma_extends_evolves(graph@, graph@);
        }
        match self.phase {
            Phase::Created => self.begin(graph),
            _ => Err(ArchError::UnexpectedEvent),
        }
    }

    /// Takes `ArchEvent::File`.
    fn on_file_event(&mut self, graph: &mut SymbolGraph, in_workspace: bool, ast: Option<Vec<Stmt>>) -> (result:
        Result<ArchAction, ArchError>)
        requires
            old(graph).wf(),
        ensures
            final(graph).wf(),
            match result {
                Ok(action) => step(old(self)@, old(graph)@, (ArchEvent::File { in_workspace, ast })) == Ok::<Outcome, ArchError>(
                    Outcome { builder: final(self)@, graph: final(graph)@, action: action@ },
                ) && (walk_ok(old(self)@) && asks_at_top(Some(action@)) ==> final(self)@.sym_stack
                    == seq![old(self)@.sym_stack[0]]),
                Err(e) => step(old(self)@, old(graph)@, (ArchEvent::File { in_workspace, ast })) == Err::<Outcome, ArchError>(e)
                    && final(self)@ == old(self)@ && final(graph)@ == old(graph)@,
            },
            evolves(old(graph)@, final(graph)@),
            walk_ok(old(self)@) ==> walk_ok(final(self)@),
    {
        proof {
            lemma_extends_refl(graph@);
            lemma_extends_evolves(graph@, graph@);
        }
        match self.phase {
            Phase::AwaitFile => {},
            _ => {
                return Err(ArchError::UnexpectedEvent);
            },
        }
        if !self.check_stack(graph) || self.sym_stack.len() != 1 {
            return Err(ArchError::UnknownSymbol);
        }
        let action = self.take_file(graph, in_workspace, ast);
        proof {
            lemma_extends_evolves(old(graph)@, graph@);
        }
        Ok(action)
    }

    /// Takes `ArchEvent::Import`.
    fn on_import_event(&mut self, graph: &mut SymbolGraph, import: ImportResult) -> (result: Result<
        ArchAction,
        ArchError,
    >)
        requires
            old(graph).wf(),
        ensures
            final(graph).wf(),
            match result {
                Ok(action) => step(old(self)@, old(graph)@, ArchEvent::Import(import)) == Ok::<Outcome, ArchError>(
                    Outcome { builder: final(self)@, graph: final(graph)@, action: action@ },
                ) && (walk_ok(old(self)@) && asks_at_top(Some(action@)) ==> final(self)@.sym_stack
                    == seq![old(self)@.sym_stack[0]]),
                Err(e) => step(old(self)@, old(graph)@, ArchEvent::Import(import)) == Err::<Outcome, ArchError>(e)
                    && final(self)@ == old(self)@ && final(graph)@ == old(graph)@,
            },
            evolves(old(graph)@, final(graph)@),
            walk_ok(old(self)@) ==> walk_ok(final(self)@),
    {
        proof {
            lemma_extends_refl(graph@);
            lemma_extends_evolves(graph@, graph@);
        }
        match self.phase {
            Phase::AwaitImport => {},
            _ => {
                return Err(ArchError::UnexpectedEvent);
            },
        }
        if !self.check_stack(graph) {
            return Err(ArchError::UnknownSymbol);
        }
        let result = self.take_import(graph, import);
        proof {
            lemma_extends_evolves(old(graph)@, graph@);
        }
        result
    }

    /// Takes `ArchEvent::Evaluation`.
    fn on_evaluation_event(
        &mut self,
        graph: &mut SymbolGraph,
        evaluations: Vec<Evaluation>,
        diagnostics: Vec<Diagnostic>,
    ) -> (result: Result<ArchAction, ArchError>)
        requires
            old(graph).wf(),
        ensures
            final(graph).wf(),
            match result {
                Ok(action) => step(old(self)@, old(graph)@, (ArchEvent::Evaluation { evaluations, diagnostics })) == Ok::<Outcome, ArchError>(
                    Outcome { builder: final(self)@, graph: final(graph)@, action: action@ },
                ) && (walk_ok(old(self)@) && asks_at_top(Some(action@)) ==> final(self)@.sym_stack
                    == seq![old(self)@.sym_stack[0]]),
                Err(e) => step(old(self)@, old(graph)@, (ArchEvent::Evaluation { evaluations, diagnostics })) == Err::<Outcome, ArchError>(e)
                    && final(self)@ == old(self)@ && final(graph)@ == old(graph)@,
            },
            evolves(old(graph)@, final(graph)@),
            walk_ok(old(self)@) ==> walk_ok(final(self)@),
    {
        proof {
            lemma_extends_refl(graph@);
            lemma_extends_evolves(graph@, graph@);
        }
        match self.phase {
            Phase::AwaitEvaluation => {},
            _ => {
                return Err(ArchError::UnexpectedEvent);
            },
        }
        if !self.check_stack(graph) || self.pending_variable >= graph.len() {
            return Err(ArchError::UnknownSymbol);
        }
        match graph.get(self.pending_variable).typ() {
            SymType::Variable => {},
            _ => {
                return Err(ArchError::UnknownSymbol);
            },
        }
        let action = self.take_evaluation(graph, evaluations, diagnostics);
        proof {
            lemma_extends_evolves(old(graph)@, graph@);
        }
        Ok(action)
    }

    /// Takes `ArchEvent::Ack`.
    fn on_ack(&mut self, graph: &mut SymbolGraph) -> (result: Result<ArchAction, ArchError>)
        requires
            old(graph).wf(),
        ensures
            final(graph).wf(),
            match result {
                Ok(action) => step(old(self)@, old(graph)@, ArchEvent::Ack) == Ok::<Outcome, ArchError>(
                    Outcome { builder: final(self)@, graph: final(graph)@, action: action@ },
                ) && (walk_ok(old(self)@) && asks_at_top(Some(action@)) ==> final(self)@.sym_stack
                    == seq![old(self)@.sym_stack[0]]),
                Err(e) => step(old(self)@, old(graph)@, ArchEvent::Ack) == Err::<Outcome, ArchError>(e)
                    && final(self)@ == old(self)@ && final(graph)@ == old(graph)@,
            },
            evolves(old(graph)@, final(graph)@),
            walk_ok(old(self)@) ==> walk_ok(final(self)@),
    {
        proof {
            lemma_extends_refl(graph@);
            lemma_extends_evolves(graph@, graph@);
        }
        match self.phase {
            Phase::AwaitAck => {
                if !self.check_stack(graph) {
                    return Err(ArchError::UnknownSymbol);
                }
                let action = self.run_walk(graph);
                proof {
                    lemma_extends_evolves(old(graph)@, graph@);
                }
                Ok(action)
            },
            Phase::AwaitDone => {
                if !self.check_stack(graph) {
                    return Err(ArchError::UnknownSymbol);
                }
                Ok(self.close(graph))
            },
            _ => Err(ArchError::UnexpectedEvent),
        }
    }

    /// Takes the pass one leg further: hands `event` to the builder, which
    /// works on `graph` until it needs an answer or is done, and says so in
    /// the action it returns.
    ///
    /// The first event is `Start`; each later one answers the action that
    /// the call before returned. An event that answers nothing, a symbol
    /// that the graph does not hold, a symbol to build that holds no single
    /// path or is not pending: each is refused with its error, and nothing
    /// changes.
    ///
    /// Whatever the event, every symbol of the graph is kept, children are
    /// only appended, and the first phase of no symbol goes back. From a
    /// builder in a state that the pass can reach, a wildcard import and an
    /// export list are asked about with the file alone on the stack.
    pub fn load_arch(&mut self, graph: &mut SymbolGraph, event: ArchEvent) -> (result: Result<
        ArchAction,
        ArchError,
    >)
        requires
            old(graph).wf(),
        ensures
            final(graph).wf(),
            match result {
                Ok(action) => step(old(self)@, old(graph)@, event) == Ok::<Outcome, ArchError>(
                    Outcome { builder: final(self)@, graph: final(graph)@, action: action@ },
                ) && (walk_ok(old(self)@) && asks_at_top(Some(action@)) ==> final(self)@.sym_stack
                    == seq![old(self)@.sym_stack[0]]),
                Err(e) => step(old(self)@, old(graph)@, event) == Err::<Outcome, ArchError>(e)
                    && final(self)@ == old(self)@ && final(graph)@ == old(graph)@,
            },
            evolves(old(graph)@, final(graph)@),
            walk_ok(old(self)@) ==> walk_ok(final(self)@),
    {
        match event {
            ArchEvent::Start => self.on_start(graph),
            ArchEvent::File { in_workspace, ast } => self.on_file_event(graph, in_workspace, ast),
            ArchEvent::Import(import) => self.on_import_event(graph, import),
            ArchEvent::Evaluation { evaluations, diagnostics } => self.on_evaluation_event(
                graph,
                evaluations,
                diagnostics,
            ),
            ArchEvent::Ack => self.on_ack(graph),
        }
    }

    /// Reads the names that an export list declares, and tells whether the
    /// list held anything that is not a string literal.
    ///
    /// A value that is absent, unknown or a dictionary declares nothing and
    /// is an error. A string literal declares itself. A list or a tuple
    /// declares its string literals, in order, and is an error when it holds
    /// anything else.
    pub fn extract_all_symbol_eval_values(value: Option<&EvaluationValue>) -> (res: (
        Vec<String>,
        bool,
    ))
        ensures
            texts(res.0@) == export_names(opt_value(value)),
            res.0@.len() == export_names(opt_value(value)).len(),
            res.1 == export_parse_error(opt_value(value)),
    {
        match value {
            Some(EvaluationValue::Constant(Expr::StringLiteral { value: s, .. })) => {
                let mut names: Vec<String> = Vec::new();
                names.push(s.clone());
                assert(texts(names@) =~= seq![s@]);
                (names, false)
            },
            Some(EvaluationValue::List(l)) => extract_literals(l),
            Some(EvaluationValue::Tuple(t)) => extract_literals(t),
            _ => {
                let names: Vec<String> = Vec::new();
                assert(texts(names@) =~= Seq::<Seq<char>>::empty());
                (names, true)
            },
        }
    }
}

} // verus!
