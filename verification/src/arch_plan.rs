//! The tree walk. It turns the statements of a file into the sequence of
//! steps that the builder takes on the symbol graph: one step for every
//! symbol to create, and one for every scope to leave.
use vstd::prelude::*;
use ruff_text_size::TextRange;
use crate::ast::{
    doc_string,
    doc_string_of,
    Alias,
    Decorator,
    ElifElseClause,
    Expr,
    Identifier,
    Parameter,
    Stmt,
    StmtAnnAssign,
    StmtAssign,
    StmtClassDef,
    StmtFor,
    StmtFunctionDef,
    StmtIf,
    StmtTry,
};
use crate::python_arch_builder::PythonArchBuilder;
use crate::python_utils::{
    assign_models,
    first_dotted_segment,
    first_segment,
    unpack_assign,
    unpack_target,
    unpacked_target,
    unpacked_targets,
    Assign,
    AssignModel,
};
use crate::symbols::variable_symbol::opt_text;
use crate::text::{range_start, start_offset};

verus! {

/// The kind of symbol on top of the symbol stack: the file itself, a class
/// or a function.
#[derive(Clone, Copy, Debug, PartialEq, Eq, Structural)]
pub enum Scope {
    File,
    Class,
    Function,
}

/// A parameter to create in a function.
pub struct ParameterOp {
    pub name: String,
    pub range: TextRange,
    pub is_args: bool,
    pub is_kwargs: bool,
}

pub struct ParameterModel {
    pub name: Seq<char>,
    pub range: TextRange,
    pub is_args: bool,
    pub is_kwargs: bool,
}

impl View for ParameterOp {
    type V = ParameterModel;

    open spec fn view(&self) -> ParameterModel {
        ParameterModel {
            name: self.name@,
            range: self.range,
            is_args: self.is_args,
            is_kwargs: self.is_kwargs,
        }
    }
}

/// One step of the builder.
pub enum WalkOp {
    /// Bind the local name of a named import.
    Import { name: String, range: TextRange },
    /// Resolve `from module import *` and bind what it exports.
    ImportAll { module: Option<String>, level: Option<u32>, range: TextRange },
    /// Bind an assigned name; `annotation` is the span of its annotation.
    Variable { name: String, range: TextRange, annotation: Option<TextRange> },
    /// Bind `__all__` at the top of a file and evaluate the expression at
    /// span `value`; `position` is where the statement starts.
    Exports { range: TextRange, annotation: Option<TextRange>, value: TextRange, position: u32 },
    /// Create a function with its parameters and enter it.
    Function {
        name: String,
        range: TextRange,
        is_static: bool,
        is_property: bool,
        doc_string: Option<String>,
        parameters: Vec<ParameterOp>,
    },
    /// Create a class and enter it.
    Class { name: String, range: TextRange, doc_string: Option<String> },
    /// Leave the innermost class or function.
    Leave,
}

/// What a `WalkOp` stands for.
pub enum OpModel {
    Import { name: Seq<char>, range: TextRange },
    ImportAll { module: Option<Seq<char>>, level: Option<u32>, range: TextRange },
    Variable { name: Seq<char>, range: TextRange, annotation: Option<TextRange> },
    Exports { range: TextRange, annotation: Option<TextRange>, value: TextRange, position: u32 },
    Function {
        name: Seq<char>,
        range: TextRange,
        is_static: bool,
        is_property: bool,
        doc_string: Option<Seq<char>>,
        parameters: Seq<ParameterModel>,
    },
    Class { name: Seq<char>, range: TextRange, doc_string: Option<Seq<char>> },
    Leave,
}

pub open spec fn parameter_op_models(parameters: Seq<ParameterOp>) -> Seq<ParameterModel> {
    parameters.map_values(|p: ParameterOp| p@)
}

impl View for WalkOp {
    type V = OpModel;

    open spec fn view(&self) -> OpModel {
        match self {
            WalkOp::Import { name, range } => OpModel::Import { name: name@, range: *range },
            WalkOp::ImportAll { module, level, range } => OpModel::ImportAll {
                module: opt_text(*module),
                level: *level,
                range: *range,
            },
            WalkOp::Variable { name, range, annotation } => OpModel::Variable {
                name: name@,
                range: *range,
                annotation: *annotation,
            },
            WalkOp::Exports { range, annotation, value, position } => OpModel::Exports {
                range: *range,
                annotation: *annotation,
                value: *value,
                position: *position,
            },
            WalkOp::Function { name, range, is_static, is_property, doc_string, parameters } => OpModel::Function {
                name: name@,
                range: *range,
                is_static: *is_static,
                is_property: *is_property,
                doc_string: opt_text(*doc_string),
                parameters: parameter_op_models(parameters@),
            },
            WalkOp::Class { name, range, doc_string } => OpModel::Class {
                name: name@,
                range: *range,
                doc_string: opt_text(*doc_string),
            },
            WalkOp::Leave => OpModel::Leave,
        }
    }
}

pub open spec fn op_models(ops: Seq<WalkOp>) -> Seq<OpModel> {
    ops.map_values(|op: WalkOp| op@)
}

/// The name of the list of exports.
pub open spec fn all_name() -> Seq<char> {
    "__all__"@
}

/// The name that stands for everything in an import.
pub open spec fn star() -> Seq<char> {
    "*"@
}

/// The text of an optional identifier.
pub open spec fn opt_id(id: Option<Identifier>) -> Option<Seq<char>> {
    match id {
        Some(id) => Some(id.id@),
        None => None,
    }
}

/// The name that an import binds: the name after `as` when there is one,
/// else the first segment of the dotted name.
pub open spec fn local_name(alias: Alias) -> Seq<char> {
    match alias.asname {
        Some(asname) => asname.id@,
        None => first_segment(alias.name.id@),
    }
}

/// The step for one name of an import statement. A star is resolved only
/// at the top of a file; elsewhere it binds nothing.
pub open spec fn import_op(
    alias: Alias,
    module: Option<Seq<char>>,
    level: Option<u32>,
    range: TextRange,
    scope: Scope,
) -> Seq<OpModel> {
    if alias.name.id@ == star() {
        if scope == Scope::File {
            seq![OpModel::ImportAll { module, level, range }]
        } else {
            Seq::empty()
        }
    } else {
        seq![OpModel::Import { name: local_name(alias), range: alias.range }]
    }
}

/// The steps for the names of an import statement, in their order.
pub open spec fn import_ops(
    names: Seq<Alias>,
    module: Option<Seq<char>>,
    level: Option<u32>,
    range: TextRange,
    scope: Scope,
) -> Seq<OpModel>
    decreases names.len(),
{
    if names.len() == 0 {
        Seq::empty()
    } else {
        import_ops(names.drop_last(), module, level, range, scope) + import_op(
            names.last(),
            module,
            level,
            range,
            scope,
        )
    }
}

/// The step for one assigned name. `__all__` with a value at the top of a
/// file is evaluated; any other name is only bound.
pub open spec fn assign_op(assign: AssignModel, scope: Scope, position: u32) -> OpModel {
    if assign.target == all_name() && scope == Scope::File && assign.value.is_some() {
        OpModel::Exports {
            range: assign.range,
            annotation: assign.annotation,
            value: assign.value.unwrap(),
            position,
        }
    } else {
        OpModel::Variable { name: assign.target, range: assign.range, annotation: assign.annotation }
    }
}

/// The steps for the names of an assignment, in their order.
pub open spec fn assign_ops(assigns: Seq<AssignModel>, scope: Scope, position: u32) -> Seq<OpModel> {
    assigns.map_values(|a: AssignModel| assign_op(a, scope, position))
}

/// The steps that bind names without looking at their value.
pub open spec fn variable_ops(assigns: Seq<AssignModel>) -> Seq<OpModel> {
    assigns.map_values(
        |a: AssignModel|
            OpModel::Variable { name: a.target, range: a.range, annotation: a.annotation },
    )
}

/// Whether an expression is the bare name `name`.
pub open spec fn is_named(e: Expr, name: Seq<char>) -> bool {
    match e {
        Expr::Name { id, .. } => id@ == name,
        _ => false,
    }
}

/// Whether one of the decorators is the bare name `name`.
pub open spec fn has_decorator(decorators: Seq<Decorator>, name: Seq<char>) -> bool {
    exists|i: int| 0 <= i < decorators.len() && is_named((#[trigger] decorators[i]).expression, name)
}

pub open spec fn parameter_models(parameters: Seq<Parameter>) -> Seq<ParameterModel> {
    parameters.map_values(
        |p: Parameter|
            ParameterModel {
                name: p.name.id@,
                range: p.range,
                is_args: p.is_args,
                is_kwargs: p.is_kwargs,
            },
    )
}

/// The step that creates the function of a definition: flags from the
/// decorators, the docstring, and the positional-only parameters followed
/// by the ordinary ones.
pub open spec fn function_op(def: StmtFunctionDef) -> OpModel {
    OpModel::Function {
        name: def.name.id@,
        range: def.range,
        is_static: has_decorator(def.decorator_list@, "staticmethod"@),
        is_property: has_decorator(def.decorator_list@, "property"@),
        doc_string: doc_string_of(def.body@),
        parameters: parameter_models(def.posonlyargs@) + parameter_models(def.args@),
    }
}

/// The step that creates the class of a definition.
pub open spec fn class_op(def: StmtClassDef) -> OpModel {
    OpModel::Class { name: def.name.id@, range: def.range, doc_string: doc_string_of(def.body@) }
}

/// The steps for one statement met in scope `scope`.
///
/// In a function, imports and assignments bind nothing. Definitions open a
/// scope, walk their body in it and leave it. `if`, `try` and `for` walk
/// every branch in the scope they stand in; `for` binds its target first.
pub open spec fn visit_stmt(stmt: Stmt, scope: Scope) -> Seq<OpModel>
    decreases stmt, 0nat,
{
    match stmt {
        Stmt::Import(s) => if scope == Scope::Function {
            Seq::empty()
        } else {
            import_ops(s.names@, None, None, s.range, scope)
        },
        Stmt::ImportFrom(s) => if scope == Scope::Function {
            Seq::empty()
        } else {
            import_ops(s.names@, opt_id(s.module), Some(s.level), s.range, scope)
        },
        Stmt::AnnAssign(s) => if scope == Scope::Function {
            Seq::empty()
        } else {
            assign_ops(
                unpacked_target(
                    s.target,
                    Some(s.annotation.spec_range()),
                    match s.value {
                        Some(v) => Some(v.spec_range()),
                        None => None,
                    },
                ),
                scope,
                range_start(s.range),
            )
        },
        Stmt::Assign(s) => if scope == Scope::Function {
            Seq::empty()
        } else {
            assign_ops(
                unpacked_targets(s.targets@, None, Some(s.value.spec_range())),
                scope,
                range_start(s.range),
            )
        },
        Stmt::FunctionDef(def) => seq![function_op(def)] + visit_nodes(def.body@, Scope::Function)
            + seq![OpModel::Leave],
        Stmt::ClassDef(def) => seq![class_op(def)] + visit_nodes(def.body@, Scope::Class)
            + seq![OpModel::Leave],
        Stmt::If(s) => visit_nodes(s.body@, scope) + visit_clauses(s.elif_else_clauses@, scope),
        Stmt::Try(s) => visit_nodes(s.body@, scope) + visit_nodes(s.orelse@, scope) + visit_nodes(
            s.finalbody@,
            scope,
        ),
        Stmt::For(s) => variable_ops(unpacked_target(s.target, None, None)) + visit_nodes(
            s.body@,
            scope,
        ) + visit_nodes(s.orelse@, scope),
        _ => Seq::empty(),
    }
}

/// The steps for a sequence of statements, in their order.
pub open spec fn visit_nodes(stmts: Seq<Stmt>, scope: Scope) -> Seq<OpModel>
    decreases stmts, 1nat,
{
    if stmts.len() == 0 {
        Seq::empty()
    } else {
        visit_nodes(stmts.drop_last(), scope) + visit_stmt(stmts.last(), scope)
    }
}

/// The steps for the bodies of the `elif` and `else` arms, in their order.
pub open spec fn visit_clauses(clauses: Seq<ElifElseClause>, scope: Scope) -> Seq<OpModel>
    decreases clauses, 1nat,
{
    if clauses.len() == 0 {
        Seq::empty()
    } else {
        visit_clauses(clauses.drop_last(), scope) + visit_nodes(clauses.last().body@, scope)
    }
}

} // verus!

verus! {

/// Whether `s` reads `text`.
pub fn is_text(s: &String, text: &str) -> (same: bool)
    ensures
        same == (s@ == text@),
{
    let other = String::from_str(text);
    *s == other
}

/// Whether one of the decorators is the bare name `name`.
pub fn find_decorator(decorators: &Vec<Decorator>, name: &str) -> (found: bool)
    ensures
        found == has_decorator(decorators@, name@),
{
    let mut i: usize = 0;
    while i < decorators.len()
        invariant
            i <= decorators.len(),
            forall|j: int| 0 <= j < i ==> !is_named((#[trigger] decorators[j]).expression, name@),
        decreases decorators.len() - i,
    {
        match &decorators[i].expression {
            Expr::Name { id, .. } => {
                if is_text(id, name) {
                    return true;
                }
            },
            _ => {},
        }
        i += 1;
    }
    false
}

/// Appends the parameters of one group of a definition to `out`.
pub fn push_parameters(parameters: &Vec<Parameter>, out: &mut Vec<ParameterOp>)
    ensures
        parameter_op_models(final(out)@) == parameter_op_models(old(out)@) + parameter_models(
            parameters@,
        ),
{
    let mut i: usize = 0;
    assert(parameter_op_models(out@) =~= parameter_op_models(old(out)@) + parameter_models(
        parameters@,
    ).take(0));
    while i < parameters.len()
        invariant
            i <= parameters.len(),
            parameter_op_models(out@) == parameter_op_models(old(out)@) + parameter_models(
                parameters@,
            ).take(i as int),
        decreases parameters.len() - i,
    {
        let p = &parameters[i];
        let ghost before = parameter_op_models(out@);
        let ghost all = parameter_models(parameters@);
        out.push(
            ParameterOp {
                name: p.name.id.clone(),
                range: p.range,
                is_args: p.is_args,
                is_kwargs: p.is_kwargs,
            },
        );
        assert(parameter_op_models(out@) =~= before.push(all[i as int]));
        assert(all.take(i + 1) =~= all.take(i as int).push(all[i as int]));
        assert(parameter_op_models(out@) =~= parameter_op_models(old(out)@) + parameter_models(
            parameters@,
        ).take(i + 1));
        i += 1;
    }
    assert(parameter_models(parameters@).take(parameters.len() as int) =~= parameter_models(
        parameters@,
    ));
}

impl PythonArchBuilder {
    /// Plans the bindings of an import statement: one variable for each
    /// named import, under the name after `as` or else under the first
    /// segment of the dotted name; and for a star at the top of a file, the
    /// resolution of what the module exports. A star anywhere else is
    /// passed over.
    pub fn create_local_symbols_from_import_stmt(
        from_stmt: Option<&Identifier>,
        name_aliases: &Vec<Alias>,
        level: Option<u32>,
        range: &TextRange,
        scope: Scope,
        ops: &mut Vec<WalkOp>,
    )
        ensures
            op_models(final(ops)@) == op_models(old(ops)@) + import_ops(
                name_aliases@,
                match from_stmt {
                    Some(id) => Some(id.id@),
                    None => None,
                },
                level,
                *range,
                scope,
            ),
    {
        let ghost module = match from_stmt {
            Some(id) => Some(id.id@),
            None => None,
        };
        let mut i: usize = 0;
        assert(op_models(ops@) =~= op_models(old(ops)@) + import_ops(
            name_aliases@.take(0),
            module,
            level,
            *range,
            scope,
        ));
        while i < name_aliases.len()
            invariant
                i <= name_aliases.len(),
                module == match from_stmt {
                    Some(id) => Some(id.id@),
                    None => None,
                },
                op_models(ops@) == op_models(old(ops)@) + import_ops(
                    name_aliases@.take(i as int),
                    module,
                    level,
                    *range,
                    scope,
                ),
            decreases name_aliases.len() - i,
        {
            let import_name = &name_aliases[i];
            let ghost before = op_models(ops@);
            if is_text(&import_name.name.id, "*") {
                match scope {
                    Scope::File => {
                        let from = match from_stmt {
                            Some(id) => Some(id.id.clone()),
                            None => None,
                        };
                        ops.push(WalkOp::ImportAll { module: from, level, range: *range });
                    },
                    _ => {},
                }
            } else {
                let var_name = match &import_name.asname {
                    None => first_dotted_segment(&import_name.name.id),
                    Some(asname) => asname.id.clone(),
                };
                ops.push(WalkOp::Import { name: var_name, range: import_name.range });
            }
            proof {
                let next = name_aliases@.take(i + 1);
                assert(next.drop_last() == name_aliases@.take(i as int));
                assert(next.last() == *import_name);
                assert(op_models(ops@) =~= before + import_op(
                    *import_name,
                    module,
                    level,
                    *range,
                    scope,
                ));
                assert(op_models(ops@) =~= op_models(old(ops)@) + import_ops(
                    next,
                    module,
                    level,
                    *range,
                    scope,
                ));
            }
            i += 1;
        }
        assert(name_aliases@.take(name_aliases.len() as int) == name_aliases@);
    }

    /// Plans one step for each unpacked name of an assignment.
    fn plan_assigns(assigns: &Vec<Assign>, scope: Scope, position: u32, ops: &mut Vec<WalkOp>)
        ensures
            op_models(final(ops)@) == op_models(old(ops)@) + assign_ops(
                assign_models(assigns@),
                scope,
                position,
            ),
    {
        let mut i: usize = 0;
        assert(op_models(ops@) =~= op_models(old(ops)@) + assign_ops(
            assign_models(assigns@),
            scope,
            position,
        ).take(0));
        while i < assigns.len()
            invariant
                i <= assigns.len(),
                op_models(ops@) == op_models(old(ops)@) + assign_ops(
                    assign_models(assigns@),
                    scope,
                    position,
                ).take(i as int),
            decreases assigns.len() - i,
        {
            let assign = &assigns[i];
            let ghost before = op_models(ops@);
            let ghost all = assign_ops(assign_models(assigns@), scope, position);
            let mut exports = false;
            match scope {
                Scope::File => {
                    if assign.value.is_some() && is_text(&assign.target, "__all__") {
                        exports = true;
                    }
                },
                _ => {},
            }
            if exports {
                match assign.value {
                    Some(value) => {
                        ops.push(
                            WalkOp::Exports {
                                range: assign.range,
                                annotation: assign.annotation,
                                value,
                                position,
                            },
                        );
                    },
                    None => {},
                }
            } else {
                ops.push(
                    WalkOp::Variable {
                        name: assign.target.clone(),
                        range: assign.range,
                        annotation: assign.annotation,
                    },
                );
            }
            assert(all[i as int] == assign_op(assign@, scope, position));
            assert(op_models(ops@) =~= before.push(all[i as int]));
            assert(all.take(i + 1) =~= all.take(i as int).push(all[i as int]));
            assert(op_models(ops@) =~= op_models(old(ops)@) + assign_ops(
                assign_models(assigns@),
                scope,
                position,
            ).take(i + 1));
            i += 1;
        }
        assert(assign_ops(assign_models(assigns@), scope, position).take(assigns.len() as int)
            =~= assign_ops(assign_models(assigns@), scope, position));
    }

    /// Plans the variables of an annotated assignment.
    pub fn _visit_ann_assign(ann_assign_stmt: &StmtAnnAssign, scope: Scope, ops: &mut Vec<WalkOp>)
        requires
            scope != Scope::Function,
        ensures
            op_models(final(ops)@) == op_models(old(ops)@) + visit_stmt(
                Stmt::AnnAssign(*ann_assign_stmt),
                scope,
            ),
    {
        let value = match &ann_assign_stmt.value {
            Some(v) => Some(v.range()),
            None => None,
        };
        let mut assigns: Vec<Assign> = Vec::new();
        unpack_target(
            &ann_assign_stmt.target,
            Some(ann_assign_stmt.annotation.range()),
            value,
            &mut assigns,
        );
        assert(assign_models(assigns@) =~= unpacked_target(
            ann_assign_stmt.target,
            Some(ann_assign_stmt.annotation.spec_range()),
            value,
        ));
        Self::plan_assigns(&assigns, scope, start_offset(&ann_assign_stmt.range), ops);
    }

    /// Plans the variables of an assignment.
    pub fn _visit_assign(assign_stmt: &StmtAssign, scope: Scope, ops: &mut Vec<WalkOp>)
        requires
            scope != Scope::Function,
        ensures
            op_models(final(ops)@) == op_models(old(ops)@) + visit_stmt(
                Stmt::Assign(*assign_stmt),
                scope,
            ),
    {
        let assigns = unpack_assign(&assign_stmt.targets, None, Some(&assign_stmt.value));
        Self::plan_assigns(&assigns, scope, start_offset(&assign_stmt.range), ops);
    }

    /// Plans a function: its creation with flags, docstring and parameters,
    /// the walk of its body in function scope, and the way out.
    pub fn visit_func_def(func_def: &StmtFunctionDef, ops: &mut Vec<WalkOp>)
        ensures
            op_models(final(ops)@) == op_models(old(ops)@) + visit_stmt(
                Stmt::FunctionDef(*func_def),
                Scope::Function,
            ),
        decreases func_def, 0nat,
    {
        let is_static = find_decorator(&func_def.decorator_list, "staticmethod");
        let is_property = find_decorator(&func_def.decorator_list, "property");
        let doc = doc_string(&func_def.body);
        let mut parameters: Vec<ParameterOp> = Vec::new();
        push_parameters(&func_def.posonlyargs, &mut parameters);
        push_parameters(&func_def.args, &mut parameters);
        assert(parameter_op_models(parameters@) =~= parameter_models(func_def.posonlyargs@)
            + parameter_models(func_def.args@));
        ops.push(
            WalkOp::Function {
                name: func_def.name.id.clone(),
                range: func_def.range,
                is_static,
                is_property,
                doc_string: doc,
                parameters,
            },
        );
        assert(op_models(ops@) =~= op_models(old(ops)@).push(function_op(*func_def)));
        Self::visit_node(&func_def.body, Scope::Function, ops);
        let ghost mid = op_models(ops@);
        ops.push(WalkOp::Leave);
        assert(op_models(ops@) =~= mid.push(OpModel::Leave));
        assert(op_models(ops@) =~= op_models(old(ops)@) + (seq![function_op(*func_def)]
            + visit_nodes(func_def.body@, Scope::Function) + seq![OpModel::Leave]));
    }

    /// Plans a class: its creation with its docstring, the walk of its
    /// body in class scope, and the way out.
    pub fn visit_class_def(class_def: &StmtClassDef, ops: &mut Vec<WalkOp>)
        ensures
            op_models(final(ops)@) == op_models(old(ops)@) + visit_stmt(
                Stmt::ClassDef(*class_def),
                Scope::Class,
            ),
        decreases class_def, 0nat,
    {
        let doc = doc_string(&class_def.body);
        ops.push(
            WalkOp::Class { name: class_def.name.id.clone(), range: class_def.range, doc_string: doc },
        );
        assert(op_models(ops@) =~= op_models(old(ops)@).push(class_op(*class_def)));
        Self::visit_node(&class_def.body, Scope::Class, ops);
        let ghost mid = op_models(ops@);
        ops.push(WalkOp::Leave);
        assert(op_models(ops@) =~= mid.push(OpModel::Leave));
        assert(op_models(ops@) =~= op_models(old(ops)@) + (seq![class_op(*class_def)] + visit_nodes(
            class_def.body@,
            Scope::Class,
        ) + seq![OpModel::Leave]));
    }

    /// Plans every arm of an `if` statement, in the scope it stands in.
    pub fn visit_if(if_stmt: &StmtIf, scope: Scope, ops: &mut Vec<WalkOp>)
        ensures
            op_models(final(ops)@) == op_models(old(ops)@) + visit_stmt(Stmt::If(*if_stmt), scope),
        decreases if_stmt, 0nat,
    {
        Self::visit_node(&if_stmt.body, scope, ops);
        let ghost mid = op_models(ops@);
        let clauses = &if_stmt.elif_else_clauses;
        let mut i: usize = 0;
        assert(op_models(ops@) =~= mid + visit_clauses(clauses@.take(0), scope));
        while i < clauses.len()
            invariant
                i <= clauses.len(),
                clauses == &if_stmt.elif_else_clauses,
                op_models(ops@) == mid + visit_clauses(clauses@.take(i as int), scope),
            decreases clauses.len() - i,
        {
            let ghost before = op_models(ops@);
            Self::visit_node(&clauses[i].body, scope, ops);
            proof {
                let next = clauses@.take(i + 1);
                assert(next.drop_last() == clauses@.take(i as int));
                assert(next.last() == clauses@[i as int]);
                assert(op_models(ops@) =~= mid + visit_clauses(next, scope));
            }
            i += 1;
        }
        assert(clauses@.take(clauses.len() as int) == clauses@);
        assert(op_models(ops@) =~= op_models(old(ops)@) + (visit_nodes(if_stmt.body@, scope)
            + visit_clauses(if_stmt.elif_else_clauses@, scope)));
    }

    /// Plans a `for` statement: the names of its target, then its body and
    /// its `else` arm.
    pub fn visit_for(for_stmt: &StmtFor, scope: Scope, ops: &mut Vec<WalkOp>)
        ensures
            op_models(final(ops)@) == op_models(old(ops)@) + visit_stmt(Stmt::For(*for_stmt), scope),
        decreases for_stmt, 0nat,
    {
        let mut unpacked: Vec<Assign> = Vec::new();
        unpack_target(&for_stmt.target, None, None, &mut unpacked);
        assert(assign_models(unpacked@) =~= unpacked_target(for_stmt.target, None, None));
        let ghost targets = variable_ops(assign_models(unpacked@));
        let mut i: usize = 0;
        assert(op_models(ops@) =~= op_models(old(ops)@) + targets.take(0));
        while i < unpacked.len()
            invariant
                i <= unpacked.len(),
                targets == variable_ops(assign_models(unpacked@)),
                op_models(ops@) == op_models(old(ops)@) + targets.take(i as int),
            decreases unpacked.len() - i,
        {
            let ghost before = op_models(ops@);
            ops.push(
                WalkOp::Variable {
                    name: unpacked[i].target.clone(),
                    range: unpacked[i].range,
                    annotation: unpacked[i].annotation,
                },
            );
            assert(op_models(ops@) =~= before.push(targets[i as int]));
            assert(targets.take(i + 1) =~= targets.take(i as int).push(targets[i as int]));
            assert(op_models(ops@) =~= op_models(old(ops)@) + targets.take(i + 1));
            i += 1;
        }
        assert(targets.take(unpacked.len() as int) =~= targets);
        Self::visit_node(&for_stmt.body, scope, ops);
        Self::visit_node(&for_stmt.orelse, scope, ops);
        assert(op_models(ops@) =~= op_models(old(ops)@) + (targets + visit_nodes(
            for_stmt.body@,
            scope,
        ) + visit_nodes(for_stmt.orelse@, scope)));
    }

    /// Plans the body, the `else` arm and the `finally` arm of a `try`
    /// statement.
    pub fn visit_try(try_stmt: &StmtTry, scope: Scope, ops: &mut Vec<WalkOp>)
        ensures
            op_models(final(ops)@) == op_models(old(ops)@) + visit_stmt(Stmt::Try(*try_stmt), scope),
        decreases try_stmt, 0nat,
    {
        Self::visit_node(&try_stmt.body, scope, ops);
        Self::visit_node(&try_stmt.orelse, scope, ops);
        Self::visit_node(&try_stmt.finalbody, scope, ops);
        assert(op_models(ops@) =~= op_models(old(ops)@) + (visit_nodes(try_stmt.body@, scope)
            + visit_nodes(try_stmt.orelse@, scope) + visit_nodes(try_stmt.finalbody@, scope)));
    }

    /// Walks a sequence of statements met in scope `scope` and appends to
    /// `ops` the steps that they ask for.
    pub fn visit_node(nodes: &Vec<Stmt>, scope: Scope, ops: &mut Vec<WalkOp>)
        ensures
            op_models(final(ops)@) == op_models(old(ops)@) + visit_nodes(nodes@, scope),
        decreases nodes, 1nat,
    {
        let mut i: usize = 0;
        assert(op_models(ops@) =~= op_models(old(ops)@) + visit_nodes(nodes@.take(0), scope));
        while i < nodes.len()
            invariant
                i <= nodes.len(),
                op_models(ops@) == op_models(old(ops)@) + visit_nodes(nodes@.take(i as int), scope),
            decreases nodes.len() - i,
        {
            let ghost before = op_models(ops@);
            let stmt = &nodes[i];
            match stmt {
                Stmt::Import(import_stmt) => {
                    match scope {
                        Scope::Function => {},
                        _ => {
                            Self::create_local_symbols_from_import_stmt(
                                None,
                                &import_stmt.names,
                                None,
                                &import_stmt.range,
                                scope,
                                ops,
                            );
                        },
                    }
                },
                Stmt::ImportFrom(import_from_stmt) => {
                    match scope {
                        Scope::Function => {},
                        _ => {
                            Self::create_local_symbols_from_import_stmt(
                                import_from_stmt.module.as_ref(),
                                &import_from_stmt.names,
                                Some(import_from_stmt.level),
                                &import_from_stmt.range,
                                scope,
                                ops,
                            );
                        },
                    }
                },
                Stmt::AnnAssign(ann_assign_stmt) => {
                    match scope {
                        Scope::Function => {},
                        _ => {
                            Self::_visit_ann_assign(ann_assign_stmt, scope, ops);
                        },
                    }
                },
                Stmt::Assign(assign_stmt) => {
                    match scope {
                        Scope::Function => {},
                        _ => {
                            Self::_visit_assign(assign_stmt, scope, ops);
                        },
                    }
                },
                Stmt::FunctionDef(function_def_stmt) => {
                    Self::visit_func_def(function_def_stmt, ops);
                },
                Stmt::ClassDef(class_def_stmt) => {
                    Self::visit_class_def(class_def_stmt, ops);
                },
                Stmt::If(if_stmt) => {
                    Self::visit_if(if_stmt, scope, ops);
                },
                Stmt::Try(try_stmt) => {
                    Self::visit_try(try_stmt, scope, ops);
                },
                Stmt::For(for_stmt) => {
                    Self::visit_for(for_stmt, scope, ops);
                },
                _ => {},
            }
            proof {
                let next = nodes@.take(i + 1);
                assert(next.drop_last() == nodes@.take(i as int));
                assert(next.last() == *stmt);
                assert(op_models(ops@) =~= before + visit_stmt(*stmt, scope));
                assert(op_models(ops@) =~= op_models(old(ops)@) + visit_nodes(next, scope));
            }
            i += 1;
        }
        assert(nodes@.take(nodes.len() as int) == nodes@);
    }
}

} // verus!
