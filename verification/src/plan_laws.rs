//! What holds of every plan that the tree walk makes: scopes are entered
//! and left in pairs, and the steps that belong to the top of a file stand
//! outside every pair.
use vstd::prelude::*;
use ruff_text_size::TextRange;
use crate::arch_plan::{
    import_op,
    import_ops,
    variable_ops,
    visit_clauses,
    visit_nodes,
    visit_stmt,
    OpModel,
    Scope,
};
use crate::ast::{Alias, ElifElseClause, Stmt};

verus! {

/// By how much a step changes the number of entered scopes.
pub open spec fn depth_change(op: OpModel) -> int {
    match op {
        OpModel::Function { .. } => 1,
        OpModel::Class { .. } => 1,
        OpModel::Leave => -1,
        _ => 0,
    }
}

/// The number of scopes that are entered and not left after the first `k`
/// steps.
pub open spec fn depth_after(ops: Seq<OpModel>, k: int) -> int
    decreases k,
{
    if k <= 0 {
        0
    } else {
        depth_after(ops, k - 1) + depth_change(ops[k - 1])
    }
}

/// Steps that belong to the top of a file: the resolution of a wildcard
/// import and the evaluation of an export list.
pub open spec fn needs_file_scope(op: OpModel) -> bool {
    op is ImportAll || op is Exports
}

/// No step leaves a scope that was not entered, and every scope entered is
/// left.
#[verifier::opaque]
pub open spec fn well_nested(ops: Seq<OpModel>) -> bool {
    &&& forall|k: int| 0 <= k <= ops.len() ==> #[trigger] depth_after(ops, k) >= 0
    &&& depth_after(ops, ops.len() as int) == 0
}

/// Every step that belongs to the top of a file stands outside all scopes.
#[verifier::opaque]
pub open spec fn file_steps_at_top(ops: Seq<OpModel>) -> bool {
    forall|k: int|
        0 <= k < ops.len() && needs_file_scope(#[trigger] ops[k]) ==> depth_after(ops, k) == 0
}

/// No step belongs to the top of a file.
pub open spec fn no_file_steps(ops: Seq<OpModel>) -> bool {
    forall|k: int| 0 <= k < ops.len() ==> !needs_file_scope(#[trigger] ops[k])
}

/// No step enters or leaves a scope.
pub open spec fn flat(ops: Seq<OpModel>) -> bool {
    forall|k: int| 0 <= k < ops.len() ==> depth_change(#[trigger] ops[k]) == 0
}

/// The depth within a sequence depends on the steps before the place
/// alone.
pub proof fn lemma_depth_prefix(a: Seq<OpModel>, b: Seq<OpModel>, k: int)
    requires
        0 <= k <= a.len(),
    ensures
        depth_after(a + b, k) == depth_after(a, k),
    decreases k,
{
    if k > 0 {
        lemma_depth_prefix(a, b, k - 1);
        assert((a + b)[k - 1] == a[k - 1]);
    }
}

/// The depth in the second of two sequences adds to the depth at the end
/// of the first.
pub proof fn lemma_depth_suffix(a: Seq<OpModel>, b: Seq<OpModel>, k: int)
    requires
        0 <= k <= b.len(),
    ensures
        depth_after(a + b, a.len() + k) == depth_after(a, a.len() as int) + depth_after(b, k),
    decreases k,
{
    if k > 0 {
        lemma_depth_suffix(a, b, k - 1);
        assert((a + b)[a.len() + k - 1] == b[k - 1]);
    } else {
        lemma_depth_prefix(a, b, a.len() as int);
    }
}

/// Steps that enter and leave nothing keep the depth at zero.
pub proof fn lemma_flat_depth(ops: Seq<OpModel>, k: int)
    requires
        flat(ops),
        0 <= k <= ops.len(),
    ensures
        depth_after(ops, k) == 0,
    decreases k,
{
    if k > 0 {
        lemma_flat_depth(ops, k - 1);
        assert(depth_change(ops[k - 1]) == 0);
    }
}

/// Steps that enter and leave nothing are well nested, and what belongs to
/// the top of a file stands at the top.
pub proof fn lemma_flat(ops: Seq<OpModel>)
    requires
        flat(ops),
    ensures
        well_nested(ops),
        file_steps_at_top(ops),
{
    reveal(well_nested);
    reveal(file_steps_at_top);
    assert forall|k: int| 0 <= k <= ops.len() implies #[trigger] depth_after(ops, k) == 0 by {
        lemma_flat_depth(ops, k);
    }
}

/// Two well-nested sequences, one after the other, are well nested; and
/// where in both the steps for the top of a file stand at the top, they do
/// so in the whole.
pub proof fn lemma_concat(a: Seq<OpModel>, b: Seq<OpModel>)
    requires
        well_nested(a),
        well_nested(b),
    ensures
        well_nested(a + b),
        file_steps_at_top(a) && file_steps_at_top(b) ==> file_steps_at_top(a + b),
        no_file_steps(a) && no_file_steps(b) ==> no_file_steps(a + b),
{
    reveal(well_nested);
    reveal(file_steps_at_top);
    let c = a + b;
    assert forall|k: int| 0 <= k <= c.len() implies #[trigger] depth_after(c, k) >= 0 by {
        if k <= a.len() {
            lemma_depth_prefix(a, b, k);
            assert(depth_after(a, k) >= 0);
        } else {
            lemma_depth_suffix(a, b, k - a.len());
            assert(depth_after(b, k - a.len()) >= 0);
        }
    }
    lemma_depth_suffix(a, b, b.len() as int);
    if file_steps_at_top(a) && file_steps_at_top(b) {
        assert forall|k: int| 0 <= k < c.len() && needs_file_scope(#[trigger] c[k]) implies depth_after(
            c,
            k,
        ) == 0 by {
            if k < a.len() {
                lemma_depth_prefix(a, b, k);
                assert(c[k] == a[k]);
            } else {
                lemma_depth_suffix(a, b, k - a.len());
                assert(c[k] == b[k - a.len()]);
            }
        }
    }
    if no_file_steps(a) && no_file_steps(b) {
        assert forall|k: int| 0 <= k < c.len() implies !needs_file_scope(#[trigger] c[k]) by {
            if k < a.len() {
                assert(c[k] == a[k]);
            } else {
                assert(c[k] == b[k - a.len()]);
            }
        }
    }
}

/// A well-nested body between the step that enters a scope and the step
/// that leaves it is well nested; and when the body holds no step for the
/// top of a file, neither does the whole.
pub proof fn lemma_wrap(open: OpModel, body: Seq<OpModel>)
    requires
        open is Function || open is Class,
        well_nested(body),
        no_file_steps(body),
    ensures
        well_nested(seq![open] + body + seq![OpModel::Leave]),
        no_file_steps(seq![open] + body + seq![OpModel::Leave]),
        file_steps_at_top(seq![open] + body + seq![OpModel::Leave]),
{
    reveal(well_nested);
    reveal(file_steps_at_top);
    let head = seq![open];
    let tail = seq![OpModel::Leave];
    let inner = head + body;
    let all = inner + tail;
    assert(depth_after(head, 1) == depth_after(head, 0) + depth_change(head[0]));
    assert(depth_after(tail, 1) == depth_after(tail, 0) + depth_change(tail[0]));
    assert forall|k: int| 0 <= k <= all.len() implies #[trigger] depth_after(all, k) >= 0 by {
        if k <= inner.len() {
            lemma_depth_prefix(inner, tail, k);
            if k <= 1 {
                lemma_depth_prefix(head, body, k);
            } else {
                lemma_depth_suffix(head, body, k - 1);
                assert(depth_after(body, k - 1) >= 0);
            }
        } else {
            lemma_depth_suffix(inner, tail, 1);
            lemma_depth_suffix(head, body, body.len() as int);
        }
    }
    lemma_depth_suffix(inner, tail, 1);
    lemma_depth_suffix(head, body, body.len() as int);
    assert forall|k: int| 0 <= k < all.len() implies !needs_file_scope(#[trigger] all[k]) by {
        if k == 0 {
            assert(all[k] == open);
        } else if k <= body.len() {
            assert(all[k] == body[k - 1]);
        } else {
            assert(all[k] == OpModel::Leave);
        }
    }
}

/// The steps of an import statement enter and leave nothing, and away from
/// the top of a file none of them resolves a wildcard import.
pub proof fn lemma_import_ops(
    names: Seq<Alias>,
    module: Option<Seq<char>>,
    level: Option<u32>,
    range: TextRange,
    scope: Scope,
)
    ensures
        flat(import_ops(names, module, level, range, scope)),
        scope != Scope::File ==> no_file_steps(import_ops(names, module, level, range, scope)),
    decreases names.len(),
{
    if names.len() > 0 {
        lemma_import_ops(names.drop_last(), module, level, range, scope);
        let rest = import_ops(names.drop_last(), module, level, range, scope);
        let last = import_op(names.last(), module, level, range, scope);
        let all = import_ops(names, module, level, range, scope);
        assert forall|k: int| 0 <= k < all.len() implies depth_change(#[trigger] all[k]) == 0 by {
            if k < rest.len() {
                assert(all[k] == rest[k]);
            } else {
                assert(all[k] == last[k - rest.len()]);
            }
        }
        if scope != Scope::File {
            assert forall|k: int| 0 <= k < all.len() implies !needs_file_scope(#[trigger] all[k]) by {
                if k < rest.len() {
                    assert(all[k] == rest[k]);
                } else {
                    assert(all[k] == last[k - rest.len()]);
                }
            }
        }
    }
}

/// The plan of a statement is well nested, its steps for the top of a file
/// stand outside all scopes, and away from the top of a file it has none.
pub proof fn lemma_visit_stmt(stmt: Stmt, scope: Scope)
    ensures
        well_nested(visit_stmt(stmt, scope)),
        file_steps_at_top(visit_stmt(stmt, scope)),
        scope != Scope::File ==> no_file_steps(visit_stmt(stmt, scope)),
    decreases stmt, 0nat,
{
    let empty = Seq::<OpModel>::empty();
    assert(flat(empty));
    lemma_flat(empty);
    match stmt {
        Stmt::Import(s) => {
            lemma_import_ops(s.names@, None, None, s.range, scope);
            lemma_flat(import_ops(s.names@, None, None, s.range, scope));
        },
        Stmt::ImportFrom(s) => {
            let module = crate::arch_plan::opt_id(s.module);
            lemma_import_ops(s.names@, module, Some(s.level), s.range, scope);
            lemma_flat(import_ops(s.names@, module, Some(s.level), s.range, scope));
        },
        Stmt::AnnAssign(s) => {
            if scope != Scope::Function {
                let ops = visit_stmt(stmt, scope);
                assert(flat(ops));
                lemma_flat(ops);
            }
        },
        Stmt::Assign(s) => {
            if scope != Scope::Function {
                let ops = visit_stmt(stmt, scope);
                assert(flat(ops));
                lemma_flat(ops);
            }
        },
        Stmt::FunctionDef(def) => {
            lemma_visit_nodes(def.body@, Scope::Function);
            lemma_wrap(crate::arch_plan::function_op(def), visit_nodes(def.body@, Scope::Function));
        },
        Stmt::ClassDef(def) => {
            lemma_visit_nodes(def.body@, Scope::Class);
            lemma_wrap(crate::arch_plan::class_op(def), visit_nodes(def.body@, Scope::Class));
        },
        Stmt::If(s) => {
            lemma_visit_nodes(s.body@, scope);
            lemma_visit_clauses(s.elif_else_clauses@, scope);
            lemma_concat(visit_nodes(s.body@, scope), visit_clauses(s.elif_else_clauses@, scope));
        },
        Stmt::Try(s) => {
            lemma_visit_nodes(s.body@, scope);
            lemma_visit_nodes(s.orelse@, scope);
            lemma_visit_nodes(s.finalbody@, scope);
            lemma_concat(visit_nodes(s.body@, scope), visit_nodes(s.orelse@, scope));
            lemma_concat(
                visit_nodes(s.body@, scope) + visit_nodes(s.orelse@, scope),
                visit_nodes(s.finalbody@, scope),
            );
        },
        Stmt::For(s) => {
            let targets = variable_ops(crate::python_utils::unpacked_target(s.target, None, None));
            assert(flat(targets));
            lemma_flat(targets);
            lemma_visit_nodes(s.body@, scope);
            lemma_visit_nodes(s.orelse@, scope);
            lemma_concat(targets, visit_nodes(s.body@, scope));
            lemma_concat(targets + visit_nodes(s.body@, scope), visit_nodes(s.orelse@, scope));
        },
        _ => {},
    }
}

/// The plan of a sequence of statements is well nested, its steps for the
/// top of a file stand outside all scopes, and away from the top of a file
/// it has none.
pub proof fn lemma_visit_nodes(stmts: Seq<Stmt>, scope: Scope)
    ensures
        well_nested(visit_nodes(stmts, scope)),
        file_steps_at_top(visit_nodes(stmts, scope)),
        scope != Scope::File ==> no_file_steps(visit_nodes(stmts, scope)),
    decreases stmts, 1nat,
{
    if stmts.len() == 0 {
        let empty = Seq::<OpModel>::empty();
        assert(flat(empty));
        lemma_flat(empty);
    } else {
        lemma_visit_nodes(stmts.drop_last(), scope);
        lemma_visit_stmt(stmts.last(), scope);
        lemma_concat(visit_nodes(stmts.drop_last(), scope), visit_stmt(stmts.last(), scope));
    }
}

/// The plan of the arms of an `if` is well nested, its steps for the top
/// of a file stand outside all scopes, and away from the top of a file it
/// has none.
pub proof fn lemma_visit_clauses(clauses: Seq<ElifElseClause>, scope: Scope)
    ensures
        well_nested(visit_clauses(clauses, scope)),
        file_steps_at_top(visit_clauses(clauses, scope)),
        scope != Scope::File ==> no_file_steps(visit_clauses(clauses, scope)),
    decreases clauses, 1nat,
{
    if clauses.len() == 0 {
        let empty = Seq::<OpModel>::empty();
        assert(flat(empty));
        lemma_flat(empty);
    } else {
        lemma_visit_clauses(clauses.drop_last(), scope);
        lemma_visit_nodes(clauses.last().body@, scope);
        lemma_concat(visit_clauses(clauses.drop_last(), scope), visit_nodes(clauses.last().body@, scope));
    }
}

} // verus!
