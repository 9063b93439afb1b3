//! Helpers on syntax: the names that an assignment binds, and the local
//! name of an import.
use vstd::prelude::*;
use ruff_text_size::TextRange;
use crate::ast::Expr;

verus! {

/// One name that an assignment binds.
pub struct Assign {
    /// The bound name.
    pub target: String,
    /// The span of the name in the target expression.
    pub range: TextRange,
    /// The span of the annotation, when the name itself is annotated.
    pub annotation: Option<TextRange>,
    /// The span of the assigned expression, when the name itself is the
    /// target. A name inside a tuple, a list or a star has none.
    pub value: Option<TextRange>,
}

/// What an `Assign` stands for.
pub struct AssignModel {
    pub target: Seq<char>,
    pub range: TextRange,
    pub annotation: Option<TextRange>,
    pub value: Option<TextRange>,
}

impl View for Assign {
    type V = AssignModel;

    open spec fn view(&self) -> AssignModel {
        AssignModel {
            target: self.target@,
            range: self.range,
            annotation: self.annotation,
            value: self.value,
        }
    }
}

pub open spec fn assign_models(assigns: Seq<Assign>) -> Seq<AssignModel> {
    assigns.map_values(|a: Assign| a@)
}

/// The names that target `target` binds, left to right. A name binds
/// itself; a tuple or a list binds what its elements bind; a starred target
/// binds what its operand binds; anything else (an attribute, a subscript)
/// binds nothing.
pub open spec fn unpacked_target(
    target: Expr,
    annotation: Option<TextRange>,
    value: Option<TextRange>,
) -> Seq<AssignModel>
    decreases target, 0nat,
{
    match target {
        Expr::Name { id, range } => seq![AssignModel { target: id@, range, annotation, value }],
        Expr::Tuple { elts, .. } => unpacked_targets(elts@, None, None),
        Expr::List { elts, .. } => unpacked_targets(elts@, None, None),
        Expr::Starred { value: inner, .. } => unpacked_target(*inner, None, None),
        _ => Seq::empty(),
    }
}

/// The names that the targets bind, in the order of the targets.
pub open spec fn unpacked_targets(
    targets: Seq<Expr>,
    annotation: Option<TextRange>,
    value: Option<TextRange>,
) -> Seq<AssignModel>
    decreases targets, 1nat,
{
    if targets.len() == 0 {
        Seq::empty()
    } else {
        unpacked_targets(targets.drop_last(), annotation, value) + unpacked_target(
            targets.last(),
            annotation,
            value,
        )
    }
}

/// Appends to `out` the names that `target` binds.
pub fn unpack_target(
    target: &Expr,
    annotation: Option<TextRange>,
    value: Option<TextRange>,
    out: &mut Vec<Assign>,
)
    ensures
        assign_models(final(out)@) == assign_models(old(out)@) + unpacked_target(
            *target,
            annotation,
            value,
        ),
    decreases target, 0nat,
{
    match target {
        Expr::Name { id, range } => {
            out.push(Assign { target: id.clone(), range: *range, annotation, value });
            assert(assign_models(out@) =~= assign_models(old(out)@) + unpacked_target(
                *target,
                annotation,
                value,
            ));
        },
        Expr::Tuple { elts, .. } => {
            unpack_targets(elts, None, None, out);
        },
        Expr::List { elts, .. } => {
            unpack_targets(elts, None, None, out);
        },
        Expr::Starred { value: inner, .. } => {
            unpack_target(inner, None, None, out);
        },
        _ => {
            assert(assign_models(out@) =~= assign_models(old(out)@) + unpacked_target(
                *target,
                annotation,
                value,
            ));
        },
    }
}

/// Appends to `out` the names that `targets` bind.
pub fn unpack_targets(
    targets: &Vec<Expr>,
    annotation: Option<TextRange>,
    value: Option<TextRange>,
    out: &mut Vec<Assign>,
)
    ensures
        assign_models(final(out)@) == assign_models(old(out)@) + unpacked_targets(
            targets@,
            annotation,
            value,
        ),
    decreases targets, 1nat,
{
    let mut i: usize = 0;
    assert(assign_models(out@) =~= assign_models(old(out)@) + unpacked_targets(
        targets@.take(0),
        annotation,
        value,
    ));
    while i < targets.len()
        invariant
            i <= targets.len(),
            assign_models(out@) == assign_models(old(out)@) + unpacked_targets(
                targets@.take(i as int),
                annotation,
                value,
            ),
        decreases targets.len() - i,
    {
        let ghost before = assign_models(out@);
        unpack_target(&targets[i], annotation, value, out);
        proof {
            let next = targets@.take(i + 1);
            assert(next.drop_last() == targets@.take(i as int));
            assert(next.last() == targets@[i as int]);
            assert(assign_models(out@) =~= assign_models(old(out)@) + unpacked_targets(
                next,
                annotation,
                value,
            ));
        }
        i += 1;
    }
    assert(targets@.take(targets.len() as int) == targets@);
}

/// The names that an assignment to `targets` binds, with the spans of the
/// annotation and of the assigned expression where the statement has them.
pub fn unpack_assign(targets: &Vec<Expr>, annotation: Option<&Expr>, value: Option<&Expr>) -> (assigns:
    Vec<Assign>)
    ensures
        assign_models(assigns@) == unpacked_targets(
            targets@,
            opt_range(annotation),
            opt_range(value),
        ),
{
    let a = match annotation {
        Some(e) => Some(e.range()),
        None => None,
    };
    let v = match value {
        Some(e) => Some(e.range()),
        None => None,
    };
    let mut assigns: Vec<Assign> = Vec::new();
    unpack_targets(targets, a, v, &mut assigns);
    assert(assign_models(assigns@) =~= unpacked_targets(targets@, a, v));
    assigns
}

/// The span of an optional expression.
pub open spec fn opt_range(e: Option<&Expr>) -> Option<TextRange> {
    match e {
        Some(e) => Some(e.spec_range()),
        None => None,
    }
}

} // verus!

verus! {

/// The number of characters before the first dot of `name`; its length
/// when it has no dot.
pub open spec fn segment_end(name: Seq<char>) -> int
    decreases name.len(),
{
    if name.len() == 0 || name[0] == '.' {
        0
    } else {
        1 + segment_end(name.drop_first())
    }
}

/// The first segment of a dotted name: `a` for `a.b.c`.
pub open spec fn first_segment(name: Seq<char>) -> Seq<char> {
    name.take(segment_end(name))
}

/// The first segment is the longest prefix without a dot.
pub proof fn lemma_first_segment(name: Seq<char>)
    ensures
        0 <= segment_end(name) <= name.len(),
        forall|i: int| 0 <= i < segment_end(name) ==> name[i] != '.',
        segment_end(name) < name.len() ==> name[segment_end(name)] == '.',
    decreases name.len(),
{
    if name.len() == 0 || name[0] == '.' {
    } else {
        let rest = name.drop_first();
        lemma_first_segment(rest);
        assert forall|i: int| 0 <= i < segment_end(name) implies name[i] != '.' by {
            if i > 0 {
                assert(rest[i - 1] == name[i]);
            }
        }
        if segment_end(name) < name.len() {
            assert(rest[segment_end(rest)] == name[segment_end(name)]);
        }
    }
}

/// A prefix without a dot that ends at a dot, or at the end of the name,
/// is the first segment.
pub proof fn lemma_first_segment_unique(name: Seq<char>, k: int)
    requires
        0 <= k <= name.len(),
        forall|i: int| 0 <= i < k ==> name[i] != '.',
        k < name.len() ==> name[k] == '.',
    ensures
        segment_end(name) == k,
{
    lemma_first_segment(name);
    let e = segment_end(name);
    if e < k {
        assert(name[e] == '.');
    }
    if k < e {
        assert(name[k] != '.');
    }
}

/// The name under which `import a.b.c` makes the import visible: the part
/// of the dotted name before its first dot.
pub fn first_dotted_segment(name: &String) -> (segment: String)
    ensures
        segment@ == first_segment(name@),
{
    let s = name.as_str();
    let n = s.unicode_len();
    let mut k: usize = 0;
    while k < n && s.get_char(k) != '.'
        invariant
            k <= n,
            n == s@.len(),
            forall|i: int| 0 <= i < k ==> s@[i] != '.',
        decreases n - k,
    {
        k += 1;
    }
    proof {
        lemma_first_segment_unique(s@, k as int);
    }
    String::from_str(s.substring_char(0, k))
}

} // verus!
