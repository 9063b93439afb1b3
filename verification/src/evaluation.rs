//! Statically known values of variables.
use vstd::prelude::*;
use ruff_text_size::TextRange;
use crate::ast::Expr;

verus! {

/// A non-owning reference from an evaluation to the symbol it came from.
/// `symbol` is the symbol's index in the graph; `None` is a reference that
/// was never set.
pub struct EvaluationSymbol {
    pub symbol: Option<usize>,
    /// Whether the value is an instance of the symbol rather than the symbol
    /// itself; `None` when unknown.
    pub instance: Option<bool>,
}

/// What is known of a value without running the program.
pub enum EvaluationValue {
    Any,
    Constant(Expr),
    List(Vec<Expr>),
    Tuple(Vec<Expr>),
    Dict,
}

pub struct Evaluation {
    pub symbol: EvaluationSymbol,
    pub value: Option<EvaluationValue>,
    pub range: Option<TextRange>,
}

/// The texts of the string literals among `elts`, in order.
pub open spec fn literal_names(elts: Seq<Expr>) -> Seq<Seq<char>>
    decreases elts.len(),
{
    if elts.len() == 0 {
        Seq::empty()
    } else {
        let rest = literal_names(elts.drop_last());
        match elts.last() {
            Expr::StringLiteral { value, .. } => rest.push(value@),
            _ => rest,
        }
    }
}

/// Every element of `elts` is a string literal.
pub open spec fn all_literals(elts: Seq<Expr>) -> bool {
    forall|i: int| 0 <= i < elts.len() ==> (#[trigger] elts[i]) is StringLiteral
}

/// The names that an export list declares.
pub open spec fn export_names(value: Option<EvaluationValue>) -> Seq<Seq<char>> {
    match value {
        Some(EvaluationValue::Constant(Expr::StringLiteral { value, .. })) => seq![value@],
        Some(EvaluationValue::List(elts)) => literal_names(elts@),
        Some(EvaluationValue::Tuple(elts)) => literal_names(elts@),
        _ => Seq::empty(),
    }
}

/// Whether an export list holds anything but string literals.
pub open spec fn export_parse_error(value: Option<EvaluationValue>) -> bool {
    match value {
        Some(EvaluationValue::Constant(Expr::StringLiteral { .. })) => false,
        Some(EvaluationValue::List(elts)) => !all_literals(elts@),
        Some(EvaluationValue::Tuple(elts)) => !all_literals(elts@),
        _ => true,
    }
}

/// The texts of a list of strings.
pub open spec fn texts(names: Seq<String>) -> Seq<Seq<char>> {
    names.map_values(|s: String| s@)
}

/// Collects the string literals of a list or tuple, and tells whether any
/// element was something else.
pub fn extract_literals(elts: &Vec<Expr>) -> (res: (Vec<String>, bool))
    ensures
        texts(res.0@) == literal_names(elts@),
        res.0@.len() == literal_names(elts@).len(),
        res.1 == !all_literals(elts@),
{
    let mut names: Vec<String> = Vec::new();
    let mut parse_error = false;
    let mut i: usize = 0;
    while i < elts.len()
        invariant
            i <= elts.len(),
            texts(names@) == literal_names(elts@.take(i as int)),
            parse_error == !all_literals(elts@.take(i as int)),
        decreases elts.len() - i,
    {
        proof {
            assert(elts@.take(i + 1).drop_last() == elts@.take(i as int));
            assert(all_literals(elts@.take(i + 1)) == (all_literals(elts@.take(i as int))
                && elts@[i as int] is StringLiteral)) by {
                if all_literals(elts@.take(i as int)) && elts@[i as int] is StringLiteral {
                    assert forall|j: int| 0 <= j < i + 1 implies (#[trigger] elts@.take(i + 1)[j])
                        is StringLiteral by {
                        if j < i {
                            assert(elts@.take(i as int)[j] is StringLiteral);
                        }
                    }
                }
                if all_literals(elts@.take(i + 1)) {
                    assert(elts@.take(i + 1)[i as int] is StringLiteral);
                    assert forall|j: int| 0 <= j < i implies (#[trigger] elts@.take(i as int)[j])
                        is StringLiteral by {
                        assert(elts@.take(i + 1)[j] is StringLiteral);
                    }
                }
            }
        }
        match &elts[i] {
            Expr::StringLiteral { value, .. } => {
                let ghost before = names@;
                names.push(value.clone());
                assert(texts(names@) == texts(before).push(value@));
            },
            _ => {
                parse_error = true;
            },
        }
        i += 1;
    }
    assert(elts@.take(elts.len() as int) == elts@);
    (names, parse_error)
}

/// A copy of a list of strings.
pub fn clone_texts(names: &Vec<String>) -> (copy: Vec<String>)
    ensures
        texts(copy@) == texts(names@),
{
    let mut copy: Vec<String> = Vec::new();
    let mut i: usize = 0;
    while i < names.len()
        invariant
            i <= names.len(),
            texts(copy@) == texts(names@).take(i as int),
        decreases names.len() - i,
    {
        let ghost before = texts(copy@);
        copy.push(names[i].clone());
        assert(texts(copy@) =~= before.push(names@[i as int]@));
        assert(texts(names@).take(i + 1) =~= texts(names@).take(i as int).push(names@[i as int]@));
        i += 1;
    }
    assert(texts(names@).take(names.len() as int) =~= texts(names@));
    copy
}

} // verus!
