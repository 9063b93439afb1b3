//! Variables: assignment targets, import bindings and parameters.
use vstd::prelude::*;
use ruff_text_size::TextRange;
use crate::constants::SymType;
use crate::evaluation::Evaluation;
use crate::symbols::symbol::SymbolModel;

verus! {

pub struct VariableSymbol {
    pub name: String,
    pub is_external: bool,
    pub doc_string: Option<String>,
    pub weak_self: Option<usize>,
    pub parent: Option<usize>,
    pub is_import_variable: bool,
    pub is_parameter: bool,
    /// Several when the binding is ambiguous.
    pub evaluations: Vec<Evaluation>,
    pub range: TextRange,
    /// The span of the annotation, when the variable was bound with one.
    pub annotation: Option<TextRange>,
}

/// The text of an optional string.
pub open spec fn opt_text(s: Option<String>) -> Option<Seq<char>> {
    match s {
        Some(s) => Some(s@),
        None => None,
    }
}

/// Every evaluation is known to yield the symbol itself and not an instance
/// of it.
pub open spec fn none_is_instance(evaluations: Seq<Evaluation>) -> bool {
    forall|i: int|
        0 <= i < evaluations.len() ==> (#[trigger] evaluations[i]).symbol.instance == Some(false)
}

impl View for VariableSymbol {
    type V = SymbolModel;

    open spec fn view(&self) -> SymbolModel {
        SymbolModel {
            parent: self.parent,
            weak_self: self.weak_self,
            range: Some(self.range),
            annotation: self.annotation,
            is_external: self.is_external,
            doc_string: opt_text(self.doc_string),
            is_import_variable: self.is_import_variable,
            is_parameter: self.is_parameter,
            evaluations: self.evaluations@,
            ..SymbolModel::blank(SymType::Variable, self.name@)
        }
    }
}

impl VariableSymbol {
    /// A variable with no parent, no evaluation and no flag set.
    pub fn new(name: String, range: TextRange, is_external: bool) -> (v: Self)
        ensures
            v@ == (SymbolModel {
                range: Some(range),
                is_external,
                ..SymbolModel::blank(SymType::Variable, name@)
            }),
    {
        Self {
            name,
            is_external,
            doc_string: None,
            weak_self: None,
            parent: None,
            range,
            is_import_variable: false,
            is_parameter: false,
            evaluations: Vec::new(),
            annotation: None,
        }
    }

    /// Whether the variable names a type: it has at least one evaluation,
    /// none of them is an instance, and it was not bound by an import.
    pub fn is_type_alias(&self) -> (alias: bool)
        ensures
            alias == (self.evaluations.len() >= 1 && none_is_instance(self.evaluations@)
                && !self.is_import_variable),
    {
        if self.evaluations.len() < 1 || self.is_import_variable {
            return false;
        }
        let mut i: usize = 0;
        while i < self.evaluations.len()
            invariant
                i <= self.evaluations.len(),
                forall|j: int|
                    0 <= j < i ==> (#[trigger] self.evaluations[j]).symbol.instance == Some(false),
            decreases self.evaluations.len() - i,
        {
            match self.evaluations[i].symbol.instance {
                Some(false) => {},
                _ => {
                    return false;
                },
            }
            i += 1;
        }
        true
    }
}

} // verus!
