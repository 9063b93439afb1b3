//! Classes.
use vstd::prelude::*;
use ruff_text_size::TextRange;
use crate::constants::{BuildProgress, SymType};
use crate::evaluation::Evaluation;
use crate::symbols::symbol::SymbolModel;
use crate::symbols::symbol_mgr::SymbolMgr;
use crate::symbols::variable_symbol::opt_text;

verus! {

pub struct ClassSymbol {
    pub name: String,
    pub is_external: bool,
    pub doc_string: Option<String>,
    /// The base classes; a later phase fills them in.
    pub bases: Vec<Evaluation>,
    pub weak_self: Option<usize>,
    pub parent: Option<usize>,
    pub status: BuildProgress,
    pub range: TextRange,
    pub content: SymbolMgr,
}

impl View for ClassSymbol {
    type V = SymbolModel;

    open spec fn view(&self) -> SymbolModel {
        SymbolModel {
            parent: self.parent,
            weak_self: self.weak_self,
            range: Some(self.range),
            is_external: self.is_external,
            status: self.status,
            sections: self.content.sections@,
            bindings: self.content.bindings(),
            doc_string: opt_text(self.doc_string),
            evaluations: self.bases@,
            ..SymbolModel::blank(SymType::Class, self.name@)
        }
    }
}

impl ClassSymbol {
    /// A class with no parent, no base and no child, whose table holds one
    /// section.
    pub fn new(name: String, range: TextRange, is_external: bool) -> (c: Self)
        ensures
            c.content.wf(),
            c@ == (SymbolModel {
                range: Some(range),
                is_external,
                sections: c.content.sections@,
                ..SymbolModel::blank(SymType::Class, name@)
            }),
            c.content.sections@.len() == 1,
            c.content.sections@[0].start == 0,
    {
        Self {
            name,
            is_external,
            doc_string: None,
            bases: Vec::new(),
            weak_self: None,
            parent: None,
            status: BuildProgress::pending(),
            range,
            content: SymbolMgr::new(),
        }
    }
}

} // verus!
