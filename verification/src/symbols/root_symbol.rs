//! Symbols without source of their own: the root, namespaces and compiled
//! modules.
use vstd::prelude::*;
use crate::constants::{BuildProgress, SymType};
use crate::evaluation::texts;
use crate::symbols::symbol::SymbolModel;

verus! {

pub struct RootSymbol {
    pub name: String,
    /// One path for most; many for a namespace.
    pub paths: Vec<String>,
    pub is_external: bool,
    pub in_workspace: bool,
    pub weak_self: Option<usize>,
    pub parent: Option<usize>,
    pub status: BuildProgress,
}

impl RootSymbol {
    /// What the symbol stands for, as a symbol of kind `typ`.
    pub open spec fn model(&self, typ: SymType) -> SymbolModel {
        SymbolModel {
            parent: self.parent,
            weak_self: self.weak_self,
            is_external: self.is_external,
            in_workspace: self.in_workspace,
            status: self.status,
            paths: texts(self.paths@),
            ..SymbolModel::blank(typ, self.name@)
        }
    }

    /// A symbol with no parent and no path.
    pub fn new(name: String, is_external: bool) -> (s: Self)
        ensures
            s.name == name,
            s.paths@.len() == 0,
            s.is_external == is_external,
            !s.in_workspace,
            s.weak_self.is_none(),
            s.parent.is_none(),
            s.status == BuildProgress::spec_pending(),
    {
        Self {
            name,
            paths: Vec::new(),
            is_external,
            in_workspace: false,
            weak_self: None,
            parent: None,
            status: BuildProgress::pending(),
        }
    }
}

} // verus!
