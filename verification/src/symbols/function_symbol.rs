//! Functions and their parameters.
use vstd::prelude::*;
use ruff_text_size::TextRange;
use crate::constants::{BuildProgress, SymType};
use crate::evaluation::Evaluation;
use crate::symbols::symbol::SymbolModel;
use crate::symbols::symbol_mgr::{BindingModel, SymbolMgr};
use crate::symbols::variable_symbol::opt_text;

verus! {

/// One entry of a function's parameter list.
pub struct Argument {
    /// Index of the parameter's variable, always a child of the function.
    /// Never owning.
    pub symbol: usize,
    pub default_value: Option<Evaluation>,
    pub is_args: bool,
    pub is_kwargs: bool,
}

pub struct FunctionSymbol {
    pub name: String,
    pub is_external: bool,
    pub is_static: bool,
    pub is_property: bool,
    pub doc_string: Option<String>,
    pub evaluations: Vec<Evaluation>,
    pub weak_self: Option<usize>,
    pub parent: Option<usize>,
    pub status: BuildProgress,
    pub range: TextRange,
    pub args: Vec<Argument>,
    pub content: SymbolMgr,
}

/// Some parameter is neither `*args` nor `**kwargs`.
pub open spec fn has_plain_argument(args: Seq<Argument>) -> bool {
    exists|i: int| 0 <= i < args.len() && !(#[trigger] args[i]).is_kwargs && !args[i].is_args
}

impl View for FunctionSymbol {
    type V = SymbolModel;

    open spec fn view(&self) -> SymbolModel {
        SymbolModel {
            parent: self.parent,
            weak_self: self.weak_self,
            range: Some(self.range),
            is_external: self.is_external,
            status: self.status,
            sections: self.content.sections@,
            bindings: self.content.bindings(),
            doc_string: opt_text(self.doc_string),
            is_static: self.is_static,
            is_property: self.is_property,
            args: self.args@,
            evaluations: self.evaluations@,
            ..SymbolModel::blank(SymType::Function, self.name@)
        }
    }
}

impl FunctionSymbol {
    /// A function with no parent, no parameter and no child, whose table
    /// holds one section.
    pub fn new(name: String, range: TextRange, is_external: bool) -> (f: Self)
        ensures
            f.content.wf(),
            f@ == (SymbolModel {
                range: Some(range),
                is_external,
                sections: f.content.sections@,
                ..SymbolModel::blank(SymType::Function, name@)
            }),
            f.content.sections@.len() == 1,
            f.content.sections@[0].start == 0,
    {
        Self {
            name,
            is_external,
            weak_self: None,
            parent: None,
            range,
            is_static: false,
            is_property: false,
            doc_string: None,
            evaluations: Vec::new(),
            status: BuildProgress::pending(),
            content: SymbolMgr::new(),
            args: Vec::new(),
        }
    }

    /// Binds `name` to the child `content` in section `section`, after the
    /// bindings that are there.
    pub fn add_symbol(&mut self, name: String, content: usize, section: u32)
        requires
            old(self).content.wf(),
            section < old(self).content.sections.len(),
        ensures
            final(self).content.wf(),
            final(self)@ == (SymbolModel {
                bindings: old(self)@.bindings.push(
                    BindingModel { name: name@, section, symbol: content },
                ),
                ..old(self)@
            }),
    {
        self.content.add_symbol(name, content, section);
    }

    /// Whether the function can be a method: it has a parameter that can
    /// take the receiver.
    pub fn can_be_in_class(&self) -> (can: bool)
        ensures
            can == has_plain_argument(self.args@),
    {
        let mut i: usize = 0;
        while i < self.args.len()
            invariant
                i <= self.args.len(),
                forall|j: int|
                    0 <= j < i ==> (#[trigger] self.args[j]).is_kwargs || self.args[j].is_args,
            decreases self.args.len() - i,
        {
            if !self.args[i].is_kwargs && !self.args[i].is_args {
                return true;
            }
            i += 1;
        }
        false
    }
}

} // verus!
