//! Modules and packages: the symbols that stand for one source file.
use vstd::prelude::*;
use crate::constants::{BuildProgress, BuildSteps, SymType};
use crate::evaluation::texts;
use crate::symbols::symbol::SymbolModel;
use crate::symbols::symbol_mgr::{SectionRange, SymbolMgr};

verus! {

/// A labelled edge between two files: phase `step` of the file that holds
/// the edge goes with phase `dep_step` of file `target`.
#[derive(Clone, Copy, Debug, PartialEq, Eq, Structural)]
pub struct Dependency {
    pub target: usize,
    pub step: BuildSteps,
    pub dep_step: BuildSteps,
}

/// A path that an import of the file could not be resolved to, with the
/// phase that looked for it.
pub struct NotFoundPath {
    pub step: BuildSteps,
    pub path: Vec<String>,
}

pub struct NotFoundModel {
    pub step: BuildSteps,
    pub path: Seq<Seq<char>>,
}

impl View for NotFoundPath {
    type V = NotFoundModel;

    open spec fn view(&self) -> NotFoundModel {
        NotFoundModel { step: self.step, path: texts(self.path@) }
    }
}

pub open spec fn not_found_models(paths: Seq<NotFoundPath>) -> Seq<NotFoundModel> {
    paths.map_values(|p: NotFoundPath| p@)
}

pub struct FileSymbol {
    pub name: String,
    pub path: String,
    /// Extension of the init file, for a package.
    pub i_ext: String,
    pub is_external: bool,
    pub in_workspace: bool,
    pub weak_self: Option<usize>,
    pub parent: Option<usize>,
    pub status: BuildProgress,
    pub not_found_paths: Vec<NotFoundPath>,
    /// The files that this file reads.
    pub dependencies: Vec<Dependency>,
    /// The files that read this file.
    pub dependents: Vec<Dependency>,
    pub content: SymbolMgr,
}

impl FileSymbol {
    /// What the symbol stands for, as a package or as a module.
    pub open spec fn model(&self, typ: SymType) -> SymbolModel {
        SymbolModel {
            parent: self.parent,
            weak_self: self.weak_self,
            is_external: self.is_external,
            in_workspace: self.in_workspace,
            status: self.status,
            paths: seq![self.path@],
            i_ext: self.i_ext@,
            sections: self.content.sections@,
            bindings: self.content.bindings(),
            not_found_paths: not_found_models(self.not_found_paths@),
            dependencies: self.dependencies@,
            dependents: self.dependents@,
            ..SymbolModel::blank(typ, self.name@)
        }
    }

    /// A file symbol with no parent and no child, whose table holds one
    /// section.
    pub fn new(name: String, path: String, is_external: bool) -> (f: Self)
        ensures
            f.content.wf(),
            f.name == name,
            f.path == path,
            f.i_ext@ == Seq::<char>::empty(),
            f.is_external == is_external,
            !f.in_workspace,
            f.weak_self.is_none(),
            f.parent.is_none(),
            f.status == BuildProgress::spec_pending(),
            f.not_found_paths@.len() == 0,
            f.dependencies@.len() == 0,
            f.dependents@.len() == 0,
            f.content.sections@ == seq![SectionRange { start: 0, index: 0 }],
            f.content.bindings().len() == 0,
    {
        Self {
            name,
            path,
            i_ext: String::new(),
            is_external,
            in_workspace: false,
            weak_self: None,
            parent: None,
            status: BuildProgress::pending(),
            not_found_paths: Vec::new(),
            dependencies: Vec::new(),
            dependents: Vec::new(),
            content: SymbolMgr::new(),
        }
    }
}

} // verus!
