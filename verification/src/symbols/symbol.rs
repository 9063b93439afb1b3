//! A symbol of any kind, and the one model that all kinds share.
use vstd::prelude::*;
use ruff_text_size::TextRange;
use crate::constants::{BuildProgress, SymType};
use crate::evaluation::{clone_texts, texts, Evaluation};
use crate::symbols::class_symbol::ClassSymbol;
use crate::symbols::file_symbol::{Dependency, FileSymbol, NotFoundModel};
use crate::symbols::function_symbol::{Argument, FunctionSymbol};
use crate::symbols::root_symbol::RootSymbol;
use crate::symbols::symbol_mgr::{table_wf, BindingModel, SectionRange, SymbolMgr};
use crate::symbols::variable_symbol::VariableSymbol;

verus! {

/// What a symbol is, whatever its kind. A kind that lacks a field shows the
/// value of `SymbolModel::blank` there.
pub struct SymbolModel {
    pub typ: SymType,
    pub name: Seq<char>,
    /// Index of the parent in the graph. Never owning.
    pub parent: Option<usize>,
    /// Index of the symbol itself in the graph.
    pub weak_self: Option<usize>,
    pub range: Option<TextRange>,
    /// The span of the annotation of an annotated variable.
    pub annotation: Option<TextRange>,
    pub is_external: bool,
    pub in_workspace: bool,
    pub status: BuildProgress,
    pub paths: Seq<Seq<char>>,
    /// Extension of the init file of a package.
    pub i_ext: Seq<char>,
    pub sections: Seq<SectionRange>,
    /// The owning links to the children, in the order in which they were made.
    pub bindings: Seq<BindingModel>,
    pub doc_string: Option<Seq<char>>,
    pub is_static: bool,
    pub is_property: bool,
    pub args: Seq<Argument>,
    pub is_import_variable: bool,
    pub is_parameter: bool,
    pub evaluations: Seq<Evaluation>,
    pub not_found_paths: Seq<NotFoundModel>,
    pub dependencies: Seq<Dependency>,
    pub dependents: Seq<Dependency>,
}

impl SymbolModel {
    /// A symbol of kind `typ` named `name` of which nothing else is known.
    pub open spec fn blank(typ: SymType, name: Seq<char>) -> SymbolModel {
        SymbolModel {
            typ,
            name,
            parent: None,
            weak_self: None,
            range: None,
            annotation: None,
            is_external: false,
            in_workspace: false,
            status: BuildProgress::spec_pending(),
            paths: Seq::empty(),
            i_ext: Seq::empty(),
            sections: Seq::empty(),
            bindings: Seq::empty(),
            doc_string: None,
            is_static: false,
            is_property: false,
            args: Seq::empty(),
            is_import_variable: false,
            is_parameter: false,
            evaluations: Seq::empty(),
            not_found_paths: Seq::empty(),
            dependencies: Seq::empty(),
            dependents: Seq::empty(),
        }
    }
}

pub enum Symbol {
    Root(RootSymbol),
    Namespace(RootSymbol),
    Package(FileSymbol),
    File(FileSymbol),
    Compiled(RootSymbol),
    Class(ClassSymbol),
    Function(FunctionSymbol),
    Variable(VariableSymbol),
}

impl View for Symbol {
    type V = SymbolModel;

    open spec fn view(&self) -> SymbolModel {
        match self {
            Symbol::Root(s) => s.model(SymType::Root),
            Symbol::Namespace(s) => s.model(SymType::Namespace),
            Symbol::Package(s) => s.model(SymType::Package),
            Symbol::File(s) => s.model(SymType::File),
            Symbol::Compiled(s) => s.model(SymType::Compiled),
            Symbol::Class(s) => s@,
            Symbol::Function(s) => s@,
            Symbol::Variable(s) => s@,
        }
    }
}

impl Symbol {
    /// The kind of the symbol.
    pub fn typ(&self) -> (typ: SymType)
        ensures
            typ == self@.typ,
    {
        match self {
            Symbol::Root(_) => SymType::Root,
            Symbol::Namespace(_) => SymType::Namespace,
            Symbol::Package(_) => SymType::Package,
            Symbol::File(_) => SymType::File,
            Symbol::Compiled(_) => SymType::Compiled,
            Symbol::Class(_) => SymType::Class,
            Symbol::Function(_) => SymType::Function,
            Symbol::Variable(_) => SymType::Variable,
        }
    }

    pub fn name(&self) -> (name: &String)
        ensures
            name@ == self@.name,
    {
        match self {
            Symbol::Root(s) => &s.name,
            Symbol::Namespace(s) => &s.name,
            Symbol::Package(s) => &s.name,
            Symbol::File(s) => &s.name,
            Symbol::Compiled(s) => &s.name,
            Symbol::Class(s) => &s.name,
            Symbol::Function(s) => &s.name,
            Symbol::Variable(s) => &s.name,
        }
    }

    /// The index of the parent, if the symbol has one.
    pub fn parent(&self) -> (parent: Option<usize>)
        ensures
            parent == self@.parent,
    {
        match self {
            Symbol::Root(s) => s.parent,
            Symbol::Namespace(s) => s.parent,
            Symbol::Package(s) => s.parent,
            Symbol::File(s) => s.parent,
            Symbol::Compiled(s) => s.parent,
            Symbol::Class(s) => s.parent,
            Symbol::Function(s) => s.parent,
            Symbol::Variable(s) => s.parent,
        }
    }

    /// Whether the symbol belongs to a file outside the user's workspace.
    pub fn is_external(&self) -> (external: bool)
        ensures
            external == self@.is_external,
    {
        match self {
            Symbol::Root(s) => s.is_external,
            Symbol::Namespace(s) => s.is_external,
            Symbol::Package(s) => s.is_external,
            Symbol::File(s) => s.is_external,
            Symbol::Compiled(s) => s.is_external,
            Symbol::Class(s) => s.is_external,
            Symbol::Function(s) => s.is_external,
            Symbol::Variable(s) => s.is_external,
        }
    }

    /// The span of the defining syntax node; symbols that stand for files
    /// and directories have none.
    pub fn range(&self) -> (range: Option<TextRange>)
        ensures
            range == self@.range,
    {
        match self {
            Symbol::Class(s) => Some(s.range),
            Symbol::Function(s) => Some(s.range),
            Symbol::Variable(s) => Some(s.range),
            _ => None,
        }
    }

    /// The status of every build phase. A variable is never built, so all
    /// its phases stay pending.
    pub fn build_progress(&self) -> (status: BuildProgress)
        ensures
            status == self@.status,
    {
        match self {
            Symbol::Root(s) => s.status,
            Symbol::Namespace(s) => s.status,
            Symbol::Package(s) => s.status,
            Symbol::File(s) => s.status,
            Symbol::Compiled(s) => s.status,
            Symbol::Class(s) => s.status,
            Symbol::Function(s) => s.status,
            Symbol::Variable(_) => BuildProgress::pending(),
        }
    }

    /// The child table, for a container.
    pub fn content(&self) -> (content: Option<&SymbolMgr>)
        ensures
            content.is_some() == self@.typ.is_container(),
            content.is_some() ==> content.unwrap().sections@ == self@.sections
                && content.unwrap().bindings() == self@.bindings,
    {
        match self {
            Symbol::Package(s) => Some(&s.content),
            Symbol::File(s) => Some(&s.content),
            Symbol::Class(s) => Some(&s.content),
            Symbol::Function(s) => Some(&s.content),
            _ => None,
        }
    }

    /// Binds `name` to the child `content` in section `section` of a
    /// container, after the bindings that are there.
    pub fn add_symbol(&mut self, name: String, content: usize, section: u32)
        requires
            old(self)@.typ.is_container(),
            table_wf(old(self)@.sections, old(self)@.bindings),
            section < old(self)@.sections.len(),
        ensures
            final(self)@ == (SymbolModel {
                bindings: old(self)@.bindings.push(
                    BindingModel { name: name@, section, symbol: content },
                ),
                ..old(self)@
            }),
    {
        match self {
            Symbol::Package(s) => {
                s.content.add_symbol(name, content, section);
            },
            Symbol::File(s) => {
                s.content.add_symbol(name, content, section);
            },
            Symbol::Class(s) => {
                s.content.add_symbol(name, content, section);
            },
            Symbol::Function(s) => {
                s.content.add_symbol(name, content, section);
            },
            _ => {},
        }
    }

    /// The evaluations of a variable or a function, the bases of a class;
    /// `None` for the kinds that have none.
    pub fn evaluations(&self) -> (evaluations: Option<&Vec<Evaluation>>)
        ensures
            match evaluations {
                Some(e) => e@ == self@.evaluations,
                None => self@.evaluations.len() == 0,
            },
    {
        match self {
            Symbol::Class(s) => Some(&s.bases),
            Symbol::Function(s) => Some(&s.evaluations),
            Symbol::Variable(s) => Some(&s.evaluations),
            _ => None,
        }
    }

    /// The paths of the symbol on disk: one for a file, any number for the
    /// root and for a namespace, none for what lives inside a file.
    pub fn paths(&self) -> (paths: Vec<String>)
        ensures
            texts(paths@) == self@.paths,
    {
        match self {
            Symbol::Root(s) => clone_texts(&s.paths),
            Symbol::Namespace(s) => clone_texts(&s.paths),
            Symbol::Compiled(s) => clone_texts(&s.paths),
            Symbol::Package(s) => {
                let mut paths: Vec<String> = Vec::new();
                paths.push(s.path.clone());
                assert(texts(paths@) =~= seq![s.path@]);
                paths
            },
            Symbol::File(s) => {
                let mut paths: Vec<String> = Vec::new();
                paths.push(s.path.clone());
                assert(texts(paths@) =~= seq![s.path@]);
                paths
            },
            _ => {
                let paths: Vec<String> = Vec::new();
                assert(texts(paths@) =~= Seq::<Seq<char>>::empty());
                paths
            },
        }
    }

    /// Opens a new section at `start` in a container.
    pub fn add_section(&mut self, start: u32) -> (section: SectionRange)
        requires
            old(self)@.typ.is_container(),
            table_wf(old(self)@.sections, old(self)@.bindings),
            old(self)@.sections.len() < u32::MAX,
            old(self)@.sections.last().start <= start,
        ensures
            section == (SectionRange { start, index: old(self)@.sections.len() as u32 }),
            final(self)@ == (SymbolModel {
                sections: old(self)@.sections.push(section),
                ..old(self)@
            }),
            table_wf(final(self)@.sections, final(self)@.bindings),
    {
        match self {
            Symbol::Package(s) => s.content.add_section(start),
            Symbol::File(s) => s.content.add_section(start),
            Symbol::Class(s) => s.content.add_section(start),
            Symbol::Function(s) => s.content.add_section(start),
            _ => SectionRange { start, index: 0 },
        }
    }

    /// Whether the symbol lies in the user's workspace.
    pub fn in_workspace(&self) -> (inside: bool)
        ensures
            inside == self@.in_workspace,
    {
        match self {
            Symbol::Root(s) => s.in_workspace,
            Symbol::Namespace(s) => s.in_workspace,
            Symbol::Package(s) => s.in_workspace,
            Symbol::File(s) => s.in_workspace,
            Symbol::Compiled(s) => s.in_workspace,
            _ => false,
        }
    }
}

} // verus!
