//! The symbol graph: an arena that owns every symbol. Symbols refer to one
//! another by index; only the bindings of a container own.
use vstd::prelude::*;
use ruff_text_size::TextRange;
use crate::constants::{BuildStatus, BuildSteps, SymType};
use crate::evaluation::{texts, Evaluation, EvaluationSymbol};
use crate::symbols::class_symbol::ClassSymbol;
use crate::symbols::file_symbol::{
    not_found_models,
    Dependency,
    FileSymbol,
    NotFoundModel,
    NotFoundPath,
};
use crate::symbols::function_symbol::{Argument, FunctionSymbol};
use crate::symbols::root_symbol::RootSymbol;
use crate::symbols::symbol::{Symbol, SymbolModel};
use crate::symbols::symbol_mgr::{
    binding_set,
    binds,
    distinct_names,
    lemma_binding_set_members,
    lemma_section_at,
    section_at,
    table_wf,
    BindingModel,
    SectionRange,
};
use crate::symbols::variable_symbol::{opt_text, VariableSymbol};
use crate::text::{range_start, start_offset};

verus! {

/// Binding `b` of symbol `i` leads to a later symbol that names `i` as its
/// parent and bears the bound name.
pub open spec fn binding_wf(g: Seq<SymbolModel>, i: int, b: BindingModel) -> bool {
    &&& i < b.symbol < g.len()
    &&& g[b.symbol as int].parent == Some(i as usize)
    &&& g[b.symbol as int].name == b.name
}

/// Kinds of symbols that live inside a file: variables, functions and
/// classes.
pub open spec fn lives_in_file(typ: SymType) -> bool {
    typ == SymType::Variable || typ == SymType::Function || typ == SymType::Class
}

/// Symbol `i` knows its own index, comes after its parent, and owns each of
/// its children once. A symbol that lives inside a file has a parent, and
/// the parent owns it.
pub open spec fn symbol_wf(g: Seq<SymbolModel>, i: int) -> bool {
    let s = g[i];
    &&& s.weak_self == Some(i as usize)
    &&& (s.parent matches Some(p) ==> p < i)
    &&& (lives_in_file(s.typ) ==> s.parent.is_some() && owns(g, s.parent.unwrap() as int, i))
    &&& (s.typ.is_container() ==> table_wf(s.sections, s.bindings))
    &&& (!s.typ.is_container() ==> s.bindings.len() == 0)
    &&& forall|k: int| 0 <= k < s.bindings.len() ==> binding_wf(g, i, #[trigger] s.bindings[k])
    &&& forall|k: int, l: int|
        0 <= k < l < s.bindings.len() ==> (#[trigger] s.bindings[k]).symbol < (
        #[trigger] s.bindings[l]).symbol
}

/// Every symbol of the graph is well formed.
pub open spec fn graph_wf(g: Seq<SymbolModel>) -> bool {
    forall|i: int| 0 <= i < g.len() ==> symbol_wf(g, i)
}

/// The fields on which well-formedness rests are the same in `a` and `b`.
pub open spec fn same_links(a: SymbolModel, b: SymbolModel) -> bool {
    &&& a.typ == b.typ
    &&& a.name == b.name
    &&& a.parent == b.parent
    &&& a.weak_self == b.weak_self
    &&& a.sections == b.sections
    &&& a.bindings == b.bindings
}

/// The graph `g` after `child` was appended and bound in `parent`.
pub open spec fn with_child(g: Seq<SymbolModel>, parent: int, child: SymbolModel, section: u32) -> Seq<
    SymbolModel,
> {
    g.update(
        parent,
        SymbolModel {
            bindings: g[parent].bindings.push(
                BindingModel { name: child.name, section, symbol: g.len() as usize },
            ),
            ..g[parent]
        },
    ).push(child)
}

/// A fresh symbol of kind `typ` to be appended to `g` below `parent`. It
/// inherits `is_external` from its parent.
pub open spec fn fresh_symbol(
    g: Seq<SymbolModel>,
    parent: int,
    typ: SymType,
    name: Seq<char>,
    range: TextRange,
) -> SymbolModel {
    SymbolModel {
        parent: Some(parent as usize),
        weak_self: Some(g.len() as usize),
        range: Some(range),
        is_external: g[parent].is_external,
        sections: if typ.is_container() {
            seq![SectionRange { start: 0, index: 0 }]
        } else {
            Seq::empty()
        },
        ..SymbolModel::blank(typ, name)
    }
}

/// The graph `g` after a fresh symbol of kind `typ` was added to container
/// `parent`, in the section in which `range` starts.
pub open spec fn add_symbol(
    g: Seq<SymbolModel>,
    parent: int,
    typ: SymType,
    name: Seq<char>,
    range: TextRange,
) -> Seq<SymbolModel> {
    with_child(
        g,
        parent,
        fresh_symbol(g, parent, typ, name, range),
        section_at(g[parent].sections, range_start(range)) as u32,
    )
}

/// The file to which symbol `i` belongs: the nearest package or module on
/// the way to the root, the symbol itself included.
pub open spec fn file_of(g: Seq<SymbolModel>, i: int) -> Option<usize>
    decreases i,
{
    if 0 <= i < g.len() {
        if g[i].typ.is_file() {
            Some(i as usize)
        } else {
            match g[i].parent {
                Some(p) => if p < i {
                    file_of(g, p as int)
                } else {
                    None
                },
                None => None,
            }
        }
    } else {
        None
    }
}

/// The symbol that a non-owning reference leads to, if it leads to one.
pub open spec fn upgraded(g: Seq<SymbolModel>, r: EvaluationSymbol) -> Option<usize> {
    match r.symbol {
        Some(i) => if i < g.len() {
            Some(i)
        } else {
            None
        },
        None => None,
    }
}

/// `deps` with `d` in it: appended, unless it is there already.
pub open spec fn with_dependency(deps: Seq<Dependency>, d: Dependency) -> Seq<Dependency> {
    if deps.contains(d) {
        deps
    } else {
        deps.push(d)
    }
}

/// The graph `g` after the edge "phase `step` of `from` reads phase
/// `dep_step` of `to`" was recorded on both files.
pub open spec fn add_dependency(
    g: Seq<SymbolModel>,
    from: int,
    to: int,
    step: BuildSteps,
    dep_step: BuildSteps,
) -> Seq<SymbolModel> {
    let g1 = g.update(
        from,
        SymbolModel {
            dependencies: with_dependency(
                g[from].dependencies,
                Dependency { target: to as usize, step, dep_step },
            ),
            ..g[from]
        },
    );
    g1.update(
        to,
        SymbolModel {
            dependents: with_dependency(
                g1[to].dependents,
                Dependency { target: from as usize, step, dep_step },
            ),
            ..g1[to]
        },
    )
}

/// A graph whose symbols have the links of a well-formed graph is well
/// formed.
pub proof fn lemma_same_links_wf(g: Seq<SymbolModel>, h: Seq<SymbolModel>)
    requires
        graph_wf(g),
        g.len() == h.len(),
        forall|i: int| 0 <= i < g.len() ==> same_links(#[trigger] g[i], h[i]),
    ensures
        graph_wf(h),
{
    assert forall|i: int| 0 <= i < h.len() implies symbol_wf(h, i) by {
        assert(symbol_wf(g, i));
        assert(same_links(g[i], h[i]));
        assert forall|k: int| 0 <= k < h[i].bindings.len() implies binding_wf(
            h,
            i,
            #[trigger] h[i].bindings[k],
        ) by {
            let b = g[i].bindings[k];
            assert(binding_wf(g, i, b));
            assert(same_links(g[b.symbol as int], h[b.symbol as int]));
        }
        if lives_in_file(g[i].typ) {
            let p = g[i].parent.unwrap() as int;
            assert(same_links(g[p], h[p]));
            let k = choose|k: int|
                0 <= k < g[p].bindings.len() && (#[trigger] g[p].bindings[k]).symbol == i;
            assert(h[p].bindings[k].symbol == i);
        }
    }
}

/// Replacing a symbol by one with the same links keeps the graph well
/// formed.
pub proof fn lemma_update_keeps_wf(g: Seq<SymbolModel>, id: int, m: SymbolModel)
    requires
        graph_wf(g),
        0 <= id < g.len(),
        same_links(g[id], m),
    ensures
        graph_wf(g.update(id, m)),
{
    lemma_same_links_wf(g, g.update(id, m));
}

/// Appending a child that points back to its container keeps the graph
/// well formed.
pub proof fn lemma_with_child_wf(g: Seq<SymbolModel>, parent: int, child: SymbolModel, section: u32)
    requires
        graph_wf(g),
        0 <= parent < g.len(),
        g.len() <= usize::MAX,
        g[parent].typ.is_container(),
        section < g[parent].sections.len(),
        child.parent == Some(parent as usize),
        child.weak_self == Some(g.len() as usize),
        child.bindings.len() == 0,
        child.typ.is_container() ==> table_wf(child.sections, child.bindings),
    ensures
        graph_wf(with_child(g, parent, child, section)),
{
    let h = with_child(g, parent, child, section);
    let id = g.len() as int;
    assert forall|i: int| 0 <= i < h.len() implies symbol_wf(h, i) by {
        if i == id {
            assert(h[i] == child);
            assert(h[parent].bindings[g[parent].bindings.len() as int].symbol == id);
        } else {
            assert(symbol_wf(g, i));
            if lives_in_file(g[i].typ) {
                let p = g[i].parent.unwrap() as int;
                let k = choose|k: int|
                    0 <= k < g[p].bindings.len() && (#[trigger] g[p].bindings[k]).symbol == i;
                assert(h[p].bindings[k].symbol == i);
            }
            if i == parent {
                let nb = BindingModel { name: child.name, section, symbol: id as usize };
                assert(h[i].bindings == g[i].bindings.push(nb));
                assert forall|k: int| 0 <= k < h[i].bindings.len() implies binding_wf(
                    h,
                    i,
                    #[trigger] h[i].bindings[k],
                ) by {
                    if k < g[i].bindings.len() {
                        let b = g[i].bindings[k];
                        assert(binding_wf(g, i, b));
                        assert(h[i].bindings[k] == b);
                    }
                }
                assert forall|k: int, l: int| 0 <= k < l < h[i].bindings.len() implies (
                #[trigger] h[i].bindings[k]).symbol < (#[trigger] h[i].bindings[l]).symbol by {
                    assert(binding_wf(g, i, g[i].bindings[k]));
                    if l < g[i].bindings.len() {
                        assert(g[i].bindings[k].symbol < g[i].bindings[l].symbol);
                    }
                }
                assert forall|k: int| 0 <= k < h[i].bindings.len() implies (
                #[trigger] h[i].bindings[k]).section < h[i].sections.len() by {
                    if k < g[i].bindings.len() {
                        assert(g[i].bindings[k].section < g[i].sections.len());
                    }
                }
            } else {
                assert(h[i] == g[i]);
                assert forall|k: int| 0 <= k < h[i].bindings.len() implies binding_wf(
                    h,
                    i,
                    #[trigger] h[i].bindings[k],
                ) by {
                    let b = g[i].bindings[k];
                    assert(binding_wf(g, i, b));
                    assert(h[b.symbol as int].parent == g[b.symbol as int].parent);
                    assert(h[b.symbol as int].name == g[b.symbol as int].name);
                }
            }
        }
    }
}

/// Container `a` owns symbol `c`: one of its bindings leads there.
pub open spec fn owns(g: Seq<SymbolModel>, a: int, c: int) -> bool {
    exists|b: int| 0 <= b < g[a].bindings.len() && (#[trigger] g[a].bindings[b]).symbol == c
}

/// Each symbol of `path` owns the next one.
pub open spec fn is_ownership_walk(g: Seq<SymbolModel>, path: Seq<int>) -> bool {
    &&& path.len() > 0
    &&& 0 <= path[0] < g.len()
    &&& forall|k: int| #![trigger path[k]] 0 <= k < path.len() - 1 ==> owns(g, path[k], path[k + 1])
}

/// Along a walk over owning links, the index grows with every step.
pub proof fn lemma_walk_grows(g: Seq<SymbolModel>, path: Seq<int>, k: int, l: int)
    requires
        graph_wf(g),
        is_ownership_walk(g, path),
        0 <= k <= l < path.len(),
    ensures
        0 <= path[k],
        path[k] + (l - k) <= path[l] < g.len(),
    decreases l,
{
    if l > 0 {
        lemma_walk_grows(g, path, 0, l - 1);
        let a = path[l - 1];
        assert(owns(g, a, path[l]));
        let b = choose|b: int|
            0 <= b < g[a].bindings.len() && (#[trigger] g[a].bindings[b]).symbol == path[l];
        assert(symbol_wf(g, a));
        assert(binding_wf(g, a, g[a].bindings[b]));
        if k < l {
            lemma_walk_grows(g, path, k, l - 1);
        }
    }
}

/// No strong cycles: a walk that follows owning links never comes back to
/// a symbol it has left, and is no longer than the graph is large. So every
/// traversal along ownership ends.
pub proof fn lemma_ownership_is_acyclic(g: Seq<SymbolModel>, path: Seq<int>)
    requires
        graph_wf(g),
        is_ownership_walk(g, path),
    ensures
        forall|k: int, l: int| 0 <= k < l < path.len() ==> path[k] != path[l],
        path.len() <= g.len(),
{
    assert forall|k: int, l: int| 0 <= k < l < path.len() implies path[k] != path[l] by {
        lemma_walk_grows(g, path, k, l);
    }
    lemma_walk_grows(g, path, 0, path.len() - 1);
}

/// The members of a binding set of a symbol are symbols of the graph.
pub proof fn lemma_binding_set_in_graph(g: Seq<SymbolModel>, id: int, name: Seq<char>, position: u32)
    requires
        graph_wf(g),
        0 <= id < g.len(),
    ensures
        forall|j: int|
            0 <= j < binding_set(g[id].bindings, g[id].sections, name, position).len() ==> (
            #[trigger] binding_set(g[id].bindings, g[id].sections, name, position)[j]) < g.len(),
{
    lemma_binding_set_members(g[id].bindings, g[id].sections, name, position);
    let set = binding_set(g[id].bindings, g[id].sections, name, position);
    assert forall|j: int| 0 <= j < set.len() implies (#[trigger] set[j]) < g.len() by {
        assert(binds(g[id].bindings, name, set[j]));
        let k = choose|k: int|
            0 <= k < g[id].bindings.len() && (#[trigger] g[id].bindings[k]).symbol == set[j]
                && g[id].bindings[k].name == name;
        assert(symbol_wf(g, id));
        assert(binding_wf(g, id, g[id].bindings[k]));
    }
}

/// The file of a symbol is a package or a module of the graph.
pub proof fn lemma_file_of(g: Seq<SymbolModel>, i: int)
    requires
        g.len() <= usize::MAX,
    ensures
        file_of(g, i) matches Some(f) ==> f < g.len() && g[f as int].typ.is_file(),
    decreases i,
{
    if 0 <= i < g.len() && !g[i].typ.is_file() {
        match g[i].parent {
            Some(p) => {
                if p < i {
                    lemma_file_of(g, p as int);
                }
            },
            None => {},
        }
    }
}

/// The model of a file symbol as `add_new_file` and `add_new_package` make
/// it.
pub open spec fn fresh_file(
    g: Seq<SymbolModel>,
    parent: int,
    typ: SymType,
    name: Seq<char>,
    path: Seq<char>,
    i_ext: Seq<char>,
    is_external: bool,
) -> SymbolModel {
    SymbolModel {
        parent: Some(parent as usize),
        weak_self: Some(g.len() as usize),
        is_external,
        paths: seq![path],
        i_ext,
        sections: seq![SectionRange { start: 0, index: 0 }],
        ..SymbolModel::blank(typ, name)
    }
}

/// The model of a namespace or a compiled module as `add_new_namespace`
/// and `add_new_compiled` make it.
pub open spec fn fresh_plain(
    g: Seq<SymbolModel>,
    parent: int,
    typ: SymType,
    name: Seq<char>,
    paths: Seq<Seq<char>>,
) -> SymbolModel {
    SymbolModel {
        parent: Some(parent as usize),
        weak_self: Some(g.len() as usize),
        paths,
        ..SymbolModel::blank(typ, name)
    }
}

/// The root of a new graph.
pub open spec fn root_model() -> SymbolModel {
    SymbolModel { weak_self: Some(0), ..SymbolModel::blank(SymType::Root, Seq::empty()) }
}

/// Whether `deps` holds `d`.
fn has_dependency(deps: &Vec<Dependency>, d: Dependency) -> (found: bool)
    ensures
        found == deps@.contains(d),
{
    let mut i: usize = 0;
    while i < deps.len()
        invariant
            i <= deps.len(),
            forall|j: int| 0 <= j < i ==> deps@[j] != d,
        decreases deps.len() - i,
    {
        if deps[i] == d {
            return true;
        }
        i += 1;
    }
    false
}

pub struct SymbolGraph {
    symbols: Vec<Symbol>,
}

impl View for SymbolGraph {
    type V = Seq<SymbolModel>;

    closed spec fn view(&self) -> Seq<SymbolModel> {
        self.symbols@.map_values(|s: Symbol| s@)
    }
}

impl SymbolGraph {
    /// The graph is well formed and its indices fit the machine.
    pub open spec fn wf(&self) -> bool {
        &&& graph_wf(self@)
        &&& self@.len() <= usize::MAX
    }

    /// A graph that holds a root and nothing else.
    pub fn new() -> (graph: SymbolGraph)
        ensures
            graph.wf(),
            graph@ == seq![root_model()],
    {
        let mut root = RootSymbol::new(String::new(), false);
        root.weak_self = Some(0);
        let mut symbols: Vec<Symbol> = Vec::new();
        symbols.push(Symbol::Root(root));
        let graph = SymbolGraph { symbols };
        assert(texts(root.paths@) =~= Seq::<Seq<char>>::empty());
        assert(graph@ =~= seq![root_model()]);
        assert(symbol_wf(graph@, 0));
        graph
    }

    /// The number of symbols.
    pub fn len(&self) -> (n: usize)
        ensures
            n == self@.len(),
    {
        self.symbols.len()
    }

    /// The symbol at index `id`.
    pub fn get(&self, id: usize) -> (symbol: &Symbol)
        requires
            id < self@.len(),
        ensures
            symbol@ == self@[id as int],
    {
        &self.symbols[id]
    }

    /// The symbol that a non-owning reference leads to; `None` when the
    /// reference is empty or leads out of the graph.
    pub fn upgrade(&self, reference: &EvaluationSymbol) -> (target: Option<usize>)
        ensures
            target == upgraded(self@, *reference),
    {
        match reference.symbol {
            Some(i) => if i < self.symbols.len() {
                Some(i)
            } else {
                None
            },
            None => None,
        }
    }

    /// The file to which symbol `id` belongs.
    pub fn get_file(&self, id: usize) -> (file: Option<usize>)
        requires
            self.wf(),
            id < self@.len(),
        ensures
            file == file_of(self@, id as int),
    {
        let mut cur: usize = id;
        loop
            invariant
                self.wf(),
                cur < self@.len(),
                file_of(self@, cur as int) == file_of(self@, id as int),
            decreases cur,
        {
            let s = &self.symbols[cur];
            match s.typ() {
                SymType::Package | SymType::File => {
                    return Some(cur);
                },
                _ => {},
            }
            match s.parent() {
                Some(p) => {
                    assert(symbol_wf(self@, cur as int));
                    cur = p;
                },
                None => {
                    return None;
                },
            }
        }
    }

    /// The children of `id` bound to `name` that are visible at `position`,
    /// oldest first; none when `id` is no container.
    pub fn get_content_symbol(&self, id: usize, name: &String, position: u32) -> (found: Vec<usize>)
        requires
            self.wf(),
            id < self@.len(),
        ensures
            found@ == binding_set(self@[id as int].bindings, self@[id as int].sections, name@, position),
    {
        assert(symbol_wf(self@, id as int));
        match self.symbols[id].content() {
            Some(content) => content.get_content_symbol(name, position),
            None => Vec::new(),
        }
    }

    /// The names bound in `id`, each once, in the order of their first
    /// binding; none when `id` is no container.
    pub fn content_names(&self, id: usize) -> (names: Vec<String>)
        requires
            id < self@.len(),
            !self@[id as int].typ.is_container() ==> self@[id as int].bindings.len() == 0,
        ensures
            texts(names@) == distinct_names(self@[id as int].bindings),
    {
        match self.symbols[id].content() {
            Some(content) => content.names(),
            None => {
                let names: Vec<String> = Vec::new();
                assert(texts(names@) =~= distinct_names(self@[id as int].bindings));
                names
            },
        }
    }

    /// Appends `child` and binds it in container `parent`, in the section
    /// that holds `position`.
    fn insert_child(&mut self, parent: usize, child: Symbol, position: u32) -> (id: usize)
        requires
            old(self).wf(),
            parent < old(self)@.len(),
            old(self)@[parent as int].typ.is_container(),
            child@.parent == Some(parent),
            child@.weak_self == Some(old(self)@.len() as usize),
            child@.bindings.len() == 0,
            child@.typ.is_container() ==> table_wf(child@.sections, child@.bindings),
        ensures
            final(self).wf(),
            id == old(self)@.len(),
            final(self)@ == with_child(
                old(self)@,
                parent as int,
                child@,
                section_at(old(self)@[parent as int].sections, position) as u32,
            ),
    {
        let id = self.symbols.len();
        assert(symbol_wf(self@, parent as int));
        proof {
            lemma_section_at(self@[parent as int].sections, position);
        }
        let section = match self.symbols[parent].content() {
            Some(content) => content.get_section_for(position).index,
            None => 0,
        };
        let name = child.name().clone();
        let holder = &mut self.symbols[parent];
        holder.add_symbol(name, id, section);
        self.symbols.push(child);
        proof {
            let g = old(self)@;
            assert(self@ =~= with_child(g, parent as int, child@, section));
            lemma_with_child_wf(g, parent as int, child@, section);
            assert(self@.len() == self.symbols@.len());
            assert(self.symbols.len() == self.symbols@.len());
        }
        id
    }

    /// Creates a variable named `name` in container `parent`, bound in the
    /// section in which `range` starts. It has no evaluation and no flag
    /// set.
    pub fn add_new_variable(&mut self, parent: usize, name: &String, range: &TextRange) -> (id: usize)
        requires
            old(self).wf(),
            parent < old(self)@.len(),
            old(self)@[parent as int].typ.is_container(),
        ensures
            final(self).wf(),
            id == old(self)@.len(),
            final(self)@ == add_symbol(old(self)@, parent as int, SymType::Variable, name@, *range),
    {
        let external = self.symbols[parent].is_external();
        let mut v = VariableSymbol::new(name.clone(), *range, external);
        v.parent = Some(parent);
        v.weak_self = Some(self.symbols.len());
        let position = start_offset(range);
        self.insert_child(parent, Symbol::Variable(v), position)
    }

    /// Creates a function named `name` in container `parent`, bound in the
    /// section in which `range` starts.
    pub fn add_new_function(&mut self, parent: usize, name: &String, range: &TextRange) -> (id: usize)
        requires
            old(self).wf(),
            parent < old(self)@.len(),
            old(self)@[parent as int].typ.is_container(),
        ensures
            final(self).wf(),
            id == old(self)@.len(),
            final(self)@ == add_symbol(old(self)@, parent as int, SymType::Function, name@, *range),
    {
        let external = self.symbols[parent].is_external();
        let mut f = FunctionSymbol::new(name.clone(), *range, external);
        f.parent = Some(parent);
        f.weak_self = Some(self.symbols.len());
        assert(f.content.sections@ =~= seq![SectionRange { start: 0, index: 0 }]);
        let position = start_offset(range);
        self.insert_child(parent, Symbol::Function(f), position)
    }

    /// Creates a class named `name` in container `parent`, bound in the
    /// section in which `range` starts.
    pub fn add_new_class(&mut self, parent: usize, name: &String, range: &TextRange) -> (id: usize)
        requires
            old(self).wf(),
            parent < old(self)@.len(),
            old(self)@[parent as int].typ.is_container(),
        ensures
            final(self).wf(),
            id == old(self)@.len(),
            final(self)@ == add_symbol(old(self)@, parent as int, SymType::Class, name@, *range),
    {
        let external = self.symbols[parent].is_external();
        let mut c = ClassSymbol::new(name.clone(), *range, external);
        c.parent = Some(parent);
        c.weak_self = Some(self.symbols.len());
        assert(c.content.sections@ =~= seq![SectionRange { start: 0, index: 0 }]);
        let position = start_offset(range);
        self.insert_child(parent, Symbol::Class(c), position)
    }

    /// Appends a file symbol below `parent`.
    fn insert_file(&mut self, parent: usize, file: FileSymbol, package: bool) -> (id: usize)
        requires
            old(self).wf(),
            parent < old(self)@.len(),
            file.parent == Some(parent),
            file.weak_self == Some(old(self)@.len() as usize),
            file.content.wf(),
            file.content.bindings().len() == 0,
        ensures
            final(self).wf(),
            id == old(self)@.len(),
            final(self)@ == old(self)@.push(
                file.model(
                    if package {
                        SymType::Package
                    } else {
                        SymType::File
                    },
                ),
            ),
    {
        let id = self.symbols.len();
        let ghost typ = if package {
            SymType::Package
        } else {
            SymType::File
        };
        let ghost model = file.model(typ);
        if package {
            self.symbols.push(Symbol::Package(file));
        } else {
            self.symbols.push(Symbol::File(file));
        }
        proof {
            let g = old(self)@;
            assert(self@ =~= g.push(model));
            assert(self@.len() == self.symbols@.len());
            assert(self.symbols.len() == self.symbols@.len());
            assert forall|i: int| 0 <= i < self@.len() implies symbol_wf(self@, i) by {
                if i < g.len() {
                    assert(symbol_wf(g, i));
                    assert forall|k: int| 0 <= k < g[i].bindings.len() implies binding_wf(
                        self@,
                        i,
                        #[trigger] self@[i].bindings[k],
                    ) by {
                        assert(binding_wf(g, i, g[i].bindings[k]));
                    }
                    if lives_in_file(g[i].typ) {
                        let p = g[i].parent.unwrap() as int;
                        let k = choose|k: int|
                            0 <= k < g[p].bindings.len() && (#[trigger] g[p].bindings[k]).symbol
                                == i;
                        assert(self@[p].bindings[k].symbol == i);
                    }
                }
            }
        }
        id
    }

    /// Appends a namespace or a compiled module below `parent`.
    fn insert_plain(&mut self, parent: usize, name: String, paths: Vec<String>, compiled: bool) -> (id:
        usize)
        requires
            old(self).wf(),
            parent < old(self)@.len(),
        ensures
            final(self).wf(),
            id == old(self)@.len(),
            final(self)@ == old(self)@.push(
                fresh_plain(
                    old(self)@,
                    parent as int,
                    if compiled {
                        SymType::Compiled
                    } else {
                        SymType::Namespace
                    },
                    name@,
                    texts(paths@),
                ),
            ),
    {
        let id = self.symbols.len();
        let mut s = RootSymbol::new(name, false);
        s.paths = paths;
        s.parent = Some(parent);
        s.weak_self = Some(id);
        if compiled {
            self.symbols.push(Symbol::Compiled(s));
        } else {
            self.symbols.push(Symbol::Namespace(s));
        }
        proof {
            let g = old(self)@;
            assert(self@ =~= g.push(self@[id as int]));
            assert(self@.len() == self.symbols@.len());
            assert(self.symbols.len() == self.symbols@.len());
            assert forall|i: int| 0 <= i < self@.len() implies symbol_wf(self@, i) by {
                if i < g.len() {
                    assert(symbol_wf(g, i));
                    assert forall|k: int| 0 <= k < g[i].bindings.len() implies binding_wf(
                        self@,
                        i,
                        #[trigger] self@[i].bindings[k],
                    ) by {
                        assert(binding_wf(g, i, g[i].bindings[k]));
                    }
                    if lives_in_file(g[i].typ) {
                        let p = g[i].parent.unwrap() as int;
                        let k = choose|k: int|
                            0 <= k < g[p].bindings.len() && (#[trigger] g[p].bindings[k]).symbol
                                == i;
                        assert(self@[p].bindings[k].symbol == i);
                    }
                }
            }
        }
        id
    }

    /// Creates a namespace named `name` below `parent`: a directory, or
    /// several that share the name, without a source of its own.
    pub fn add_new_namespace(&mut self, parent: usize, name: String, paths: Vec<String>) -> (id: usize)
        requires
            old(self).wf(),
            parent < old(self)@.len(),
        ensures
            final(self).wf(),
            id == old(self)@.len(),
            final(self)@ == old(self)@.push(
                fresh_plain(old(self)@, parent as int, SymType::Namespace, name@, texts(paths@)),
            ),
    {
        self.insert_plain(parent, name, paths, false)
    }

    /// Creates a compiled module named `name` below `parent`.
    pub fn add_new_compiled(&mut self, parent: usize, name: String, path: String) -> (id: usize)
        requires
            old(self).wf(),
            parent < old(self)@.len(),
        ensures
            final(self).wf(),
            id == old(self)@.len(),
            final(self)@ == old(self)@.push(
                fresh_plain(old(self)@, parent as int, SymType::Compiled, name@, seq![path@]),
            ),
    {
        let mut paths: Vec<String> = Vec::new();
        paths.push(path);
        assert(texts(paths@) =~= seq![path@]);
        self.insert_plain(parent, name, paths, true)
    }

    /// Creates a module named `name`, read from `path`, below `parent`.
    pub fn add_new_file(&mut self, parent: usize, name: String, path: String, is_external: bool) -> (id:
        usize)
        requires
            old(self).wf(),
            parent < old(self)@.len(),
        ensures
            final(self).wf(),
            id == old(self)@.len(),
            final(self)@ == old(self)@.push(
                fresh_file(
                    old(self)@,
                    parent as int,
                    SymType::File,
                    name@,
                    path@,
                    Seq::empty(),
                    is_external,
                ),
            ),
    {
        let mut f = FileSymbol::new(name, path, is_external);
        f.parent = Some(parent);
        f.weak_self = Some(self.symbols.len());
        assert(not_found_models(f.not_found_paths@) =~= Seq::<NotFoundModel>::empty());
        assert(f.dependencies@ =~= Seq::<Dependency>::empty());
        assert(f.dependents@ =~= Seq::<Dependency>::empty());
        assert(f.content.bindings() =~= Seq::<BindingModel>::empty());
        self.insert_file(parent, f, false)
    }

    /// Creates a package named `name` below `parent`. Its source is the
    /// init file in directory `path`, whose name ends in `i_ext`.
    pub fn add_new_package(
        &mut self,
        parent: usize,
        name: String,
        path: String,
        i_ext: String,
        is_external: bool,
    ) -> (id: usize)
        requires
            old(self).wf(),
            parent < old(self)@.len(),
        ensures
            final(self).wf(),
            id == old(self)@.len(),
            final(self)@ == old(self)@.push(
                fresh_file(
                    old(self)@,
                    parent as int,
                    SymType::Package,
                    name@,
                    path@,
                    i_ext@,
                    is_external,
                ),
            ),
    {
        let mut f = FileSymbol::new(name, path, is_external);
        f.parent = Some(parent);
        f.weak_self = Some(self.symbols.len());
        f.i_ext = i_ext;
        assert(not_found_models(f.not_found_paths@) =~= Seq::<NotFoundModel>::empty());
        assert(f.dependencies@ =~= Seq::<Dependency>::empty());
        assert(f.dependents@ =~= Seq::<Dependency>::empty());
        assert(f.content.bindings() =~= Seq::<BindingModel>::empty());
        self.insert_file(parent, f, true)
    }

    /// Records `status` for phase `step` of symbol `id`. A variable has no
    /// phases and stays as it is.
    pub fn set_build_status(&mut self, id: usize, step: BuildSteps, status: BuildStatus)
        requires
            old(self).wf(),
            id < old(self)@.len(),
        ensures
            final(self).wf(),
            final(self)@ == old(self)@.update(
                id as int,
                (SymbolModel {
                    status: if old(self)@[id as int].typ == SymType::Variable {
                        old(self)@[id as int].status
                    } else {
                        old(self)@[id as int].status.spec_with(step, status)
                    },
                    ..old(self)@[id as int]
                }),
            ),
    {
        let s = &mut self.symbols[id];
        match s {
            Symbol::Root(x) => {
                x.status.set(step, status);
            },
            Symbol::Namespace(x) => {
                x.status.set(step, status);
            },
            Symbol::Package(x) => {
                x.status.set(step, status);
            },
            Symbol::File(x) => {
                x.status.set(step, status);
            },
            Symbol::Compiled(x) => {
                x.status.set(step, status);
            },
            Symbol::Class(x) => {
                x.status.set(step, status);
            },
            Symbol::Function(x) => {
                x.status.set(step, status);
            },
            Symbol::Variable(_) => {},
        }
        proof {
            let g = old(self)@;
            let m = SymbolModel {
                status: if g[id as int].typ == SymType::Variable {
                    g[id as int].status
                } else {
                    g[id as int].status.spec_with(step, status)
                },
                ..g[id as int]
            };
            assert(self@ =~= g.update(id as int, m));
            lemma_update_keeps_wf(g, id as int, m);
        }
    }

    /// Records whether file `id` lies in the user's workspace.
    pub fn set_in_workspace(&mut self, id: usize, in_workspace: bool)
        requires
            old(self).wf(),
            id < old(self)@.len(),
            old(self)@[id as int].typ.is_file(),
        ensures
            final(self).wf(),
            final(self)@ == old(self)@.update(
                id as int,
                (SymbolModel { in_workspace, ..old(self)@[id as int] }),
            ),
    {
        let s = &mut self.symbols[id];
        match s {
            Symbol::Package(x) => {
                x.in_workspace = in_workspace;
            },
            Symbol::File(x) => {
                x.in_workspace = in_workspace;
            },
            _ => {},
        }
        proof {
            let g = old(self)@;
            let m = SymbolModel { in_workspace, ..g[id as int] };
            assert(self@ =~= g.update(id as int, m));
            lemma_update_keeps_wf(g, id as int, m);
        }
    }

    /// Marks variable `id` as bound by an import.
    pub fn set_import_variable(&mut self, id: usize)
        requires
            old(self).wf(),
            id < old(self)@.len(),
            old(self)@[id as int].typ == SymType::Variable,
        ensures
            final(self).wf(),
            final(self)@ == old(self)@.update(
                id as int,
                (SymbolModel { is_import_variable: true, ..old(self)@[id as int] }),
            ),
    {
        let s = &mut self.symbols[id];
        match s {
            Symbol::Variable(x) => {
                x.is_import_variable = true;
            },
            _ => {},
        }
        proof {
            let g = old(self)@;
            let m = SymbolModel { is_import_variable: true, ..g[id as int] };
            assert(self@ =~= g.update(id as int, m));
            lemma_update_keeps_wf(g, id as int, m);
        }
    }

    /// Marks variable `id` as a parameter.
    pub fn set_parameter(&mut self, id: usize)
        requires
            old(self).wf(),
            id < old(self)@.len(),
            old(self)@[id as int].typ == SymType::Variable,
        ensures
            final(self).wf(),
            final(self)@ == old(self)@.update(
                id as int,
                (SymbolModel { is_parameter: true, ..old(self)@[id as int] }),
            ),
    {
        let s = &mut self.symbols[id];
        match s {
            Symbol::Variable(x) => {
                x.is_parameter = true;
            },
            _ => {},
        }
        proof {
            let g = old(self)@;
            let m = SymbolModel { is_parameter: true, ..g[id as int] };
            assert(self@ =~= g.update(id as int, m));
            lemma_update_keeps_wf(g, id as int, m);
        }
    }

    /// Records the span of the annotation of variable `id`.
    pub fn set_annotation(&mut self, id: usize, annotation: Option<TextRange>)
        requires
            old(self).wf(),
            id < old(self)@.len(),
            old(self)@[id as int].typ == SymType::Variable,
        ensures
            final(self).wf(),
            final(self)@ == old(self)@.update(
                id as int,
                (SymbolModel { annotation, ..old(self)@[id as int] }),
            ),
    {
        let s = &mut self.symbols[id];
        match s {
            Symbol::Variable(x) => {
                x.annotation = annotation;
            },
            _ => {},
        }
        proof {
            let g = old(self)@;
            let m = SymbolModel { annotation, ..g[id as int] };
            assert(self@ =~= g.update(id as int, m));
            lemma_update_keeps_wf(g, id as int, m);
        }
    }

    /// Replaces the evaluations of variable `id`.
    pub fn set_evaluations(&mut self, id: usize, evaluations: Vec<Evaluation>)
        requires
            old(self).wf(),
            id < old(self)@.len(),
            old(self)@[id as int].typ == SymType::Variable,
        ensures
            final(self).wf(),
            final(self)@ == old(self)@.update(
                id as int,
                (SymbolModel { evaluations: evaluations@, ..old(self)@[id as int] }),
            ),
    {
        let s = &mut self.symbols[id];
        match s {
            Symbol::Variable(x) => {
                x.evaluations = evaluations;
            },
            _ => {},
        }
        proof {
            let g = old(self)@;
            let m = SymbolModel { evaluations: evaluations@, ..g[id as int] };
            assert(self@ =~= g.update(id as int, m));
            lemma_update_keeps_wf(g, id as int, m);
        }
    }

    /// Records what the decorators say of function `id`.
    pub fn set_function_flags(&mut self, id: usize, is_static: bool, is_property: bool)
        requires
            old(self).wf(),
            id < old(self)@.len(),
            old(self)@[id as int].typ == SymType::Function,
        ensures
            final(self).wf(),
            final(self)@ == old(self)@.update(
                id as int,
                (SymbolModel { is_static, is_property, ..old(self)@[id as int] }),
            ),
    {
        let s = &mut self.symbols[id];
        match s {
            Symbol::Function(x) => {
                x.is_static = is_static;
                x.is_property = is_property;
            },
            _ => {},
        }
        proof {
            let g = old(self)@;
            let m = SymbolModel { is_static, is_property, ..g[id as int] };
            assert(self@ =~= g.update(id as int, m));
            lemma_update_keeps_wf(g, id as int, m);
        }
    }

    /// Records the docstring of function or class `id`.
    pub fn set_doc_string(&mut self, id: usize, doc_string: Option<String>)
        requires
            old(self).wf(),
            id < old(self)@.len(),
            old(self)@[id as int].typ == SymType::Function || old(self)@[id as int].typ
                == SymType::Class,
        ensures
            final(self).wf(),
            final(self)@ == old(self)@.update(
                id as int,
                (SymbolModel { doc_string: opt_text(doc_string), ..old(self)@[id as int] }),
            ),
    {
        let s = &mut self.symbols[id];
        match s {
            Symbol::Function(x) => {
                x.doc_string = doc_string;
            },
            Symbol::Class(x) => {
                x.doc_string = doc_string;
            },
            _ => {},
        }
        proof {
            let g = old(self)@;
            let m = SymbolModel { doc_string: opt_text(doc_string), ..g[id as int] };
            assert(self@ =~= g.update(id as int, m));
            lemma_update_keeps_wf(g, id as int, m);
        }
    }

    /// Appends `argument` to the parameter list of function `id`.
    pub fn add_argument(&mut self, id: usize, argument: Argument)
        requires
            old(self).wf(),
            id < old(self)@.len(),
            old(self)@[id as int].typ == SymType::Function,
        ensures
            final(self).wf(),
            final(self)@ == old(self)@.update(
                id as int,
                (SymbolModel {
                    args: old(self)@[id as int].args.push(argument),
                    ..old(self)@[id as int]
                }),
            ),
    {
        let s = &mut self.symbols[id];
        match s {
            Symbol::Function(x) => {
                x.args.push(argument);
            },
            _ => {},
        }
        proof {
            let g = old(self)@;
            let m = SymbolModel { args: g[id as int].args.push(argument), ..g[id as int] };
            assert(self@ =~= g.update(id as int, m));
            lemma_update_keeps_wf(g, id as int, m);
        }
    }

    /// Records on file `id` that phase `step` looked for `path` and did not
    /// find it.
    pub fn add_not_found_path(&mut self, id: usize, step: BuildSteps, path: Vec<String>)
        requires
            old(self).wf(),
            id < old(self)@.len(),
            old(self)@[id as int].typ.is_file(),
        ensures
            final(self).wf(),
            final(self)@ == old(self)@.update(
                id as int,
                (SymbolModel {
                    not_found_paths: old(self)@[id as int].not_found_paths.push(
                        NotFoundModel { step, path: texts(path@) },
                    ),
                    ..old(self)@[id as int]
                }),
            ),
    {
        let ghost entry = NotFoundModel { step, path: texts(path@) };
        let s = &mut self.symbols[id];
        match s {
            Symbol::Package(x) => {
                x.not_found_paths.push(NotFoundPath { step, path });
                assert(not_found_models(x.not_found_paths@) =~= old(self)@[id as int].not_found_paths.push(
                    entry,
                ));
            },
            Symbol::File(x) => {
                x.not_found_paths.push(NotFoundPath { step, path });
                assert(not_found_models(x.not_found_paths@) =~= old(self)@[id as int].not_found_paths.push(
                    entry,
                ));
            },
            _ => {},
        }
        proof {
            let g = old(self)@;
            let m = SymbolModel { not_found_paths: g[id as int].not_found_paths.push(entry), ..g[id as int] };
            assert(self@ =~= g.update(id as int, m));
            lemma_update_keeps_wf(g, id as int, m);
        }
    }

    /// Adds `d` to the files that `id` reads, unless it is there.
    fn push_dependency(&mut self, id: usize, d: Dependency)
        requires
            old(self).wf(),
            id < old(self)@.len(),
            old(self)@[id as int].typ.is_file(),
        ensures
            final(self).wf(),
            final(self)@ == old(self)@.update(
                id as int,
                (SymbolModel {
                    dependencies: with_dependency(old(self)@[id as int].dependencies, d),
                    ..old(self)@[id as int]
                }),
            ),
    {
        let s = &mut self.symbols[id];
        match s {
            Symbol::Package(x) => {
                if !has_dependency(&x.dependencies, d) {
                    x.dependencies.push(d);
                }
            },
            Symbol::File(x) => {
                if !has_dependency(&x.dependencies, d) {
                    x.dependencies.push(d);
                }
            },
            _ => {},
        }
        proof {
            let g = old(self)@;
            let m = SymbolModel { dependencies: with_dependency(g[id as int].dependencies, d), ..g[id as int] };
            assert(self@ =~= g.update(id as int, m));
            lemma_update_keeps_wf(g, id as int, m);
        }
    }

    /// Adds `d` to the files that read `id`, unless it is there.
    fn push_dependent(&mut self, id: usize, d: Dependency)
        requires
            old(self).wf(),
            id < old(self)@.len(),
            old(self)@[id as int].typ.is_file(),
        ensures
            final(self).wf(),
            final(self)@ == old(self)@.update(
                id as int,
                (SymbolModel {
                    dependents: with_dependency(old(self)@[id as int].dependents, d),
                    ..old(self)@[id as int]
                }),
            ),
    {
        let s = &mut self.symbols[id];
        match s {
            Symbol::Package(x) => {
                if !has_dependency(&x.dependents, d) {
                    x.dependents.push(d);
                }
            },
            Symbol::File(x) => {
                if !has_dependency(&x.dependents, d) {
                    x.dependents.push(d);
                }
            },
            _ => {},
        }
        proof {
            let g = old(self)@;
            let m = SymbolModel { dependents: with_dependency(g[id as int].dependents, d), ..g[id as int] };
            assert(self@ =~= g.update(id as int, m));
            lemma_update_keeps_wf(g, id as int, m);
        }
    }

    /// Records that phase `step` of file `from` reads phase `dep_step` of
    /// file `to`: once on each of the two, however often it is asked.
    pub fn add_dependency(&mut self, from: usize, to: usize, step: BuildSteps, dep_step: BuildSteps)
        requires
            old(self).wf(),
            from < old(self)@.len(),
            to < old(self)@.len(),
            old(self)@[from as int].typ.is_file(),
            old(self)@[to as int].typ.is_file(),
        ensures
            final(self).wf(),
            final(self)@ == add_dependency(old(self)@, from as int, to as int, step, dep_step),
    {
        self.push_dependency(from, Dependency { target: to, step, dep_step });
        self.push_dependent(to, Dependency { target: from, step, dep_step });
    }

    /// Opens a new section at `start` in container `id`. Nothing is done,
    /// and `None` returned, when `id` is no container, when it holds as
    /// many sections as can be numbered, or when its last section starts
    /// after `start`.
    pub fn add_section(&mut self, id: usize, start: u32) -> (section: Option<SectionRange>)
        requires
            old(self).wf(),
            id < old(self)@.len(),
        ensures
            final(self).wf(),
            section.is_some() == (old(self)@[id as int].typ.is_container() && old(
                self,
            )@[id as int].sections.len() < u32::MAX && old(self)@[id as int].sections.last().start
                <= start),
            match section {
                Some(s) => s == (SectionRange {
                    start,
                    index: old(self)@[id as int].sections.len() as u32,
                }) && final(self)@ == old(self)@.update(
                    id as int,
                    (SymbolModel {
                        sections: old(self)@[id as int].sections.push(s),
                        ..old(self)@[id as int]
                    }),
                ),
                None => final(self)@ == old(self)@,
            },
    {
        assert(symbol_wf(self@, id as int));
        let able = match self.symbols[id].content() {
            Some(content) => content.sections.len() < u32::MAX as usize
                && content.sections[content.sections.len() - 1].start <= start,
            None => false,
        };
        if !able {
            return None;
        }
        let holder = &mut self.symbols[id];
        let section = holder.add_section(start);
        proof {
            let g = old(self)@;
            let m = SymbolModel { sections: g[id as int].sections.push(section), ..g[id as int] };
            assert(self@ =~= g.update(id as int, m));
            assert forall|i: int| 0 <= i < self@.len() implies symbol_wf(self@, i) by {
                assert(symbol_wf(g, i));
                assert forall|k: int| 0 <= k < self@[i].bindings.len() implies binding_wf(
                    self@,
                    i,
                    #[trigger] self@[i].bindings[k],
                ) by {
                    assert(binding_wf(g, i, g[i].bindings[k]));
                }
                if lives_in_file(g[i].typ) {
                    let p = g[i].parent.unwrap() as int;
                    let k = choose|k: int|
                        0 <= k < g[p].bindings.len() && (#[trigger] g[p].bindings[k]).symbol == i;
                    assert(self@[p].bindings[k].symbol == i);
                }
            }
        }
        Some(section)
    }
}

} // verus!
