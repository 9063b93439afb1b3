//! The table of named children that every container symbol holds.
//!
//! A container is cut into sections by source offset. A name may be bound
//! several times; each binding belongs to the section in which it was made
//! and is visible from that section's start onwards.
use vstd::prelude::*;
use crate::evaluation::texts;

verus! {

/// A section of a container: it starts at offset `start` and is the
/// `index`-th section of its container.
#[derive(Clone, Copy, Debug, PartialEq, Eq, Structural)]
pub struct SectionRange {
    pub start: u32,
    pub index: u32,
}

/// One owning link from a container to a child.
pub struct Binding {
    pub name: String,
    pub section: u32,
    pub symbol: usize,
}

/// What a `Binding` stands for.
pub struct BindingModel {
    pub name: Seq<char>,
    pub section: u32,
    pub symbol: usize,
}

impl View for Binding {
    type V = BindingModel;

    open spec fn view(&self) -> BindingModel {
        BindingModel { name: self.name@, section: self.section, symbol: self.symbol }
    }
}

/// The models of a list of bindings.
pub open spec fn binding_models(bindings: Seq<Binding>) -> Seq<BindingModel> {
    bindings.map_values(|b: Binding| b@)
}

/// Sections are numbered in order, start at offset 0 and never go back.
pub open spec fn sections_wf(sections: Seq<SectionRange>) -> bool {
    &&& 0 < sections.len() <= u32::MAX
    &&& sections[0].start == 0
    &&& forall|i: int| 0 <= i < sections.len() ==> (#[trigger] sections[i]).index == i
    &&& forall|i: int, j: int|
        0 <= i <= j < sections.len() ==> (#[trigger] sections[i]).start <= (
        #[trigger] sections[j]).start
}

/// The sections of a table are in order and every binding lies in one of
/// them.
pub open spec fn table_wf(sections: Seq<SectionRange>, bindings: Seq<BindingModel>) -> bool {
    &&& sections_wf(sections)
    &&& forall|k: int| 0 <= k < bindings.len() ==> (#[trigger] bindings[k]).section < sections.len()
}

/// The index of the last section that starts at or before `position`.
pub open spec fn section_at(sections: Seq<SectionRange>, position: u32) -> int
    decreases sections.len(),
{
    if sections.len() <= 1 {
        0
    } else if sections.last().start <= position {
        sections.len() - 1
    } else {
        section_at(sections.drop_last(), position)
    }
}

/// The children bound to `name` in sections that start at or before
/// `position`, in the order in which they were bound.
pub open spec fn binding_set(
    bindings: Seq<BindingModel>,
    sections: Seq<SectionRange>,
    name: Seq<char>,
    position: u32,
) -> Seq<usize>
    decreases bindings.len(),
{
    if bindings.len() == 0 {
        Seq::empty()
    } else {
        let rest = binding_set(bindings.drop_last(), sections, name, position);
        let b = bindings.last();
        if b.name == name && 0 <= b.section < sections.len() && sections[b.section as int].start
            <= position {
            rest.push(b.symbol)
        } else {
            rest
        }
    }
}

/// The names bound in a table, each once, in the order of their first
/// binding.
pub open spec fn distinct_names(bindings: Seq<BindingModel>) -> Seq<Seq<char>>
    decreases bindings.len(),
{
    if bindings.len() == 0 {
        Seq::empty()
    } else {
        let rest = distinct_names(bindings.drop_last());
        if rest.contains(bindings.last().name) {
            rest
        } else {
            rest.push(bindings.last().name)
        }
    }
}

/// `section_at` picks a section of the list, one that starts at or before
/// the position, and no later section does.
pub proof fn lemma_section_at(sections: Seq<SectionRange>, position: u32)
    requires
        sections_wf(sections),
    ensures
        0 <= section_at(sections, position) < sections.len(),
        sections[section_at(sections, position)].start <= position,
        forall|j: int|
            section_at(sections, position) < j < sections.len() ==> (#[trigger] sections[j]).start
                > position,
    decreases sections.len(),
{
    if sections.len() <= 1 {
    } else if sections.last().start <= position {
    } else {
        let front = sections.drop_last();
        assert(sections_wf(front)) by {
            assert forall|i: int| 0 <= i < front.len() implies (#[trigger] front[i]).index == i by {
                assert(sections[i].index == i);
            }
            assert forall|i: int, j: int| 0 <= i <= j < front.len() implies (#[trigger] front[i]).start
                <= (#[trigger] front[j]).start by {
                assert(sections[i].start <= sections[j].start);
            }
        }
        lemma_section_at(front, position);
        let k = section_at(front, position);
        assert(front[k] == sections[k]);
        assert forall|j: int| k < j < sections.len() implies (#[trigger] sections[j]).start
            > position by {
            if j < front.len() {
                assert(front[j] == sections[j]);
            }
        }
    }
}

/// Every name of the table occurs in `distinct_names`, and nothing else does.
pub proof fn lemma_distinct_names_cover(bindings: Seq<BindingModel>, name: Seq<char>)
    ensures
        distinct_names(bindings).contains(name) <==> exists|k: int|
            0 <= k < bindings.len() && (#[trigger] bindings[k]).name == name,
    decreases bindings.len(),
{
    if bindings.len() == 0 {
    } else {
        let front = bindings.drop_last();
        lemma_distinct_names_cover(front, name);
        let rest = distinct_names(front);
        if distinct_names(bindings).contains(name) {
            if rest.contains(name) {
                let k = choose|k: int| 0 <= k < front.len() && (#[trigger] front[k]).name == name;
                assert(bindings[k].name == name);
            } else {
                assert(rest.push(bindings.last().name).contains(name));
                let i = choose|i: int|
                    0 <= i < rest.push(bindings.last().name).len() && rest.push(
                        bindings.last().name,
                    )[i] == name;
                if i < rest.len() {
                    assert(rest[i] == name);
                }
                assert(bindings[bindings.len() - 1].name == name);
            }
        }
        if exists|k: int| 0 <= k < bindings.len() && (#[trigger] bindings[k]).name == name {
            let k = choose|k: int| 0 <= k < bindings.len() && (#[trigger] bindings[k]).name == name;
            if k < front.len() {
                assert(front[k].name == name);
                assert(rest.contains(name));
                if !rest.contains(bindings.last().name) {
                    let i = choose|i: int| 0 <= i < rest.len() && rest[i] == name;
                    assert(rest.push(bindings.last().name)[i] == name);
                }
            } else {
                if !rest.contains(bindings.last().name) {
                    assert(rest.push(name)[rest.len() as int] == name);
                }
            }
        }
    }
}

/// No name occurs twice in `distinct_names`.
pub proof fn lemma_distinct_names_no_duplicates(bindings: Seq<BindingModel>)
    ensures
        distinct_names(bindings).no_duplicates(),
    decreases bindings.len(),
{
    if bindings.len() > 0 {
        lemma_distinct_names_no_duplicates(bindings.drop_last());
    }
}

/// Some binding of the table binds `name` to `symbol`.
pub open spec fn binds(bindings: Seq<BindingModel>, name: Seq<char>, symbol: usize) -> bool {
    exists|k: int|
        0 <= k < bindings.len() && (#[trigger] bindings[k]).symbol == symbol && bindings[k].name
            == name
}

/// Every member of a binding set is the child of a binding of that name.
pub proof fn lemma_binding_set_members(
    bindings: Seq<BindingModel>,
    sections: Seq<SectionRange>,
    name: Seq<char>,
    position: u32,
)
    ensures
        forall|j: int|
            0 <= j < binding_set(bindings, sections, name, position).len() ==> binds(
                bindings,
                name,
                #[trigger] binding_set(bindings, sections, name, position)[j],
            ),
    decreases bindings.len(),
{
    if bindings.len() > 0 {
        let front = bindings.drop_last();
        lemma_binding_set_members(front, sections, name, position);
        let rest = binding_set(front, sections, name, position);
        let all = binding_set(bindings, sections, name, position);
        assert forall|j: int| 0 <= j < all.len() implies binds(bindings, name, #[trigger] all[j]) by {
            if j < rest.len() {
                assert(binds(front, name, rest[j]));
                let k = choose|k: int|
                    0 <= k < front.len() && (#[trigger] front[k]).symbol == rest[j] && front[k].name
                        == name;
                assert(bindings[k] == front[k]);
            } else {
                assert(bindings[bindings.len() - 1].symbol == all[j]);
            }
        }
    }
}

/// Whether `name` is among `names`.
pub fn contains_text(names: &Vec<String>, name: &String) -> (found: bool)
    ensures
        found == texts(names@).contains(name@),
{
    let mut i: usize = 0;
    while i < names.len()
        invariant
            i <= names.len(),
            forall|j: int| 0 <= j < i ==> texts(names@)[j] != name@,
        decreases names.len() - i,
    {
        if names[i] == *name {
            assert(texts(names@)[i as int] == name@);
            return true;
        }
        i += 1;
    }
    false
}

/// The child table of a container symbol.
pub struct SymbolMgr {
    pub sections: Vec<SectionRange>,
    pub symbols: Vec<Binding>,
}

impl SymbolMgr {
    /// The bindings of the table, as models.
    pub open spec fn bindings(&self) -> Seq<BindingModel> {
        binding_models(self.symbols@)
    }

    /// The sections are in order and every binding lies in one of them.
    pub open spec fn wf(&self) -> bool {
        table_wf(self.sections@, self.bindings())
    }

    /// A table with one section, which starts at offset 0, and no binding.
    pub fn new() -> (mgr: SymbolMgr)
        ensures
            mgr.wf(),
            mgr.sections@ == seq![SectionRange { start: 0, index: 0 }],
            mgr.bindings() == Seq::<BindingModel>::empty(),
    {
        let mut sections: Vec<SectionRange> = Vec::new();
        sections.push(SectionRange { start: 0, index: 0 });
        let mgr = SymbolMgr { sections, symbols: Vec::new() };
        assert(mgr.bindings() =~= Seq::<BindingModel>::empty());
        mgr
    }

    /// The section in which a binding made at `position` falls.
    pub fn get_section_for(&self, position: u32) -> (section: SectionRange)
        requires
            self.wf(),
        ensures
            section == self.sections[section_at(self.sections@, position)],
            section.index == section_at(self.sections@, position),
    {
        proof {
            lemma_section_at(self.sections@, position);
        }
        let mut i: usize = self.sections.len() - 1;
        assert(self.sections@.take(i + 1) == self.sections@);
        while i > 0 && self.sections[i].start > position
            invariant
                i < self.sections.len(),
                sections_wf(self.sections@),
                section_at(self.sections@, position) == section_at(
                    self.sections@.take(i + 1),
                    position,
                ),
            decreases i,
        {
            assert(self.sections@.take(i + 1).drop_last() == self.sections@.take(i as int));
            i -= 1;
        }
        proof {
            let prefix = self.sections@.take(i + 1);
            assert(prefix.last() == self.sections[i as int]);
            if i == 0 {
                assert(prefix.len() == 1);
            }
        }
        self.sections[i]
    }

    /// Opens a new section at `start`, which no earlier section goes beyond.
    pub fn add_section(&mut self, start: u32) -> (section: SectionRange)
        requires
            old(self).wf(),
            old(self).sections.len() < u32::MAX,
            old(self).sections[old(self).sections.len() - 1].start <= start,
        ensures
            final(self).wf(),
            final(self).sections@ == old(self).sections@.push(section),
            final(self).bindings() == old(self).bindings(),
            section == (SectionRange { start, index: old(self).sections.len() as u32 }),
    {
        let index: u32 = self.sections.len() as u32;
        let section = SectionRange { start, index };
        self.sections.push(section);
        proof {
            let before = old(self).sections@;
            let after = self.sections@;
            assert forall|i: int, j: int| 0 <= i <= j < after.len() implies (#[trigger] after[i]).start
                <= (#[trigger] after[j]).start by {
                if j < before.len() {
                    assert(before[i].start <= before[j].start);
                } else if i < before.len() {
                    assert(before[i].start <= before[before.len() - 1].start);
                }
            }
            assert forall|i: int| 0 <= i < after.len() implies (#[trigger] after[i]).index == i by {
                if i < before.len() {
                    assert(before[i].index == i);
                }
            }
        }
        section
    }

    /// Appends a binding of `name` to `symbol` in section `section`.
    pub fn add_symbol(&mut self, name: String, symbol: usize, section: u32)
        requires
            old(self).wf(),
            section < old(self).sections.len(),
        ensures
            final(self).wf(),
            final(self).sections == old(self).sections,
            final(self).bindings() == old(self).bindings().push(
                BindingModel { name: name@, section, symbol },
            ),
    {
        self.symbols.push(Binding { name, section, symbol });
        assert(self.bindings() =~= old(self).bindings().push(
            BindingModel { name: name@, section, symbol },
        ));
    }

    /// The children bound to `name` that are visible at `position`, oldest
    /// first. At `u32::MAX` every binding of the name is visible.
    pub fn get_content_symbol(&self, name: &String, position: u32) -> (found: Vec<usize>)
        requires
            self.wf(),
        ensures
            found@ == binding_set(self.bindings(), self.sections@, name@, position),
    {
        let mut found: Vec<usize> = Vec::new();
        let mut i: usize = 0;
        while i < self.symbols.len()
            invariant
                i <= self.symbols.len(),
                self.wf(),
                found@ == binding_set(self.bindings().take(i as int), self.sections@, name@, position),
            decreases self.symbols.len() - i,
        {
            assert(self.bindings().take(i + 1).drop_last() == self.bindings().take(i as int));
            let b = &self.symbols[i];
            assert(self.bindings().take(i + 1).last() == b@);
            if b.name == *name && self.sections[b.section as usize].start <= position {
                found.push(b.symbol);
            }
            i += 1;
        }
        assert(self.bindings().take(self.symbols.len() as int) == self.bindings());
        found
    }

    /// The names bound in the table, each once, in the order of their first
    /// binding.
    pub fn names(&self) -> (names: Vec<String>)
        ensures
            texts(names@) == distinct_names(self.bindings()),
    {
        let mut names: Vec<String> = Vec::new();
        let mut i: usize = 0;
        while i < self.symbols.len()
            invariant
                i <= self.symbols.len(),
                texts(names@) == distinct_names(self.bindings().take(i as int)),
            decreases self.symbols.len() - i,
        {
            assert(self.bindings().take(i + 1).drop_last() == self.bindings().take(i as int));
            assert(self.bindings().take(i + 1).last() == self.symbols[i as int]@);
            if !contains_text(&names, &self.symbols[i].name) {
                let ghost before = names@;
                names.push(self.symbols[i].name.clone());
                assert(texts(names@) == texts(before).push(self.symbols[i as int].name@));
            }
            i += 1;
        }
        assert(self.bindings().take(self.symbols.len() as int) == self.bindings());
        names
    }
}

} // verus!
