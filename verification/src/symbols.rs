//! The symbol table of a document: its models and enums by name.
//!
//! Models and enums share one namespace. Where a name is declared twice the
//! later declaration is the one that the table holds.

use vstd::prelude::*;
use vstd::string::*;
use crate::ast::Enum;
use crate::ast::EnumView;
use crate::ast::Model;
use crate::ast::ModelView;
use crate::order::lemma_precedes_asymmetric;
use crate::order::lemma_precedes_irreflexive;
use crate::order::lemma_precedes_transitive;
use crate::order::place;
use crate::order::Placement;
use crate::order::precedes;
use crate::span::Span;
use crate::syntax::Declaration;
use crate::syntax::DeclarationView;
use crate::syntax::Program;

verus! {

/// What a name stands for.
#[derive(Debug)]
pub enum Symbol {
    Model(Model),
    Enum(Enum),
}

/// What a symbol is to specifications.
pub enum SymbolView {
    Model(ModelView),
    Enum(EnumView),
}

impl SymbolView {
    pub open spec fn name(self) -> Seq<char> {
        match self {
            SymbolView::Model(model) => model.name,
            SymbolView::Enum(decl) => decl.name,
        }
    }
}

impl View for Symbol {
    type V = SymbolView;

    open spec fn view(&self) -> SymbolView {
        match *self {
            Symbol::Model(model) => SymbolView::Model(model@),
            Symbol::Enum(decl) => SymbolView::Enum(decl@),
        }
    }
}

/// A symbol together with the span of the declaration that it comes from.
#[derive(Debug)]
pub struct Entry {
    pub symbol: Symbol,
    pub span: Span,
}

/// What an entry is to specifications.
pub struct EntryView {
    pub symbol: SymbolView,
    pub span: Span,
}

impl EntryView {
    pub open spec fn name(self) -> Seq<char> {
        self.symbol.name()
    }
}

impl View for Entry {
    type V = EntryView;

    open spec fn view(&self) -> EntryView {
        EntryView { symbol: self.symbol@, span: self.span }
    }
}

impl Entry {
    pub fn name(&self) -> (name: &String)
        ensures
            name@ == self@.name(),
    {
        match &self.symbol {
            Symbol::Model(model) => &model.name,
            Symbol::Enum(decl) => &decl.name,
        }
    }

    /// The entry that a declaration gives.
    pub fn of(declaration: &Declaration) -> (entry: Entry)
        ensures
            entry@ == entry_of(declaration@),
    {
        match declaration {
            Declaration::Model(node) => Entry { symbol: Symbol::Model(node.model.duplicate()), span: node.span },
            Declaration::Enum(node) => Entry { symbol: Symbol::Enum(node.decl.duplicate()), span: node.span },
        }
    }
}

/// What the symbol table reports.
#[derive(Clone, Copy, Debug, PartialEq, Eq, Structural)]
pub enum SemanticDiagnostic {
    /// A name is declared again: the span of the declaration that held the
    /// name so far, and the span of the one that takes it over.
    DuplicateDeclaration { earlier: Span, later: Span },
    /// A field has an attribute a second time: the span of the one that
    /// stood for the field so far, and the span of the one that takes over.
    DuplicateAttribute { earlier: Span, later: Span },
    /// A type is referred to by a name that nothing declares.
    UnresolvedReference { span: Span },
}

impl SemanticDiagnostic {
    /// The span that the diagnostic marks in the text: that of the later
    /// declaration or attribute, or that of the unresolved name.
    pub open spec fn marked(self) -> Span {
        match self {
            SemanticDiagnostic::DuplicateDeclaration { later, .. } => later,
            SemanticDiagnostic::DuplicateAttribute { later, .. } => later,
            SemanticDiagnostic::UnresolvedReference { span } => span,
        }
    }

    /// What the diagnostic says, for the editor.
    pub open spec fn message_text(self) -> Seq<char> {
        match self {
            SemanticDiagnostic::DuplicateDeclaration { .. } => "duplicate declaration: this one replaces an earlier one of the same name"@,
            SemanticDiagnostic::DuplicateAttribute { .. } => "duplicate attribute: this one replaces an earlier one on the same field"@,
            SemanticDiagnostic::UnresolvedReference { .. } => "unresolved reference: no model or enum has this name"@,
        }
    }

    pub fn span(&self) -> (span: Span)
        ensures
            span == self.marked(),
    {
        match self {
            SemanticDiagnostic::DuplicateDeclaration { later, .. } => *later,
            SemanticDiagnostic::DuplicateAttribute { later, .. } => *later,
            SemanticDiagnostic::UnresolvedReference { span } => *span,
        }
    }

    pub fn message(&self) -> (message: String)
        ensures
            message@ == self.message_text(),
    {
        match self {
            SemanticDiagnostic::DuplicateDeclaration { .. } => String::from_str(
                "duplicate declaration: this one replaces an earlier one of the same name",
            ),
            SemanticDiagnostic::DuplicateAttribute { .. } => String::from_str(
                "duplicate attribute: this one replaces an earlier one on the same field",
            ),
            SemanticDiagnostic::UnresolvedReference { .. } => String::from_str(
                "unresolved reference: no model or enum has this name",
            ),
        }
    }
}

/// The entries as specifications see them, in their order.
pub open spec fn entries_view(entries: Seq<Entry>) -> Seq<EntryView> {
    Seq::new(entries.len(), |i: int| entries[i]@)
}

/// The names of `entries` rise strictly in alphabetical order.
pub open spec fn sorted(entries: Seq<EntryView>) -> bool {
    forall|i: int, j: int|
        0 <= i < j < entries.len() ==> precedes((#[trigger] entries[i]).name(), (#[trigger] entries[j]).name())
}

/// An entry of that name is among the entries.
pub open spec fn has_name(entries: Seq<EntryView>, name: Seq<char>) -> bool {
    exists|i: int| 0 <= i < entries.len() && (#[trigger] entries[i]).name() == name
}

/// The index of an entry of that name.
pub open spec fn index_of(entries: Seq<EntryView>, name: Seq<char>) -> int {
    choose|i: int| 0 <= i < entries.len() && (#[trigger] entries[i]).name() == name
}

/// The entries as a map from their names.
pub open spec fn entries_map(entries: Seq<EntryView>) -> Map<Seq<char>, EntryView> {
    Map::new(|name: Seq<char>| has_name(entries, name), |name: Seq<char>| entries[index_of(entries, name)])
}

/// The entry that a declaration gives.
pub open spec fn entry_of(declaration: DeclarationView) -> EntryView {
    EntryView {
        symbol: match declaration {
            DeclarationView::Model(node) => SymbolView::Model(node.model),
            DeclarationView::Enum(node) => SymbolView::Enum(node.decl),
        },
        span: declaration.span(),
    }
}

/// The table of a sequence of declarations: each name with the entry of the
/// last declaration of that name.
pub open spec fn symbols_of(declarations: Seq<DeclarationView>) -> Map<Seq<char>, EntryView>
    decreases declarations.len(),
{
    if declarations.len() == 0 {
        Map::empty()
    } else {
        symbols_of(declarations.drop_last()).insert(declarations.last().name(), entry_of(declarations.last()))
    }
}

/// The collisions in a sequence of declarations: one for each declaration
/// whose name was declared before, in the order of the declarations.
pub open spec fn collisions_of(declarations: Seq<DeclarationView>) -> Seq<SemanticDiagnostic>
    decreases declarations.len(),
{
    if declarations.len() == 0 {
        Seq::empty()
    } else {
        let before = symbols_of(declarations.drop_last());
        let last = declarations.last();
        if before.contains_key(last.name()) {
            collisions_of(declarations.drop_last()).push(
                SemanticDiagnostic::DuplicateDeclaration { earlier: before[last.name()].span, later: last.span() },
            )
        } else {
            collisions_of(declarations.drop_last())
        }
    }
}

/// In sorted entries each entry is what the map holds under its name.
pub proof fn lemma_entry_at(entries: Seq<EntryView>, i: int)
    requires
        sorted(entries),
        0 <= i < entries.len(),
    ensures
        entries_map(entries).contains_key(entries[i].name()),
        entries_map(entries)[entries[i].name()] == entries[i],
{
    let name = entries[i].name();
    assert(has_name(entries, name));
    let j = index_of(entries, name);
    lemma_precedes_irreflexive(name);
    if j < i {
        assert(precedes(entries[j].name(), entries[i].name()));
    } else if i < j {
        assert(precedes(entries[i].name(), entries[j].name()));
    }
}

/// A name that belongs at index `k` of sorted entries and is not there is nowhere in them.
proof fn lemma_absent(entries: Seq<EntryView>, k: int, name: Seq<char>)
    requires
        sorted(entries),
        0 <= k <= entries.len(),
        forall|j: int| 0 <= j < k ==> precedes((#[trigger] entries[j]).name(), name),
        k < entries.len() ==> precedes(name, entries[k].name()),
    ensures
        !has_name(entries, name),
        forall|j: int| k <= j < entries.len() ==> precedes(name, (#[trigger] entries[j]).name()),
{
    lemma_precedes_irreflexive(name);
    assert forall|j: int| k <= j < entries.len() implies precedes(name, (#[trigger] entries[j]).name()) by {
        if j > k {
            assert(precedes(entries[k].name(), entries[j].name()));
            lemma_precedes_transitive(name, entries[k].name(), entries[j].name());
        }
    }
}

proof fn lemma_replace(entries: Seq<EntryView>, k: int, entry: EntryView)
    requires
        sorted(entries),
        0 <= k < entries.len(),
        entries[k].name() == entry.name(),
    ensures
        sorted(entries.update(k, entry)),
        entries_map(entries.update(k, entry)) == entries_map(entries).insert(entry.name(), entry),
{
    let after = entries.update(k, entry);
    assert forall|i: int, j: int| 0 <= i < j < after.len() implies precedes(
        (#[trigger] after[i]).name(),
        (#[trigger] after[j]).name(),
    ) by {
        assert(precedes(entries[i].name(), entries[j].name()));
    }
    assert forall|name: Seq<char>| has_name(after, name) <==> (name == entry.name() || has_name(entries, name)) by {
        if has_name(after, name) {
            let i = index_of(after, name);
            assert(entries[i].name() == name);
        }
        if has_name(entries, name) {
            let i = index_of(entries, name);
            assert(after[i].name() == name);
        }
        if name == entry.name() {
            assert(after[k].name() == name);
        }
    }
    assert forall|name: Seq<char>| has_name(after, name) implies entries_map(after)[name] == entries_map(
        entries,
    ).insert(entry.name(), entry)[name] by {
        let i = index_of(after, name);
        lemma_entry_at(after, i);
        if i != k {
            lemma_entry_at(entries, i);
            lemma_precedes_irreflexive(name);
            if i < k {
                assert(precedes(entries[i].name(), entries[k].name()));
            } else {
                assert(precedes(entries[k].name(), entries[i].name()));
            }
        }
    }
    assert(entries_map(after) =~= entries_map(entries).insert(entry.name(), entry));
}

proof fn lemma_insert(entries: Seq<EntryView>, k: int, entry: EntryView)
    requires
        sorted(entries),
        0 <= k <= entries.len(),
        forall|j: int| 0 <= j < k ==> precedes((#[trigger] entries[j]).name(), entry.name()),
        k < entries.len() ==> precedes(entry.name(), entries[k].name()),
    ensures
        sorted(entries.insert(k, entry)),
        entries_map(entries.insert(k, entry)) == entries_map(entries).insert(entry.name(), entry),
        !entries_map(entries).contains_key(entry.name()),
{
    let after = entries.insert(k, entry);
    lemma_absent(entries, k, entry.name());
    assert forall|i: int, j: int| 0 <= i < j < after.len() implies precedes(
        (#[trigger] after[i]).name(),
        (#[trigger] after[j]).name(),
    ) by {
        if j < k {
            assert(precedes(entries[i].name(), entries[j].name()));
        } else if j == k {
            assert(after[i] == entries[i]);
        } else if i < k {
            assert(after[j] == entries[j - 1]);
            assert(after[i] == entries[i]);
            if i < j - 1 {
                assert(precedes(entries[i].name(), entries[j - 1].name()));
            }
        } else if i == k {
            assert(after[j] == entries[j - 1]);
        } else {
            assert(after[j] == entries[j - 1]);
            assert(after[i] == entries[i - 1]);
            assert(precedes(entries[i - 1].name(), entries[j - 1].name()));
        }
    }
    assert forall|name: Seq<char>| has_name(after, name) <==> (name == entry.name() || has_name(entries, name)) by {
        if has_name(after, name) {
            let i = index_of(after, name);
            if i < k {
                assert(entries[i].name() == name);
            } else if i > k {
                assert(entries[i - 1].name() == name);
            }
        }
        if has_name(entries, name) {
            let i = index_of(entries, name);
            if i < k {
                assert(after[i].name() == name);
            } else {
                assert(after[i + 1].name() == name);
            }
        }
        if name == entry.name() {
            assert(after[k].name() == name);
        }
    }
    assert forall|name: Seq<char>| has_name(after, name) implies entries_map(after)[name] == entries_map(
        entries,
    ).insert(entry.name(), entry)[name] by {
        let i = index_of(after, name);
        lemma_entry_at(after, i);
        if i < k {
            lemma_entry_at(entries, i);
        } else if i > k {
            lemma_entry_at(entries, i - 1);
        }
    }
    assert(entries_map(after) =~= entries_map(entries).insert(entry.name(), entry));
}

/// Without its last entry a sorted listing maps what it mapped before, but for the last name.
proof fn lemma_without_last(entries: Seq<EntryView>)
    requires
        sorted(entries),
        entries.len() > 0,
    ensures
        sorted(entries.drop_last()),
        entries_map(entries.drop_last()) == entries_map(entries).remove(entries.last().name()),
{
    let rest = entries.drop_last();
    let gone = entries.last().name();
    assert forall|i: int, j: int| 0 <= i < j < rest.len() implies precedes(
        (#[trigger] rest[i]).name(),
        (#[trigger] rest[j]).name(),
    ) by {
        assert(precedes(entries[i].name(), entries[j].name()));
    }
    assert forall|name: Seq<char>| has_name(rest, name) <==> (name != gone && has_name(entries, name)) by {
        if has_name(rest, name) {
            let i = index_of(rest, name);
            assert(entries[i].name() == name);
            assert(precedes(entries[i].name(), entries[entries.len() - 1].name()));
            lemma_precedes_irreflexive(name);
        }
        if name != gone && has_name(entries, name) {
            let i = index_of(entries, name);
            assert(rest[i].name() == name);
        }
    }
    assert forall|name: Seq<char>| has_name(rest, name) implies entries_map(rest)[name] == entries_map(
        entries,
    ).remove(gone)[name] by {
        let i = index_of(rest, name);
        lemma_entry_at(rest, i);
        assert(rest[i] == entries[i]);
        lemma_entry_at(entries, i);
    }
    assert(entries_map(rest) =~= entries_map(entries).remove(gone));
}

/// A table has one listing only: two sorted listings that map the same names
/// to the same entries are the same listing.
pub proof fn lemma_listing_unique(a: Seq<EntryView>, b: Seq<EntryView>)
    requires
        sorted(a),
        sorted(b),
        entries_map(a) == entries_map(b),
    ensures
        a == b,
    decreases a.len(),
{
    if a.len() == 0 {
        if b.len() > 0 {
            lemma_entry_at(b, 0);
            assert(has_name(a, b[0].name()));
        }
        assert(a =~= b);
    } else {
        let last = a.last();
        lemma_entry_at(a, a.len() - 1);
        assert(has_name(b, last.name()));
        let j = index_of(b, last.name());
        lemma_entry_at(b, j);
        lemma_entry_at(b, b.len() - 1);
        assert(has_name(a, b.last().name()));
        let i = index_of(a, b.last().name());
        lemma_entry_at(a, i);
        if j < b.len() - 1 {
            assert(precedes(b[j].name(), b[b.len() - 1].name()));
            if i < a.len() - 1 {
                assert(precedes(a[i].name(), a[a.len() - 1].name()));
                lemma_precedes_asymmetric(last.name(), b.last().name());
            }
            lemma_precedes_irreflexive(last.name());
        }
        assert(b.last() == last);
        lemma_without_last(a);
        lemma_without_last(b);
        lemma_listing_unique(a.drop_last(), b.drop_last());
        assert(a =~= a.drop_last().push(last));
        assert(b =~= b.drop_last().push(last));
    }
}

/// The table of a sequence of declarations holds exactly the names that are declared.
pub proof fn lemma_symbols_domain(declarations: Seq<DeclarationView>, name: Seq<char>)
    ensures
        symbols_of(declarations).contains_key(name) <==> exists|i: int|
            0 <= i < declarations.len() && (#[trigger] declarations[i]).name() == name,
    decreases declarations.len(),
{
    if declarations.len() > 0 {
        let rest = declarations.drop_last();
        lemma_symbols_domain(rest, name);
        if symbols_of(declarations).contains_key(name) {
            if declarations.last().name() == name {
                assert(declarations[declarations.len() - 1].name() == name);
            } else {
                let i = choose|i: int| 0 <= i < rest.len() && (#[trigger] rest[i]).name() == name;
                assert(declarations[i].name() == name);
            }
        }
        if exists|i: int| 0 <= i < declarations.len() && (#[trigger] declarations[i]).name() == name {
            let i = choose|i: int| 0 <= i < declarations.len() && (#[trigger] declarations[i]).name() == name;
            if i < rest.len() {
                assert(rest[i].name() == name);
            }
        }
    }
}

/// Of the declarations of one name the last one wins: the table holds under
/// a name what the last declaration of that name gives.
pub proof fn lemma_last_declaration_wins(declarations: Seq<DeclarationView>, i: int)
    requires
        0 <= i < declarations.len(),
        forall|j: int| i < j < declarations.len() ==> (#[trigger] declarations[j]).name() != declarations[i].name(),
    ensures
        symbols_of(declarations).contains_key(declarations[i].name()),
        symbols_of(declarations)[declarations[i].name()] == entry_of(declarations[i]),
    decreases declarations.len(),
{
    let rest = declarations.drop_last();
    if i < declarations.len() - 1 {
        assert(rest[i] == declarations[i]);
        assert forall|j: int| i < j < rest.len() implies (#[trigger] rest[j]).name() != rest[i].name() by {
            assert(rest[j] == declarations[j]);
        }
        lemma_last_declaration_wins(rest, i);
        assert(declarations[declarations.len() - 1].name() != declarations[i].name());
    }
}

/// Where the last declaration takes a name that was declared before, the
/// last collision reported has the span of the declaration that held the
/// name until then, and the span of the last declaration.
pub proof fn lemma_redeclaration_reported(declarations: Seq<DeclarationView>, i: int, j: int)
    requires
        0 <= i < j < declarations.len(),
        j == declarations.len() - 1,
        declarations[i].name() == declarations[j].name(),
        forall|k: int| i < k < j ==> (#[trigger] declarations[k]).name() != declarations[i].name(),
    ensures
        collisions_of(declarations).len() > 0,
        collisions_of(declarations).last() == (SemanticDiagnostic::DuplicateDeclaration {
            earlier: declarations[i].span(),
            later: declarations[j].span(),
        }),
{
    let rest = declarations.drop_last();
    assert(rest[i] == declarations[i]);
    assert forall|k: int| i < k < rest.len() implies (#[trigger] rest[k]).name() != rest[i].name() by {
        assert(rest[k] == declarations[k]);
    }
    lemma_last_declaration_wins(rest, i);
}

/// The models and enums of a document by name, listed in alphabetical order.
#[derive(Debug)]
pub struct SymbolTable {
    entries: Vec<Entry>,
}

impl View for SymbolTable {
    type V = Map<Seq<char>, EntryView>;

    open spec fn view(&self) -> Map<Seq<char>, EntryView> {
        entries_map(self.listing())
    }
}

impl SymbolTable {
    /// The entries of the table in alphabetical order of their names.
    pub closed spec fn listing(&self) -> Seq<EntryView> {
        entries_view(self.entries@)
    }

    /// No name occurs twice, and the listing is in alphabetical order.
    pub open spec fn wf(&self) -> bool {
        sorted(self.listing())
    }

    /// Two tables that hold the same entries under the same names list them
    /// in the same order, whatever the order in which they were filled.
    pub proof fn lemma_same_listing(&self, other: &SymbolTable)
        requires
            self.wf(),
            other.wf(),
            self@ == other@,
        ensures
            self.listing() == other.listing(),
    {
        lemma_listing_unique(self.listing(), other.listing());
    }

    /// A table that holds nothing.
    pub fn new() -> (table: SymbolTable)
        ensures
            table.wf(),
            table.listing() == Seq::<EntryView>::empty(),
            table@ == Map::<Seq<char>, EntryView>::empty(),
    {
        let table = SymbolTable { entries: Vec::new() };
        assert(table.listing() =~= Seq::<EntryView>::empty());
        assert(table@ =~= Map::<Seq<char>, EntryView>::empty());
        table
    }

    /// The number of names in the table.
    pub fn len(&self) -> (n: usize)
        ensures
            n == self.listing().len(),
    {
        self.entries.len()
    }

    /// The entry at index `i` of the listing.
    pub fn entry(&self, i: usize) -> (entry: &Entry)
        requires
            i < self.listing().len(),
        ensures
            entry@ == self.listing()[i as int],
    {
        &self.entries[i]
    }

    /// The index at which `name` stands or would stand, and whether it stands there.
    fn find(&self, name: &str) -> (r: (usize, bool))
        requires
            self.wf(),
        ensures
            r.0 <= self.listing().len(),
            forall|j: int| 0 <= j < r.0 ==> precedes((#[trigger] self.listing()[j]).name(), name@),
            r.1 ==> r.0 < self.listing().len() && self.listing()[r.0 as int].name() == name@,
            !r.1 && r.0 < self.listing().len() ==> precedes(name@, self.listing()[r.0 as int].name()),
    {
        let mut k: usize = 0;
        while k < self.entries.len()
            invariant
                k <= self.entries.len(),
                forall|j: int| 0 <= j < k ==> precedes((#[trigger] self.listing()[j]).name(), name@),
            decreases self.entries.len() - k,
        {
            match place(self.entries[k].name().as_str(), name) {
                Placement::Before => {
                    k += 1;
                },
                Placement::Same => {
                    return (k, true);
                },
                Placement::After => {
                    return (k, false);
                },
            }
        }
        (k, false)
    }

    /// The entry that the table holds under `name`, if it holds one.
    pub fn lookup(&self, name: &str) -> (found: Option<&Entry>)
        requires
            self.wf(),
        ensures
            match found {
                Some(entry) => self@.contains_key(name@) && entry@ == self@[name@],
                None => !self@.contains_key(name@),
            },
    {
        let (k, found) = self.find(name);
        if found {
            proof {
                lemma_entry_at(self.listing(), k as int);
            }
            Some(&self.entries[k])
        } else {
            proof {
                lemma_absent(self.listing(), k as int, name@);
            }
            None
        }
    }

    /// Puts `entry` under its name, in place of what the table held under
    /// that name so far, and hands back what it held.
    pub fn insert(&mut self, entry: Entry) -> (replaced: Option<Entry>)
        requires
            old(self).wf(),
        ensures
            final(self).wf(),
            final(self)@ == old(self)@.insert(entry@.name(), entry@),
            match replaced {
                Some(previous) => old(self)@.contains_key(entry@.name()) && previous@ == old(self)@[entry@.name()],
                None => !old(self)@.contains_key(entry@.name()),
            },
    {
        let ghost before = self.listing();
        let ghost added = entry@;
        let (k, found) = self.find(entry.name().as_str());
        if found {
            let previous = self.entries.remove(k);
            self.entries.insert(k, entry);
            proof {
                lemma_entry_at(before, k as int);
                lemma_replace(before, k as int, added);
                assert(self.listing() =~= before.update(k as int, added));
            }
            Some(previous)
        } else {
            self.entries.insert(k, entry);
            proof {
                lemma_insert(before, k as int, added);
                assert(self.listing() =~= before.insert(k as int, added));
            }
            None
        }
    }

    /// Builds the table of `program`: every declaration is put under its
    /// name, in the order of the text, so that of two declarations of one
    /// name the later one stays. Each such collision is reported with the
    /// spans of both declarations.
    pub fn build(program: &Program) -> (r: (SymbolTable, Vec<SemanticDiagnostic>))
        ensures
            r.0.wf(),
            r.0@ == symbols_of(program@.declarations),
            r.1@ == collisions_of(program@.declarations),
    {
        let mut table = SymbolTable::new();
        let mut diagnostics: Vec<SemanticDiagnostic> = Vec::new();
        let mut i: usize = 0;
        let ghost all = program@.declarations;
        assert(all.take(0) =~= Seq::empty());
        while i < program.declarations.len()
            invariant
                i <= program.declarations.len(),
                all == program@.declarations,
                table.wf(),
                table@ == symbols_of(all.take(i as int)),
                diagnostics@ == collisions_of(all.take(i as int)),
            decreases program.declarations.len() - i,
        {
            proof {
                assert(all.take(i + 1).drop_last() =~= all.take(i as int));
                assert(all.take(i + 1).last() == program.declarations@[i as int]@);
            }
            let declaration = &program.declarations[i];
            let replaced = table.insert(Entry::of(declaration));
            match replaced {
                Some(previous) => {
                    diagnostics.push(
                        SemanticDiagnostic::DuplicateDeclaration { earlier: previous.span, later: declaration.span() },
                    );
                },
                None => {},
            }
            i += 1;
        }
        assert(all.take(i as int) =~= all);
        (table, diagnostics)
    }
}

} // verus!
