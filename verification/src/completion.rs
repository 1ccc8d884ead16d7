//! Completion: what can be written at a cursor position.

use vstd::prelude::*;
use vstd::string::*;
use crate::order::lemma_precedes_transitive;
use crate::order::lemma_prefix_skipped;
use crate::order::precedes;
use crate::resolve::AttributeSet;
use crate::resolve::SyntaxContext;
use crate::symbols::Entry;
use crate::symbols::EntryView;
use crate::symbols::sorted;
use crate::symbols::Symbol;
use crate::symbols::SymbolTable;
use crate::symbols::SymbolView;

verus! {

/// What kind of thing a completion proposes, for the editor's icon.
#[derive(Clone, Copy, Debug, PartialEq, Eq, Structural)]
pub enum CompletionKind {
    Keyword,
    Type,
    Enum,
    Model,
}

/// One proposal of what to write.
#[derive(Debug)]
pub struct CompletionItem {
    /// The text to insert.
    pub label: String,
    /// One line on what the label stands for.
    pub detail: String,
    pub kind: CompletionKind,
}

/// What a proposal is to specifications.
pub struct CompletionItemView {
    pub label: Seq<char>,
    pub detail: Seq<char>,
    pub kind: CompletionKind,
}

impl View for CompletionItem {
    type V = CompletionItemView;

    open spec fn view(&self) -> CompletionItemView {
        CompletionItemView { label: self.label@, detail: self.detail@, kind: self.kind }
    }
}

/// The proposals as specifications see them, in their order.
pub open spec fn items_view(items: Seq<CompletionItem>) -> Seq<CompletionItemView> {
    Seq::new(items.len(), |i: int| items[i]@)
}

/// The proposal with the given label, detail and kind.
pub open spec fn item(label: Seq<char>, detail: Seq<char>, kind: CompletionKind) -> CompletionItemView {
    CompletionItemView { label, detail, kind }
}

/// The keywords that open a declaration.
pub open spec fn declaration_items() -> Seq<CompletionItemView> {
    seq![
        item("enum"@, "Keyword: Declares an enum"@, CompletionKind::Keyword),
        item("model"@, "Keyword: Declares a model"@, CompletionKind::Keyword),
    ]
}

/// The built-in data types.
pub open spec fn builtin_items() -> Seq<CompletionItemView> {
    seq![
        item("Boolean"@, "Built-in type"@, CompletionKind::Type),
        item("Data"@, "Built-in type"@, CompletionKind::Type),
        item("DateTime"@, "Built-in type"@, CompletionKind::Type),
        item("Float"@, "Built-in type"@, CompletionKind::Type),
        item("Int"@, "Built-in type"@, CompletionKind::Type),
        item("String"@, "Built-in type"@, CompletionKind::Type),
        item("UUID"@, "Built-in type"@, CompletionKind::Type),
    ]
}

/// The proposal that a declared name gives.
pub open spec fn symbol_item(entry: EntryView) -> CompletionItemView {
    match entry.symbol {
        SymbolView::Enum(decl) => item(decl.name, "Enum"@, CompletionKind::Enum),
        SymbolView::Model(model) => item(model.name, "Model"@, CompletionKind::Model),
    }
}

/// The proposals that the entries of a listing give, in the order of the listing.
pub open spec fn symbol_items(listing: Seq<EntryView>) -> Seq<CompletionItemView> {
    Seq::new(listing.len(), |i: int| symbol_item(listing[i]))
}

pub open spec fn default_item() -> CompletionItemView {
    item("default"@, "Attribute: Sets default value for field"@, CompletionKind::Keyword)
}

pub open spec fn optional_item() -> CompletionItemView {
    item("optional"@, "Attribute: Makes field optional"@, CompletionKind::Keyword)
}

pub open spec fn queryable_item() -> CompletionItemView {
    item("queryable"@, "Attribute: Makes field queryable"@, CompletionKind::Keyword)
}

/// The proposal, unless the field has the attribute already.
pub open spec fn unless(present: bool, proposal: CompletionItemView) -> Seq<CompletionItemView> {
    if present {
        Seq::empty()
    } else {
        seq![proposal]
    }
}

/// The attributes that a field does not have yet.
pub open spec fn attribute_items(present: AttributeSet) -> Seq<CompletionItemView> {
    unless(present.default, default_item()) + unless(present.optional, optional_item()) + unless(
        present.queryable,
        queryable_item(),
    )
}

/// The completions at a position of the given context, in a document whose
/// symbol table lists `listing`: built-in proposals come first, declared
/// names behind them, each group in alphabetical order.
pub open spec fn completions(listing: Seq<EntryView>, context: SyntaxContext) -> Seq<CompletionItemView> {
    match context {
        SyntaxContext::TopLevel => declaration_items(),
        SyntaxContext::InsideModelBody => Seq::empty(),
        SyntaxContext::FieldTypePosition => builtin_items() + symbol_items(listing),
        SyntaxContext::FieldAttributePosition { present } => attribute_items(present),
        SyntaxContext::InsideEnumBody => Seq::empty(),
    }
}

/// The labels of the proposals rise strictly in alphabetical order.
pub open spec fn ascending(items: Seq<CompletionItemView>) -> bool {
    forall|i: int, j: int|
        0 <= i < j < items.len() ==> precedes((#[trigger] items[i]).label, (#[trigger] items[j]).label)
}

/// Each proposal comes before the next one.
pub open spec fn neighbours_ascend(items: Seq<CompletionItemView>) -> bool {
    forall|i: int, j: int|
        0 <= i && j == i + 1 && j < items.len() ==> precedes((#[trigger] items[i]).label, (#[trigger] items[j]).label)
}

proof fn lemma_first_letter(a: Seq<char>, b: Seq<char>)
    requires
        a.len() > 0,
        b.len() > 0,
        a[0] < b[0],
    ensures
        precedes(a, b),
{
}

/// The built-in types are listed in alphabetical order.
proof fn lemma_builtins_ascending()
    ensures
        ascending(builtin_items()),
{
    reveal_strlit("Boolean");
    reveal_strlit("Data");
    reveal_strlit("DateTime");
    reveal_strlit("Float");
    reveal_strlit("Int");
    reveal_strlit("String");
    reveal_strlit("UUID");
    let items = builtin_items();
    lemma_first_letter("Boolean"@, "Data"@);
    assert(precedes("Data"@, "DateTime"@)) by {
        lemma_prefix_skipped("Data"@, "DateTime"@, 3, 0);
    }
    lemma_first_letter("DateTime"@, "Float"@);
    lemma_first_letter("Float"@, "Int"@);
    lemma_first_letter("Int"@, "String"@);
    lemma_first_letter("String"@, "UUID"@);
    assert(neighbours_ascend(items));
    lemma_ascending_from_neighbours(items);
}

/// Proposals of which each comes before its neighbour are in ascending order.
proof fn lemma_ascending_from_neighbours(items: Seq<CompletionItemView>)
    requires
        neighbours_ascend(items),
    ensures
        ascending(items),
{
    assert forall|i: int, j: int| 0 <= i < j < items.len() implies precedes(
        (#[trigger] items[i]).label,
        (#[trigger] items[j]).label,
    ) by {
        lemma_reaches(items, i, j);
    }
}

proof fn lemma_reaches(items: Seq<CompletionItemView>, i: int, j: int)
    requires
        neighbours_ascend(items),
        0 <= i < j < items.len(),
    ensures
        precedes(items[i].label, items[j].label),
    decreases j - i,
{
    if i + 1 < j {
        lemma_reaches(items, i, j - 1);
        assert(precedes(items[j - 1].label, items[j].label));
        lemma_precedes_transitive(items[i].label, items[j - 1].label, items[j].label);
    } else {
        assert(precedes(items[i].label, items[j].label));
    }
}

/// In every context each group of completions is in alphabetical order: the
/// keywords, the built-in types, the declared names and the attributes.
pub proof fn lemma_groups_ascending(listing: Seq<EntryView>, present: AttributeSet)
    requires
        sorted(listing),
    ensures
        ascending(declaration_items()),
        ascending(builtin_items()),
        ascending(symbol_items(listing)),
        ascending(attribute_items(present)),
{
    lemma_builtins_ascending();
    reveal_strlit("enum");
    reveal_strlit("model");
    lemma_first_letter("enum"@, "model"@);
    reveal_strlit("default");
    reveal_strlit("optional");
    reveal_strlit("queryable");
    lemma_first_letter("default"@, "optional"@);
    lemma_first_letter("optional"@, "queryable"@);
    lemma_first_letter("default"@, "queryable"@);
    let names = symbol_items(listing);
    assert forall|i: int, j: int| 0 <= i < j < names.len() implies precedes(
        (#[trigger] names[i]).label,
        (#[trigger] names[j]).label,
    ) by {
        assert(precedes(listing[i].name(), listing[j].name()));
    }
}

/// What is proposed depends on the entries of the table and on the context
/// alone: two tables that hold the same entries under the same names give
/// the same completions, in the same order.
pub proof fn lemma_completion_deterministic(a: &SymbolTable, b: &SymbolTable, context: SyntaxContext)
    requires
        a.wf(),
        b.wf(),
        a@ == b@,
    ensures
        completions(a.listing(), context) == completions(b.listing(), context),
{
    a.lemma_same_listing(b);
}

/// Where a name is to be invented, in the body of a model or of an enum,
/// nothing is proposed, whatever the table holds.
pub proof fn lemma_bodies_propose_nothing(listing: Seq<EntryView>)
    ensures
        completions(listing, SyntaxContext::InsideModelBody) == Seq::<CompletionItemView>::empty(),
        completions(listing, SyntaxContext::InsideEnumBody) == Seq::<CompletionItemView>::empty(),
{
}

fn propose(items: &mut Vec<CompletionItem>, label: &str, detail: &str, kind: CompletionKind)
    ensures
        items_view(final(items)@) == items_view(old(items)@).push(item(label@, detail@, kind)),
{
    let ghost before = items_view(items@);
    items.push(CompletionItem { label: String::from_str(label), detail: String::from_str(detail), kind });
    assert(items_view(items@) =~= before.push(item(label@, detail@, kind)));
}

fn propose_symbol(items: &mut Vec<CompletionItem>, entry: &Entry)
    ensures
        items_view(final(items)@) == items_view(old(items)@).push(symbol_item(entry@)),
{
    match &entry.symbol {
        Symbol::Enum(decl) => propose(items, decl.name.as_str(), "Enum", CompletionKind::Enum),
        Symbol::Model(model) => propose(items, model.name.as_str(), "Model", CompletionKind::Model),
    }
}

/// Lists what can be written at a position of the given context.
///
/// At top level these are the two declaration keywords. Where a type is
/// expected they are the built-in types, then every name of the table. Where
/// attributes are listed they are the attributes that the field does not
/// have yet. Where a name is to be invented, in the body of a model or of an
/// enum, nothing is proposed.
pub fn complete(table: &SymbolTable, context: &SyntaxContext) -> (items: Vec<CompletionItem>)
    ensures
        items_view(items@) == completions(table.listing(), *context),
{
    let mut items: Vec<CompletionItem> = Vec::new();
    assert(items_view(items@) =~= Seq::empty());
    match context {
        SyntaxContext::TopLevel => {
            propose(&mut items, "enum", "Keyword: Declares an enum", CompletionKind::Keyword);
            propose(&mut items, "model", "Keyword: Declares a model", CompletionKind::Keyword);
            assert(items_view(items@) =~= declaration_items());
        },
        SyntaxContext::InsideModelBody => {},
        SyntaxContext::InsideEnumBody => {},
        SyntaxContext::FieldTypePosition => {
            propose(&mut items, "Boolean", "Built-in type", CompletionKind::Type);
            propose(&mut items, "Data", "Built-in type", CompletionKind::Type);
            propose(&mut items, "DateTime", "Built-in type", CompletionKind::Type);
            propose(&mut items, "Float", "Built-in type", CompletionKind::Type);
            propose(&mut items, "Int", "Built-in type", CompletionKind::Type);
            propose(&mut items, "String", "Built-in type", CompletionKind::Type);
            propose(&mut items, "UUID", "Built-in type", CompletionKind::Type);
            assert(items_view(items@) =~= builtin_items());
            let n = table.len();
            let mut i: usize = 0;
            while i < n
                invariant
                    i <= n,
                    n == table.listing().len(),
                    items_view(items@) == builtin_items() + symbol_items(table.listing()).take(i as int),
                decreases n - i,
            {
                propose_symbol(&mut items, table.entry(i));
                i += 1;
                assert(items_view(items@) =~= builtin_items() + symbol_items(table.listing()).take(i as int));
            }
            assert(symbol_items(table.listing()).take(n as int) =~= symbol_items(table.listing()));
        },
        SyntaxContext::FieldAttributePosition { present } => {
            if !present.default {
                propose(&mut items, "default", "Attribute: Sets default value for field", CompletionKind::Keyword);
            }
            if !present.optional {
                propose(&mut items, "optional", "Attribute: Makes field optional", CompletionKind::Keyword);
            }
            if !present.queryable {
                propose(&mut items, "queryable", "Attribute: Makes field queryable", CompletionKind::Keyword);
            }
            assert(items_view(items@) =~= attribute_items(*present));
        },
    }
    items
}

} // verus!
