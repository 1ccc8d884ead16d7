//! Hover: a description of what stands at a cursor position.

use vstd::prelude::*;
use vstd::string::*;
use crate::ast::Attribute;
use crate::ast::attributes_view;
use crate::ast::AttributeView;
use crate::ast::DataType;
use crate::ast::DataTypeView;
use crate::ast::Enum;
use crate::ast::Field;
use crate::ast::FieldView;
use crate::ast::Model;
use crate::resolve::enclosing;
use crate::resolve::find_enclosing;
use crate::span::Span;
use crate::symbols::EntryView;
use crate::symbols::SemanticDiagnostic;
use crate::symbols::Symbol;
use crate::symbols::SymbolTable;
use crate::symbols::SymbolView;
use crate::syntax::Declaration;
use crate::syntax::DeclarationView;
use crate::syntax::field_spans_view;
use crate::syntax::FieldSpans;
use crate::syntax::FieldSpansView;
use crate::syntax::ModelNode;
use crate::syntax::ModelNodeView;
use crate::syntax::Program;
use crate::syntax::ProgramView;

verus! {

/// What hovering shows: a text, the span that it is about, and a diagnostic
/// where the hovered field refers to a type that nothing declares.
#[derive(Debug)]
pub struct HoverInfo {
    pub text: String,
    pub span: Span,
    pub diagnostic: Option<SemanticDiagnostic>,
}

/// What a hover text is to specifications.
pub struct HoverInfoView {
    pub text: Seq<char>,
    pub span: Span,
    pub diagnostic: Option<SemanticDiagnostic>,
}

impl View for HoverInfo {
    type V = HoverInfoView;

    open spec fn view(&self) -> HoverInfoView {
        HoverInfoView { text: self.text@, span: self.span, diagnostic: self.diagnostic }
    }
}

/// The names, separated by a comma and a space.
pub open spec fn joined(names: Seq<Seq<char>>) -> Seq<char>
    decreases names.len(),
{
    if names.len() == 0 {
        Seq::empty()
    } else if names.len() == 1 {
        names[0]
    } else {
        joined(names.drop_last()) + ", "@ + names.last()
    }
}

/// A declaration in short: `head`, the name, and the members in braces.
pub open spec fn summary(head: Seq<char>, name: Seq<char>, members: Seq<Seq<char>>) -> Seq<char> {
    if members.len() == 0 {
        head + name + " {}"@
    } else {
        head + name + " { "@ + joined(members) + " }"@
    }
}

/// The names of the fields, in their order.
pub open spec fn field_names(fields: Seq<FieldView>) -> Seq<Seq<char>> {
    Seq::new(fields.len(), |i: int| fields[i].name)
}

/// An enum with its variants, or a model with the names of its fields.
pub open spec fn symbol_text(symbol: SymbolView) -> Seq<char> {
    match symbol {
        SymbolView::Enum(decl) => summary("enum "@, decl.name, decl.values),
        SymbolView::Model(model) => summary("model "@, model.name, field_names(model.fields)),
    }
}

/// A type as a field shows it: a built-in type by its name, a declared type
/// by its kind and name, and a name that nothing declares marked as such.
pub open spec fn type_text(data_type: DataTypeView, table: Map<Seq<char>, EntryView>) -> Seq<char> {
    match data_type {
        DataTypeView::UUID => "UUID"@,
        DataTypeView::String => "String"@,
        DataTypeView::DateTime => "DateTime"@,
        DataTypeView::Data => "Data"@,
        DataTypeView::Int => "Int"@,
        DataTypeView::Float => "Float"@,
        DataTypeView::Boolean => "Boolean"@,
        DataTypeView::Enum(name) => if table.contains_key(name) {
            match table[name].symbol {
                SymbolView::Enum(_) => "enum "@ + name,
                SymbolView::Model(_) => "model "@ + name,
            }
        } else {
            name + " (unresolved)"@
        },
    }
}

/// An attribute as it is written.
pub open spec fn attribute_text(attribute: AttributeView) -> Seq<char> {
    match attribute {
        AttributeView::Queryable => "queryable"@,
        AttributeView::Default(value) => "default("@ + value + ")"@,
        AttributeView::Optional => "optional"@,
    }
}

/// The attributes in their order, each behind a space.
pub open spec fn attributes_text(attributes: Seq<AttributeView>) -> Seq<char>
    decreases attributes.len(),
{
    if attributes.len() == 0 {
        Seq::empty()
    } else {
        attributes_text(attributes.drop_last()) + " "@ + attribute_text(attributes.last())
    }
}

/// A field as hovering shows it: name, type (in brackets for an array) and attributes.
pub open spec fn field_text(field: FieldView, table: Map<Seq<char>, EntryView>) -> Seq<char> {
    let shown = type_text(field.data_type, table);
    field.name + ": "@ + (if field.inner_type is Some {
        "["@ + shown + "]"@
    } else {
        shown
    }) + attributes_text(field.attributes)
}

/// What an attribute means, in one line.
pub open spec fn attribute_note(attribute: AttributeView) -> Seq<char> {
    match attribute {
        AttributeView::Queryable => "queryable: the field can be used in queries"@,
        AttributeView::Default(_) => "default: the value that the field takes when none is given"@,
        AttributeView::Optional => "optional: the field may be left out"@,
    }
}

/// The diagnostic for a field whose type is a name that the table does not hold.
pub open spec fn unresolved(data_type: DataTypeView, place: Span, table: Map<Seq<char>, EntryView>) -> Option<
    SemanticDiagnostic,
> {
    match data_type {
        DataTypeView::Enum(name) => if table.contains_key(name) {
            None
        } else {
            Some(SemanticDiagnostic::UnresolvedReference { span: place })
        },
        _ => None,
    }
}

/// The index of the first span from index `from` on that the position touches.
pub open spec fn span_around(spans: Seq<Span>, position: int, from: int) -> Option<int>
    decreases spans.len() - from,
{
    if from < 0 || from >= spans.len() {
        None
    } else if spans[from].touches(position) {
        Some(from)
    } else {
        span_around(spans, position, from + 1)
    }
}

/// The position is on the name, the type or an attribute of the field.
pub open spec fn on_field(field: FieldSpansView, position: int) -> bool {
    field.name.touches(position) || field.ty.touches(position) || span_around(field.attributes, position, 0) is Some
}

/// The index of the first field from index `from` on that the position is on.
pub open spec fn hovered_field(fields: Seq<FieldSpansView>, position: int, from: int) -> Option<int>
    decreases fields.len() - from,
{
    if from < 0 || from >= fields.len() {
        None
    } else if on_field(fields[from], position) {
        Some(from)
    } else {
        hovered_field(fields, position, from + 1)
    }
}

/// What hovering shows on a field: on its name the field; on its type the
/// declaration that the type names, or the field where it names none; on an
/// attribute what the attribute means.
pub open spec fn hover_on_field(
    field: FieldView,
    places: FieldSpansView,
    table: Map<Seq<char>, EntryView>,
    position: int,
) -> Option<HoverInfoView> {
    let about_field = HoverInfoView {
        text: field_text(field, table),
        span: if places.name.touches(position) {
            places.name
        } else {
            places.ty
        },
        diagnostic: unresolved(field.data_type, places.ty, table),
    };
    if places.name.touches(position) {
        Some(about_field)
    } else if places.ty.touches(position) {
        match field.data_type {
            DataTypeView::Enum(name) => if table.contains_key(name) {
                Some(HoverInfoView { text: symbol_text(table[name].symbol), span: places.ty, diagnostic: None })
            } else {
                Some(about_field)
            },
            _ => Some(about_field),
        }
    } else {
        match span_around(places.attributes, position, 0) {
            Some(j) => if j < field.attributes.len() {
                Some(
                    HoverInfoView {
                        text: attribute_note(field.attributes[j]),
                        span: places.attributes[j],
                        diagnostic: None,
                    },
                )
            } else {
                None
            },
            None => None,
        }
    }
}

/// What hovering shows at a position in the body of a model: what it shows
/// on the first field that the position is on, and nothing between fields.
pub open spec fn hover_in_model(node: ModelNodeView, table: Map<Seq<char>, EntryView>, position: int) -> Option<
    HoverInfoView,
> {
    match hovered_field(node.fields, position, 0) {
        Some(k) => if k < node.model.fields.len() {
            hover_on_field(node.model.fields[k], node.fields[k], table, position)
        } else {
            None
        },
        None => None,
    }
}

/// What hovering shows at a position of a program whose symbol table is `table`.
pub open spec fn hover_at(program: ProgramView, table: Map<Seq<char>, EntryView>, position: int) -> Option<
    HoverInfoView,
> {
    match enclosing(program.declarations, position, 0) {
        None => None,
        Some(i) => match program.declarations[i] {
            DeclarationView::Enum(_) => None,
            DeclarationView::Model(node) => hover_in_model(node, table, position),
        },
    }
}

/// Outside every body there is nothing to hover on: where no body holds the
/// position, hovering shows nothing, whatever the table holds.
pub proof fn lemma_nothing_outside_bodies(program: ProgramView, table: Map<Seq<char>, EntryView>, position: int)
    requires
        forall|i: int|
            0 <= i < program.declarations.len() ==> !(#[trigger] program.declarations[i]).body().touches(position),
    ensures
        hover_at(program, table, position) is None,
{
    crate::resolve::lemma_enclosing_first(program.declarations, position, 0);
}

/// What an optional hover text is to specifications.
pub open spec fn info_view(info: Option<HoverInfo>) -> Option<HoverInfoView> {
    match info {
        Some(i) => Some(i@),
        None => None,
    }
}

/// Adds one more name to a list that holds `count` names so far.
fn add_name(text: &mut String, count: usize, name: &str, Ghost(names): Ghost<Seq<Seq<char>>>)
    requires
        count < names.len(),
        names[count as int] == name@,
        old(text)@ == joined(names.take(count as int)),
    ensures
        final(text)@ == joined(names.take(count + 1)),
{
    assert(names.take(count + 1).drop_last() =~= names.take(count as int));
    if count > 0 {
        text.append(", ");
    }
    text.append(name);
    assert(text@ =~= joined(names.take(count + 1)));
}

fn enum_text(decl: &Enum) -> (text: String)
    ensures
        text@ == summary("enum "@, decl@.name, decl@.values),
{
    let mut list = String::new();
    let ghost names = decl@.values;
    let mut i: usize = 0;
    assert(names.take(0) =~= Seq::empty());
    while i < decl.values.len()
        invariant
            i <= decl.values.len(),
            names == decl@.values,
            list@ == joined(names.take(i as int)),
        decreases decl.values.len() - i,
    {
        add_name(&mut list, i, decl.values[i].name().as_str(), Ghost(names));
        i += 1;
    }
    assert(names.take(i as int) =~= names);
    let mut text = String::from_str("enum ");
    text.append(decl.name.as_str());
    if i == 0 {
        text.append(" {}");
    } else {
        text.append(" { ");
        text.append(list.as_str());
        text.append(" }");
    }
    text
}

fn model_text(model: &Model) -> (text: String)
    ensures
        text@ == summary("model "@, model@.name, field_names(model@.fields)),
{
    let mut list = String::new();
    let ghost names = field_names(model@.fields);
    let mut i: usize = 0;
    assert(names.take(0) =~= Seq::empty());
    while i < model.fields.len()
        invariant
            i <= model.fields.len(),
            names == field_names(model@.fields),
            list@ == joined(names.take(i as int)),
        decreases model.fields.len() - i,
    {
        add_name(&mut list, i, model.fields[i].name.as_str(), Ghost(names));
        i += 1;
    }
    assert(names.take(i as int) =~= names);
    let mut text = String::from_str("model ");
    text.append(model.name.as_str());
    if i == 0 {
        text.append(" {}");
    } else {
        text.append(" { ");
        text.append(list.as_str());
        text.append(" }");
    }
    text
}

fn symbol_text_of(symbol: &Symbol) -> (text: String)
    ensures
        text@ == symbol_text(symbol@),
{
    match symbol {
        Symbol::Enum(decl) => enum_text(decl),
        Symbol::Model(model) => model_text(model),
    }
}

fn type_text_of(data_type: &DataType, table: &SymbolTable) -> (text: String)
    requires
        table.wf(),
    ensures
        text@ == type_text(data_type@, table@),
{
    match data_type {
        DataType::UUID => String::from_str("UUID"),
        DataType::String => String::from_str("String"),
        DataType::DateTime => String::from_str("DateTime"),
        DataType::Data => String::from_str("Data"),
        DataType::Int => String::from_str("Int"),
        DataType::Float => String::from_str("Float"),
        DataType::Boolean => String::from_str("Boolean"),
        DataType::Enum(name) => match table.lookup(name.as_str()) {
            Some(entry) => {
                let mut text = match &entry.symbol {
                    Symbol::Enum(_) => String::from_str("enum "),
                    Symbol::Model(_) => String::from_str("model "),
                };
                text.append(name.as_str());
                text
            },
            None => {
                let mut text = name.clone();
                text.append(" (unresolved)");
                text
            },
        },
    }
}

fn attribute_text_of(attribute: &Attribute) -> (text: String)
    ensures
        text@ == attribute_text(attribute@),
{
    match attribute {
        Attribute::Queryable => String::from_str("queryable"),
        Attribute::Default(value) => {
            let mut text = String::from_str("default(");
            text.append(value.as_str());
            text.append(")");
            text
        },
        Attribute::Optional => String::from_str("optional"),
    }
}

fn attribute_note_of(attribute: &Attribute) -> (text: String)
    ensures
        text@ == attribute_note(attribute@),
{
    match attribute {
        Attribute::Queryable => String::from_str("queryable: the field can be used in queries"),
        Attribute::Default(_) => String::from_str("default: the value that the field takes when none is given"),
        Attribute::Optional => String::from_str("optional: the field may be left out"),
    }
}

fn field_text_of(field: &Field, table: &SymbolTable) -> (text: String)
    requires
        table.wf(),
    ensures
        text@ == field_text(field@, table@),
{
    let mut text = field.name.clone();
    text.append(": ");
    let shown = type_text_of(&field.data_type, table);
    if field.inner_type.is_some() {
        text.append("[");
        text.append(shown.as_str());
        text.append("]");
    } else {
        text.append(shown.as_str());
    }
    let ghost head = text@;
    let ghost all = field@.attributes;
    let mut i: usize = 0;
    assert(all.take(0) =~= Seq::empty());
    assert(head + attributes_text(all.take(0)) =~= head);
    while i < field.attributes.len()
        invariant
            i <= field.attributes.len(),
            all == attributes_view(field.attributes@),
            text@ == head + attributes_text(all.take(i as int)),
        decreases field.attributes.len() - i,
    {
        assert(all.take(i + 1).drop_last() =~= all.take(i as int));
        assert(all.take(i + 1).last() == field.attributes@[i as int]@);
        let shown = attribute_text_of(&field.attributes[i]);
        text.append(" ");
        text.append(shown.as_str());
        i += 1;
        assert(text@ =~= head + attributes_text(all.take(i as int)));
    }
    assert(all.take(i as int) =~= all);
    assert(text@ =~= field_text(field@, table@));
    text
}

fn unresolved_in(data_type: &DataType, place: Span, table: &SymbolTable) -> (diagnostic: Option<SemanticDiagnostic>)
    requires
        table.wf(),
    ensures
        diagnostic == unresolved(data_type@, place, table@),
{
    match data_type {
        DataType::Enum(name) => match table.lookup(name.as_str()) {
            Some(_) => None,
            None => Some(SemanticDiagnostic::UnresolvedReference { span: place }),
        },
        _ => None,
    }
}

fn find_span(spans: &Vec<Span>, position: usize) -> (found: Option<usize>)
    ensures
        match found {
            Some(j) => span_around(spans@, position as int, 0) == Some(j as int) && j < spans.len(),
            None => span_around(spans@, position as int, 0) is None,
        },
{
    let mut j: usize = 0;
    while j < spans.len()
        invariant
            j <= spans.len(),
            span_around(spans@, position as int, j as int) == span_around(spans@, position as int, 0),
        decreases spans.len() - j,
    {
        if spans[j].contains(position) {
            return Some(j);
        }
        j += 1;
    }
    None
}

fn find_hovered(fields: &Vec<FieldSpans>, position: usize) -> (found: Option<usize>)
    ensures
        match found {
            Some(k) => hovered_field(field_spans_view(fields@), position as int, 0) == Some(k as int) && k
                < fields.len(),
            None => hovered_field(field_spans_view(fields@), position as int, 0) is None,
        },
{
    let mut k: usize = 0;
    while k < fields.len()
        invariant
            k <= fields.len(),
            hovered_field(field_spans_view(fields@), position as int, k as int) == hovered_field(
                field_spans_view(fields@),
                position as int,
                0,
            ),
        decreases fields.len() - k,
    {
        let f = &fields[k];
        assert(field_spans_view(fields@)[k as int] == f@);
        if f.name.contains(position) || f.ty.contains(position) || find_span(&f.attributes, position).is_some() {
            return Some(k);
        }
        k += 1;
    }
    None
}

fn describe_field(field: &Field, places: &FieldSpans, table: &SymbolTable, position: usize) -> (info: Option<
    HoverInfo,
>)
    requires
        table.wf(),
    ensures
        info_view(info) == hover_on_field(field@, places@, table@, position as int),
{
    if places.name.contains(position) {
        Some(
            HoverInfo {
                text: field_text_of(field, table),
                span: places.name,
                diagnostic: unresolved_in(&field.data_type, places.ty, table),
            },
        )
    } else if places.ty.contains(position) {
        let declared = match &field.data_type {
            DataType::Enum(name) => table.lookup(name.as_str()),
            _ => None,
        };
        match declared {
            Some(entry) => Some(HoverInfo { text: symbol_text_of(&entry.symbol), span: places.ty, diagnostic: None }),
            None => Some(
                HoverInfo {
                    text: field_text_of(field, table),
                    span: places.ty,
                    diagnostic: unresolved_in(&field.data_type, places.ty, table),
                },
            ),
        }
    } else {
        match find_span(&places.attributes, position) {
            Some(j) => {
                if j < field.attributes.len() {
                    assert(field@.attributes[j as int] == field.attributes@[j as int]@);
                    Some(
                        HoverInfo {
                            text: attribute_note_of(&field.attributes[j]),
                            span: places.attributes[j],
                            diagnostic: None,
                        },
                    )
                } else {
                    None
                }
            },
            None => None,
        }
    }
}

fn hover_model(node: &ModelNode, table: &SymbolTable, position: usize) -> (info: Option<HoverInfo>)
    requires
        table.wf(),
    ensures
        info_view(info) == hover_in_model(node@, table@, position as int),
{
    match find_hovered(&node.fields, position) {
        Some(k) => {
            if k < node.model.fields.len() {
                assert(node@.model.fields[k as int] == node.model.fields@[k as int]@);
                assert(node@.fields[k as int] == node.fields@[k as int]@);
                describe_field(&node.model.fields[k], &node.fields[k], table, position)
            } else {
                None
            }
        },
        None => None,
    }
}

/// Describes what stands at `position`, an offset into the text that
/// `program` was parsed from.
///
/// On the name of a field the field is shown with its type and attributes.
/// On a type that names a declaration the declaration is shown: an enum with
/// its variants, a model with the names of its fields. On an attribute its
/// meaning is shown. Everywhere else there is nothing to show.
pub fn hover(program: &Program, table: &SymbolTable, position: usize) -> (info: Option<HoverInfo>)
    requires
        table.wf(),
    ensures
        info_view(info) == hover_at(program@, table@, position as int),
{
    match find_enclosing(program, position) {
        None => None,
        Some(i) => {
            assert(program@.declarations[i as int] == program.declarations@[i as int]@);
            match &program.declarations[i] {
                Declaration::Enum(_) => None,
                Declaration::Model(node) => hover_model(node, table, position),
            }
        },
    }
}

} // verus!
