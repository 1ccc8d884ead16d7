//! Finds what the grammar expects at a cursor position.
//!
//! A position is an offset between two characters of the text. A body holds
//! every position from just behind its opening brace to just before its
//! closing one, both included: a cursor directly behind `{` is in the body.

use vstd::prelude::*;
use crate::ast::Attribute;
use crate::ast::attributes_view;
use crate::ast::AttributeView;
use crate::syntax::Declaration;
use crate::syntax::DeclarationView;
use crate::syntax::field_spans_view;
use crate::syntax::FieldSpans;
use crate::syntax::FieldSpansView;
use crate::syntax::ModelNode;
use crate::syntax::ModelNodeView;
use crate::syntax::Program;
use crate::syntax::ProgramView;

verus! {

/// Which of the three attributes a field already has.
#[derive(Clone, Copy, Debug, PartialEq, Eq, Structural)]
pub struct AttributeSet {
    pub queryable: bool,
    pub default: bool,
    pub optional: bool,
}

/// What is expected at a cursor position.
#[derive(Clone, Copy, Debug, PartialEq, Eq, Structural)]
pub enum SyntaxContext {
    /// Outside every body: a declaration may start here.
    TopLevel,
    /// In the body of a model, where a field may start.
    InsideModelBody,
    /// Behind the colon of a field, up to the end of its type.
    FieldTypePosition,
    /// Behind the type of a field, where its attributes are listed.
    FieldAttributePosition { present: AttributeSet },
    /// In the body of an enum.
    InsideEnumBody,
}

/// The attributes that occur in `attributes`, whatever the value of a default.
pub open spec fn present_in(attributes: Seq<AttributeView>) -> AttributeSet {
    AttributeSet {
        queryable: exists|i: int| 0 <= i < attributes.len() && attributes[i] is Queryable,
        default: exists|i: int| 0 <= i < attributes.len() && attributes[i] is Default,
        optional: exists|i: int| 0 <= i < attributes.len() && attributes[i] is Optional,
    }
}

/// The position is where the type of the field is written or awaited.
pub open spec fn in_type(field: FieldSpansView, position: int) -> bool {
    field.colon_end <= position <= field.ty.end
}

/// The position is behind the type of the field, where its attributes are listed.
pub open spec fn in_attributes(field: FieldSpansView, position: int) -> bool {
    field.ty.end < position <= field.end
}

/// The index of the first field from index `from` on whose type or attributes hold the position.
pub open spec fn field_around(fields: Seq<FieldSpansView>, position: int, from: int) -> Option<int>
    decreases fields.len() - from,
{
    if from < 0 || from >= fields.len() {
        None
    } else if in_type(fields[from], position) || in_attributes(fields[from], position) {
        Some(from)
    } else {
        field_around(fields, position, from + 1)
    }
}

/// The index of the first declaration from index `from` on whose body holds the position.
pub open spec fn enclosing(declarations: Seq<DeclarationView>, position: int, from: int) -> Option<int>
    decreases declarations.len() - from,
{
    if from < 0 || from >= declarations.len() {
        None
    } else if declarations[from].body().touches(position) {
        Some(from)
    } else {
        enclosing(declarations, position, from + 1)
    }
}

/// The attributes of the field with index `k` of the model, none where it has no such field.
pub open spec fn attributes_of(node: ModelNodeView, k: int) -> Seq<AttributeView> {
    if 0 <= k < node.model.fields.len() {
        node.model.fields[k].attributes
    } else {
        Seq::empty()
    }
}

/// What is expected at a position in the body of a model.
pub open spec fn context_in_model(node: ModelNodeView, position: int) -> SyntaxContext {
    match field_around(node.fields, position, 0) {
        Some(k) => if in_type(node.fields[k], position) {
            SyntaxContext::FieldTypePosition
        } else {
            SyntaxContext::FieldAttributePosition { present: present_in(attributes_of(node, k)) }
        },
        None => match node.type_hole {
            Some(hole) => if hole.touches(position) {
                SyntaxContext::FieldTypePosition
            } else {
                SyntaxContext::InsideModelBody
            },
            None => SyntaxContext::InsideModelBody,
        },
    }
}

/// What is expected at a position of a program.
pub open spec fn context_at(program: ProgramView, position: int) -> SyntaxContext {
    match enclosing(program.declarations, position, 0) {
        None => SyntaxContext::TopLevel,
        Some(i) => match program.declarations[i] {
            DeclarationView::Enum(_) => SyntaxContext::InsideEnumBody,
            DeclarationView::Model(node) => context_in_model(node, position),
        },
    }
}

/// `enclosing` finds the first declaration whose body holds the position, and
/// finds none only where no body holds it.
pub proof fn lemma_enclosing_first(declarations: Seq<DeclarationView>, position: int, from: int)
    requires
        0 <= from,
    ensures
        match enclosing(declarations, position, from) {
            Some(i) => from <= i < declarations.len() && declarations[i].body().touches(position) && forall|j: int|
                from <= j < i ==> !(#[trigger] declarations[j]).body().touches(position),
            None => forall|j: int|
                from <= j < declarations.len() ==> !(#[trigger] declarations[j]).body().touches(position),
        },
    decreases declarations.len() - from,
{
    if from < declarations.len() && !declarations[from].body().touches(position) {
        lemma_enclosing_first(declarations, position, from + 1);
    }
}

/// Where no body holds the position, the position is at top level.
pub proof fn lemma_top_level_outside_bodies(program: ProgramView, position: int)
    requires
        forall|i: int|
            0 <= i < program.declarations.len() ==> !(#[trigger] program.declarations[i]).body().touches(position),
    ensures
        context_at(program, position) == SyntaxContext::TopLevel,
{
    lemma_enclosing_first(program.declarations, position, 0);
}

/// `field_around` finds the first field that holds the position, and finds
/// none only where no field holds it.
pub proof fn lemma_field_around_first(fields: Seq<FieldSpansView>, position: int, from: int)
    requires
        0 <= from,
    ensures
        match field_around(fields, position, from) {
            Some(k) => from <= k < fields.len() && (in_type(fields[k], position) || in_attributes(
                fields[k],
                position,
            )) && forall|j: int|
                from <= j < k ==> !in_type(#[trigger] fields[j], position) && !in_attributes(fields[j], position),
            None => forall|j: int|
                from <= j < fields.len() ==> !in_type(#[trigger] fields[j], position) && !in_attributes(
                    fields[j],
                    position,
                ),
        },
    decreases fields.len() - from,
{
    if from < fields.len() && !(in_type(fields[from], position) || in_attributes(fields[from], position)) {
        lemma_field_around_first(fields, position, from + 1);
    }
}

/// Tells which attributes occur in `attributes`.
pub fn present_attributes(attributes: &Vec<Attribute>) -> (present: AttributeSet)
    ensures
        present == present_in(attributes_view(attributes@)),
{
    let mut queryable = false;
    let mut default = false;
    let mut optional = false;
    let mut i: usize = 0;
    let ghost views = attributes_view(attributes@);
    while i < attributes.len()
        invariant
            i <= attributes.len(),
            views == attributes_view(attributes@),
            queryable == exists|j: int| 0 <= j < i && views[j] is Queryable,
            default == exists|j: int| 0 <= j < i && views[j] is Default,
            optional == exists|j: int| 0 <= j < i && views[j] is Optional,
        decreases attributes.len() - i,
    {
        assert(views[i as int] == attributes@[i as int]@);
        match &attributes[i] {
            Attribute::Queryable => {
                queryable = true;
            },
            Attribute::Default(_) => {
                default = true;
            },
            Attribute::Optional => {
                optional = true;
            },
        }
        i += 1;
    }
    AttributeSet { queryable, default, optional }
}

fn find_field(fields: &Vec<FieldSpans>, position: usize) -> (found: Option<usize>)
    ensures
        match found {
            Some(k) => field_around(field_spans_view(fields@), position as int, 0) == Some(k as int) && k
                < fields.len(),
            None => field_around(field_spans_view(fields@), position as int, 0) is None,
        },
{
    let mut k: usize = 0;
    while k < fields.len()
        invariant
            k <= fields.len(),
            field_around(field_spans_view(fields@), position as int, k as int) == field_around(
                field_spans_view(fields@),
                position as int,
                0,
            ),
        decreases fields.len() - k,
    {
        let f = &fields[k];
        assert(field_spans_view(fields@)[k as int] == f@);
        if (f.colon_end <= position && position <= f.ty.end) || (f.ty.end < position && position <= f.end) {
            return Some(k);
        }
        k += 1;
    }
    None
}

/// The index of the first declaration of `program` whose body holds the position.
pub fn find_enclosing(program: &Program, position: usize) -> (found: Option<usize>)
    ensures
        match found {
            Some(i) => enclosing(program@.declarations, position as int, 0) == Some(i as int) && i
                < program.declarations.len(),
            None => enclosing(program@.declarations, position as int, 0) is None,
        },
{
    let mut i: usize = 0;
    while i < program.declarations.len()
        invariant
            i <= program.declarations.len(),
            enclosing(program@.declarations, position as int, i as int) == enclosing(
                program@.declarations,
                position as int,
                0,
            ),
        decreases program.declarations.len() - i,
    {
        let body = program.declarations[i].body();
        assert(program@.declarations[i as int] == program.declarations@[i as int]@);
        if body.contains(position) {
            return Some(i);
        }
        i += 1;
    }
    None
}

fn resolve_in_model(node: &ModelNode, position: usize) -> (context: SyntaxContext)
    ensures
        context == context_in_model(node@, position as int),
{
    match find_field(&node.fields, position) {
        Some(k) => {
            let f = &node.fields[k];
            assert(node@.fields[k as int] == f@);
            if f.colon_end <= position && position <= f.ty.end {
                SyntaxContext::FieldTypePosition
            } else if k < node.model.fields.len() {
                assert(node@.model.fields[k as int] == node.model.fields@[k as int]@);
                SyntaxContext::FieldAttributePosition { present: present_attributes(&node.model.fields[k].attributes) }
            } else {
                let none: Vec<Attribute> = Vec::new();
                assert(attributes_view(none@) =~= Seq::empty());
                SyntaxContext::FieldAttributePosition { present: present_attributes(&none) }
            }
        },
        None => match node.type_hole {
            Some(hole) => {
                if hole.contains(position) {
                    SyntaxContext::FieldTypePosition
                } else {
                    SyntaxContext::InsideModelBody
                }
            },
            None => SyntaxContext::InsideModelBody,
        },
    }
}

/// Tells what is expected at `position`, an offset into the text that
/// `program` was parsed from.
///
/// The first declaration whose body holds the position decides: in an enum
/// the answer is `InsideEnumBody`; in a model it is the type or the attribute
/// position of the first field that holds the position, the type position
/// where an unfinished field waits for its type, and `InsideModelBody`
/// otherwise. Outside every body the answer is `TopLevel`.
pub fn resolve(program: &Program, position: usize) -> (context: SyntaxContext)
    ensures
        context == context_at(program@, position as int),
{
    match find_enclosing(program, position) {
        None => SyntaxContext::TopLevel,
        Some(i) => {
            assert(program@.declarations[i as int] == program.declarations@[i as int]@);
            match &program.declarations[i] {
                Declaration::Enum(_) => SyntaxContext::InsideEnumBody,
                Declaration::Model(node) => resolve_in_model(node, position),
            }
        },
    }
}

} // verus!
