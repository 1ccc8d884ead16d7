//! Checks on the attributes of fields.
//!
//! A field may be given an attribute more than once. That is no fault of
//! syntax: each repetition is reported, and the last one is the one that
//! counts.

use vstd::prelude::*;
use vstd::string::*;
use crate::ast::Attribute;
use crate::ast::attributes_view;
use crate::ast::AttributeView;
use crate::ast::Field;
use crate::span::Span;
use crate::symbols::SemanticDiagnostic;
use crate::syntax::Declaration;
use crate::syntax::DeclarationView;
use crate::syntax::ModelNode;
use crate::syntax::ModelNodeView;
use crate::syntax::Program;

verus! {

/// Both are the same attribute, whatever the value of a default.
pub open spec fn same_kind(a: AttributeView, b: AttributeView) -> bool {
    (a is Queryable && b is Queryable) || (a is Default && b is Default) || (a is Optional && b is Optional)
}

/// The index of the last attribute at or before index `from` that is the
/// same attribute as the one at index `j`.
pub open spec fn earlier_of(attributes: Seq<AttributeView>, j: int, from: int) -> Option<int>
    decreases from + 1,
{
    if from < 0 {
        None
    } else if same_kind(attributes[from], attributes[j]) {
        Some(from)
    } else {
        earlier_of(attributes, j, from - 1)
    }
}

/// The repetitions among the first `upto` attributes of a field: one for
/// each attribute that the field had before, in the order of the attributes.
pub open spec fn field_repeats(attributes: Seq<AttributeView>, spans: Seq<Span>, upto: int) -> Seq<
    SemanticDiagnostic,
>
    decreases upto,
{
    if upto <= 0 {
        Seq::empty()
    } else {
        let j = upto - 1;
        let before = field_repeats(attributes, spans, j);
        match earlier_of(attributes, j, j - 1) {
            Some(i) => if j < attributes.len() && j < spans.len() {
                before.push(SemanticDiagnostic::DuplicateAttribute { earlier: spans[i], later: spans[j] })
            } else {
                before
            },
            None => before,
        }
    }
}

/// The repetitions in the first `upto` fields of a model.
pub open spec fn model_repeats(node: ModelNodeView, upto: int) -> Seq<SemanticDiagnostic>
    decreases upto,
{
    if upto <= 0 {
        Seq::empty()
    } else {
        let k = upto - 1;
        let before = model_repeats(node, k);
        if k < node.model.fields.len() && k < node.fields.len() {
            before + field_repeats(
                node.model.fields[k].attributes,
                node.fields[k].attributes,
                node.model.fields[k].attributes.len() as int,
            )
        } else {
            before
        }
    }
}

pub open spec fn declaration_repeats(declaration: DeclarationView) -> Seq<SemanticDiagnostic> {
    match declaration {
        DeclarationView::Model(node) => model_repeats(node, node.model.fields.len() as int),
        DeclarationView::Enum(_) => Seq::empty(),
    }
}

/// The repeated attributes in a sequence of declarations, in the order of the text.
pub open spec fn attribute_repeats(declarations: Seq<DeclarationView>) -> Seq<SemanticDiagnostic>
    decreases declarations.len(),
{
    if declarations.len() == 0 {
        Seq::empty()
    } else {
        attribute_repeats(declarations.drop_last()) + declaration_repeats(declarations.last())
    }
}

/// The value of the last default among the attributes, if there is one.
pub open spec fn default_of(attributes: Seq<AttributeView>) -> Option<Seq<char>>
    decreases attributes.len(),
{
    if attributes.len() == 0 {
        None
    } else {
        match attributes.last() {
            AttributeView::Default(value) => Some(value),
            _ => default_of(attributes.drop_last()),
        }
    }
}

/// A field without a repeated attribute gives no diagnostic.
pub proof fn lemma_no_repeats(attributes: Seq<AttributeView>, spans: Seq<Span>, upto: int)
    requires
        0 <= upto <= attributes.len(),
        forall|i: int, j: int| 0 <= i < j < upto ==> !same_kind(attributes[i], attributes[j]),
    ensures
        field_repeats(attributes, spans, upto) == Seq::<SemanticDiagnostic>::empty(),
    decreases upto,
{
    if upto > 0 {
        lemma_no_repeats(attributes, spans, upto - 1);
        lemma_no_earlier(attributes, upto - 1, upto - 2);
    }
}

proof fn lemma_no_earlier(attributes: Seq<AttributeView>, j: int, from: int)
    requires
        -1 <= from < j < attributes.len(),
        forall|i: int| 0 <= i < j ==> !same_kind(attributes[i], attributes[j]),
    ensures
        earlier_of(attributes, j, from) is None,
    decreases from + 1,
{
    if from >= 0 {
        lemma_no_earlier(attributes, j, from - 1);
    }
}

fn alike(a: &Attribute, b: &Attribute) -> (r: bool)
    ensures
        r == same_kind(a@, b@),
{
    match a {
        Attribute::Queryable => match b {
            Attribute::Queryable => true,
            _ => false,
        },
        Attribute::Default(_) => match b {
            Attribute::Default(_) => true,
            _ => false,
        },
        Attribute::Optional => match b {
            Attribute::Optional => true,
            _ => false,
        },
    }
}

fn find_earlier(attributes: &Vec<Attribute>, j: usize) -> (found: Option<usize>)
    requires
        j < attributes.len(),
    ensures
        match found {
            Some(i) => earlier_of(attributes_view(attributes@), j as int, j - 1) == Some(i as int) && i < j,
            None => earlier_of(attributes_view(attributes@), j as int, j - 1) is None,
        },
{
    let mut k: usize = j;
    while k > 0
        invariant
            k <= j < attributes.len(),
            earlier_of(attributes_view(attributes@), j as int, k - 1) == earlier_of(
                attributes_view(attributes@),
                j as int,
                j - 1,
            ),
        decreases k,
    {
        k -= 1;
        if alike(&attributes[k], &attributes[j]) {
            return Some(k);
        }
    }
    None
}

fn check_field(attributes: &Vec<Attribute>, spans: &Vec<Span>, diagnostics: &mut Vec<SemanticDiagnostic>)
    ensures
        final(diagnostics)@ == old(diagnostics)@ + field_repeats(
            attributes_view(attributes@),
            spans@,
            attributes.len() as int,
        ),
{
    let ghost before = diagnostics@;
    let mut j: usize = 0;
    assert(diagnostics@ =~= before + field_repeats(attributes_view(attributes@), spans@, 0));
    while j < attributes.len()
        invariant
            j <= attributes.len(),
            diagnostics@ == before + field_repeats(attributes_view(attributes@), spans@, j as int),
        decreases attributes.len() - j,
    {
        match find_earlier(attributes, j) {
            Some(i) => {
                if j < spans.len() {
                    diagnostics.push(SemanticDiagnostic::DuplicateAttribute { earlier: spans[i], later: spans[j] });
                }
            },
            None => {},
        }
        j += 1;
        assert(diagnostics@ =~= before + field_repeats(attributes_view(attributes@), spans@, j as int));
    }
}

fn check_model(node: &ModelNode, diagnostics: &mut Vec<SemanticDiagnostic>)
    ensures
        final(diagnostics)@ == old(diagnostics)@ + model_repeats(node@, node@.model.fields.len() as int),
{
    let ghost before = diagnostics@;
    let mut k: usize = 0;
    assert(diagnostics@ =~= before + model_repeats(node@, 0));
    while k < node.model.fields.len()
        invariant
            k <= node.model.fields.len(),
            diagnostics@ == before + model_repeats(node@, k as int),
        decreases node.model.fields.len() - k,
    {
        if k < node.fields.len() {
            assert(node@.model.fields[k as int] == node.model.fields@[k as int]@);
            assert(node@.fields[k as int] == node.fields@[k as int]@);
            check_field(&node.model.fields[k].attributes, &node.fields[k].attributes, diagnostics);
        }
        k += 1;
        assert(diagnostics@ =~= before + model_repeats(node@, k as int));
    }
}

/// Reports every attribute that a field of `program` has a second time,
/// with the span of the attribute that it repeats and with its own, in the
/// order of the text.
pub fn check_attributes(program: &Program) -> (diagnostics: Vec<SemanticDiagnostic>)
    ensures
        diagnostics@ == attribute_repeats(program@.declarations),
{
    let mut diagnostics: Vec<SemanticDiagnostic> = Vec::new();
    let ghost all = program@.declarations;
    let mut i: usize = 0;
    assert(all.take(0) =~= Seq::empty());
    while i < program.declarations.len()
        invariant
            i <= program.declarations.len(),
            all == program@.declarations,
            diagnostics@ == attribute_repeats(all.take(i as int)),
        decreases program.declarations.len() - i,
    {
        proof {
            assert(all.take(i + 1).drop_last() =~= all.take(i as int));
            assert(all.take(i + 1).last() == program.declarations@[i as int]@);
        }
        let ghost before = diagnostics@;
        match &program.declarations[i] {
            Declaration::Model(node) => {
                check_model(node, &mut diagnostics);
            },
            Declaration::Enum(_) => {
                assert(diagnostics@ =~= before + Seq::<SemanticDiagnostic>::empty());
            },
        }
        i += 1;
    }
    assert(all.take(i as int) =~= all);
    diagnostics
}

/// The default value of a field: that of its last `default` attribute.
pub fn default_value(field: &Field) -> (value: Option<&String>)
    ensures
        match value {
            Some(v) => default_of(field@.attributes) == Some(v@),
            None => default_of(field@.attributes) is None,
        },
{
    let ghost all = field@.attributes;
    let mut k: usize = field.attributes.len();
    assert(all.take(k as int) =~= all);
    while k > 0
        invariant
            k <= field.attributes.len(),
            all == attributes_view(field.attributes@),
            default_of(all.take(k as int)) == default_of(all),
        decreases k,
    {
        k -= 1;
        proof {
            assert(all.take(k + 1).drop_last() =~= all.take(k as int));
            assert(all.take(k + 1).last() == field.attributes@[k as int]@);
        }
        match &field.attributes[k] {
            Attribute::Default(value) => {
                return Some(value);
            },
            _ => {},
        }
    }
    None
}

} // verus!
