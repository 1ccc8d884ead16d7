//! The parsed form of a document: its declarations, each with the places in
//! the source text where its parts stand.

use vstd::prelude::*;
use vstd::string::*;
use crate::ast::Enum;
use crate::ast::EnumView;
use crate::ast::Model;
use crate::ast::ModelView;
use crate::span::Span;

verus! {

/// The faults of syntax that the parser tells apart.
#[derive(Clone, Copy, Debug, PartialEq, Eq, Structural)]
pub enum SyntaxErrorKind {
    /// A token stands where the grammar has no use for it.
    UnexpectedToken,
    /// A body runs into the end of the text or into the next declaration.
    UnterminatedBody,
}

/// A fault that the parser found, with the span of the token it stumbled on.
#[derive(Clone, Copy, Debug, PartialEq, Eq, Structural)]
pub struct SyntaxDiagnostic {
    pub kind: SyntaxErrorKind,
    pub span: Span,
}

impl SyntaxDiagnostic {
    /// What the diagnostic says, for the editor.
    pub open spec fn message_text(self) -> Seq<char> {
        match self.kind {
            SyntaxErrorKind::UnexpectedToken => "unexpected token"@,
            SyntaxErrorKind::UnterminatedBody => "unterminated body: a closing brace is missing"@,
        }
    }

    pub fn message(&self) -> (message: String)
        ensures
            message@ == self.message_text(),
    {
        match self.kind {
            SyntaxErrorKind::UnexpectedToken => String::from_str("unexpected token"),
            SyntaxErrorKind::UnterminatedBody => String::from_str("unterminated body: a closing brace is missing"),
        }
    }
}

/// Where the parts of one field stand.
#[derive(Debug)]
pub struct FieldSpans {
    pub name: Span,
    /// The offset just behind the colon.
    pub colon_end: usize,
    /// The type as written, brackets of an array type included.
    pub ty: Span,
    /// One span for each attribute of the field, in order.
    pub attributes: Vec<Span>,
    /// The start of the first token behind the attributes.
    pub end: usize,
}

/// What the places of a field are to specifications.
pub struct FieldSpansView {
    pub name: Span,
    pub colon_end: usize,
    pub ty: Span,
    pub attributes: Seq<Span>,
    pub end: usize,
}

impl View for FieldSpans {
    type V = FieldSpansView;

    open spec fn view(&self) -> FieldSpansView {
        FieldSpansView {
            name: self.name,
            colon_end: self.colon_end,
            ty: self.ty,
            attributes: self.attributes@,
            end: self.end,
        }
    }
}

/// The places of the fields as specifications see them, in their order.
pub open spec fn field_spans_view(spans: Seq<FieldSpans>) -> Seq<FieldSpansView> {
    Seq::new(spans.len(), |i: int| spans[i]@)
}

/// A model declaration and its place in the source.
#[derive(Debug)]
pub struct ModelNode {
    pub model: Model,
    /// From the keyword to the closing brace, or to where the body breaks off.
    pub span: Span,
    pub name_span: Span,
    /// From just behind the opening brace to just before the closing one.
    pub body: Span,
    /// One entry for each field of `model`, in order.
    pub fields: Vec<FieldSpans>,
    /// Where a type is still missing behind the colon of a last, unfinished field.
    pub type_hole: Option<Span>,
}

/// What a model declaration is to specifications.
pub struct ModelNodeView {
    pub model: ModelView,
    pub span: Span,
    pub name_span: Span,
    pub body: Span,
    pub fields: Seq<FieldSpansView>,
    pub type_hole: Option<Span>,
}

impl View for ModelNode {
    type V = ModelNodeView;

    open spec fn view(&self) -> ModelNodeView {
        ModelNodeView {
            model: self.model@,
            span: self.span,
            name_span: self.name_span,
            body: self.body,
            fields: field_spans_view(self.fields@),
            type_hole: self.type_hole,
        }
    }
}

/// An enum declaration and its place in the source.
#[derive(Debug)]
pub struct EnumNode {
    pub decl: Enum,
    pub span: Span,
    pub name_span: Span,
    pub body: Span,
    /// One span for each variant of `decl`, in order.
    pub values: Vec<Span>,
}

/// What an enum declaration is to specifications.
pub struct EnumNodeView {
    pub decl: EnumView,
    pub span: Span,
    pub name_span: Span,
    pub body: Span,
    pub values: Seq<Span>,
}

impl View for EnumNode {
    type V = EnumNodeView;

    open spec fn view(&self) -> EnumNodeView {
        EnumNodeView {
            decl: self.decl@,
            span: self.span,
            name_span: self.name_span,
            body: self.body,
            values: self.values@,
        }
    }
}

/// A declaration at the top level of a document.
#[derive(Debug)]
pub enum Declaration {
    Model(ModelNode),
    Enum(EnumNode),
}

/// What a declaration is to specifications.
pub enum DeclarationView {
    Model(ModelNodeView),
    Enum(EnumNodeView),
}

impl DeclarationView {
    pub open spec fn name(self) -> Seq<char> {
        match self {
            DeclarationView::Model(node) => node.model.name,
            DeclarationView::Enum(node) => node.decl.name,
        }
    }

    pub open spec fn span(self) -> Span {
        match self {
            DeclarationView::Model(node) => node.span,
            DeclarationView::Enum(node) => node.span,
        }
    }

    pub open spec fn name_span(self) -> Span {
        match self {
            DeclarationView::Model(node) => node.name_span,
            DeclarationView::Enum(node) => node.name_span,
        }
    }

    pub open spec fn body(self) -> Span {
        match self {
            DeclarationView::Model(node) => node.body,
            DeclarationView::Enum(node) => node.body,
        }
    }
}

impl View for Declaration {
    type V = DeclarationView;

    open spec fn view(&self) -> DeclarationView {
        match *self {
            Declaration::Model(node) => DeclarationView::Model(node@),
            Declaration::Enum(node) => DeclarationView::Enum(node@),
        }
    }
}

impl Declaration {
    pub fn name(&self) -> (name: &String)
        ensures
            name@ == self@.name(),
    {
        match self {
            Declaration::Model(node) => &node.model.name,
            Declaration::Enum(node) => &node.decl.name,
        }
    }

    pub fn span(&self) -> (span: Span)
        ensures
            span == self@.span(),
    {
        match self {
            Declaration::Model(node) => node.span,
            Declaration::Enum(node) => node.span,
        }
    }

    pub fn body(&self) -> (body: Span)
        ensures
            body == self@.body(),
    {
        match self {
            Declaration::Model(node) => node.body,
            Declaration::Enum(node) => node.body,
        }
    }
}

/// The declarations as specifications see them, in their order.
pub open spec fn declarations_view(declarations: Seq<Declaration>) -> Seq<DeclarationView> {
    Seq::new(declarations.len(), |i: int| declarations[i]@)
}

/// The declarations of a document, in the order in which they are written.
#[derive(Debug)]
pub struct Program {
    pub declarations: Vec<Declaration>,
}

/// What a program is to specifications.
pub struct ProgramView {
    pub declarations: Seq<DeclarationView>,
}

impl View for Program {
    type V = ProgramView;

    open spec fn view(&self) -> ProgramView {
        ProgramView { declarations: declarations_view(self.declarations@) }
    }
}

} // verus!
