//! The grammar of the language, as functions from a token sequence to what
//! the parser makes of it.
//!
//! A document is a sequence of declarations. A model is written
//! `model Name { field* }`, a field `name: Type attribute*` with an optional
//! comma behind it, and an enum `enum Name { Variant, Variant }`. A type is a
//! built-in type, the name of a declared type, or either of them in square
//! brackets. After a fault the parser skips to the next `model` or `enum`
//! keyword or, inside a body, to the closing brace, whichever comes first.

use vstd::prelude::*;
use crate::ast::AttributeView;
use crate::ast::DataTypeView;
use crate::ast::EnumView;
use crate::ast::FieldView;
use crate::ast::ModelView;
use crate::lexer::end_marker;
use crate::lexer::Keyword;
use crate::lexer::Lexeme;
use crate::lexer::TokenKind;
use crate::span::Span;
use crate::syntax::DeclarationView;
use crate::syntax::EnumNodeView;
use crate::syntax::FieldSpansView;
use crate::syntax::ModelNodeView;
use crate::syntax::ProgramView;
use crate::syntax::SyntaxDiagnostic;
use crate::syntax::SyntaxErrorKind;

verus! {

/// Blanks and comments: tokens that the grammar passes over.
pub open spec fn is_trivia(kind: TokenKind) -> bool {
    kind == TokenKind::Whitespace || kind == TokenKind::Comment
}

/// The tokens that the grammar reads: all but blanks and comments.
pub open spec fn significant(tokens: Seq<Lexeme>) -> Seq<Lexeme>
    decreases tokens.len(),
{
    if tokens.len() == 0 {
        Seq::empty()
    } else if is_trivia(tokens.last().kind) {
        significant(tokens.drop_last())
    } else {
        significant(tokens.drop_last()).push(tokens.last())
    }
}

/// The offset at which the last of `tokens` ends.
pub open spec fn end_offset(tokens: Seq<Lexeme>) -> usize {
    if tokens.len() == 0 {
        0
    } else {
        tokens.last().span.end
    }
}

/// The significant tokens of `tokens`, closed by an end marker of their own,
/// so that the grammar always finds an end.
pub open spec fn stream_of(tokens: Seq<Lexeme>) -> Seq<Lexeme> {
    significant(tokens).push(end_marker(end_offset(tokens)))
}

/// The sequence ends with an end marker.
pub open spec fn well_ended(ts: Seq<Lexeme>) -> bool {
    ts.len() > 0 && ts.last().kind == TokenKind::EndOfFile
}

/// The token at index `i`, or an end marker where the sequence has none.
pub open spec fn token_at(ts: Seq<Lexeme>, i: int) -> Lexeme {
    if 0 <= i < ts.len() {
        ts[i]
    } else {
        end_marker(0)
    }
}

/// A token at which recovery stops: the start of a declaration or the end of
/// the text, and inside a body also a closing brace.
pub open spec fn is_sync(kind: TokenKind, in_body: bool) -> bool {
    kind == TokenKind::Keyword(Keyword::Model) || kind == TokenKind::Keyword(Keyword::Enum) || kind
        == TokenKind::EndOfFile || (in_body && kind == TokenKind::RightBrace)
}

/// The index of the first synchronizing token at or behind index `i`.
pub open spec fn sync_from(ts: Seq<Lexeme>, i: int, in_body: bool) -> int
    decreases ts.len() - i,
{
    if 0 <= i < ts.len() && !is_sync(ts[i].kind, in_body) {
        sync_from(ts, i + 1, in_body)
    } else {
        i
    }
}

/// The built-in type that a keyword names, if it names one.
pub open spec fn builtin_type(keyword: Keyword) -> Option<DataTypeView> {
    match keyword {
        Keyword::Uuid => Some(DataTypeView::UUID),
        Keyword::String => Some(DataTypeView::String),
        Keyword::DateTime => Some(DataTypeView::DateTime),
        Keyword::Data => Some(DataTypeView::Data),
        Keyword::Int => Some(DataTypeView::Int),
        Keyword::Float => Some(DataTypeView::Float),
        Keyword::Boolean => Some(DataTypeView::Boolean),
        _ => None,
    }
}

/// The type that a single token names: a built-in by its keyword, a declared
/// type by its identifier.
pub open spec fn named_type(token: Lexeme) -> Option<DataTypeView> {
    match token.kind {
        TokenKind::Keyword(keyword) => builtin_type(keyword),
        TokenKind::Identifier => Some(DataTypeView::Enum(token.text)),
        _ => None,
    }
}

/// What reading a type gives.
pub enum TypeOutcome {
    Parsed { data_type: DataTypeView, inner_type: Option<Seq<char>>, span: Span, next: int },
    /// No type could be read; `at` is the index of the token that is in the way.
    Failed { at: int },
}

/// The type written at index `p`. An array type `[T]` has the type of its
/// elements as data type and their type's name as inner type.
pub open spec fn type_at(ts: Seq<Lexeme>, p: int) -> TypeOutcome {
    match named_type(token_at(ts, p)) {
        Some(data_type) => TypeOutcome::Parsed {
            data_type,
            inner_type: None,
            span: token_at(ts, p).span,
            next: p + 1,
        },
        None => if token_at(ts, p).kind != TokenKind::LeftBracket {
            TypeOutcome::Failed { at: p }
        } else {
            match named_type(token_at(ts, p + 1)) {
                None => TypeOutcome::Failed { at: p + 1 },
                Some(data_type) => if token_at(ts, p + 2).kind != TokenKind::RightBracket {
                    TypeOutcome::Failed { at: p + 2 }
                } else {
                    TypeOutcome::Parsed {
                        data_type,
                        inner_type: Some(token_at(ts, p + 1).text),
                        span: Span { start: token_at(ts, p).span.start, end: token_at(ts, p + 2).span.end },
                        next: p + 3,
                    }
                },
            }
        },
    }
}

/// What may stand between the brackets of `default(..)`.
pub open spec fn is_literal(kind: TokenKind) -> bool {
    kind == TokenKind::StringLiteral || kind == TokenKind::Number || kind == TokenKind::Identifier
}

/// What reading the attributes of a field gives.
pub struct AttributesOutcome {
    pub attributes: Seq<AttributeView>,
    pub spans: Seq<Span>,
    /// The index of the first token behind the attributes; after a fault, of
    /// the token that is in the way.
    pub next: int,
    pub failed: bool,
}

/// The attributes written from index `p` on, added to those read before.
/// Attributes may be separated by `|`.
pub open spec fn attributes_from(
    ts: Seq<Lexeme>,
    p: int,
    attributes: Seq<AttributeView>,
    spans: Seq<Span>,
) -> AttributesOutcome
    decreases ts.len() - p,
{
    if p < 0 || p >= ts.len() {
        AttributesOutcome { attributes, spans, next: p, failed: false }
    } else {
        match ts[p].kind {
            TokenKind::Keyword(Keyword::Queryable) => attributes_from(
                ts,
                p + 1,
                attributes.push(AttributeView::Queryable),
                spans.push(ts[p].span),
            ),
            TokenKind::Keyword(Keyword::Optional) => attributes_from(
                ts,
                p + 1,
                attributes.push(AttributeView::Optional),
                spans.push(ts[p].span),
            ),
            TokenKind::Pipe => attributes_from(ts, p + 1, attributes, spans),
            TokenKind::Keyword(Keyword::Default) => if token_at(ts, p + 1).kind != TokenKind::LeftParen {
                AttributesOutcome { attributes, spans, next: p + 1, failed: true }
            } else if !is_literal(token_at(ts, p + 2).kind) {
                AttributesOutcome { attributes, spans, next: p + 2, failed: true }
            } else if token_at(ts, p + 3).kind != TokenKind::RightParen {
                AttributesOutcome { attributes, spans, next: p + 3, failed: true }
            } else {
                attributes_from(
                    ts,
                    p + 4,
                    attributes.push(AttributeView::Default(token_at(ts, p + 2).text)),
                    spans.push(Span { start: ts[p].span.start, end: token_at(ts, p + 3).span.end }),
                )
            },
            _ => AttributesOutcome { attributes, spans, next: p, failed: false },
        }
    }
}

/// What reading a field gives.
pub enum FieldOutcome {
    /// A field with its type. Where `failed` holds, its attributes break off
    /// at the token with index `next`.
    Parsed { field: FieldView, spans: FieldSpansView, next: int, failed: bool },
    /// No field: the colon or the type is missing. `at` is the index of the
    /// token that is in the way, `hole` the place that waits for a type.
    Failed { at: int, hole: Option<Span> },
}

/// The field whose name stands at index `p`.
pub open spec fn field_at(ts: Seq<Lexeme>, p: int) -> FieldOutcome {
    if token_at(ts, p + 1).kind != TokenKind::Colon {
        FieldOutcome::Failed { at: p + 1, hole: None }
    } else {
        match type_at(ts, p + 2) {
            TypeOutcome::Failed { at } => FieldOutcome::Failed {
                at,
                hole: Some(Span { start: token_at(ts, p + 1).span.end, end: token_at(ts, at).span.start }),
            },
            TypeOutcome::Parsed { data_type, inner_type, span, next } => {
                let read = attributes_from(ts, next, Seq::empty(), Seq::empty());
                FieldOutcome::Parsed {
                    field: FieldView {
                        name: token_at(ts, p).text,
                        data_type,
                        attributes: read.attributes,
                        inner_type,
                    },
                    spans: FieldSpansView {
                        name: token_at(ts, p).span,
                        colon_end: token_at(ts, p + 1).span.end,
                        ty: span,
                        attributes: read.spans,
                        end: token_at(ts, read.next).span.start,
                    },
                    next: if !read.failed && token_at(ts, read.next).kind == TokenKind::Comma {
                        read.next + 1
                    } else {
                        read.next
                    },
                    failed: read.failed,
                }
            },
        }
    }
}

/// Reading attributes never goes back and ends in the sequence.
pub proof fn lemma_attributes_bounds(ts: Seq<Lexeme>, p: int, attributes: Seq<AttributeView>, spans: Seq<Span>)
    requires
        0 <= p <= ts.len(),
    ensures
        p <= attributes_from(ts, p, attributes, spans).next <= ts.len(),
    decreases ts.len() - p,
{
    if p < ts.len() {
        match ts[p].kind {
            TokenKind::Keyword(Keyword::Queryable) => {
                lemma_attributes_bounds(ts, p + 1, attributes.push(AttributeView::Queryable), spans.push(ts[p].span));
            },
            TokenKind::Keyword(Keyword::Optional) => {
                lemma_attributes_bounds(ts, p + 1, attributes.push(AttributeView::Optional), spans.push(ts[p].span));
            },
            TokenKind::Pipe => {
                lemma_attributes_bounds(ts, p + 1, attributes, spans);
            },
            TokenKind::Keyword(Keyword::Default) => {
                if token_at(ts, p + 1).kind == TokenKind::LeftParen && is_literal(token_at(ts, p + 2).kind)
                    && token_at(ts, p + 3).kind == TokenKind::RightParen {
                    lemma_attributes_bounds(
                        ts,
                        p + 4,
                        attributes.push(AttributeView::Default(token_at(ts, p + 2).text)),
                        spans.push(Span { start: ts[p].span.start, end: token_at(ts, p + 3).span.end }),
                    );
                }
            },
            _ => {},
        }
    }
}

/// Reading a field goes forward and ends in the sequence.
pub proof fn lemma_field_bounds(ts: Seq<Lexeme>, p: int)
    requires
        0 <= p < ts.len(),
    ensures
        match field_at(ts, p) {
            FieldOutcome::Parsed { next, .. } => p < next <= ts.len(),
            FieldOutcome::Failed { at, .. } => p < at <= ts.len(),
        },
{
    match type_at(ts, p + 2) {
        TypeOutcome::Parsed { next, .. } => {
            lemma_attributes_bounds(ts, next, Seq::empty(), Seq::empty());
        },
        TypeOutcome::Failed { .. } => {},
    }
}

/// What reading the fields of a body gives.
pub struct FieldsOutcome {
    pub fields: Seq<FieldView>,
    pub spans: Seq<FieldSpansView>,
    /// The index of the token at which the fields end.
    pub at: int,
    pub hole: Option<Span>,
    /// The token at `at` is in the way: it is no closing brace, or a field broke off there.
    pub failed: bool,
}

/// The fields written from index `p` on, added to those read before.
pub open spec fn fields_from(
    ts: Seq<Lexeme>,
    p: int,
    fields: Seq<FieldView>,
    spans: Seq<FieldSpansView>,
) -> FieldsOutcome
    decreases ts.len() - p,
{
    if 0 <= p < ts.len() && ts[p].kind == TokenKind::Identifier {
        match field_at(ts, p) {
            FieldOutcome::Failed { at, hole } => FieldsOutcome { fields, spans, at, hole, failed: true },
            FieldOutcome::Parsed { field, spans: places, next, failed } => if failed {
                FieldsOutcome {
                    fields: fields.push(field),
                    spans: spans.push(places),
                    at: next,
                    hole: None,
                    failed: true,
                }
            } else {
                proof {
                    lemma_field_bounds(ts, p);
                }
                fields_from(ts, next, fields.push(field), spans.push(places))
            },
        }
    } else {
        FieldsOutcome { fields, spans, at: p, hole: None, failed: token_at(ts, p).kind != TokenKind::RightBrace }
    }
}

/// What reading the variants of a body gives.
pub struct VariantsOutcome {
    pub values: Seq<Seq<char>>,
    pub spans: Seq<Span>,
    /// The index of the token at which the variants end.
    pub at: int,
    /// The token at `at` is in the way: it is no closing brace.
    pub failed: bool,
}

/// The variants written from index `p` on, added to those read before.
/// Variants are separated by commas; one more comma may follow the last.
pub open spec fn variants_from(ts: Seq<Lexeme>, p: int, values: Seq<Seq<char>>, spans: Seq<Span>) -> VariantsOutcome
    decreases ts.len() - p,
{
    if 0 <= p < ts.len() && ts[p].kind == TokenKind::Identifier {
        if token_at(ts, p + 1).kind == TokenKind::Comma {
            variants_from(ts, p + 2, values.push(ts[p].text), spans.push(ts[p].span))
        } else {
            VariantsOutcome {
                values: values.push(ts[p].text),
                spans: spans.push(ts[p].span),
                at: p + 1,
                failed: token_at(ts, p + 1).kind != TokenKind::RightBrace,
            }
        }
    } else {
        VariantsOutcome { values, spans, at: p, failed: token_at(ts, p).kind != TokenKind::RightBrace }
    }
}

/// The fault to report for a body that cannot go on at a token of `kind`.
pub open spec fn body_fault(kind: TokenKind) -> SyntaxErrorKind {
    if is_sync(kind, false) {
        SyntaxErrorKind::UnterminatedBody
    } else {
        SyntaxErrorKind::UnexpectedToken
    }
}

/// How a body ends.
pub struct Closing {
    pub diagnostic: Option<SyntaxDiagnostic>,
    /// Where the body ends: the start of the closing brace, or of the token at which it breaks off.
    pub body_end: usize,
    /// Where the declaration ends.
    pub span_end: usize,
    pub next: int,
}

/// Ends a body whose members end at index `at`. A body that ends in its
/// closing brace is closed there. Otherwise the token at `at` is reported,
/// and the body ends at the next synchronizing token: with the brace, if it
/// is one, else before it.
pub open spec fn close_body(ts: Seq<Lexeme>, at: int, failed: bool) -> Closing {
    if !failed {
        Closing {
            diagnostic: None,
            body_end: token_at(ts, at).span.start,
            span_end: token_at(ts, at).span.end,
            next: at + 1,
        }
    } else {
        let stop = sync_from(ts, at, true);
        let diagnostic = Some(
            SyntaxDiagnostic { kind: body_fault(token_at(ts, at).kind), span: token_at(ts, at).span },
        );
        if token_at(ts, stop).kind == TokenKind::RightBrace {
            Closing {
                diagnostic,
                body_end: token_at(ts, stop).span.start,
                span_end: token_at(ts, stop).span.end,
                next: stop + 1,
            }
        } else {
            Closing {
                diagnostic,
                body_end: token_at(ts, stop).span.start,
                span_end: token_at(ts, stop).span.start,
                next: stop,
            }
        }
    }
}

/// What reading a declaration gives: the declaration, if its head is
/// complete, a diagnostic, if something is at fault, and the index at which
/// parsing goes on.
pub struct DeclarationOutcome {
    pub node: Option<DeclarationView>,
    pub diagnostic: Option<SyntaxDiagnostic>,
    pub next: int,
}

/// A declaration whose head breaks off at index `at`: nothing is declared,
/// the token is reported, and parsing goes on at the next declaration.
pub open spec fn rejected(ts: Seq<Lexeme>, at: int) -> DeclarationOutcome {
    DeclarationOutcome {
        node: None,
        diagnostic: Some(
            SyntaxDiagnostic { kind: SyntaxErrorKind::UnexpectedToken, span: token_at(ts, at).span },
        ),
        next: sync_from(ts, at, false),
    }
}

/// The model declaration whose keyword stands at index `p`.
pub open spec fn model_at(ts: Seq<Lexeme>, p: int) -> DeclarationOutcome {
    if token_at(ts, p + 1).kind != TokenKind::Identifier {
        rejected(ts, p + 1)
    } else if token_at(ts, p + 2).kind != TokenKind::LeftBrace {
        rejected(ts, p + 2)
    } else {
        let members = fields_from(ts, p + 3, Seq::empty(), Seq::empty());
        let closing = close_body(ts, members.at, members.failed);
        DeclarationOutcome {
            node: Some(
                DeclarationView::Model(
                    ModelNodeView {
                        model: ModelView { name: token_at(ts, p + 1).text, fields: members.fields },
                        span: Span { start: token_at(ts, p).span.start, end: closing.span_end },
                        name_span: token_at(ts, p + 1).span,
                        body: Span { start: token_at(ts, p + 2).span.end, end: closing.body_end },
                        fields: members.spans,
                        type_hole: members.hole,
                    },
                ),
            ),
            diagnostic: closing.diagnostic,
            next: closing.next,
        }
    }
}

/// The enum declaration whose keyword stands at index `p`.
pub open spec fn enum_at(ts: Seq<Lexeme>, p: int) -> DeclarationOutcome {
    if token_at(ts, p + 1).kind != TokenKind::Identifier {
        rejected(ts, p + 1)
    } else if token_at(ts, p + 2).kind != TokenKind::LeftBrace {
        rejected(ts, p + 2)
    } else {
        let members = variants_from(ts, p + 3, Seq::empty(), Seq::empty());
        let closing = close_body(ts, members.at, members.failed);
        DeclarationOutcome {
            node: Some(
                DeclarationView::Enum(
                    EnumNodeView {
                        decl: EnumView { name: token_at(ts, p + 1).text, values: members.values },
                        span: Span { start: token_at(ts, p).span.start, end: closing.span_end },
                        name_span: token_at(ts, p + 1).span,
                        body: Span { start: token_at(ts, p + 2).span.end, end: closing.body_end },
                        values: members.spans,
                    },
                ),
            ),
            diagnostic: closing.diagnostic,
            next: closing.next,
        }
    }
}

/// Recovery never goes back and ends in the sequence.
pub proof fn lemma_sync_bounds(ts: Seq<Lexeme>, i: int, in_body: bool)
    requires
        0 <= i <= ts.len(),
    ensures
        i <= sync_from(ts, i, in_body) <= ts.len(),
    decreases ts.len() - i,
{
    if i < ts.len() && !is_sync(ts[i].kind, in_body) {
        lemma_sync_bounds(ts, i + 1, in_body);
    }
}

/// Reading fields never goes back and ends in the sequence; fields that end
/// without a fault end at a closing brace.
pub proof fn lemma_fields_bounds(ts: Seq<Lexeme>, p: int, fields: Seq<FieldView>, spans: Seq<FieldSpansView>)
    requires
        0 <= p <= ts.len(),
    ensures
        p <= fields_from(ts, p, fields, spans).at <= ts.len(),
        !fields_from(ts, p, fields, spans).failed ==> token_at(ts, fields_from(ts, p, fields, spans).at).kind
            == TokenKind::RightBrace,
    decreases ts.len() - p,
{
    if p < ts.len() && ts[p].kind == TokenKind::Identifier {
        lemma_field_bounds(ts, p);
        match field_at(ts, p) {
            FieldOutcome::Parsed { field, spans: places, next, failed } => {
                if !failed {
                    lemma_fields_bounds(ts, next, fields.push(field), spans.push(places));
                }
            },
            FieldOutcome::Failed { .. } => {},
        }
    }
}

/// Reading variants never goes back and ends in the sequence; variants that
/// end without a fault end at a closing brace.
pub proof fn lemma_variants_bounds(ts: Seq<Lexeme>, p: int, values: Seq<Seq<char>>, spans: Seq<Span>)
    requires
        0 <= p <= ts.len(),
    ensures
        p <= variants_from(ts, p, values, spans).at <= ts.len(),
        !variants_from(ts, p, values, spans).failed ==> token_at(ts, variants_from(ts, p, values, spans).at).kind
            == TokenKind::RightBrace,
    decreases ts.len() - p,
{
    if p < ts.len() && ts[p].kind == TokenKind::Identifier {
        if token_at(ts, p + 1).kind == TokenKind::Comma {
            lemma_variants_bounds(ts, p + 2, values.push(ts[p].text), spans.push(ts[p].span));
        }
    }
}

/// Ending a body never goes back and ends in the sequence.
pub proof fn lemma_closing_bounds(ts: Seq<Lexeme>, at: int, failed: bool)
    requires
        0 <= at <= ts.len(),
        !failed ==> token_at(ts, at).kind == TokenKind::RightBrace,
    ensures
        at <= close_body(ts, at, failed).next <= ts.len(),
{
    lemma_sync_bounds(ts, at, true);
}

/// Reading a declaration goes forward and ends in the sequence.
pub proof fn lemma_declaration_bounds(ts: Seq<Lexeme>, p: int)
    requires
        0 <= p < ts.len(),
        ts[p].kind != TokenKind::EndOfFile,
    ensures
        p < model_at(ts, p).next <= ts.len(),
        p < enum_at(ts, p).next <= ts.len(),
{
    if token_at(ts, p + 1).kind != TokenKind::Identifier {
        lemma_sync_bounds(ts, p + 1, false);
    } else if token_at(ts, p + 2).kind != TokenKind::LeftBrace {
        lemma_sync_bounds(ts, p + 2, false);
    } else {
        let fields = fields_from(ts, p + 3, Seq::empty(), Seq::empty());
        lemma_fields_bounds(ts, p + 3, Seq::empty(), Seq::empty());
        lemma_closing_bounds(ts, fields.at, fields.failed);
        let variants = variants_from(ts, p + 3, Seq::empty(), Seq::empty());
        lemma_variants_bounds(ts, p + 3, Seq::empty(), Seq::empty());
        lemma_closing_bounds(ts, variants.at, variants.failed);
    }
}

/// The declarations, with one more where there is one.
pub open spec fn with_node(declarations: Seq<DeclarationView>, node: Option<DeclarationView>) -> Seq<
    DeclarationView,
> {
    match node {
        Some(n) => declarations.push(n),
        None => declarations,
    }
}

/// The diagnostics, with one more where there is one.
pub open spec fn with_diagnostic(diagnostics: Seq<SyntaxDiagnostic>, diagnostic: Option<SyntaxDiagnostic>) -> Seq<
    SyntaxDiagnostic,
> {
    match diagnostic {
        Some(d) => diagnostics.push(d),
        None => diagnostics,
    }
}

/// What parsing gives: a program, and the diagnostics in the order of the text.
pub struct ParseOutcome {
    pub program: ProgramView,
    pub diagnostics: Seq<SyntaxDiagnostic>,
}

/// The declarations written from index `p` on, added to those read before.
/// Tokens that open no declaration are reported once and skipped up to the
/// next declaration.
pub open spec fn declarations_from(
    ts: Seq<Lexeme>,
    p: int,
    declarations: Seq<DeclarationView>,
    diagnostics: Seq<SyntaxDiagnostic>,
) -> ParseOutcome
    decreases ts.len() - p,
{
    if p < 0 || p >= ts.len() || ts[p].kind == TokenKind::EndOfFile {
        ParseOutcome { program: ProgramView { declarations }, diagnostics }
    } else if ts[p].kind == TokenKind::Keyword(Keyword::Model) {
        proof {
            lemma_declaration_bounds(ts, p);
        }
        let outcome = model_at(ts, p);
        declarations_from(
            ts,
            outcome.next,
            with_node(declarations, outcome.node),
            with_diagnostic(diagnostics, outcome.diagnostic),
        )
    } else if ts[p].kind == TokenKind::Keyword(Keyword::Enum) {
        proof {
            lemma_declaration_bounds(ts, p);
        }
        let outcome = enum_at(ts, p);
        declarations_from(
            ts,
            outcome.next,
            with_node(declarations, outcome.node),
            with_diagnostic(diagnostics, outcome.diagnostic),
        )
    } else {
        proof {
            lemma_sync_bounds(ts, p + 1, false);
        }
        declarations_from(
            ts,
            sync_from(ts, p + 1, false),
            declarations,
            diagnostics.push(SyntaxDiagnostic { kind: SyntaxErrorKind::UnexpectedToken, span: ts[p].span }),
        )
    }
}

/// What parsing makes of a token sequence.
pub open spec fn parse_of(tokens: Seq<Lexeme>) -> ParseOutcome {
    declarations_from(stream_of(tokens), 0, Seq::empty(), Seq::empty())
}

} // verus!
