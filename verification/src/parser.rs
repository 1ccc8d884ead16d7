//! The parser: reads a token sequence into declarations and reports what it
//! had to skip. It never fails and always reaches the end of the tokens.

use vstd::prelude::*;
use vstd::string::*;
use crate::ast::Attribute;
use crate::ast::attributes_view;
use crate::ast::DataType;
use crate::ast::Enum;
use crate::ast::EnumValue;
use crate::ast::Field;
use crate::ast::fields_view;
use crate::ast::Model;
use crate::ast::name_view;
use crate::ast::values_view;
use crate::grammar::attributes_from;
use crate::grammar::body_fault;
use crate::grammar::builtin_type;
use crate::grammar::close_body;
use crate::grammar::declarations_from;
use crate::grammar::enum_at;
use crate::grammar::field_at;
use crate::grammar::FieldOutcome;
use crate::grammar::fields_from;
use crate::grammar::is_literal;
use crate::grammar::is_sync;
use crate::grammar::is_trivia;
use crate::grammar::model_at;
use crate::grammar::named_type;
use crate::grammar::parse_of;
use crate::grammar::rejected;
use crate::grammar::significant;
use crate::grammar::stream_of;
use crate::grammar::sync_from;
use crate::grammar::type_at;
use crate::grammar::TypeOutcome;
use crate::grammar::variants_from;
use crate::grammar::well_ended;
use crate::lexer::end_marker;
use crate::lexer::Keyword;
use crate::lexer::lex;
use crate::lexer::lexemes;
use crate::lexer::Token;
use crate::lexer::tokenize;
use crate::lexer::TokenKind;
use crate::provenance::declarations_sourced;
use crate::provenance::diagnostics_sourced;
use crate::provenance::lemma_parse_sourced;
use crate::provenance::lemma_round_trip;
use crate::provenance::pieced;
use crate::span::Span;
use crate::syntax::Declaration;
use crate::syntax::declarations_view;
use crate::syntax::EnumNode;
use crate::syntax::field_spans_view;
use crate::syntax::FieldSpans;
use crate::syntax::ModelNode;
use crate::syntax::Program;
use crate::syntax::SyntaxDiagnostic;
use crate::syntax::SyntaxErrorKind;

verus! {

fn trivia(kind: TokenKind) -> (r: bool)
    ensures
        r == is_trivia(kind),
{
    kind == TokenKind::Whitespace || kind == TokenKind::Comment
}

fn sync_kind(kind: TokenKind, in_body: bool) -> (r: bool)
    ensures
        r == is_sync(kind, in_body),
{
    kind == TokenKind::Keyword(Keyword::Model) || kind == TokenKind::Keyword(Keyword::Enum) || kind
        == TokenKind::EndOfFile || (in_body && kind == TokenKind::RightBrace)
}

fn literal_kind(kind: TokenKind) -> (r: bool)
    ensures
        r == is_literal(kind),
{
    kind == TokenKind::StringLiteral || kind == TokenKind::Number || kind == TokenKind::Identifier
}

/// The tokens that the grammar reads, closed by an end marker.
fn token_stream(tokens: &Vec<Token>) -> (ts: Vec<Token>)
    ensures
        lexemes(ts@) == stream_of(lexemes(tokens@)),
        well_ended(lexemes(ts@)),
{
    let mut ts: Vec<Token> = Vec::new();
    let mut i: usize = 0;
    while i < tokens.len()
        invariant
            i <= tokens.len(),
            lexemes(ts@) == significant(lexemes(tokens@).take(i as int)),
        decreases tokens.len() - i,
    {
        let ghost before = lexemes(tokens@).take(i as int);
        let ghost upto = lexemes(tokens@).take(i + 1);
        assert(upto.drop_last() =~= before);
        assert(upto.last() == tokens@[i as int]@);
        let t = &tokens[i];
        if !trivia(t.kind) {
            let ghost old_ts = lexemes(ts@);
            ts.push(Token { kind: t.kind, text: t.text.clone(), span: t.span });
            assert(lexemes(ts@) =~= old_ts.push(tokens@[i as int]@));
        }
        i += 1;
    }
    assert(lexemes(tokens@).take(tokens.len() as int) =~= lexemes(tokens@));
    let end = if tokens.len() == 0 {
        0
    } else {
        tokens[tokens.len() - 1].span.end
    };
    let ghost old_ts = lexemes(ts@);
    ts.push(Token { kind: TokenKind::EndOfFile, text: String::new(), span: Span { start: end, end } });
    assert(lexemes(ts@) =~= old_ts.push(end_marker(end)));
    ts
}

fn skip_to_sync(ts: &Vec<Token>, i: usize, in_body: bool) -> (j: usize)
    requires
        well_ended(lexemes(ts@)),
        i < ts.len(),
    ensures
        j == sync_from(lexemes(ts@), i as int, in_body),
        i <= j < ts.len(),
        is_sync(ts@[j as int].kind, in_body),
{
    let mut j: usize = i;
    while !sync_kind(ts[j].kind, in_body)
        invariant
            well_ended(lexemes(ts@)),
            i <= j < ts.len(),
            sync_from(lexemes(ts@), j as int, in_body) == sync_from(lexemes(ts@), i as int, in_body),
        decreases ts.len() - j,
    {
        j += 1;
    }
    j
}

fn builtin(keyword: Keyword) -> (r: Option<DataType>)
    ensures
        match r {
            Some(d) => builtin_type(keyword) == Some(d@),
            None => builtin_type(keyword) is None,
        },
{
    match keyword {
        Keyword::Uuid => Some(DataType::UUID),
        Keyword::String => Some(DataType::String),
        Keyword::DateTime => Some(DataType::DateTime),
        Keyword::Data => Some(DataType::Data),
        Keyword::Int => Some(DataType::Int),
        Keyword::Float => Some(DataType::Float),
        Keyword::Boolean => Some(DataType::Boolean),
        _ => None,
    }
}

fn named(token: &Token) -> (r: Option<DataType>)
    ensures
        match r {
            Some(d) => named_type(token@) == Some(d@),
            None => named_type(token@) is None,
        },
{
    match token.kind {
        TokenKind::Keyword(keyword) => builtin(keyword),
        TokenKind::Identifier => Some(DataType::Enum(token.text.clone())),
        _ => None,
    }
}

enum TypeResult {
    Parsed { data_type: DataType, inner_type: Option<String>, span: Span, next: usize },
    Failed { at: usize },
}

impl View for TypeResult {
    type V = TypeOutcome;

    closed spec fn view(&self) -> TypeOutcome {
        match *self {
            TypeResult::Parsed { data_type, inner_type, span, next } => TypeOutcome::Parsed {
                data_type: data_type@,
                inner_type: name_view(inner_type),
                span,
                next: next as int,
            },
            TypeResult::Failed { at } => TypeOutcome::Failed { at: at as int },
        }
    }
}

fn parse_type(ts: &Vec<Token>, p: usize) -> (r: TypeResult)
    requires
        well_ended(lexemes(ts@)),
        p < ts.len(),
    ensures
        r@ == type_at(lexemes(ts@), p as int),
        match r {
            TypeResult::Parsed { next, .. } => p < next < ts.len(),
            TypeResult::Failed { at } => p <= at < ts.len(),
        },
{
    match named(&ts[p]) {
        Some(data_type) => TypeResult::Parsed { data_type, inner_type: None, span: ts[p].span, next: p + 1 },
        None => {
            if ts[p].kind != TokenKind::LeftBracket {
                TypeResult::Failed { at: p }
            } else {
                match named(&ts[p + 1]) {
                    None => TypeResult::Failed { at: p + 1 },
                    Some(data_type) => {
                        if ts[p + 2].kind != TokenKind::RightBracket {
                            TypeResult::Failed { at: p + 2 }
                        } else {
                            TypeResult::Parsed {
                                data_type,
                                inner_type: Some(ts[p + 1].text.clone()),
                                span: Span { start: ts[p].span.start, end: ts[p + 2].span.end },
                                next: p + 3,
                            }
                        }
                    },
                }
            }
        },
    }
}

fn parse_attributes(ts: &Vec<Token>, p: usize) -> (r: (Vec<Attribute>, Vec<Span>, usize, bool))
    requires
        well_ended(lexemes(ts@)),
        p < ts.len(),
    ensures
        attributes_view(r.0@) == attributes_from(lexemes(ts@), p as int, Seq::empty(), Seq::empty()).attributes,
        r.1@ == attributes_from(lexemes(ts@), p as int, Seq::empty(), Seq::empty()).spans,
        r.2 == attributes_from(lexemes(ts@), p as int, Seq::empty(), Seq::empty()).next,
        r.3 == attributes_from(lexemes(ts@), p as int, Seq::empty(), Seq::empty()).failed,
        p <= r.2 < ts.len(),
{
    let mut attributes: Vec<Attribute> = Vec::new();
    let mut spans: Vec<Span> = Vec::new();
    let mut pos: usize = p;
    assert(attributes_view(attributes@) =~= Seq::empty());
    loop
        invariant
            well_ended(lexemes(ts@)),
            p <= pos < ts.len(),
            attributes_from(lexemes(ts@), pos as int, attributes_view(attributes@), spans@) == attributes_from(
                lexemes(ts@),
                p as int,
                Seq::empty(),
                Seq::empty(),
            ),
        decreases ts.len() - pos,
    {
        let ghost seen = attributes_view(attributes@);
        match ts[pos].kind {
            TokenKind::Keyword(Keyword::Queryable) => {
                attributes.push(Attribute::Queryable);
                spans.push(ts[pos].span);
                assert(attributes_view(attributes@) =~= seen.push(Attribute::Queryable@));
                pos += 1;
            },
            TokenKind::Keyword(Keyword::Optional) => {
                attributes.push(Attribute::Optional);
                spans.push(ts[pos].span);
                assert(attributes_view(attributes@) =~= seen.push(Attribute::Optional@));
                pos += 1;
            },
            TokenKind::Pipe => {
                pos += 1;
            },
            TokenKind::Keyword(Keyword::Default) => {
                if ts[pos + 1].kind != TokenKind::LeftParen {
                    return (attributes, spans, pos + 1, true);
                }
                if !literal_kind(ts[pos + 2].kind) {
                    return (attributes, spans, pos + 2, true);
                }
                if ts[pos + 3].kind != TokenKind::RightParen {
                    return (attributes, spans, pos + 3, true);
                }
                let value = Attribute::Default(ts[pos + 2].text.clone());
                assert(value@ == crate::ast::AttributeView::Default(ts@[pos + 2].text@));
                attributes.push(value);
                spans.push(Span { start: ts[pos].span.start, end: ts[pos + 3].span.end });
                assert(attributes_view(attributes@) =~= seen.push(value@));
                pos += 4;
            },
            _ => {
                return (attributes, spans, pos, false);
            },
        }
    }
}

enum FieldResult {
    Parsed { field: Field, spans: FieldSpans, next: usize, failed: bool },
    Failed { at: usize, hole: Option<Span> },
}

impl View for FieldResult {
    type V = FieldOutcome;

    closed spec fn view(&self) -> FieldOutcome {
        match *self {
            FieldResult::Parsed { field, spans, next, failed } => FieldOutcome::Parsed {
                field: field@,
                spans: spans@,
                next: next as int,
                failed,
            },
            FieldResult::Failed { at, hole } => FieldOutcome::Failed { at: at as int, hole },
        }
    }
}

fn parse_field(ts: &Vec<Token>, p: usize) -> (r: FieldResult)
    requires
        well_ended(lexemes(ts@)),
        p < ts.len(),
        ts@[p as int].kind == TokenKind::Identifier,
    ensures
        r@ == field_at(lexemes(ts@), p as int),
        match r {
            FieldResult::Parsed { next, .. } => p < next < ts.len(),
            FieldResult::Failed { at, .. } => p < at < ts.len(),
        },
{
    if ts[p + 1].kind != TokenKind::Colon {
        return FieldResult::Failed { at: p + 1, hole: None };
    }
    match parse_type(ts, p + 2) {
        TypeResult::Failed { at } => FieldResult::Failed {
            at,
            hole: Some(Span { start: ts[p + 1].span.end, end: ts[at].span.start }),
        },
        TypeResult::Parsed { data_type, inner_type, span, next } => {
            let (attributes, places, after, failed) = parse_attributes(ts, next);
            let next = if !failed && ts[after].kind == TokenKind::Comma {
                after + 1
            } else {
                after
            };
            FieldResult::Parsed {
                field: Field { name: ts[p].text.clone(), data_type, attributes, inner_type },
                spans: FieldSpans {
                    name: ts[p].span,
                    colon_end: ts[p + 1].span.end,
                    ty: span,
                    attributes: places,
                    end: ts[after].span.start,
                },
                next,
                failed,
            }
        },
    }
}

fn parse_fields(ts: &Vec<Token>, p: usize) -> (r: (Vec<Field>, Vec<FieldSpans>, usize, Option<Span>, bool))
    requires
        well_ended(lexemes(ts@)),
        p < ts.len(),
    ensures
        fields_view(r.0@) == fields_from(lexemes(ts@), p as int, Seq::empty(), Seq::empty()).fields,
        field_spans_view(r.1@) == fields_from(lexemes(ts@), p as int, Seq::empty(), Seq::empty()).spans,
        r.2 == fields_from(lexemes(ts@), p as int, Seq::empty(), Seq::empty()).at,
        r.3 == fields_from(lexemes(ts@), p as int, Seq::empty(), Seq::empty()).hole,
        r.4 == fields_from(lexemes(ts@), p as int, Seq::empty(), Seq::empty()).failed,
        p <= r.2 < ts.len(),
        !r.4 ==> ts@[r.2 as int].kind == TokenKind::RightBrace,
{
    let mut fields: Vec<Field> = Vec::new();
    let mut spans: Vec<FieldSpans> = Vec::new();
    let mut pos: usize = p;
    assert(fields_view(fields@) =~= Seq::empty());
    assert(field_spans_view(spans@) =~= Seq::empty());
    while ts[pos].kind == TokenKind::Identifier
        invariant
            well_ended(lexemes(ts@)),
            p <= pos < ts.len(),
            fields_from(lexemes(ts@), pos as int, fields_view(fields@), field_spans_view(spans@)) == fields_from(
                lexemes(ts@),
                p as int,
                Seq::empty(),
                Seq::empty(),
            ),
        decreases ts.len() - pos,
    {
        let ghost seen = fields_view(fields@);
        let ghost seen_spans = field_spans_view(spans@);
        match parse_field(ts, pos) {
            FieldResult::Failed { at, hole } => {
                return (fields, spans, at, hole, true);
            },
            FieldResult::Parsed { field, spans: places, next, failed } => {
                let ghost field_view = field@;
                let ghost places_view = places@;
                fields.push(field);
                spans.push(places);
                assert(fields_view(fields@) =~= seen.push(field_view));
                assert(field_spans_view(spans@) =~= seen_spans.push(places_view));
                if failed {
                    return (fields, spans, next, None, true);
                }
                pos = next;
            },
        }
    }
    let failed = ts[pos].kind != TokenKind::RightBrace;
    (fields, spans, pos, None, failed)
}

fn parse_variants(ts: &Vec<Token>, p: usize) -> (r: (Vec<EnumValue>, Vec<Span>, usize, bool))
    requires
        well_ended(lexemes(ts@)),
        p < ts.len(),
    ensures
        values_view(r.0@) == variants_from(lexemes(ts@), p as int, Seq::empty(), Seq::empty()).values,
        r.1@ == variants_from(lexemes(ts@), p as int, Seq::empty(), Seq::empty()).spans,
        r.2 == variants_from(lexemes(ts@), p as int, Seq::empty(), Seq::empty()).at,
        r.3 == variants_from(lexemes(ts@), p as int, Seq::empty(), Seq::empty()).failed,
        p <= r.2 < ts.len(),
        !r.3 ==> ts@[r.2 as int].kind == TokenKind::RightBrace,
{
    let mut values: Vec<EnumValue> = Vec::new();
    let mut spans: Vec<Span> = Vec::new();
    let mut pos: usize = p;
    assert(values_view(values@) =~= Seq::empty());
    while ts[pos].kind == TokenKind::Identifier
        invariant
            well_ended(lexemes(ts@)),
            p <= pos < ts.len(),
            variants_from(lexemes(ts@), pos as int, values_view(values@), spans@) == variants_from(
                lexemes(ts@),
                p as int,
                Seq::empty(),
                Seq::empty(),
            ),
        decreases ts.len() - pos,
    {
        let ghost seen = values_view(values@);
        values.push(EnumValue::Variant(ts[pos].text.clone()));
        spans.push(ts[pos].span);
        assert(values_view(values@) =~= seen.push(ts@[pos as int].text@));
        if ts[pos + 1].kind == TokenKind::Comma {
            pos += 2;
        } else {
            let failed = ts[pos + 1].kind != TokenKind::RightBrace;
            return (values, spans, pos + 1, failed);
        }
    }
    let failed = ts[pos].kind != TokenKind::RightBrace;
    (values, spans, pos, failed)
}

fn fault_of(kind: TokenKind) -> (fault: SyntaxErrorKind)
    ensures
        fault == body_fault(kind),
{
    if sync_kind(kind, false) {
        SyntaxErrorKind::UnterminatedBody
    } else {
        SyntaxErrorKind::UnexpectedToken
    }
}

/// Ends a body at index `at`; yields the diagnostic, the end of the body,
/// the end of the declaration and the index at which parsing goes on.
fn close(ts: &Vec<Token>, at: usize, failed: bool) -> (r: (Option<SyntaxDiagnostic>, usize, usize, usize))
    requires
        well_ended(lexemes(ts@)),
        at < ts.len(),
        !failed ==> ts@[at as int].kind == TokenKind::RightBrace,
    ensures
        r.0 == close_body(lexemes(ts@), at as int, failed).diagnostic,
        r.1 == close_body(lexemes(ts@), at as int, failed).body_end,
        r.2 == close_body(lexemes(ts@), at as int, failed).span_end,
        r.3 == close_body(lexemes(ts@), at as int, failed).next,
        at <= r.3 < ts.len(),
{
    if !failed {
        (None, ts[at].span.start, ts[at].span.end, at + 1)
    } else {
        let stop = skip_to_sync(ts, at, true);
        let diagnostic = Some(SyntaxDiagnostic { kind: fault_of(ts[at].kind), span: ts[at].span });
        if ts[stop].kind == TokenKind::RightBrace {
            (diagnostic, ts[stop].span.start, ts[stop].span.end, stop + 1)
        } else {
            (diagnostic, ts[stop].span.start, ts[stop].span.start, stop)
        }
    }
}

fn reject(ts: &Vec<Token>, at: usize) -> (r: (Option<Declaration>, Option<SyntaxDiagnostic>, usize))
    requires
        well_ended(lexemes(ts@)),
        at < ts.len(),
    ensures
        r.0 is None,
        rejected(lexemes(ts@), at as int).node is None,
        r.1 == rejected(lexemes(ts@), at as int).diagnostic,
        r.2 == rejected(lexemes(ts@), at as int).next,
        at <= r.2 < ts.len(),
{
    let next = skip_to_sync(ts, at, false);
    (None, Some(SyntaxDiagnostic { kind: SyntaxErrorKind::UnexpectedToken, span: ts[at].span }), next)
}

/// What an optional declaration is to specifications.
pub open spec fn node_view(node: Option<Declaration>) -> Option<crate::syntax::DeclarationView> {
    match node {
        Some(n) => Some(n@),
        None => None,
    }
}

fn parse_model(ts: &Vec<Token>, p: usize) -> (r: (Option<Declaration>, Option<SyntaxDiagnostic>, usize))
    requires
        well_ended(lexemes(ts@)),
        p < ts.len(),
        ts@[p as int].kind == TokenKind::Keyword(Keyword::Model),
    ensures
        node_view(r.0) == model_at(lexemes(ts@), p as int).node,
        r.1 == model_at(lexemes(ts@), p as int).diagnostic,
        r.2 == model_at(lexemes(ts@), p as int).next,
        p < r.2 < ts.len(),
{
    if ts[p + 1].kind != TokenKind::Identifier {
        return reject(ts, p + 1);
    }
    if ts[p + 2].kind != TokenKind::LeftBrace {
        return reject(ts, p + 2);
    }
    let (fields, spans, at, hole, failed) = parse_fields(ts, p + 3);
    let (diagnostic, body_end, span_end, next) = close(ts, at, failed);
    let node = ModelNode {
        model: Model { name: ts[p + 1].text.clone(), fields },
        span: Span { start: ts[p].span.start, end: span_end },
        name_span: ts[p + 1].span,
        body: Span { start: ts[p + 2].span.end, end: body_end },
        fields: spans,
        type_hole: hole,
    };
    (Some(Declaration::Model(node)), diagnostic, next)
}

fn parse_enum(ts: &Vec<Token>, p: usize) -> (r: (Option<Declaration>, Option<SyntaxDiagnostic>, usize))
    requires
        well_ended(lexemes(ts@)),
        p < ts.len(),
        ts@[p as int].kind == TokenKind::Keyword(Keyword::Enum),
    ensures
        node_view(r.0) == enum_at(lexemes(ts@), p as int).node,
        r.1 == enum_at(lexemes(ts@), p as int).diagnostic,
        r.2 == enum_at(lexemes(ts@), p as int).next,
        p < r.2 < ts.len(),
{
    if ts[p + 1].kind != TokenKind::Identifier {
        return reject(ts, p + 1);
    }
    if ts[p + 2].kind != TokenKind::LeftBrace {
        return reject(ts, p + 2);
    }
    let (values, spans, at, failed) = parse_variants(ts, p + 3);
    let (diagnostic, body_end, span_end, next) = close(ts, at, failed);
    let node = EnumNode {
        decl: Enum { name: ts[p + 1].text.clone(), values },
        span: Span { start: ts[p].span.start, end: span_end },
        name_span: ts[p + 1].span,
        body: Span { start: ts[p + 2].span.end, end: body_end },
        values: spans,
    };
    (Some(Declaration::Enum(node)), diagnostic, next)
}

/// Parses `tokens` into the declarations of a document.
///
/// Blanks and comments are passed over. Every declaration with a complete
/// head is part of the result, also where its body is faulty. Each faulty
/// declaration and each run of stray tokens between declarations gives one
/// diagnostic, in the order of the text.
pub fn parse(tokens: &Vec<Token>) -> (r: (Program, Vec<SyntaxDiagnostic>))
    ensures
        r.0@ == parse_of(lexemes(tokens@)).program,
        r.1@ == parse_of(lexemes(tokens@)).diagnostics,
{
    let ts = token_stream(tokens);
    let mut declarations: Vec<Declaration> = Vec::new();
    let mut diagnostics: Vec<SyntaxDiagnostic> = Vec::new();
    let mut pos: usize = 0;
    assert(declarations_view(declarations@) =~= Seq::empty());
    while ts[pos].kind != TokenKind::EndOfFile
        invariant
            well_ended(lexemes(ts@)),
            pos < ts.len(),
            declarations_from(lexemes(ts@), pos as int, declarations_view(declarations@), diagnostics@)
                == declarations_from(lexemes(ts@), 0, Seq::empty(), Seq::empty()),
        decreases ts.len() - pos,
    {
        let ghost seen = declarations_view(declarations@);
        let kind = ts[pos].kind;
        if kind == TokenKind::Keyword(Keyword::Model) || kind == TokenKind::Keyword(Keyword::Enum) {
            let (node, diagnostic, next) = if kind == TokenKind::Keyword(Keyword::Model) {
                parse_model(&ts, pos)
            } else {
                parse_enum(&ts, pos)
            };
            match node {
                Some(n) => {
                    let ghost n_view = n@;
                    declarations.push(n);
                    assert(declarations_view(declarations@) =~= seen.push(n_view));
                },
                None => {},
            }
            match diagnostic {
                Some(d) => {
                    diagnostics.push(d);
                },
                None => {},
            }
            pos = next;
        } else {
            diagnostics.push(SyntaxDiagnostic { kind: SyntaxErrorKind::UnexpectedToken, span: ts[pos].span });
            pos = skip_to_sync(&ts, pos + 1, false);
        }
    }
    (Program { declarations }, diagnostics)
}

/// Splits `text` into tokens and parses them.
///
/// Every span of the result lies in the text, every name in it is the text
/// at its span, the declarations follow one another without overlap, and
/// slicing the text by them and by what lies between them gives back the text.
pub fn parse_text(text: &str) -> (r: (Program, Vec<SyntaxDiagnostic>))
    ensures
        r.0@ == parse_of(lex(text@)).program,
        r.1@ == parse_of(lex(text@)).diagnostics,
        declarations_sourced(r.0@.declarations, text@),
        diagnostics_sourced(r.1@, text@),
        pieced(text@, r.0@.declarations, 0, 0) == text@,
{
    let tokens = tokenize(text);
    proof {
        assert(text@.len() == tokens@.last().span.end);
        lemma_parse_sourced(text@);
        lemma_round_trip(text@);
    }
    parse(&tokens)
}

} // verus!
