//! Where the parts of a program come from: every span of a parsed program
//! lies in the text that was parsed, every name is the text at its span, and
//! the declarations and their fields lie apart, each in its place.

use vstd::prelude::*;
use crate::ast::AttributeView;
use crate::ast::FieldView;
use crate::grammar::attributes_from;
use crate::grammar::close_body;
use crate::grammar::declarations_from;
use crate::grammar::end_offset;
use crate::grammar::enum_at;
use crate::grammar::field_at;
use crate::grammar::FieldOutcome;
use crate::grammar::fields_from;
use crate::grammar::is_literal;
use crate::grammar::is_sync;
use crate::grammar::is_trivia;
use crate::grammar::model_at;
use crate::grammar::named_type;
use crate::grammar::parse_of;
use crate::grammar::rejected;
use crate::grammar::significant;
use crate::grammar::stream_of;
use crate::grammar::sync_from;
use crate::grammar::token_at;
use crate::grammar::type_at;
use crate::grammar::TypeOutcome;
use crate::grammar::variants_from;
use crate::grammar::well_ended;
use crate::grammar::with_diagnostic;
use crate::grammar::with_node;
use crate::lexer::end_marker;
use crate::lexer::Keyword;
use crate::lexer::lemma_lexeme_bounds;
use crate::lexer::lex;
use crate::lexer::lex_from;
use crate::lexer::Lexeme;
use crate::lexer::lexeme_at;
use crate::lexer::TokenKind;
use crate::resolve::enclosing;
use crate::resolve::field_around;
use crate::resolve::in_attributes;
use crate::resolve::in_type;
use crate::resolve::lemma_enclosing_first;
use crate::resolve::lemma_field_around_first;
use crate::span::Span;
use crate::syntax::DeclarationView;
use crate::syntax::EnumNodeView;
use crate::syntax::FieldSpansView;
use crate::syntax::ModelNodeView;
use crate::syntax::SyntaxDiagnostic;

verus! {

/// The token lies in the text `s`, spells the text at its span and, unless
/// it marks the end, holds a character.
pub open spec fn token_sound(token: Lexeme, s: Seq<char>) -> bool {
    &&& token.span.within(s.len() as int)
    &&& token.text == token.span.slice(s)
    &&& token.kind != TokenKind::EndOfFile ==> token.span.start < token.span.end
}

/// The tokens lie in the text `s` in their order, without overlap, and each
/// spells the text at its span.
pub open spec fn arranged(ts: Seq<Lexeme>, s: Seq<char>) -> bool {
    &&& forall|i: int| 0 <= i < ts.len() ==> token_sound(#[trigger] ts[i], s)
    &&& forall|i: int, j: int|
        0 <= i < j < ts.len() ==> (#[trigger] ts[i]).span.end <= (#[trigger] ts[j]).span.start
}

/// The tokens of a text from offset `i` on lie behind `i`, are arranged, and
/// end with the end marker.
proof fn lemma_lex_arranged(s: Seq<char>, i: int)
    requires
        0 <= i <= s.len() <= usize::MAX,
    ensures
        arranged(lex_from(s, i), s),
        lex_from(s, i).len() >= 1,
        lex_from(s, i).last() == end_marker(s.len() as usize),
        forall|k: int| 0 <= k < lex_from(s, i).len() ==> i <= (#[trigger] lex_from(s, i)[k]).span.start,
    decreases s.len() - i,
{
    let ls = lex_from(s, i);
    if i < s.len() {
        let (kind, end) = lexeme_at(s, i);
        lemma_lexeme_bounds(s, i);
        lemma_lex_arranged(s, end);
        let head = Lexeme { kind, text: s.subrange(i, end), span: Span { start: i as usize, end: end as usize } };
        let tail = lex_from(s, end);
        assert(ls =~= seq![head] + tail);
        assert forall|k: int| 0 <= k < ls.len() implies token_sound(#[trigger] ls[k], s) && i
            <= ls[k].span.start by {
            if k > 0 {
                assert(ls[k] == tail[k - 1]);
            }
        }
        assert forall|k: int, l: int| 0 <= k < l < ls.len() implies (#[trigger] ls[k]).span.end <= (
        #[trigger] ls[l]).span.start by {
            assert(ls[l] == tail[l - 1]);
            if k > 0 {
                assert(ls[k] == tail[k - 1]);
            }
        }
    } else {
        assert(end_marker(s.len() as usize).text =~= end_marker(s.len() as usize).span.slice(s));
    }
}

/// Leaving out blanks and comments keeps tokens arranged, and none of those
/// that stay ends behind the last token.
proof fn lemma_significant_arranged(ts: Seq<Lexeme>, s: Seq<char>)
    requires
        arranged(ts, s),
    ensures
        arranged(significant(ts), s),
        forall|k: int| 0 <= k < significant(ts).len() ==> (#[trigger] significant(ts)[k]).span.end <= end_offset(ts),
    decreases ts.len(),
{
    if ts.len() > 0 {
        let rest = ts.drop_last();
        assert forall|i: int| 0 <= i < rest.len() implies (#[trigger] rest[i]) == ts[i] by {}
        assert(arranged(rest, s)) by {
            assert forall|i: int, j: int| 0 <= i < j < rest.len() implies (#[trigger] rest[i]).span.end <= (
            #[trigger] rest[j]).span.start by {
                assert(rest[i] == ts[i]);
                assert(rest[j] == ts[j]);
            }
            assert forall|i: int| 0 <= i < rest.len() implies token_sound(#[trigger] rest[i], s) by {
                assert(rest[i] == ts[i]);
            }
        }
        lemma_significant_arranged(rest, s);
        let kept = significant(rest);
        let last = ts.last();
        assert(last == ts[ts.len() - 1]);
        assert forall|k: int| 0 <= k < kept.len() implies (#[trigger] kept[k]).span.end <= last.span.start by {
            assert(kept[k].span.end <= end_offset(rest));
            assert(rest.len() > 0);
            assert(rest.last() == ts[ts.len() - 2]);
            assert(ts[ts.len() - 2].span.end <= ts[ts.len() - 1].span.start);
        }
        let all = significant(ts);
        if !is_trivia(last.kind) {
            assert(all == kept.push(last));
            assert forall|i: int, j: int| 0 <= i < j < all.len() implies (#[trigger] all[i]).span.end <= (
            #[trigger] all[j]).span.start by {
                if j < kept.len() {
                    assert(kept[i].span.end <= kept[j].span.start);
                } else {
                    assert(all[i] == kept[i]);
                }
            }
            assert forall|i: int| 0 <= i < all.len() implies token_sound(#[trigger] all[i], s) by {
                if i < kept.len() {
                    assert(all[i] == kept[i]);
                }
            }
        }
        assert forall|k: int| 0 <= k < all.len() implies (#[trigger] all[k]).span.end <= end_offset(ts) by {
            if k < kept.len() {
                assert(all[k] == kept[k]);
            }
        }
    }
}

/// The tokens that the grammar reads of a text are arranged in the text and
/// end with an end marker.
pub proof fn lemma_stream_arranged(s: Seq<char>)
    requires
        s.len() <= usize::MAX,
    ensures
        arranged(stream_of(lex(s)), s),
        well_ended(stream_of(lex(s))),
{
    let ls = lex(s);
    lemma_lex_arranged(s, 0);
    lemma_significant_arranged(ls, s);
    let kept = significant(ls);
    let marker = end_marker(end_offset(ls));
    let ts = stream_of(ls);
    assert(ts == kept.push(marker));
    assert(end_offset(ls) == s.len());
    assert(marker.text =~= marker.span.slice(s));
    assert forall|i: int, j: int| 0 <= i < j < ts.len() implies (#[trigger] ts[i]).span.end <= (
    #[trigger] ts[j]).span.start by {
        if j < kept.len() {
            assert(kept[i].span.end <= kept[j].span.start);
        } else {
            assert(ts[i] == kept[i]);
        }
    }
    assert forall|i: int| 0 <= i < ts.len() implies token_sound(#[trigger] ts[i], s) by {
        if i < kept.len() {
            assert(ts[i] == kept[i]);
        }
    }
}

/// A field and its places agree with the text: the name is the text at its
/// span, every span lies in the text, the name stands before the colon and
/// the colon before the type, and each attribute has its span.
pub open spec fn field_sourced(field: FieldView, places: FieldSpansView, s: Seq<char>) -> bool {
    &&& field.name == places.name.slice(s)
    &&& places.name.within(s.len() as int)
    &&& places.ty.within(s.len() as int)
    &&& places.colon_end <= s.len()
    &&& places.end <= s.len()
    &&& places.name.end < places.colon_end
    &&& places.colon_end <= places.ty.start
    &&& places.ty.end <= places.end
    &&& places.attributes.len() == field.attributes.len()
    &&& forall|j: int| 0 <= j < places.attributes.len() ==> (#[trigger] places.attributes[j]).within(s.len() as int)
}

/// The place that waits for a type, if there is one, lies in the text.
pub open spec fn hole_sourced(hole: Option<Span>, s: Seq<char>) -> bool {
    match hole {
        Some(span) => span.within(s.len() as int),
        None => true,
    }
}

/// A model declaration agrees with the text.
pub open spec fn model_sourced(node: ModelNodeView, s: Seq<char>) -> bool {
    &&& node.model.name == node.name_span.slice(s)
    &&& node.span.within(s.len() as int)
    &&& node.name_span.within(s.len() as int)
    &&& node.body.within(s.len() as int)
    &&& node.span.start <= node.name_span.start
    &&& node.name_span.end < node.body.start
    &&& node.body.end <= node.span.end
    &&& fields_sourced(node.model.fields, node.fields, s)
    &&& fields_between(node.fields, node.body.start as int, node.body.end as int)
    &&& hole_sourced(node.type_hole, s)
}

/// An enum declaration agrees with the text.
pub open spec fn enum_sourced(node: EnumNodeView, s: Seq<char>) -> bool {
    &&& node.decl.name == node.name_span.slice(s)
    &&& node.span.within(s.len() as int)
    &&& node.name_span.within(s.len() as int)
    &&& node.body.within(s.len() as int)
    &&& node.span.start <= node.name_span.start
    &&& node.name_span.end < node.body.start
    &&& node.body.end <= node.span.end
    &&& values_sourced(node.decl.values, node.values, s)
    &&& spans_between(node.values, node.body.start as int, node.body.end as int)
}

/// A declaration agrees with the text: its name, the names of its fields or
/// variants are the text at their spans, the name stands before the body and
/// both in the declaration, and every span lies in the text.
pub open spec fn declaration_sourced(declaration: DeclarationView, s: Seq<char>) -> bool {
    match declaration {
        DeclarationView::Model(node) => model_sourced(node, s),
        DeclarationView::Enum(node) => enum_sourced(node, s),
    }
}

/// The declarations agree with the text and follow one another in it without overlap.
pub open spec fn declarations_sourced(declarations: Seq<DeclarationView>, s: Seq<char>) -> bool {
    &&& forall|i: int| 0 <= i < declarations.len() ==> declaration_sourced(#[trigger] declarations[i], s)
    &&& forall|i: int, j: int|
        0 <= i < j < declarations.len() ==> (#[trigger] declarations[i]).span().end <= (
        #[trigger] declarations[j]).span().start
}

/// The span of every diagnostic lies in the text.
pub open spec fn diagnostics_sourced(diagnostics: Seq<SyntaxDiagnostic>, s: Seq<char>) -> bool {
    forall|i: int| 0 <= i < diagnostics.len() ==> (#[trigger] diagnostics[i]).span.within(s.len() as int)
}

/// Whatever index is asked for, the token there lies in the text and spells
/// the text at its span.
proof fn lemma_token_at(ts: Seq<Lexeme>, s: Seq<char>, i: int)
    requires
        arranged(ts, s),
    ensures
        token_sound(token_at(ts, i), s),
{
    if !(0 <= i < ts.len()) {
        assert(end_marker(0).text =~= end_marker(0).span.slice(s));
    }
}

/// A token that is no end marker is in the sequence and not its last.
proof fn lemma_not_last(ts: Seq<Lexeme>, i: int)
    requires
        well_ended(ts),
        token_at(ts, i).kind != TokenKind::EndOfFile,
    ensures
        0 <= i < ts.len() - 1,
{
}

/// Tokens at rising indices lie in the text in that order.
proof fn lemma_in_order(ts: Seq<Lexeme>, s: Seq<char>, i: int, j: int)
    requires
        arranged(ts, s),
        0 <= i <= j < ts.len(),
    ensures
        ts[i].span.start <= ts[j].span.start,
        ts[i].span.end <= ts[j].span.end,
        i < j ==> ts[i].span.end <= ts[j].span.start,
{
    assert(token_sound(ts[i], s));
    assert(token_sound(ts[j], s));
}

proof fn lemma_type_sourced(ts: Seq<Lexeme>, s: Seq<char>, p: int)
    requires
        arranged(ts, s),
        well_ended(ts),
        0 <= p < ts.len(),
    ensures
        match type_at(ts, p) {
            TypeOutcome::Parsed { span, next, .. } => span.within(s.len() as int) && p < next < ts.len()
                && span.start == ts[p].span.start && span.end <= ts[next].span.start,
            TypeOutcome::Failed { at } => p <= at < ts.len(),
        },
{
    lemma_token_at(ts, s, p);
    if named_type(token_at(ts, p)) is Some {
        lemma_not_last(ts, p);
        lemma_in_order(ts, s, p, p + 1);
    } else if token_at(ts, p).kind == TokenKind::LeftBracket {
        lemma_not_last(ts, p);
        if named_type(token_at(ts, p + 1)) is Some {
            lemma_not_last(ts, p + 1);
            if token_at(ts, p + 2).kind == TokenKind::RightBracket {
                lemma_not_last(ts, p + 2);
                lemma_in_order(ts, s, p, p + 2);
                lemma_in_order(ts, s, p + 2, p + 3);
                lemma_token_at(ts, s, p + 2);
            }
        }
    }
}

/// Every span lies in the text.
pub open spec fn spans_sourced(spans: Seq<Span>, s: Seq<char>) -> bool {
    forall|j: int| 0 <= j < spans.len() ==> (#[trigger] spans[j]).within(s.len() as int)
}

proof fn lemma_attributes_sourced(
    ts: Seq<Lexeme>,
    s: Seq<char>,
    p: int,
    attributes: Seq<AttributeView>,
    spans: Seq<Span>,
)
    requires
        arranged(ts, s),
        well_ended(ts),
        0 <= p < ts.len(),
        attributes.len() == spans.len(),
        spans_sourced(spans, s),
    ensures
        attributes_from(ts, p, attributes, spans).attributes.len() == attributes_from(
            ts,
            p,
            attributes,
            spans,
        ).spans.len(),
        spans_sourced(attributes_from(ts, p, attributes, spans).spans, s),
        p <= attributes_from(ts, p, attributes, spans).next < ts.len(),
    decreases ts.len() - p,
{
    lemma_token_at(ts, s, p);
    match ts[p].kind {
        TokenKind::Keyword(Keyword::Queryable) => {
            lemma_not_last(ts, p);
            let more = spans.push(ts[p].span);
            assert(spans_sourced(more, s)) by {
                assert forall|j: int| 0 <= j < more.len() implies (#[trigger] more[j]).within(s.len() as int) by {
                    if j < spans.len() {
                        assert(more[j] == spans[j]);
                    }
                }
            }
            lemma_attributes_sourced(ts, s, p + 1, attributes.push(AttributeView::Queryable), more);
        },
        TokenKind::Keyword(Keyword::Optional) => {
            lemma_not_last(ts, p);
            let more = spans.push(ts[p].span);
            assert(spans_sourced(more, s)) by {
                assert forall|j: int| 0 <= j < more.len() implies (#[trigger] more[j]).within(s.len() as int) by {
                    if j < spans.len() {
                        assert(more[j] == spans[j]);
                    }
                }
            }
            lemma_attributes_sourced(ts, s, p + 1, attributes.push(AttributeView::Optional), more);
        },
        TokenKind::Pipe => {
            lemma_not_last(ts, p);
            lemma_attributes_sourced(ts, s, p + 1, attributes, spans);
        },
        TokenKind::Keyword(Keyword::Default) => {
            lemma_not_last(ts, p);
            if token_at(ts, p + 1).kind == TokenKind::LeftParen {
                lemma_not_last(ts, p + 1);
                if is_literal(token_at(ts, p + 2).kind) {
                    lemma_not_last(ts, p + 2);
                    if token_at(ts, p + 3).kind == TokenKind::RightParen {
                        lemma_not_last(ts, p + 3);
                        lemma_in_order(ts, s, p, p + 3);
                        lemma_token_at(ts, s, p + 3);
                        let whole = Span { start: ts[p].span.start, end: token_at(ts, p + 3).span.end };
                        let more = spans.push(whole);
                        assert(spans_sourced(more, s)) by {
                            assert forall|j: int| 0 <= j < more.len() implies (#[trigger] more[j]).within(
                                s.len() as int,
                            ) by {
                                if j < spans.len() {
                                    assert(more[j] == spans[j]);
                                }
                            }
                        }
                        lemma_attributes_sourced(
                            ts,
                            s,
                            p + 4,
                            attributes.push(AttributeView::Default(token_at(ts, p + 2).text)),
                            more,
                        );
                    }
                }
            }
        },
        _ => {},
    }
}

proof fn lemma_field_sourced(ts: Seq<Lexeme>, s: Seq<char>, p: int)
    requires
        arranged(ts, s),
        well_ended(ts),
        0 <= p < ts.len(),
        ts[p].kind == TokenKind::Identifier,
    ensures
        match field_at(ts, p) {
            FieldOutcome::Parsed { field, spans, next, .. } => field_sourced(field, spans, s) && p < next
                < ts.len() && spans.name.start == ts[p].span.start && spans.end <= ts[next].span.start,
            FieldOutcome::Failed { at, hole } => p < at < ts.len() && hole_sourced(hole, s),
        },
{
    lemma_not_last(ts, p);
    lemma_token_at(ts, s, p);
    lemma_token_at(ts, s, p + 1);
    if token_at(ts, p + 1).kind == TokenKind::Colon {
        lemma_not_last(ts, p + 1);
        lemma_type_sourced(ts, s, p + 2);
        match type_at(ts, p + 2) {
            TypeOutcome::Failed { at } => {
                lemma_in_order(ts, s, p + 1, at);
                lemma_token_at(ts, s, at);
            },
            TypeOutcome::Parsed { next, .. } => {
                lemma_attributes_sourced(ts, s, next, Seq::empty(), Seq::empty());
                let read = attributes_from(ts, next, Seq::empty(), Seq::empty());
                lemma_token_at(ts, s, read.next);
                lemma_in_order(ts, s, p, p + 1);
                lemma_in_order(ts, s, p + 1, p + 2);
                lemma_in_order(ts, s, next, read.next);
                if !read.failed && token_at(ts, read.next).kind == TokenKind::Comma {
                    lemma_not_last(ts, read.next);
                    lemma_in_order(ts, s, read.next, read.next + 1);
                }
            },
        }
    }
}

/// Every field has its places and agrees with the text, and the fields
/// follow one another in the text.
pub open spec fn fields_sourced(fields: Seq<FieldView>, spans: Seq<FieldSpansView>, s: Seq<char>) -> bool {
    &&& fields.len() == spans.len()
    &&& forall|k: int| 0 <= k < spans.len() ==> field_sourced(fields[k], #[trigger] spans[k], s)
    &&& forall|i: int, j: int|
        0 <= i < j < spans.len() ==> (#[trigger] spans[i]).end <= (#[trigger] spans[j]).name.start
}

/// Every field begins at or behind offset `lo` and ends at or before offset `hi`.
pub open spec fn fields_between(spans: Seq<FieldSpansView>, lo: int, hi: int) -> bool {
    forall|k: int| 0 <= k < spans.len() ==> lo <= (#[trigger] spans[k]).name.start && spans[k].end <= hi
}

/// Every span begins at or behind offset `lo` and ends at or before offset `hi`.
pub open spec fn spans_between(spans: Seq<Span>, lo: int, hi: int) -> bool {
    forall|k: int| 0 <= k < spans.len() ==> lo <= (#[trigger] spans[k]).start && spans[k].end <= hi
}

proof fn lemma_fields_sourced(
    ts: Seq<Lexeme>,
    s: Seq<char>,
    p: int,
    fields: Seq<FieldView>,
    spans: Seq<FieldSpansView>,
    lo: int,
)
    requires
        arranged(ts, s),
        well_ended(ts),
        0 <= p < ts.len(),
        fields_sourced(fields, spans, s),
        fields_between(spans, lo, ts[p].span.start as int),
        lo <= ts[p].span.start,
    ensures
        fields_sourced(fields_from(ts, p, fields, spans).fields, fields_from(ts, p, fields, spans).spans, s),
        hole_sourced(fields_from(ts, p, fields, spans).hole, s),
        p <= fields_from(ts, p, fields, spans).at < ts.len(),
        fields_between(
            fields_from(ts, p, fields, spans).spans,
            lo,
            ts[fields_from(ts, p, fields, spans).at].span.start as int,
        ),
        !fields_from(ts, p, fields, spans).failed ==> ts[fields_from(ts, p, fields, spans).at].kind
            == TokenKind::RightBrace,
    decreases ts.len() - p,
{
    if ts[p].kind == TokenKind::Identifier {
        lemma_field_sourced(ts, s, p);
        match field_at(ts, p) {
            FieldOutcome::Failed { at, .. } => {
                lemma_in_order(ts, s, p, at);
            },
            FieldOutcome::Parsed { field, spans: places, next, failed } => {
                let more_fields = fields.push(field);
                let more_spans = spans.push(places);
                lemma_in_order(ts, s, p, next);
                assert(fields_sourced(more_fields, more_spans, s)) by {
                    assert forall|k: int| 0 <= k < more_spans.len() implies field_sourced(
                        more_fields[k],
                        #[trigger] more_spans[k],
                        s,
                    ) by {
                        if k < spans.len() {
                            assert(more_spans[k] == spans[k]);
                            assert(more_fields[k] == fields[k]);
                        }
                    }
                    assert forall|i: int, j: int| 0 <= i < j < more_spans.len() implies (
                    #[trigger] more_spans[i]).end <= (#[trigger] more_spans[j]).name.start by {
                        assert(more_spans[i] == spans[i]);
                        if j < spans.len() {
                            assert(more_spans[j] == spans[j]);
                        }
                    }
                }
                assert(fields_between(more_spans, lo, ts[next].span.start as int)) by {
                    assert forall|k: int| 0 <= k < more_spans.len() implies lo <= (
                    #[trigger] more_spans[k]).name.start && more_spans[k].end <= ts[next].span.start by {
                        if k < spans.len() {
                            assert(more_spans[k] == spans[k]);
                        }
                    }
                }
                if !failed {
                    lemma_fields_sourced(ts, s, next, more_fields, more_spans, lo);
                }
            },
        }
    }
}

/// Every variant has its span and is the text at it, and the variants
/// follow one another in the text.
pub open spec fn values_sourced(values: Seq<Seq<char>>, spans: Seq<Span>, s: Seq<char>) -> bool {
    &&& values.len() == spans.len()
    &&& forall|k: int|
        0 <= k < spans.len() ==> (#[trigger] spans[k]).within(s.len() as int) && values[k] == spans[k].slice(s)
    &&& forall|i: int, j: int| 0 <= i < j < spans.len() ==> (#[trigger] spans[i]).end <= (#[trigger] spans[j]).start
}

proof fn lemma_variants_sourced(
    ts: Seq<Lexeme>,
    s: Seq<char>,
    p: int,
    values: Seq<Seq<char>>,
    spans: Seq<Span>,
    lo: int,
)
    requires
        arranged(ts, s),
        well_ended(ts),
        0 <= p < ts.len(),
        values_sourced(values, spans, s),
        spans_between(spans, lo, ts[p].span.start as int),
        lo <= ts[p].span.start,
    ensures
        values_sourced(variants_from(ts, p, values, spans).values, variants_from(ts, p, values, spans).spans, s),
        p <= variants_from(ts, p, values, spans).at < ts.len(),
        spans_between(
            variants_from(ts, p, values, spans).spans,
            lo,
            ts[variants_from(ts, p, values, spans).at].span.start as int,
        ),
        !variants_from(ts, p, values, spans).failed ==> ts[variants_from(ts, p, values, spans).at].kind
            == TokenKind::RightBrace,
    decreases ts.len() - p,
{
    if ts[p].kind == TokenKind::Identifier {
        lemma_not_last(ts, p);
        lemma_in_order(ts, s, p, p + 1);
        let more_values = values.push(ts[p].text);
        let more_spans = spans.push(ts[p].span);
        assert(values_sourced(more_values, more_spans, s)) by {
            assert forall|k: int| 0 <= k < more_spans.len() implies (#[trigger] more_spans[k]).within(
                s.len() as int,
            ) && more_values[k] == more_spans[k].slice(s) by {
                if k < spans.len() {
                    assert(more_spans[k] == spans[k]);
                    assert(more_values[k] == values[k]);
                }
            }
            assert forall|i: int, j: int| 0 <= i < j < more_spans.len() implies (#[trigger] more_spans[i]).end <= (
            #[trigger] more_spans[j]).start by {
                assert(more_spans[i] == spans[i]);
                if j < spans.len() {
                    assert(more_spans[j] == spans[j]);
                }
            }
        }
        assert(spans_between(more_spans, lo, ts[p + 1].span.start as int)) by {
            assert forall|k: int| 0 <= k < more_spans.len() implies lo <= (#[trigger] more_spans[k]).start
                && more_spans[k].end <= ts[p + 1].span.start by {
                if k < spans.len() {
                    assert(more_spans[k] == spans[k]);
                }
            }
        }
        if token_at(ts, p + 1).kind == TokenKind::Comma {
            lemma_not_last(ts, p + 1);
            lemma_in_order(ts, s, p + 1, p + 2);
            assert(spans_between(more_spans, lo, ts[p + 2].span.start as int)) by {
                assert forall|k: int| 0 <= k < more_spans.len() implies lo <= (#[trigger] more_spans[k]).start
                    && more_spans[k].end <= ts[p + 2].span.start by {
                    assert(more_spans[k].end <= ts[p + 1].span.start);
                }
            }
            lemma_variants_sourced(ts, s, p + 2, more_values, more_spans, lo);
        }
    }
}

proof fn lemma_sync_in_stream(ts: Seq<Lexeme>, i: int, in_body: bool)
    requires
        well_ended(ts),
        0 <= i < ts.len(),
    ensures
        i <= sync_from(ts, i, in_body) < ts.len(),
    decreases ts.len() - i,
{
    if !is_sync(ts[i].kind, in_body) {
        lemma_sync_in_stream(ts, i + 1, in_body);
    }
}

proof fn lemma_closing_sourced(ts: Seq<Lexeme>, s: Seq<char>, at: int, failed: bool)
    requires
        arranged(ts, s),
        well_ended(ts),
        0 <= at < ts.len(),
        !failed ==> ts[at].kind == TokenKind::RightBrace,
    ensures
        ts[at].span.start <= close_body(ts, at, failed).body_end,
        close_body(ts, at, failed).body_end <= close_body(ts, at, failed).span_end,
        close_body(ts, at, failed).span_end <= s.len(),
        at <= close_body(ts, at, failed).next < ts.len(),
        close_body(ts, at, failed).span_end <= ts[close_body(ts, at, failed).next].span.start,
        match close_body(ts, at, failed).diagnostic {
            Some(diagnostic) => diagnostic.span.within(s.len() as int),
            None => true,
        },
{
    lemma_token_at(ts, s, at);
    if !failed {
        lemma_not_last(ts, at);
        lemma_in_order(ts, s, at, at + 1);
    } else {
        let stop = sync_from(ts, at, true);
        lemma_sync_in_stream(ts, at, true);
        lemma_token_at(ts, s, stop);
        lemma_in_order(ts, s, at, stop);
        if token_at(ts, stop).kind == TokenKind::RightBrace {
            lemma_not_last(ts, stop);
            lemma_in_order(ts, s, stop, stop + 1);
        }
    }
}

proof fn lemma_rejected_sourced(ts: Seq<Lexeme>, s: Seq<char>, at: int)
    requires
        arranged(ts, s),
        well_ended(ts),
        0 <= at < ts.len(),
    ensures
        rejected(ts, at).node is None,
        rejected(ts, at).diagnostic is Some,
        rejected(ts, at).diagnostic->0.span.within(s.len() as int),
        at <= rejected(ts, at).next < ts.len(),
{
    lemma_token_at(ts, s, at);
    lemma_sync_in_stream(ts, at, false);
}

/// What a declaration gives agrees with the text, begins where its keyword
/// begins and ends before the token at which parsing goes on.
pub open spec fn outcome_sourced(
    ts: Seq<Lexeme>,
    s: Seq<char>,
    p: int,
    node: Option<DeclarationView>,
    diagnostic: Option<SyntaxDiagnostic>,
    next: int,
) -> bool {
    &&& p < next < ts.len()
    &&& match node {
        Some(declaration) => declaration_sourced(declaration, s) && declaration.span().start == ts[p].span.start
            && declaration.span().end <= ts[next].span.start,
        None => true,
    }
    &&& match diagnostic {
        Some(d) => d.span.within(s.len() as int),
        None => true,
    }
}

proof fn lemma_model_sourced(ts: Seq<Lexeme>, s: Seq<char>, p: int)
    requires
        arranged(ts, s),
        well_ended(ts),
        0 <= p < ts.len(),
        ts[p].kind != TokenKind::EndOfFile,
    ensures
        outcome_sourced(ts, s, p, model_at(ts, p).node, model_at(ts, p).diagnostic, model_at(ts, p).next),
{
    lemma_not_last(ts, p);
    lemma_token_at(ts, s, p);
    if token_at(ts, p + 1).kind != TokenKind::Identifier {
        lemma_rejected_sourced(ts, s, p + 1);
    } else {
        lemma_not_last(ts, p + 1);
        if token_at(ts, p + 2).kind != TokenKind::LeftBrace {
            lemma_rejected_sourced(ts, s, p + 2);
        } else {
            lemma_not_last(ts, p + 2);
            lemma_in_order(ts, s, p + 2, p + 3);
            lemma_fields_sourced(ts, s, p + 3, Seq::empty(), Seq::empty(), ts[p + 2].span.end as int);
            let members = fields_from(ts, p + 3, Seq::empty(), Seq::empty());
            let closing = close_body(ts, members.at, members.failed);
            lemma_closing_sourced(ts, s, members.at, members.failed);
            lemma_in_order(ts, s, p, p + 1);
            lemma_in_order(ts, s, p + 1, p + 2);
            lemma_in_order(ts, s, p + 2, members.at);
            assert(fields_between(members.spans, ts[p + 2].span.end as int, closing.body_end as int)) by {
                assert forall|k: int| 0 <= k < members.spans.len() implies ts[p + 2].span.end <= (
                #[trigger] members.spans[k]).name.start && members.spans[k].end <= closing.body_end by {}
            }
        }
    }
}

proof fn lemma_enum_sourced(ts: Seq<Lexeme>, s: Seq<char>, p: int)
    requires
        arranged(ts, s),
        well_ended(ts),
        0 <= p < ts.len(),
        ts[p].kind != TokenKind::EndOfFile,
    ensures
        outcome_sourced(ts, s, p, enum_at(ts, p).node, enum_at(ts, p).diagnostic, enum_at(ts, p).next),
{
    lemma_not_last(ts, p);
    lemma_token_at(ts, s, p);
    if token_at(ts, p + 1).kind != TokenKind::Identifier {
        lemma_rejected_sourced(ts, s, p + 1);
    } else {
        lemma_not_last(ts, p + 1);
        if token_at(ts, p + 2).kind != TokenKind::LeftBrace {
            lemma_rejected_sourced(ts, s, p + 2);
        } else {
            lemma_not_last(ts, p + 2);
            lemma_in_order(ts, s, p + 2, p + 3);
            lemma_variants_sourced(ts, s, p + 3, Seq::empty(), Seq::empty(), ts[p + 2].span.end as int);
            let members = variants_from(ts, p + 3, Seq::empty(), Seq::empty());
            let closing = close_body(ts, members.at, members.failed);
            lemma_closing_sourced(ts, s, members.at, members.failed);
            lemma_in_order(ts, s, p, p + 1);
            lemma_in_order(ts, s, p + 1, p + 2);
            lemma_in_order(ts, s, p + 2, members.at);
            assert(spans_between(members.spans, ts[p + 2].span.end as int, closing.body_end as int)) by {
                assert forall|k: int| 0 <= k < members.spans.len() implies ts[p + 2].span.end <= (
                #[trigger] members.spans[k]).start && members.spans[k].end <= closing.body_end by {}
            }
        }
    }
}

/// The declarations read so far end before offset `limit`.
pub open spec fn ends_before(declarations: Seq<DeclarationView>, limit: int) -> bool {
    forall|i: int| 0 <= i < declarations.len() ==> (#[trigger] declarations[i]).span().end <= limit
}

proof fn lemma_with_node_sourced(
    ts: Seq<Lexeme>,
    s: Seq<char>,
    p: int,
    declarations: Seq<DeclarationView>,
    node: Option<DeclarationView>,
    diagnostics: Seq<SyntaxDiagnostic>,
    diagnostic: Option<SyntaxDiagnostic>,
    next: int,
)
    requires
        arranged(ts, s),
        0 <= p < ts.len(),
        declarations_sourced(declarations, s),
        diagnostics_sourced(diagnostics, s),
        ends_before(declarations, ts[p].span.start as int),
        outcome_sourced(ts, s, p, node, diagnostic, next),
    ensures
        declarations_sourced(with_node(declarations, node), s),
        diagnostics_sourced(with_diagnostic(diagnostics, diagnostic), s),
        ends_before(with_node(declarations, node), ts[next].span.start as int),
{
    lemma_in_order(ts, s, p, next);
    let more = with_node(declarations, node);
    assert forall|i: int| 0 <= i < more.len() implies declaration_sourced(#[trigger] more[i], s) && more[i].span().end
        <= ts[next].span.start by {
        if i < declarations.len() {
            assert(more[i] == declarations[i]);
        }
    }
    assert forall|i: int, j: int| 0 <= i < j < more.len() implies (#[trigger] more[i]).span().end <= (
    #[trigger] more[j]).span().start by {
        assert(more[i] == declarations[i]);
        if j < declarations.len() {
            assert(more[j] == declarations[j]);
        }
    }
    let notes = with_diagnostic(diagnostics, diagnostic);
    assert forall|i: int| 0 <= i < notes.len() implies (#[trigger] notes[i]).span.within(s.len() as int) by {
        if i < diagnostics.len() {
            assert(notes[i] == diagnostics[i]);
        }
    }
}

proof fn lemma_declarations_sourced(
    ts: Seq<Lexeme>,
    s: Seq<char>,
    p: int,
    declarations: Seq<DeclarationView>,
    diagnostics: Seq<SyntaxDiagnostic>,
)
    requires
        arranged(ts, s),
        well_ended(ts),
        0 <= p < ts.len(),
        declarations_sourced(declarations, s),
        diagnostics_sourced(diagnostics, s),
        ends_before(declarations, ts[p].span.start as int),
    ensures
        declarations_sourced(declarations_from(ts, p, declarations, diagnostics).program.declarations, s),
        diagnostics_sourced(declarations_from(ts, p, declarations, diagnostics).diagnostics, s),
    decreases ts.len() - p,
{
    if ts[p].kind == TokenKind::EndOfFile {
    } else if ts[p].kind == TokenKind::Keyword(Keyword::Model) {
        let outcome = model_at(ts, p);
        lemma_model_sourced(ts, s, p);
        lemma_with_node_sourced(ts, s, p, declarations, outcome.node, diagnostics, outcome.diagnostic, outcome.next);
        lemma_declarations_sourced(
            ts,
            s,
            outcome.next,
            with_node(declarations, outcome.node),
            with_diagnostic(diagnostics, outcome.diagnostic),
        );
    } else if ts[p].kind == TokenKind::Keyword(Keyword::Enum) {
        let outcome = enum_at(ts, p);
        lemma_enum_sourced(ts, s, p);
        lemma_with_node_sourced(ts, s, p, declarations, outcome.node, diagnostics, outcome.diagnostic, outcome.next);
        lemma_declarations_sourced(
            ts,
            s,
            outcome.next,
            with_node(declarations, outcome.node),
            with_diagnostic(diagnostics, outcome.diagnostic),
        );
    } else {
        lemma_not_last(ts, p);
        lemma_token_at(ts, s, p);
        let next = sync_from(ts, p + 1, false);
        lemma_sync_in_stream(ts, p + 1, false);
        let stray = Some(SyntaxDiagnostic { kind: crate::syntax::SyntaxErrorKind::UnexpectedToken, span: ts[p].span });
        lemma_with_node_sourced(ts, s, p, declarations, None, diagnostics, stray, next);
        lemma_declarations_sourced(ts, s, next, declarations, with_diagnostic(diagnostics, stray));
    }
}

/// Every span of a parsed program lies in the text that was parsed, every
/// name in it is the text at its span, and its declarations follow one
/// another without overlap. The same holds of the spans of the diagnostics.
pub proof fn lemma_parse_sourced(s: Seq<char>)
    requires
        s.len() <= usize::MAX,
    ensures
        declarations_sourced(parse_of(lex(s)).program.declarations, s),
        diagnostics_sourced(parse_of(lex(s)).diagnostics, s),
{
    lemma_stream_arranged(s);
    lemma_declarations_sourced(stream_of(lex(s)), s, 0, Seq::empty(), Seq::empty());
}

/// The text from offset `at` on, pieced together from the declarations from
/// index `k` on and from what stands between and behind them.
pub open spec fn pieced(s: Seq<char>, declarations: Seq<DeclarationView>, k: int, at: int) -> Seq<char>
    decreases declarations.len() - k,
{
    if k < 0 || k >= declarations.len() {
        s.subrange(at, s.len() as int)
    } else {
        s.subrange(at, declarations[k].span().start as int) + declarations[k].span().slice(s) + pieced(
            s,
            declarations,
            k + 1,
            declarations[k].span().end as int,
        )
    }
}

proof fn lemma_pieced(s: Seq<char>, declarations: Seq<DeclarationView>, k: int, at: int)
    requires
        declarations_sourced(declarations, s),
        0 <= k <= declarations.len(),
        0 <= at <= s.len(),
        k < declarations.len() ==> at <= declarations[k].span().start,
    ensures
        pieced(s, declarations, k, at) == s.subrange(at, s.len() as int),
    decreases declarations.len() - k,
{
    if k < declarations.len() {
        let span = declarations[k].span();
        assert(declaration_sourced(declarations[k], s));
        assert(span.within(s.len() as int));
        if k + 1 < declarations.len() {
            assert(declarations[k].span().end <= declarations[k + 1].span().start);
        }
        lemma_pieced(s, declarations, k + 1, span.end as int);
        assert(s.subrange(at, span.start as int) + span.slice(s) + s.subrange(span.end as int, s.len() as int)
            =~= s.subrange(at, s.len() as int));
    }
}

/// Slicing a text by the spans of its parsed declarations, and by what lies
/// between them, gives back the text.
pub proof fn lemma_round_trip(s: Seq<char>)
    requires
        s.len() <= usize::MAX,
    ensures
        pieced(s, parse_of(lex(s)).program.declarations, 0, 0) == s,
{
    lemma_parse_sourced(s);
    lemma_pieced(s, parse_of(lex(s)).program.declarations, 0, 0);
    assert(s.subrange(0, s.len() as int) =~= s);
}

/// In a declaration that agrees with the text the name stands before the
/// body, and both stand in the declaration.
pub proof fn lemma_declaration_shape(declaration: DeclarationView, s: Seq<char>)
    requires
        declaration_sourced(declaration, s),
    ensures
        declaration.span().start <= declaration.name_span().start,
        declaration.name_span().start <= declaration.name_span().end,
        declaration.name_span().end < declaration.body().start,
        declaration.body().start <= declaration.body().end,
        declaration.body().end <= declaration.span().end,
{
}

/// In a parsed program the bodies lie apart: a position that the body of one
/// declaration holds is held by no other, so that declaration is the one
/// that encloses the position.
pub proof fn lemma_enclosing_is_only(declarations: Seq<DeclarationView>, s: Seq<char>, i: int, position: int)
    requires
        declarations_sourced(declarations, s),
        0 <= i < declarations.len(),
        declarations[i].body().touches(position),
    ensures
        enclosing(declarations, position, 0) == Some(i),
        forall|j: int|
            0 <= j < declarations.len() && j != i ==> !(#[trigger] declarations[j]).body().touches(position),
{
    lemma_declaration_shape(declarations[i], s);
    assert forall|j: int| 0 <= j < declarations.len() && j != i implies !(#[trigger] declarations[j]).body().touches(
        position,
    ) by {
        lemma_declaration_shape(declarations[j], s);
        if j < i {
            assert(declarations[j].span().end <= declarations[i].span().start);
        } else {
            assert(declarations[i].span().end <= declarations[j].span().start);
        }
    }
    lemma_enclosing_first(declarations, position, 0);
}

/// In a parsed model the fields lie apart: a position that the type or the
/// attributes of one field hold is held by no other field.
pub proof fn lemma_field_is_only(node: ModelNodeView, s: Seq<char>, k: int, position: int)
    requires
        model_sourced(node, s),
        0 <= k < node.fields.len(),
        in_type(node.fields[k], position) || in_attributes(node.fields[k], position),
    ensures
        field_around(node.fields, position, 0) == Some(k),
        forall|j: int|
            0 <= j < node.fields.len() && j != k ==> !in_type(#[trigger] node.fields[j], position) && !in_attributes(
                node.fields[j],
                position,
            ),
{
    let spans = node.fields;
    assert(field_sourced(node.model.fields[k], spans[k], s));
    assert forall|j: int| 0 <= j < spans.len() && j != k implies !in_type(#[trigger] spans[j], position)
        && !in_attributes(spans[j], position) by {
        assert(field_sourced(node.model.fields[j], spans[j], s));
        if j < k {
            assert(spans[j].end <= spans[k].name.start);
        } else {
            assert(spans[k].end <= spans[j].name.start);
        }
    }
    lemma_field_around_first(spans, position, 0);
}

} // verus!
