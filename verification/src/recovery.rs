//! Recovery: a fault in one declaration costs no other declaration.
//!
//! Whatever stands before it, a `model` or `enum` keyword is never skipped:
//! reading a declaration, and recovering from a fault in it, stops at the
//! latest where the next declaration opens.

use vstd::prelude::*;
use crate::ast::AttributeView;
use crate::ast::FieldView;
use crate::grammar::attributes_from;
use crate::grammar::close_body;
use crate::grammar::declarations_from;
use crate::grammar::enum_at;
use crate::grammar::field_at;
use crate::grammar::FieldOutcome;
use crate::grammar::fields_from;
use crate::grammar::is_literal;
use crate::grammar::is_sync;
use crate::grammar::lemma_declaration_bounds;
use crate::grammar::lemma_sync_bounds;
use crate::grammar::model_at;
use crate::grammar::parse_of;
use crate::grammar::significant;
use crate::grammar::stream_of;
use crate::grammar::sync_from;
use crate::grammar::token_at;
use crate::grammar::type_at;
use crate::grammar::TypeOutcome;
use crate::grammar::variants_from;
use crate::grammar::with_diagnostic;
use crate::grammar::with_node;
use crate::lexer::Keyword;
use crate::lexer::lemma_lexeme_bounds;
use crate::lexer::lex;
use crate::lexer::lex_from;
use crate::lexer::Lexeme;
use crate::lexer::lexeme_at;
use crate::lexer::TokenKind;
use crate::span::Span;
use crate::syntax::DeclarationView;
use crate::syntax::FieldSpansView;
use crate::syntax::SyntaxDiagnostic;
use crate::syntax::SyntaxErrorKind;

verus! {

/// The keyword opens a declaration.
pub open spec fn opens_declaration(kind: TokenKind) -> bool {
    kind == TokenKind::Keyword(Keyword::Model) || kind == TokenKind::Keyword(Keyword::Enum)
}

/// What the declaration gives whose keyword stands at index `q`.
pub open spec fn declared_at(ts: Seq<Lexeme>, q: int) -> Option<DeclarationView> {
    if ts[q].kind == TokenKind::Keyword(Keyword::Model) {
        model_at(ts, q).node
    } else {
        enum_at(ts, q).node
    }
}

proof fn lemma_sync_stops(ts: Seq<Lexeme>, i: int, in_body: bool, q: int)
    requires
        0 <= i <= q < ts.len(),
        opens_declaration(ts[q].kind),
    ensures
        i <= sync_from(ts, i, in_body) <= q,
    decreases q - i,
{
    if !is_sync(ts[i].kind, in_body) {
        lemma_sync_stops(ts, i + 1, in_body, q);
    }
}

proof fn lemma_attributes_stop(
    ts: Seq<Lexeme>,
    p: int,
    attributes: Seq<AttributeView>,
    spans: Seq<Span>,
    q: int,
)
    requires
        0 <= p <= q < ts.len(),
        opens_declaration(ts[q].kind),
    ensures
        attributes_from(ts, p, attributes, spans).next <= q,
    decreases q - p,
{
    match ts[p].kind {
        TokenKind::Keyword(Keyword::Queryable) => {
            lemma_attributes_stop(ts, p + 1, attributes.push(AttributeView::Queryable), spans.push(ts[p].span), q);
        },
        TokenKind::Keyword(Keyword::Optional) => {
            lemma_attributes_stop(ts, p + 1, attributes.push(AttributeView::Optional), spans.push(ts[p].span), q);
        },
        TokenKind::Pipe => {
            lemma_attributes_stop(ts, p + 1, attributes, spans, q);
        },
        TokenKind::Keyword(Keyword::Default) => {
            if token_at(ts, p + 1).kind == TokenKind::LeftParen && is_literal(token_at(ts, p + 2).kind)
                && token_at(ts, p + 3).kind == TokenKind::RightParen {
                lemma_attributes_stop(
                    ts,
                    p + 4,
                    attributes.push(AttributeView::Default(token_at(ts, p + 2).text)),
                    spans.push(Span { start: ts[p].span.start, end: token_at(ts, p + 3).span.end }),
                    q,
                );
            }
        },
        _ => {},
    }
}

proof fn lemma_field_stops(ts: Seq<Lexeme>, p: int, q: int)
    requires
        0 <= p <= q < ts.len(),
        opens_declaration(ts[q].kind),
        ts[p].kind == TokenKind::Identifier,
    ensures
        match field_at(ts, p) {
            FieldOutcome::Parsed { next, .. } => p < next <= q,
            FieldOutcome::Failed { at, .. } => p < at <= q,
        },
{
    if token_at(ts, p + 1).kind == TokenKind::Colon {
        match type_at(ts, p + 2) {
            TypeOutcome::Parsed { next, .. } => {
                lemma_attributes_stop(ts, next, Seq::empty(), Seq::empty(), q);
                crate::grammar::lemma_attributes_bounds(ts, next, Seq::empty(), Seq::empty());
            },
            TypeOutcome::Failed { .. } => {},
        }
    }
}

proof fn lemma_fields_stop(ts: Seq<Lexeme>, p: int, fields: Seq<FieldView>, spans: Seq<FieldSpansView>, q: int)
    requires
        0 <= p <= q < ts.len(),
        opens_declaration(ts[q].kind),
    ensures
        p <= fields_from(ts, p, fields, spans).at <= q,
        !fields_from(ts, p, fields, spans).failed ==> ts[fields_from(ts, p, fields, spans).at].kind
            == TokenKind::RightBrace,
    decreases q - p,
{
    if ts[p].kind == TokenKind::Identifier {
        lemma_field_stops(ts, p, q);
        match field_at(ts, p) {
            FieldOutcome::Parsed { field, spans: places, next, failed } => {
                if !failed {
                    lemma_fields_stop(ts, next, fields.push(field), spans.push(places), q);
                }
            },
            FieldOutcome::Failed { .. } => {},
        }
    }
}

proof fn lemma_variants_stop(ts: Seq<Lexeme>, p: int, values: Seq<Seq<char>>, spans: Seq<Span>, q: int)
    requires
        0 <= p <= q < ts.len(),
        opens_declaration(ts[q].kind),
    ensures
        p <= variants_from(ts, p, values, spans).at <= q,
        !variants_from(ts, p, values, spans).failed ==> ts[variants_from(ts, p, values, spans).at].kind
            == TokenKind::RightBrace,
    decreases q - p,
{
    if ts[p].kind == TokenKind::Identifier {
        if token_at(ts, p + 1).kind == TokenKind::Comma {
            lemma_variants_stop(ts, p + 2, values.push(ts[p].text), spans.push(ts[p].span), q);
        }
    }
}

proof fn lemma_closing_stops(ts: Seq<Lexeme>, at: int, failed: bool, q: int)
    requires
        0 <= at <= q < ts.len(),
        opens_declaration(ts[q].kind),
        !failed ==> ts[at].kind == TokenKind::RightBrace,
    ensures
        at <= close_body(ts, at, failed).next <= q,
{
    lemma_sync_stops(ts, at, true, q);
}

/// Reading a declaration stops at the latest where the next declaration
/// opens: no `model` or `enum` keyword behind its own is passed over.
pub proof fn lemma_declaration_stops(ts: Seq<Lexeme>, p: int, q: int)
    requires
        0 <= p < q < ts.len(),
        opens_declaration(ts[q].kind),
    ensures
        p < model_at(ts, p).next <= q,
        p < enum_at(ts, p).next <= q,
{
    if token_at(ts, p + 1).kind != TokenKind::Identifier {
        lemma_sync_stops(ts, p + 1, false, q);
    } else if token_at(ts, p + 2).kind != TokenKind::LeftBrace {
        lemma_sync_stops(ts, p + 2, false, q);
    } else {
        let fields = fields_from(ts, p + 3, Seq::empty(), Seq::empty());
        lemma_fields_stop(ts, p + 3, Seq::empty(), Seq::empty(), q);
        lemma_closing_stops(ts, fields.at, fields.failed, q);
        let variants = variants_from(ts, p + 3, Seq::empty(), Seq::empty());
        lemma_variants_stop(ts, p + 3, Seq::empty(), Seq::empty(), q);
        lemma_closing_stops(ts, variants.at, variants.failed, q);
    }
}

/// What was read before stays: the declarations read so far are the first
/// declarations of the program.
pub proof fn lemma_read_stays(
    ts: Seq<Lexeme>,
    p: int,
    declarations: Seq<DeclarationView>,
    diagnostics: Seq<SyntaxDiagnostic>,
)
    requires
        0 <= p,
    ensures
        declarations_from(ts, p, declarations, diagnostics).program.declarations.len() >= declarations.len(),
        declarations_from(ts, p, declarations, diagnostics).program.declarations.take(declarations.len() as int)
            == declarations,
    decreases ts.len() - p,
{
    let all = declarations_from(ts, p, declarations, diagnostics).program.declarations;
    if p < ts.len() && ts[p].kind != TokenKind::EndOfFile {
        if opens_declaration(ts[p].kind) {
            lemma_declaration_bounds(ts, p);
            let outcome = if ts[p].kind == TokenKind::Keyword(Keyword::Model) {
                model_at(ts, p)
            } else {
                enum_at(ts, p)
            };
            let more = with_node(declarations, outcome.node);
            lemma_read_stays(ts, outcome.next, more, with_diagnostic(diagnostics, outcome.diagnostic));
            assert(more.take(declarations.len() as int) =~= declarations);
            assert(all.take(more.len() as int).take(declarations.len() as int) =~= all.take(
                declarations.len() as int,
            ));
        } else {
            lemma_sync_bounds(ts, p + 1, false);
            lemma_read_stays(
                ts,
                sync_from(ts, p + 1, false),
                declarations,
                diagnostics.push(SyntaxDiagnostic { kind: SyntaxErrorKind::UnexpectedToken, span: ts[p].span }),
            );
        }
    } else {
        assert(all.take(declarations.len() as int) =~= declarations);
    }
}

/// No declaration is swallowed: where a `model` or `enum` keyword stands at
/// index `q` and the declaration behind it has a complete head, that
/// declaration is part of the program, whatever faults stand before it.
pub proof fn lemma_declaration_found(
    ts: Seq<Lexeme>,
    p: int,
    q: int,
    declarations: Seq<DeclarationView>,
    diagnostics: Seq<SyntaxDiagnostic>,
)
    requires
        0 <= p <= q < ts.len(),
        opens_declaration(ts[q].kind),
        forall|k: int| p <= k < q ==> (#[trigger] ts[k]).kind != TokenKind::EndOfFile,
        declared_at(ts, q) is Some,
    ensures
        declarations_from(ts, p, declarations, diagnostics).program.declarations.contains(declared_at(ts, q)->0),
    decreases q - p,
{
    let found = declared_at(ts, q)->0;
    if p == q {
        lemma_declaration_bounds(ts, p);
        let outcome = if ts[p].kind == TokenKind::Keyword(Keyword::Model) {
            model_at(ts, p)
        } else {
            enum_at(ts, p)
        };
        let more = with_node(declarations, outcome.node);
        lemma_read_stays(ts, outcome.next, more, with_diagnostic(diagnostics, outcome.diagnostic));
        let all = declarations_from(ts, p, declarations, diagnostics).program.declarations;
        assert(more[declarations.len() as int] == found);
        assert(all.take(more.len() as int)[declarations.len() as int] == all[declarations.len() as int]);
    } else {
        assert(ts[p].kind != TokenKind::EndOfFile);
        if ts[p].kind == TokenKind::Keyword(Keyword::Model) {
            lemma_declaration_stops(ts, p, q);
            let outcome = model_at(ts, p);
            lemma_declaration_found(
                ts,
                outcome.next,
                q,
                with_node(declarations, outcome.node),
                with_diagnostic(diagnostics, outcome.diagnostic),
            );
        } else if ts[p].kind == TokenKind::Keyword(Keyword::Enum) {
            lemma_declaration_stops(ts, p, q);
            let outcome = enum_at(ts, p);
            lemma_declaration_found(
                ts,
                outcome.next,
                q,
                with_node(declarations, outcome.node),
                with_diagnostic(diagnostics, outcome.diagnostic),
            );
        } else {
            lemma_sync_stops(ts, p + 1, false, q);
            lemma_declaration_found(
                ts,
                sync_from(ts, p + 1, false),
                q,
                declarations,
                diagnostics.push(SyntaxDiagnostic { kind: SyntaxErrorKind::UnexpectedToken, span: ts[p].span }),
            );
        }
    }
}

/// No token of a text but the last marks the end.
proof fn lemma_lex_ends_once(s: Seq<char>, i: int)
    requires
        0 <= i <= s.len(),
    ensures
        lex_from(s, i).len() >= 1,
        lex_from(s, i).last().kind == TokenKind::EndOfFile,
        forall|k: int| 0 <= k < lex_from(s, i).len() - 1 ==> (#[trigger] lex_from(s, i)[k]).kind != TokenKind::EndOfFile,
    decreases s.len() - i,
{
    let ls = lex_from(s, i);
    if i < s.len() {
        let (kind, end) = lexeme_at(s, i);
        lemma_lexeme_bounds(s, i);
        lemma_lex_ends_once(s, end);
        let tail = lex_from(s, end);
        assert forall|k: int| 0 <= k < ls.len() - 1 implies (#[trigger] ls[k]).kind != TokenKind::EndOfFile by {
            if k > 0 {
                assert(ls[k] == tail[k - 1]);
            }
        }
        assert(ls.last() == tail.last());
    }
}

/// Where no token marks the end, none of those that the grammar reads does.
proof fn lemma_significant_ends_not(ts: Seq<Lexeme>)
    requires
        forall|k: int| 0 <= k < ts.len() ==> (#[trigger] ts[k]).kind != TokenKind::EndOfFile,
    ensures
        forall|k: int|
            0 <= k < significant(ts).len() ==> (#[trigger] significant(ts)[k]).kind != TokenKind::EndOfFile,
    decreases ts.len(),
{
    if ts.len() > 0 {
        let rest = ts.drop_last();
        assert forall|k: int| 0 <= k < rest.len() implies (#[trigger] rest[k]).kind != TokenKind::EndOfFile by {
            assert(rest[k] == ts[k]);
        }
        lemma_significant_ends_not(rest);
        let kept = significant(rest);
        let all = significant(ts);
        assert(ts.last() == ts[ts.len() - 1]);
        assert forall|k: int| 0 <= k < all.len() implies (#[trigger] all[k]).kind != TokenKind::EndOfFile by {
            if k < kept.len() {
                assert(all[k] == kept[k]);
            }
        }
    }
}

/// No declaration of a text is swallowed: every `model` or `enum` keyword of
/// the text opens a declaration, and where the head of that declaration is
/// complete, the declaration is part of the program, whatever faults the
/// text has before it.
pub proof fn lemma_no_declaration_swallowed(s: Seq<char>, q: int)
    requires
        0 <= q < stream_of(lex(s)).len(),
        opens_declaration(stream_of(lex(s))[q].kind),
        declared_at(stream_of(lex(s)), q) is Some,
    ensures
        parse_of(lex(s)).program.declarations.contains(declared_at(stream_of(lex(s)), q)->0),
{
    let ls = lex(s);
    let ts = stream_of(ls);
    lemma_lex_ends_once(s, 0);
    let rest = ls.drop_last();
    assert forall|k: int| 0 <= k < rest.len() implies (#[trigger] rest[k]).kind != TokenKind::EndOfFile by {
        assert(rest[k] == ls[k]);
    }
    lemma_significant_ends_not(rest);
    let kept = significant(rest);
    assert(significant(ls) == kept.push(ls.last()));
    assert forall|k: int| 0 <= k < q implies (#[trigger] ts[k]).kind != TokenKind::EndOfFile by {
        if k < kept.len() {
            assert(ts[k] == kept[k]);
        }
    }
    lemma_declaration_found(ts, 0, q, Seq::empty(), Seq::empty());
}

} // verus!
