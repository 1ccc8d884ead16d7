use schema_lsp::lexer::tokenize;
use schema_lsp::lexer::Keyword;
use schema_lsp::lexer::Token;
use schema_lsp::lexer::TokenKind;
use schema_lsp::span::Span;

fn kinds(tokens: &Vec<Token>) -> Vec<TokenKind> {
    tokens.iter().map(|t| t.kind).collect()
}

fn significant_kinds(tokens: &Vec<Token>) -> Vec<TokenKind> {
    tokens
        .iter()
        .map(|t| t.kind)
        .filter(|k| *k != TokenKind::Whitespace && *k != TokenKind::Comment)
        .collect()
}

fn assert_covers(text: &str) {
    let tokens = tokenize(text);
    let chars: Vec<char> = text.chars().collect();
    let mut at = 0usize;
    let mut spelled = String::new();
    for t in tokens.iter() {
        assert_eq!(t.span.start, at);
        assert!(t.span.start <= t.span.end);
        let slice: String = chars[t.span.start..t.span.end].iter().collect();
        assert_eq!(t.text, slice);
        spelled.push_str(&t.text);
        at = t.span.end;
    }
    assert_eq!(at, chars.len());
    assert_eq!(spelled, text);
    let last = tokens.last().unwrap();
    assert_eq!(last.kind, TokenKind::EndOfFile);
    assert_eq!(last.span, Span { start: chars.len(), end: chars.len() });
}

#[test]
fn empty_text_gives_only_the_end_token() {
    let tokens = tokenize("");
    assert_eq!(tokens.len(), 1);
    assert_eq!(tokens[0].kind, TokenKind::EndOfFile);
    assert_eq!(tokens[0].span, Span { start: 0, end: 0 });
    assert_eq!(tokens[0].text, "");
}

#[test]
fn tokens_cover_the_text() {
    assert_covers("");
    assert_covers("model User { id: UUID queryable }");
    assert_covers("enum Status { Active, Inactive }\n\nmodel User {\n  status: Status default(Active)\n}\n");
    assert_covers("  // only a comment");
    assert_covers("model ¤ { é: \"unterminated\n }");
    assert_covers("@#$%^&*");
    assert_covers("tags: [String] | optional");
}

#[test]
fn model_declaration_is_split_into_its_tokens() {
    let tokens = tokenize("model User { id: UUID }");
    assert_eq!(
        kinds(&tokens),
        vec![
            TokenKind::Keyword(Keyword::Model),
            TokenKind::Whitespace,
            TokenKind::Identifier,
            TokenKind::Whitespace,
            TokenKind::LeftBrace,
            TokenKind::Whitespace,
            TokenKind::Identifier,
            TokenKind::Colon,
            TokenKind::Whitespace,
            TokenKind::Keyword(Keyword::Uuid),
            TokenKind::Whitespace,
            TokenKind::RightBrace,
            TokenKind::EndOfFile,
        ]
    );
    assert_eq!(tokens[2].text, "User");
    assert_eq!(tokens[2].span, Span { start: 6, end: 10 });
    assert_eq!(tokens[9].text, "UUID");
    assert_eq!(tokens[9].span, Span { start: 17, end: 21 });
    assert_eq!(tokens[12].span, Span { start: 23, end: 23 });
}

#[test]
fn every_keyword_is_recognised() {
    let tokens = tokenize("model enum queryable default optional UUID String DateTime Data Int Float Boolean");
    assert_eq!(
        significant_kinds(&tokens),
        vec![
            TokenKind::Keyword(Keyword::Model),
            TokenKind::Keyword(Keyword::Enum),
            TokenKind::Keyword(Keyword::Queryable),
            TokenKind::Keyword(Keyword::Default),
            TokenKind::Keyword(Keyword::Optional),
            TokenKind::Keyword(Keyword::Uuid),
            TokenKind::Keyword(Keyword::String),
            TokenKind::Keyword(Keyword::DateTime),
            TokenKind::Keyword(Keyword::Data),
            TokenKind::Keyword(Keyword::Int),
            TokenKind::Keyword(Keyword::Float),
            TokenKind::Keyword(Keyword::Boolean),
            TokenKind::EndOfFile,
        ]
    );
}

#[test]
fn keywords_are_case_sensitive_and_whole_words() {
    let tokens = tokenize("Model string models uuid Int2 _x");
    assert_eq!(
        significant_kinds(&tokens),
        vec![
            TokenKind::Identifier,
            TokenKind::Identifier,
            TokenKind::Identifier,
            TokenKind::Identifier,
            TokenKind::Identifier,
            TokenKind::Identifier,
            TokenKind::EndOfFile,
        ]
    );
}

#[test]
fn punctuation_is_one_token_each() {
    let tokens = tokenize("{}()[]:,|");
    assert_eq!(
        kinds(&tokens),
        vec![
            TokenKind::LeftBrace,
            TokenKind::RightBrace,
            TokenKind::LeftParen,
            TokenKind::RightParen,
            TokenKind::LeftBracket,
            TokenKind::RightBracket,
            TokenKind::Colon,
            TokenKind::Comma,
            TokenKind::Pipe,
            TokenKind::EndOfFile,
        ]
    );
}

#[test]
fn unknown_character_becomes_an_error_token_and_scanning_goes_on() {
    let tokens = tokenize("a@b");
    assert_eq!(
        kinds(&tokens),
        vec![TokenKind::Identifier, TokenKind::Error, TokenKind::Identifier, TokenKind::EndOfFile]
    );
    assert_eq!(tokens[1].text, "@");
    assert_eq!(tokens[1].span, Span { start: 1, end: 2 });
    assert_eq!(tokens[2].text, "b");
}

#[test]
fn string_literal_runs_to_its_closing_quote() {
    let tokens = tokenize("default(\"a b\")");
    assert_eq!(
        kinds(&tokens),
        vec![
            TokenKind::Keyword(Keyword::Default),
            TokenKind::LeftParen,
            TokenKind::StringLiteral,
            TokenKind::RightParen,
            TokenKind::EndOfFile,
        ]
    );
    assert_eq!(tokens[2].text, "\"a b\"");
    assert_eq!(tokens[2].span, Span { start: 8, end: 13 });
}

#[test]
fn unterminated_string_is_an_error_of_one_character() {
    let tokens = tokenize("\"abc\nx");
    assert_eq!(
        kinds(&tokens),
        vec![
            TokenKind::Error,
            TokenKind::Identifier,
            TokenKind::Whitespace,
            TokenKind::Identifier,
            TokenKind::EndOfFile,
        ]
    );
    assert_eq!(tokens[0].text, "\"");
    assert_eq!(tokens[1].text, "abc");
}

#[test]
fn comment_runs_to_the_end_of_its_line() {
    let tokens = tokenize("a // b c\nd");
    assert_eq!(
        kinds(&tokens),
        vec![
            TokenKind::Identifier,
            TokenKind::Whitespace,
            TokenKind::Comment,
            TokenKind::Whitespace,
            TokenKind::Identifier,
            TokenKind::EndOfFile,
        ]
    );
    assert_eq!(tokens[2].text, "// b c");
    assert_eq!(tokens[3].text, "\n");
}

#[test]
fn single_slash_is_an_error_token() {
    let tokens = tokenize("/x");
    assert_eq!(kinds(&tokens), vec![TokenKind::Error, TokenKind::Identifier, TokenKind::EndOfFile]);
}

#[test]
fn number_takes_digits_dots_and_word_characters() {
    let tokens = tokenize("3.14 42x");
    assert_eq!(
        kinds(&tokens),
        vec![TokenKind::Number, TokenKind::Whitespace, TokenKind::Number, TokenKind::EndOfFile]
    );
    assert_eq!(tokens[0].text, "3.14");
    assert_eq!(tokens[2].text, "42x");
}

#[test]
fn spans_count_characters_not_bytes() {
    let tokens = tokenize("é x");
    assert_eq!(
        kinds(&tokens),
        vec![TokenKind::Error, TokenKind::Whitespace, TokenKind::Identifier, TokenKind::EndOfFile]
    );
    assert_eq!(tokens[2].span, Span { start: 2, end: 3 });
    assert_eq!(tokens[3].span, Span { start: 3, end: 3 });
}

#[test]
fn tokenize_gives_the_same_tokens_each_time() {
    let text = "model A { x: Int }";
    let a = tokenize(text);
    let b = tokenize(text);
    assert_eq!(a.len(), b.len());
    for i in 0..a.len() {
        assert_eq!(a[i].kind, b[i].kind);
        assert_eq!(a[i].text, b[i].text);
        assert_eq!(a[i].span, b[i].span);
    }
}
