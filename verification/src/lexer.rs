//! Lexical analysis: splits source text into tokens that cover it without gaps.

use vstd::prelude::*;
use vstd::string::*;
use crate::span::Span;
use crate::text::chars_of;
use crate::text::spells;

verus! {

/// The reserved words of the language: declaration openers, attribute names
/// and the names of the built-in data types.
#[derive(Clone, Copy, Debug, PartialEq, Eq, Structural)]
pub enum Keyword {
    Model,
    Enum,
    Queryable,
    Default,
    Optional,
    Uuid,
    String,
    DateTime,
    Data,
    Int,
    Float,
    Boolean,
}

/// The kinds of tokens. Blanks and comments are tokens too, so that the
/// tokens of a text cover it.
#[derive(Clone, Copy, Debug, PartialEq, Eq, Structural)]
pub enum TokenKind {
    Identifier,
    Keyword(Keyword),
    LeftBrace,
    RightBrace,
    LeftParen,
    RightParen,
    LeftBracket,
    RightBracket,
    Colon,
    Comma,
    Pipe,
    StringLiteral,
    Number,
    Whitespace,
    Comment,
    /// A character that starts no token, or a quote that is never closed on its line.
    Error,
    EndOfFile,
}

/// A piece of the source text: what it is, what it spells and where it stands.
#[derive(Debug)]
pub struct Token {
    pub kind: TokenKind,
    pub text: String,
    pub span: Span,
}

/// What a token is to specifications: its kind, its characters and its span.
pub struct Lexeme {
    pub kind: TokenKind,
    pub text: Seq<char>,
    pub span: Span,
}

impl View for Token {
    type V = Lexeme;

    open spec fn view(&self) -> Lexeme {
        Lexeme { kind: self.kind, text: self.text@, span: self.span }
    }
}

/// The tokens as specifications see them, in their order.
pub open spec fn lexemes(tokens: Seq<Token>) -> Seq<Lexeme> {
    Seq::new(tokens.len(), |i: int| tokens[i]@)
}

/// The character classes that make up the runs inside a token.
pub enum CharClass {
    /// Spaces, tabs, carriage returns and line feeds.
    Blank,
    /// Letters, digits and the underscore.
    Word,
    /// What a number may hold after its first digit: word characters and dots.
    Numeric,
    /// Anything up to the end of the line.
    Line,
    /// Anything up to a double quote or the end of the line.
    Quoted,
}

/// A space, a tab, a carriage return or a line feed.
pub open spec fn is_blank(c: char) -> bool {
    c == ' ' || c == '\t' || c == '\r' || c == '\n'
}

/// A letter of the basic alphabet, or the underscore.
pub open spec fn is_letter(c: char) -> bool {
    ('a' <= c && c <= 'z') || ('A' <= c && c <= 'Z') || c == '_'
}

/// A decimal digit.
pub open spec fn is_digit(c: char) -> bool {
    '0' <= c && c <= '9'
}

/// The character belongs to the class.
pub open spec fn in_class(c: char, class: CharClass) -> bool {
    match class {
        CharClass::Blank => is_blank(c),
        CharClass::Word => is_letter(c) || is_digit(c),
        CharClass::Numeric => is_letter(c) || is_digit(c) || c == '.',
        CharClass::Line => c != '\n',
        CharClass::Quoted => c != '"' && c != '\n',
    }
}

/// The end of the longest run of characters of `class` that starts at `from`.
pub open spec fn run_end(s: Seq<char>, from: int, class: CharClass) -> int
    decreases s.len() - from,
{
    if 0 <= from < s.len() && in_class(s[from], class) {
        run_end(s, from + 1, class)
    } else {
        from
    }
}

/// The keyword that `word` spells, if it spells one. Keywords are case-sensitive.
pub open spec fn keyword_of(word: Seq<char>) -> Option<Keyword> {
    if word == "model"@ {
        Some(Keyword::Model)
    } else if word == "enum"@ {
        Some(Keyword::Enum)
    } else if word == "queryable"@ {
        Some(Keyword::Queryable)
    } else if word == "default"@ {
        Some(Keyword::Default)
    } else if word == "optional"@ {
        Some(Keyword::Optional)
    } else if word == "UUID"@ {
        Some(Keyword::Uuid)
    } else if word == "String"@ {
        Some(Keyword::String)
    } else if word == "DateTime"@ {
        Some(Keyword::DateTime)
    } else if word == "Data"@ {
        Some(Keyword::Data)
    } else if word == "Int"@ {
        Some(Keyword::Int)
    } else if word == "Float"@ {
        Some(Keyword::Float)
    } else if word == "Boolean"@ {
        Some(Keyword::Boolean)
    } else {
        None
    }
}

/// The kind of a word: a keyword where it spells one, an identifier otherwise.
pub open spec fn word_kind(word: Seq<char>) -> TokenKind {
    match keyword_of(word) {
        Some(k) => TokenKind::Keyword(k),
        None => TokenKind::Identifier,
    }
}

/// The kind of the one-character token that `c` makes when it opens no longer token.
pub open spec fn symbol_kind(c: char) -> TokenKind {
    if c == '{' {
        TokenKind::LeftBrace
    } else if c == '}' {
        TokenKind::RightBrace
    } else if c == '(' {
        TokenKind::LeftParen
    } else if c == ')' {
        TokenKind::RightParen
    } else if c == '[' {
        TokenKind::LeftBracket
    } else if c == ']' {
        TokenKind::RightBracket
    } else if c == ':' {
        TokenKind::Colon
    } else if c == ',' {
        TokenKind::Comma
    } else if c == '|' {
        TokenKind::Pipe
    } else {
        TokenKind::Error
    }
}

/// The kind and the end of the token that starts at offset `i` of `s`.
///
/// Every token is the longest of its kind: a run of blanks, a `//` comment up
/// to the end of its line, a word, a number, a string closed on its line, or
/// a single character.
pub open spec fn lexeme_at(s: Seq<char>, i: int) -> (TokenKind, int)
    recommends
        0 <= i < s.len(),
{
    let c = s[i];
    if is_blank(c) {
        (TokenKind::Whitespace, run_end(s, i + 1, CharClass::Blank))
    } else if c == '/' && i + 1 < s.len() && s[i + 1] == '/' {
        (TokenKind::Comment, run_end(s, i + 2, CharClass::Line))
    } else if is_letter(c) {
        let e = run_end(s, i + 1, CharClass::Word);
        (word_kind(s.subrange(i, e)), e)
    } else if is_digit(c) {
        (TokenKind::Number, run_end(s, i + 1, CharClass::Numeric))
    } else if c == '"' {
        let j = run_end(s, i + 1, CharClass::Quoted);
        if j < s.len() && s[j] == '"' {
            (TokenKind::StringLiteral, j + 1)
        } else {
            (TokenKind::Error, i + 1)
        }
    } else {
        (symbol_kind(c), i + 1)
    }
}

/// The token `t` is the one that starts at its own start offset in `s`.
pub open spec fn token_fits(s: Seq<char>, t: Token) -> bool {
    &&& t.span.start < t.span.end <= s.len()
    &&& (t.kind, t.span.end as int) == lexeme_at(s, t.span.start as int)
    &&& t.text@ == t.span.slice(s)
}

/// The spans of `tokens` follow one another from offset 0 to offset `len`
/// with no gap and no overlap.
pub open spec fn tiles(tokens: Seq<Token>, len: int) -> bool {
    &&& tokens.len() > 0
    &&& tokens[0].span.start == 0
    &&& tokens.last().span.end == len
    &&& forall|i: int| 0 <= i < tokens.len() ==> (#[trigger] tokens[i]).span.start <= tokens[i].span.end
    &&& forall|i: int, j: int|
        0 <= i && j == i + 1 && j < tokens.len() ==> (#[trigger] tokens[i]).span.end == (
        #[trigger] tokens[j]).span.start
}

/// `tokens` is the token sequence of the text `s`: its tokens tile the text,
/// each but the last is the longest token at its place, and the last is the
/// empty end-of-file token.
pub open spec fn lexed(s: Seq<char>, tokens: Seq<Token>) -> bool {
    &&& tiles(tokens, s.len() as int)
    &&& forall|i: int| 0 <= i < tokens.len() - 1 ==> token_fits(s, #[trigger] tokens[i])
    &&& tokens.last().kind == TokenKind::EndOfFile
    &&& tokens.last().text@ == Seq::<char>::empty()
    &&& tokens.last().span.start == s.len()
}

/// An empty end-of-file token at offset `at`.
pub open spec fn end_marker(at: usize) -> Lexeme {
    Lexeme { kind: TokenKind::EndOfFile, text: Seq::empty(), span: Span { start: at, end: at } }
}

/// The tokens of `s` from offset `i` on, the end-of-file token included.
pub open spec fn lex_from(s: Seq<char>, i: int) -> Seq<Lexeme>
    decreases s.len() - i,
{
    if i < 0 || i >= s.len() {
        seq![end_marker(s.len() as usize)]
    } else {
        let (kind, end) = lexeme_at(s, i);
        proof {
            lemma_lexeme_bounds(s, i);
        }
        seq![Lexeme { kind, text: s.subrange(i, end), span: Span { start: i as usize, end: end as usize } }]
            + lex_from(s, end)
    }
}

/// The token sequence of the text `s`.
pub open spec fn lex(s: Seq<char>) -> Seq<Lexeme> {
    lex_from(s, 0)
}

/// The characters that the tokens spell, one token after the other.
pub open spec fn spelled(tokens: Seq<Lexeme>) -> Seq<char>
    decreases tokens.len(),
{
    if tokens.len() == 0 {
        Seq::empty()
    } else {
        tokens[0].text + spelled(tokens.drop_first())
    }
}

/// The tokens of a text from offset `i` on spell the text from that offset on.
proof fn lemma_spelled_from(s: Seq<char>, i: int)
    requires
        0 <= i <= s.len(),
    ensures
        spelled(lex_from(s, i)) == s.subrange(i, s.len() as int),
    decreases s.len() - i,
{
    let tokens = lex_from(s, i);
    if i < s.len() {
        let (kind, end) = lexeme_at(s, i);
        lemma_lexeme_bounds(s, i);
        lemma_spelled_from(s, end);
        assert(tokens.drop_first() =~= lex_from(s, end));
        assert(s.subrange(i, end) + s.subrange(end, s.len() as int) =~= s.subrange(i, s.len() as int));
    } else {
        assert(tokens.drop_first() =~= Seq::<Lexeme>::empty());
        assert(spelled(tokens.drop_first()) =~= Seq::<char>::empty());
        assert(spelled(tokens) =~= s.subrange(i, s.len() as int));
    }
}

/// The tokens of a text, read one after the other, spell the text: nothing
/// is lost and nothing is added.
pub proof fn lemma_tokens_spell_text(s: Seq<char>)
    ensures
        spelled(lex(s)) == s,
{
    lemma_spelled_from(s, 0);
    assert(s.subrange(0, s.len() as int) =~= s);
}

/// Every token holds at least one character and ends in the text.
pub proof fn lemma_lexeme_bounds(s: Seq<char>, i: int)
    requires
        0 <= i < s.len(),
    ensures
        i < lexeme_at(s, i).1 <= s.len(),
{
    lemma_run_end_bounds(s, i + 1, CharClass::Blank);
    lemma_run_end_bounds(s, i + 1, CharClass::Word);
    lemma_run_end_bounds(s, i + 1, CharClass::Numeric);
    lemma_run_end_bounds(s, i + 1, CharClass::Quoted);
    if i + 1 < s.len() {
        lemma_run_end_bounds(s, i + 2, CharClass::Line);
    }
}

/// A run ends at or behind its start, and in the text.
pub proof fn lemma_run_end_bounds(s: Seq<char>, from: int, class: CharClass)
    requires
        0 <= from <= s.len(),
    ensures
        from <= run_end(s, from, class) <= s.len(),
    decreases s.len() - from,
{
    if from < s.len() && in_class(s[from], class) {
        lemma_run_end_bounds(s, from + 1, class);
    }
}

fn blank(c: char) -> (r: bool)
    ensures
        r == is_blank(c),
{
    c == ' ' || c == '\t' || c == '\r' || c == '\n'
}

fn letter(c: char) -> (r: bool)
    ensures
        r == is_letter(c),
{
    ('a' <= c && c <= 'z') || ('A' <= c && c <= 'Z') || c == '_'
}

fn digit(c: char) -> (r: bool)
    ensures
        r == is_digit(c),
{
    '0' <= c && c <= '9'
}

fn belongs(c: char, class: &CharClass) -> (r: bool)
    ensures
        r == in_class(c, *class),
{
    match class {
        CharClass::Blank => blank(c),
        CharClass::Word => letter(c) || digit(c),
        CharClass::Numeric => letter(c) || digit(c) || c == '.',
        CharClass::Line => c != '\n',
        CharClass::Quoted => c != '"' && c != '\n',
    }
}

/// Finds the end of the longest run of characters of `class` that starts at `from`.
pub fn scan_run(chars: &Vec<char>, from: usize, class: CharClass) -> (end: usize)
    requires
        from <= chars.len(),
    ensures
        end == run_end(chars@, from as int, class),
        from <= end <= chars.len(),
{
    let mut j: usize = from;
    while j < chars.len() && belongs(chars[j], &class)
        invariant
            from <= j <= chars.len(),
            run_end(chars@, j as int, class) == run_end(chars@, from as int, class),
        decreases chars.len() - j,
    {
        j += 1;
    }
    j
}

fn keyword_at(chars: &Vec<char>, start: usize, end: usize) -> (k: Option<Keyword>)
    requires
        start <= end <= chars.len(),
    ensures
        k == keyword_of(chars@.subrange(start as int, end as int)),
{
    if spells(chars, start, end, "model") {
        Some(Keyword::Model)
    } else if spells(chars, start, end, "enum") {
        Some(Keyword::Enum)
    } else if spells(chars, start, end, "queryable") {
        Some(Keyword::Queryable)
    } else if spells(chars, start, end, "default") {
        Some(Keyword::Default)
    } else if spells(chars, start, end, "optional") {
        Some(Keyword::Optional)
    } else if spells(chars, start, end, "UUID") {
        Some(Keyword::Uuid)
    } else if spells(chars, start, end, "String") {
        Some(Keyword::String)
    } else if spells(chars, start, end, "DateTime") {
        Some(Keyword::DateTime)
    } else if spells(chars, start, end, "Data") {
        Some(Keyword::Data)
    } else if spells(chars, start, end, "Int") {
        Some(Keyword::Int)
    } else if spells(chars, start, end, "Float") {
        Some(Keyword::Float)
    } else if spells(chars, start, end, "Boolean") {
        Some(Keyword::Boolean)
    } else {
        None
    }
}

fn symbol(c: char) -> (kind: TokenKind)
    ensures
        kind == symbol_kind(c),
{
    if c == '{' {
        TokenKind::LeftBrace
    } else if c == '}' {
        TokenKind::RightBrace
    } else if c == '(' {
        TokenKind::LeftParen
    } else if c == ')' {
        TokenKind::RightParen
    } else if c == '[' {
        TokenKind::LeftBracket
    } else if c == ']' {
        TokenKind::RightBracket
    } else if c == ':' {
        TokenKind::Colon
    } else if c == ',' {
        TokenKind::Comma
    } else if c == '|' {
        TokenKind::Pipe
    } else {
        TokenKind::Error
    }
}

/// Finds the kind and the end of the token that starts at offset `i`.
fn scan_token(chars: &Vec<char>, i: usize) -> (lexeme: (TokenKind, usize))
    requires
        i < chars.len(),
    ensures
        (lexeme.0, lexeme.1 as int) == lexeme_at(chars@, i as int),
        i < lexeme.1 <= chars.len(),
{
    let c = chars[i];
    if blank(c) {
        (TokenKind::Whitespace, scan_run(chars, i + 1, CharClass::Blank))
    } else if c == '/' && i + 1 < chars.len() && chars[i + 1] == '/' {
        (TokenKind::Comment, scan_run(chars, i + 2, CharClass::Line))
    } else if letter(c) {
        let e = scan_run(chars, i + 1, CharClass::Word);
        match keyword_at(chars, i, e) {
            Some(k) => (TokenKind::Keyword(k), e),
            None => (TokenKind::Identifier, e),
        }
    } else if digit(c) {
        (TokenKind::Number, scan_run(chars, i + 1, CharClass::Numeric))
    } else if c == '"' {
        let j = scan_run(chars, i + 1, CharClass::Quoted);
        if j < chars.len() && chars[j] == '"' {
            (TokenKind::StringLiteral, j + 1)
        } else {
            (TokenKind::Error, i + 1)
        }
    } else {
        (symbol(c), i + 1)
    }
}

/// Splits `text` into its tokens.
///
/// Never fails: a character that starts no token becomes an `Error` token of
/// its own and scanning goes on behind it. Blanks and comments are tokens too,
/// so the spans of the result cover the text from its first character to its
/// last, and the result ends with the empty `EndOfFile` token.
pub fn tokenize(text: &str) -> (tokens: Vec<Token>)
    ensures
        lexemes(tokens@) == lex(text@),
        lexed(text@, tokens@),
        tiles(tokens@, text@.len() as int),
{
    let chars = chars_of(text);
    let n = chars.len();
    let mut tokens: Vec<Token> = Vec::new();
    let mut pos: usize = 0;
    assert(lexemes(tokens@) + lex_from(text@, 0) =~= lex(text@));
    while pos < n
        invariant
            pos <= n,
            n == chars.len(),
            chars@ == text@,
            pos == 0 <==> tokens.len() == 0,
            tokens.len() > 0 ==> tokens[0].span.start == 0 && tokens@.last().span.end == pos,
            forall|i: int| 0 <= i < tokens.len() ==> token_fits(text@, #[trigger] tokens[i]),
            lexemes(tokens@) + lex_from(text@, pos as int) == lex(text@),
            forall|i: int, j: int|
                0 <= i && j == i + 1 && j < tokens.len() ==> (#[trigger] tokens[i]).span.end == (
                #[trigger] tokens[j]).span.start,
        decreases n - pos,
    {
        let (kind, end) = scan_token(&chars, pos);
        let piece = text.substring_char(pos, end);
        let token = Token { kind, text: String::from_str(piece), span: Span { start: pos, end } };
        let ghost before = lexemes(tokens@);
        tokens.push(token);
        proof {
            assert(lexemes(tokens@) =~= before.push(token@));
            assert(before.push(token@) + lex_from(text@, end as int) =~= before + lex_from(text@, pos as int));
        }
        pos = end;
    }
    let ghost before = lexemes(tokens@);
    tokens.push(Token { kind: TokenKind::EndOfFile, text: String::new(), span: Span { start: n, end: n } });
    assert(lexemes(tokens@) =~= before + lex_from(text@, n as int));
    tokens
}

} // verus!
