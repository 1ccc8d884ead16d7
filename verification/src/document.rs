//! Open documents and their analysis.
//!
//! A document is analysed as a whole whenever its text changes: the tokens,
//! the program, the symbol table and the diagnostics of a snapshot all come
//! from one text, and a snapshot is replaced, never patched.

use vstd::prelude::*;
use vstd::string::*;
use crate::checks::attribute_repeats;
use crate::checks::check_attributes;
use crate::completion::complete;
use crate::completion::CompletionItem;
use crate::completion::completions;
use crate::completion::declaration_items;
use crate::completion::items_view;
use crate::grammar::parse_of;
use crate::hover::hover;
use crate::hover::hover_at;
use crate::hover::HoverInfo;
use crate::hover::HoverInfoView;
use crate::hover::info_view;
use crate::hover::lemma_nothing_outside_bodies;
use crate::lexer::CharClass;
use crate::lexer::lemma_run_end_bounds;
use crate::lexer::lex;
use crate::lexer::run_end;
use crate::lexer::scan_run;
use crate::parser::parse_text;
use crate::provenance::declarations_sourced;
use crate::provenance::diagnostics_sourced;
use crate::provenance::lemma_parse_sourced;
use crate::provenance::lemma_round_trip;
use crate::provenance::pieced;
use crate::resolve::context_at;
use crate::resolve::lemma_top_level_outside_bodies;
use crate::resolve::resolve;
use crate::resolve::SyntaxContext;
use crate::symbols::collisions_of;
use crate::symbols::entries_map;
use crate::symbols::EntryView;
use crate::symbols::SemanticDiagnostic;
use crate::symbols::sorted;
use crate::symbols::symbols_of;
use crate::symbols::SymbolTable;
use crate::syntax::Program;
use crate::syntax::ProgramView;
use crate::syntax::SyntaxDiagnostic;
use crate::text::chars_of;

verus! {

/// A cursor position: a line and a column in it, both counted from zero, the
/// column in characters.
#[derive(Clone, Copy, Debug, PartialEq, Eq, Structural)]
pub struct Position {
    pub line: usize,
    pub column: usize,
}

/// The offset at which the line begins that lies `line` lines behind the one
/// that offset `from` begins, if the text has that many lines.
pub open spec fn line_start(s: Seq<char>, from: int, line: int) -> Option<int>
    decreases s.len() - from,
{
    if line <= 0 {
        Some(from)
    } else if from < 0 || from >= s.len() {
        None
    } else if s[from] == '\n' {
        line_start(s, from + 1, line - 1)
    } else {
        line_start(s, from + 1, line)
    }
}

/// The offset of a position in the text `s`. A column behind the end of its
/// line stands for the end of the line; a line that the text does not have
/// has no offset.
pub open spec fn offset_of(s: Seq<char>, position: Position) -> Option<int> {
    match line_start(s, 0, position.line as int) {
        None => None,
        Some(start) => {
            let end = run_end(s, start, CharClass::Line);
            if start + position.column <= end {
                Some(start + position.column)
            } else {
                Some(end)
            }
        },
    }
}

/// Finds the offset of `position` in the text `chars`.
pub fn locate(chars: &Vec<char>, position: Position) -> (offset: Option<usize>)
    ensures
        match offset {
            Some(o) => offset_of(chars@, position) == Some(o as int) && o <= chars.len(),
            None => offset_of(chars@, position) is None,
        },
{
    let mut from: usize = 0;
    let mut line: usize = position.line;
    while line > 0
        invariant
            from <= chars.len(),
            line_start(chars@, from as int, line as int) == line_start(chars@, 0, position.line as int),
        decreases chars.len() - from,
    {
        if from >= chars.len() {
            return None;
        }
        if chars[from] == '\n' {
            line -= 1;
        }
        from += 1;
    }
    let end = scan_run(chars, from, CharClass::Line);
    if position.column <= end - from {
        Some(from + position.column)
    } else {
        Some(end)
    }
}

/// The number of line feeds among the first `upto` characters of `s`.
pub open spec fn line_feeds(s: Seq<char>, upto: int) -> int
    decreases upto,
{
    if upto <= 0 {
        0
    } else if s[upto - 1] == '\n' {
        line_feeds(s, upto - 1) + 1
    } else {
        line_feeds(s, upto - 1)
    }
}

/// The offset at which the line begins that holds offset `upto`.
pub open spec fn line_begin(s: Seq<char>, upto: int) -> int
    decreases upto,
{
    if upto <= 0 {
        0
    } else if s[upto - 1] == '\n' {
        upto
    } else {
        line_begin(s, upto - 1)
    }
}

/// The offset, or the end of the text where the offset lies behind it.
pub open spec fn clamped(s: Seq<char>, offset: int) -> int {
    if offset <= s.len() {
        offset
    } else {
        s.len() as int
    }
}

/// The line of an offset in the text `s`, counted from zero.
pub open spec fn line_of(s: Seq<char>, offset: int) -> int {
    line_feeds(s, clamped(s, offset))
}

/// The column of an offset in the text `s`: its distance from the begin of its line.
pub open spec fn column_of(s: Seq<char>, offset: int) -> int {
    clamped(s, offset) - line_begin(s, clamped(s, offset))
}

proof fn lemma_line_bounds(s: Seq<char>, upto: int)
    requires
        0 <= upto <= s.len(),
    ensures
        0 <= line_feeds(s, upto) <= upto,
        0 <= line_begin(s, upto) <= upto,
    decreases upto,
{
    if upto > 0 {
        lemma_line_bounds(s, upto - 1);
    }
}

/// Finds the line and the column of `offset` in the text `chars`. An offset
/// behind the end of the text stands for the end.
pub fn position_of(chars: &Vec<char>, offset: usize) -> (position: Position)
    ensures
        position.line == line_of(chars@, offset as int),
        position.column == column_of(chars@, offset as int),
{
    let upto = if offset <= chars.len() {
        offset
    } else {
        chars.len()
    };
    let mut line: usize = 0;
    let mut begin: usize = 0;
    let mut i: usize = 0;
    while i < upto
        invariant
            i <= upto <= chars.len(),
            line == line_feeds(chars@, i as int),
            begin == line_begin(chars@, i as int),
            line <= i,
            begin <= i,
        decreases upto - i,
    {
        if chars[i] == '\n' {
            line += 1;
            begin = i + 1;
        }
        i += 1;
    }
    Position { line, column: upto - begin }
}

/// Between the begin of its line and an offset there is no line feed.
proof fn lemma_line_unbroken(s: Seq<char>, upto: int, j: int)
    requires
        0 <= upto <= s.len(),
        line_begin(s, upto) <= j < upto,
    ensures
        s[j] != '\n',
    decreases upto,
{
    if upto > 0 && s[upto - 1] != '\n' && j < upto - 1 {
        lemma_line_unbroken(s, upto - 1, j);
    }
}

/// A run without line feeds reaches as far as there is no line feed.
proof fn lemma_run_reaches(s: Seq<char>, from: int, upto: int)
    requires
        0 <= from <= upto <= s.len(),
        forall|j: int| from <= j < upto ==> s[j] != '\n',
    ensures
        upto <= run_end(s, from, CharClass::Line),
    decreases upto - from,
{
    if from < upto {
        assert(s[from] != '\n');
        lemma_run_reaches(s, from + 1, upto);
    } else {
        lemma_run_end_bounds(s, from, CharClass::Line);
    }
}

/// From an offset `i` on, the line that lies as many lines ahead as there
/// are line feeds between `i` and `upto` begins where the line of `upto` begins.
proof fn lemma_line_start_found(s: Seq<char>, i: int, upto: int)
    requires
        0 <= i <= upto <= s.len(),
        line_feeds(s, upto) > line_feeds(s, i) || line_begin(s, upto) == i,
    ensures
        line_feeds(s, upto) >= line_feeds(s, i),
        line_start(s, i, line_feeds(s, upto) - line_feeds(s, i)) == Some(line_begin(s, upto)),
    decreases upto - i,
{
    lemma_feeds_rise(s, i, upto);
    if line_feeds(s, upto) > line_feeds(s, i) {
        assert(i < upto);
        if s[i] == '\n' {
            if line_feeds(s, upto) == line_feeds(s, i + 1) {
                lemma_begin_kept(s, i + 1, upto);
            }
        }
        lemma_line_start_found(s, i + 1, upto);
    }
}

/// The number of line feeds does not fall as the offset rises.
proof fn lemma_feeds_rise(s: Seq<char>, i: int, upto: int)
    requires
        0 <= i <= upto <= s.len(),
    ensures
        line_feeds(s, i) <= line_feeds(s, upto),
    decreases upto - i,
{
    if i < upto {
        lemma_feeds_rise(s, i, upto - 1);
    }
}

/// Where no line feed lies between two offsets, both are on one line.
proof fn lemma_begin_kept(s: Seq<char>, i: int, upto: int)
    requires
        0 <= i <= upto <= s.len(),
        line_feeds(s, i) == line_feeds(s, upto),
    ensures
        line_begin(s, upto) == line_begin(s, i),
    decreases upto - i,
{
    if i < upto {
        lemma_feeds_rise(s, i, upto - 1);
        lemma_begin_kept(s, i, upto - 1);
    }
}

/// Line and column name their offset: the position of an offset in a text
/// is a position whose offset is that offset.
pub proof fn lemma_position_names_offset(s: Seq<char>, offset: int)
    requires
        0 <= offset <= s.len() <= usize::MAX,
    ensures
        offset_of(
            s,
            Position { line: line_of(s, offset) as usize, column: column_of(s, offset) as usize },
        ) == Some(offset),
{
    lemma_line_bounds(s, offset);
    let begin = line_begin(s, offset);
    if line_feeds(s, offset) == 0 {
        lemma_begin_kept(s, 0, offset);
    }
    lemma_line_start_found(s, 0, offset);
    assert forall|j: int| begin <= j < offset implies s[j] != '\n' by {
        lemma_line_unbroken(s, offset, j);
    }
    lemma_run_reaches(s, begin, offset);
}

/// The revision that follows `revision`.
pub open spec fn next_revision(revision: u64) -> u64 {
    if revision < u64::MAX {
        (revision + 1) as u64
    } else {
        revision
    }
}

/// What a snapshot is to specifications.
pub struct DocumentView {
    pub uri: Seq<char>,
    pub text: Seq<char>,
    pub revision: u64,
    pub program: ProgramView,
    pub syntax_diagnostics: Seq<SyntaxDiagnostic>,
    /// The symbol table as a map from names.
    pub symbols: Map<Seq<char>, EntryView>,
    /// The entries of the symbol table in alphabetical order.
    pub listing: Seq<EntryView>,
    /// The collisions of names, then the repeated attributes.
    pub semantic_diagnostics: Seq<SemanticDiagnostic>,
}

impl DocumentView {
    /// Every part of the snapshot is what the analysis makes of its text.
    pub open spec fn coherent(self) -> bool {
        &&& self.program == parse_of(lex(self.text)).program
        &&& self.syntax_diagnostics == parse_of(lex(self.text)).diagnostics
        &&& self.symbols == symbols_of(self.program.declarations)
        &&& self.semantic_diagnostics == collisions_of(self.program.declarations) + attribute_repeats(
            self.program.declarations,
        )
        &&& sorted(self.listing)
        &&& entries_map(self.listing) == self.symbols
    }

    /// The snapshot is the analysis of `text`, under the given name and revision.
    pub open spec fn is_snapshot_of(self, uri: Seq<char>, text: Seq<char>, revision: u64) -> bool {
        self.coherent() && self.uri == uri && self.text == text && self.revision == revision
    }

    /// The program of a snapshot comes from its text: every span of it lies
    /// in the text, every name in it is the text at its span, and slicing
    /// the text by the declarations and by what lies between them gives back
    /// the text.
    pub proof fn lemma_sourced(self)
        requires
            self.coherent(),
            self.text.len() <= usize::MAX,
        ensures
            declarations_sourced(self.program.declarations, self.text),
            diagnostics_sourced(self.syntax_diagnostics, self.text),
            pieced(self.text, self.program.declarations, 0, 0) == self.text,
    {
        lemma_parse_sourced(self.text);
        lemma_round_trip(self.text);
    }

    /// Outside every body, and on a line that the text does not have, there
    /// is nothing to hover on and the position is at top level.
    pub proof fn lemma_outside_bodies(self, position: Position)
        requires
            match offset_of(self.text, position) {
                Some(offset) => forall|i: int|
                    0 <= i < self.program.declarations.len() ==> !(#[trigger] self.program.declarations[i]).body().touches(
                        offset,
                    ),
                None => true,
            },
        ensures
            self.hover(position) is None,
            self.context(position) == SyntaxContext::TopLevel,
            completions(self.listing, self.context(position)) == declaration_items(),
    {
        match offset_of(self.text, position) {
            Some(offset) => {
                lemma_nothing_outside_bodies(self.program, self.symbols, offset);
                lemma_top_level_outside_bodies(self.program, offset);
            },
            None => {},
        }
    }

    /// What is expected at a position of the document: the context at its
    /// offset, and top level where the text has no such line.
    pub open spec fn context(self, position: Position) -> SyntaxContext {
        match offset_of(self.text, position) {
            Some(offset) => context_at(self.program, offset),
            None => SyntaxContext::TopLevel,
        }
    }

    /// What hovering shows at a position of the document.
    pub open spec fn hover(self, position: Position) -> Option<HoverInfoView> {
        match offset_of(self.text, position) {
            Some(offset) => hover_at(self.program, self.symbols, offset),
            None => None,
        }
    }
}

/// One snapshot of an open document.
#[derive(Debug)]
pub struct Document {
    uri: String,
    text: String,
    revision: u64,
    program: Program,
    syntax_diagnostics: Vec<SyntaxDiagnostic>,
    symbols: SymbolTable,
    semantic_diagnostics: Vec<SemanticDiagnostic>,
}

impl View for Document {
    type V = DocumentView;

    closed spec fn view(&self) -> DocumentView {
        DocumentView {
            uri: self.uri@,
            text: self.text@,
            revision: self.revision,
            program: self.program@,
            syntax_diagnostics: self.syntax_diagnostics@,
            symbols: self.symbols@,
            listing: self.symbols.listing(),
            semantic_diagnostics: self.semantic_diagnostics@,
        }
    }
}

impl Document {
    #[verifier::type_invariant]
    closed spec fn inv(&self) -> bool {
        self@.coherent()
    }

    /// Analyses `text` as the document `uri` at the given revision.
    pub fn analyze(uri: &str, text: &str, revision: u64) -> (document: Document)
        ensures
            document@.is_snapshot_of(uri@, text@, revision),
    {
        let (program, syntax_diagnostics) = parse_text(text);
        let (symbols, mut semantic_diagnostics) = SymbolTable::build(&program);
        let mut repeats = check_attributes(&program);
        semantic_diagnostics.append(&mut repeats);
        Document {
            uri: String::from_str(uri),
            text: String::from_str(text),
            revision,
            program,
            syntax_diagnostics,
            symbols,
            semantic_diagnostics,
        }
    }

    pub fn uri(&self) -> (uri: &String)
        ensures
            uri@ == self@.uri,
    {
        &self.uri
    }

    pub fn text(&self) -> (text: &String)
        ensures
            text@ == self@.text,
    {
        &self.text
    }

    /// The number of changes that led to this snapshot. A reply that was
    /// computed on a snapshot of another revision is out of date.
    pub fn revision(&self) -> (revision: u64)
        ensures
            revision == self@.revision,
    {
        self.revision
    }

    pub fn program(&self) -> (program: &Program)
        ensures
            program@ == self@.program,
            self@.coherent(),
    {
        proof {
            use_type_invariant(self);
        }
        &self.program
    }

    pub fn symbols(&self) -> (symbols: &SymbolTable)
        ensures
            symbols@ == self@.symbols,
            symbols.listing() == self@.listing,
            symbols.wf(),
            self@.coherent(),
    {
        proof {
            use_type_invariant(self);
        }
        &self.symbols
    }

    pub fn syntax_diagnostics(&self) -> (diagnostics: &Vec<SyntaxDiagnostic>)
        ensures
            diagnostics@ == self@.syntax_diagnostics,
            self@.coherent(),
    {
        proof {
            use_type_invariant(self);
        }
        &self.syntax_diagnostics
    }

    pub fn semantic_diagnostics(&self) -> (diagnostics: &Vec<SemanticDiagnostic>)
        ensures
            diagnostics@ == self@.semantic_diagnostics,
            self@.coherent(),
    {
        proof {
            use_type_invariant(self);
        }
        &self.semantic_diagnostics
    }

    /// Finds the line and the column of an offset into the text.
    pub fn position_at(&self, offset: usize) -> (position: Position)
        ensures
            position.line == line_of(self@.text, offset as int),
            position.column == column_of(self@.text, offset as int),
    {
        let chars = chars_of(self.text.as_str());
        position_of(&chars, offset)
    }

    /// Tells what is expected at `position`.
    pub fn context(&self, position: Position) -> (context: SyntaxContext)
        ensures
            context == self@.context(position),
    {
        let chars = chars_of(self.text.as_str());
        match locate(&chars, position) {
            Some(offset) => resolve(&self.program, offset),
            None => SyntaxContext::TopLevel,
        }
    }

    /// Lists what can be written at `position`.
    pub fn completion(&self, position: Position) -> (items: Vec<CompletionItem>)
        ensures
            items_view(items@) == completions(self@.listing, self@.context(position)),
    {
        let context = self.context(position);
        complete(&self.symbols, &context)
    }

    /// Describes what stands at `position`.
    pub fn hover(&self, position: Position) -> (info: Option<HoverInfo>)
        ensures
            info_view(info) == self@.hover(position),
    {
        proof {
            use_type_invariant(self);
        }
        let chars = chars_of(self.text.as_str());
        match locate(&chars, position) {
            Some(offset) => hover(&self.program, &self.symbols, offset),
            None => None,
        }
    }
}

} // verus!
