use schema_lsp::completion::complete;
use schema_lsp::completion::CompletionItem;
use schema_lsp::completion::CompletionKind;
use schema_lsp::hover::hover;
use schema_lsp::lexer::tokenize;
use schema_lsp::parser::parse;
use schema_lsp::resolve::resolve;
use schema_lsp::resolve::AttributeSet;
use schema_lsp::resolve::SyntaxContext;
use schema_lsp::span::Span;
use schema_lsp::symbols::SemanticDiagnostic;
use schema_lsp::symbols::SymbolTable;
use schema_lsp::syntax::Program;

fn analysis(text: &str) -> (Program, SymbolTable) {
    let (program, _) = parse(&tokenize(text));
    let (table, _) = SymbolTable::build(&program);
    (program, table)
}

fn context(text: &str, position: usize) -> SyntaxContext {
    resolve(&analysis(text).0, position)
}

fn labels(items: &Vec<CompletionItem>) -> Vec<String> {
    items.iter().map(|i| i.label.clone()).collect()
}

fn hover_text(text: &str, position: usize) -> Option<String> {
    let (program, table) = analysis(text);
    hover(&program, &table, position).map(|info| info.text)
}

const NONE_PRESENT: AttributeSet = AttributeSet { queryable: false, default: false, optional: false };

#[test]
fn cursor_behind_the_colon_is_a_type_position() {
    let text = "model User { id: }";
    assert_eq!(context(text, 16), SyntaxContext::FieldTypePosition);
    assert_eq!(context(text, 17), SyntaxContext::FieldTypePosition);
    assert_eq!(context(text, 15), SyntaxContext::InsideModelBody);
}

#[test]
fn cursor_behind_queryable_is_an_attribute_position_without_queryable() {
    let text = "model User { id: String queryable | }";
    let expected = SyntaxContext::FieldAttributePosition {
        present: AttributeSet { queryable: true, default: false, optional: false },
    };
    assert_eq!(context(text, 33), expected);
    assert_eq!(context(text, 34), expected);
    let (_, table) = analysis(text);
    let items = complete(&table, &expected);
    assert_eq!(labels(&items), vec!["default", "optional"]);
}

#[test]
fn cursor_in_or_at_the_end_of_a_type_is_a_type_position() {
    let text = "model User { id: String queryable }";
    assert_eq!(context(text, 16), SyntaxContext::FieldTypePosition);
    assert_eq!(context(text, 17), SyntaxContext::FieldTypePosition);
    assert_eq!(context(text, 20), SyntaxContext::FieldTypePosition);
    assert_eq!(context(text, 23), SyntaxContext::FieldTypePosition);
    assert_eq!(
        context(text, 24),
        SyntaxContext::FieldAttributePosition {
            present: AttributeSet { queryable: true, default: false, optional: false },
        }
    );
}

#[test]
fn cursor_behind_the_opening_brace_is_in_the_body() {
    let text = "model User { id: String }  enum E { A }";
    assert_eq!(context(text, 11), SyntaxContext::TopLevel);
    assert_eq!(context(text, 12), SyntaxContext::InsideModelBody);
    assert_eq!(context(text, 13), SyntaxContext::InsideModelBody);
    assert_eq!(context(text, 24), SyntaxContext::FieldAttributePosition { present: NONE_PRESENT });
    assert_eq!(context(text, 25), SyntaxContext::TopLevel);
    assert_eq!(context(text, 34), SyntaxContext::TopLevel);
    assert_eq!(context(text, 35), SyntaxContext::InsideEnumBody);
    assert_eq!(context(text, 38), SyntaxContext::InsideEnumBody);
    assert_eq!(context(text, 39), SyntaxContext::TopLevel);
}

#[test]
fn cursor_outside_every_declaration_is_at_top_level() {
    assert_eq!(context("", 0), SyntaxContext::TopLevel);
    assert_eq!(context("", 10), SyntaxContext::TopLevel);
    assert_eq!(context("model A {}", 0), SyntaxContext::TopLevel);
    assert_eq!(context("model A {}", 3), SyntaxContext::TopLevel);
    assert_eq!(context("model A {}", 10), SyntaxContext::TopLevel);
    assert_eq!(context("model A {}", 1000), SyntaxContext::TopLevel);
}

#[test]
fn cursor_at_the_end_of_an_open_body_is_in_the_body() {
    assert_eq!(context("model A {", 9), SyntaxContext::InsideModelBody);
    assert_eq!(context("model A { x: ", 13), SyntaxContext::FieldTypePosition);
    assert_eq!(
        context("model A { x: Int ", 17),
        SyntaxContext::FieldAttributePosition { present: NONE_PRESENT }
    );
    assert_eq!(context("enum E { A, ", 12), SyntaxContext::InsideEnumBody);
}

#[test]
fn attribute_position_knows_all_present_attributes() {
    let text = "model A { x: Int optional default(1) queryable }";
    assert_eq!(
        context(text, 47),
        SyntaxContext::FieldAttributePosition {
            present: AttributeSet { queryable: true, default: true, optional: true },
        }
    );
}

#[test]
fn top_level_proposes_the_declaration_keywords() {
    let (_, table) = analysis("model A {}");
    let items = complete(&table, &SyntaxContext::TopLevel);
    assert_eq!(labels(&items), vec!["enum", "model"]);
    assert_eq!(items[0].kind, CompletionKind::Keyword);
    assert_eq!(items[0].detail, "Keyword: Declares an enum");
    assert_eq!(items[1].detail, "Keyword: Declares a model");
}

#[test]
fn bodies_propose_nothing() {
    let (_, table) = analysis("model A {} enum B {}");
    assert_eq!(complete(&table, &SyntaxContext::InsideModelBody).len(), 0);
    assert_eq!(complete(&table, &SyntaxContext::InsideEnumBody).len(), 0);
}

#[test]
fn type_position_proposes_builtins_then_declared_names() {
    let (_, table) = analysis("model User {} enum Status {} enum Access {}");
    let items = complete(&table, &SyntaxContext::FieldTypePosition);
    assert_eq!(
        labels(&items),
        vec!["Boolean", "Data", "DateTime", "Float", "Int", "String", "UUID", "Access", "Status", "User"]
    );
    for item in items.iter().take(7) {
        assert_eq!(item.kind, CompletionKind::Type);
        assert_eq!(item.detail, "Built-in type");
    }
    assert_eq!(items[7].kind, CompletionKind::Enum);
    assert_eq!(items[7].detail, "Enum");
    assert_eq!(items[9].kind, CompletionKind::Model);
    assert_eq!(items[9].detail, "Model");
}

#[test]
fn type_position_without_declarations_proposes_the_builtins() {
    let (_, table) = analysis("");
    let items = complete(&table, &SyntaxContext::FieldTypePosition);
    assert_eq!(labels(&items), vec!["Boolean", "Data", "DateTime", "Float", "Int", "String", "UUID"]);
}

#[test]
fn attribute_position_proposes_what_is_not_present() {
    let (_, table) = analysis("");
    let all = complete(&table, &SyntaxContext::FieldAttributePosition { present: NONE_PRESENT });
    assert_eq!(labels(&all), vec!["default", "optional", "queryable"]);
    assert_eq!(all[0].detail, "Attribute: Sets default value for field");
    assert_eq!(all[1].detail, "Attribute: Makes field optional");
    assert_eq!(all[2].detail, "Attribute: Makes field queryable");
    assert_eq!(all[2].kind, CompletionKind::Keyword);
    let some = complete(
        &table,
        &SyntaxContext::FieldAttributePosition {
            present: AttributeSet { queryable: false, default: true, optional: false },
        },
    );
    assert_eq!(labels(&some), vec!["optional", "queryable"]);
    let none = complete(
        &table,
        &SyntaxContext::FieldAttributePosition {
            present: AttributeSet { queryable: true, default: true, optional: true },
        },
    );
    assert_eq!(none.len(), 0);
}

#[test]
fn completion_gives_the_same_list_each_time() {
    let (_, a) = analysis("enum B {} model A {}");
    let (_, b) = analysis("model A {} enum B {}");
    for context in [
        SyntaxContext::TopLevel,
        SyntaxContext::InsideModelBody,
        SyntaxContext::FieldTypePosition,
        SyntaxContext::FieldAttributePosition { present: NONE_PRESENT },
        SyntaxContext::InsideEnumBody,
    ] {
        let first = complete(&a, &context);
        let second = complete(&a, &context);
        let other = complete(&b, &context);
        assert_eq!(labels(&first), labels(&second));
        assert_eq!(labels(&first), labels(&other));
    }
}

#[test]
fn hover_on_enum_field_type_lists_the_variants() {
    let text = "enum Status { Active, Inactive }\nmodel User { status: Status }";
    let (program, table) = analysis(text);
    let info = hover(&program, &table, 56).unwrap();
    assert_eq!(info.text, "enum Status { Active, Inactive }");
    assert!(info.text.contains("Active, Inactive"));
    assert_eq!(info.span, Span { start: 54, end: 60 });
    assert_eq!(info.diagnostic, None);
    assert_eq!(hover_text(text, 54), Some("enum Status { Active, Inactive }".to_string()));
    assert_eq!(hover_text(text, 60), Some("enum Status { Active, Inactive }".to_string()));
}

#[test]
fn hover_on_field_name_shows_the_field() {
    let text = "enum Status { Active }\nmodel User { status: Status default(Active) queryable\n tags: [Tag] optional\n id: UUID }";
    let (program, table) = analysis(text);
    let info = hover(&program, &table, 37).unwrap();
    assert_eq!(info.text, "status: enum Status default(Active) queryable");
    assert_eq!(info.span, Span { start: 36, end: 42 });
    assert_eq!(info.diagnostic, None);
    let tags = hover(&program, &table, 79).unwrap();
    assert_eq!(tags.text, "tags: [Tag (unresolved)] optional");
    assert_eq!(
        tags.diagnostic,
        Some(SemanticDiagnostic::UnresolvedReference { span: Span { start: 84, end: 89 } })
    );
    let id = hover(&program, &table, 100).unwrap();
    assert_eq!(id.text, "id: UUID");
}

#[test]
fn hover_on_model_reference_lists_the_fields() {
    let text = "model Address { street: String, city: String }\nmodel User { home: Address }\nmodel Empty {}\nmodel X { e: Empty }";
    assert_eq!(hover_text(text, 67), Some("model Address { street, city }".to_string()));
    assert_eq!(hover_text(text, 61), Some("home: model Address".to_string()));
    assert_eq!(hover_text(text, 105), Some("model Empty {}".to_string()));
}

#[test]
fn hover_on_builtin_or_unresolved_type_shows_the_field() {
    let text = "model User { id: UUID, ref: Missing }";
    assert_eq!(hover_text(text, 18), Some("id: UUID".to_string()));
    let (program, table) = analysis(text);
    let info = hover(&program, &table, 30).unwrap();
    assert_eq!(info.text, "ref: Missing (unresolved)");
    assert_eq!(info.span, Span { start: 28, end: 35 });
    assert_eq!(
        info.diagnostic,
        Some(SemanticDiagnostic::UnresolvedReference { span: Span { start: 28, end: 35 } })
    );
}

#[test]
fn hover_on_attribute_tells_what_it_means() {
    let text = "model A { x: Int optional default(1) queryable }";
    assert_eq!(hover_text(text, 20), Some("optional: the field may be left out".to_string()));
    assert_eq!(
        hover_text(text, 30),
        Some("default: the value that the field takes when none is given".to_string())
    );
    assert_eq!(hover_text(text, 40), Some("queryable: the field can be used in queries".to_string()));
    let (program, table) = analysis(text);
    assert_eq!(hover(&program, &table, 30).unwrap().span, Span { start: 26, end: 36 });
}

#[test]
fn hover_on_trivial_syntax_shows_nothing() {
    let text = "enum Status { Active, Inactive }\nmodel User { status: Status }  ";
    assert_eq!(hover_text(text, 0), None);
    assert_eq!(hover_text(text, 7), None);
    assert_eq!(hover_text(text, 13), None);
    assert_eq!(hover_text(text, 16), None);
    assert_eq!(hover_text(text, 32), None);
    assert_eq!(hover_text(text, 45), None);
    assert_eq!(hover_text(text, 53), None);
    assert_eq!(hover_text(text, 62), None);
    assert_eq!(hover_text(text, 64), None);
    assert_eq!(hover_text(text, 5000), None);
}

#[test]
fn hover_and_completion_in_an_empty_document_do_not_fail() {
    let (program, table) = analysis("");
    assert!(hover(&program, &table, 0).is_none());
    assert!(hover(&program, &table, 99).is_none());
    assert_eq!(resolve(&program, 0), SyntaxContext::TopLevel);
    assert_eq!(labels(&complete(&table, &resolve(&program, 0))), vec!["enum", "model"]);
    assert_eq!(complete(&table, &SyntaxContext::InsideEnumBody).len(), 0);
}
