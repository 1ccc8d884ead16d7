use schema_lsp::document::locate;
use schema_lsp::document::Document;
use schema_lsp::document::Position;
use schema_lsp::protocol::handle_notification;
use schema_lsp::protocol::handle_request;
use schema_lsp::protocol::initialize_capabilities;
use schema_lsp::protocol::method_not_found;
use schema_lsp::protocol::route_notification;
use schema_lsp::protocol::route_request;
use schema_lsp::protocol::Notification;
use schema_lsp::protocol::NotificationKind;
use schema_lsp::protocol::Reply;
use schema_lsp::protocol::Request;
use schema_lsp::protocol::RequestKind;
use schema_lsp::protocol::METHOD_NOT_FOUND;
use schema_lsp::resolve::AttributeSet;
use schema_lsp::resolve::SyntaxContext;
use schema_lsp::span::Span;
use schema_lsp::store::DocumentStore;
use schema_lsp::store::StoreError;
use schema_lsp::symbols::SemanticDiagnostic;
use schema_lsp::syntax::SyntaxErrorKind;

const TEXT: &str = "enum Status { Active, Inactive }\nmodel User {\n  status: Status\n  id: \n}\n";

fn at(line: usize, column: usize) -> Position {
    Position { line, column }
}

fn offset(text: &str, line: usize, column: usize) -> Option<usize> {
    locate(&text.chars().collect(), at(line, column))
}

#[test]
fn locate_counts_lines_and_columns_from_zero() {
    assert_eq!(offset("ab\ncd\n", 0, 0), Some(0));
    assert_eq!(offset("ab\ncd\n", 0, 2), Some(2));
    assert_eq!(offset("ab\ncd\n", 1, 0), Some(3));
    assert_eq!(offset("ab\ncd\n", 1, 1), Some(4));
    assert_eq!(offset("ab\ncd\n", 2, 0), Some(6));
    assert_eq!(offset("", 0, 0), Some(0));
}

#[test]
fn locate_clamps_a_column_behind_the_end_of_its_line() {
    assert_eq!(offset("ab\ncd\n", 0, 3), Some(2));
    assert_eq!(offset("ab\ncd\n", 0, usize::MAX), Some(2));
    assert_eq!(offset("ab\ncd", 1, 9), Some(5));
    assert_eq!(offset("", 0, 5), Some(0));
}

#[test]
fn locate_has_no_offset_for_a_line_behind_the_end() {
    assert_eq!(offset("ab\ncd\n", 3, 0), None);
    assert_eq!(offset("ab", 1, 0), None);
    assert_eq!(offset("", 1, 0), None);
    assert_eq!(offset("a\n", usize::MAX, 0), None);
}

#[test]
fn document_holds_the_analysis_of_its_text() {
    let document = Document::analyze("file:///a.schema", TEXT, 7);
    assert_eq!(document.uri(), "file:///a.schema");
    assert_eq!(document.text(), TEXT);
    assert_eq!(document.revision(), 7);
    assert_eq!(document.program().declarations.len(), 2);
    assert_eq!(document.symbols().len(), 2);
    assert_eq!(document.syntax_diagnostics().len(), 1);
    assert_eq!(document.syntax_diagnostics()[0].kind, SyntaxErrorKind::UnexpectedToken);
    assert_eq!(document.syntax_diagnostics()[0].span, Span { start: 70, end: 71 });
    assert_eq!(document.semantic_diagnostics().len(), 0);
}

#[test]
fn document_reports_collisions() {
    let document = Document::analyze("u", "enum A {}\nenum A {}", 0);
    assert_eq!(
        document.semantic_diagnostics(),
        &vec![SemanticDiagnostic::DuplicateDeclaration {
            earlier: Span { start: 0, end: 9 },
            later: Span { start: 10, end: 19 },
        }]
    );
}

#[test]
fn document_answers_by_line_and_column() {
    let document = Document::analyze("u", TEXT, 0);
    assert_eq!(document.context(at(0, 0)), SyntaxContext::TopLevel);
    assert_eq!(document.context(at(0, 14)), SyntaxContext::InsideEnumBody);
    assert_eq!(document.context(at(1, 12)), SyntaxContext::InsideModelBody);
    assert_eq!(document.context(at(2, 10)), SyntaxContext::FieldTypePosition);
    assert_eq!(document.context(at(3, 6)), SyntaxContext::FieldTypePosition);
    assert_eq!(document.context(at(3, 100)), SyntaxContext::FieldTypePosition);
    assert_eq!(document.context(at(5, 0)), SyntaxContext::TopLevel);
    assert_eq!(document.context(at(6, 0)), SyntaxContext::TopLevel);
    assert_eq!(document.context(at(60, 0)), SyntaxContext::TopLevel);
    let items = document.completion(at(3, 6));
    let labels: Vec<&str> = items.iter().map(|i| i.label.as_str()).collect();
    assert_eq!(labels, vec!["Boolean", "Data", "DateTime", "Float", "Int", "String", "UUID", "Status", "User"]);
    let info = document.hover(at(2, 12)).unwrap();
    assert_eq!(info.text, "enum Status { Active, Inactive }");
    assert!(document.hover(at(60, 0)).is_none());
    assert!(document.hover(at(0, 0)).is_none());
    let top: Vec<String> = document.completion(at(60, 0)).iter().map(|i| i.label.clone()).collect();
    assert_eq!(top, vec!["enum", "model"]);
}

#[test]
fn document_attribute_position_is_behind_the_type_on_its_line() {
    let document = Document::analyze("u", "model A {\n  x: Int optional \n}", 0);
    assert_eq!(
        document.context(at(1, 18)),
        SyntaxContext::FieldAttributePosition {
            present: AttributeSet { queryable: false, default: false, optional: true },
        }
    );
    let labels: Vec<String> = document.completion(at(1, 18)).iter().map(|i| i.label.clone()).collect();
    assert_eq!(labels, vec!["default", "queryable"]);
}

#[test]
fn store_opens_changes_and_closes_documents() {
    let mut store = DocumentStore::new();
    assert_eq!(store.document("a").err(), Some(StoreError::DocumentNotFound));
    assert_eq!(store.open("a", "model A {}").text(), "model A {}");
    assert_eq!(store.open("b", "enum B {}").revision(), 0);
    assert_eq!(store.document("a").unwrap().text(), "model A {}");
    assert_eq!(store.document("a").unwrap().revision(), 0);
    assert_eq!(store.document("b").unwrap().text(), "enum B {}");
    assert_eq!(store.change("a", "model A { x: Int }").map(|d| d.revision()), Ok(1));
    assert_eq!(store.document("a").unwrap().text(), "model A { x: Int }");
    assert_eq!(store.document("a").unwrap().revision(), 1);
    assert_eq!(store.document("b").unwrap().revision(), 0);
    assert_eq!(store.change("a", "").map(|d| d.text().clone()), Ok(String::new()));
    assert_eq!(store.document("a").unwrap().revision(), 2);
    assert_eq!(store.document("a").unwrap().program().declarations.len(), 0);
    assert_eq!(store.close("a"), Ok(()));
    assert_eq!(store.document("a").err(), Some(StoreError::DocumentNotFound));
    assert_eq!(store.document("b").unwrap().text(), "enum B {}");
    assert_eq!(store.close("a"), Err(StoreError::DocumentNotFound));
}

#[test]
fn store_reopening_replaces_the_snapshot() {
    let mut store = DocumentStore::new();
    store.open("a", "model A {}");
    assert!(store.change("a", "model B {}").is_ok());
    store.open("a", "enum C {}");
    let document = store.document("a").unwrap();
    assert_eq!(document.text(), "enum C {}");
    assert_eq!(document.revision(), 0);
    assert_eq!(store.close("a"), Ok(()));
    assert_eq!(store.close("a"), Err(StoreError::DocumentNotFound));
}

#[test]
fn store_fails_on_unknown_documents() {
    let mut store = DocumentStore::new();
    store.open("a", "model A {}");
    assert_eq!(store.change("b", "x").err(), Some(StoreError::DocumentNotFound));
    assert_eq!(store.close("b"), Err(StoreError::DocumentNotFound));
    assert_eq!(store.query_completion("b", at(0, 0)).err(), Some(StoreError::DocumentNotFound));
    assert_eq!(store.query_hover("b", at(0, 0)).err(), Some(StoreError::DocumentNotFound));
    assert_eq!(store.document("a").unwrap().text(), "model A {}");
}

#[test]
fn store_answers_queries_on_the_latest_snapshot() {
    let mut store = DocumentStore::new();
    store.open("a", "model A { x: ");
    let before: Vec<String> =
        store.query_completion("a", at(0, 13)).unwrap().iter().map(|i| i.label.clone()).collect();
    assert_eq!(before, vec!["Boolean", "Data", "DateTime", "Float", "Int", "String", "UUID", "A"]);
    assert_eq!(
        store.change("a", "enum E { V }\nmodel A { x: E }").map(|d| d.syntax_diagnostics().len()),
        Ok(0)
    );
    let after: Vec<String> =
        store.query_completion("a", at(1, 13)).unwrap().iter().map(|i| i.label.clone()).collect();
    assert_eq!(after, vec!["Boolean", "Data", "DateTime", "Float", "Int", "String", "UUID", "A", "E"]);
    let info = store.query_hover("a", at(1, 13)).unwrap().unwrap();
    assert_eq!(info.text, "enum E { V }");
    assert!(store.query_hover("a", at(0, 0)).unwrap().is_none());
}

#[test]
fn requests_are_routed_by_method_name() {
    assert_eq!(route_request("initialize"), RequestKind::Initialize);
    assert_eq!(route_request("textDocument/completion"), RequestKind::Completion);
    assert_eq!(route_request("textDocument/hover"), RequestKind::Hover);
    assert_eq!(route_request("textDocument/definition"), RequestKind::Unknown);
    assert_eq!(route_request("Initialize"), RequestKind::Unknown);
    assert_eq!(route_request(""), RequestKind::Unknown);
}

#[test]
fn notifications_are_routed_by_method_name() {
    assert_eq!(route_notification("textDocument/didOpen"), NotificationKind::DidOpen);
    assert_eq!(route_notification("textDocument/didChange"), NotificationKind::DidChange);
    assert_eq!(route_notification("textDocument/didClose"), NotificationKind::DidClose);
    assert_eq!(route_notification("initialized"), NotificationKind::Other);
    assert_eq!(route_notification(""), NotificationKind::Other);
}

#[test]
fn unknown_method_is_answered_with_method_not_found() {
    let failure = method_not_found("workspace/symbol");
    assert_eq!(failure.code, -32601);
    assert_eq!(failure.code, METHOD_NOT_FOUND);
    assert_eq!(failure.message, "Method not found: workspace/symbol");
    assert_eq!(method_not_found("").message, "Method not found: ");
}

#[test]
fn capabilities_offer_full_sync_hover_and_completion() {
    let capabilities = initialize_capabilities();
    assert!(capabilities.full_text_sync);
    assert!(capabilities.hover_provider);
    assert!(capabilities.completion_provider);
    assert_eq!(capabilities.trigger_characters, vec!['.', ':']);
}

#[test]
fn session_answers_requests_from_what_notifications_left() {
    let mut store = DocumentStore::new();
    let uri = "file:///a.schema".to_string();
    assert!(matches!(handle_request(&store, &Request::Initialize), Reply::Capabilities(_)));
    assert!(matches!(
        handle_request(&store, &Request::Hover { uri: uri.clone(), position: at(0, 0) }),
        Reply::DocumentNotFound
    ));
    assert!(matches!(
        handle_request(&store, &Request::Completion { uri: uri.clone(), position: at(0, 0) }),
        Reply::DocumentNotFound
    ));
    assert_eq!(
        handle_notification(&mut store, &Notification::DidChange { uri: uri.clone(), text: "x".to_string() }),
        Err(StoreError::DocumentNotFound)
    );
    assert_eq!(
        handle_notification(&mut store, &Notification::DidOpen { uri: uri.clone(), text: TEXT.to_string() }),
        Ok(())
    );
    assert_eq!(handle_notification(&mut store, &Notification::Other), Ok(()));
    match handle_request(&store, &Request::Hover { uri: uri.clone(), position: at(2, 12) }) {
        Reply::Hover(Some(info)) => assert_eq!(info.text, "enum Status { Active, Inactive }"),
        other => panic!("unexpected reply {:?}", other),
    }
    match handle_request(&store, &Request::Completion { uri: uri.clone(), position: at(0, 0) }) {
        Reply::Completions(items) => {
            let labels: Vec<String> = items.iter().map(|i| i.label.clone()).collect();
            assert_eq!(labels, vec!["enum", "model"]);
        }
        other => panic!("unexpected reply {:?}", other),
    }
    match handle_request(&store, &Request::Unknown { method: "shutdown".to_string() }) {
        Reply::Failure(failure) => {
            assert_eq!(failure.code, METHOD_NOT_FOUND);
            assert_eq!(failure.message, "Method not found: shutdown");
        }
        other => panic!("unexpected reply {:?}", other),
    }
    assert_eq!(
        handle_notification(&mut store, &Notification::DidChange { uri: uri.clone(), text: "".to_string() }),
        Ok(())
    );
    assert_eq!(store.document(&uri).unwrap().revision(), 1);
    assert_eq!(handle_notification(&mut store, &Notification::DidClose { uri: uri.clone() }), Ok(()));
    assert_eq!(
        handle_notification(&mut store, &Notification::DidClose { uri: uri.clone() }),
        Err(StoreError::DocumentNotFound)
    );
}

#[test]
fn position_of_an_offset_is_its_line_and_column() {
    let chars: Vec<char> = "ab\ncd\n".chars().collect();
    assert_eq!(schema_lsp::document::position_of(&chars, 0), at(0, 0));
    assert_eq!(schema_lsp::document::position_of(&chars, 2), at(0, 2));
    assert_eq!(schema_lsp::document::position_of(&chars, 3), at(1, 0));
    assert_eq!(schema_lsp::document::position_of(&chars, 5), at(1, 2));
    assert_eq!(schema_lsp::document::position_of(&chars, 6), at(2, 0));
    assert_eq!(schema_lsp::document::position_of(&chars, 60), at(2, 0));
    assert_eq!(schema_lsp::document::position_of(&Vec::new(), 0), at(0, 0));
    assert_eq!(schema_lsp::document::position_of(&Vec::new(), 9), at(0, 0));
}

#[test]
fn position_and_offset_undo_each_other() {
    let text = "enum A { X }\n\nmodel B {\n  x: A\n}";
    let chars: Vec<char> = text.chars().collect();
    for o in 0..=chars.len() {
        let position = schema_lsp::document::position_of(&chars, o);
        assert_eq!(locate(&chars, position), Some(o));
    }
    let document = Document::analyze("u", text, 0);
    assert_eq!(document.position_at(14), at(2, 0));
    assert_eq!(document.position_at(26), at(3, 2));
}

#[test]
fn diagnostics_have_messages_and_spans() {
    let document = Document::analyze("u", "model A { x: Missing optional optional\nmodel A {}", 0);
    let syntax = document.syntax_diagnostics();
    assert_eq!(syntax.len(), 1);
    assert_eq!(syntax[0].kind, SyntaxErrorKind::UnterminatedBody);
    assert_eq!(syntax[0].message(), "unterminated body: a closing brace is missing");
    let semantic = document.semantic_diagnostics();
    assert_eq!(semantic.len(), 2);
    assert_eq!(
        semantic[0].message(),
        "duplicate declaration: this one replaces an earlier one of the same name"
    );
    assert_eq!(semantic[0].span(), Span { start: 39, end: 49 });
    assert_eq!(semantic[1].message(), "duplicate attribute: this one replaces an earlier one on the same field");
    assert_eq!(semantic[1].span(), Span { start: 30, end: 38 });
    let unresolved = SemanticDiagnostic::UnresolvedReference { span: Span { start: 1, end: 2 } };
    assert_eq!(unresolved.message(), "unresolved reference: no model or enum has this name");
    assert_eq!(unresolved.span(), Span { start: 1, end: 2 });
    let unexpected = schema_lsp::syntax::SyntaxDiagnostic {
        kind: SyntaxErrorKind::UnexpectedToken,
        span: Span { start: 0, end: 1 },
    };
    assert_eq!(unexpected.message(), "unexpected token");
}
