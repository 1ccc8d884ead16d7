use schema_lsp::lexer::tokenize;
use schema_lsp::order::place;
use schema_lsp::order::Placement;
use schema_lsp::parser::parse;
use schema_lsp::span::Span;
use schema_lsp::symbols::Entry;
use schema_lsp::symbols::SemanticDiagnostic;
use schema_lsp::symbols::Symbol;
use schema_lsp::symbols::SymbolTable;

fn table_of(text: &str) -> (SymbolTable, Vec<SemanticDiagnostic>) {
    let (program, _) = parse(&tokenize(text));
    SymbolTable::build(&program)
}

fn names(table: &SymbolTable) -> Vec<String> {
    (0..table.len()).map(|i| table.entry(i).name().clone()).collect()
}

#[test]
fn place_orders_names_by_code_point() {
    assert_eq!(place("a", "b"), Placement::Before);
    assert_eq!(place("b", "a"), Placement::After);
    assert_eq!(place("abc", "abc"), Placement::Same);
    assert_eq!(place("", ""), Placement::Same);
    assert_eq!(place("", "a"), Placement::Before);
    assert_eq!(place("ab", "abc"), Placement::Before);
    assert_eq!(place("abc", "ab"), Placement::After);
    assert_eq!(place("Data", "DateTime"), Placement::Before);
    assert_eq!(place("Z", "a"), Placement::Before);
    assert_eq!(place("é", "z"), Placement::After);
}

#[test]
fn table_lists_declarations_in_alphabetical_order() {
    let (table, diagnostics) = table_of("model User {} enum Status {} model Account {} enum Role {}");
    assert_eq!(diagnostics.len(), 0);
    assert_eq!(names(&table), vec!["Account", "Role", "Status", "User"]);
}

#[test]
fn lookup_finds_models_and_enums_by_name() {
    let (table, _) = table_of("model User { id: UUID } enum Status { Active }");
    match table.lookup("User") {
        Some(Entry { symbol: Symbol::Model(model), span }) => {
            assert_eq!(model.name, "User");
            assert_eq!(model.fields.len(), 1);
            assert_eq!(*span, Span { start: 0, end: 23 });
        }
        other => panic!("unexpected entry {:?}", other),
    }
    match table.lookup("Status") {
        Some(Entry { symbol: Symbol::Enum(decl), .. }) => {
            assert_eq!(decl.name, "Status");
            assert_eq!(decl.values.len(), 1);
        }
        other => panic!("unexpected entry {:?}", other),
    }
    assert!(table.lookup("Missing").is_none());
    assert!(table.lookup("user").is_none());
    assert!(table.lookup("").is_none());
}

#[test]
fn redeclared_name_is_reported_and_the_later_declaration_wins() {
    let text = "enum Status { Active }\nmodel Other {}\nenum Status { On, Off }";
    let (table, diagnostics) = table_of(text);
    assert_eq!(
        diagnostics,
        vec![SemanticDiagnostic::DuplicateDeclaration {
            earlier: Span { start: 0, end: 22 },
            later: Span { start: 38, end: 61 },
        }]
    );
    assert_eq!(table.len(), 2);
    match table.lookup("Status") {
        Some(Entry { symbol: Symbol::Enum(decl), span }) => {
            assert_eq!(decl.values.len(), 2);
            assert_eq!(*span, Span { start: 38, end: 61 });
        }
        other => panic!("unexpected entry {:?}", other),
    }
}

#[test]
fn model_and_enum_share_one_namespace() {
    let (table, diagnostics) = table_of("enum Status { Active } model Status { id: UUID }");
    assert_eq!(diagnostics.len(), 1);
    assert_eq!(table.len(), 1);
    assert!(matches!(table.lookup("Status"), Some(Entry { symbol: Symbol::Model(_), .. })));
}

#[test]
fn name_declared_three_times_is_reported_twice() {
    let (table, diagnostics) = table_of("enum A {} enum A {} enum A { X }");
    assert_eq!(
        diagnostics,
        vec![
            SemanticDiagnostic::DuplicateDeclaration {
                earlier: Span { start: 0, end: 9 },
                later: Span { start: 10, end: 19 },
            },
            SemanticDiagnostic::DuplicateDeclaration {
                earlier: Span { start: 10, end: 19 },
                later: Span { start: 20, end: 32 },
            },
        ]
    );
    assert_eq!(table.len(), 1);
}

#[test]
fn insert_hands_back_what_it_replaces() {
    let (program, _) = parse(&tokenize("enum A { X } enum B {} enum A { Y, Z }"));
    let mut table = SymbolTable::new();
    assert_eq!(table.len(), 0);
    assert!(table.insert(Entry::of(&program.declarations[0])).is_none());
    assert!(table.insert(Entry::of(&program.declarations[1])).is_none());
    let replaced = table.insert(Entry::of(&program.declarations[2]));
    match replaced {
        Some(Entry { symbol: Symbol::Enum(decl), span }) => {
            assert_eq!(decl.values.len(), 1);
            assert_eq!(span, Span { start: 0, end: 12 });
        }
        other => panic!("unexpected entry {:?}", other),
    }
    assert_eq!(names(&table), vec!["A", "B"]);
}

#[test]
fn empty_program_gives_an_empty_table() {
    let (table, diagnostics) = table_of("");
    assert_eq!(table.len(), 0);
    assert_eq!(diagnostics.len(), 0);
    assert!(table.lookup("A").is_none());
}

#[test]
fn repeated_attribute_is_reported_with_both_spans() {
    let text = "model A { x: Int default(1) queryable default(2) }";
    let (program, syntax) = parse(&tokenize(text));
    assert_eq!(syntax.len(), 0);
    let diagnostics = schema_lsp::checks::check_attributes(&program);
    assert_eq!(
        diagnostics,
        vec![SemanticDiagnostic::DuplicateAttribute {
            earlier: Span { start: 17, end: 27 },
            later: Span { start: 38, end: 48 },
        }]
    );
}

#[test]
fn attribute_given_three_times_is_reported_twice() {
    let text = "enum E { V }\nmodel A { x: Int optional optional\n y: E queryable optional queryable optional optional }";
    let (program, _) = parse(&tokenize(text));
    let diagnostics = schema_lsp::checks::check_attributes(&program);
    assert_eq!(
        diagnostics,
        vec![
            SemanticDiagnostic::DuplicateAttribute {
                earlier: Span { start: 30, end: 38 },
                later: Span { start: 39, end: 47 },
            },
            SemanticDiagnostic::DuplicateAttribute {
                earlier: Span { start: 54, end: 63 },
                later: Span { start: 73, end: 82 },
            },
            SemanticDiagnostic::DuplicateAttribute {
                earlier: Span { start: 64, end: 72 },
                later: Span { start: 83, end: 91 },
            },
            SemanticDiagnostic::DuplicateAttribute {
                earlier: Span { start: 83, end: 91 },
                later: Span { start: 92, end: 100 },
            },
        ]
    );
}

#[test]
fn fields_without_repeated_attributes_give_no_diagnostic() {
    let (program, _) = parse(&tokenize("model A { x: Int optional queryable default(0) y: Int optional } enum E { V }"));
    assert_eq!(schema_lsp::checks::check_attributes(&program).len(), 0);
    let (empty, _) = parse(&tokenize(""));
    assert_eq!(schema_lsp::checks::check_attributes(&empty).len(), 0);
}

#[test]
fn last_default_is_the_one_that_counts() {
    let (program, _) = parse(&tokenize("model A { x: Int default(1) queryable default(2) optional y: Int optional }"));
    match &program.declarations[0] {
        schema_lsp::syntax::Declaration::Model(node) => {
            let x = schema_lsp::checks::default_value(&node.model.fields[0]);
            assert_eq!(x.map(|v| v.as_str()), Some("2"));
            assert!(schema_lsp::checks::default_value(&node.model.fields[1]).is_none());
        }
        other => panic!("unexpected declaration {:?}", other),
    }
}

#[test]
fn document_lists_collisions_before_repeated_attributes() {
    let text = "model A { x: Int optional optional }\nenum A { V }";
    let document = schema_lsp::document::Document::analyze("u", text, 0);
    assert_eq!(
        document.semantic_diagnostics(),
        &vec![
            SemanticDiagnostic::DuplicateDeclaration {
                earlier: Span { start: 0, end: 36 },
                later: Span { start: 37, end: 49 },
            },
            SemanticDiagnostic::DuplicateAttribute {
                earlier: Span { start: 17, end: 25 },
                later: Span { start: 26, end: 34 },
            },
        ]
    );
}
